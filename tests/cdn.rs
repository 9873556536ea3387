use levelrelay::cdn::PurgeCacheByUrl;

#[test]
fn purge_path_names_the_zone() {
    let purge = PurgeCacheByUrl { identifier: "abc123", urls: vec!["https://x/levels"] };
    assert_eq!(purge.path(), "zones/abc123/purge_cache");
}

#[test]
fn purge_body_lists_every_url_in_order() {
    let purge = PurgeCacheByUrl { identifier: "z", urls: vec!["u1", "u2", "u3"] };
    let body = purge.body().unwrap();
    assert_eq!(body.files, vec!["u1", "u2", "u3"]);
    let empty = PurgeCacheByUrl { identifier: "z", urls: vec![] };
    assert!(empty.body().unwrap().files.is_empty());
}

