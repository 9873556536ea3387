use levelrelay::event_loop::{LoopState, RefreshStep, RelayLoop};
use levelrelay::history::{catalog_text, HistoryCache, MessageRecord, PageRequest, RefreshMode};

/// A channel whose messages are kept oldest first, answering page requests
/// as the chat service does.
struct Channel {
    messages: Vec<(u64, Option<String>)>,
    fetches: usize,
}

impl Channel {
    fn new() -> Self {
        Channel { messages: Vec::new(), fetches: 0 }
    }

    fn post(&mut self, url: Option<&str>) {
        let id = 1000 + self.messages.len() as u64 * 7;
        self.messages.push((id, url.map(|u| u.to_string())));
    }

    fn fetch(&mut self, req: PageRequest) -> Vec<MessageRecord> {
        self.fetches += 1;
        let rec = |m: &(u64, Option<String>)| MessageRecord { id: m.0, attachment_url: m.1.clone() };
        match req {
            PageRequest::Latest => self.messages.iter().rev().take(100).map(rec).collect(),
            PageRequest::Before(c) => {
                self.messages.iter().rev().filter(|m| m.0 < c).take(100).map(rec).collect()
            }
            PageRequest::After(c) => self.messages.iter().filter(|m| m.0 > c).take(100).map(rec).collect(),
        }
    }
}

fn query(relay: &mut RelayLoop, channel: &mut Channel) -> Vec<String> {
    let mut req = relay.begin_refresh().unwrap();
    loop {
        let page = channel.fetch(req);
        match relay.page_arrived(page).unwrap() {
            RefreshStep::Fetch(next) => req = next,
            RefreshStep::Publish(catalog) => return catalog,
        }
    }
}

#[test]
fn backfill_of_250_messages_takes_three_pages() {
    let mut channel = Channel::new();
    for i in 0..250 {
        channel.post(Some(&format!("u{}", i)));
    }
    let mut relay = RelayLoop::new();
    let catalog = query(&mut relay, &mut channel);
    assert_eq!(channel.fetches, 3);
    assert_eq!(catalog.len(), 250);
    assert_eq!(catalog[0], "u249");
    assert_eq!(catalog[249], "u0");
    assert_eq!(relay.current(), LoopState::Idle);
}

#[test]
fn backfill_of_empty_channel_takes_one_page() {
    let mut channel = Channel::new();
    let mut cache = HistoryCache::new();
    let mode = cache.begin_refresh();
    assert_eq!(mode, RefreshMode::Backfill);
    let req = cache.next_request(mode);
    assert_eq!(req, PageRequest::Latest);
    let next = cache.absorb(mode, channel.fetch(req));
    assert_eq!(next, None);
    assert_eq!(channel.fetches, 1);
    assert!(cache.is_initialized());
    assert!(cache.catalog().is_empty());
}

#[test]
fn backfill_marks_cache_initialized() {
    let mut channel = Channel::new();
    for _ in 0..250 {
        channel.post(None);
    }
    let mut cache = HistoryCache::new();
    let mode = cache.begin_refresh();
    let mut req = cache.next_request(mode);
    let mut pages = 0;
    loop {
        pages += 1;
        match cache.absorb(mode, channel.fetch(req)) {
            Some(next) => {
                assert!(!cache.is_initialized());
                req = next;
            }
            None => break,
        }
    }
    assert_eq!(pages, 3);
    assert!(cache.is_initialized());
    assert_eq!(cache.len(), 250);
}

#[test]
fn catalog_follows_new_messages() {
    let mut channel = Channel::new();
    for i in 0..153 {
        match i {
            10 => channel.post(Some("a")),
            70 => channel.post(Some("b")),
            140 => channel.post(Some("c")),
            _ => channel.post(None),
        }
    }
    let mut relay = RelayLoop::new();
    assert_eq!(query(&mut relay, &mut channel), vec!["c", "b", "a"]);
    channel.post(Some("d"));
    assert_eq!(query(&mut relay, &mut channel), vec!["d", "c", "b", "a"]);
}

#[test]
fn second_query_without_news_repeats_and_fetches_no_backfill() {
    let mut channel = Channel::new();
    for i in 0..120 {
        channel.post(Some(&format!("x{}", i)));
    }
    let mut relay = RelayLoop::new();
    let first = query(&mut relay, &mut channel);
    let fetched = channel.fetches;
    let req = relay.begin_refresh().unwrap();
    assert!(matches!(req, PageRequest::After(_)));
    assert_eq!(relay.current(), LoopState::Refreshing(RefreshMode::CatchUp));
    let second = match relay.page_arrived(channel.fetch(req)).unwrap() {
        RefreshStep::Publish(c) => c,
        RefreshStep::Fetch(_) => panic!("more pages asked for"),
    };
    assert_eq!(channel.fetches, fetched + 1);
    assert_eq!(first, second);
}

#[test]
fn many_new_messages_are_prepended_newest_first() {
    let mut channel = Channel::new();
    channel.post(Some("old"));
    let mut relay = RelayLoop::new();
    assert_eq!(query(&mut relay, &mut channel), vec!["old"]);
    for i in 0..230 {
        channel.post(Some(&format!("n{}", i)));
    }
    let catalog = query(&mut relay, &mut channel);
    let mut expected: Vec<String> = (0..230).rev().map(|i| format!("n{}", i)).collect();
    expected.push("old".to_string());
    assert_eq!(catalog, expected);
}

#[test]
fn relay_and_refresh_never_overlap() {
    let mut relay = RelayLoop::new();
    assert!(relay.begin_relay());
    assert_eq!(relay.begin_refresh(), None);
    assert_eq!(relay.current(), LoopState::Relaying);
    relay.end_relay();
    assert_eq!(relay.current(), LoopState::Idle);
    let req = relay.begin_refresh().unwrap();
    assert_eq!(req, PageRequest::Latest);
    assert!(!relay.begin_relay());
    assert!(relay.page_arrived(Vec::new()).is_some());
    assert_eq!(relay.current(), LoopState::Idle);
    assert!(relay.page_arrived(Vec::new()).is_none());
}

#[test]
fn catalog_text_joins_with_newlines() {
    assert_eq!(catalog_text(&vec![]), "");
    assert_eq!(catalog_text(&vec!["a".to_string()]), "a");
    assert_eq!(
        catalog_text(&vec!["d".to_string(), "c".to_string(), "b".to_string()]),
        "d\nc\nb"
    );
}

#[test]
fn interleaved_uploads_and_queries_never_overlap() {
    let mut channel = Channel::new();
    let mut relay = RelayLoop::new();
    let mut seed: u64 = 0x2545F4914F6CDD1D;
    let mut relays = 0;
    let mut queries = 0;
    for _ in 0..1000 {
        seed = seed.wrapping_mul(6364136223846793005).wrapping_add(1442695040888963407);
        if (seed >> 33) % 2 == 0 {
            assert!(relay.begin_relay());
            assert_eq!(relay.begin_refresh(), None);
            assert!(relay.page_arrived(Vec::new()).is_none());
            channel.post(Some(&format!("f{}", relays)));
            relay.end_relay();
            relays += 1;
        } else {
            let mut req = relay.begin_refresh().unwrap();
            let catalog = loop {
                assert!(!relay.begin_relay());
                match relay.page_arrived(channel.fetch(req)).unwrap() {
                    RefreshStep::Fetch(next) => req = next,
                    RefreshStep::Publish(c) => break c,
                }
            };
            let expected: Vec<String> = (0..relays).rev().map(|i| format!("f{}", i)).collect();
            assert_eq!(catalog, expected);
            queries += 1;
        }
        assert_eq!(relay.current(), LoopState::Idle);
    }
    assert!(relays > 0 && queries > 0);
}
