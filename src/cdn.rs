use vstd::prelude::*;
use vstd::string::StringExecFns;

verus! {

/// A request to the CDN to drop its cached copies of some addresses of
/// one zone.
pub struct PurgeCacheByUrl<'a> {
    pub identifier: &'a str,
    pub urls: Vec<&'a str>,
}

/// The body of a purge request: the addresses to drop.
pub struct PurgeCacheByUrlsParams<'a> {
    pub files: Vec<&'a str>,
}

/// The CDN's answer to a purge request: the identifier it gave the request.
pub struct PurgeCacheByUrlsResponse {
    pub id: String,
}

/// The path of the purge endpoint of zone `identifier`.
pub open spec fn purge_path(identifier: Seq<char>) -> Seq<char> {
    "zones/"@ + identifier + "/purge_cache"@
}

impl<'a> PurgeCacheByUrl<'a> {
    /// The endpoint's path, below the API's base address.
    pub fn path(&self) -> (r: String)
        ensures
            r@ == purge_path(self.identifier@),
    {
        let mut p = String::from_str("zones/");
        p.append(self.identifier);
        p.append("/purge_cache");
        p
    }

    /// The request body: every address of the request, in order.
    pub fn body(&self) -> (r: Option<PurgeCacheByUrlsParams<'a>>)
        ensures
            r matches Some(b) && b.files@ == self.urls@,
    {
        let mut files: Vec<&'a str> = Vec::new();
        let mut i: usize = 0;
        while i < self.urls.len()
            invariant
                i <= self.urls@.len(),
                files@ == self.urls@.take(i as int),
            decreases self.urls@.len() - i,
        {
            files.push(self.urls[i]);
            proof {
                assert(self.urls@.take(i + 1) =~= self.urls@.take(i as int).push(self.urls@[i as int]));
            }
            i = i + 1;
        }
        assert(self.urls@.take(i as int) =~= self.urls@);
        Some(PurgeCacheByUrlsParams { files })
    }
}

} // verus!
