use vstd::prelude::*;
use vstd::string::StringExecFns;

verus! {

/// Most messages asked for in one page of channel history.
pub const PAGE_SIZE: usize = 100;

/// One message of the channel: its identifier, which grows with time, and
/// the address of its first attachment, if it has one.
pub struct MessageRecord {
    pub id: u64,
    pub attachment_url: Option<String>,
}

/// One page of channel history to fetch, of at most `PAGE_SIZE` messages.
#[derive(Clone, Copy, Debug, PartialEq, Eq, Structural)]
pub enum PageRequest {
    /// The newest messages, newest first.
    Latest,
    /// Messages strictly older than the given one, newest first.
    Before(u64),
    /// Messages strictly newer than the given one, oldest first.
    After(u64),
}

/// How a refresh walks the history.
#[derive(Clone, Copy, Debug, PartialEq, Eq, Structural)]
pub enum RefreshMode {
    /// Walk backwards from the newest message to the first one.
    Backfill,
    /// Walk forwards from the newest message held.
    CatchUp,
}

/// The channel's messages as far as they have been fetched, newest first.
pub struct HistoryCache {
    records: Vec<MessageRecord>,
    initialized: bool,
}

/// The addresses of the attachments in `s`, in the order of `s`.
pub open spec fn catalog_of(s: Seq<MessageRecord>) -> Seq<Seq<char>>
    decreases s.len(),
{
    if s.len() == 0 {
        Seq::empty()
    } else {
        catalog_of(s.drop_last()) + url_of(s.last())
    }
}

pub open spec fn url_of(r: MessageRecord) -> Seq<Seq<char>> {
    match r.attachment_url {
        Some(u) => seq![u@],
        None => Seq::empty(),
    }
}

pub open spec fn strings_view(v: Seq<String>) -> Seq<Seq<char>> {
    v.map_values(|s: String| s@)
}

/// A refresh backfills until a whole walk has been made, and while nothing
/// is held; after that it catches up.
pub open spec fn mode_for(records: Seq<MessageRecord>, initialized: bool) -> RefreshMode {
    if initialized && records.len() > 0 {
        RefreshMode::CatchUp
    } else {
        RefreshMode::Backfill
    }
}

/// The page to fetch next: older than the oldest record when backfilling,
/// newer than the newest when catching up, the newest page when nothing is
/// held.
pub open spec fn request_for(records: Seq<MessageRecord>, mode: RefreshMode) -> PageRequest {
    if records.len() == 0 {
        PageRequest::Latest
    } else {
        match mode {
            RefreshMode::Backfill => PageRequest::Before(records.last().id),
            RefreshMode::CatchUp => PageRequest::After(records[0].id),
        }
    }
}

/// The records after a page came in: a backfill page (newest first) goes
/// to the tail, a catch-up page (oldest first) goes reversed to the front.
pub open spec fn absorbed(records: Seq<MessageRecord>, mode: RefreshMode, page: Seq<MessageRecord>) -> Seq<MessageRecord> {
    match mode {
        RefreshMode::Backfill => records + page,
        RefreshMode::CatchUp => page.reverse() + records,
    }
}

/// A page shorter than `PAGE_SIZE` reaches the end of what there is.
pub open spec fn page_ends(page: Seq<MessageRecord>) -> bool {
    page.len() < PAGE_SIZE
}

/// Whether the cache is initialized once a page came in.
pub open spec fn initialized_after(initialized: bool, mode: RefreshMode, page: Seq<MessageRecord>) -> bool {
    initialized || (mode == RefreshMode::Backfill && page_ends(page))
}

/// What follows a page: nothing when it ends the walk, else the next page.
pub open spec fn next_after(records: Seq<MessageRecord>, mode: RefreshMode, page: Seq<MessageRecord>) -> Option<PageRequest> {
    if page_ends(page) {
        None
    } else {
        Some(request_for(absorbed(records, mode, page), mode))
    }
}

/// The catalog of two runs of records one after the other.
pub proof fn lemma_catalog_concat(a: Seq<MessageRecord>, b: Seq<MessageRecord>)
    ensures
        catalog_of(a + b) == catalog_of(a) + catalog_of(b),
    decreases b.len(),
{
    if b.len() == 0 {
        assert(a + b =~= a);
        assert(catalog_of(b) =~= Seq::<Seq<char>>::empty());
        assert(catalog_of(a) + catalog_of(b) =~= catalog_of(a));
    } else {
        lemma_catalog_concat(a, b.drop_last());
        assert((a + b).drop_last() =~= a + b.drop_last());
        assert(catalog_of(a) + catalog_of(b.drop_last()) + url_of(b.last()) =~= catalog_of(a) + (
        catalog_of(b.drop_last()) + url_of(b.last())));
    }
}

/// Reversing two runs of records one after the other.
proof fn lemma_reverse_concat(a: Seq<MessageRecord>, b: Seq<MessageRecord>)
    ensures
        (a + b).reverse() == b.reverse() + a.reverse(),
{
    assert((a + b).reverse() =~= b.reverse() + a.reverse());
}

/// A second refresh of a cache that a whole backfill has filled fetches no
/// backfill page: it asks only for what is newer than its newest record, and
/// when nothing is newer it keeps its records and its catalog as they were
/// and is over after that one page.
pub proof fn lemma_refresh_again_unchanged(records: Seq<MessageRecord>)
    requires
        records.len() > 0,
    ensures
        mode_for(records, true) == RefreshMode::CatchUp,
        request_for(records, RefreshMode::CatchUp) == PageRequest::After(records[0].id),
        absorbed(records, RefreshMode::CatchUp, Seq::empty()) == records,
        catalog_of(absorbed(records, RefreshMode::CatchUp, Seq::empty())) == catalog_of(records),
        initialized_after(true, RefreshMode::CatchUp, Seq::empty()),
        next_after(records, RefreshMode::CatchUp, Seq::empty()) == None::<PageRequest>,
{
    assert(Seq::<MessageRecord>::empty().reverse() =~= Seq::<MessageRecord>::empty());
    assert(Seq::<MessageRecord>::empty() + records =~= records);
}

/// Catching up on new messages, given oldest first, puts the addresses of
/// their attachments in front of the catalog, newest first, and changes
/// nothing else of it.
pub proof fn lemma_catch_up_prepends(records: Seq<MessageRecord>, page: Seq<MessageRecord>)
    ensures
        catalog_of(absorbed(records, RefreshMode::CatchUp, page)) == catalog_of(page.reverse())
            + catalog_of(records),
{
    lemma_catalog_concat(page.reverse(), records);
}

/// Catching up page by page comes to the same as catching up on all the
/// new messages at once.
pub proof fn lemma_catch_up_pages_compose(
    records: Seq<MessageRecord>,
    first: Seq<MessageRecord>,
    second: Seq<MessageRecord>,
)
    ensures
        absorbed(absorbed(records, RefreshMode::CatchUp, first), RefreshMode::CatchUp, second)
            == absorbed(records, RefreshMode::CatchUp, first + second),
{
    lemma_reverse_concat(first, second);
    assert(second.reverse() + (first.reverse() + records) =~= (second.reverse() + first.reverse())
        + records);
}

/// Lines joined by newlines, with none after the last.
pub open spec fn joined(lines: Seq<Seq<char>>) -> Seq<char>
    decreases lines.len(),
{
    if lines.len() == 0 {
        Seq::empty()
    } else if lines.len() == 1 {
        lines[0]
    } else {
        joined(lines.drop_last()) + "\n"@ + lines.last()
    }
}

/// The body of a catalog reply: one address per line.
pub fn catalog_text(urls: &Vec<String>) -> (r: String)
    ensures
        r@ == joined(strings_view(urls@)),
{
    let mut out = String::new();
    let mut i: usize = 0;
    while i < urls.len()
        invariant
            i <= urls@.len(),
            out@ == joined(strings_view(urls@.take(i as int))),
        decreases urls@.len() - i,
    {
        proof {
            assert(strings_view(urls@.take(i + 1)).drop_last() =~= strings_view(urls@.take(i as int)));
        }
        if i > 0 {
            out.append("\n");
        }
        out.append(urls[i].as_str());
        proof {
            if i == 0 {
                assert(strings_view(urls@.take(1)) =~= seq![urls@[0]@]);
                assert(out@ =~= urls@[0]@);
            }
        }
        i = i + 1;
    }
    assert(urls@.take(i as int) =~= urls@);
    out
}

impl HistoryCache {
    /// The records held, newest first.
    pub closed spec fn records(&self) -> Seq<MessageRecord> {
        self.records@
    }

    /// Whether a whole backfill has been made.
    pub closed spec fn initialized(&self) -> bool {
        self.initialized
    }

    /// An empty cache that has fetched nothing.
    pub fn new() -> (r: Self)
        ensures
            r.records() == Seq::<MessageRecord>::empty(),
            !r.initialized(),
    {
        HistoryCache { records: Vec::new(), initialized: false }
    }

    /// Whether a whole backfill has been made.
    pub fn is_initialized(&self) -> (r: bool)
        ensures
            r == self.initialized(),
    {
        self.initialized
    }

    /// Number of records held.
    pub fn len(&self) -> (r: usize)
        ensures
            r == self.records().len(),
    {
        self.records.len()
    }

    /// How the next refresh walks the history.
    pub fn begin_refresh(&self) -> (r: RefreshMode)
        ensures
            r == mode_for(self.records(), self.initialized()),
    {
        if self.initialized && self.records.len() > 0 {
            RefreshMode::CatchUp
        } else {
            RefreshMode::Backfill
        }
    }

    /// The page that a refresh in `mode` fetches next.
    pub fn next_request(&self, mode: RefreshMode) -> (r: PageRequest)
        ensures
            r == request_for(self.records(), mode),
    {
        let n = self.records.len();
        if n == 0 {
            PageRequest::Latest
        } else {
            match mode {
                RefreshMode::Backfill => PageRequest::Before(self.records[n - 1].id),
                RefreshMode::CatchUp => PageRequest::After(self.records[0].id),
            }
        }
    }

    /// Takes in a page fetched in `mode`, and says what to fetch next, or
    /// `None` when the refresh is over.
    pub fn absorb(&mut self, mode: RefreshMode, page: Vec<MessageRecord>) -> (next: Option<
        PageRequest,
    >)
        ensures
            final(self).records() == absorbed(old(self).records(), mode, page@),
            final(self).initialized() == initialized_after(old(self).initialized(), mode, page@),
            next == next_after(old(self).records(), mode, page@),
    {
        let ends = page.len() < PAGE_SIZE;
        let mut page = page;
        match mode {
            RefreshMode::Backfill => {
                self.records.append(&mut page);
                if ends {
                    self.initialized = true;
                }
            },
            RefreshMode::CatchUp => {
                let ghost p = page@;
                let mut front: Vec<MessageRecord> = Vec::new();
                while page.len() > 0
                    invariant
                        page@ == p.take(page@.len() as int),
                        page@.len() <= p.len(),
                        front@ == p.skip(page@.len() as int).reverse(),
                    decreases page@.len(),
                {
                    let ghost before = page@;
                    let r = page.pop().unwrap();
                    front.push(r);
                    proof {
                        assert(page@ =~= p.take(page@.len() as int));
                        assert(p.skip(page@.len() as int) =~= seq![r] + p.skip(before.len() as int));
                        assert(front@ =~= p.skip(page@.len() as int).reverse());
                    }
                }
                assert(p.skip(0) =~= p);
                front.append(&mut self.records);
                self.records = front;
            },
        }
        if ends {
            None
        } else {
            Some(self.next_request(mode))
        }
    }

    /// The addresses of all attachments held, newest first.
    pub fn catalog(&self) -> (r: Vec<String>)
        ensures
            strings_view(r@) == catalog_of(self.records()),
    {
        let mut out: Vec<String> = Vec::new();
        let mut i: usize = 0;
        while i < self.records.len()
            invariant
                i <= self.records@.len(),
                strings_view(out@) == catalog_of(self.records@.take(i as int)),
            decreases self.records@.len() - i,
        {
            let ghost before = out@;
            match &self.records[i].attachment_url {
                Some(u) => {
                    out.push(u.clone());
                },
                None => {},
            }
            proof {
                assert(self.records@.take(i + 1).drop_last() =~= self.records@.take(i as int));
                assert(strings_view(out@) =~= strings_view(before) + url_of(self.records@[i as int]));
            }
            i = i + 1;
        }
        assert(self.records@.take(i as int) =~= self.records@);
        out
    }
}

} // verus!
