use vstd::prelude::*;

use crate::history::{
    absorbed, catalog_of, lemma_catalog_concat, mode_for, page_ends, request_for, MessageRecord,
    PageRequest, RefreshMode, PAGE_SIZE,
};

verus! {

/// A channel history, oldest first, whose identifiers grow with time.
pub open spec fn chronological(h: Seq<MessageRecord>) -> bool {
    forall|i: int, j: int| 0 <= i < j < h.len() ==> #[trigger] h[i].id < #[trigger] h[j].id
}

/// How many messages of `h` are older than `cursor`.
pub open spec fn older_count(h: Seq<MessageRecord>, cursor: u64) -> nat
    decreases h.len(),
{
    if h.len() == 0 {
        0
    } else if h.last().id < cursor {
        h.len()
    } else {
        older_count(h.drop_last(), cursor)
    }
}

/// How many messages of `h` are not newer than `cursor`.
pub open spec fn upto_count(h: Seq<MessageRecord>, cursor: u64) -> nat
    decreases h.len(),
{
    if h.len() == 0 {
        0
    } else if h.last().id <= cursor {
        h.len()
    } else {
        upto_count(h.drop_last(), cursor)
    }
}

/// The newest page of the first `k` messages, newest first.
pub open spec fn newest_before(h: Seq<MessageRecord>, k: int) -> Seq<MessageRecord> {
    h.subrange(if k >= PAGE_SIZE { k - PAGE_SIZE } else { 0 }, k).reverse()
}

/// The oldest page of the messages from the `k`-th on, oldest first.
pub open spec fn oldest_from(h: Seq<MessageRecord>, k: int) -> Seq<MessageRecord> {
    h.subrange(k, if h.len() - k >= PAGE_SIZE { k + PAGE_SIZE } else { h.len() as int })
}

/// What a channel holding `h` answers to a page request.
pub open spec fn reply(h: Seq<MessageRecord>, req: PageRequest) -> Seq<MessageRecord> {
    match req {
        PageRequest::Latest => newest_before(h, h.len() as int),
        PageRequest::Before(c) => newest_before(h, older_count(h, c) as int),
        PageRequest::After(c) => oldest_from(h, upto_count(h, c) as int),
    }
}

/// A refresh in `mode` against a channel holding `h`, from `records`, for
/// at most `fuel` pages: the records it ends with and the pages it fetched.
pub open spec fn refresh_run(
    h: Seq<MessageRecord>,
    records: Seq<MessageRecord>,
    mode: RefreshMode,
    fuel: nat,
) -> (Seq<MessageRecord>, nat)
    decreases fuel,
{
    if fuel == 0 {
        (records, 0)
    } else {
        let page = reply(h, request_for(records, mode));
        let next = absorbed(records, mode, page);
        if page_ends(page) {
            (next, 1)
        } else {
            let rest = refresh_run(h, next, mode, (fuel - 1) as nat);
            (rest.0, rest.1 + 1)
        }
    }
}

proof fn lemma_older_count(h: Seq<MessageRecord>, k: int)
    requires
        chronological(h),
        0 <= k < h.len(),
    ensures
        older_count(h, h[k].id) == k,
    decreases h.len(),
{
    let t = h.drop_last();
    if k == h.len() - 1 {
        if t.len() > 0 {
            assert(t.last().id == h[h.len() - 2].id);
            assert(older_count(t, h[k].id) == t.len());
        } else {
            assert(older_count(t, h[k].id) == 0);
        }
        assert(older_count(h, h[k].id) == older_count(t, h[k].id));
    } else {
        assert(h.last().id > h[k].id);
        assert(chronological(t));
        lemma_older_count(t, k);
    }
}

proof fn lemma_upto_count(h: Seq<MessageRecord>, k: int)
    requires
        chronological(h),
        0 <= k < h.len(),
    ensures
        upto_count(h, h[k].id) == k + 1,
    decreases h.len(),
{
    if k < h.len() - 1 {
        assert(h.last().id > h[k].id);
        lemma_upto_count(h.drop_last(), k);
    }
}

proof fn lemma_reverse_join(a: Seq<MessageRecord>, b: Seq<MessageRecord>)
    ensures
        b.reverse() + a.reverse() == (a + b).reverse(),
{
    assert(b.reverse() + a.reverse() =~= (a + b).reverse());
}

/// A backfill that holds the newest messages of `h` from the `k`-th on
/// runs to the first message, one page at a time.
proof fn lemma_backfill_from(h: Seq<MessageRecord>, k: int, fuel: nat)
    requires
        chronological(h),
        0 <= k <= h.len(),
        fuel >= k / PAGE_SIZE as int + 1,
    ensures
        refresh_run(h, h.skip(k).reverse(), RefreshMode::Backfill, fuel) == (
        h.reverse(),
        (k / PAGE_SIZE as int + 1) as nat,
        ),
    decreases k,
{
    let records = h.skip(k).reverse();
    let lo = if k >= PAGE_SIZE { k - PAGE_SIZE } else { 0 };
    if k < h.len() {
        assert(records.last() == h[k]);
        lemma_older_count(h, k);
    }
    let page = reply(h, request_for(records, RefreshMode::Backfill));
    assert(page == newest_before(h, k));
    lemma_reverse_join(h.subrange(lo, k), h.skip(k));
    assert(h.subrange(lo, k) + h.skip(k) =~= h.skip(lo));
    assert(absorbed(records, RefreshMode::Backfill, page) == h.skip(lo).reverse());
    if k < PAGE_SIZE {
        assert(h.skip(0) =~= h);
    } else {
        assert((k - PAGE_SIZE) / PAGE_SIZE as int == k / PAGE_SIZE as int - 1);
        lemma_backfill_from(h, k - PAGE_SIZE, (fuel - 1) as nat);
    }
}

/// A catch-up that holds the first `k` messages of `h` runs to the newest
/// message, one page at a time.
proof fn lemma_catch_up_from(h: Seq<MessageRecord>, k: int, fuel: nat)
    requires
        chronological(h),
        0 < k <= h.len(),
        fuel >= (h.len() - k) / PAGE_SIZE as int + 1,
    ensures
        refresh_run(h, h.take(k).reverse(), RefreshMode::CatchUp, fuel) == (
        h.reverse(),
        ((h.len() - k) / PAGE_SIZE as int + 1) as nat,
        ),
    decreases h.len() - k,
{
    let records = h.take(k).reverse();
    let hi = if h.len() - k >= PAGE_SIZE { k + PAGE_SIZE } else { h.len() as int };
    assert(records[0] == h[k - 1]);
    lemma_upto_count(h, k - 1);
    let page = reply(h, request_for(records, RefreshMode::CatchUp));
    assert(page == oldest_from(h, k));
    lemma_reverse_join(h.take(k), h.subrange(k, hi));
    assert(h.take(k) + h.subrange(k, hi) =~= h.take(hi));
    assert(absorbed(records, RefreshMode::CatchUp, page) == h.take(hi).reverse());
    if h.len() - k < PAGE_SIZE {
        assert(h.take(h.len() as int) =~= h);
    } else {
        assert((h.len() - k - PAGE_SIZE) / PAGE_SIZE as int == (h.len() - k) / PAGE_SIZE as int
            - 1);
        lemma_catch_up_from(h, k + PAGE_SIZE, (fuel - 1) as nat);
    }
}

/// A first refresh against a channel holding `h` walks its whole history
/// in `h.len() / PAGE_SIZE + 1` page fetches and ends holding every
/// message, newest first.
pub proof fn lemma_backfill_complete(h: Seq<MessageRecord>)
    requires
        chronological(h),
    ensures
        mode_for(Seq::empty(), false) == RefreshMode::Backfill,
        refresh_run(h, Seq::empty(), RefreshMode::Backfill, h.len() / PAGE_SIZE as nat + 1) == (
        h.reverse(),
        h.len() / PAGE_SIZE as nat + 1,
        ),
{
    assert(h.skip(h.len() as int) =~= Seq::<MessageRecord>::empty());
    assert(Seq::<MessageRecord>::empty().reverse() =~= Seq::<MessageRecord>::empty());
    lemma_backfill_from(h, h.len() as int, h.len() / PAGE_SIZE as nat + 1);
}

/// Once the whole history `h` is held, a refresh with nothing new in the
/// channel fetches one catch-up page and no backfill page, and leaves the
/// records, and so the catalog, as they were.
pub proof fn lemma_refresh_without_news(h: Seq<MessageRecord>)
    requires
        chronological(h),
        h.len() > 0,
    ensures
        mode_for(h.reverse(), true) == RefreshMode::CatchUp,
        refresh_run(h, h.reverse(), RefreshMode::CatchUp, 1) == (h.reverse(), 1nat),
{
    assert(h.take(h.len() as int) =~= h);
    lemma_catch_up_from(h, h.len() as int, 1);
}

/// Once the history `h` is held, a refresh after the messages `n` arrived
/// fetches them page by page and puts the addresses of their attachments,
/// newest first, in front of the catalog, which is otherwise unchanged.
pub proof fn lemma_refresh_after_news(h: Seq<MessageRecord>, n: Seq<MessageRecord>)
    requires
        chronological(h + n),
        h.len() > 0,
    ensures
        mode_for(h.reverse(), true) == RefreshMode::CatchUp,
        refresh_run(h + n, h.reverse(), RefreshMode::CatchUp, n.len() / PAGE_SIZE as nat + 1) == (
        (h + n).reverse(),
        n.len() / PAGE_SIZE as nat + 1,
        ),
        catalog_of((h + n).reverse()) == catalog_of(n.reverse()) + catalog_of(h.reverse()),
{
    assert((h + n).take(h.len() as int) =~= h);
    lemma_catch_up_from(h + n, h.len() as int, n.len() / PAGE_SIZE as nat + 1);
    lemma_reverse_join(h, n);
    lemma_catalog_concat(n.reverse(), h.reverse());
}

} // verus!
