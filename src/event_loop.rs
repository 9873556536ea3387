use vstd::prelude::*;

use crate::history::{
    absorbed, catalog_of, initialized_after, mode_for, next_after, request_for, strings_view,
    HistoryCache, MessageRecord, PageRequest, RefreshMode,
};

verus! {

/// What the relay loop is doing.
#[derive(Clone, Copy, Debug, PartialEq, Eq, Structural)]
pub enum LoopState {
    /// Waiting for an upload or a catalog request, whichever comes first.
    Idle,
    /// Sending one upload to the channel.
    Relaying,
    /// Fetching history pages in the given mode.
    Refreshing(RefreshMode),
}

/// What a refresh asks for once a page has come in.
pub enum RefreshStep {
    /// Fetch this page next.
    Fetch(PageRequest),
    /// The refresh is over: hand this catalog to the caller.
    Publish(Vec<String>),
}

/// The single owner of the history cache, doing one duty at a time.
pub struct RelayLoop {
    state: LoopState,
    cache: HistoryCache,
}

/// In this state the loop may send an upload to the channel.
pub open spec fn may_relay(s: LoopState) -> bool {
    s == LoopState::Relaying
}

/// In this state the loop may fetch a page of history.
pub open spec fn may_fetch(s: LoopState) -> bool {
    s is Refreshing
}

/// The relay call and the history fetches never run together: no state of
/// the loop allows both, and neither duty can start while one is under way.
pub proof fn lemma_duties_exclusive(s: LoopState)
    ensures
        !(may_relay(s) && may_fetch(s)),
        may_relay(s) ==> s != LoopState::Idle,
        may_fetch(s) ==> s != LoopState::Idle,
{
}

impl RelayLoop {
    pub closed spec fn state(&self) -> LoopState {
        self.state
    }

    /// The records of the cache, newest first.
    pub closed spec fn records(&self) -> Seq<MessageRecord> {
        self.cache.records()
    }

    /// Whether the cache has made a whole backfill.
    pub closed spec fn initialized(&self) -> bool {
        self.cache.initialized()
    }

    /// An idle loop with an empty cache.
    pub fn new() -> (r: Self)
        ensures
            r.state() == LoopState::Idle,
            r.records() == Seq::<MessageRecord>::empty(),
            !r.initialized(),
    {
        RelayLoop { state: LoopState::Idle, cache: HistoryCache::new() }
    }

    /// What the loop is doing.
    pub fn current(&self) -> (r: LoopState)
        ensures
            r == self.state(),
    {
        self.state
    }

    /// Starts relaying an upload, when idle; says whether it did.
    pub fn begin_relay(&mut self) -> (started: bool)
        ensures
            started == (old(self).state() == LoopState::Idle),
            final(self).state() == (if started {
                LoopState::Relaying
            } else {
                old(self).state()
            }),
            final(self).records() == old(self).records(),
            final(self).initialized() == old(self).initialized(),
    {
        if self.state == LoopState::Idle {
            self.state = LoopState::Relaying;
            true
        } else {
            false
        }
    }

    /// The upload has been sent: back to idle.
    pub fn end_relay(&mut self)
        ensures
            final(self).state() == (if old(self).state() == LoopState::Relaying {
                LoopState::Idle
            } else {
                old(self).state()
            }),
            final(self).records() == old(self).records(),
            final(self).initialized() == old(self).initialized(),
    {
        if self.state == LoopState::Relaying {
            self.state = LoopState::Idle;
        }
    }

    /// Starts a refresh, when idle, and gives the first page to fetch.
    pub fn begin_refresh(&mut self) -> (first: Option<PageRequest>)
        ensures
            old(self).state() == LoopState::Idle ==> {
                let mode = mode_for(old(self).records(), old(self).initialized());
                &&& final(self).state() == LoopState::Refreshing(mode)
                &&& first == Some(request_for(old(self).records(), mode))
            },
            old(self).state() != LoopState::Idle ==> final(self).state() == old(self).state()
                && first == None::<PageRequest>,
            final(self).records() == old(self).records(),
            final(self).initialized() == old(self).initialized(),
    {
        if self.state == LoopState::Idle {
            let mode = self.cache.begin_refresh();
            self.state = LoopState::Refreshing(mode);
            Some(self.cache.next_request(mode))
        } else {
            None
        }
    }

    /// Takes in a fetched page during a refresh: gives the next page to
    /// fetch, or, when the page ends the walk, goes back to idle and gives
    /// the catalog. Outside a refresh the page is not wanted: `None`.
    pub fn page_arrived(&mut self, page: Vec<MessageRecord>) -> (step: Option<RefreshStep>)
        ensures
            match old(self).state() {
                LoopState::Refreshing(mode) => {
                    &&& final(self).records() == absorbed(old(self).records(), mode, page@)
                    &&& final(self).initialized() == initialized_after(
                        old(self).initialized(),
                        mode,
                        page@,
                    )
                    &&& match next_after(old(self).records(), mode, page@) {
                        Some(req) => {
                            &&& final(self).state() == old(self).state()
                            &&& (step matches Some(RefreshStep::Fetch(r)) && r == req)
                        },
                        None => {
                            &&& final(self).state() == LoopState::Idle
                            &&& (step matches Some(RefreshStep::Publish(c)) && strings_view(c@)
                                == catalog_of(final(self).records()))
                        },
                    }
                },
                _ => {
                    &&& step is None
                    &&& final(self).state() == old(self).state()
                    &&& final(self).records() == old(self).records()
                    &&& final(self).initialized() == old(self).initialized()
                },
            },
    {
        match self.state {
            LoopState::Refreshing(mode) => {
                match self.cache.absorb(mode, page) {
                    Some(req) => Some(RefreshStep::Fetch(req)),
                    None => {
                        self.state = LoopState::Idle;
                        Some(RefreshStep::Publish(self.cache.catalog()))
                    },
                }
            },
            _ => None,
        }
    }
}

} // verus!
