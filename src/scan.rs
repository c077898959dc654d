//! Cursor-driven traversal of the whole key space as a state machine: the
//! caller performs each requested action against the store and hands the
//! outcome back; every decision is taken here.
use vstd::prelude::*;
use crate::aggregate::{recorded, AggregateState};
use crate::fetch::{decode_batch, decoded_spec, Reply};
use crate::key_type::KeyTypeCode;

verus! {

/// Default page-size hint for each enumeration request.
pub const SCAN_COUNT: u64 = 5000;

/// Default number of keys per pipelined metadata batch.
pub const BATCH_SIZE: usize = 2000;

/// Default progress-report interval, in keys.
pub const PROGRESS_EVERY: u64 = 50000;

/// What the driver must do next.
#[derive(Debug, PartialEq, Eq)]
pub enum ScanAction {
    /// Ask the store for the page of key names after this cursor.
    RequestPage(u64),
    /// Fetch size and type of these keys in one pipelined round trip.
    FetchBatch(Vec<String>),
    /// The whole key space has been visited.
    Finished,
}

/// State of a scan in progress.
pub struct Scanner {
    cursor: u64,
    started: bool,
    pending: Vec<String>,
    next: usize,
    chunk_size: usize,
    state: AggregateState,
    seen: u64,
    /// Every page of names the store has returned, in order.
    pages: Ghost<Seq<Seq<String>>>,
}

/// Total number of names in a sequence of pages.
pub open spec fn names_in(pages: Seq<Seq<String>>) -> int
    decreases pages.len(),
{
    if pages.len() == 0 {
        0
    } else {
        names_in(pages.drop_last()) + pages.last().len()
    }
}

impl Scanner {
    pub closed spec fn cursor_spec(&self) -> u64 {
        self.cursor
    }

    pub closed spec fn started_spec(&self) -> bool {
        self.started
    }

    /// Names of the current page not yet sent for metadata.
    pub closed spec fn pending_spec(&self) -> Seq<String> {
        self.pending@.skip(self.next as int)
    }

    pub closed spec fn chunk_size_spec(&self) -> nat {
        self.chunk_size as nat
    }

    pub closed spec fn state_spec(&self) -> AggregateState {
        self.state
    }

    /// Number of key names the store has returned so far.
    pub closed spec fn seen_spec(&self) -> u64 {
        self.seen
    }

    /// Every page of names handed to `on_page`, in order.
    pub closed spec fn pages_spec(&self) -> Seq<Seq<String>> {
        self.pages@
    }

    /// Length of the next chunk of pending names.
    pub open spec fn chunk_len(&self) -> nat {
        if self.pending_spec().len() < self.chunk_size_spec() {
            self.pending_spec().len()
        } else {
            self.chunk_size_spec()
        }
    }

    /// The store has reported the end of the key space and every name
    /// has been processed.
    pub open spec fn finished(&self) -> bool {
        self.started_spec() && self.cursor_spec() == 0 && self.pending_spec().len() == 0
    }

    /// Every name the store returned is either folded in, counted as an
    /// error, or still pending.
    pub closed spec fn wf(&self) -> bool {
        &&& self.state.wf()
        &&& self.chunk_size >= 1
        &&& self.next <= self.pending@.len()
        &&& self.state.scanned_spec() + self.state.errors_spec() + (self.pending@.len()
            - self.next) == self.seen as int
        &&& self.seen as int == names_in(self.pages@)
    }

    /// A scan about to start at cursor 0, sending at most `chunk_size` keys
    /// per metadata batch and retaining `top_n` largest keys per type.
    pub fn new(chunk_size: usize, top_n: usize) -> (r: Scanner)
        requires
            chunk_size >= 1,
            top_n >= 1,
        ensures
            r.wf(),
            r.cursor_spec() == 0,
            !r.started_spec(),
            r.pending_spec().len() == 0,
            r.seen_spec() == 0,
            r.pages_spec() == Seq::<Seq<String>>::empty(),
            r.chunk_size_spec() == chunk_size,
            r.state_spec().wf(),
            r.state_spec().stats_spec().mem_sum() == 0,
            r.state_spec().stats_spec().count_sum() == 0,
            r.state_spec().scanned_spec() == 0,
            r.state_spec().errors_spec() == 0,
            r.state_spec().stats_spec().limit_spec() == top_n,
            forall|t: KeyTypeCode| #[trigger] r.state_spec().stats_spec().slot(t).history().len() == 0,
    {
        let r = Scanner {
            cursor: 0,
            started: false,
            pending: Vec::new(),
            next: 0,
            chunk_size,
            state: AggregateState::new(top_n),
            seen: 0,
            pages: Ghost(Seq::empty()),
        };
        assert(r.pending_spec().len() == 0);
        r
    }

    /// The next step: fetch the next chunk of pending names if any; else
    /// stop once the store has signalled the end; else request a page.
    pub fn next_action(&self) -> (r: ScanAction)
        requires
            self.wf(),
        ensures
            self.pending_spec().len() > 0 ==> (r matches ScanAction::FetchBatch(keys) && keys@
                == self.pending_spec().take(self.chunk_len() as int)),
            self.pending_spec().len() == 0 && self.finished() ==> r is Finished,
            self.pending_spec().len() == 0 && !self.finished() ==> r == ScanAction::RequestPage(
                self.cursor_spec(),
            ),
    {
        if self.next < self.pending.len() {
            let end: usize = if self.pending.len() - self.next < self.chunk_size {
                self.pending.len()
            } else {
                self.next + self.chunk_size
            };
            let mut keys: Vec<String> = Vec::new();
            let mut i: usize = self.next;
            while i < end
                invariant
                    self.next <= i <= end <= self.pending@.len(),
                    keys@ == self.pending@.subrange(self.next as int, i as int),
                decreases end - i,
            {
                keys.push(self.pending[i].clone());
                assert(keys@ =~= self.pending@.subrange(self.next as int, i + 1));
                i = i + 1;
            }
            assert(keys@ =~= self.pending_spec().take(self.chunk_len() as int));
            ScanAction::FetchBatch(keys)
        } else if self.started && self.cursor == 0 {
            ScanAction::Finished
        } else {
            ScanAction::RequestPage(self.cursor)
        }
    }

    /// Takes a page `(next_cursor, keys)` answered to `RequestPage`. An
    /// empty page is no error: the scan goes on unless the cursor is 0.
    pub fn on_page(&mut self, next_cursor: u64, keys: Vec<String>)
        requires
            old(self).wf(),
            old(self).pending_spec().len() == 0,
            old(self).seen_spec() + keys@.len() <= u64::MAX,
        ensures
            final(self).wf(),
            final(self).started_spec(),
            final(self).cursor_spec() == next_cursor,
            final(self).pending_spec() == keys@,
            final(self).seen_spec() == old(self).seen_spec() + keys@.len(),
            final(self).pages_spec() == old(self).pages_spec().push(keys@),
            final(self).chunk_size_spec() == old(self).chunk_size_spec(),
            final(self).state_spec() == old(self).state_spec(),
    {
        let n = keys.len();
        let ghost page = keys@;
        self.pages = Ghost(self.pages@.push(page));
        assert(self.pages@.drop_last() =~= old(self).pages@);
        self.cursor = next_cursor;
        self.started = true;
        self.pending = keys;
        self.next = 0;
        self.seen = self.seen + n as u64;
        assert(self.pending@.skip(0) =~= self.pending@);
    }

    /// Takes the replies to the last `FetchBatch`, or `None` when the round
    /// trip failed. Usable keys are folded in; when the round trip failed or
    /// the reply is not two replies per key, the whole chunk counts as
    /// errors. The chunk is then done.
    pub fn on_batch(&mut self, replies: Option<Vec<Reply>>)
        requires
            old(self).wf(),
            old(self).pending_spec().len() > 0,
        ensures
            final(self).wf(),
            final(self).pending_spec() == old(self).pending_spec().skip(
                old(self).chunk_len() as int,
            ),
            final(self).started_spec() == old(self).started_spec(),
            final(self).cursor_spec() == old(self).cursor_spec(),
            final(self).seen_spec() == old(self).seen_spec(),
            final(self).pages_spec() == old(self).pages_spec(),
            final(self).chunk_size_spec() == old(self).chunk_size_spec(),
            final(self).state_spec().scanned_spec() + final(self).state_spec().errors_spec()
                == old(self).state_spec().scanned_spec() + old(self).state_spec().errors_spec()
                + old(self).chunk_len(),
            final(self).state_spec().stats_spec().limit_spec() == old(
                self,
            ).state_spec().stats_spec().limit_spec(),
            match replies {
                Some(v) => v@.len() != 2 * old(self).chunk_len(),
                None => true,
            } ==> {
                &&& final(self).state_spec().stats_spec() == old(self).state_spec().stats_spec()
                &&& final(self).state_spec().scanned_spec() == old(
                    self,
                ).state_spec().scanned_spec()
            },
            match replies {
                Some(v) => v@.len() == 2 * old(self).chunk_len(),
                None => false,
            } ==> exists|trace: Seq<AggregateState>|
                {
                    &&& trace.len() == old(self).chunk_len() + 1
                    &&& trace[0] == old(self).state_spec()
                    &&& trace.last() == final(self).state_spec()
                    &&& forall|i: int|
                        0 <= i < old(self).chunk_len() ==> recorded(
                            #[trigger] trace[i],
                            trace[i + 1],
                            old(self).pending_spec()[i]@,
                            decoded_spec(replies->Some_0@, i),
                        )
                },
    {
        let end: usize = if self.pending.len() - self.next < self.chunk_size {
            self.pending.len()
        } else {
            self.next + self.chunk_size
        };
        let n: usize = end - self.next;
        let decoded = match replies {
            Some(v) => match decode_batch(&v, n) {
                Ok(d) => Some(d),
                Err(_) => None,
            },
            None => None,
        };
        let ghost old_state = self.state;
        match decoded {
            Some(d) => {
                let ghost v = replies->Some_0;
                assert(forall|k: int| 0 <= k < n ==> #[trigger] d@[k] == decoded_spec(v@, k));
                let ghost mut trace: Seq<AggregateState> = seq![old_state];
                let mut i: usize = 0;
                while i < n
                    invariant
                        forall|k: int| 0 <= k < n ==> #[trigger] d@[k] == decoded_spec(v@, k),
                        trace.len() == i + 1,
                        trace[0] == old_state,
                        trace.last() == self.state,
                        forall|k: int|
                            0 <= k < i ==> recorded(
                                #[trigger] trace[k],
                                trace[k + 1],
                                self.pending@[self.next + k]@,
                                d@[k],
                            ),
                        self.state.wf(),
                        self.chunk_size >= 1,
                        self.next + n == end <= self.pending@.len(),
                        d@.len() == n,
                        i <= n,
                        self.state.scanned_spec() + self.state.errors_spec() + (n - i) + (
                        self.pending@.len() - end) == self.seen as int,
                        self.state.stats_spec().limit_spec() == old(
                            self,
                        ).state.stats_spec().limit_spec(),
                        self.pending == old(self).pending,
                        self.next == old(self).next,
                        self.cursor == old(self).cursor,
                        self.started == old(self).started,
                        self.seen == old(self).seen,
                        self.pages == old(self).pages,
                        self.chunk_size == old(self).chunk_size,
                    decreases n - i,
                {
                    self.state.record(self.pending[self.next + i].as_str(), d[i]);
                    proof {
                        trace = trace.push(self.state);
                    }
                    i = i + 1;
                }
                assert forall|k: int| 0 <= k < n implies recorded(
                    #[trigger] trace[k],
                    trace[k + 1],
                    old(self).pending_spec()[k]@,
                    decoded_spec(v@, k),
                ) by {
                    assert(old(self).pending_spec()[k] == self.pending@[self.next + k]);
                }
            },
            None => {
                self.state.record_failed(n as u64);
            },
        }
        self.next = end;
        assert(self.pending@.skip(end as int) =~= old(self).pending_spec().skip(
            old(self).chunk_len() as int,
        ));
    }

    /// Cursor to continue from.
    pub fn cursor(&self) -> (r: u64)
        ensures
            r == self.cursor_spec(),
    {
        self.cursor
    }

    /// Key names the store has returned so far.
    pub fn seen(&self) -> (r: u64)
        ensures
            r == self.seen_spec(),
    {
        self.seen
    }

    /// Whether the scan is complete.
    pub fn is_finished(&self) -> (r: bool)
        requires
            self.wf(),
        ensures
            r == self.finished(),
    {
        self.started && self.cursor == 0 && self.next == self.pending.len()
    }

    /// Ends the scan, handing over its aggregated results.
    pub fn into_state(self) -> (r: AggregateState)
        ensures
            r == self.state_spec(),
            self.wf() ==> r.wf(),
    {
        self.state
    }

    /// The aggregated results so far.
    pub fn state(&self) -> (r: &AggregateState)
        ensures
            *r == self.state_spec(),
            self.wf() ==> r.wf(),
    {
        &self.state
    }
}

/// Position a progress display should move to after the processed count
/// went from `before` to `after` (`before <= after`): the total when the
/// count first reaches it (the display never runs past it), nothing once it
/// was already reached, else `after` when it crossed a multiple of `every`,
/// else nothing. So one report at most per interval, and one on reaching the
/// total.
pub fn progress_position(before: u64, after: u64, total: u64, every: u64) -> (r: Option<u64>)
    requires
        every >= 1,
    ensures
        r == if before >= total {
            None::<u64>
        } else if after >= total {
            Some(total)
        } else if after / every != before / every {
            Some(after)
        } else {
            None::<u64>
        },
{
    if before >= total {
        None
    } else if after >= total {
        Some(total)
    } else if after / every != before / every {
        Some(after)
    } else {
        None
    }
}

/// Once a scan has finished, every key name the store ever returned was
/// either folded into the statistics or counted as an error.
pub proof fn lemma_every_key_counted(s: Scanner)
    requires
        s.wf(),
        s.finished(),
    ensures
        s.state_spec().scanned_spec() + s.state_spec().errors_spec() == s.seen_spec(),
        s.state_spec().scanned_spec() + s.state_spec().errors_spec() == names_in(s.pages_spec()),
{
}

/// The counts of scanned and errored keys never exceed the names returned.
pub proof fn lemma_counted_within_seen(s: Scanner)
    requires
        s.wf(),
    ensures
        s.state_spec().scanned_spec() + s.state_spec().errors_spec() + s.pending_spec().len()
            == s.seen_spec(),
        s.state_spec().scanned_spec() + s.state_spec().errors_spec() + s.pending_spec().len()
            == names_in(s.pages_spec()),
{
}

} // verus!
