use std::collections::VecDeque;
use vstd::prelude::*;

verus! {

/// Whether `needle` occurs in `hay` at position `i`.
pub open spec fn occurs_at(hay: Seq<char>, needle: Seq<char>, i: int) -> bool {
    0 <= i && i + needle.len() <= hay.len() && hay.subrange(i, i + needle.len()) == needle
}

/// Whether `needle` occurs anywhere in `hay`.
pub open spec fn occurs_in(hay: Seq<char>, needle: Seq<char>) -> bool {
    exists|i: int| occurs_at(hay, needle, i)
}

/// Whether a provider's error message says that the requested page held too
/// many logs, so that a smaller page may succeed.
pub open spec fn is_overflow_message(msg: Seq<char>) -> bool {
    occurs_in(msg, "exceeds the max limit of"@) || occurs_in(msg, "too large with more than"@)
}

fn contains_str(hay: &str, needle: &str) -> (r: bool)
    ensures
        r == occurs_in(hay@, needle@),
{
    let n = hay.unicode_len();
    let k = needle.unicode_len();
    if k > n {
        return false;
    }
    let mut i: usize = 0;
    while i <= n - k
        invariant
            n == hay@.len(),
            k == needle@.len(),
            k <= n,
            i <= n - k + 1,
            forall|j: int| 0 <= j < i ==> !occurs_at(hay@, needle@, j),
        decreases n - k + 1 - i,
    {
        let mut j: usize = 0;
        let mut same = true;
        while j < k
            invariant
                n == hay@.len(),
                k == needle@.len(),
                i + k <= n,
                j <= k,
                same == (forall|t: int| 0 <= t < j ==> hay@[i + t] == needle@[t]),
            decreases k - j,
        {
            if hay.get_char(i + j) != needle.get_char(j) {
                same = false;
            }
            j = j + 1;
        }
        if same {
            assert(hay@.subrange(i as int, i + k) =~= needle@);
            assert(occurs_at(hay@, needle@, i as int));
            return true;
        }
        assert(!occurs_at(hay@, needle@, i as int)) by {
            if hay@.subrange(i as int, i + k) == needle@ {
                assert forall|t: int| 0 <= t < k implies hay@[i + t] == needle@[t] by {
                    assert(hay@.subrange(i as int, i + k)[t] == hay@[i + t]);
                }
            }
        }
        i = i + 1;
    }
    assert forall|j: int| !occurs_at(hay@, needle@, j) by {
        if 0 <= j && j + k <= n {
            assert(j < i);
        }
    }
    false
}

/// Whether `msg` is a provider's page-overflow message.
pub fn is_overflow_error(msg: &str) -> (r: bool)
    ensures
        r == is_overflow_message(msg@),
{
    contains_str(msg, "exceeds the max limit of") || contains_str(msg, "too large with more than")
}

/// The items of `v`, in order, in a queue.
fn into_deque<L>(v: Vec<L>) -> (r: VecDeque<L>)
    ensures
        r@ == v@,
{
    let ghost items = v@;
    let mut v = v;
    let mut r: VecDeque<L> = VecDeque::new();
    while v.len() > 0
        invariant
            v@ + r@ == items,
        decreases v@.len(),
    {
        let x = v.pop().unwrap();
        r.push_front(x);
        assert(v@ + r@ =~= items);
    }
    assert(r@ =~= items);
    r
}

/// What the query reads of a log filter: the block range it asks for.
#[derive(Clone, Copy, Debug, PartialEq, Eq)]
pub struct LogFilter {
    pub from_block: Option<u64>,
    pub to_block: Option<u64>,
}

impl LogFilter {
    /// A filter can be paged through exactly when its first block is set.
    pub open spec fn paginatable(&self) -> bool {
        self.from_block is Some
    }

    pub fn is_paginatable(&self) -> (r: bool)
        ensures
            r == self.paginatable(),
    {
        self.from_block.is_some()
    }
}

/// Errors that end a log query, each carrying the provider's error.
#[derive(Debug)]
pub enum LogQueryError<E> {
    /// The latest block number could not be loaded.
    LoadLastBlockError(E),
    /// A page of logs could not be loaded, for a reason other than its size.
    LoadLogsError(E),
}

/// Where a log query stands.
#[derive(Clone, Copy, Debug, PartialEq, Eq)]
pub enum LogQueryState {
    /// Nothing requested yet.
    Initial,
    /// Waiting for the latest block number.
    LoadLastBlock,
    /// Waiting for a page of logs; holds the page's first block, to resume
    /// from where the page proves too large.
    LoadLogs(Option<u64>),
    /// Handing out the logs of the last page.
    Consume,
    /// Finished, at the end of the range or after an error.
    Done,
}

/// What the driver of a query reports back to it.
pub enum LogEvent<L, E> {
    /// The consumer asks for the next item.
    Poll,
    /// The latest block number arrived.
    LastBlock(u64),
    /// Loading the latest block number failed.
    LastBlockFailed(E),
    /// A page of logs arrived.
    Logs(Vec<L>),
    /// Loading a page failed, with the error and its message.
    LogsFailed(E, String),
}

/// What a query asks its driver to do next.
pub enum LogAction<L, E> {
    /// Wait out the pacing delay, then load the latest block number.
    FetchLastBlock,
    /// Wait out the pacing delay, then load logs: of the whole filter for
    /// `None`, else of the filter narrowed to the blocks `[from, to]`.
    FetchLogs(Option<(u64, u64)>),
    /// Hand this log to the consumer.
    Emit(L),
    /// Report this error to the consumer; the query is over.
    Fail(LogQueryError<E>),
    /// The query is over.
    End,
    /// The event did not belong to the current state and was ignored.
    Ignored,
}

/// The last block of a page that starts at `from`, given the page size and
/// the last block of the range.
pub open spec fn page_end(from: u64, page_size: u64, last: u64) -> u64 {
    if from + page_size - 1 <= last {
        (from + page_size - 1) as u64
    } else {
        last
    }
}

/// The page that starts at `from`, or `None` where the range is used up.
pub open spec fn page_of(from: Option<u64>, page_size: u64, last: u64) -> Option<(u64, u64)> {
    match from {
        None => None,
        Some(f) => if f > last {
            None
        } else {
            Some((f, page_end(f, page_size, last)))
        },
    }
}

/// The block after `to`, or `None` past the largest block number.
pub open spec fn block_after(to: u64) -> Option<u64> {
    if to < u64::MAX {
        Some((to + 1) as u64)
    } else {
        None
    }
}

/// The blocks `f..=t`, in order.
pub open spec fn blocks(f: int, t: int) -> Seq<int> {
    Seq::new(if t >= f { (t - f + 1) as nat } else { 0 }, |i: int| f + i)
}

/// The blocks of the pages requested one after another from `from`, with
/// pages of `page_size` up to block `last`: each page starts at the block
/// after the previous one, until the range is used up.
pub open spec fn paged_blocks(from: Option<u64>, page_size: u64, last: u64) -> Seq<int>
    decreases
            (match from {
                Some(f) => if f <= last {
                    last + 1 - f
                } else {
                    0
                },
                None => 0,
            }),
{
    match page_of(from, page_size, last) {
        None => Seq::empty(),
        Some(p) => if page_size >= 1 {
            blocks(p.0 as int, p.1 as int) + paged_blocks(block_after(p.1), page_size, last)
        } else {
            Seq::empty()
        },
    }
}

/// Paging through `[a, b]` with any page size of at least one block requests
/// every block of the range exactly once, in increasing order.
pub proof fn law_pages_cover_range(a: u64, page_size: u64, b: u64)
    requires
        page_size >= 1,
        a <= b,
    ensures
        paged_blocks(Some(a), page_size, b) == blocks(a as int, b as int),
    decreases b - a,
{
    let t = page_end(a, page_size, b);
    if t == b {
        assert(paged_blocks(block_after(t), page_size, b) == Seq::<int>::empty());
        assert(blocks(a as int, t as int) + Seq::<int>::empty() =~= blocks(a as int, b as int));
    } else {
        law_pages_cover_range((t + 1) as u64, page_size, b);
        assert(blocks(a as int, t as int) + blocks(t + 1, b as int) =~= blocks(a as int, b as int));
    }
}

/// Streams the logs of a block range page by page, halving the page size when
/// the provider reports a page as too large. It makes no calls itself: its
/// driver performs each `LogAction` and reports the outcome as a `LogEvent`.
pub struct LogQuery<L> {
    filter: LogFilter,
    from_block: Option<u64>,
    expected_page_size: u64,
    page_size: u64,
    current_logs: VecDeque<L>,
    last_block: Option<u64>,
    state: LogQueryState,
}

impl<L> LogQuery<L> {
    pub closed spec fn filter(&self) -> LogFilter {
        self.filter
    }

    /// The first block of the next page to request.
    pub closed spec fn next_from(&self) -> Option<u64> {
        self.from_block
    }

    pub closed spec fn expected_page_size(&self) -> u64 {
        self.expected_page_size
    }

    /// The page size in use; below the expected one after an oversized page.
    pub closed spec fn page_size(&self) -> u64 {
        self.page_size
    }

    /// The logs of the current page not yet handed out, in order.
    pub closed spec fn pending(&self) -> Seq<L> {
        self.current_logs@
    }

    /// The last block of the range, once known.
    pub closed spec fn last_block(&self) -> Option<u64> {
        self.last_block
    }

    pub closed spec fn state(&self) -> LogQueryState {
        self.state
    }

    pub open spec fn wf(&self) -> bool {
        &&& 1 <= self.page_size() <= self.expected_page_size()
        &&& self.filter().paginatable() && (self.state() is LoadLogs || self.state() is Consume)
            ==> self.last_block() is Some
        &&& (self.state() is Initial || self.state() is LoadLastBlock || self.state() is LoadLogs)
            ==> self.pending().len() == 0
        &&& self.state() is LoadLastBlock ==> self.filter().paginatable()
    }

    /// The outcome of handing out the next log of `pending`, where the query
    /// pages from `from` with pages of `page_size` up to block `last`: the
    /// first pending log; else the end, for a filter that cannot be paged or
    /// once the range is used up; else a request for the next page.
    pub open spec fn drained<E>(
        &self,
        r: LogAction<L, E>,
        pending: Seq<L>,
        paginatable: bool,
        from: Option<u64>,
        page_size: u64,
        last: Option<u64>,
    ) -> bool {
        if pending.len() > 0 {
            &&& r == LogAction::<L, E>::Emit(pending[0])
            &&& self.pending() == pending.drop_first()
            &&& self.state() == LogQueryState::Consume
            &&& self.next_from() == from
        } else if !paginatable {
            &&& r is End
            &&& self.state() == LogQueryState::Done
            &&& self.pending() == pending
        } else {
            &&& self.pending() == pending
            &&& match page_of(from, page_size, last.unwrap()) {
                None => r is End && self.state() == LogQueryState::Done,
                Some(p) => {
                    &&& r == LogAction::<L, E>::FetchLogs(Some(p))
                    &&& self.state() == LogQueryState::LoadLogs(Some(p.0))
                    &&& self.next_from() == block_after(p.1)
                },
            }
        }
    }

    fn next_page<E>(&mut self) -> (r: LogAction<L, E>)
        requires
            old(self).wf(),
            old(self).filter().paginatable(),
            old(self).last_block() is Some,
            old(self).pending().len() == 0,
        ensures
            final(self).wf(),
            final(self).drained(
                r,
                old(self).pending(),
                true,
                old(self).next_from(),
                old(self).page_size(),
                old(self).last_block(),
            ),
            final(self).filter() == old(self).filter(),
            final(self).page_size() == old(self).page_size(),
            final(self).expected_page_size() == old(self).expected_page_size(),
            final(self).last_block() == old(self).last_block(),
    {
        let last = self.last_block.unwrap();
        match self.from_block {
            None => {
                self.state = LogQueryState::Done;
                LogAction::End
            },
            Some(from) => {
                if from > last {
                    self.state = LogQueryState::Done;
                    return LogAction::End;
                }
                let to = if self.page_size - 1 <= last - from {
                    from + (self.page_size - 1)
                } else {
                    last
                };
                self.from_block = if to < u64::MAX {
                    Some(to + 1)
                } else {
                    None
                };
                self.state = LogQueryState::LoadLogs(Some(from));
                LogAction::FetchLogs(Some((from, to)))
            },
        }
    }

    fn drain<E>(&mut self) -> (r: LogAction<L, E>)
        requires
            old(self).wf(),
            old(self).state() is Consume,
        ensures
            final(self).wf(),
            final(self).drained(
                r,
                old(self).pending(),
                old(self).filter().paginatable(),
                old(self).next_from(),
                old(self).page_size(),
                old(self).last_block(),
            ),
            final(self).filter() == old(self).filter(),
            final(self).page_size() == old(self).page_size(),
            final(self).expected_page_size() == old(self).expected_page_size(),
            final(self).last_block() == old(self).last_block(),
    {
        match self.current_logs.pop_front() {
            Some(log) => LogAction::Emit(log),
            None => {
                if !self.filter.is_paginatable() {
                    self.state = LogQueryState::Done;
                    LogAction::End
                } else {
                    self.next_page()
                }
            },
        }
    }

    /// A query over `filter`, with pages of 10000 blocks.
    pub fn new(filter: LogFilter) -> (r: LogQuery<L>)
        ensures
            r.wf(),
            r.filter() == filter,
            r.next_from() == filter.from_block,
            r.expected_page_size() == 10000,
            r.page_size() == 10000,
            r.pending().len() == 0,
            r.last_block() is None,
            r.state() == LogQueryState::Initial,
    {
        LogQuery {
            filter,
            from_block: filter.from_block,
            expected_page_size: 10000,
            page_size: 10000,
            current_logs: VecDeque::new(),
            last_block: None,
            state: LogQueryState::Initial,
        }
    }

    /// Sets the page size, which is also the size restored after each page
    /// that loads.
    pub fn with_page_size(self, page_size: u64) -> (r: LogQuery<L>)
        requires
            page_size >= 1,
            self.wf(),
        ensures
            r.wf(),
            r.page_size() == page_size,
            r.expected_page_size() == page_size,
            r.filter() == self.filter(),
            r.next_from() == self.next_from(),
            r.pending() == self.pending(),
            r.last_block() == self.last_block(),
            r.state() == self.state(),
    {
        let mut q = self;
        q.page_size = page_size;
        q.expected_page_size = page_size;
        q
    }

    /// Takes the driver's report of what happened and decides what to do next.
    pub fn poll_next<E>(&mut self, event: LogEvent<L, E>) -> (r: LogAction<L, E>)
        requires
            old(self).wf(),
        ensures
            final(self).wf(),
            final(self).filter() == old(self).filter(),
            final(self).expected_page_size() == old(self).expected_page_size(),
            !(old(self).state() is LoadLogs) ==> final(self).page_size() == old(self).page_size(),
            // an error ends the query, and nothing follows the end
            r is Fail ==> final(self).state() == LogQueryState::Done,
            old(self).state() is Done ==> r is End && final(self).state() == LogQueryState::Done,
            // start: load everything, or the latest block, or the first page
            old(self).state() is Initial && event is Poll && !old(self).filter().paginatable() ==> {
                &&& r is FetchLogs && r->FetchLogs_0 is None
                &&& final(self).state() == LogQueryState::LoadLogs(None)
            },
            old(self).state() is Initial && event is Poll && old(self).filter().paginatable()
                && old(self).filter().to_block is None ==> {
                &&& r is FetchLastBlock
                &&& final(self).state() == LogQueryState::LoadLastBlock
            },
            old(self).state() is Initial && event is Poll && old(self).filter().paginatable()
                && old(self).filter().to_block is Some ==> {
                &&& final(self).last_block() == old(self).filter().to_block
                &&& final(self).drained(
                    r,
                    old(self).pending(),
                    true,
                    old(self).next_from(),
                    old(self).page_size(),
                    old(self).filter().to_block,
                )
            },
            // the latest block bounds the range; then the first page follows
            old(self).state() is LoadLastBlock && event is LastBlock ==> {
                &&& final(self).last_block() == Some(event->LastBlock_0)
                &&& final(self).drained(
                    r,
                    old(self).pending(),
                    old(self).filter().paginatable(),
                    old(self).next_from(),
                    old(self).page_size(),
                    Some(event->LastBlock_0),
                )
            },
            old(self).state() is LoadLastBlock && event is LastBlockFailed ==> r
                == LogAction::<L, E>::Fail(LogQueryError::LoadLastBlockError(event->LastBlockFailed_0)),
            // a page arrived: the page size is restored and its logs go out
            old(self).state() is LoadLogs && event is Logs ==> {
                &&& final(self).page_size() == old(self).expected_page_size()
                &&& final(self).last_block() == old(self).last_block()
                &&& final(self).drained(
                    r,
                    event->Logs_0@,
                    old(self).filter().paginatable(),
                    old(self).next_from(),
                    old(self).expected_page_size(),
                    old(self).last_block(),
                )
            },
            // an oversized page: retry from its first block with half the size
            old(self).state() is LoadLogs && event is LogsFailed && is_overflow_message(
                event->LogsFailed_1@,
            ) ==> {
                &&& final(self).page_size() == if old(self).page_size() / 2 >= 1 {
                    old(self).page_size() / 2
                } else {
                    1
                }
                &&& final(self).last_block() == old(self).last_block()
                &&& final(self).drained(
                    r,
                    old(self).pending(),
                    old(self).filter().paginatable(),
                    old(self).state()->LoadLogs_0,
                    final(self).page_size(),
                    old(self).last_block(),
                )
            },
            old(self).state() is LoadLogs && event is LogsFailed && !is_overflow_message(
                event->LogsFailed_1@,
            ) ==> r == LogAction::<L, E>::Fail(LogQueryError::LoadLogsError(event->LogsFailed_0)),
            // the consumer asks: the next log, the end, or the next page
            old(self).state() is Consume && event is Poll ==> {
                &&& final(self).page_size() == old(self).page_size()
                &&& final(self).last_block() == old(self).last_block()
                &&& final(self).drained(
                    r,
                    old(self).pending(),
                    old(self).filter().paginatable(),
                    old(self).next_from(),
                    old(self).page_size(),
                    old(self).last_block(),
                )
            },
            // any other event is out of place and changes nothing
            r is Ignored ==> final(self).state() == old(self).state() && final(self).pending()
                == old(self).pending() && final(self).next_from() == old(self).next_from(),
            !(old(self).state() is Done) && !(old(self).state() is Initial && event is Poll) && !(
            old(self).state() is LoadLastBlock && (event is LastBlock || event is LastBlockFailed))
                && !(old(self).state() is LoadLogs && (event is Logs || event is LogsFailed)) && !(
            old(self).state() is Consume && event is Poll) ==> r is Ignored,
    {
        match self.state {
            LogQueryState::Done => LogAction::End,
            LogQueryState::Initial => {
                match event {
                    LogEvent::Poll => {
                        if !self.filter.is_paginatable() {
                            self.state = LogQueryState::LoadLogs(None);
                            LogAction::FetchLogs(None)
                        } else {
                            match self.filter.to_block {
                                Some(number) => {
                                    self.last_block = Some(number);
                                    self.next_page()
                                },
                                None => {
                                    self.state = LogQueryState::LoadLastBlock;
                                    LogAction::FetchLastBlock
                                },
                            }
                        }
                    },
                    _ => LogAction::Ignored,
                }
            },
            LogQueryState::LoadLastBlock => {
                match event {
                    LogEvent::LastBlock(last_block) => {
                        self.last_block = Some(last_block);
                        self.next_page()
                    },
                    LogEvent::LastBlockFailed(err) => {
                        self.state = LogQueryState::Done;
                        LogAction::Fail(LogQueryError::LoadLastBlockError(err))
                    },
                    _ => LogAction::Ignored,
                }
            },
            LogQueryState::LoadLogs(page_from) => {
                match event {
                    LogEvent::Logs(logs) => {
                        self.current_logs = into_deque(logs);
                        self.page_size = self.expected_page_size;
                        self.state = LogQueryState::Consume;
                        self.drain()
                    },
                    LogEvent::LogsFailed(err, msg) => {
                        if is_overflow_error(msg.as_str()) {
                            self.from_block = page_from;
                            self.page_size = if self.page_size / 2 >= 1 {
                                self.page_size / 2
                            } else {
                                1
                            };
                            self.state = LogQueryState::Consume;
                            self.drain()
                        } else {
                            self.state = LogQueryState::Done;
                            LogAction::Fail(LogQueryError::LoadLogsError(err))
                        }
                    },
                    _ => LogAction::Ignored,
                }
            },
            LogQueryState::Consume => {
                match event {
                    LogEvent::Poll => self.drain(),
                    _ => LogAction::Ignored,
                }
            },
        }
    }
}

} // verus!
