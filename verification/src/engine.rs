//! The protocol that carries one request through a transactional store:
//! read, decide, write, and on contention start over, a bounded number of
//! times. The store's work is done by the caller; every decision is made
//! here.

use vstd::prelude::*;
use crate::model::{Action, ActionRequest, BookState, EntryView, HistoryEntry, RejectReason, RequestView,
    StoreUnavailable, Timestamp, TransitionResult};
use crate::rules::{decide, verdict};

verus! {

/// How often a request is started over after contention, unless the caller
/// says otherwise.
pub const DEFAULT_RETRIES: u32 = 3;

/// One consistent reading of the store, taken in the transaction that will
/// also write: the title's record, whether the borrower is registered, what
/// the borrower last did with the title, and the time.
#[derive(Clone, Copy, Debug, PartialEq, Eq, Structural)]
pub struct Snapshot {
    pub book: Option<BookState>,
    pub borrower_known: bool,
    pub holding: Option<Action>,
    pub now: Timestamp,
}

/// What the store said of the writes it was handed.
#[derive(Clone, Copy, Debug, PartialEq, Eq, Structural)]
pub enum CommitReport {
    /// Both writes are durable.
    Committed,
    /// The store refused the writes because the state had moved since it was
    /// read; nothing was written.
    Conflict,
    /// The store failed before the writes could take effect.
    Failed,
    /// The store failed while committing: the writes took effect or they did
    /// not.
    Unknown,
}

/// The writes of an accepted transition, over sequences of characters.
pub struct CommitView {
    pub expected: BookState,
    pub expected_holding: Option<Action>,
    pub record: BookState,
    pub entry: EntryView,
}

/// The writes of an accepted transition, which the store commits together
/// or not at all: the title's new record and the ledger entry. They are
/// valid only while the title's record and the borrower's last action are
/// still the ones that were read.
#[derive(Clone, Debug, PartialEq, Eq)]
pub struct Commit {
    pub expected: BookState,
    pub expected_holding: Option<Action>,
    pub record: BookState,
    pub entry: HistoryEntry,
}

impl View for Commit {
    type V = CommitView;

    open spec fn view(&self) -> CommitView {
        CommitView {
            expected: self.expected,
            expected_holding: self.expected_holding,
            record: self.record,
            entry: self.entry@,
        }
    }
}

/// A request that is about to read the store.
pub struct EngineView {
    pub request: RequestView,
    pub retries_left: nat,
}

/// A request whose writes are with the store.
pub struct WritingView {
    pub request: RequestView,
    pub retries_left: nat,
    pub book: BookState,
    pub holding: Option<Action>,
    pub new_available: u64,
    pub timestamp: Timestamp,
}

/// Where a request stands after a reading: its writes go to the store, or
/// it has been answered.
pub enum JudgedView {
    Write(WritingView),
    Done(Result<TransitionResult, StoreUnavailable>),
}

/// Where a request stands after the store's report: it has been answered,
/// it starts over, or the ledger is to be asked.
pub enum SettledView {
    Done(Result<TransitionResult, StoreUnavailable>),
    Retry(EngineView),
    Recheck(WritingView),
}

/// Where a request stands after the look at the ledger: it has been
/// answered, or it starts over.
pub enum ResolvedView {
    Done(Result<TransitionResult, StoreUnavailable>),
    Retry(EngineView),
}

impl EngineView {
    /// What follows a reading of the store. An unreachable store ends the
    /// request; a rejection ends it with the reason; an acceptance hands the
    /// writes to the store.
    pub open spec fn read(self, reading: Result<Snapshot, StoreUnavailable>) -> JudgedView {
        match reading {
            Err(_) => JudgedView::Done(Err(StoreUnavailable)),
            Ok(snap) => match verdict(snap.book, snap.borrower_known, snap.holding, self.request.action, snap.now) {
                TransitionResult::Accepted { new_available, timestamp } => JudgedView::Write(
                    WritingView {
                        request: self.request,
                        retries_left: self.retries_left,
                        book: snap.book->0,
                        holding: snap.holding,
                        new_available: new_available,
                        timestamp: timestamp,
                    },
                ),
                TransitionResult::Rejected { reason } => JudgedView::Done(
                    Ok(TransitionResult::Rejected { reason: reason }),
                ),
            },
        }
    }
}

impl WritingView {
    /// The writes are the acceptance of the request on the record and the
    /// last action that were read.
    pub open spec fn sound(self) -> bool {
        self.accepted() == Ok::<TransitionResult, StoreUnavailable>(
            verdict(Some(self.book), true, self.holding, self.request.action, self.timestamp),
        )
    }

    /// The writes that the store is asked to commit.
    pub open spec fn commit(self) -> CommitView {
        CommitView {
            expected: self.book,
            expected_holding: self.holding,
            record: self.book.moved(self.new_available, self.timestamp),
            entry: self.request.entry(self.timestamp),
        }
    }

    /// The acceptance that the writes stand for.
    pub open spec fn accepted(self) -> Result<TransitionResult, StoreUnavailable> {
        Ok(TransitionResult::Accepted { new_available: self.new_available, timestamp: self.timestamp })
    }

    /// The request as it starts over, one retry poorer.
    pub open spec fn again(self) -> EngineView {
        EngineView { request: self.request, retries_left: (self.retries_left - 1) as nat }
    }

    /// What follows the store's report on the writes. Committed writes end
    /// the request as accepted. After a conflict the request starts over
    /// while retries are left, and ends as `Conflict` when none is. A
    /// failure before the writes ends it as a fault. After a failure of
    /// unknown effect the ledger is asked first.
    pub open spec fn settle(self, report: CommitReport) -> SettledView {
        match report {
            CommitReport::Committed => SettledView::Done(self.accepted()),
            CommitReport::Conflict => if self.retries_left > 0 {
                SettledView::Retry(self.again())
            } else {
                SettledView::Done(Ok(TransitionResult::Rejected { reason: RejectReason::Conflict }))
            },
            CommitReport::Failed => SettledView::Done(Err(StoreUnavailable)),
            CommitReport::Unknown => SettledView::Recheck(self),
        }
    }

    /// The pair's latest ledger entry is the one that these writes append.
    pub open spec fn landed(self, latest: Option<(Action, Timestamp)>) -> bool {
        latest == Some((self.request.action, self.timestamp))
    }

    /// What follows the look at the ledger after a failure of unknown
    /// effect. Where the pair's latest entry is the one that was being
    /// written, the transition took effect and the request ends as accepted.
    /// Where it is not, nothing was written: the request starts over while
    /// retries are left and ends as a fault when none is, as it does where
    /// the ledger cannot be read.
    pub open spec fn resolve(self, latest: Result<Option<(Action, Timestamp)>, StoreUnavailable>) -> ResolvedView {
        match latest {
            Err(_) => ResolvedView::Done(Err(StoreUnavailable)),
            Ok(l) => if self.landed(l) {
                ResolvedView::Done(self.accepted())
            } else if self.retries_left > 0 {
                ResolvedView::Retry(self.again())
            } else {
                ResolvedView::Done(Err(StoreUnavailable))
            },
        }
    }
}

/// A request that is about to read the store.
pub struct Engine {
    request: ActionRequest,
    retries_left: u32,
}

/// A request whose writes are with the store.
pub struct Writing {
    request: ActionRequest,
    retries_left: u32,
    book: BookState,
    holding: Option<Action>,
    new_available: u64,
    timestamp: Timestamp,
}

/// A request whose writes may or may not have taken effect.
pub struct Checking {
    writing: Writing,
}

/// Where a request stands after a reading.
pub enum Judged {
    Write(Writing),
    Done(Result<TransitionResult, StoreUnavailable>),
}

/// Where a request stands after the store's report.
pub enum Settled {
    Done(Result<TransitionResult, StoreUnavailable>),
    Retry(Engine),
    Recheck(Checking),
}

/// Where a request stands after the look at the ledger.
pub enum Resolved {
    Done(Result<TransitionResult, StoreUnavailable>),
    Retry(Engine),
}

impl View for Engine {
    type V = EngineView;

    closed spec fn view(&self) -> EngineView {
        EngineView { request: self.request@, retries_left: self.retries_left as nat }
    }
}

impl View for Writing {
    type V = WritingView;

    closed spec fn view(&self) -> WritingView {
        WritingView {
            request: self.request@,
            retries_left: self.retries_left as nat,
            book: self.book,
            holding: self.holding,
            new_available: self.new_available,
            timestamp: self.timestamp,
        }
    }
}

impl View for Checking {
    type V = WritingView;

    closed spec fn view(&self) -> WritingView {
        self.writing@
    }
}

impl View for Judged {
    type V = JudgedView;

    open spec fn view(&self) -> JudgedView {
        match *self {
            Judged::Write(w) => JudgedView::Write(w@),
            Judged::Done(o) => JudgedView::Done(o),
        }
    }
}

impl View for Settled {
    type V = SettledView;

    open spec fn view(&self) -> SettledView {
        match *self {
            Settled::Done(o) => SettledView::Done(o),
            Settled::Retry(e) => SettledView::Retry(e@),
            Settled::Recheck(c) => SettledView::Recheck(c@),
        }
    }
}

impl View for Resolved {
    type V = ResolvedView;

    open spec fn view(&self) -> ResolvedView {
        match *self {
            Resolved::Done(o) => ResolvedView::Done(o),
            Resolved::Retry(e) => ResolvedView::Retry(e@),
        }
    }
}

impl Engine {
    /// A request that may start over `retries` times after contention.
    pub fn new(request: ActionRequest, retries: u32) -> (e: Engine)
        ensures
            e@ == (EngineView { request: request@, retries_left: retries as nat }),
    {
        Engine { request: request, retries_left: retries }
    }

    /// The request that is being carried.
    pub fn request(&self) -> (r: &ActionRequest)
        ensures
            r@ == self@.request,
    {
        &self.request
    }

    /// How often the request may still start over.
    pub fn retries_left(&self) -> (n: u32)
        ensures
            n == self@.retries_left,
    {
        self.retries_left
    }

    /// Takes a reading of the store and decides the request against it.
    pub fn read(self, reading: Result<Snapshot, StoreUnavailable>) -> (j: Judged)
        ensures
            j@ == self@.read(reading),
    {
        let snap = match reading {
            Err(_) => {
                return Judged::Done(Err(StoreUnavailable));
            },
            Ok(snap) => snap,
        };
        match decide(snap.book, snap.borrower_known, snap.holding, self.request.action, snap.now) {
            TransitionResult::Accepted { new_available, timestamp } => {
                let book = match snap.book {
                    Some(b) => b,
                    None => {
                        return Judged::Done(Ok(TransitionResult::Rejected { reason: RejectReason::UnknownBook }));
                    },
                };
                Judged::Write(
                    Writing {
                        request: self.request,
                        retries_left: self.retries_left,
                        book: book,
                        holding: snap.holding,
                        new_available: new_available,
                        timestamp: timestamp,
                    },
                )
            },
            TransitionResult::Rejected { reason } => Judged::Done(
                Ok(TransitionResult::Rejected { reason: reason }),
            ),
        }
    }
}

impl Writing {
    /// The request that is being carried.
    pub fn request(&self) -> (r: &ActionRequest)
        ensures
            r@ == self@.request,
    {
        &self.request
    }

    /// The writes that the store is to commit as one unit.
    pub fn commit(&self) -> (c: Commit)
        ensures
            c@ == self@.commit(),
    {
        Commit {
            expected: self.book,
            expected_holding: self.holding,
            record: self.book.with_transition(self.new_available, self.timestamp),
            entry: self.request.to_entry(self.timestamp),
        }
    }

    fn again(self) -> (e: Engine)
        requires
            self@.retries_left > 0,
        ensures
            e@ == self@.again(),
    {
        Engine { request: self.request, retries_left: self.retries_left - 1 }
    }

    fn accepted(&self) -> (o: Result<TransitionResult, StoreUnavailable>)
        ensures
            o == self@.accepted(),
    {
        Ok(TransitionResult::Accepted { new_available: self.new_available, timestamp: self.timestamp })
    }

    /// Takes the store's report on the writes.
    pub fn settle(self, report: CommitReport) -> (s: Settled)
        ensures
            s@ == self@.settle(report),
    {
        match report {
            CommitReport::Committed => Settled::Done(self.accepted()),
            CommitReport::Conflict => {
                if self.retries_left > 0 {
                    Settled::Retry(self.again())
                } else {
                    Settled::Done(Ok(TransitionResult::Rejected { reason: RejectReason::Conflict }))
                }
            },
            CommitReport::Failed => Settled::Done(Err(StoreUnavailable)),
            CommitReport::Unknown => Settled::Recheck(Checking { writing: self }),
        }
    }
}

impl Checking {
    /// The request that is being carried.
    pub fn request(&self) -> (r: &ActionRequest)
        ensures
            r@ == self@.request,
    {
        &self.writing.request
    }

    /// Takes what the ledger now holds as the pair's latest entry, its
    /// action and its timestamp.
    pub fn resolve(self, latest: Result<Option<(Action, Timestamp)>, StoreUnavailable>) -> (r: Resolved)
        ensures
            r@ == self@.resolve(latest),
    {
        let seen = match latest {
            Err(_) => {
                return Resolved::Done(Err(StoreUnavailable));
            },
            Ok(seen) => seen,
        };
        let landed = match seen {
            Some((action, at)) => action == self.writing.request.action && at == self.writing.timestamp,
            None => false,
        };
        if landed {
            Resolved::Done(self.writing.accepted())
        } else if self.writing.retries_left > 0 {
            Resolved::Retry(self.writing.again())
        } else {
            Resolved::Done(Err(StoreUnavailable))
        }
    }
}

} // verus!
