//! What holds of every library state that a sequence of requests can reach.

use vstd::prelude::*;
use crate::ledger::{chronological, concerns, last_action, last_event, latest, lemma_latest_is_last_appended,
    lemma_latest_is_most_recent, lemma_latest_skips_others, most_recent};
use crate::engine::{CommitReport, EngineView, JudgedView, ResolvedView, SettledView, WritingView};
use crate::library::LibraryView;
use crate::model::{Action, EntryView, Permission, RejectReason, RequestView, StoreUnavailable, Timestamp,
    TransitionResult};

verus! {

/// What became of one request at the store.
pub enum Fate {
    /// The store ran the transition as one atomic step.
    Served,
    /// The store kept refusing the transition for contention until the
    /// retries were used up; nothing was written.
    Contended,
    /// The store could not be reached; nothing was written.
    Unreachable,
}

/// One request as the store met it.
pub struct Attempt {
    pub request: RequestView,
    pub now: Timestamp,
    pub fate: Fate,
}

impl LibraryView {
    /// What the caller of the attempt is told.
    pub open spec fn answer(self, a: Attempt) -> Result<TransitionResult, StoreUnavailable> {
        match a.fate {
            Fate::Served => Ok(self.judge(a.request, a.now)),
            Fate::Contended => Ok(TransitionResult::Rejected { reason: RejectReason::Conflict }),
            Fate::Unreachable => Err(StoreUnavailable),
        }
    }

    /// The state that the attempt leaves.
    pub open spec fn step(self, a: Attempt) -> LibraryView {
        match a.fate {
            Fate::Served => self.after(a.request, a.now),
            _ => self,
        }
    }

    /// The state after the attempts, taken one after the other.
    pub open spec fn run(self, attempts: Seq<Attempt>) -> LibraryView
        decreases attempts.len(),
    {
        if attempts.len() == 0 {
            self
        } else {
            self.run(attempts.drop_last()).step(attempts.last())
        }
    }

    /// How many of the attempts were accepted.
    pub open spec fn accepted(self, attempts: Seq<Attempt>) -> nat
        decreases attempts.len(),
    {
        if attempts.len() == 0 {
            0
        } else {
            let before = self.accepted(attempts.drop_last());
            match self.run(attempts.drop_last()).answer(attempts.last()) {
                Ok(TransitionResult::Accepted { .. }) => before + 1,
                _ => before,
            }
        }
    }
}

/// How many of the attempts the store served.
pub open spec fn served(attempts: Seq<Attempt>) -> nat
    decreases attempts.len(),
{
    if attempts.len() == 0 {
        0
    } else {
        served(attempts.drop_last()) + if attempts.last().fate is Served {
            1nat
        } else {
            0nat
        }
    }
}

/// Entry `i` was legal against the ledger as it stood before it: a checkout
/// by a borrower who did not hold the title, a checkin by one who did.
pub open spec fn lawful_at(log: Seq<EntryView>, i: int) -> bool {
    let held = last_action(log.take(i), log[i].isbn, log[i].borrower_id);
    match log[i].action {
        Action::Checkout => held != Some(Action::Checkout),
        Action::Checkin => held == Some(Action::Checkout),
    }
}

/// Every entry was legal when it was appended.
pub open spec fn orderly(log: Seq<EntryView>) -> bool {
    forall|i: int| 0 <= i < log.len() ==> lawful_at(log, i)
}

/// A request is accepted exactly when it is legal: the title and the
/// borrower are known and, for a checkout, the borrower does not hold the
/// title, the title may leave the library and a copy is on the shelf; for a
/// checkin, the borrower holds the title and a copy is out. An accepted
/// checkout takes one copy from the shelf, an accepted checkin puts one back,
/// and either is stamped with the time of the request and, while the clock
/// has not stepped back behind the ledger, becomes what the borrower last
/// did with the title. A rejected request changes nothing.
pub proof fn lemma_accepted_exactly_when_legal(s: LibraryView, req: RequestView, now: Timestamp)
    ensures
        s.judge(req, now) is Accepted <==> {
            &&& s.books.contains_key(req.isbn)
            &&& s.borrowers.contains(req.borrower_id)
            &&& match req.action {
                Action::Checkout => {
                    &&& last_action(s.ledger, req.isbn, req.borrower_id) != Some(Action::Checkout)
                    &&& s.books[req.isbn].permission == Permission::CanLeaveLibrary
                    &&& s.books[req.isbn].available > 0
                },
                Action::Checkin => {
                    &&& last_action(s.ledger, req.isbn, req.borrower_id) == Some(Action::Checkout)
                    &&& s.books[req.isbn].available < s.books[req.isbn].quantity
                },
            }
        },
        s.judge(req, now) is Accepted ==> {
            &&& s.judge(req, now)->timestamp == now
            &&& s.judge(req, now)->new_available == match req.action {
                Action::Checkout => s.books[req.isbn].available - 1,
                Action::Checkin => s.books[req.isbn].available + 1,
            }
            &&& s.after(req, now).ledger == s.ledger.push(req.entry(now))
        },
        s.judge(req, now) is Accepted && (forall|i: int|
            0 <= i < s.ledger.len() ==> (#[trigger] s.ledger[i]).timestamp.not_after(now)) ==> last_action(
            s.after(req, now).ledger,
            req.isbn,
            req.borrower_id,
        ) == Some(req.action),
        s.judge(req, now) is Rejected ==> s.after(req, now) == s,
{
    if s.judge(req, now) is Accepted {
        let next = s.ledger.push(req.entry(now));
        if forall|i: int| 0 <= i < s.ledger.len() ==> (#[trigger] s.ledger[i]).timestamp.not_after(now) {
            assert(next.drop_last() =~= s.ledger);
            lemma_latest_is_most_recent(s.ledger, req.isbn, req.borrower_id);
            assert(concerns(next[next.len() - 1], req.isbn, req.borrower_id));
        }
    }
}

/// Titles do not contend: a transition on one title changes neither the
/// record of another title nor the verdict on a request for another title.
pub proof fn lemma_other_titles_are_untouched(
    s: LibraryView,
    first: RequestView,
    at: Timestamp,
    second: RequestView,
    now: Timestamp,
)
    requires
        first.isbn != second.isbn,
    ensures
        s.after(first, at).book(second.isbn) == s.book(second.isbn),
        s.after(first, at).judge(second, now) == s.judge(second, now),
        s.after(first, at).after(second, now).books == s.after(second, now).after(first, at).books,
{
    let t = s.after(first, at);
    if t != s {
        lemma_latest_skips_others(s.ledger, first.entry(at), second.isbn, second.borrower_id);
    }
    let u = s.after(second, now);
    if u != s {
        lemma_latest_skips_others(s.ledger, second.entry(now), first.isbn, first.borrower_id);
    }
    assert(u.judge(first, at) == s.judge(first, at));
    assert(t.after(second, now).books =~= u.after(first, at).books);
}

/// A transition never leaves a title with more copies on the shelf than the
/// library owns.
pub proof fn lemma_transition_keeps_counts_in_bounds(s: LibraryView, req: RequestView, now: Timestamp)
    requires
        s.consistent(),
    ensures
        s.after(req, now).consistent(),
{
    let t = s.after(req, now);
    assert forall|k: Seq<char>| t.books.contains_key(k) implies (#[trigger] t.books[k]).consistent() by {
        if k != req.isbn || t == s {
            assert(s.books.contains_key(k));
            assert(s.books[k].consistent());
        }
    }
}

/// At every instant of every sequence of attempts, each title has between
/// zero and its owned number of copies on the shelf.
pub proof fn lemma_counts_stay_in_bounds(s: LibraryView, attempts: Seq<Attempt>, n: int)
    requires
        s.consistent(),
        0 <= n <= attempts.len(),
    ensures
        s.run(attempts.take(n)).consistent(),
        forall|k: Seq<char>| #[trigger]
            s.run(attempts.take(n)).books.contains_key(k) ==> 0 <= s.run(attempts.take(n)).books[k].available
                <= s.run(attempts.take(n)).books[k].quantity,
    decreases n,
{
    if n > 0 {
        let upto = attempts.take(n);
        assert(upto.drop_last() =~= attempts.take(n - 1));
        lemma_counts_stay_in_bounds(s, attempts, n - 1);
        let a = upto.last();
        lemma_transition_keeps_counts_in_bounds(s.run(attempts.take(n - 1)), a.request, a.now);
    }
    let t = s.run(attempts.take(n));
    assert forall|k: Seq<char>| #[trigger] t.books.contains_key(k) implies 0 <= t.books[k].available
        <= t.books[k].quantity by {
        assert(t.books[k].consistent());
    }
}

/// A transition appends only an entry that is legal against the ledger it
/// finds, and leaves the earlier entries as they were.
pub proof fn lemma_transition_keeps_ledger_orderly(s: LibraryView, req: RequestView, now: Timestamp)
    requires
        orderly(s.ledger),
    ensures
        orderly(s.after(req, now).ledger),
        s.after(req, now).ledger.len() <= s.ledger.len() + 1,
        s.after(req, now).ledger.take(s.ledger.len() as int) == s.ledger,
{
    let log = s.ledger;
    let next = s.after(req, now).ledger;
    assert(next.take(log.len() as int) =~= log);
    assert forall|i: int| 0 <= i < next.len() implies lawful_at(next, i) by {
        if i < log.len() {
            assert(next.take(i) =~= log.take(i));
            assert(lawful_at(log, i));
        }
    }
}

/// While the clock does not step back behind the ledger's entries, a
/// transition keeps the ledger in the order of its timestamps.
pub proof fn lemma_transition_keeps_ledger_chronological(s: LibraryView, req: RequestView, now: Timestamp)
    requires
        chronological(s.ledger),
        forall|i: int| 0 <= i < s.ledger.len() ==> (#[trigger] s.ledger[i]).timestamp.not_after(now),
    ensures
        chronological(s.after(req, now).ledger),
{
    let log = s.ledger;
    let next = s.after(req, now).ledger;
    assert forall|i: int, j: int| 0 <= i <= j < next.len() implies (#[trigger] next[i]).timestamp.not_after(
        (#[trigger] next[j]).timestamp,
    ) by {
        if j < log.len() {
            assert(log[i].timestamp.not_after(log[j].timestamp));
        } else if i < log.len() {
            assert(log[i].timestamp.not_after(now));
        }
    }
}

/// Whatever attempts are made, in whatever order, every entry of the ledger
/// was legal when it was appended.
pub proof fn lemma_ledger_stays_orderly(s: LibraryView, attempts: Seq<Attempt>)
    requires
        orderly(s.ledger),
    ensures
        orderly(s.run(attempts).ledger),
    decreases attempts.len(),
{
    if attempts.len() > 0 {
        lemma_ledger_stays_orderly(s, attempts.drop_last());
        let a = attempts.last();
        lemma_transition_keeps_ledger_orderly(s.run(attempts.drop_last()), a.request, a.now);
    }
}

/// The clock of the attempts never steps back: no attempt is stamped
/// earlier than an entry that the ledger holds or than an earlier attempt.
pub open spec fn timely(s: LibraryView, attempts: Seq<Attempt>) -> bool {
    &&& forall|i: int, n: int|
        0 <= i < s.ledger.len() && 0 <= n < attempts.len() ==> (#[trigger] s.ledger[i]).timestamp.not_after(
            (#[trigger] attempts[n]).now,
        )
    &&& forall|m: int, n: int|
        0 <= m <= n < attempts.len() ==> (#[trigger] attempts[m]).now.not_after((#[trigger] attempts[n]).now)
}

/// While the clock never steps back, the ledger stays in the order of its
/// timestamps, and no entry is stamped later than the latest attempt.
pub proof fn lemma_ledger_stays_chronological(s: LibraryView, attempts: Seq<Attempt>)
    requires
        chronological(s.ledger),
        timely(s, attempts),
    ensures
        chronological(s.run(attempts).ledger),
        attempts.len() > 0 ==> forall|i: int|
            0 <= i < s.run(attempts).ledger.len() ==> (#[trigger] s.run(attempts).ledger[i]).timestamp.not_after(
                attempts.last().now,
            ),
    decreases attempts.len(),
{
    if attempts.len() > 0 {
        let front = attempts.drop_last();
        let a = attempts.last();
        let last = attempts.len() - 1;
        assert(a == attempts[last]);
        assert(timely(s, front)) by {
            assert forall|n: int| 0 <= n < front.len() implies front[n] == attempts[n] by {}
        }
        lemma_ledger_stays_chronological(s, front);
        let t = s.run(front);
        assert forall|i: int| 0 <= i < t.ledger.len() implies (#[trigger] t.ledger[i]).timestamp.not_after(
            a.now,
        ) by {
            if front.len() > 0 {
                assert(front.last() == attempts[last - 1]);
                assert(attempts[last - 1].now.not_after(attempts[last].now));
                assert(t.ledger[i].timestamp.not_after(front.last().now));
            } else {
                assert(t == s);
                assert(s.ledger[i].timestamp.not_after(attempts[last].now));
            }
        }
        lemma_transition_keeps_ledger_chronological(t, a.request, a.now);
    }
}

/// The ledger of a new library is in order, and each of its entries, of
/// which there is none, was legal.
pub proof fn lemma_empty_ledger_is_in_order()
    ensures
        orderly(Seq::<EntryView>::empty()),
        chronological(Seq::<EntryView>::empty()),
{
}

/// Between two checkouts of a title by one borrower lies a checkin of that
/// title by that borrower.
pub proof fn lemma_no_double_checkout(
    log: Seq<EntryView>,
    isbn: Seq<char>,
    borrower: Seq<char>,
    i: int,
    j: int,
)
    requires
        chronological(log),
        orderly(log),
        0 <= i < j < log.len(),
        concerns(log[i], isbn, borrower),
        concerns(log[j], isbn, borrower),
        log[i].action == Action::Checkout,
        log[j].action == Action::Checkout,
    ensures
        exists|k: int| i < k < j && concerns(#[trigger] log[k], isbn, borrower) && log[k].action == Action::Checkin,
{
    let front = log.take(j);
    assert(chronological(front)) by {
        assert forall|a: int, b: int| 0 <= a <= b < front.len() implies (#[trigger] front[a]).timestamp.not_after(
            (#[trigger] front[b]).timestamp,
        ) by {
            assert(log[a].timestamp.not_after(log[b].timestamp));
        }
    }
    lemma_latest_is_last_appended(front, isbn, borrower);
    assert(lawful_at(log, j));
    assert(concerns(front[i], isbn, borrower));
    let m = latest(front, isbn, borrower)->0;
    assert(front[m] == log[m]);
    assert(i <= m);
    assert(i < m < j && concerns(log[m], isbn, borrower) && log[m].action == Action::Checkin);
}

/// A checkin is never the first entry of its pair: the pair's most recent
/// entry before it is a checkout.
pub proof fn lemma_checkin_follows_checkout(log: Seq<EntryView>, isbn: Seq<char>, borrower: Seq<char>, i: int)
    requires
        orderly(log),
        0 <= i < log.len(),
        concerns(log[i], isbn, borrower),
        log[i].action == Action::Checkin,
    ensures
        exists|k: int|
            0 <= k < i && #[trigger] most_recent(log.take(i), k, isbn, borrower) && log[k].action
                == Action::Checkout,
{
    let front = log.take(i);
    assert(lawful_at(log, i));
    lemma_latest_is_most_recent(front, isbn, borrower);
    let m = latest(front, isbn, borrower)->0;
    assert(front[m] == log[m]);
    assert(0 <= m < i && most_recent(log.take(i), m, isbn, borrower) && log[m].action == Action::Checkout);
}

/// Checkouts of one title never hand out more copies than were on the
/// shelf: each accepted attempt takes exactly one, and no other does.
pub proof fn lemma_checkouts_never_exceed_copies(s: LibraryView, isbn: Seq<char>, attempts: Seq<Attempt>)
    requires
        s.books.contains_key(isbn),
        forall|n: int|
            0 <= n < attempts.len() ==> (#[trigger] attempts[n]).request.isbn == isbn && attempts[n].request.action
                == Action::Checkout,
    ensures
        s.run(attempts).books.contains_key(isbn),
        s.accepted(attempts) + s.run(attempts).books[isbn].available == s.books[isbn].available,
        s.accepted(attempts) <= s.books[isbn].available,
    decreases attempts.len(),
{
    if attempts.len() > 0 {
        let front = attempts.drop_last();
        assert forall|n: int| 0 <= n < front.len() implies (#[trigger] front[n]).request.isbn == isbn
            && front[n].request.action == Action::Checkout by {
            assert(front[n] == attempts[n]);
        }
        lemma_checkouts_never_exceed_copies(s, isbn, front);
        assert(attempts.last() == attempts[attempts.len() - 1]);
    }
}

/// Attempts change no set of titles or borrowers, and of a title only the
/// count on the shelf and the date of its last transition.
pub proof fn lemma_run_changes_counts_only(s: LibraryView, attempts: Seq<Attempt>)
    ensures
        s.run(attempts).borrowers == s.borrowers,
        s.run(attempts).books.dom() == s.books.dom(),
        forall|k: Seq<char>| #[trigger]
            s.books.contains_key(k) ==> s.run(attempts).books[k].quantity == s.books[k].quantity && s.run(
                attempts,
            ).books[k].permission == s.books[k].permission,
    decreases attempts.len(),
{
    if attempts.len() > 0 {
        let front = attempts.drop_last();
        lemma_run_changes_counts_only(s, front);
        let t = s.run(front);
        let u = s.run(attempts);
        assert(u == t.step(attempts.last()));
        assert(u.books.dom() =~= t.books.dom());
        assert forall|k: Seq<char>| #[trigger] s.books.contains_key(k) implies u.books[k].quantity
            == s.books[k].quantity && u.books[k].permission == s.books[k].permission by {
            assert(t.books.contains_key(k));
        }
    }
}

/// Attempts by others leave untouched what a borrower last did with a title.
pub proof fn lemma_run_spares_other_pairs(
    s: LibraryView,
    attempts: Seq<Attempt>,
    isbn: Seq<char>,
    borrower: Seq<char>,
)
    requires
        forall|n: int|
            0 <= n < attempts.len() ==> !((#[trigger] attempts[n]).request.isbn == isbn
                && attempts[n].request.borrower_id == borrower),
    ensures
        last_action(s.run(attempts).ledger, isbn, borrower) == last_action(s.ledger, isbn, borrower),
    decreases attempts.len(),
{
    if attempts.len() > 0 {
        let front = attempts.drop_last();
        assert forall|n: int| 0 <= n < front.len() implies !((#[trigger] front[n]).request.isbn == isbn
            && front[n].request.borrower_id == borrower) by {
            assert(front[n] == attempts[n]);
        }
        lemma_run_spares_other_pairs(s, front, isbn, borrower);
        let a = attempts.last();
        assert(a == attempts[attempts.len() - 1]);
        let t = s.run(front);
        if t.step(a) != t {
            lemma_latest_skips_others(t.ledger, a.request.entry(a.now), isbn, borrower);
        }
    }
}

/// The answer to attempt `n` of a sequence.
pub open spec fn answer_at(s: LibraryView, attempts: Seq<Attempt>, n: int) -> Result<
    TransitionResult,
    StoreUnavailable,
> {
    s.run(attempts.take(n)).answer(attempts[n])
}

/// The premises of a rush on one title: every attempt is a checkout of the
/// title, which may leave the library, by a registered borrower who does not
/// hold it; no borrower attempts twice; and the store is reachable.
pub open spec fn rush(s: LibraryView, isbn: Seq<char>, attempts: Seq<Attempt>) -> bool {
    &&& s.books.contains_key(isbn)
    &&& s.books[isbn].permission == Permission::CanLeaveLibrary
    &&& forall|n: int|
        0 <= n < attempts.len() ==> {
            &&& (#[trigger] attempts[n]).request.isbn == isbn
            &&& attempts[n].request.action == Action::Checkout
            &&& !(attempts[n].fate is Unreachable)
            &&& s.borrowers.contains(attempts[n].request.borrower_id)
            &&& last_action(s.ledger, isbn, attempts[n].request.borrower_id) != Some(Action::Checkout)
        }
    &&& forall|m: int, n: int|
        0 <= m < n < attempts.len() ==> (#[trigger] attempts[m]).request.borrower_id != (
        #[trigger] attempts[n]).request.borrower_id
}

/// In a rush on a title with `k` copies on the shelf, the attempts that the
/// store serves are accepted until the `k` copies are gone and no longer:
/// where at least `k` are served exactly `k` are accepted. Every other
/// attempt is turned down for want of a copy or for contention.
pub proof fn lemma_rush_hands_out_each_copy_once(s: LibraryView, isbn: Seq<char>, attempts: Seq<Attempt>)
    requires
        rush(s, isbn, attempts),
    ensures
        s.accepted(attempts) == if served(attempts) <= s.books[isbn].available {
            served(attempts)
        } else {
            s.books[isbn].available as nat
        },
        forall|n: int|
            0 <= n < attempts.len() ==> {
                ||| #[trigger] answer_at(s, attempts, n) is Ok && answer_at(s, attempts, n)->Ok_0 is Accepted
                ||| answer_at(s, attempts, n) == Ok::<TransitionResult, StoreUnavailable>(
                    TransitionResult::Rejected { reason: RejectReason::NoCopiesAvailable },
                )
                ||| answer_at(s, attempts, n) == Ok::<TransitionResult, StoreUnavailable>(
                    TransitionResult::Rejected { reason: RejectReason::Conflict },
                )
            },
    decreases attempts.len(),
{
    if attempts.len() > 0 {
        let last = attempts.len() - 1;
        let front = attempts.drop_last();
        let a = attempts[last];
        assert(a == attempts.last());
        assert(rush(s, isbn, front)) by {
            assert forall|n: int| 0 <= n < front.len() implies front[n] == attempts[n] by {}
        }
        lemma_rush_hands_out_each_copy_once(s, isbn, front);
        lemma_checkouts_never_exceed_copies(s, isbn, front);
        lemma_run_changes_counts_only(s, front);
        assert forall|n: int| 0 <= n < front.len() implies !((#[trigger] front[n]).request.isbn == isbn
            && front[n].request.borrower_id == a.request.borrower_id) by {
            assert(front[n] == attempts[n]);
        }
        lemma_run_spares_other_pairs(s, front, isbn, a.request.borrower_id);
        let t = s.run(front);
        assert(t.books.contains_key(isbn));
        assert(s.books.contains_key(isbn));
        assert(t.books[isbn].permission == Permission::CanLeaveLibrary);
        assert(attempts.take(last) =~= front);
        assert forall|n: int| 0 <= n < attempts.len() implies {
            ||| #[trigger] answer_at(s, attempts, n) is Ok && answer_at(s, attempts, n)->Ok_0 is Accepted
            ||| answer_at(s, attempts, n) == Ok::<TransitionResult, StoreUnavailable>(
                TransitionResult::Rejected { reason: RejectReason::NoCopiesAvailable },
            )
            ||| answer_at(s, attempts, n) == Ok::<TransitionResult, StoreUnavailable>(
                TransitionResult::Rejected { reason: RejectReason::Conflict },
            )
        } by {
            if n < last {
                assert(attempts.take(n) =~= front.take(n));
                assert(answer_at(s, attempts, n) == answer_at(s, front, n));
            }
        }
    }
}

/// A request that is decided on a reading of a state, and whose writes are
/// committed to that same state, is the atomic transition of that state: the
/// answer is the state's verdict, and the writes, where there are any, are
/// admitted and lead to the state after the transition.
pub proof fn lemma_engine_performs_the_transition(s: LibraryView, e: EngineView, now: Timestamp)
    ensures
        match e.read(Ok(s.snapshot(e.request, now))) {
            JudgedView::Done(o) => {
                &&& o == Ok::<TransitionResult, StoreUnavailable>(s.judge(e.request, now))
                &&& s.judge(e.request, now) is Rejected
                &&& s.after(e.request, now) == s
            },
            JudgedView::Write(w) => {
                &&& s.admits(w.commit())
                &&& s.committed(w.commit()) == s.after(e.request, now)
                &&& w.settle(CommitReport::Committed) == SettledView::Done(Ok(s.judge(e.request, now)))
            },
        },
{
}

/// The engine ends a request as `Conflict` or as a fault only where the
/// store reported no commit and the ledger showed none, and it ends every
/// request whose commit was reported or shown as accepted.
pub proof fn lemma_engine_fails_only_without_commit(
    w: WritingView,
    report: CommitReport,
    latest: Result<Option<(Action, Timestamp)>, StoreUnavailable>,
)
    ensures
        report is Committed ==> w.settle(report) == SettledView::Done(w.accepted()),
        w.settle(report) is Done && w.settle(report) != SettledView::Done(w.accepted()) ==> report is Conflict
            || report is Failed,
        latest is Ok && w.landed(latest->Ok_0) ==> w.resolve(latest) == ResolvedView::Done(w.accepted()),
        w.resolve(latest) is Done && w.resolve(latest) != ResolvedView::Done(w.accepted()) ==> latest is Err
            || !w.landed(latest->Ok_0),
        w.settle(report) is Retry ==> w.settle(report)->Retry_0.retries_left < w.retries_left,
        w.resolve(latest) is Retry ==> w.resolve(latest)->Retry_0.retries_left < w.retries_left,
{
}

/// After a failure of unknown effect the look at the ledger tells what
/// happened, as long as nothing else has moved the store and the clock has
/// not stepped back behind the ledger. Where the writes took effect, the
/// pair's latest entry is theirs and the request ends as accepted, so that
/// it is not applied a second time. Where they did not, the pair's latest
/// entry is not theirs, and the request is not taken for applied.
pub proof fn lemma_ledger_tells_whether_writes_landed(t: LibraryView, p: WritingView)
    requires
        p.sound(),
        t.admits(p.commit()),
        forall|i: int| 0 <= i < t.ledger.len() ==> (#[trigger] t.ledger[i]).timestamp.not_after(p.timestamp),
    ensures
        p.landed(last_event(t.committed(p.commit()).ledger, p.request.isbn, p.request.borrower_id)),
        p.resolve(Ok(last_event(t.committed(p.commit()).ledger, p.request.isbn, p.request.borrower_id)))
            == ResolvedView::Done(p.accepted()),
        !p.landed(last_event(t.ledger, p.request.isbn, p.request.borrower_id)),
        !(p.resolve(Ok(last_event(t.ledger, p.request.isbn, p.request.borrower_id))) is Done
            && p.resolve(Ok(last_event(t.ledger, p.request.isbn, p.request.borrower_id)))->Done_0 is Ok),
{
    let e = p.request.entry(p.timestamp);
    let next = t.ledger.push(e);
    assert(next.drop_last() =~= t.ledger);
    lemma_latest_is_most_recent(t.ledger, p.request.isbn, p.request.borrower_id);
    assert(concerns(next[next.len() - 1], p.request.isbn, p.request.borrower_id));
}

/// An attempt that failed for contention or for an unreachable store left
/// nothing behind: the same request made again is answered as if it were
/// made for the first time, and the ledger gains at most the one entry.
pub proof fn lemma_retry_after_failure(s: LibraryView, failed: Attempt, again: Attempt)
    requires
        !(failed.fate is Served),
        again.request == failed.request,
    ensures
        s.answer(failed) == Ok::<TransitionResult, StoreUnavailable>(
            TransitionResult::Rejected { reason: RejectReason::Conflict },
        ) || s.answer(failed) == Err::<TransitionResult, StoreUnavailable>(StoreUnavailable),
        s.step(failed) == s,
        s.step(failed).answer(again) == s.answer(again),
        s.run(seq![failed, again]) == s.step(again),
        s.run(seq![failed, again]).ledger.len() <= s.ledger.len() + 1,
{
    let both = seq![failed, again];
    assert(both.drop_last() =~= seq![failed]);
    assert(seq![failed].drop_last() =~= Seq::<Attempt>::empty());
    assert(s.run(Seq::<Attempt>::empty()) == s);
    assert(s.run(seq![failed]) == s.step(failed));
    assert(both.last() == again);
}

} // verus!
