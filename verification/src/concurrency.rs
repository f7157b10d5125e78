//! Requests that race: several requests are carried through one store at
//! once, and their readings and commits interleave in any order.

use vstd::prelude::*;
use crate::engine::{CommitReport, EngineView, JudgedView, SettledView, Snapshot, WritingView};
use crate::laws::{lemma_transition_keeps_counts_in_bounds, lemma_transition_keeps_ledger_orderly, orderly};
use crate::ledger::{last_action, lemma_latest_skips_others};
use crate::library::LibraryView;
use crate::model::{Action, Permission, RejectReason, StoreUnavailable, Timestamp, TransitionResult};

verus! {

/// Where one request stands.
pub enum Session {
    /// It is about to read the store.
    Ready(EngineView),
    /// It was accepted on what it read, and its writes await the store.
    Pending(WritingView),
    /// It has been answered.
    Finished(Result<TransitionResult, StoreUnavailable>),
}

/// A store and the requests that are under way against it.
pub struct World {
    pub store: LibraryView,
    pub sessions: Seq<Session>,
}

/// One step of one request, taken at `now`.
pub struct Move {
    pub session: int,
    pub now: Timestamp,
}

impl World {
    /// Every pending request is sound and comes from a registered borrower.
    pub open spec fn settled(self) -> bool {
        forall|i: int|
            0 <= i < self.sessions.len() && (#[trigger] self.sessions[i]) is Pending ==> {
                &&& self.sessions[i]->Pending_0.sound()
                &&& self.store.borrowers.contains(self.sessions[i]->Pending_0.request.borrower_id)
            }
    }

    /// The world after one step. A request that is ready reads the store
    /// and is decided on the reading. A request whose writes are pending
    /// hands them to the store: where the store still admits them they take
    /// effect and the request is answered as accepted; where it does not,
    /// nothing is written and the request meets a conflict. A request that
    /// has been answered does nothing.
    pub open spec fn advance(self, m: Move) -> World {
        if !(0 <= m.session < self.sessions.len()) {
            self
        } else {
            match self.sessions[m.session] {
                Session::Ready(e) => match e.read(Ok(self.store.snapshot(e.request, m.now))) {
                    JudgedView::Write(p) => self.with(m.session, Session::Pending(p)),
                    JudgedView::Done(o) => self.with(m.session, Session::Finished(o)),
                },
                Session::Pending(p) => if self.store.admits(p.commit()) {
                    World {
                        store: self.store.committed(p.commit()),
                        sessions: self.sessions.update(m.session, Session::Finished(p.accepted())),
                    }
                } else {
                    match p.settle(CommitReport::Conflict) {
                        SettledView::Retry(e) => self.with(m.session, Session::Ready(e)),
                        SettledView::Done(o) => self.with(m.session, Session::Finished(o)),
                        SettledView::Recheck(_) => self,
                    }
                },
                Session::Finished(_) => self,
            }
        }
    }

    /// The same store, with one request moved on.
    pub open spec fn with(self, i: int, s: Session) -> World {
        World { store: self.store, sessions: self.sessions.update(i, s) }
    }

    /// The world after the steps, taken one after the other.
    pub open spec fn play(self, moves: Seq<Move>) -> World
        decreases moves.len(),
    {
        if moves.len() == 0 {
            self
        } else {
            self.play(moves.drop_last()).advance(moves.last())
        }
    }
}

/// The request was answered as accepted.
pub open spec fn took_a_copy(s: Session) -> bool {
    s is Finished && s->Finished_0 is Ok && s->Finished_0->Ok_0 is Accepted
}

/// How many of the requests were answered as accepted.
pub open spec fn lent(sessions: Seq<Session>) -> nat
    decreases sessions.len(),
{
    if sessions.len() == 0 {
        0
    } else {
        lent(sessions.drop_last()) + if took_a_copy(sessions.last()) {
            1nat
        } else {
            0nat
        }
    }
}

proof fn lemma_lent_update(sessions: Seq<Session>, i: int, s: Session)
    requires
        0 <= i < sessions.len(),
    ensures
        lent(sessions.update(i, s)) + (if took_a_copy(sessions[i]) {
            1nat
        } else {
            0nat
        }) == lent(sessions) + (if took_a_copy(s) {
            1nat
        } else {
            0nat
        }),
    decreases sessions.len(),
{
    let next = sessions.update(i, s);
    if i == sessions.len() - 1 {
        assert(next.drop_last() =~= sessions.drop_last());
    } else {
        assert(next.drop_last() =~= sessions.drop_last().update(i, s));
        assert(next.last() == sessions.last());
        lemma_lent_update(sessions.drop_last(), i, s);
    }
}

/// Writes that were decided on a reading are sound, and the reading found
/// the borrower registered.
pub proof fn lemma_decided_writes_are_sound(e: EngineView, snap: Snapshot)
    requires
        e.read(Ok(snap)) is Write,
    ensures
        e.read(Ok(snap))->Write_0.sound(),
        e.read(Ok(snap))->Write_0.request == e.request,
        e.read(Ok(snap))->Write_0.timestamp == snap.now,
        snap.borrower_known,
{
}

/// Writes that the store admits are the atomic transition of the store as
/// it stands, whatever has happened since they were decided.
pub proof fn lemma_admitted_commit_is_the_transition(t: LibraryView, p: WritingView)
    requires
        p.sound(),
        t.admits(p.commit()),
        t.borrowers.contains(p.request.borrower_id),
    ensures
        Ok::<TransitionResult, StoreUnavailable>(t.judge(p.request, p.timestamp)) == p.accepted(),
        t.committed(p.commit()) == t.after(p.request, p.timestamp),
{
}

/// However requests interleave, a step either leaves the store as it is or
/// applies to it the atomic transition of the request that took the step.
pub proof fn lemma_step_is_a_transition_or_nothing(w: World, m: Move)
    requires
        w.settled(),
    ensures
        w.advance(m).settled(),
        w.advance(m).sessions.len() == w.sessions.len(),
        w.advance(m).store == w.store || {
            &&& 0 <= m.session < w.sessions.len()
            &&& w.sessions[m.session] is Pending
            &&& w.store.judge(
                w.sessions[m.session]->Pending_0.request,
                w.sessions[m.session]->Pending_0.timestamp,
            ) is Accepted
            &&& w.advance(m).store == w.store.after(
                w.sessions[m.session]->Pending_0.request,
                w.sessions[m.session]->Pending_0.timestamp,
            )
        },
{
    let v = w.advance(m);
    if 0 <= m.session < w.sessions.len() {
        if let Session::Pending(p) = w.sessions[m.session] {
            if w.store.admits(p.commit()) {
                lemma_admitted_commit_is_the_transition(w.store, p);
            }
        }
        assert forall|i: int| 0 <= i < v.sessions.len() && (#[trigger] v.sessions[i]) is Pending implies {
            &&& v.sessions[i]->Pending_0.sound()
            &&& v.store.borrowers.contains(v.sessions[i]->Pending_0.request.borrower_id)
        } by {
            if i != m.session {
                assert(v.sessions[i] == w.sessions[i]);
            }
        }
    }
}

/// However requests interleave, no title ever has more copies on the shelf
/// than the library owns, and every ledger entry was legal when it was
/// appended.
pub proof fn lemma_interleaving_keeps_the_store_in_order(w: World, moves: Seq<Move>)
    requires
        w.settled(),
    ensures
        w.play(moves).settled(),
        w.play(moves).sessions.len() == w.sessions.len(),
        w.store.consistent() ==> w.play(moves).store.consistent(),
        orderly(w.store.ledger) ==> orderly(w.play(moves).store.ledger),
    decreases moves.len(),
{
    if moves.len() > 0 {
        lemma_interleaving_keeps_the_store_in_order(w, moves.drop_last());
        let v = w.play(moves.drop_last());
        let m = moves.last();
        lemma_step_is_a_transition_or_nothing(v, m);
        if v.advance(m).store != v.store {
            let p = v.sessions[m.session]->Pending_0;
            if v.store.consistent() {
                lemma_transition_keeps_counts_in_bounds(v.store, p.request, p.timestamp);
            }
            if orderly(v.store.ledger) {
                lemma_transition_keeps_ledger_orderly(v.store, p.request, p.timestamp);
            }
        }
    }
}

/// The answer that turns a borrower away for want of a copy.
pub open spec fn no_copies() -> Session {
    Session::Finished(Ok(TransitionResult::Rejected { reason: RejectReason::NoCopiesAvailable }))
}

/// The answer that turns a borrower away after contention.
pub open spec fn contended() -> Session {
    Session::Finished(Ok(TransitionResult::Rejected { reason: RejectReason::Conflict }))
}

/// A rush on one title is about to begin: every request is ready and is a
/// checkout of the title, which may leave the library, by a registered
/// borrower who does not hold it, and no borrower has two requests.
pub open spec fn crowd(w: World, isbn: Seq<char>) -> bool {
    &&& w.store.books.contains_key(isbn)
    &&& w.store.books[isbn].permission == Permission::CanLeaveLibrary
    &&& forall|i: int|
        0 <= i < w.sessions.len() ==> {
            &&& (#[trigger] w.sessions[i]) is Ready
            &&& w.sessions[i]->Ready_0.request.isbn == isbn
            &&& w.sessions[i]->Ready_0.request.action == Action::Checkout
            &&& w.store.borrowers.contains(w.sessions[i]->Ready_0.request.borrower_id)
            &&& last_action(w.store.ledger, isbn, w.sessions[i]->Ready_0.request.borrower_id) != Some(
                Action::Checkout,
            )
        }
    &&& forall|i: int, j: int|
        0 <= i < j < w.sessions.len() ==> (#[trigger] w.sessions[i])->Ready_0.request.borrower_id != (
        #[trigger] w.sessions[j])->Ready_0.request.borrower_id
}

/// What holds of a rush that began in `w` at every world `v` that it
/// reaches: the copies lent and the copies on the shelf add up to the
/// copies that were there; a request that is under way is the one that
/// began, by a borrower who does not hold the title; a request that was
/// answered was accepted or turned away for want of a copy or after
/// contention; and once a borrower was turned away for want of a copy the
/// shelf is empty.
pub open spec fn racing(w: World, v: World, isbn: Seq<char>) -> bool {
    &&& v.settled()
    &&& v.sessions.len() == w.sessions.len()
    &&& v.store.borrowers == w.store.borrowers
    &&& v.store.books.contains_key(isbn)
    &&& v.store.books[isbn].permission == Permission::CanLeaveLibrary
    &&& lent(v.sessions) + v.store.books[isbn].available == w.store.books[isbn].available
    &&& forall|i: int|
        0 <= i < v.sessions.len() ==> match #[trigger] v.sessions[i] {
            Session::Ready(e) => e.request == w.sessions[i]->Ready_0.request && last_action(
                v.store.ledger,
                isbn,
                e.request.borrower_id,
            ) != Some(Action::Checkout),
            Session::Pending(p) => p.request == w.sessions[i]->Ready_0.request && last_action(
                v.store.ledger,
                isbn,
                p.request.borrower_id,
            ) != Some(Action::Checkout),
            Session::Finished(_) => took_a_copy(v.sessions[i]) || v.sessions[i] == no_copies() || v.sessions[i]
                == contended(),
        }
    &&& (exists|i: int| 0 <= i < v.sessions.len() && #[trigger] v.sessions[i] == no_copies())
        ==> v.store.books[isbn].available == 0
}

proof fn lemma_nothing_lent_yet(sessions: Seq<Session>)
    requires
        forall|i: int| 0 <= i < sessions.len() ==> !took_a_copy(#[trigger] sessions[i]),
    ensures
        lent(sessions) == 0,
    decreases sessions.len(),
{
    if sessions.len() > 0 {
        let front = sessions.drop_last();
        assert forall|i: int| 0 <= i < front.len() implies !took_a_copy(#[trigger] front[i]) by {
            assert(front[i] == sessions[i]);
        }
        lemma_nothing_lent_yet(front);
        assert(sessions.last() == sessions[sessions.len() - 1]);
    }
}

proof fn lemma_rush_step(w: World, v: World, isbn: Seq<char>, m: Move)
    requires
        crowd(w, isbn),
        racing(w, v, isbn),
    ensures
        racing(w, v.advance(m), isbn),
{
    let u = v.advance(m);
    lemma_step_is_a_transition_or_nothing(v, m);
    if 0 <= m.session < v.sessions.len() && !(v.sessions[m.session] is Finished) {
        let k = m.session;
        let was = v.sessions[k];
        let req = w.sessions[k]->Ready_0.request;
        lemma_lent_update(v.sessions, k, u.sessions[k]);
        assert(!took_a_copy(was));
        if u.store != v.store {
            let p = was->Pending_0;
            let e = p.request.entry(p.timestamp);
            assert(u.store.ledger == v.store.ledger.push(e));
            assert(took_a_copy(u.sessions[k]));
            assert forall|i: int| 0 <= i < u.sessions.len() implies match #[trigger] u.sessions[i] {
                Session::Ready(e) => e.request == w.sessions[i]->Ready_0.request && last_action(
                    u.store.ledger,
                    isbn,
                    e.request.borrower_id,
                ) != Some(Action::Checkout),
                Session::Pending(p) => p.request == w.sessions[i]->Ready_0.request && last_action(
                    u.store.ledger,
                    isbn,
                    p.request.borrower_id,
                ) != Some(Action::Checkout),
                Session::Finished(_) => took_a_copy(u.sessions[i]) || u.sessions[i] == no_copies() || u.sessions[i]
                    == contended(),
            } by {
                if i != k {
                    assert(u.sessions[i] == v.sessions[i]);
                    let other = w.sessions[i]->Ready_0.request.borrower_id;
                    assert(other != req.borrower_id) by {
                        let (lo, hi) = if i < k {
                            (i, k)
                        } else {
                            (k, i)
                        };
                        assert(w.sessions[lo]->Ready_0.request.borrower_id
                            != w.sessions[hi]->Ready_0.request.borrower_id);
                    }
                    lemma_latest_skips_others(v.store.ledger, e, isbn, other);
                }
            }
            assert(v.store.books[isbn].available > 0);
            assert forall|i: int| 0 <= i < u.sessions.len() implies #[trigger] u.sessions[i] != no_copies() by {
                if i != k {
                    assert(u.sessions[i] == v.sessions[i]);
                }
            }
        } else {
            assert forall|i: int| 0 <= i < u.sessions.len() implies match #[trigger] u.sessions[i] {
                Session::Ready(e) => e.request == w.sessions[i]->Ready_0.request && last_action(
                    u.store.ledger,
                    isbn,
                    e.request.borrower_id,
                ) != Some(Action::Checkout),
                Session::Pending(p) => p.request == w.sessions[i]->Ready_0.request && last_action(
                    u.store.ledger,
                    isbn,
                    p.request.borrower_id,
                ) != Some(Action::Checkout),
                Session::Finished(_) => took_a_copy(u.sessions[i]) || u.sessions[i] == no_copies() || u.sessions[i]
                    == contended(),
            } by {
                if i != k {
                    assert(u.sessions[i] == v.sessions[i]);
                }
            }
            assert(!took_a_copy(u.sessions[k]));
            if exists|i: int| 0 <= i < u.sessions.len() && #[trigger] u.sessions[i] == no_copies() {
                let i = choose|i: int| 0 <= i < u.sessions.len() && #[trigger] u.sessions[i] == no_copies();
                if i != k {
                    assert(v.sessions[i] == no_copies());
                }
            }
        }
    }
}

/// In a rush on a title, however the requests interleave: the copies lent
/// and the copies on the shelf always add up to the copies that were there,
/// so that no more are lent than there were; every request that has been
/// answered was accepted, or turned away for want of a copy or after
/// contention; and once one was turned away for want of a copy, every copy
/// has been lent.
pub proof fn lemma_rush_never_overdraws(w: World, isbn: Seq<char>, moves: Seq<Move>)
    requires
        crowd(w, isbn),
    ensures
        racing(w, w.play(moves), isbn),
        lent(w.play(moves).sessions) <= w.store.books[isbn].available,
        (exists|i: int| 0 <= i < w.sessions.len() && #[trigger] w.play(moves).sessions[i] == no_copies()) ==> lent(
            w.play(moves).sessions,
        ) == w.store.books[isbn].available,
    decreases moves.len(),
{
    if moves.len() == 0 {
        assert forall|i: int| 0 <= i < w.sessions.len() implies !took_a_copy(#[trigger] w.sessions[i]) by {
            assert(w.sessions[i] is Ready);
        }
        lemma_nothing_lent_yet(w.sessions);
        assert(w.settled()) by {
            assert forall|i: int| 0 <= i < w.sessions.len() implies !((#[trigger] w.sessions[i]) is Pending) by {
                assert(w.sessions[i] is Ready);
            }
        }
        assert forall|i: int| 0 <= i < w.sessions.len() implies #[trigger] w.sessions[i] != no_copies() by {
            assert(w.sessions[i] is Ready);
        }
    } else {
        lemma_rush_never_overdraws(w, isbn, moves.drop_last());
        lemma_rush_step(w, w.play(moves.drop_last()), isbn, moves.last());
    }
}

} // verus!
