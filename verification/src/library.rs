//! An in-memory catalogue, borrower registry and ledger, on which a request
//! is decided and applied as one atomic step.

use vstd::prelude::*;
use crate::clock::wall_clock;
use crate::engine::{Commit, CommitReport, CommitView, Snapshot};
use crate::ledger::{last_action, Ledger};
use crate::model::{Action, ActionRequest, BookState, EntryView, HistoryEntry, RequestView, Timestamp,
    TransitionResult};
use crate::rules::{decide, verdict};

verus! {

/// The state of a library: the inventory record of each title by its key, the
/// registered borrowers, and the ledger.
pub struct LibraryView {
    pub books: Map<Seq<char>, BookState>,
    pub borrowers: Set<Seq<char>>,
    pub ledger: Seq<EntryView>,
}

impl LibraryView {
    /// The inventory record of a title, if the library has it.
    pub open spec fn book(self, isbn: Seq<char>) -> Option<BookState> {
        if self.books.contains_key(isbn) {
            Some(self.books[isbn])
        } else {
            None
        }
    }

    /// Every title has no more copies on the shelf than the library owns.
    pub open spec fn consistent(self) -> bool {
        forall|k: Seq<char>| self.books.contains_key(k) ==> (#[trigger] self.books[k]).consistent()
    }

    /// The verdict on a request made at `now` against this state.
    pub open spec fn judge(self, req: RequestView, now: Timestamp) -> TransitionResult {
        verdict(
            self.book(req.isbn),
            self.borrowers.contains(req.borrower_id),
            last_action(self.ledger, req.isbn, req.borrower_id),
            req.action,
            now,
        )
    }

    /// The state after the request: on acceptance the title's count and date
    /// move and one entry joins the ledger; on rejection nothing changes.
    pub open spec fn after(self, req: RequestView, now: Timestamp) -> LibraryView {
        match self.judge(req, now) {
            TransitionResult::Accepted { new_available, timestamp } => LibraryView {
                books: self.books.insert(req.isbn, self.books[req.isbn].moved(new_available, timestamp)),
                borrowers: self.borrowers,
                ledger: self.ledger.push(req.entry(timestamp)),
            },
            TransitionResult::Rejected { .. } => self,
        }
    }

    /// What a request made at `now` reads of this state.
    pub open spec fn snapshot(self, req: RequestView, now: Timestamp) -> Snapshot {
        Snapshot {
            book: self.book(req.isbn),
            borrower_known: self.borrowers.contains(req.borrower_id),
            holding: last_action(self.ledger, req.isbn, req.borrower_id),
            now: now,
        }
    }

    /// The title's record and the borrower's last action are still the ones
    /// that the writes were decided on.
    pub open spec fn admits(self, c: CommitView) -> bool {
        &&& self.book(c.entry.isbn) == Some(c.expected)
        &&& last_action(self.ledger, c.entry.isbn, c.entry.borrower_id) == c.expected_holding
    }

    /// The state after the store was handed the writes: both took effect
    /// where the state admits them, and neither where it does not.
    pub open spec fn committed(self, c: CommitView) -> LibraryView {
        if self.admits(c) {
            LibraryView {
                books: self.books.insert(c.entry.isbn, c.record),
                borrowers: self.borrowers,
                ledger: self.ledger.push(c.entry),
            }
        } else {
            self
        }
    }
}

struct BookRecord {
    isbn: String,
    state: BookState,
}

spec fn distinct(books: Seq<BookRecord>) -> bool {
    forall|i: int, j: int|
        0 <= i < j < books.len() ==> (#[trigger] books[i]).isbn@ != (#[trigger] books[j]).isbn@
}

spec fn shelf(books: Seq<BookRecord>) -> Map<Seq<char>, BookState> {
    Map::new(
        |k: Seq<char>| exists|i: int| 0 <= i < books.len() && (#[trigger] books[i]).isbn@ == k,
        |k: Seq<char>| books[choose|i: int| 0 <= i < books.len() && (#[trigger] books[i]).isbn@ == k].state,
    )
}

spec fn members(ids: Seq<String>) -> Set<Seq<char>> {
    Set::new(|k: Seq<char>| exists|i: int| 0 <= i < ids.len() && (#[trigger] ids[i])@ == k)
}

proof fn lemma_shelf_holds(books: Seq<BookRecord>, i: int)
    requires
        distinct(books),
        0 <= i < books.len(),
    ensures
        shelf(books).contains_key(books[i].isbn@),
        shelf(books)[books[i].isbn@] == books[i].state,
{
    let k = books[i].isbn@;
    let j = choose|j: int| 0 <= j < books.len() && (#[trigger] books[j]).isbn@ == k;
    assert(j == i);
}

proof fn lemma_shelf_replace(books: Seq<BookRecord>, i: int, rec: BookRecord)
    requires
        distinct(books),
        0 <= i < books.len(),
        rec.isbn@ == books[i].isbn@,
    ensures
        distinct(books.update(i, rec)),
        shelf(books.update(i, rec)) == shelf(books).insert(rec.isbn@, rec.state),
{
    let next = books.update(i, rec);
    let want = shelf(books).insert(rec.isbn@, rec.state);
    assert(distinct(next)) by {
        assert forall|a: int, b: int| 0 <= a < b < next.len() implies (#[trigger] next[a]).isbn@ != (
        #[trigger] next[b]).isbn@ by {
            assert(next[a].isbn@ == books[a].isbn@);
            assert(next[b].isbn@ == books[b].isbn@);
        }
    }
    assert forall|k: Seq<char>| shelf(next).contains_key(k) <==> want.contains_key(k) by {
        if shelf(next).contains_key(k) {
            let j = choose|j: int| 0 <= j < next.len() && (#[trigger] next[j]).isbn@ == k;
            assert(books[j].isbn@ == k);
        }
        if want.contains_key(k) && k != rec.isbn@ {
            let j = choose|j: int| 0 <= j < books.len() && (#[trigger] books[j]).isbn@ == k;
            assert(next[j].isbn@ == k);
        }
        if k == rec.isbn@ {
            assert(next[i].isbn@ == k);
        }
    }
    assert forall|k: Seq<char>| shelf(next).contains_key(k) implies shelf(next)[k] == want[k] by {
        let j = choose|j: int| 0 <= j < next.len() && (#[trigger] next[j]).isbn@ == k;
        lemma_shelf_holds(next, j);
        if j != i {
            assert(next[j] == books[j]);
            lemma_shelf_holds(books, j);
        }
    }
    assert(shelf(next) =~= want);
}

proof fn lemma_shelf_grow(books: Seq<BookRecord>, rec: BookRecord)
    requires
        distinct(books),
        forall|i: int| 0 <= i < books.len() ==> (#[trigger] books[i]).isbn@ != rec.isbn@,
    ensures
        distinct(books.push(rec)),
        shelf(books.push(rec)) == shelf(books).insert(rec.isbn@, rec.state),
{
    let next = books.push(rec);
    let want = shelf(books).insert(rec.isbn@, rec.state);
    assert(distinct(next)) by {
        assert forall|a: int, b: int| 0 <= a < b < next.len() implies (#[trigger] next[a]).isbn@ != (
        #[trigger] next[b]).isbn@ by {
            assert(next[a] == books[a]);
            if b < books.len() {
                assert(next[b] == books[b]);
            }
        }
    }
    assert forall|k: Seq<char>| shelf(next).contains_key(k) <==> want.contains_key(k) by {
        if shelf(next).contains_key(k) {
            let j = choose|j: int| 0 <= j < next.len() && (#[trigger] next[j]).isbn@ == k;
            if j < books.len() {
                assert(books[j].isbn@ == k);
            }
        }
        if want.contains_key(k) && k != rec.isbn@ {
            let j = choose|j: int| 0 <= j < books.len() && (#[trigger] books[j]).isbn@ == k;
            assert(next[j].isbn@ == k);
        }
        if k == rec.isbn@ {
            assert(next[books.len() as int].isbn@ == k);
        }
    }
    assert forall|k: Seq<char>| shelf(next).contains_key(k) implies shelf(next)[k] == want[k] by {
        let j = choose|j: int| 0 <= j < next.len() && (#[trigger] next[j]).isbn@ == k;
        lemma_shelf_holds(next, j);
        if j < books.len() {
            assert(next[j] == books[j]);
            lemma_shelf_holds(books, j);
        }
    }
    assert(shelf(next) =~= want);
}

/// A library held in memory. Each request is decided and applied in one
/// call, so no reader ever sees a ledger entry without the matching count.
pub struct Library {
    books: Vec<BookRecord>,
    borrowers: Vec<String>,
    ledger: Ledger,
}

impl View for Library {
    type V = LibraryView;

    closed spec fn view(&self) -> LibraryView {
        LibraryView {
            books: shelf(self.books@),
            borrowers: members(self.borrowers@),
            ledger: self.ledger@,
        }
    }
}

impl Library {
    /// No title is catalogued twice.
    pub closed spec fn wf(&self) -> bool {
        distinct(self.books@)
    }

    /// A library without titles, borrowers or history.
    pub fn new() -> (l: Library)
        ensures
            l.wf(),
            l@.books == Map::<Seq<char>, BookState>::empty(),
            l@.borrowers == Set::<Seq<char>>::empty(),
            l@.ledger == Seq::<EntryView>::empty(),
    {
        let l = Library { books: Vec::new(), borrowers: Vec::new(), ledger: Ledger::new() };
        assert(l@.books =~= Map::<Seq<char>, BookState>::empty());
        assert(l@.borrowers =~= Set::<Seq<char>>::empty());
        l
    }

    fn find_book(&self, isbn: &String) -> (r: Option<usize>)
        ensures
            match r {
                Some(i) => i < self.books@.len() && self.books@[i as int].isbn@ == isbn@,
                None => forall|j: int| 0 <= j < self.books@.len() ==> (#[trigger] self.books@[j]).isbn@ != isbn@,
            },
    {
        let mut i: usize = 0;
        while i < self.books.len()
            invariant
                i <= self.books@.len(),
                forall|j: int| 0 <= j < i ==> (#[trigger] self.books@[j]).isbn@ != isbn@,
            decreases self.books.len() - i,
        {
            if self.books[i].isbn == *isbn {
                return Some(i);
            }
            i += 1;
        }
        None
    }

    /// Catalogues a title, or replaces the record of one that is catalogued.
    pub fn put_book(&mut self, isbn: String, state: BookState)
        requires
            old(self).wf(),
        ensures
            final(self).wf(),
            final(self)@.books == old(self)@.books.insert(isbn@, state),
            final(self)@.borrowers == old(self)@.borrowers,
            final(self)@.ledger == old(self)@.ledger,
    {
        let rec = BookRecord { isbn: isbn, state: state };
        match self.find_book(&rec.isbn) {
            Some(i) => {
                proof {
                    lemma_shelf_replace(self.books@, i as int, rec);
                }
                self.books.set(i, rec);
            },
            None => {
                proof {
                    lemma_shelf_grow(self.books@, rec);
                }
                self.books.push(rec);
            },
        }
    }

    /// Registers a borrower.
    pub fn add_borrower(&mut self, id: String)
        requires
            old(self).wf(),
        ensures
            final(self).wf(),
            final(self)@.borrowers == old(self)@.borrowers.insert(id@),
            final(self)@.books == old(self)@.books,
            final(self)@.ledger == old(self)@.ledger,
    {
        self.borrowers.push(id);
        proof {
            let before = old(self).borrowers@;
            let now = self.borrowers@;
            assert forall|k: Seq<char>| members(now).contains(k) <==> members(before).insert(id@).contains(
                k,
            ) by {
                if members(now).contains(k) {
                    let j = choose|j: int| 0 <= j < now.len() && (#[trigger] now[j])@ == k;
                    if j < before.len() {
                        assert(before[j]@ == k);
                    }
                }
                if members(before).contains(k) {
                    let j = choose|j: int| 0 <= j < before.len() && (#[trigger] before[j])@ == k;
                    assert(now[j]@ == k);
                }
                if k == id@ {
                    assert(now[before.len() as int]@ == k);
                }
            }
            assert(members(now) =~= members(before).insert(id@));
        }
    }

    /// The inventory record of a title.
    pub fn book(&self, isbn: &String) -> (r: Option<BookState>)
        requires
            self.wf(),
        ensures
            r == self@.book(isbn@),
    {
        match self.find_book(isbn) {
            Some(i) => {
                proof {
                    lemma_shelf_holds(self.books@, i as int);
                }
                Some(self.books[i].state)
            },
            None => None,
        }
    }

    /// Whether the borrower is registered.
    pub fn has_borrower(&self, id: &String) -> (r: bool)
        ensures
            r == self@.borrowers.contains(id@),
    {
        let mut i: usize = 0;
        while i < self.borrowers.len()
            invariant
                i <= self.borrowers@.len(),
                forall|j: int| 0 <= j < i ==> (#[trigger] self.borrowers@[j])@ != id@,
            decreases self.borrowers.len() - i,
        {
            if self.borrowers[i] == *id {
                return true;
            }
            i += 1;
        }
        false
    }

    /// What the borrower last did with the title.
    pub fn last_action(&self, isbn: &String, borrower: &String) -> (r: Option<Action>)
        ensures
            r == last_action(self@.ledger, isbn@, borrower@),
    {
        self.ledger.last_action(isbn, borrower)
    }

    /// The ledger, for reading.
    pub fn ledger(&self) -> (l: &Ledger)
        ensures
            l@ == self@.ledger,
    {
        &self.ledger
    }

    /// Decides the request against the present state and, if it is accepted,
    /// moves the title's count and appends the ledger entry, both or neither.
    pub fn apply(&mut self, request: &ActionRequest, now: Timestamp) -> (r: TransitionResult)
        requires
            old(self).wf(),
        ensures
            final(self).wf(),
            r == old(self)@.judge(request@, now),
            final(self)@ == old(self)@.after(request@, now),
    {
        let found = self.find_book(&request.isbn);
        let book = match found {
            Some(i) => {
                proof {
                    lemma_shelf_holds(self.books@, i as int);
                }
                Some(self.books[i].state)
            },
            None => None,
        };
        let known = self.has_borrower(&request.borrower_id);
        let holding = self.ledger.last_action(&request.isbn, &request.borrower_id);
        let r = decide(book, known, holding, request.action, now);
        match r {
            TransitionResult::Accepted { new_available, timestamp } => {
                let i = found.unwrap();
                let rec = BookRecord {
                    isbn: request.isbn.clone(),
                    state: self.books[i].state.with_transition(new_available, timestamp),
                };
                proof {
                    lemma_shelf_replace(self.books@, i as int, rec);
                }
                self.books.set(i, rec);
                self.ledger.append(request.to_entry(timestamp));
            },
            TransitionResult::Rejected { .. } => {},
        }
        r
    }

    /// Takes a copy of the title out for the borrower.
    pub fn checkout(&mut self, isbn: &String, borrower: &String, now: Timestamp) -> (r: TransitionResult)
        requires
            old(self).wf(),
        ensures
            final(self).wf(),
            r == old(self)@.judge(
                (RequestView { isbn: isbn@, borrower_id: borrower@, action: Action::Checkout }),
                now,
            ),
            final(self)@ == old(self)@.after(
                (RequestView { isbn: isbn@, borrower_id: borrower@, action: Action::Checkout }),
                now,
            ),
    {
        let request = ActionRequest {
            isbn: isbn.clone(),
            borrower_id: borrower.clone(),
            action: Action::Checkout,
        };
        self.apply(&request, now)
    }

    /// Brings the borrower's copy of the title back.
    pub fn checkin(&mut self, isbn: &String, borrower: &String, now: Timestamp) -> (r: TransitionResult)
        requires
            old(self).wf(),
        ensures
            final(self).wf(),
            r == old(self)@.judge(
                (RequestView { isbn: isbn@, borrower_id: borrower@, action: Action::Checkin }),
                now,
            ),
            final(self)@ == old(self)@.after(
                (RequestView { isbn: isbn@, borrower_id: borrower@, action: Action::Checkin }),
                now,
            ),
    {
        let request = ActionRequest {
            isbn: isbn.clone(),
            borrower_id: borrower.clone(),
            action: Action::Checkin,
        };
        self.apply(&request, now)
    }

    /// Reads what a request made at `now` is decided on.
    pub fn snapshot(&self, request: &ActionRequest, now: Timestamp) -> (snap: Snapshot)
        requires
            self.wf(),
        ensures
            snap == self@.snapshot(request@, now),
    {
        Snapshot {
            book: self.book(&request.isbn),
            borrower_known: self.has_borrower(&request.borrower_id),
            holding: self.ledger.last_action(&request.isbn, &request.borrower_id),
            now: now,
        }
    }

    /// Takes the writes of an accepted transition. While the title's record
    /// and the borrower's last action are the ones that the writes expect,
    /// both writes take effect; once either has moved, neither does, and the
    /// report is `Conflict`.
    pub fn commit(&mut self, writes: &Commit) -> (report: CommitReport)
        requires
            old(self).wf(),
        ensures
            final(self).wf(),
            final(self)@ == old(self)@.committed(writes@),
            report == if old(self)@.admits(writes@) {
                CommitReport::Committed
            } else {
                CommitReport::Conflict
            },
    {
        let i = match self.find_book(&writes.entry.isbn) {
            Some(i) => i,
            None => {
                return CommitReport::Conflict;
            },
        };
        proof {
            lemma_shelf_holds(self.books@, i as int);
        }
        let holding = self.ledger.last_action(&writes.entry.isbn, &writes.entry.borrower_id);
        if self.books[i].state != writes.expected || holding != writes.expected_holding {
            return CommitReport::Conflict;
        }
        let rec = BookRecord { isbn: writes.entry.isbn.clone(), state: writes.record };
        proof {
            lemma_shelf_replace(self.books@, i as int, rec);
        }
        self.books.set(i, rec);
        self.ledger.append(
            HistoryEntry {
                isbn: writes.entry.isbn.clone(),
                borrower_id: writes.entry.borrower_id.clone(),
                timestamp: writes.entry.timestamp,
                action: writes.entry.action,
            },
        );
        CommitReport::Committed
    }

    /// Applies the request with the wall clock's present reading as `now`.
    pub fn apply_now(&mut self, request: &ActionRequest) -> (r: TransitionResult)
        requires
            old(self).wf(),
        ensures
            final(self).wf(),
            exists|now: Timestamp|
                r == #[trigger] old(self)@.judge(request@, now) && final(self)@ == old(self)@.after(
                    request@,
                    now,
                ),
    {
        let now = wall_clock();
        self.apply(request, now)
    }
}

} // verus!
