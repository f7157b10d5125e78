//! The append-only ledger of accepted transitions, and the question it
//! answers: what did this borrower last do with this title?

use vstd::prelude::*;
use crate::model::{Action, EntryView, HistoryEntry, Timestamp};

verus! {

/// The entry is about this title and this borrower.
pub open spec fn concerns(e: EntryView, isbn: Seq<char>, borrower: Seq<char>) -> bool {
    e.isbn == isbn && e.borrower_id == borrower
}

/// Entry `j` is entry `i` or comes before it: it has an earlier timestamp, or
/// the same timestamp and was appended no later.
pub open spec fn no_later(log: Seq<EntryView>, j: int, i: int) -> bool {
    if j <= i {
        log[j].timestamp.not_after(log[i].timestamp)
    } else {
        !log[i].timestamp.not_after(log[j].timestamp)
    }
}

/// Entry `i` is the pair's most recent entry.
pub open spec fn most_recent(log: Seq<EntryView>, i: int, isbn: Seq<char>, borrower: Seq<char>) -> bool {
    &&& 0 <= i < log.len()
    &&& concerns(log[i], isbn, borrower)
    &&& forall|j: int|
        0 <= j < log.len() && concerns(#[trigger] log[j], isbn, borrower) ==> no_later(log, j, i)
}

/// The index of the pair's most recent entry, found by walking the ledger in
/// the order of appending; `None` where the pair has no entry.
pub open spec fn latest(log: Seq<EntryView>, isbn: Seq<char>, borrower: Seq<char>) -> Option<int>
    decreases log.len(),
{
    if log.len() == 0 {
        None
    } else {
        let n = log.len() - 1;
        let before = latest(log.drop_last(), isbn, borrower);
        if concerns(log[n], isbn, borrower) && (before is None || log[before->0].timestamp.not_after(
            log[n].timestamp,
        )) {
            Some(n)
        } else {
            before
        }
    }
}

/// What the borrower last did with the title, if anything.
pub open spec fn last_action(log: Seq<EntryView>, isbn: Seq<char>, borrower: Seq<char>) -> Option<Action> {
    match latest(log, isbn, borrower) {
        Some(i) => Some(log[i].action),
        None => None,
    }
}

/// What the borrower last did with the title, and when.
pub open spec fn last_event(log: Seq<EntryView>, isbn: Seq<char>, borrower: Seq<char>) -> Option<
    (Action, Timestamp),
> {
    match latest(log, isbn, borrower) {
        Some(i) => Some((log[i].action, log[i].timestamp)),
        None => None,
    }
}

/// Timestamps never decrease in the order of appending.
pub open spec fn chronological(log: Seq<EntryView>) -> bool {
    forall|i: int, j: int|
        0 <= i <= j < log.len() ==> (#[trigger] log[i]).timestamp.not_after((#[trigger] log[j]).timestamp)
}

/// `latest` finds the pair's most recent entry, and finds none only where the
/// pair has no entry.
pub proof fn lemma_latest_is_most_recent(log: Seq<EntryView>, isbn: Seq<char>, borrower: Seq<char>)
    ensures
        match latest(log, isbn, borrower) {
            Some(i) => most_recent(log, i, isbn, borrower),
            None => forall|j: int| 0 <= j < log.len() ==> !concerns(#[trigger] log[j], isbn, borrower),
        },
    decreases log.len(),
{
    if log.len() > 0 {
        let n = log.len() - 1;
        let front = log.drop_last();
        lemma_latest_is_most_recent(front, isbn, borrower);
        assert forall|j: int| 0 <= j < n implies front[j] == log[j] by {}
        match latest(log, isbn, borrower) {
            Some(i) => {
                assert forall|j: int|
                    0 <= j < log.len() && concerns(#[trigger] log[j], isbn, borrower) implies no_later(
                    log,
                    j,
                    i,
                ) by {
                    if j < n {
                        assert(concerns(front[j], isbn, borrower));
                    }
                }
            },
            None => {
                assert forall|j: int| 0 <= j < log.len() implies !concerns(
                    #[trigger] log[j],
                    isbn,
                    borrower,
                ) by {
                    if j < n {
                        assert(!concerns(front[j], isbn, borrower));
                    }
                }
            },
        }
    }
}

/// In a chronological ledger the pair's most recent entry is the one that was
/// appended last.
pub proof fn lemma_latest_is_last_appended(log: Seq<EntryView>, isbn: Seq<char>, borrower: Seq<char>)
    requires
        chronological(log),
    ensures
        match latest(log, isbn, borrower) {
            Some(i) => {
                &&& 0 <= i < log.len()
                &&& concerns(log[i], isbn, borrower)
                &&& forall|j: int| i < j < log.len() ==> !concerns(#[trigger] log[j], isbn, borrower)
            },
            None => forall|j: int| 0 <= j < log.len() ==> !concerns(#[trigger] log[j], isbn, borrower),
        },
{
    lemma_latest_is_most_recent(log, isbn, borrower);
    if let Some(i) = latest(log, isbn, borrower) {
        assert forall|j: int| i < j < log.len() implies !concerns(#[trigger] log[j], isbn, borrower) by {
            if concerns(log[j], isbn, borrower) {
                assert(no_later(log, j, i));
                assert(log[i].timestamp.not_after(log[j].timestamp));
            }
        }
    }
}

/// An entry about another pair changes nothing for this one.
pub proof fn lemma_latest_skips_others(
    log: Seq<EntryView>,
    e: EntryView,
    isbn: Seq<char>,
    borrower: Seq<char>,
)
    requires
        !concerns(e, isbn, borrower),
    ensures
        latest(log.push(e), isbn, borrower) == latest(log, isbn, borrower),
        last_action(log.push(e), isbn, borrower) == last_action(log, isbn, borrower),
{
    assert(log.push(e).drop_last() =~= log);
    lemma_latest_is_most_recent(log, isbn, borrower);
}

/// The circulation history, in the order in which entries were appended.
pub struct Ledger {
    entries: Vec<HistoryEntry>,
}

impl View for Ledger {
    type V = Seq<EntryView>;

    closed spec fn view(&self) -> Seq<EntryView> {
        self.entries@.map_values(|e: HistoryEntry| e@)
    }
}

impl Ledger {
    pub fn new() -> (l: Ledger)
        ensures
            l@ == Seq::<EntryView>::empty(),
    {
        let l = Ledger { entries: Vec::new() };
        assert(l@ =~= Seq::<EntryView>::empty());
        l
    }

    pub fn len(&self) -> (n: usize)
        ensures
            n == self@.len(),
    {
        self.entries.len()
    }

    /// The entries in the order of appending.
    pub fn entries(&self) -> (es: &Vec<HistoryEntry>)
        ensures
            es@.map_values(|e: HistoryEntry| e@) == self@,
    {
        &self.entries
    }

    /// Appends an entry. Nothing that the ledger holds is changed or removed.
    pub fn append(&mut self, entry: HistoryEntry)
        ensures
            final(self)@ == old(self)@.push(entry@),
    {
        self.entries.push(entry);
        assert(self@ =~= old(self)@.push(entry@));
    }

    /// The place of the pair's most recent entry.
    pub fn latest_entry(&self, isbn: &String, borrower: &String) -> (r: Option<usize>)
        ensures
            match r {
                Some(i) => latest(self@, isbn@, borrower@) == Some(i as int) && i < self@.len(),
                None => latest(self@, isbn@, borrower@) is None,
            },
    {
        let mut best: Option<usize> = None;
        let mut i: usize = 0;
        while i < self.entries.len()
            invariant
                i <= self.entries.len(),
                self@.len() == self.entries.len(),
                match best {
                    Some(b) => b < i && latest(self@.take(i as int), isbn@, borrower@) == Some(b as int),
                    None => latest(self@.take(i as int), isbn@, borrower@) is None,
                },
            decreases self.entries.len() - i,
        {
            let e = &self.entries[i];
            proof {
                assert(self@.take(i + 1).drop_last() =~= self@.take(i as int));
                assert(self@.take(i + 1)[i as int] == e@);
            }
            if e.isbn == *isbn && e.borrower_id == *borrower {
                let newer = match best {
                    None => true,
                    Some(b) => {
                        assert(self@.take(i + 1)[b as int] == self.entries@[b as int]@);
                        self.entries[b].timestamp.is_not_after(&e.timestamp)
                    },
                };
                if newer {
                    best = Some(i);
                }
            }
            i += 1;
        }
        assert(self@.take(i as int) =~= self@);
        best
    }

    /// What the borrower last did with the title, and when; `None` where the
    /// ledger has no entry for the pair.
    pub fn last_event(&self, isbn: &String, borrower: &String) -> (r: Option<(Action, Timestamp)>)
        ensures
            r == last_event(self@, isbn@, borrower@),
    {
        match self.latest_entry(isbn, borrower) {
            Some(i) => {
                let e = &self.entries[i];
                Some((e.action, e.timestamp))
            },
            None => None,
        }
    }

    /// What the borrower last did with the title.
    pub fn last_action(&self, isbn: &String, borrower: &String) -> (r: Option<Action>)
        ensures
            r == last_action(self@, isbn@, borrower@),
    {
        match self.latest_entry(isbn, borrower) {
            Some(i) => Some(self.entries[i].action),
            None => None,
        }
    }
}

} // verus!
