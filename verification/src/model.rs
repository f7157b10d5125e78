//! The values that circulation works on, and their mathematical views.

use vstd::prelude::*;

verus! {

/// A point in time: whole seconds since the epoch, and the nanoseconds into
/// that second. Two timestamps are ordered by seconds first.
#[derive(Clone, Copy, Debug, PartialEq, Eq, Structural)]
pub struct Timestamp {
    pub sec: i64,
    pub nsec: i32,
}

impl Timestamp {
    /// `self` is at `other` or earlier.
    pub open spec fn not_after(self, other: Timestamp) -> bool {
        self.sec < other.sec || (self.sec == other.sec && self.nsec <= other.nsec)
    }

    pub fn new(sec: i64, nsec: i32) -> (t: Timestamp)
        ensures
            t.sec == sec,
            t.nsec == nsec,
    {
        Timestamp { sec, nsec }
    }

    pub fn is_not_after(&self, other: &Timestamp) -> (r: bool)
        ensures
            r == self.not_after(*other),
    {
        self.sec < other.sec || (self.sec == other.sec && self.nsec <= other.nsec)
    }
}

/// Whether copies of a title may leave the premises.
#[derive(Clone, Copy, Debug, PartialEq, Eq, Structural)]
pub enum Permission {
    CanLeaveLibrary,
    DontLeaveLibrary,
    ReferenceOnly,
}

impl Permission {
    /// The number under which a store keeps the permission.
    pub open spec fn code(self) -> i16 {
        match self {
            Permission::CanLeaveLibrary => 0,
            Permission::DontLeaveLibrary => 1,
            Permission::ReferenceOnly => 2,
        }
    }

    pub fn id(self) -> (n: i16)
        ensures
            n == self.code(),
    {
        match self {
            Permission::CanLeaveLibrary => 0,
            Permission::DontLeaveLibrary => 1,
            Permission::ReferenceOnly => 2,
        }
    }

    /// The permission that a number stands for, if it stands for one.
    pub fn from_id(n: i16) -> (r: Option<Permission>)
        ensures
            match r {
                Some(p) => p.code() == n,
                None => forall|p: Permission| #[trigger] p.code() != n,
            },
    {
        if n == 0 {
            Some(Permission::CanLeaveLibrary)
        } else if n == 1 {
            Some(Permission::DontLeaveLibrary)
        } else if n == 2 {
            Some(Permission::ReferenceOnly)
        } else {
            None
        }
    }
}

/// The two circulation events.
#[derive(Clone, Copy, Debug, PartialEq, Eq, Structural)]
pub enum Action {
    Checkout,
    Checkin,
}

impl Action {
    /// The number under which a store keeps the action.
    pub open spec fn code(self) -> i16 {
        match self {
            Action::Checkout => 0,
            Action::Checkin => 1,
        }
    }

    pub fn id(self) -> (n: i16)
        ensures
            n == self.code(),
    {
        match self {
            Action::Checkout => 0,
            Action::Checkin => 1,
        }
    }

    /// The action that a number stands for, if it stands for one.
    pub fn from_id(n: i16) -> (r: Option<Action>)
        ensures
            match r {
                Some(a) => a.code() == n,
                None => forall|a: Action| #[trigger] a.code() != n,
            },
    {
        if n == 0 {
            Some(Action::Checkout)
        } else if n == 1 {
            Some(Action::Checkin)
        } else {
            None
        }
    }
}

/// The inventory record of one title.
#[derive(Clone, Copy, Debug, PartialEq, Eq, Structural)]
pub struct BookState {
    /// Copies owned.
    pub quantity: u64,
    /// Copies in the library right now.
    pub available: u64,
    pub permission: Permission,
    /// Time of the last accepted transition.
    pub active_date: Timestamp,
}

impl BookState {
    /// No more copies are in the library than are owned.
    pub open spec fn consistent(self) -> bool {
        self.available <= self.quantity
    }

    pub fn is_consistent(&self) -> (r: bool)
        ensures
            r == self.consistent(),
    {
        self.available <= self.quantity
    }

    /// The record after an accepted transition that left `available` copies at `at`.
    pub open spec fn moved(self, available: u64, at: Timestamp) -> BookState {
        BookState {
            quantity: self.quantity,
            available: available,
            permission: self.permission,
            active_date: at,
        }
    }

    pub fn with_transition(&self, available: u64, at: Timestamp) -> (next: BookState)
        ensures
            next == self.moved(available, at),
    {
        BookState {
            quantity: self.quantity,
            available: available,
            permission: self.permission,
            active_date: at,
        }
    }
}

/// What a history entry says, over sequences of characters.
pub struct EntryView {
    pub isbn: Seq<char>,
    pub borrower_id: Seq<char>,
    pub timestamp: Timestamp,
    pub action: Action,
}

/// One accepted transition, as the ledger keeps it.
#[derive(Clone, Debug, PartialEq, Eq)]
pub struct HistoryEntry {
    pub isbn: String,
    pub borrower_id: String,
    pub timestamp: Timestamp,
    pub action: Action,
}

impl View for HistoryEntry {
    type V = EntryView;

    open spec fn view(&self) -> EntryView {
        EntryView {
            isbn: self.isbn@,
            borrower_id: self.borrower_id@,
            timestamp: self.timestamp,
            action: self.action,
        }
    }
}

/// What a request asks, over sequences of characters.
pub struct RequestView {
    pub isbn: Seq<char>,
    pub borrower_id: Seq<char>,
    pub action: Action,
}

/// A borrower's request to take out or bring back a copy of one title.
#[derive(Clone, Debug, PartialEq, Eq)]
pub struct ActionRequest {
    pub isbn: String,
    pub borrower_id: String,
    pub action: Action,
}

impl View for ActionRequest {
    type V = RequestView;

    open spec fn view(&self) -> RequestView {
        RequestView { isbn: self.isbn@, borrower_id: self.borrower_id@, action: self.action }
    }
}

impl RequestView {
    /// The ledger entry that records this request as accepted at `at`.
    pub open spec fn entry(self, at: Timestamp) -> EntryView {
        EntryView {
            isbn: self.isbn,
            borrower_id: self.borrower_id,
            timestamp: at,
            action: self.action,
        }
    }
}

impl ActionRequest {
    /// The ledger entry that records this request as accepted at `at`.
    pub fn to_entry(&self, at: Timestamp) -> (e: HistoryEntry)
        ensures
            e@ == self@.entry(at),
    {
        HistoryEntry {
            isbn: self.isbn.clone(),
            borrower_id: self.borrower_id.clone(),
            timestamp: at,
            action: self.action,
        }
    }
}

/// Why a request was turned down.
#[derive(Clone, Copy, Debug, PartialEq, Eq, Structural)]
pub enum RejectReason {
    UnknownBook,
    UnknownBorrower,
    AlreadyCheckedOut,
    NotCheckedOut,
    PermissionDenied,
    NoCopiesAvailable,
    Conflict,
    InventoryInconsistent,
}

/// How a request ended once it was decided.
#[derive(Clone, Copy, Debug, PartialEq, Eq, Structural)]
pub enum TransitionResult {
    Accepted { new_available: u64, timestamp: Timestamp },
    Rejected { reason: RejectReason },
}

/// The store could not be reached, and nothing was written.
#[derive(Clone, Copy, Debug, PartialEq, Eq, Structural)]
pub struct StoreUnavailable;

} // verus!
