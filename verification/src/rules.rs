//! The rules that decide one request against one consistent reading of the
//! book, the borrower and the pair's latest ledger entry.

use vstd::prelude::*;
use crate::model::{Action, BookState, Permission, RejectReason, Timestamp, TransitionResult};

verus! {

/// The verdict on a request. The checks come in a fixed order, and the first
/// that fails names the reason: the book is known; the borrower is known; a
/// checkout needs a borrower who does not hold the title, a title that may
/// leave the library and a copy on the shelf; a checkin needs a borrower who
/// holds the title and a shelf that is not already full.
pub open spec fn verdict(
    book: Option<BookState>,
    borrower_known: bool,
    holding: Option<Action>,
    action: Action,
    now: Timestamp,
) -> TransitionResult {
    if book is None {
        TransitionResult::Rejected { reason: RejectReason::UnknownBook }
    } else if !borrower_known {
        TransitionResult::Rejected { reason: RejectReason::UnknownBorrower }
    } else if action == Action::Checkout {
        if holding == Some(Action::Checkout) {
            TransitionResult::Rejected { reason: RejectReason::AlreadyCheckedOut }
        } else if book->0.permission != Permission::CanLeaveLibrary {
            TransitionResult::Rejected { reason: RejectReason::PermissionDenied }
        } else if book->0.available == 0 {
            TransitionResult::Rejected { reason: RejectReason::NoCopiesAvailable }
        } else {
            TransitionResult::Accepted {
                new_available: (book->0.available - 1) as u64,
                timestamp: now,
            }
        }
    } else {
        if holding != Some(Action::Checkout) {
            TransitionResult::Rejected { reason: RejectReason::NotCheckedOut }
        } else if book->0.available >= book->0.quantity {
            TransitionResult::Rejected { reason: RejectReason::InventoryInconsistent }
        } else {
            TransitionResult::Accepted {
                new_available: (book->0.available + 1) as u64,
                timestamp: now,
            }
        }
    }
}

/// Decides a request against one reading of the store.
pub fn decide(
    book: Option<BookState>,
    borrower_known: bool,
    holding: Option<Action>,
    action: Action,
    now: Timestamp,
) -> (r: TransitionResult)
    ensures
        r == verdict(book, borrower_known, holding, action, now),
{
    let b = match book {
        None => {
            return TransitionResult::Rejected { reason: RejectReason::UnknownBook };
        },
        Some(b) => b,
    };
    if !borrower_known {
        return TransitionResult::Rejected { reason: RejectReason::UnknownBorrower };
    }
    let holds = match holding {
        Some(Action::Checkout) => true,
        _ => false,
    };
    match action {
        Action::Checkout => {
            if holds {
                TransitionResult::Rejected { reason: RejectReason::AlreadyCheckedOut }
            } else {
                match b.permission {
                    Permission::CanLeaveLibrary => {
                        if b.available == 0 {
                            TransitionResult::Rejected { reason: RejectReason::NoCopiesAvailable }
                        } else {
                            TransitionResult::Accepted {
                                new_available: b.available - 1,
                                timestamp: now,
                            }
                        }
                    },
                    _ => TransitionResult::Rejected { reason: RejectReason::PermissionDenied },
                }
            }
        },
        Action::Checkin => {
            if !holds {
                TransitionResult::Rejected { reason: RejectReason::NotCheckedOut }
            } else if b.available >= b.quantity {
                TransitionResult::Rejected { reason: RejectReason::InventoryInconsistent }
            } else {
                TransitionResult::Accepted { new_available: b.available + 1, timestamp: now }
            }
        },
    }
}

} // verus!
