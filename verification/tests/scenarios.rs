use circulation::library::Library;
use circulation::model::{
    Action, ActionRequest, BookState, Permission, RejectReason, Timestamp, TransitionResult,
};

fn at(sec: i64) -> Timestamp {
    Timestamp::new(sec, 0)
}

fn book(quantity: u64, available: u64, permission: Permission) -> BookState {
    BookState { quantity, available, permission, active_date: at(0) }
}

fn request(isbn: &str, borrower: &str, action: Action) -> ActionRequest {
    ActionRequest { isbn: isbn.to_string(), borrower_id: borrower.to_string(), action }
}

fn checkout(isbn: &str, borrower: &str) -> ActionRequest {
    request(isbn, borrower, Action::Checkout)
}

fn checkin(isbn: &str, borrower: &str) -> ActionRequest {
    request(isbn, borrower, Action::Checkin)
}

fn rejected(reason: RejectReason) -> TransitionResult {
    TransitionResult::Rejected { reason }
}

fn accepted(new_available: u64, sec: i64) -> TransitionResult {
    TransitionResult::Accepted { new_available, timestamp: at(sec) }
}

fn library_with_two_copies() -> Library {
    let mut lib = Library::new();
    lib.put_book("123".to_string(), book(2, 2, Permission::CanLeaveLibrary));
    lib.add_borrower("S1".to_string());
    lib.add_borrower("S2".to_string());
    lib.add_borrower("S3".to_string());
    lib
}

fn available(lib: &Library, isbn: &str) -> u64 {
    lib.book(&isbn.to_string()).unwrap().available
}

#[test]
fn checkout_takes_a_copy_and_a_second_by_the_same_borrower_is_refused() {
    let mut lib = library_with_two_copies();
    assert_eq!(lib.apply(&checkout("123", "S1"), at(10)), accepted(1, 10));
    assert_eq!(available(&lib, "123"), 1);
    assert_eq!(lib.apply(&checkout("123", "S1"), at(11)), rejected(RejectReason::AlreadyCheckedOut));
    assert_eq!(available(&lib, "123"), 1);
    assert_eq!(lib.ledger().len(), 1);
}

#[test]
fn last_copy_goes_out_and_the_next_borrower_finds_none() {
    let mut lib = library_with_two_copies();
    assert_eq!(lib.apply(&checkout("123", "S1"), at(10)), accepted(1, 10));
    assert_eq!(lib.apply(&checkout("123", "S2"), at(11)), accepted(0, 11));
    assert_eq!(available(&lib, "123"), 0);
    assert_eq!(lib.apply(&checkout("123", "S3"), at(12)), rejected(RejectReason::NoCopiesAvailable));
    assert_eq!(available(&lib, "123"), 0);
    assert_eq!(lib.ledger().len(), 2);
}

#[test]
fn checkin_returns_a_copy_and_a_second_checkin_is_refused() {
    let mut lib = library_with_two_copies();
    assert_eq!(lib.apply(&checkout("123", "S1"), at(10)), accepted(1, 10));
    assert_eq!(lib.apply(&checkout("123", "S2"), at(11)), accepted(0, 11));
    assert_eq!(lib.apply(&checkin("123", "S1"), at(12)), accepted(1, 12));
    assert_eq!(available(&lib, "123"), 1);
    assert_eq!(lib.apply(&checkin("123", "S1"), at(13)), rejected(RejectReason::NotCheckedOut));
    assert_eq!(available(&lib, "123"), 1);
}

#[test]
fn title_that_may_not_leave_is_refused_whatever_the_count() {
    for copies in [0u64, 1, 5] {
        let mut lib = Library::new();
        lib.put_book("123".to_string(), book(5, copies, Permission::DontLeaveLibrary));
        lib.add_borrower("S1".to_string());
        assert_eq!(lib.apply(&checkout("123", "S1"), at(10)), rejected(RejectReason::PermissionDenied));
        assert_eq!(available(&lib, "123"), copies);
        assert_eq!(lib.ledger().len(), 0);
    }
}

#[test]
fn reference_title_is_not_lent() {
    let mut lib = Library::new();
    lib.put_book("ref".to_string(), book(1, 1, Permission::ReferenceOnly));
    lib.add_borrower("S1".to_string());
    assert_eq!(lib.apply(&checkout("ref", "S1"), at(1)), rejected(RejectReason::PermissionDenied));
}

#[test]
fn unknown_book_is_named_before_unknown_borrower() {
    let mut lib = library_with_two_copies();
    assert_eq!(lib.apply(&checkout("999", "nobody"), at(1)), rejected(RejectReason::UnknownBook));
    assert_eq!(lib.apply(&checkout("123", "nobody"), at(1)), rejected(RejectReason::UnknownBorrower));
    assert_eq!(lib.apply(&checkin("999", "S1"), at(1)), rejected(RejectReason::UnknownBook));
    assert_eq!(lib.apply(&checkin("123", "nobody"), at(1)), rejected(RejectReason::UnknownBorrower));
}

#[test]
fn checkin_without_any_history_is_refused() {
    let mut lib = library_with_two_copies();
    assert_eq!(lib.apply(&checkin("123", "S1"), at(1)), rejected(RejectReason::NotCheckedOut));
    assert_eq!(lib.ledger().len(), 0);
}

#[test]
fn holding_is_checked_before_permission_and_count() {
    let mut lib = library_with_two_copies();
    assert_eq!(lib.apply(&checkout("123", "S1"), at(1)), accepted(1, 1));
    lib.put_book("123".to_string(), book(2, 0, Permission::DontLeaveLibrary));
    assert_eq!(lib.apply(&checkout("123", "S1"), at(2)), rejected(RejectReason::AlreadyCheckedOut));
    assert_eq!(lib.apply(&checkout("123", "S2"), at(3)), rejected(RejectReason::PermissionDenied));
}

#[test]
fn checkin_onto_a_full_shelf_reports_the_inconsistency() {
    let mut lib = library_with_two_copies();
    assert_eq!(lib.apply(&checkout("123", "S1"), at(1)), accepted(1, 1));
    lib.put_book("123".to_string(), book(2, 2, Permission::CanLeaveLibrary));
    assert_eq!(lib.apply(&checkin("123", "S1"), at(2)), rejected(RejectReason::InventoryInconsistent));
    assert_eq!(available(&lib, "123"), 2);
    assert_eq!(lib.ledger().len(), 1);
}

#[test]
fn accepted_transition_sets_the_active_date_and_appends_one_entry() {
    let mut lib = library_with_two_copies();
    let now = Timestamp::new(1_700_000_000, 250);
    assert_eq!(
        lib.apply(&checkout("123", "S1"), now),
        TransitionResult::Accepted { new_available: 1, timestamp: now }
    );
    let state = lib.book(&"123".to_string()).unwrap();
    assert_eq!(state.active_date, now);
    assert_eq!(state.quantity, 2);
    assert_eq!(state.permission, Permission::CanLeaveLibrary);
    let entries = lib.ledger().entries();
    assert_eq!(entries.len(), 1);
    assert_eq!(entries[0].isbn, "123");
    assert_eq!(entries[0].borrower_id, "S1");
    assert_eq!(entries[0].timestamp, now);
    assert_eq!(entries[0].action, Action::Checkout);
}

#[test]
fn rejection_changes_nothing() {
    let mut lib = library_with_two_copies();
    let before = lib.book(&"123".to_string()).unwrap();
    assert_eq!(lib.apply(&checkin("123", "S2"), at(50)), rejected(RejectReason::NotCheckedOut));
    assert_eq!(lib.book(&"123".to_string()).unwrap(), before);
    assert_eq!(lib.ledger().len(), 0);
}

#[test]
fn count_stays_between_zero_and_quantity_through_a_long_run() {
    let mut lib = library_with_two_copies();
    let borrowers = ["S1", "S2", "S3"];
    let mut clock = 0;
    for round in 0..20usize {
        for (n, b) in borrowers.iter().enumerate() {
            clock += 1;
            let action = if (round + n) % 3 == 0 { Action::Checkin } else { Action::Checkout };
            lib.apply(&request("123", b, action), at(clock));
            let state = lib.book(&"123".to_string()).unwrap();
            assert!(state.available <= state.quantity);
            assert!(state.is_consistent());
        }
    }
}

#[test]
fn ledger_alternates_for_every_pair() {
    let mut lib = library_with_two_copies();
    let borrowers = ["S1", "S2", "S3"];
    let mut clock = 0;
    for round in 0..15usize {
        for (n, b) in borrowers.iter().enumerate() {
            clock += 1;
            let action = if (round * 7 + n * 3) % 4 < 2 { Action::Checkin } else { Action::Checkout };
            lib.apply(&request("123", b, action), at(clock));
        }
    }
    let entries = lib.ledger().entries();
    assert!(!entries.is_empty());
    for b in borrowers {
        let mut last: Option<Action> = None;
        for e in entries.iter().filter(|e| e.borrower_id == b) {
            match last {
                None => assert_eq!(e.action, Action::Checkout),
                Some(prev) => assert_ne!(e.action, prev),
            }
            last = Some(e.action);
        }
    }
}

#[test]
fn rush_of_five_on_two_copies_lends_exactly_two() {
    let mut lib = Library::new();
    lib.put_book("123".to_string(), book(2, 2, Permission::CanLeaveLibrary));
    let borrowers = ["A", "B", "C", "D", "E"];
    for b in borrowers {
        lib.add_borrower(b.to_string());
    }
    let mut lent = 0;
    let mut refused = 0;
    for (n, b) in borrowers.iter().enumerate() {
        match lib.apply(&checkout("123", b), at(n as i64)) {
            TransitionResult::Accepted { .. } => lent += 1,
            TransitionResult::Rejected { reason } => {
                assert_eq!(reason, RejectReason::NoCopiesAvailable);
                refused += 1;
            }
        }
    }
    assert_eq!(lent, 2);
    assert_eq!(refused, 3);
    assert_eq!(available(&lib, "123"), 0);
    assert_eq!(lib.ledger().len(), 2);
}

#[test]
fn put_book_replaces_the_record_of_a_catalogued_title() {
    let mut lib = Library::new();
    assert_eq!(lib.book(&"123".to_string()), None);
    lib.put_book("123".to_string(), book(2, 2, Permission::CanLeaveLibrary));
    lib.put_book("456".to_string(), book(1, 0, Permission::ReferenceOnly));
    lib.put_book("123".to_string(), book(7, 3, Permission::DontLeaveLibrary));
    assert_eq!(lib.book(&"123".to_string()), Some(book(7, 3, Permission::DontLeaveLibrary)));
    assert_eq!(lib.book(&"456".to_string()), Some(book(1, 0, Permission::ReferenceOnly)));
    assert_eq!(lib.book(&"789".to_string()), None);
}

#[test]
fn borrowers_are_known_once_registered() {
    let mut lib = Library::new();
    assert!(!lib.has_borrower(&"S1".to_string()));
    lib.add_borrower("S1".to_string());
    assert!(lib.has_borrower(&"S1".to_string()));
    assert!(!lib.has_borrower(&"S".to_string()));
    assert!(!lib.has_borrower(&"S11".to_string()));
}

#[test]
fn titles_do_not_share_a_history() {
    let mut lib = library_with_two_copies();
    lib.put_book("456".to_string(), book(1, 1, Permission::CanLeaveLibrary));
    assert_eq!(lib.apply(&checkout("123", "S1"), at(1)), accepted(1, 1));
    assert_eq!(lib.last_action(&"123".to_string(), &"S1".to_string()), Some(Action::Checkout));
    assert_eq!(lib.last_action(&"456".to_string(), &"S1".to_string()), None);
    assert_eq!(lib.apply(&checkin("456", "S1"), at(2)), rejected(RejectReason::NotCheckedOut));
    assert_eq!(lib.apply(&checkout("456", "S1"), at(3)), accepted(0, 3));
    assert_eq!(available(&lib, "123"), 1);
}

#[test]
fn apply_now_stamps_entry_record_and_answer_alike() {
    let mut lib = library_with_two_copies();
    match lib.apply_now(&checkout("123", "S1")) {
        TransitionResult::Accepted { new_available, timestamp } => {
            assert_eq!(new_available, 1);
            assert_eq!(lib.book(&"123".to_string()).unwrap().active_date, timestamp);
            assert_eq!(lib.ledger().entries()[0].timestamp, timestamp);
            assert!(timestamp.sec > 0);
            assert!(timestamp.nsec >= 0 && timestamp.nsec < 1_000_000_000);
        }
        other => panic!("refused: {:?}", other),
    }
    assert_eq!(lib.apply_now(&checkout("123", "S1")), rejected(RejectReason::AlreadyCheckedOut));
}
