use circulation::engine::{
    CommitReport, Engine, Judged, Resolved, Settled, Snapshot, Writing, DEFAULT_RETRIES,
};
use circulation::library::Library;
use circulation::model::{
    Action, ActionRequest, BookState, Permission, RejectReason, StoreUnavailable, Timestamp,
    TransitionResult,
};

fn at(sec: i64) -> Timestamp {
    Timestamp::new(sec, 0)
}

fn checkout(borrower: &str) -> ActionRequest {
    ActionRequest { isbn: "123".to_string(), borrower_id: borrower.to_string(), action: Action::Checkout }
}

fn checkin(borrower: &str) -> ActionRequest {
    ActionRequest { isbn: "123".to_string(), borrower_id: borrower.to_string(), action: Action::Checkin }
}

fn shelf(available: u64) -> BookState {
    BookState { quantity: 2, available, permission: Permission::CanLeaveLibrary, active_date: at(0) }
}

fn reading(available: u64, holding: Option<Action>, sec: i64) -> Result<Snapshot, StoreUnavailable> {
    Ok(Snapshot { book: Some(shelf(available)), borrower_known: true, holding, now: at(sec) })
}

fn library(available: u64) -> Library {
    let mut lib = Library::new();
    lib.put_book("123".to_string(), shelf(available));
    lib.add_borrower("S1".to_string());
    lib.add_borrower("S2".to_string());
    lib.add_borrower("S3".to_string());
    lib
}

fn writing(j: Judged) -> Writing {
    match j {
        Judged::Write(w) => w,
        Judged::Done(o) => panic!("ended early: {:?}", o),
    }
}

fn conflict() -> Result<TransitionResult, StoreUnavailable> {
    Ok(TransitionResult::Rejected { reason: RejectReason::Conflict })
}

#[test]
fn default_is_three_retries() {
    assert_eq!(DEFAULT_RETRIES, 3);
    assert_eq!(Engine::new(checkout("S1"), DEFAULT_RETRIES).retries_left(), 3);
}

#[test]
fn accepted_request_hands_out_its_writes() {
    let w = writing(Engine::new(checkout("S1"), 3).read(reading(2, None, 10)));
    let c = w.commit();
    assert_eq!(c.expected, shelf(2));
    assert_eq!(c.expected_holding, None);
    assert_eq!(
        c.record,
        BookState { quantity: 2, available: 1, permission: Permission::CanLeaveLibrary, active_date: at(10) }
    );
    assert_eq!(c.entry.isbn, "123");
    assert_eq!(c.entry.borrower_id, "S1");
    assert_eq!(c.entry.timestamp, at(10));
    assert_eq!(c.entry.action, Action::Checkout);
    match w.settle(CommitReport::Committed) {
        Settled::Done(o) => {
            assert_eq!(o, Ok(TransitionResult::Accepted { new_available: 1, timestamp: at(10) }))
        }
        _ => panic!("not done"),
    }
}

#[test]
fn checkin_writes_put_a_copy_back() {
    let w = writing(Engine::new(checkin("S1"), 0).read(reading(0, Some(Action::Checkout), 20)));
    let c = w.commit();
    assert_eq!(c.expected.available, 0);
    assert_eq!(c.expected_holding, Some(Action::Checkout));
    assert_eq!(c.record.available, 1);
    assert_eq!(c.record.active_date, at(20));
    assert_eq!(c.entry.action, Action::Checkin);
}

#[test]
fn rejected_request_ends_at_the_reading() {
    match Engine::new(checkout("S1"), 3).read(reading(0, None, 10)) {
        Judged::Done(o) => {
            assert_eq!(o, Ok(TransitionResult::Rejected { reason: RejectReason::NoCopiesAvailable }))
        }
        Judged::Write(_) => panic!("wrote"),
    }
    match Engine::new(checkout("S1"), 3).read(Ok(Snapshot {
        book: None,
        borrower_known: true,
        holding: None,
        now: at(1),
    })) {
        Judged::Done(o) => assert_eq!(o, Ok(TransitionResult::Rejected { reason: RejectReason::UnknownBook })),
        Judged::Write(_) => panic!("wrote"),
    }
}

#[test]
fn unreachable_store_ends_the_request_as_a_fault() {
    match Engine::new(checkout("S1"), 3).read(Err(StoreUnavailable)) {
        Judged::Done(o) => assert_eq!(o, Err(StoreUnavailable)),
        Judged::Write(_) => panic!("wrote"),
    }
    let w = writing(Engine::new(checkout("S1"), 3).read(reading(2, None, 10)));
    match w.settle(CommitReport::Failed) {
        Settled::Done(o) => assert_eq!(o, Err(StoreUnavailable)),
        _ => panic!("not done"),
    }
}

#[test]
fn conflict_starts_over_three_times_and_then_gives_up() {
    let mut engine = Engine::new(checkout("S1"), 3);
    let mut rounds = 0;
    let outcome = loop {
        rounds += 1;
        let left = engine.retries_left();
        match writing(engine.read(reading(2, None, rounds))).settle(CommitReport::Conflict) {
            Settled::Retry(next) => {
                assert_eq!(next.retries_left(), left - 1);
                assert_eq!(next.request(), &checkout("S1"));
                engine = next;
            }
            Settled::Done(o) => break o,
            Settled::Recheck(_) => panic!("recheck"),
        }
    };
    assert_eq!(rounds, 4);
    assert_eq!(outcome, conflict());
}

#[test]
fn without_retries_the_first_conflict_is_final() {
    match writing(Engine::new(checkout("S1"), 0).read(reading(2, None, 1))).settle(CommitReport::Conflict) {
        Settled::Done(o) => assert_eq!(o, conflict()),
        _ => panic!("not done"),
    }
}

#[test]
fn commit_of_unknown_effect_is_settled_by_the_ledger() {
    let check = |latest, retries| {
        let w = writing(Engine::new(checkout("S1"), retries).read(reading(2, None, 10)));
        match w.settle(CommitReport::Unknown) {
            Settled::Recheck(c) => {
                assert_eq!(c.request(), &checkout("S1"));
                c.resolve(latest)
            }
            _ => panic!("no recheck"),
        }
    };
    let accepted = Ok(TransitionResult::Accepted { new_available: 1, timestamp: at(10) });
    match check(Ok(Some((Action::Checkout, at(10)))), 3) {
        Resolved::Done(o) => assert_eq!(o, accepted),
        Resolved::Retry(_) => panic!("retried what had landed"),
    }
    match check(Ok(None), 3) {
        Resolved::Retry(e) => assert_eq!(e.retries_left(), 2),
        Resolved::Done(o) => panic!("ended: {:?}", o),
    }
    match check(Ok(Some((Action::Checkout, at(9)))), 1) {
        Resolved::Retry(e) => assert_eq!(e.retries_left(), 0),
        Resolved::Done(o) => panic!("ended: {:?}", o),
    }
    match check(Ok(Some((Action::Checkin, at(10)))), 0) {
        Resolved::Done(o) => assert_eq!(o, Err(StoreUnavailable)),
        Resolved::Retry(_) => panic!("retried without retries"),
    }
    match check(Err(StoreUnavailable), 3) {
        Resolved::Done(o) => assert_eq!(o, Err(StoreUnavailable)),
        Resolved::Retry(_) => panic!("retried blind"),
    }
}

#[test]
fn engine_against_the_library_is_the_atomic_transition() {
    let mut direct = library(2);
    let mut driven = library(2);
    let expected = direct.apply(&checkout("S1"), at(5));
    let engine = Engine::new(checkout("S1"), 3);
    let snap = driven.snapshot(engine.request(), at(5));
    let w = writing(engine.read(Ok(snap)));
    let report = driven.commit(&w.commit());
    assert_eq!(report, CommitReport::Committed);
    match w.settle(report) {
        Settled::Done(o) => assert_eq!(o, Ok(expected)),
        _ => panic!("not done"),
    }
    assert_eq!(driven.book(&"123".to_string()), direct.book(&"123".to_string()));
    assert_eq!(driven.ledger().entries(), direct.ledger().entries());
}

#[test]
fn two_readers_of_the_last_copy_cannot_both_take_it() {
    let mut lib = library(1);
    let first = Engine::new(checkout("S1"), 3);
    let second = Engine::new(checkout("S2"), 3);
    let w1 = writing(first.read(Ok(lib.snapshot(&checkout("S1"), at(1)))));
    let w2 = writing(second.read(Ok(lib.snapshot(&checkout("S2"), at(1)))));
    assert_eq!(lib.commit(&w1.commit()), CommitReport::Committed);
    let report = lib.commit(&w2.commit());
    assert_eq!(report, CommitReport::Conflict);
    assert_eq!(lib.book(&"123".to_string()).unwrap().available, 0);
    assert_eq!(lib.ledger().len(), 1);
    let retry = match w2.settle(report) {
        Settled::Retry(e) => e,
        _ => panic!("no retry"),
    };
    match retry.read(Ok(lib.snapshot(&checkout("S2"), at(2)))) {
        Judged::Done(o) => {
            assert_eq!(o, Ok(TransitionResult::Rejected { reason: RejectReason::NoCopiesAvailable }))
        }
        Judged::Write(_) => panic!("wrote"),
    }
    assert_eq!(lib.ledger().len(), 1);
}

#[test]
fn stale_writes_of_a_borrower_who_meanwhile_took_the_title_are_refused() {
    let mut lib = library(2);
    let stale = writing(Engine::new(checkout("S1"), 0).read(Ok(lib.snapshot(&checkout("S1"), at(1)))));
    assert_eq!(
        lib.apply(&checkout("S1"), at(2)),
        TransitionResult::Accepted { new_available: 1, timestamp: at(2) }
    );
    lib.put_book("123".to_string(), shelf(2));
    assert_eq!(lib.commit(&stale.commit()), CommitReport::Conflict);
    assert_eq!(lib.book(&"123".to_string()), Some(shelf(2)));
    assert_eq!(lib.ledger().len(), 1);
}

#[test]
fn writes_for_a_title_that_is_gone_are_refused() {
    let lib_with = library(2);
    let w = writing(Engine::new(checkout("S1"), 0).read(Ok(lib_with.snapshot(&checkout("S1"), at(1)))));
    let mut empty = Library::new();
    assert_eq!(empty.commit(&w.commit()), CommitReport::Conflict);
    assert_eq!(empty.book(&"123".to_string()), None);
    assert_eq!(empty.ledger().len(), 0);
}

#[test]
fn retry_after_conflict_answers_as_a_first_submission_would() {
    let mut lib = library(2);
    let w = writing(Engine::new(checkout("S1"), 0).read(Ok(lib.snapshot(&checkout("S1"), at(1)))));
    lib.put_book("123".to_string(), shelf(1));
    let report = lib.commit(&w.commit());
    match w.settle(report) {
        Settled::Done(o) => assert_eq!(o, conflict()),
        _ => panic!("not done"),
    }
    assert_eq!(lib.ledger().len(), 0);
    let mut fresh = library(1);
    assert_eq!(lib.apply(&checkout("S1"), at(3)), fresh.apply(&checkout("S1"), at(3)));
    assert_eq!(lib.ledger().entries(), fresh.ledger().entries());
    assert_eq!(lib.ledger().len(), 1);
}

#[test]
fn snapshot_reads_book_borrower_and_holding_together() {
    let mut lib = library(2);
    lib.apply(&checkout("S1"), at(4));
    assert_eq!(
        lib.snapshot(&checkin("S1"), at(9)),
        Snapshot {
            book: Some(BookState {
                quantity: 2,
                available: 1,
                permission: Permission::CanLeaveLibrary,
                active_date: at(4)
            }),
            borrower_known: true,
            holding: Some(Action::Checkout),
            now: at(9),
        }
    );
    let stranger = ActionRequest {
        isbn: "999".to_string(),
        borrower_id: "nobody".to_string(),
        action: Action::Checkout,
    };
    assert_eq!(
        lib.snapshot(&stranger, at(9)),
        Snapshot { book: None, borrower_known: false, holding: None, now: at(9) }
    );
}

enum Racer {
    Ready(Engine),
    Pending(Writing),
    Finished(Result<TransitionResult, StoreUnavailable>),
}

fn race(lib: &mut Library, borrowers: &[&str], rounds: i64) -> Vec<Result<TransitionResult, StoreUnavailable>> {
    let mut racers: Vec<Racer> =
        borrowers.iter().map(|b| Racer::Ready(Engine::new(checkout(b), DEFAULT_RETRIES))).collect();
    for round in 0..rounds {
        racers = racers
            .into_iter()
            .map(|r| match r {
                Racer::Ready(e) => {
                    let snap = lib.snapshot(e.request(), at(round));
                    match e.read(Ok(snap)) {
                        Judged::Write(w) => Racer::Pending(w),
                        Judged::Done(o) => Racer::Finished(o),
                    }
                }
                other => other,
            })
            .collect();
        racers = racers
            .into_iter()
            .map(|r| match r {
                Racer::Pending(w) => {
                    let report = lib.commit(&w.commit());
                    match w.settle(report) {
                        Settled::Done(o) => Racer::Finished(o),
                        Settled::Retry(e) => Racer::Ready(e),
                        Settled::Recheck(_) => panic!("recheck"),
                    }
                }
                other => other,
            })
            .collect();
        let state = lib.book(&"123".to_string()).unwrap();
        assert!(state.available <= state.quantity);
    }
    racers
        .into_iter()
        .map(|r| match r {
            Racer::Finished(o) => o,
            _ => panic!("still under way"),
        })
        .collect()
}

#[test]
fn five_racing_for_two_copies_lend_exactly_two() {
    let mut lib = Library::new();
    lib.put_book("123".to_string(), shelf(2));
    let borrowers = ["A", "B", "C", "D", "E"];
    for b in borrowers {
        lib.add_borrower(b.to_string());
    }
    let answers = race(&mut lib, &borrowers, 5);
    let lent = answers.iter().filter(|o| matches!(o, Ok(TransitionResult::Accepted { .. }))).count();
    let turned_away = answers
        .iter()
        .filter(|o| **o == Ok(TransitionResult::Rejected { reason: RejectReason::NoCopiesAvailable }))
        .count();
    assert_eq!(lent, 2);
    assert_eq!(turned_away, 3);
    assert_eq!(lib.book(&"123".to_string()).unwrap().available, 0);
    assert_eq!(lib.ledger().len(), 2);
}

#[test]
fn racers_that_run_out_of_retries_end_in_conflict_and_leave_no_entry() {
    let mut lib = Library::new();
    lib.put_book(
        "123".to_string(),
        BookState { quantity: 9, available: 9, permission: Permission::CanLeaveLibrary, active_date: at(0) },
    );
    let borrowers = ["A", "B", "C", "D", "E", "F"];
    for b in borrowers {
        lib.add_borrower(b.to_string());
    }
    let answers = race(&mut lib, &borrowers, 4);
    let lent = answers.iter().filter(|o| matches!(o, Ok(TransitionResult::Accepted { .. }))).count();
    let conflicts = answers.iter().filter(|o| **o == conflict()).count();
    assert_eq!(lent, 4);
    assert_eq!(conflicts, 2);
    assert_eq!(lib.book(&"123".to_string()).unwrap().available, 5);
    assert_eq!(lib.ledger().len(), 4);
    for b in ["E", "F"] {
        assert_eq!(lib.last_action(&"123".to_string(), &b.to_string()), None);
    }
    assert_eq!(
        lib.checkout(&"123".to_string(), &"E".to_string(), at(9)),
        TransitionResult::Accepted { new_available: 4, timestamp: at(9) }
    );
    assert_eq!(
        lib.checkin(&"123".to_string(), &"E".to_string(), at(10)),
        TransitionResult::Accepted { new_available: 5, timestamp: at(10) }
    );
    assert_eq!(lib.ledger().len(), 6);
}
