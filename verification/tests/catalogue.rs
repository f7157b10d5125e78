use circulation::catalogue::{new_title, Listing, NewTitle};
use circulation::library::Library;
use circulation::model::{Action, ActionRequest, BookState, Permission, RejectReason, Timestamp, TransitionResult};

fn listing(total_items: u64, thumbnail: Option<&str>) -> Listing {
    Listing {
        total_items,
        title: Some("The C Programming Language".to_string()),
        description: Some("A tutorial and a reference.".to_string()),
        thumbnail: thumbnail.map(|t| t.to_string()),
    }
}

fn unstocked() -> BookState {
    BookState {
        quantity: 0,
        available: 0,
        permission: Permission::DontLeaveLibrary,
        active_date: Timestamp::new(0, 0),
    }
}

#[test]
fn index_without_a_volume_gives_no_record() {
    assert_eq!(new_title("9780131103627".to_string(), listing(0, Some("http://covers/1.png"))), None);
    let bare = Listing { total_items: 0, title: None, description: None, thumbnail: None };
    assert_eq!(new_title("9780131103627".to_string(), bare), None);
}

#[test]
fn first_volume_becomes_an_unstocked_record() {
    assert_eq!(
        new_title("9780131103627".to_string(), listing(1, Some("http://covers/1.png"))),
        Some(NewTitle {
            name: "The C Programming Language".to_string(),
            description: "A tutorial and a reference.".to_string(),
            isbn: "9780131103627".to_string(),
            cover_image: "http://covers/1.png".to_string(),
            state: unstocked(),
        })
    );
}

#[test]
fn volume_without_a_picture_gets_an_empty_address() {
    let t = new_title("123".to_string(), listing(3, None)).unwrap();
    assert_eq!(t.cover_image, "");
    assert_eq!(t.isbn, "123");
    assert_eq!(t.state, unstocked());
}

#[test]
fn newly_catalogued_title_is_not_lent_until_it_is_stocked() {
    let t = new_title("123".to_string(), listing(1, None)).unwrap();
    let mut lib = Library::new();
    lib.put_book(t.isbn.clone(), t.state);
    lib.add_borrower("S1".to_string());
    let request = ActionRequest { isbn: "123".to_string(), borrower_id: "S1".to_string(), action: Action::Checkout };
    assert_eq!(
        lib.apply(&request, Timestamp::new(1, 0)),
        TransitionResult::Rejected { reason: RejectReason::PermissionDenied }
    );
    lib.put_book(
        t.isbn.clone(),
        BookState { quantity: 1, available: 1, permission: Permission::CanLeaveLibrary, ..t.state },
    );
    assert_eq!(
        lib.apply(&request, Timestamp::new(2, 0)),
        TransitionResult::Accepted { new_available: 0, timestamp: Timestamp::new(2, 0) }
    );
}

#[test]
fn volume_without_title_or_description_gives_no_record() {
    let untitled = Listing { title: None, ..listing(1, None) };
    assert_eq!(new_title("123".to_string(), untitled), None);
    let undescribed = Listing { description: None, ..listing(1, Some("http://covers/1.png")) };
    assert_eq!(new_title("123".to_string(), undescribed), None);
}
