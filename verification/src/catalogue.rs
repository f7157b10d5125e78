//! The record with which a title enters the catalogue.

use vstd::prelude::*;
use crate::model::{BookState, Permission, Timestamp};

verus! {

/// What a book index lists under a key, over sequences of characters.
pub struct ListingView {
    pub total_items: u64,
    pub title: Option<Seq<char>>,
    pub description: Option<Seq<char>>,
    pub thumbnail: Option<Seq<char>>,
}

/// What a book index lists under a key: how many volumes, and of the first
/// of them the title, the description and the address of a cover picture,
/// as far as the index gives each.
#[derive(Clone, Debug, PartialEq, Eq)]
pub struct Listing {
    pub total_items: u64,
    pub title: Option<String>,
    pub description: Option<String>,
    pub thumbnail: Option<String>,
}

impl View for Listing {
    type V = ListingView;

    open spec fn view(&self) -> ListingView {
        ListingView {
            total_items: self.total_items,
            title: match self.title {
                Some(t) => Some(t@),
                None => None,
            },
            description: match self.description {
                Some(d) => Some(d@),
                None => None,
            },
            thumbnail: match self.thumbnail {
                Some(t) => Some(t@),
                None => None,
            },
        }
    }
}

/// A title as it enters the catalogue, over sequences of characters.
pub struct NewTitleView {
    pub name: Seq<char>,
    pub description: Seq<char>,
    pub isbn: Seq<char>,
    pub cover_image: Seq<char>,
    pub state: BookState,
}

/// A title as it enters the catalogue.
#[derive(Clone, Debug, PartialEq, Eq)]
pub struct NewTitle {
    pub name: String,
    pub description: String,
    pub isbn: String,
    pub cover_image: String,
    pub state: BookState,
}

impl View for NewTitle {
    type V = NewTitleView;

    open spec fn view(&self) -> NewTitleView {
        NewTitleView {
            name: self.name@,
            description: self.description@,
            isbn: self.isbn@,
            cover_image: self.cover_image@,
            state: self.state,
        }
    }
}

/// The inventory record of a title that has just been catalogued: the
/// library owns no copy yet, none is on the shelf, and until someone says
/// otherwise no copy may leave.
pub open spec fn unstocked() -> BookState {
    BookState {
        quantity: 0,
        available: 0,
        permission: Permission::DontLeaveLibrary,
        active_date: Timestamp { sec: 0, nsec: 0 },
    }
}

/// The catalogue record for a key and its listing: none where the index
/// lists no volume, or gives the first volume no title or no description;
/// else that title and description, the volume's cover picture or no
/// picture, and an unstocked inventory record.
pub open spec fn catalogued(isbn: Seq<char>, listing: ListingView) -> Option<NewTitleView> {
    if listing.total_items == 0 || listing.title is None || listing.description is None {
        None
    } else {
        Some(
            NewTitleView {
                name: listing.title->0,
                description: listing.description->0,
                isbn: isbn,
                cover_image: match listing.thumbnail {
                    Some(t) => t,
                    None => Seq::<char>::empty(),
                },
                state: unstocked(),
            },
        )
    }
}

/// Makes the catalogue record for a key from what the index lists under it.
pub fn new_title(isbn: String, listing: Listing) -> (r: Option<NewTitle>)
    ensures
        match r {
            Some(t) => catalogued(isbn@, listing@) == Some(t@),
            None => catalogued(isbn@, listing@) is None,
        },
{
    if listing.total_items == 0 {
        return None;
    }
    let name = match listing.title {
        Some(t) => t,
        None => {
            return None;
        },
    };
    let description = match listing.description {
        Some(d) => d,
        None => {
            return None;
        },
    };
    let cover_image = match listing.thumbnail {
        Some(t) => t,
        None => String::new(),
    };
    Some(
        NewTitle {
            name: name,
            description: description,
            isbn: isbn,
            cover_image: cover_image,
            state: BookState {
                quantity: 0,
                available: 0,
                permission: Permission::DontLeaveLibrary,
                active_date: Timestamp::new(0, 0),
            },
        },
    )
}

} // verus!
