//! Booking records, booking requests and the reasons for refusing one.

use vstd::prelude::*;
use vstd::string::StringExecFns;
use crate::model::{BookingView, Refusal, RequestView};
use crate::text::{clone_opt_text, clone_texts, opt_text, texts};

verus! {

/// A live booking. `total_amount` is in the smallest unit of the currency,
/// `created_at` in seconds since the Unix epoch.
#[derive(Debug, PartialEq, Eq)]
pub struct Booking {
    pub id: String,
    pub show_id: u64,
    pub customer_name: String,
    pub email: Option<String>,
    pub seats: Vec<String>,
    pub total_amount: u128,
    pub created_at: i64,
}

impl View for Booking {
    type V = BookingView;

    open spec fn view(&self) -> BookingView {
        BookingView {
            id: self.id@,
            show_id: self.show_id,
            customer_name: self.customer_name@,
            email: opt_text(self.email),
            seats: texts(self.seats@),
            total_amount: self.total_amount as nat,
            created_at: self.created_at,
        }
    }
}

impl Clone for Booking {
    fn clone(&self) -> (copy: Self)
        ensures
            copy@ == self@,
    {
        Booking {
            id: self.id.clone(),
            show_id: self.show_id,
            customer_name: self.customer_name.clone(),
            email: clone_opt_text(&self.email),
            seats: clone_texts(&self.seats),
            total_amount: self.total_amount,
            created_at: self.created_at,
        }
    }
}

/// The views of a list of bookings, in order.
pub open spec fn booking_views(list: Seq<Booking>) -> Seq<BookingView> {
    list.map_values(|b: Booking| b@)
}

/// A request to book `seats` of the show `show_id` for `customer_name`.
/// With `total: None` the seats are priced at the show's price each.
#[derive(Debug, PartialEq, Eq)]
pub struct BookingRequest {
    pub show_id: u64,
    pub customer_name: String,
    pub email: Option<String>,
    pub seats: Vec<String>,
    pub total: Option<u128>,
}

impl View for BookingRequest {
    type V = RequestView;

    open spec fn view(&self) -> RequestView {
        RequestView {
            show_id: self.show_id,
            customer_name: self.customer_name@,
            email: opt_text(self.email),
            seats: texts(self.seats@),
            total: match self.total {
                Some(total) => Some(total as nat),
                None => None,
            },
        }
    }
}

/// Why the engine refused an operation.
#[derive(Debug, PartialEq, Eq)]
pub enum BookingError {
    /// The show id is not in the catalog.
    ShowNotFound,
    /// The customer name is blank, no seat was named, or a free seat was
    /// named twice.
    InvalidInput,
    /// A seat label is outside the show's layout.
    InvalidSeat,
    /// The seat with this label is already taken.
    SeatUnavailable(String),
    /// No live booking has the id.
    BookingNotFound,
    /// The engine has used up its serial numbers.
    IdsExhausted,
}

impl View for BookingError {
    type V = Refusal;

    open spec fn view(&self) -> Refusal {
        match self {
            BookingError::ShowNotFound => Refusal::ShowNotFound,
            BookingError::InvalidInput => Refusal::InvalidInput,
            BookingError::InvalidSeat => Refusal::InvalidSeat,
            BookingError::SeatUnavailable(label) => Refusal::SeatUnavailable(label@),
            BookingError::BookingNotFound => Refusal::BookingNotFound,
            BookingError::IdsExhausted => Refusal::IdsExhausted,
        }
    }
}

/// The sentence that tells a customer of a refusal.
pub open spec fn refusal_text(why: Refusal) -> Seq<char> {
    match why {
        Refusal::ShowNotFound => "Show not found."@,
        Refusal::InvalidInput => "Enter a customer name and choose at least one seat, each seat once."@,
        Refusal::InvalidSeat => "That seat is not part of this hall."@,
        Refusal::SeatUnavailable(label) => "Seat "@ + label + " is no longer available."@,
        Refusal::BookingNotFound => "Booking ID not found"@,
        Refusal::IdsExhausted => "No further bookings can be taken."@,
    }
}

impl BookingError {
    /// The sentence that tells a customer of this refusal.
    pub fn message(&self) -> (text: String)
        ensures
            text@ == refusal_text(self@),
    {
        match self {
            BookingError::ShowNotFound => String::from_str("Show not found."),
            BookingError::InvalidInput => String::from_str(
                "Enter a customer name and choose at least one seat, each seat once.",
            ),
            BookingError::InvalidSeat => String::from_str("That seat is not part of this hall."),
            BookingError::SeatUnavailable(label) => {
                let mut text = String::from_str("Seat ");
                text.append(label.as_str());
                text.append(" is no longer available.");
                text
            },
            BookingError::BookingNotFound => String::from_str("Booking ID not found"),
            BookingError::IdsExhausted => String::from_str("No further bookings can be taken."),
        }
    }
}

/// An optional refusal, as mathematical values.
pub open spec fn opt_refusal(why: Option<BookingError>) -> Option<Refusal> {
    match why {
        Some(why) => Some(why@),
        None => None,
    }
}

/// What an operation returned, as mathematical values.
pub open spec fn outcome(res: Result<Booking, BookingError>) -> Result<BookingView, Refusal> {
    match res {
        Ok(booking) => Ok(booking@),
        Err(why) => Err(why@),
    }
}

} // verus!
