//! A seat-reservation engine for a small theatre.
//!
//! The [`Engine`] owns a catalog of shows, the map of seats taken per show
//! and the ledger of live bookings. Booking and cancelling are single calls
//! on `&mut Engine`, so a conflict check and its commit can never be
//! separated: a request takes all of its seats or none.
//!
//! Every operation is specified against the mathematical state machine in
//! [`model`], and what callers rely on is proved in [`laws`]: no seat is
//! granted twice, a refused request changes nothing, a cancellation undoes
//! its booking and no other, and no id is issued twice. A booking's id is
//! made of a serial number and a random token; that ids differ rests on the
//! serial numbers alone, and an id never begins or ends with white space,
//! so that it can be typed back.
//!
//! A [`Session`] is the state of one booking desk and decides how the desk
//! reacts to its user; the front end draws it and writes the files.

pub mod booking;
pub mod catalog;
pub mod engine;
pub mod laws;
pub mod layout;
mod ledger;
pub mod model;
pub mod numeral;
mod outside;
mod seat_map;
pub mod session;
pub mod text;

pub use booking::{Booking, BookingError, BookingRequest};
pub use catalog::{Catalog, Show};
pub use engine::Engine;
pub use layout::SeatLayout;
pub use session::{Action, Event, Screen, Session};
