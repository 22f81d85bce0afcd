//! A booking desk: what one front end shows and has in hand, and how it
//! reacts to what its user does.
//!
//! The desk decides; it performs nothing outside the engine. Where a
//! reaction calls for a file to be written, [`Session::handle_with`] returns
//! the [`Action`] and the caller performs it.

use vstd::prelude::*;
use vstd::string::StringExecFns;
use crate::booking::{Booking, BookingError, BookingRequest, refusal_text};
use crate::engine::Engine;
use crate::model::{
    BookingView, Refusal, RequestView, State, book, cancel, is_seat, is_uuid_text,
    some_uuid_text,
};
use crate::outside::{current_timestamp, fresh_token};
use crate::text::{clone_opt_text, is_blank, opt_text, text_is_blank, trimmed, trimmed_text};

verus! {

/// The screens of the desk.
#[derive(Clone, Copy, Debug, PartialEq, Eq)]
pub enum Screen {
    Home,
    ShowSelection,
    Booking,
    CancelBooking,
    ViewSeats,
    Records,
    Statistics,
}

/// What the user of the desk can do.
#[derive(Debug, PartialEq, Eq)]
pub enum Event {
    ChangeView(Screen),
    SelectShow(u64),
    SelectSeat(String),
    CustomerNameChanged(String),
    ConfirmBooking,
    BookingIdChanged(String),
    CancelBookingConfirm,
    ExportRecords,
}

/// What the caller is to do after a reaction.
#[derive(Debug, PartialEq, Eq)]
pub enum Action {
    /// Nothing.
    Nothing,
    /// Write the ticket of this booking, which was just made.
    SaveTicket(Booking),
    /// Write the live bookings to the export file.
    ExportRecords,
}

/// What the desk shows and has in hand.
#[derive(Debug, PartialEq, Eq)]
pub struct Session {
    pub screen: Screen,
    pub selected_show: Option<u64>,
    pub selected_seat: Option<String>,
    pub customer_name: String,
    pub booking_id_input: String,
    pub error_message: Option<String>,
    pub success_message: Option<String>,
}

/// An [`Event`], as mathematical values.
pub enum EventView {
    ChangeView(Screen),
    SelectShow(u64),
    SelectSeat(Seq<char>),
    CustomerNameChanged(Seq<char>),
    ConfirmBooking,
    BookingIdChanged(Seq<char>),
    CancelBookingConfirm,
    ExportRecords,
}

/// An [`Action`], as mathematical values.
pub enum ActionView {
    Nothing,
    SaveTicket(BookingView),
    ExportRecords,
}

/// A [`Session`], as mathematical values.
pub struct SessionView {
    pub screen: Screen,
    pub selected_show: Option<u64>,
    pub selected_seat: Option<Seq<char>>,
    pub customer_name: Seq<char>,
    pub booking_id_input: Seq<char>,
    pub error_message: Option<Seq<char>>,
    pub success_message: Option<Seq<char>>,
}

impl View for Event {
    type V = EventView;

    open spec fn view(&self) -> EventView {
        match self {
            Event::ChangeView(screen) => EventView::ChangeView(*screen),
            Event::SelectShow(id) => EventView::SelectShow(*id),
            Event::SelectSeat(label) => EventView::SelectSeat(label@),
            Event::CustomerNameChanged(name) => EventView::CustomerNameChanged(name@),
            Event::ConfirmBooking => EventView::ConfirmBooking,
            Event::BookingIdChanged(text) => EventView::BookingIdChanged(text@),
            Event::CancelBookingConfirm => EventView::CancelBookingConfirm,
            Event::ExportRecords => EventView::ExportRecords,
        }
    }
}

impl Clone for Event {
    fn clone(&self) -> (copy: Self)
        ensures
            copy@ == self@,
    {
        match self {
            Event::ChangeView(screen) => Event::ChangeView(*screen),
            Event::SelectShow(id) => Event::SelectShow(*id),
            Event::SelectSeat(label) => Event::SelectSeat(label.clone()),
            Event::CustomerNameChanged(name) => Event::CustomerNameChanged(name.clone()),
            Event::ConfirmBooking => Event::ConfirmBooking,
            Event::BookingIdChanged(text) => Event::BookingIdChanged(text.clone()),
            Event::CancelBookingConfirm => Event::CancelBookingConfirm,
            Event::ExportRecords => Event::ExportRecords,
        }
    }
}

impl View for Action {
    type V = ActionView;

    open spec fn view(&self) -> ActionView {
        match self {
            Action::Nothing => ActionView::Nothing,
            Action::SaveTicket(booking) => ActionView::SaveTicket(booking@),
            Action::ExportRecords => ActionView::ExportRecords,
        }
    }
}

impl View for Session {
    type V = SessionView;

    open spec fn view(&self) -> SessionView {
        SessionView {
            screen: self.screen,
            selected_show: self.selected_show,
            selected_seat: opt_text(self.selected_seat),
            customer_name: self.customer_name@,
            booking_id_input: self.booking_id_input@,
            error_message: opt_text(self.error_message),
            success_message: opt_text(self.success_message),
        }
    }
}

/// What the desk says after the booking with the id `id` was made.
pub open spec fn confirmed_text(id: Seq<char>) -> Seq<char> {
    "Booking confirmed! ID: "@ + id
}

/// What the desk says where a booking is confirmed without a name.
pub open spec fn name_missing_text() -> Seq<char> {
    "Please enter customer name"@
}

/// What the desk says after a booking was cancelled.
pub open spec fn cancelled_text() -> Seq<char> {
    "Booking cancelled successfully"@
}

/// What the desk says after the records were handed out for export.
pub open spec fn exported_text() -> Seq<char> {
    "Records exported to bookings_export.json"@
}

/// The request that the desk makes of the engine: the one selected seat of
/// the selected show, for the customer whose name was typed, at the show's price.
pub open spec fn desk_request(show_id: u64, name: Seq<char>, seat: Seq<char>) -> RequestView {
    RequestView { show_id, customer_name: name, email: None, seats: seq![seat], total: None }
}

/// The desk with its two messages wiped, as every reaction begins.
pub open spec fn wiped(ui: SessionView) -> SessionView {
    SessionView { error_message: None, success_message: None, ..ui }
}

/// Whether a confirmation at the desk `ui` goes to the engine: a show and
/// a seat are selected and a name was typed.
pub open spec fn ready_to_book(ui: SessionView) -> bool {
    ui.selected_show is Some && ui.selected_seat is Some && !is_blank(ui.customer_name)
}

/// How the desk and the engine react to `event`: the desk and the engine's
/// state afterwards, and what the caller is to do. A seat is selected only
/// where it is a free seat of the selected show. A confirmation without a
/// name is turned back at the desk. `token` and `now` go into the booking
/// that a confirmation may create. A cancellation is of the booking whose
/// id was typed, white space around it left aside.
pub open spec fn react(ui: SessionView, s: State, event: EventView, token: Seq<char>, now: i64) -> (
    SessionView,
    State,
    ActionView,
) {
    let ui = wiped(ui);
    match event {
        EventView::ChangeView(screen) => (
            SessionView {
                screen,
                customer_name: Seq::empty(),
                booking_id_input: Seq::empty(),
                selected_seat: None,
                ..ui
            },
            s,
            ActionView::Nothing,
        ),
        EventView::SelectShow(id) => (
            SessionView { selected_show: Some(id), screen: Screen::Booking, ..ui },
            s,
            ActionView::Nothing,
        ),
        EventView::SelectSeat(label) => (
            if ui.selected_show is Some && is_seat(s, ui.selected_show->0, label)
                && !s.taken[ui.selected_show->0].contains(label) {
                SessionView { selected_seat: Some(label), ..ui }
            } else {
                ui
            },
            s,
            ActionView::Nothing,
        ),
        EventView::CustomerNameChanged(name) => (
            SessionView { customer_name: name, ..ui },
            s,
            ActionView::Nothing,
        ),
        EventView::ConfirmBooking => {
            if ui.selected_show is Some && ui.selected_seat is Some && is_blank(
                ui.customer_name,
            ) {
                (
                    SessionView { error_message: Some(name_missing_text()), ..ui },
                    s,
                    ActionView::Nothing,
                )
            } else if ui.selected_show is Some && ui.selected_seat is Some {
                let request = desk_request(
                    ui.selected_show->0,
                    ui.customer_name,
                    ui.selected_seat->0,
                );
                match book(s, request, token, now).1 {
                    Ok(booking) => (
                        SessionView {
                            success_message: Some(confirmed_text(booking.id)),
                            customer_name: Seq::empty(),
                            selected_seat: None,
                            ..ui
                        },
                        book(s, request, token, now).0,
                        ActionView::SaveTicket(booking),
                    ),
                    Err(why) => (
                        SessionView { error_message: Some(refusal_text(why)), ..ui },
                        s,
                        ActionView::Nothing,
                    ),
                }
            } else {
                (ui, s, ActionView::Nothing)
            }
        },
        EventView::BookingIdChanged(text) => (
            SessionView { booking_id_input: text, ..ui },
            s,
            ActionView::Nothing,
        ),
        EventView::CancelBookingConfirm => {
            if cancel(s, trimmed(ui.booking_id_input)).1 is Ok {
                (
                    SessionView {
                        success_message: Some(cancelled_text()),
                        booking_id_input: Seq::empty(),
                        ..ui
                    },
                    cancel(s, trimmed(ui.booking_id_input)).0,
                    ActionView::Nothing,
                )
            } else {
                (
                    SessionView {
                        error_message: Some(refusal_text(Refusal::BookingNotFound)),
                        ..ui
                    },
                    s,
                    ActionView::Nothing,
                )
            }
        },
        EventView::ExportRecords => (
            SessionView { success_message: Some(exported_text()), ..ui },
            s,
            ActionView::ExportRecords,
        ),
    }
}

impl Session {
    /// A desk at the home screen, with nothing selected and nothing typed.
    pub fn new() -> (session: Session)
        ensures
            session@ == (SessionView {
                screen: Screen::Home,
                selected_show: None,
                selected_seat: None,
                customer_name: Seq::empty(),
                booking_id_input: Seq::empty(),
                error_message: None,
                success_message: None,
            }),
    {
        Session {
            screen: Screen::Home,
            selected_show: None,
            selected_seat: None,
            customer_name: String::new(),
            booking_id_input: String::new(),
            error_message: None,
            success_message: None,
        }
    }

    /// Reacts to `event`: changes the desk and, where the event confirms a
    /// booking or a cancellation, the engine, as [`react`] says, and returns
    /// what the caller is to do. `token` and `now` are for the booking that
    /// a confirmation may create.
    pub fn handle_with(
        &mut self,
        engine: &mut Engine,
        event: Event,
        token: String,
        now: i64,
    ) -> (action: Action)
        requires
            old(engine).wf(),
        ensures
            final(engine).wf(),
            final(self)@ == react(old(self)@, old(engine)@, event@, token@, now).0,
            final(engine)@ == react(old(self)@, old(engine)@, event@, token@, now).1,
            action@ == react(old(self)@, old(engine)@, event@, token@, now).2,
    {
        self.error_message = None;
        self.success_message = None;
        match event {
            Event::ChangeView(screen) => {
                self.screen = screen;
                self.customer_name = String::new();
                self.booking_id_input = String::new();
                self.selected_seat = None;
                Action::Nothing
            },
            Event::SelectShow(id) => {
                self.selected_show = Some(id);
                self.screen = Screen::Booking;
                Action::Nothing
            },
            Event::SelectSeat(label) => {
                if let Some(show_id) = self.selected_show {
                    if engine.admits_seat(show_id, label.as_str()) && !engine.is_booked(
                        show_id,
                        label.as_str(),
                    ) {
                        self.selected_seat = Some(label);
                    }
                }
                Action::Nothing
            },
            Event::CustomerNameChanged(name) => {
                self.customer_name = name;
                Action::Nothing
            },
            Event::ConfirmBooking => {
                let seat = clone_opt_text(&self.selected_seat);
                match (self.selected_show, seat) {
                    (Some(show_id), Some(seat)) => if text_is_blank(
                        self.customer_name.as_str(),
                    ) {
                        self.error_message = Some(String::from_str("Please enter customer name"));
                        Action::Nothing
                    } else {
                        let mut seats: Vec<String> = Vec::new();
                        seats.push(seat);
                        let request = BookingRequest {
                            show_id,
                            customer_name: self.customer_name.clone(),
                            email: None,
                            seats,
                            total: None,
                        };
                        assert(request@.seats =~= seq![seat@]);
                        match engine.attempt_booking_with(request, token, now) {
                            Ok(booking) => {
                                let mut said = String::from_str("Booking confirmed! ID: ");
                                said.append(booking.id.as_str());
                                self.success_message = Some(said);
                                self.customer_name = String::new();
                                self.selected_seat = None;
                                Action::SaveTicket(booking)
                            },
                            Err(why) => {
                                self.error_message = Some(why.message());
                                Action::Nothing
                            },
                        }
                    },
                    _ => Action::Nothing,
                }
            },
            Event::BookingIdChanged(text) => {
                self.booking_id_input = text;
                Action::Nothing
            },
            Event::CancelBookingConfirm => {
                let id = trimmed_text(self.booking_id_input.as_str());
                if engine.cancel_booking(id.as_str()).is_ok() {
                    self.success_message = Some(String::from_str("Booking cancelled successfully"));
                    self.booking_id_input = String::new();
                } else {
                    self.error_message = Some(BookingError::BookingNotFound.message());
                }
                Action::Nothing
            },
            Event::ExportRecords => {
                self.success_message = Some(
                    String::from_str("Records exported to bookings_export.json"),
                );
                Action::ExportRecords
            },
        }
    }

    /// Reacts to `event` now. Only where the event is a confirmation that
    /// goes to the engine is a random identifier drawn for the token and the
    /// clock read for the time.
    pub fn handle(&mut self, engine: &mut Engine, event: Event) -> (action: Action)
        requires
            old(engine).wf(),
        ensures
            final(engine).wf(),
            exists|token: Seq<char>, now: i64|
                {
                    &&& is_uuid_text(token)
                    &&& final(self)@ == (#[trigger] react(
                        old(self)@,
                        old(engine)@,
                        event@,
                        token,
                        now,
                    )).0
                    &&& final(engine)@ == react(old(self)@, old(engine)@, event@, token, now).1
                    &&& action@ == react(old(self)@, old(engine)@, event@, token, now).2
                },
    {
        let booking = match &event {
            Event::ConfirmBooking => self.selected_show.is_some() && self.selected_seat.is_some()
                && !text_is_blank(self.customer_name.as_str()),
            _ => false,
        };
        if booking {
            let token = fresh_token();
            let now = current_timestamp();
            self.handle_with(engine, event, token, now)
        } else {
            let ghost drawn = some_uuid_text();
            assert(react(old(self)@, old(engine)@, event@, Seq::<char>::empty(), 0) == react(
                old(self)@,
                old(engine)@,
                event@,
                drawn,
                0,
            ));
            self.handle_with(engine, event, String::new(), 0)
        }
    }
}

} // verus!
