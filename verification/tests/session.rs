use theatre_booking::numeral::{amount_text, decimal_text};
use theatre_booking::text::{chars_of, trim_bounds, trimmed_text};
use theatre_booking::{
    Action, Catalog, Engine, Event, Screen, SeatLayout, Session, Show,
};

fn hall() -> Engine {
    let shows = vec![Show {
        id: 0,
        title: "Dune: Part Two".to_string(),
        schedule: "15-03-2024 18:00".to_string(),
        hall: "Hall 1".to_string(),
        price: 150_000,
        layout: SeatLayout::Grid { rows: 4, cols: 5 },
    }];
    Engine::new(Catalog::new(shows).unwrap())
}

fn confirmed(desk: &mut Session, engine: &mut Engine, name: &str, seat: &str, now: i64) -> Action {
    desk.handle_with(engine, Event::SelectShow(0), "t".to_string(), now);
    desk.handle_with(engine, Event::SelectSeat(seat.to_string()), "t".to_string(), now);
    desk.handle_with(engine, Event::CustomerNameChanged(name.to_string()), "t".to_string(), now);
    desk.handle_with(engine, Event::ConfirmBooking, "t".to_string(), now)
}

#[test]
fn a_new_desk_is_at_home_with_nothing_in_hand() {
    let desk = Session::new();
    assert_eq!(desk.screen, Screen::Home);
    assert_eq!(desk.selected_show, None);
    assert_eq!(desk.selected_seat, None);
    assert_eq!(desk.customer_name, "");
    assert_eq!(desk.booking_id_input, "");
    assert_eq!(desk.error_message, None);
    assert_eq!(desk.success_message, None);
}

#[test]
fn the_desk_books_the_selected_seat() {
    let mut engine = hall();
    let mut desk = Session::new();
    assert_eq!(desk.handle_with(&mut engine, Event::SelectShow(0), "t".to_string(), 7), Action::Nothing);
    assert_eq!(desk.screen, Screen::Booking);
    assert_eq!(desk.selected_show, Some(0));
    desk.handle_with(&mut engine, Event::SelectSeat("B3".to_string()), "t".to_string(), 7);
    assert_eq!(desk.selected_seat, Some("B3".to_string()));
    desk.handle_with(&mut engine, Event::CustomerNameChanged("Alice".to_string()), "t".to_string(), 7);
    assert_eq!(desk.customer_name, "Alice");

    let action = desk.handle_with(&mut engine, Event::ConfirmBooking, "t".to_string(), 7);
    let booking = match action {
        Action::SaveTicket(booking) => booking,
        other => panic!("no ticket: {:?}", other),
    };
    assert_eq!(booking.id, "1001-t");
    assert_eq!(booking.seats, vec!["B3".to_string()]);
    assert_eq!(booking.customer_name, "Alice");
    assert_eq!(booking.total_amount, 150_000);
    assert_eq!(booking.created_at, 7);
    assert_eq!(desk.success_message, Some("Booking confirmed! ID: 1001-t".to_string()));
    assert_eq!(desk.error_message, None);
    assert_eq!(desk.customer_name, "");
    assert_eq!(desk.selected_seat, None);
    assert_eq!(desk.selected_show, Some(0));
    assert!(engine.is_booked(0, "B3"));
    assert_eq!(engine.available_seats(0), Some(19));
}

#[test]
fn the_desk_does_not_select_a_taken_seat() {
    let mut engine = hall();
    let mut desk = Session::new();
    confirmed(&mut desk, &mut engine, "Alice", "A1", 0);
    desk.handle_with(&mut engine, Event::SelectSeat("A2".to_string()), "t".to_string(), 0);
    assert_eq!(desk.selected_seat, Some("A2".to_string()));
    desk.handle_with(&mut engine, Event::SelectSeat("A1".to_string()), "t".to_string(), 0);
    assert_eq!(desk.selected_seat, Some("A2".to_string()));
    assert_eq!(desk.success_message, None);
}

#[test]
fn the_desk_selects_no_seat_before_a_show() {
    let mut engine = hall();
    let mut desk = Session::new();
    desk.handle_with(&mut engine, Event::SelectSeat("A1".to_string()), "t".to_string(), 0);
    assert_eq!(desk.selected_seat, None);
    assert_eq!(desk.handle_with(&mut engine, Event::ConfirmBooking, "t".to_string(), 0), Action::Nothing);
    assert!(engine.list_bookings().is_empty());
    assert_eq!(desk.error_message, None);
}

#[test]
fn the_desk_reports_a_blank_name() {
    let mut engine = hall();
    let mut desk = Session::new();
    let action = confirmed(&mut desk, &mut engine, "   ", "A1", 0);
    assert_eq!(action, Action::Nothing);
    assert_eq!(desk.error_message, Some("Please enter customer name".to_string()));
    assert!(engine.list_bookings().is_empty());
    assert_eq!(engine.available_seats(0), Some(20));
    assert_eq!(desk.success_message, None);
    assert_eq!(desk.selected_seat, Some("A1".to_string()));
    assert_eq!(desk.customer_name, "   ");
    assert!(!engine.is_booked(0, "A1"));
}

#[test]
fn the_desk_reports_a_seat_taken_meanwhile() {
    let mut engine = hall();
    let mut desk = Session::new();
    let mut other = Session::new();
    desk.handle_with(&mut engine, Event::SelectShow(0), "t".to_string(), 0);
    desk.handle_with(&mut engine, Event::SelectSeat("C2".to_string()), "t".to_string(), 0);
    desk.handle_with(&mut engine, Event::CustomerNameChanged("Alice".to_string()), "t".to_string(), 0);
    confirmed(&mut other, &mut engine, "Bob", "C2", 0);
    let action = desk.handle_with(&mut engine, Event::ConfirmBooking, "t".to_string(), 1);
    assert_eq!(action, Action::Nothing);
    assert_eq!(desk.error_message, Some("Seat C2 is no longer available.".to_string()));
    assert_eq!(engine.list_bookings().len(), 1);
    assert_eq!(engine.list_bookings()[0].customer_name, "Bob");
}

#[test]
fn the_desk_selects_no_seat_outside_the_hall() {
    let mut engine = hall();
    let mut desk = Session::new();
    desk.handle_with(&mut engine, Event::SelectShow(0), "t".to_string(), 0);
    for outside in ["J10", "E1", "A6", "A0", "", "a1"] {
        desk.handle_with(&mut engine, Event::SelectSeat(outside.to_string()), "t".to_string(), 0);
        assert_eq!(desk.selected_seat, None, "{:?}", outside);
        assert_eq!(desk.error_message, None);
    }
    desk.handle_with(&mut engine, Event::SelectSeat("D5".to_string()), "t".to_string(), 0);
    assert_eq!(desk.selected_seat, Some("D5".to_string()));
    desk.handle_with(&mut engine, Event::SelectSeat("J10".to_string()), "t".to_string(), 0);
    assert_eq!(desk.selected_seat, Some("D5".to_string()));
    assert!(engine.list_bookings().is_empty());
    assert_eq!(engine.available_seats(0), Some(20));
}

#[test]
fn the_desk_selects_no_seat_of_a_show_that_is_not_on() {
    let mut engine = hall();
    let mut desk = Session::new();
    desk.handle_with(&mut engine, Event::SelectShow(7), "t".to_string(), 0);
    desk.handle_with(&mut engine, Event::SelectSeat("A1".to_string()), "t".to_string(), 0);
    assert_eq!(desk.selected_seat, None);
}

#[test]
fn the_desk_reports_what_the_engine_refuses() {
    let mut engine = hall();
    let mut desk = Session::new();
    desk.selected_show = Some(0);
    desk.selected_seat = Some("Q9".to_string());
    desk.customer_name = "Alice".to_string();
    let action = desk.handle_with(&mut engine, Event::ConfirmBooking, "t".to_string(), 0);
    assert_eq!(action, Action::Nothing);
    assert_eq!(desk.error_message, Some("That seat is not part of this hall.".to_string()));
    desk.selected_show = Some(7);
    desk.handle_with(&mut engine, Event::ConfirmBooking, "t".to_string(), 0);
    assert_eq!(desk.error_message, Some("Show not found.".to_string()));
    desk.customer_name = " ".to_string();
    desk.handle_with(&mut engine, Event::ConfirmBooking, "t".to_string(), 0);
    assert_eq!(desk.error_message, Some("Please enter customer name".to_string()));
}

#[test]
fn a_booking_made_at_the_desk_is_cancelled_at_the_desk() {
    let mut engine = hall();
    let mut desk = Session::new();
    desk.handle_with(&mut engine, Event::SelectShow(0), String::new(), 0);
    desk.handle_with(&mut engine, Event::SelectSeat("B1".to_string()), String::new(), 0);
    desk.handle_with(&mut engine, Event::CustomerNameChanged("Carol".to_string()), String::new(), 0);
    let made = desk.handle_with(&mut engine, Event::ConfirmBooking, " t ".to_string(), 0);
    let carol = match made {
        Action::SaveTicket(booking) => booking,
        other => panic!("no ticket: {:?}", other),
    };
    assert_eq!(carol.id, "1001-t");
    confirmed(&mut desk, &mut engine, "Dan", "B2", 0);
    desk.handle_with(&mut engine, Event::BookingIdChanged(carol.id.clone()), String::new(), 0);
    desk.handle_with(&mut engine, Event::CancelBookingConfirm, String::new(), 0);
    assert_eq!(desk.success_message, Some("Booking cancelled successfully".to_string()));
    assert!(!engine.is_booked(0, "B1"));
    assert!(engine.is_booked(0, "B2"));
    assert_eq!(engine.list_bookings().len(), 1);
    assert_eq!(engine.list_bookings()[0].customer_name, "Dan");
}

#[test]
fn the_desk_draws_a_random_token_for_a_booking() {
    let mut engine = hall();
    let mut desk = Session::new();
    desk.handle(&mut engine, Event::SelectShow(0));
    desk.handle(&mut engine, Event::SelectSeat("A1".to_string()));
    desk.handle(&mut engine, Event::CustomerNameChanged("Alice".to_string()));
    let id = match desk.handle(&mut engine, Event::ConfirmBooking) {
        Action::SaveTicket(booking) => booking.id,
        other => panic!("no ticket: {:?}", other),
    };
    let token = id.strip_prefix("1001-").expect("serial number first");
    assert_eq!(token.len(), 36);
    for (i, c) in token.chars().enumerate() {
        if i == 8 || i == 13 || i == 18 || i == 23 {
            assert_eq!(c, '-');
        } else {
            assert!(c.is_ascii_digit() || ('a'..='f').contains(&c));
        }
    }
    desk.handle(&mut engine, Event::BookingIdChanged(format!("  {}  ", id)));
    desk.handle(&mut engine, Event::CancelBookingConfirm);
    assert_eq!(desk.success_message, Some("Booking cancelled successfully".to_string()));
    assert!(engine.list_bookings().is_empty());
    desk.handle(&mut engine, Event::BookingIdChanged(id));
    desk.handle(&mut engine, Event::CancelBookingConfirm);
    assert_eq!(desk.error_message, Some("Booking ID not found".to_string()));
    assert_eq!(desk.success_message, None);
    assert_eq!(engine.available_seats(0), Some(20));
}

#[test]
fn changing_the_screen_clears_what_was_typed() {
    let mut engine = hall();
    let mut desk = Session::new();
    confirmed(&mut desk, &mut engine, " ", "A1", 0);
    desk.handle_with(&mut engine, Event::BookingIdChanged("12".to_string()), "t".to_string(), 0);
    assert_eq!(desk.error_message, None);
    desk.handle_with(&mut engine, Event::ChangeView(Screen::Records), "t".to_string(), 0);
    assert_eq!(desk.screen, Screen::Records);
    assert_eq!(desk.customer_name, "");
    assert_eq!(desk.booking_id_input, "");
    assert_eq!(desk.selected_seat, None);
    assert_eq!(desk.selected_show, Some(0));
}

#[test]
fn the_desk_cancels_the_booking_whose_id_was_typed() {
    let mut engine = hall();
    let mut desk = Session::new();
    confirmed(&mut desk, &mut engine, "Alice", "A1", 0);
    confirmed(&mut desk, &mut engine, "Bob", "A2", 0);
    desk.handle_with(&mut engine, Event::ChangeView(Screen::CancelBooking), "t".to_string(), 0);
    desk.handle_with(&mut engine, Event::BookingIdChanged("  1001-t\t".to_string()), "t".to_string(), 0);
    assert_eq!(desk.booking_id_input, "  1001-t\t");
    let action = desk.handle_with(&mut engine, Event::CancelBookingConfirm, "t".to_string(), 0);
    assert_eq!(action, Action::Nothing);
    assert_eq!(desk.success_message, Some("Booking cancelled successfully".to_string()));
    assert_eq!(desk.booking_id_input, "");
    assert!(!engine.is_booked(0, "A1"));
    assert!(engine.is_booked(0, "A2"));

    desk.handle_with(&mut engine, Event::BookingIdChanged("1001-t".to_string()), "t".to_string(), 0);
    desk.handle_with(&mut engine, Event::CancelBookingConfirm, "t".to_string(), 0);
    assert_eq!(desk.error_message, Some("Booking ID not found".to_string()));
    assert_eq!(desk.success_message, None);
    assert_eq!(desk.booking_id_input, "1001-t");
    assert_eq!(engine.list_bookings().len(), 1);
}

#[test]
fn the_desk_finds_no_booking_under_another_text() {
    let mut engine = hall();
    let mut desk = Session::new();
    confirmed(&mut desk, &mut engine, "Alice", "A1", 0);
    for typed in ["", "  ", "abc", "1001", "1001-", "1001-tx", "10 01-t", "1001 -t", "1002-t"] {
        desk.handle_with(&mut engine, Event::BookingIdChanged(typed.to_string()), "t".to_string(), 0);
        desk.handle_with(&mut engine, Event::CancelBookingConfirm, "t".to_string(), 0);
        assert_eq!(desk.error_message, Some("Booking ID not found".to_string()), "{:?}", typed);
    }
    assert!(engine.is_booked(0, "A1"));
}

#[test]
fn the_desk_hands_the_export_to_its_caller() {
    let mut engine = hall();
    let mut desk = Session::new();
    let action = desk.handle_with(&mut engine, Event::ExportRecords, "t".to_string(), 0);
    assert_eq!(action, Action::ExportRecords);
    assert_eq!(
        desk.success_message,
        Some("Records exported to bookings_export.json".to_string())
    );
}

#[test]
fn every_reaction_wipes_the_old_messages() {
    let mut engine = hall();
    let mut desk = Session::new();
    desk.handle_with(&mut engine, Event::ExportRecords, "t".to_string(), 0);
    assert!(desk.success_message.is_some());
    desk.handle_with(&mut engine, Event::CustomerNameChanged("A".to_string()), "t".to_string(), 0);
    assert_eq!(desk.success_message, None);
    desk.handle_with(&mut engine, Event::CancelBookingConfirm, "t".to_string(), 0);
    assert!(desk.error_message.is_some());
    desk.handle_with(&mut engine, Event::SelectShow(0), "t".to_string(), 0);
    assert_eq!(desk.error_message, None);
}

#[test]
fn the_desk_stamps_a_booking_with_the_current_time() {
    let mut engine = hall();
    let mut desk = Session::new();
    desk.handle(&mut engine, Event::SelectShow(0));
    desk.handle(&mut engine, Event::SelectSeat("D5".to_string()));
    desk.handle(&mut engine, Event::CustomerNameChanged("Alice".to_string()));
    let before = std::time::SystemTime::now()
        .duration_since(std::time::UNIX_EPOCH)
        .unwrap()
        .as_secs() as i64;
    let action = desk.handle(&mut engine, Event::ConfirmBooking);
    match action {
        Action::SaveTicket(booking) => {
            assert!(before <= booking.created_at && booking.created_at <= before + 60);
        }
        other => panic!("no ticket: {:?}", other),
    }
}

#[test]
fn numbers_are_written_in_decimal() {
    assert_eq!(decimal_text(0), "0");
    assert_eq!(decimal_text(7), "7");
    assert_eq!(decimal_text(10), "10");
    assert_eq!(decimal_text(1001), "1001");
    assert_eq!(decimal_text(u64::MAX as u128), "18446744073709551615");
    assert_eq!(decimal_text(u128::MAX), "340282366920938463463374607431768211455");
}

#[test]
fn amounts_are_written_with_two_decimals() {
    assert_eq!(amount_text(0), "0.00");
    assert_eq!(amount_text(5), "0.05");
    assert_eq!(amount_text(50), "0.50");
    assert_eq!(amount_text(1250), "12.50");
    assert_eq!(amount_text(150_000), "1500.00");
    assert_eq!(amount_text(199), "1.99");
    assert_eq!(amount_text(u128::MAX), "3402823669209384634633746074317682114.55");
}

#[test]
fn trimming_agrees_with_std() {
    for s in ["", " ", "a", " a", "a ", " a b ", "\t\n x y \r\n", "\u{2003}é\u{3000}", "   ", "x\u{200b}"] {
        let chars = chars_of(s);
        assert_eq!(chars, s.chars().collect::<Vec<char>>());
        let (start, end) = trim_bounds(&chars);
        let kept: String = chars[start..end].iter().collect();
        assert_eq!(kept, s.trim(), "{:?}", s);
        assert_eq!(trimmed_text(s), s.trim(), "{:?}", s);
    }
}
