use theatre_booking::layout::{format_grid_label, parse_grid_label};
use theatre_booking::text::{char_is_whitespace, find_text, text_is_blank, texts_distinct};
use theatre_booking::SeatLayout;

#[test]
fn grid_labels_are_a_letter_and_a_number() {
    assert_eq!(format_grid_label(0, 1), "A1");
    assert_eq!(format_grid_label(1, 3), "B3");
    assert_eq!(format_grid_label(3, 5), "D5");
    assert_eq!(format_grid_label(25, 10), "Z10");
    assert_eq!(format_grid_label(2, 0), "C0");
    assert_eq!(format_grid_label(2, 907), "C907");
    assert_eq!(format_grid_label(0, u32::MAX), "A4294967295");
}

#[test]
fn grid_labels_are_read_back() {
    assert_eq!(parse_grid_label("A1"), Some((0, 1)));
    assert_eq!(parse_grid_label("B3"), Some((1, 3)));
    assert_eq!(parse_grid_label("Z10"), Some((25, 10)));
    assert_eq!(parse_grid_label("C907"), Some((2, 907)));
    assert_eq!(parse_grid_label("A4294967295"), Some((0, u32::MAX)));
}

#[test]
fn what_is_no_grid_label_is_not_read() {
    for bad in [
        "", "A", "1", "A0", "A00", "A01", "a1", "[1", "@1", "A1x", "A 1", " A1", "A1 ", "AB1",
        "A-1", "A+1", "A4294967296", "A99999999999999999999999", "A١", "Ä1", "A1\u{0}",
    ] {
        assert_eq!(parse_grid_label(bad), None, "label {:?}", bad);
    }
}

#[test]
fn every_seat_of_a_grid_reads_back_as_itself() {
    for row in 0..26u8 {
        for col in [1u32, 2, 9, 10, 11, 99, 100, 101, 65535, 1_000_000, u32::MAX] {
            let label = format_grid_label(row, col);
            assert_eq!(parse_grid_label(&label), Some((row, col)));
        }
    }
}

#[test]
fn a_grid_admits_its_own_seats_only() {
    let grid = SeatLayout::Grid { rows: 4, cols: 5 };
    let mut admitted = 0;
    for row in 0..26u8 {
        for col in 0..8u32 {
            let label = format_grid_label(row, col);
            let inside = row < 4 && 1 <= col && col <= 5;
            assert_eq!(grid.admits_label(&label), inside);
            assert_eq!(grid.label_at(row, col), if inside { Some(label) } else { None });
            if inside {
                admitted += 1;
            }
        }
    }
    assert_eq!(admitted, 20);
    assert_eq!(grid.capacity(), Some(20));
    assert!(!grid.admits_label("balcony"));
    assert!(!grid.admits_label(""));
}

#[test]
fn an_open_layout_admits_everything_and_counts_nothing() {
    let open = SeatLayout::Open;
    assert!(open.admits_label(""));
    assert!(open.admits_label("balcony"));
    assert!(open.admits_label("A1"));
    assert_eq!(open.capacity(), None);
    assert_eq!(open.label_at(0, 1), None);
}

#[test]
fn the_largest_grid_has_a_capacity() {
    let grid = SeatLayout::Grid { rows: 26, cols: u32::MAX };
    assert_eq!(grid.capacity(), Some(26 * (u32::MAX as u64)));
    assert!(grid.admits_label("Z4294967295"));
    assert!(!grid.admits_label("Z4294967296"));
    let empty = SeatLayout::Grid { rows: 0, cols: 5 };
    assert_eq!(empty.capacity(), Some(0));
    assert!(!empty.admits_label("A1"));
}

#[test]
fn white_space_is_what_std_says_it_is() {
    for code in 0..=0x10ffffu32 {
        if let Some(c) = char::from_u32(code) {
            assert_eq!(char_is_whitespace(c), c.is_whitespace(), "U+{:04X}", code);
        }
    }
}

#[test]
fn blank_is_what_trims_to_nothing() {
    for s in ["", " ", "  \t\r\n", "\u{2003}", "a", " a", "a ", " \u{200b} ", "Alice", "\u{3000}x"] {
        assert_eq!(text_is_blank(s), s.trim().is_empty(), "text {:?}", s);
    }
    assert!(text_is_blank(""));
    assert!(text_is_blank(" \t"));
    assert!(!text_is_blank(" x "));
}

#[test]
fn texts_are_found_at_their_first_position() {
    let list: Vec<String> = ["A1", "B2", "A1", "C3"].iter().map(|s| s.to_string()).collect();
    assert_eq!(find_text(&list, &"A1".to_string()), Some(0));
    assert_eq!(find_text(&list, &"C3".to_string()), Some(3));
    assert_eq!(find_text(&list, &"c3".to_string()), None);
    assert_eq!(find_text(&Vec::new(), &"A1".to_string()), None);
    assert!(!texts_distinct(&list));
    assert!(texts_distinct(&list[1..].to_vec()));
    assert!(texts_distinct(&Vec::new()));
}
