//! Seat layouts and the grammar of grid seat labels.
//!
//! A grid seat is named by its row letter followed by its column number in
//! decimal, counted from one: the third seat of the second row is `B3`.

use vstd::prelude::*;
use crate::numeral::{
    decimal, digits_value, is_digit, is_numeral, lemma_char_code, lemma_decimal_is_numeral,
    lemma_numeral_is_decimal, lemma_prefix_value, push_decimal,
};
use vstd::string::{StrSliceExecFns, StringExecFns};

verus! {

/// The most rows a grid can have: one per letter from `A` to `Z`.
pub const MAX_ROWS: u8 = 26;

/// Which seat labels a show accepts.
#[derive(Clone, Copy, Debug, PartialEq, Eq)]
pub enum SeatLayout {
    /// Any label names a seat.
    Open,
    /// A rectangle of `rows` lettered rows with `cols` numbered seats each.
    Grid { rows: u8, cols: u32 },
}

/// The letter of row `row`, counted from zero.
pub open spec fn row_letter(row: nat) -> char
    recommends
        row < 26,
{
    ((65 + row) as u8) as char
}

/// The label of the grid seat in row `row` (from zero) and column `col` (from one).
pub open spec fn grid_label(row: nat, col: nat) -> Seq<char> {
    seq![row_letter(row)] + decimal(col)
}

/// The parts of a grid label: a row letter, then the column's numeral.
pub proof fn lemma_grid_label_parts(row: nat, col: nat)
    requires
        row < 26,
    ensures
        grid_label(row, col).len() >= 2,
        grid_label(row, col)[0] as int == 65 + row,
        grid_label(row, col).skip(1) == decimal(col),
        is_numeral(grid_label(row, col).skip(1)),
        digits_value(grid_label(row, col).skip(1)) == col,
{
    lemma_decimal_is_numeral(col);
    assert(grid_label(row, col).skip(1) =~= decimal(col));
}

/// Two grid labels are the same text only if they name the same seat.
pub proof fn lemma_grid_label_injective(row1: nat, col1: nat, row2: nat, col2: nat)
    requires
        row1 < 26,
        row2 < 26,
        grid_label(row1, col1) == grid_label(row2, col2),
    ensures
        row1 == row2,
        col1 == col2,
{
    lemma_grid_label_parts(row1, col1);
    lemma_grid_label_parts(row2, col2);
}

/// The labels of the first `cols` seats of row `row`.
pub open spec fn row_labels(row: nat, cols: nat) -> Set<Seq<char>> {
    Set::new(
        |label: Seq<char>|
            exists|col: nat| 1 <= col <= cols && label == #[trigger] grid_label(row, col),
    )
}

/// The labels of the seats of a grid of `rows` rows with `cols` seats each.
pub open spec fn grid_labels(rows: nat, cols: nat) -> Set<Seq<char>> {
    Set::new(
        |label: Seq<char>|
            exists|row: nat, col: nat|
                row < rows && 1 <= col <= cols && label == #[trigger] grid_label(row, col),
    )
}

/// A row of `cols` seats has `cols` labels.
pub proof fn lemma_row_labels_count(row: nat, cols: nat)
    requires
        row < 26,
    ensures
        row_labels(row, cols).finite(),
        row_labels(row, cols).len() == cols,
    decreases cols,
{
    if cols == 0 {
        assert(row_labels(row, cols) =~= Set::<Seq<char>>::empty());
    } else {
        let fewer = row_labels(row, (cols - 1) as nat);
        let last = grid_label(row, cols);
        lemma_row_labels_count(row, (cols - 1) as nat);
        assert(!fewer.contains(last)) by {
            if fewer.contains(last) {
                let col = choose|col: nat|
                    1 <= col <= cols - 1 && last == #[trigger] grid_label(row, col);
                lemma_grid_label_injective(row, cols, row, col);
            }
        }
        assert(row_labels(row, cols) =~= fewer.insert(last));
    }
}

/// A grid of `rows` rows with `cols` seats each has `rows * cols` labels.
pub proof fn lemma_grid_labels_count(rows: nat, cols: nat)
    requires
        rows <= 26,
    ensures
        grid_labels(rows, cols).finite(),
        grid_labels(rows, cols).len() == rows * cols,
    decreases rows,
{
    if rows == 0 {
        assert(grid_labels(rows, cols) =~= Set::<Seq<char>>::empty());
    } else {
        let above = grid_labels((rows - 1) as nat, cols);
        let row = row_labels((rows - 1) as nat, cols);
        lemma_grid_labels_count((rows - 1) as nat, cols);
        lemma_row_labels_count((rows - 1) as nat, cols);
        assert(above.disjoint(row)) by {
            assert forall|label: Seq<char>| above.contains(label) implies !row.contains(label) by {
                if row.contains(label) {
                    let (r, c) = choose|r: nat, c: nat|
                        r < rows - 1 && 1 <= c <= cols && label == #[trigger] grid_label(r, c);
                    let c2 = choose|c2: nat|
                        1 <= c2 <= cols && label == #[trigger] grid_label((rows - 1) as nat, c2);
                    lemma_grid_label_injective(r, c, (rows - 1) as nat, c2);
                }
            }
        }
        assert(grid_labels(rows, cols) =~= above + row);
        vstd::set_lib::lemma_set_disjoint_lens(above, row);
        assert((rows - 1) * cols + cols == rows * cols) by (nonlinear_arith);
    }
}

/// Reads a grid label: `Some((row, col))`, with the row counted from zero and
/// the column from one, exactly when `label` is the label of that seat; `None`
/// when it is the label of no seat whose column fits in a `u32`.
pub fn parse_grid_label(label: &str) -> (seat: Option<(u8, u32)>)
    ensures
        match seat {
            Some((row, col)) => {
                &&& row < MAX_ROWS
                &&& col >= 1
                &&& label@ == grid_label(row as nat, col as nat)
            },
            None => forall|row: nat, col: nat|
                row < 26 && 1 <= col <= u32::MAX ==> label@ != #[trigger] grid_label(row, col),
        },
{
    let mut row: u8 = 0;
    let mut value: u64 = 0;
    let mut seen_letter = false;
    let mut seen_digit = false;
    let mut leading_zero = false;
    for c in it: label.chars()
        invariant
            it.seq() == label@,
            seen_letter <==> it.index() >= 1,
            seen_digit <==> it.index() >= 2,
            seen_letter ==> row < 26 && label@[0] as int == 65 + row,
            leading_zero ==> it.index() == 2 && label@[1] == '0',
            forall|i: int| 1 <= i < it.index() ==> is_digit(#[trigger] label@[i]),
            !seen_letter ==> value == 0,
            seen_letter ==> value == digits_value(label@.subrange(1, it.index())),
            value <= u32::MAX,
            seen_digit && !leading_zero ==> label@[1] != '0',
    {
        let ghost k = it.index();
        let code: u32 = c as u32;
        proof {
            lemma_char_code(c);
        }
        if !seen_letter {
            if code < 65 || code >= 91 {
                proof {
                    assert forall|r: nat, n: nat| r < 26 && 1 <= n <= u32::MAX implies label@
                        != #[trigger] grid_label(r, n) by {
                        lemma_grid_label_parts(r, n);
                    }
                }
                return None;
            }
            row = (code - 65) as u8;
            seen_letter = true;
            assert(label@.subrange(1, 1) =~= Seq::<char>::empty());
        } else {
            if code < 48 || code > 57 || leading_zero {
                proof {
                    assert forall|r: nat, n: nat| r < 26 && 1 <= n <= u32::MAX implies label@
                        != #[trigger] grid_label(r, n) by {
                        lemma_grid_label_parts(r, n);
                        if label@ == grid_label(r, n) {
                            let tail = label@.skip(1);
                            assert(tail[k - 1] == label@[k]);
                            assert(is_digit(tail[k - 1]));
                            assert(tail[0] == label@[1]);
                        }
                    }
                }
                return None;
            }
            let next: u64 = value * 10 + (code - 48) as u64;
            proof {
                let grown = label@.subrange(1, k + 1);
                assert(grown.drop_last() =~= label@.subrange(1, k));
                assert(grown.last() == label@[k]);
                assert(next == digits_value(grown));
            }
            if next > 0xffff_ffff {
                proof {
                    assert forall|r: nat, n: nat| r < 26 && 1 <= n <= u32::MAX implies label@
                        != #[trigger] grid_label(r, n) by {
                        lemma_grid_label_parts(r, n);
                        if label@ == grid_label(r, n) {
                            let tail = label@.skip(1);
                            assert(tail.take(k) =~= label@.subrange(1, k + 1));
                            lemma_prefix_value(tail, k);
                        }
                    }
                }
                return None;
            }
            if !seen_digit && code == 48 {
                leading_zero = true;
            }
            value = next;
            seen_digit = true;
        }
    }
    let ghost n = label@.len();
    if !seen_digit || value == 0 {
        proof {
            assert forall|r: nat, c: nat| r < 26 && 1 <= c <= u32::MAX implies label@
                != #[trigger] grid_label(r, c) by {
                lemma_grid_label_parts(r, c);
                if label@ == grid_label(r, c) {
                    assert(label@.skip(1) =~= label@.subrange(1, n as int));
                }
            }
        }
        return None;
    }
    proof {
        let tail = label@.skip(1);
        assert(tail =~= label@.subrange(1, n as int));
        assert(is_numeral(tail)) by {
            assert forall|i: int| 0 <= i < tail.len() implies is_digit(#[trigger] tail[i]) by {
                assert(tail[i] == label@[i + 1]);
            }
            assert(tail[0] == label@[1]);
        }
        lemma_numeral_is_decimal(tail);
        assert(label@ =~= grid_label(row as nat, value as nat));
    }
    Some((row, value as u32))
}

/// The letter of row `row`, counted from zero, as a text of one character.
pub fn letter_text(row: u8) -> (text: &'static str)
    requires
        row < MAX_ROWS,
    ensures
        text@ == seq![row_letter(row as nat)],
{
    let letters = "ABCDEFGHIJKLMNOPQRSTUVWXYZ";
    proof {
        reveal_strlit("ABCDEFGHIJKLMNOPQRSTUVWXYZ");
        assert(forall|i: int| 0 <= i < 26 ==> (#[trigger] letters@[i]) as int == 65 + i);
    }
    let text = letters.substring_char(row as usize, row as usize + 1);
    assert(text@ =~= seq![row_letter(row as nat)]);
    text
}

/// The label of the grid seat in row `row` (from zero) and column `col`
/// (from one).
pub fn format_grid_label(row: u8, col: u32) -> (label: String)
    requires
        row < MAX_ROWS,
    ensures
        label@ == grid_label(row as nat, col as nat),
{
    let mut label = String::from_str(letter_text(row));
    push_decimal(&mut label, col as u128);
    assert(label@ =~= grid_label(row as nat, col as nat));
    label
}

impl SeatLayout {
    /// A grid is well formed when each of its rows has a letter.
    pub open spec fn wf(self) -> bool {
        match self {
            SeatLayout::Open => true,
            SeatLayout::Grid { rows, cols } => rows <= MAX_ROWS,
        }
    }

    /// Tells whether the layout is well formed.
    pub fn is_well_formed(&self) -> (b: bool)
        ensures
            b == self.wf(),
    {
        match self {
            SeatLayout::Open => true,
            SeatLayout::Grid { rows, cols } => *rows <= MAX_ROWS,
        }
    }

    /// Whether `label` names a seat of this layout.
    pub open spec fn admits(self, label: Seq<char>) -> bool {
        match self {
            SeatLayout::Open => true,
            SeatLayout::Grid { rows, cols } => grid_labels(rows as nat, cols as nat).contains(
                label,
            ),
        }
    }

    /// Whether the layout is a grid with a seat in row `row` (from zero) and
    /// column `col` (from one).
    pub open spec fn has_seat(self, row: nat, col: nat) -> bool {
        match self {
            SeatLayout::Open => false,
            SeatLayout::Grid { rows, cols } => row < rows && 1 <= col <= cols,
        }
    }

    /// How many seats the layout has, where it fixes their number: as many as
    /// there are labels that it admits.
    pub open spec fn seat_count(self) -> Option<nat> {
        match self {
            SeatLayout::Open => None,
            SeatLayout::Grid { rows, cols } => Some((rows * cols) as nat),
        }
    }

    /// Tells whether `label` names a seat of this layout.
    pub fn admits_label(&self, label: &str) -> (b: bool)
        requires
            self.wf(),
        ensures
            b == self.admits(label@),
    {
        match self {
            SeatLayout::Open => true,
            SeatLayout::Grid { rows, cols } => {
                match parse_grid_label(label) {
                    Some((row, col)) => {
                        proof {
                            if self.admits(label@) {
                                let (r, c) = choose|r: nat, c: nat|
                                    r < *rows && 1 <= c <= *cols && label@ == #[trigger] grid_label(
                                        r,
                                        c,
                                    );
                                lemma_grid_label_injective(r, c, row as nat, col as nat);
                            }
                        }
                        row < *rows && col <= *cols
                    },
                    None => false,
                }
            },
        }
    }

    /// The label of the seat in row `row` (from zero) and column `col` (from
    /// one), where the layout is a grid that has this seat.
    pub fn label_at(&self, row: u8, col: u32) -> (label: Option<String>)
        requires
            self.wf(),
        ensures
            match label {
                Some(label) => {
                    &&& self.has_seat(row as nat, col as nat)
                    &&& label@ == grid_label(row as nat, col as nat)
                    &&& self.admits(label@)
                },
                None => !self.has_seat(row as nat, col as nat),
            },
    {
        match self {
            SeatLayout::Open => None,
            SeatLayout::Grid { rows, cols } => {
                if row < *rows && 1 <= col && col <= *cols {
                    Some(format_grid_label(row, col))
                } else {
                    None
                }
            },
        }
    }

    /// The number of seats, where the layout fixes it.
    pub fn capacity(&self) -> (n: Option<u64>)
        ensures
            match n {
                Some(n) => self.seat_count() == Some(n as nat),
                None => self.seat_count() is None,
            },
    {
        match self {
            SeatLayout::Open => None,
            SeatLayout::Grid { rows, cols } => {
                assert((*rows as u64) * (*cols as u64) <= 0xff * 0xffff_ffff) by (nonlinear_arith)
                    requires
                        *rows <= 0xff,
                        *cols <= 0xffff_ffff,
                ;
                Some((*rows as u64) * (*cols as u64))
            },
        }
    }
}

} // verus!
