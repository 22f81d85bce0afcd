//! The reservation state machine, as mathematics.
//!
//! A [`State`] holds the catalog, the seats taken per show, the ledger of
//! live bookings and the next serial number. [`book`] and [`cancel`] say what
//! each operation returns and what state it leaves. The engine's contracts
//! are stated over these functions.

use vstd::prelude::*;
use crate::catalog::{ShowView, has_show, show_of, is_catalog};
use crate::layout::{SeatLayout, grid_labels, lemma_grid_labels_count};
use crate::numeral::{decimal, is_digit, lemma_decimal_is_numeral};
use crate::text::{
    is_blank, lemma_joined_contains, lemma_joined_distinct, lemma_trimmed_ends,
    lemma_trimmed_stable, lemma_without, trimmed, without,
};

verus! {

/// The serial number of the first booking that an engine makes.
pub const FIRST_SERIAL: u64 = 1001;

/// A live booking.
pub struct BookingView {
    pub id: Seq<char>,
    pub show_id: u64,
    pub customer_name: Seq<char>,
    pub email: Option<Seq<char>>,
    pub seats: Seq<Seq<char>>,
    pub total_amount: nat,
    pub created_at: i64,
}

/// A request to book `seats` of one show. Where `total` is `None` the seats
/// are priced at the show's price each.
pub struct RequestView {
    pub show_id: u64,
    pub customer_name: Seq<char>,
    pub email: Option<Seq<char>>,
    pub seats: Seq<Seq<char>>,
    pub total: Option<nat>,
}

/// Why an operation was refused.
pub enum Refusal {
    ShowNotFound,
    InvalidInput,
    InvalidSeat,
    SeatUnavailable(Seq<char>),
    BookingNotFound,
    IdsExhausted,
}

/// The whole state of a reservation engine. `taken` is total: it gives every
/// show id the labels of its taken seats in the order in which they were
/// taken, the empty list where nothing is booked.
/// `next_serial` is the serial number that the next booking gets.
#[verifier::ext_equal]
pub struct State {
    pub catalog: Seq<ShowView>,
    pub taken: Map<u64, Seq<Seq<char>>>,
    pub ledger: Seq<BookingView>,
    pub next_serial: u64,
}

/// Whether `c` is a decimal digit or one of the letters `a` to `f`.
pub open spec fn is_lower_hex(c: char) -> bool {
    is_digit(c) || 97 <= c as int <= 102
}

/// Whether `s` has the form of a random identifier as the engine draws
/// them: 36 characters, hyphens at the places 8, 13, 18 and 23, and
/// digits or letters from `a` to `f` at the others.
pub open spec fn is_uuid_text(s: Seq<char>) -> bool {
    &&& s.len() == 36
    &&& forall|i: int|
        0 <= i < 36 ==> if i == 8 || i == 13 || i == 18 || i == 23 {
            #[trigger] s[i] == '-'
        } else {
            is_lower_hex(s[i])
        }
}

/// A text of that form: there are such texts.
pub open spec fn some_uuid_text() -> Seq<char> {
    Seq::new(36, |i: int| if i == 8 || i == 13 || i == 18 || i == 23 { '-' } else { '0' })
}

/// The id of the booking with the serial number `serial` and the token
/// `token`: the serial number in decimal, a hyphen, and the token without
/// the white space at its ends. So an id reads the same when it is trimmed.
pub open spec fn booking_id(serial: u64, token: Seq<char>) -> Seq<char> {
    decimal(serial as nat) + seq!['-'] + trimmed(token)
}

/// An id neither begins nor ends with white space: trimmed, it is itself.
pub proof fn lemma_booking_id_trimmed(serial: u64, token: Seq<char>)
    ensures
        trimmed(booking_id(serial, token)) == booking_id(serial, token),
{
    let id = booking_id(serial, token);
    let number = decimal(serial as nat);
    lemma_decimal_is_numeral(serial as nat);
    lemma_trimmed_ends(token);
    assert(id[0] == number[0]);
    assert(is_digit(number[0]));
    if trimmed(token).len() == 0 {
        assert(id.last() == '-');
    } else {
        assert(id.last() == trimmed(token).last());
    }
    lemma_trimmed_stable(id);
}

/// Whether `id` is an id with a serial number below `next`.
pub open spec fn issued_before(id: Seq<char>, next: u64) -> bool {
    exists|serial: u64, token: Seq<char>| serial < next && id == #[trigger] booking_id(serial, token)
}

/// An id names its serial number and its token: two ids are the same text
/// only if they were made of the same serial number and of tokens that are
/// the same once trimmed.
pub proof fn lemma_booking_id_injective(
    serial1: u64,
    token1: Seq<char>,
    serial2: u64,
    token2: Seq<char>,
)
    requires
        booking_id(serial1, token1) == booking_id(serial2, token2),
    ensures
        serial1 == serial2,
        trimmed(token1) == trimmed(token2),
{
    let t1 = trimmed(token1);
    let t2 = trimmed(token2);
    let id = booking_id(serial1, token1);
    let a = decimal(serial1 as nat);
    let b = decimal(serial2 as nat);
    lemma_decimal_is_numeral(serial1 as nat);
    lemma_decimal_is_numeral(serial2 as nat);
    assert(id == a + seq!['-'] + t1);
    assert(id == b + seq!['-'] + t2);
    assert((a + seq!['-'] + t1)[a.len() as int] == '-');
    assert((b + seq!['-'] + t2)[b.len() as int] == '-');
    if a.len() < b.len() {
        assert((b + seq!['-'] + t2)[a.len() as int] == b[a.len() as int]);
        assert(is_digit(b[a.len() as int]));
    } else if b.len() < a.len() {
        assert((a + seq!['-'] + t1)[b.len() as int] == a[b.len() as int]);
        assert(is_digit(a[b.len() as int]));
    } else {
        assert(a =~= b) by {
            assert forall|i: int| 0 <= i < a.len() implies a[i] == b[i] by {
                assert((a + seq!['-'] + t1)[i] == a[i]);
                assert((b + seq!['-'] + t2)[i] == b[i]);
            }
        }
        assert(t1 =~= t2) by {
            assert(id.len() == a.len() + 1 + t1.len());
            assert(id.len() == b.len() + 1 + t2.len());
            assert forall|i: int| 0 <= i < t1.len() implies t1[i] == t2[i] by {
                assert((a + seq!['-'] + t1)[a.len() + 1 + i] == t1[i]);
                assert((b + seq!['-'] + t2)[b.len() + 1 + i] == t2[i]);
            }
        }
    }
}

/// The state of a new engine over `catalog` whose first booking gets the
/// serial number `first_serial`.
pub open spec fn initial_from(catalog: Seq<ShowView>, first_serial: u64) -> State {
    State {
        catalog,
        taken: Map::total(|show_id: u64| Seq::<Seq<char>>::empty()),
        ledger: Seq::empty(),
        next_serial: first_serial,
    }
}

/// The state of a new engine over `catalog`.
pub open spec fn initial(catalog: Seq<ShowView>) -> State {
    initial_from(catalog, FIRST_SERIAL)
}

/// The first of `seats`, in their order, that is in `taken`.
pub open spec fn first_taken(seats: Seq<Seq<char>>, taken: Seq<Seq<char>>) -> Option<Seq<char>>
    decreases seats.len(),
{
    if seats.len() == 0 {
        None
    } else if taken.contains(seats[0]) {
        Some(seats[0])
    } else {
        first_taken(seats.drop_first(), taken)
    }
}

/// Whether the layout of `show` admits every one of `seats`.
pub open spec fn all_admitted(show: ShowView, seats: Seq<Seq<char>>) -> bool {
    forall|i: int| 0 <= i < seats.len() ==> show.layout.admits(#[trigger] seats[i])
}

/// Whether a request is sound in itself: it names a seat and a customer.
pub open spec fn well_formed_request(r: RequestView) -> bool {
    &&& r.seats.len() > 0
    &&& !is_blank(r.customer_name)
}

/// Why the request `r` is refused in state `s`, or `None` where it is granted.
/// The checks come in this order: the show; the request itself; the labels
/// against the show's layout; the seats' availability, where the first
/// taken seat in the request's order is named; that no seat is named
/// twice; the supply of serial numbers.
pub open spec fn refusal(s: State, r: RequestView) -> Option<Refusal> {
    if !has_show(s.catalog, r.show_id) {
        Some(Refusal::ShowNotFound)
    } else if !well_formed_request(r) {
        Some(Refusal::InvalidInput)
    } else if !all_admitted(show_of(s.catalog, r.show_id), r.seats) {
        Some(Refusal::InvalidSeat)
    } else if first_taken(r.seats, s.taken[r.show_id]) is Some {
        Some(Refusal::SeatUnavailable(first_taken(r.seats, s.taken[r.show_id])->0))
    } else if !r.seats.no_duplicates() {
        Some(Refusal::InvalidInput)
    } else if s.next_serial == u64::MAX {
        Some(Refusal::IdsExhausted)
    } else {
        None
    }
}

/// What the seats of `r` cost: the total that the request names, or else the
/// show's price for each seat.
pub open spec fn amount_due(s: State, r: RequestView) -> nat {
    match r.total {
        Some(total) => total,
        None => show_of(s.catalog, r.show_id).price as nat * r.seats.len(),
    }
}

/// The booking that granting `r` in state `s` creates, with `token` in its
/// id and `created_at` for its time.
pub open spec fn receipt(s: State, r: RequestView, token: Seq<char>, created_at: i64) -> BookingView {
    BookingView {
        id: booking_id(s.next_serial, token),
        show_id: r.show_id,
        customer_name: r.customer_name,
        email: r.email,
        seats: r.seats,
        total_amount: amount_due(s, r),
        created_at,
    }
}

/// The seats taken after `seats` of `show_id` were marked as taken: they
/// come after those taken before.
pub open spec fn mark_taken(
    taken: Map<u64, Seq<Seq<char>>>,
    show_id: u64,
    seats: Seq<Seq<char>>,
) -> Map<u64, Seq<Seq<char>>> {
    taken.insert(show_id, taken[show_id] + seats)
}

/// The state after `seats` of `show_id` were marked as free.
pub open spec fn mark_free(
    taken: Map<u64, Seq<Seq<char>>>,
    show_id: u64,
    seats: Seq<Seq<char>>,
) -> Map<u64, Seq<Seq<char>>> {
    taken.insert(show_id, without(taken[show_id], seats))
}

/// The state that granting `r` leaves.
pub open spec fn granted(s: State, r: RequestView, token: Seq<char>, created_at: i64) -> State {
    State {
        catalog: s.catalog,
        taken: mark_taken(s.taken, r.show_id, r.seats),
        ledger: s.ledger.push(receipt(s, r, token, created_at)),
        next_serial: (s.next_serial + 1) as u64,
    }
}

/// A booking attempt: the state it leaves and what it returns. A refused
/// request leaves the state as it was. `token` and `created_at` go into the
/// booking that a granted request creates, and decide nothing.
pub open spec fn book(s: State, r: RequestView, token: Seq<char>, created_at: i64) -> (
    State,
    Result<BookingView, Refusal>,
) {
    match refusal(s, r) {
        Some(why) => (s, Err(why)),
        None => (granted(s, r, token, created_at), Ok(receipt(s, r, token, created_at))),
    }
}

/// Whether the ledger holds a booking with the id `id`.
pub open spec fn is_live(ledger: Seq<BookingView>, id: Seq<char>) -> bool {
    exists|i: int| 0 <= i < ledger.len() && #[trigger] ledger[i].id == id
}

/// Where the ledger holds the booking with the id `id`.
pub open spec fn position_of(ledger: Seq<BookingView>, id: Seq<char>) -> int
    recommends
        is_live(ledger, id),
{
    choose|i: int| 0 <= i < ledger.len() && #[trigger] ledger[i].id == id
}

/// The state that cancelling the booking at position `i` of the ledger leaves.
pub open spec fn cancelled(s: State, i: int) -> State
    recommends
        0 <= i < s.ledger.len(),
{
    State {
        catalog: s.catalog,
        taken: mark_free(s.taken, s.ledger[i].show_id, s.ledger[i].seats),
        ledger: s.ledger.remove(i),
        next_serial: s.next_serial,
    }
}

/// A cancellation: the state it leaves and what it returns.
pub open spec fn cancel(s: State, id: Seq<char>) -> (State, Result<BookingView, Refusal>) {
    if is_live(s.ledger, id) {
        let i = position_of(s.ledger, id);
        (cancelled(s, i), Ok(s.ledger[i]))
    } else {
        (s, Err(Refusal::BookingNotFound))
    }
}

/// Whether the booking `b` holds the seat `label` of the show `show_id`.
pub open spec fn holds(b: BookingView, show_id: u64, label: Seq<char>) -> bool {
    b.show_id == show_id && b.seats.contains(label)
}

/// Whether some live booking holds the seat `label` of the show `show_id`.
pub open spec fn is_held(ledger: Seq<BookingView>, show_id: u64, label: Seq<char>) -> bool {
    exists|i: int| 0 <= i < ledger.len() && holds(#[trigger] ledger[i], show_id, label)
}

/// What holds of every booking in the ledger: its show is in the catalog,
/// its id was issued, and it has seats, none of them twice and each one a
/// seat of the show's layout.
pub open spec fn sound_booking(s: State, b: BookingView) -> bool {
    &&& has_show(s.catalog, b.show_id)
    &&& issued_before(b.id, s.next_serial)
    &&& b.seats.len() > 0
    &&& b.seats.no_duplicates()
    &&& all_admitted(show_of(s.catalog, b.show_id), b.seats)
}

/// The invariant of the state machine. The seats taken are exactly the seats
/// that live bookings hold, each listed once; no seat is held twice; every booking refers to a
/// show of the catalog and holds seats of that show; no two bookings share
/// an id.
pub open spec fn consistent(s: State) -> bool {
    &&& is_catalog(s.catalog)
    &&& forall|show_id: u64| #[trigger] s.taken.dom().contains(show_id)
    &&& forall|show_id: u64| #[trigger] s.taken[show_id].no_duplicates()
    &&& forall|i: int| 0 <= i < s.ledger.len() ==> sound_booking(s, #[trigger] s.ledger[i])
    &&& forall|i: int, j: int|
        0 <= i < j < s.ledger.len() ==> #[trigger] s.ledger[i].id != #[trigger] s.ledger[j].id
    &&& forall|i: int, j: int, show_id: u64, label: Seq<char>|
        0 <= i < j < s.ledger.len() && #[trigger] holds(s.ledger[i], show_id, label) ==> !#[trigger] holds(
            s.ledger[j],
            show_id,
            label,
        )
    &&& forall|show_id: u64, label: Seq<char>|
        #![trigger s.taken[show_id].contains(label)]
        #![trigger is_held(s.ledger, show_id, label)]
        s.taken[show_id].contains(label) <==> is_held(s.ledger, show_id, label)
}

/// Whether `label` names a seat of the show `show_id`: the show is in the
/// catalog and its layout admits the label.
pub open spec fn is_seat(s: State, show_id: u64, label: Seq<char>) -> bool {
    has_show(s.catalog, show_id) && show_of(s.catalog, show_id).layout.admits(label)
}

/// How many seats of the show `show_id` are still free, where the show is in
/// the catalog and its layout fixes the number of its seats.
pub open spec fn seats_left(s: State, show_id: u64) -> Option<nat> {
    if has_show(s.catalog, show_id) {
        match show_of(s.catalog, show_id).layout.seat_count() {
            Some(count) => Some((count - s.taken[show_id].len()) as nat),
            None => None,
        }
    } else {
        None
    }
}

/// How many seats are still free in all of `shows` together; a show with
/// an open layout counts for nothing.
pub open spec fn seats_left_in(s: State, shows: Seq<ShowView>) -> nat
    decreases shows.len(),
{
    if shows.len() == 0 {
        0
    } else {
        seats_left_in(s, shows.drop_last()) + match seats_left(s, shows.last().id) {
            Some(left) => left,
            None => 0,
        }
    }
}

/// The seats left in the first `k` shows are no more than those in all.
pub proof fn lemma_seats_left_grows(s: State, shows: Seq<ShowView>, k: int)
    requires
        0 <= k <= shows.len(),
    ensures
        seats_left_in(s, shows.take(k)) <= seats_left_in(s, shows),
    decreases shows.len(),
{
    if k == shows.len() {
        assert(shows.take(k) =~= shows);
    } else {
        assert(shows.drop_last().take(k) =~= shows.take(k));
        lemma_seats_left_grows(s, shows.drop_last(), k);
    }
}

/// The sum of the totals of the bookings in the ledger.
pub open spec fn revenue(ledger: Seq<BookingView>) -> nat
    decreases ledger.len(),
{
    if ledger.len() == 0 {
        0
    } else {
        revenue(ledger.drop_last()) + ledger.last().total_amount
    }
}

/// The revenue of the first `k` bookings is no more than that of all.
pub proof fn lemma_revenue_grows(ledger: Seq<BookingView>, k: int)
    requires
        0 <= k <= ledger.len(),
    ensures
        revenue(ledger.take(k)) <= revenue(ledger),
    decreases ledger.len(),
{
    if k == ledger.len() {
        assert(ledger.take(k) =~= ledger);
    } else {
        assert(ledger.drop_last().take(k) =~= ledger.take(k));
        lemma_revenue_grows(ledger.drop_last(), k);
    }
}

/// In a consistent state the seats taken for a show are seats of its layout:
/// where the layout fixes the number of its seats, no more are taken than
/// there are.
pub proof fn lemma_taken_within_layout(s: State, show_id: u64)
    requires
        consistent(s),
        has_show(s.catalog, show_id),
    ensures
        forall|label: Seq<char>| #[trigger]
            s.taken[show_id].contains(label) ==> show_of(s.catalog, show_id).layout.admits(label),
        show_of(s.catalog, show_id).layout.seat_count() matches Some(count)
            ==> s.taken[show_id].len() <= count,
{
    let layout = show_of(s.catalog, show_id).layout;
    assert forall|label: Seq<char>| #[trigger] s.taken[show_id].contains(label) implies layout.admits(
        label,
    ) by {
        assert(is_held(s.ledger, show_id, label));
        let i = choose|i: int| 0 <= i < s.ledger.len() && holds(#[trigger] s.ledger[i], show_id, label);
        assert(sound_booking(s, s.ledger[i]));
        let k = s.ledger[i].seats.index_of(label);
        assert(s.ledger[i].seats[k] == label);
    }
    let i = choose|i: int| 0 <= i < s.catalog.len() && #[trigger] s.catalog[i].id == show_id;
    assert(s.catalog[i].layout.wf());
    match layout {
        SeatLayout::Open => {},
        SeatLayout::Grid { rows, cols } => {
            let all = grid_labels(rows as nat, cols as nat);
            lemma_grid_labels_count(rows as nat, cols as nat);
            assert(s.taken[show_id].no_duplicates());
            s.taken[show_id].unique_seq_to_set();
            assert(s.taken[show_id].to_set().subset_of(all));
            vstd::set_lib::lemma_len_subset(s.taken[show_id].to_set(), all);
        },
    }
}

/// In a consistent state, the booking found under an id is the one that
/// [`position_of`] names.
pub proof fn lemma_position_of(s: State, i: int)
    requires
        consistent(s),
        0 <= i < s.ledger.len(),
    ensures
        is_live(s.ledger, s.ledger[i].id),
        position_of(s.ledger, s.ledger[i].id) == i,
{
    let id = s.ledger[i].id;
    let j = position_of(s.ledger, id);
    if i < j {
        assert(s.ledger[i].id != s.ledger[j].id);
    } else if j < i {
        assert(s.ledger[j].id != s.ledger[i].id);
    }
}

/// [`first_taken`] is `None` exactly when none of the seats is taken, and
/// otherwise names a taken seat before which none is taken.
pub proof fn lemma_first_taken(seats: Seq<Seq<char>>, taken: Seq<Seq<char>>)
    ensures
        match first_taken(seats, taken) {
            None => forall|i: int| 0 <= i < seats.len() ==> !taken.contains(#[trigger] seats[i]),
            Some(label) => exists|k: int|
                {
                    &&& 0 <= k < seats.len()
                    &&& #[trigger] seats[k] == label
                    &&& taken.contains(label)
                    &&& forall|i: int| 0 <= i < k ==> !taken.contains(#[trigger] seats[i])
                },
        },
    decreases seats.len(),
{
    if seats.len() == 0 {
    } else if taken.contains(seats[0]) {
        assert(seats[0] == seats[0]);
    } else {
        let rest = seats.drop_first();
        lemma_first_taken(rest, taken);
        match first_taken(rest, taken) {
            None => {
                assert forall|i: int| 0 <= i < seats.len() implies !taken.contains(
                    #[trigger] seats[i],
                ) by {
                    if i > 0 {
                        assert(rest[i - 1] == seats[i]);
                    }
                }
            },
            Some(label) => {
                let k = choose|k: int|
                    {
                        &&& 0 <= k < rest.len()
                        &&& #[trigger] rest[k] == label
                        &&& taken.contains(label)
                        &&& forall|i: int| 0 <= i < k ==> !taken.contains(#[trigger] rest[i])
                    };
                assert(seats[k + 1] == label);
                assert forall|i: int| 0 <= i < k + 1 implies !taken.contains(
                    #[trigger] seats[i],
                ) by {
                    if i > 0 {
                        assert(rest[i - 1] == seats[i]);
                    }
                }
            },
        }
    }
}

/// A new engine's state is consistent.
pub proof fn lemma_initial_consistent(catalog: Seq<ShowView>, first_serial: u64)
    requires
        is_catalog(catalog),
    ensures
        consistent(initial_from(catalog, first_serial)),
{
    let s = initial_from(catalog, first_serial);
    assert forall|show_id: u64, label: Seq<char>|
        s.taken[show_id].contains(label) <==> is_held(s.ledger, show_id, label) by {}
}

/// Issuing more serial numbers keeps the ids issued before.
pub proof fn lemma_issued_before_more(id: Seq<char>, next: u64, later: u64)
    requires
        issued_before(id, next),
        next <= later,
    ensures
        issued_before(id, later),
{
    let (serial, token) = choose|serial: u64, token: Seq<char>|
        serial < next && id == #[trigger] booking_id(serial, token);
    assert(serial < later && id == booking_id(serial, token));
}

/// An id issued before the serial number `next` is not an id with that
/// serial number.
pub proof fn lemma_issued_before_differs(id: Seq<char>, next: u64, token: Seq<char>)
    requires
        issued_before(id, next),
    ensures
        id != booking_id(next, token),
{
    let (serial, old_token) = choose|serial: u64, old_token: Seq<char>|
        serial < next && id == #[trigger] booking_id(serial, old_token);
    if id == booking_id(next, token) {
        lemma_booking_id_injective(serial, old_token, next, token);
    }
}

/// Booking keeps the state consistent.
pub proof fn lemma_book_consistent(s: State, r: RequestView, token: Seq<char>, created_at: i64)
    requires
        consistent(s),
    ensures
        consistent(book(s, r, token, created_at).0),
{
    if refusal(s, r) is None {
        let t = granted(s, r, token, created_at);
        let b = receipt(s, r, token, created_at);
        let n = s.ledger.len() as int;
        let before = s.taken[r.show_id];
        lemma_first_taken(r.seats, before);
        assert(t.ledger[n] == b);
        assert(t.taken[r.show_id] == before + r.seats);
        assert(before.no_duplicates());
        lemma_joined_distinct(before, r.seats);
        assert forall|show_id: u64| #[trigger] t.taken[show_id].no_duplicates() by {
            if show_id != r.show_id {
                assert(s.taken[show_id].no_duplicates());
            }
        }
        assert forall|label: Seq<char>| #[trigger]
            t.taken[r.show_id].contains(label) <==> before.contains(label) || r.seats.contains(
                label,
            ) by {
            lemma_joined_contains(before, r.seats, label);
        }
        assert forall|i: int| 0 <= i < t.ledger.len() implies sound_booking(
            t,
            #[trigger] t.ledger[i],
        ) by {
            if i < n {
                assert(sound_booking(s, s.ledger[i]));
                lemma_issued_before_more(s.ledger[i].id, s.next_serial, t.next_serial);
            } else {
                assert(b.id == booking_id(s.next_serial, token));
            }
        }
        assert forall|i: int, j: int| 0 <= i < j < t.ledger.len() implies #[trigger] t.ledger[i].id
            != #[trigger] t.ledger[j].id by {
            assert(sound_booking(s, s.ledger[i]));
            if j == n {
                lemma_issued_before_differs(s.ledger[i].id, s.next_serial, token);
            }
        }
        assert forall|i: int, j: int, show_id: u64, label: Seq<char>|
            0 <= i < j < t.ledger.len() && #[trigger] holds(
                t.ledger[i],
                show_id,
                label,
            ) implies !#[trigger] holds(t.ledger[j], show_id, label) by {
            if j == n && holds(b, show_id, label) {
                assert(holds(s.ledger[i], show_id, label));
                assert(is_held(s.ledger, show_id, label));
                assert(s.taken[show_id].contains(label));
                let k = r.seats.index_of(label);
                assert(r.seats[k] == label);
            }
        }
        assert forall|show_id: u64, label: Seq<char>|
            t.taken[show_id].contains(label) <==> is_held(t.ledger, show_id, label) by {
            if is_held(t.ledger, show_id, label) {
                let i = choose|i: int|
                    0 <= i < t.ledger.len() && holds(#[trigger] t.ledger[i], show_id, label);
                if i < n {
                    assert(holds(s.ledger[i], show_id, label));
                    assert(is_held(s.ledger, show_id, label));
                }
            }
            if t.taken[show_id].contains(label) {
                if s.taken[show_id].contains(label) {
                    assert(is_held(s.ledger, show_id, label));
                    let i = choose|i: int|
                        0 <= i < s.ledger.len() && holds(#[trigger] s.ledger[i], show_id, label);
                    assert(holds(t.ledger[i], show_id, label));
                } else {
                    assert(holds(t.ledger[n], show_id, label));
                }
            }
        }
    }
}

/// Cancelling keeps the state consistent.
pub proof fn lemma_cancel_consistent(s: State, id: Seq<char>)
    requires
        consistent(s),
    ensures
        consistent(cancel(s, id).0),
{
    if is_live(s.ledger, id) {
        let k = position_of(s.ledger, id);
        let t = cancelled(s, k);
        let gone = s.ledger[k];
        let before = s.taken[gone.show_id];
        assert(t.taken[gone.show_id] == without(before, gone.seats));
        assert(before.no_duplicates());
        lemma_without(before, gone.seats);
        assert forall|show_id: u64| #[trigger] t.taken[show_id].no_duplicates() by {
            if show_id != gone.show_id {
                assert(s.taken[show_id].no_duplicates());
            }
        }
        assert forall|i: int| 0 <= i < t.ledger.len() implies sound_booking(
            t,
            #[trigger] t.ledger[i],
        ) by {
            let i0 = if i < k { i } else { i + 1 };
            assert(t.ledger[i] == s.ledger[i0]);
            assert(sound_booking(s, s.ledger[i0]));
        }
        assert forall|i: int, j: int| 0 <= i < j < t.ledger.len() implies #[trigger] t.ledger[i].id
            != #[trigger] t.ledger[j].id by {
            let i0 = if i < k { i } else { i + 1 };
            let j0 = if j < k { j } else { j + 1 };
            assert(s.ledger[i0].id != s.ledger[j0].id);
        }
        assert forall|i: int, j: int, show_id: u64, label: Seq<char>|
            0 <= i < j < t.ledger.len() && #[trigger] holds(
                t.ledger[i],
                show_id,
                label,
            ) implies !#[trigger] holds(t.ledger[j], show_id, label) by {
            let i0 = if i < k { i } else { i + 1 };
            let j0 = if j < k { j } else { j + 1 };
            assert(holds(s.ledger[i0], show_id, label));
            assert(!holds(s.ledger[j0], show_id, label));
        }
        assert forall|show_id: u64, label: Seq<char>|
            t.taken[show_id].contains(label) <==> is_held(t.ledger, show_id, label) by {
            if is_held(t.ledger, show_id, label) {
                let i = choose|i: int|
                    0 <= i < t.ledger.len() && holds(#[trigger] t.ledger[i], show_id, label);
                let i0 = if i < k { i } else { i + 1 };
                assert(holds(s.ledger[i0], show_id, label));
                assert(is_held(s.ledger, show_id, label));
                if holds(gone, show_id, label) {
                    if i0 < k {
                        assert(!holds(s.ledger[k], show_id, label));
                    } else {
                        assert(!holds(s.ledger[i0], show_id, label));
                    }
                }
            }
            if t.taken[show_id].contains(label) {
                assert(s.taken[show_id].contains(label));
                assert(is_held(s.ledger, show_id, label));
                let i0 = choose|i: int|
                    0 <= i < s.ledger.len() && holds(#[trigger] s.ledger[i], show_id, label);
                assert(i0 != k);
                let i = if i0 < k { i0 } else { i0 - 1 };
                assert(t.ledger[i] == s.ledger[i0]);
                assert(holds(t.ledger[i], show_id, label));
            }
        }
    }
}

} // verus!
