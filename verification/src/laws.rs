//! What the reservation state machine guarantees, proved once for all
//! states and all sequences of operations.
//!
//! The engine's operations are calls on `&mut Engine`: however many callers
//! there are, the calls reach the engine one after another, and a run of the
//! engine is a sequence of operations. The laws below speak of such
//! sequences.

use vstd::prelude::*;
use crate::catalog::{has_show, show_of};
use crate::session::{EventView, SessionView, cancelled_text, desk_request, react};
use crate::text::{lemma_joined_contains, lemma_without, lemma_without_added, trimmed, without};
use crate::model::{
    BookingView, Refusal, RequestView, State, all_admitted, book, booking_id, cancel, cancelled,
    consistent, first_taken, granted, holds, is_held, is_live, lemma_book_consistent,
    lemma_booking_id_injective, lemma_booking_id_trimmed, lemma_cancel_consistent, lemma_first_taken, lemma_position_of,
    lemma_taken_within_layout, position_of, receipt, refusal, seats_left, sound_booking,
    well_formed_request,
};

verus! {

/// One call on the engine.
pub enum Op {
    /// A booking attempt, with the token and the time that would go into
    /// the booking.
    Book(RequestView, Seq<char>, i64),
    /// The cancellation of the booking with this id.
    Cancel(Seq<char>),
}

/// The state that `op` leaves when it is applied in state `s`.
pub open spec fn step(s: State, op: Op) -> State {
    match op {
        Op::Book(r, token, created_at) => book(s, r, token, created_at).0,
        Op::Cancel(id) => cancel(s, id).0,
    }
}

/// What `op` returns when it is applied in state `s`.
pub open spec fn answer(s: State, op: Op) -> Result<BookingView, Refusal> {
    match op {
        Op::Book(r, token, created_at) => book(s, r, token, created_at).1,
        Op::Cancel(id) => cancel(s, id).1,
    }
}

/// The state after the operations `ops`, applied in order from state `s`.
pub open spec fn run(s: State, ops: Seq<Op>) -> State
    decreases ops.len(),
{
    if ops.len() == 0 {
        s
    } else {
        step(run(s, ops.drop_last()), ops.last())
    }
}

/// The state in which the operation at position `k` of `ops` is applied.
pub open spec fn state_at(s: State, ops: Seq<Op>, k: int) -> State {
    run(s, ops.take(k))
}

/// Whether the operation at position `k` of `ops` is a booking attempt that
/// was granted.
pub open spec fn granted_at(s: State, ops: Seq<Op>, k: int) -> bool {
    ops[k] is Book && answer(state_at(s, ops, k), ops[k]) is Ok
}

/// The state at position `k + 1` is the one that the operation at `k` leaves.
pub proof fn lemma_state_at_next(s: State, ops: Seq<Op>, k: int)
    requires
        0 <= k < ops.len(),
    ensures
        state_at(s, ops, 0) == s,
        state_at(s, ops, k + 1) == step(state_at(s, ops, k), ops[k]),
{
    assert(ops.take(k + 1).drop_last() =~= ops.take(k));
    assert(ops.take(0) =~= Seq::<Op>::empty());
}

/// Every state that a run reaches from a consistent state is consistent: the
/// seats taken are those that live bookings hold, no seat is held twice,
/// every booking refers to a show of the catalog, and no two share an id.
pub proof fn lemma_run_consistent(s: State, ops: Seq<Op>)
    requires
        consistent(s),
    ensures
        consistent(run(s, ops)),
    decreases ops.len(),
{
    if ops.len() > 0 {
        lemma_run_consistent(s, ops.drop_last());
        let before = run(s, ops.drop_last());
        match ops.last() {
            Op::Book(r, token, created_at) => lemma_book_consistent(before, r, token, created_at),
            Op::Cancel(id) => lemma_cancel_consistent(before, id),
        }
    }
}

/// A refused operation changes nothing: a booking request that cannot be
/// granted whole takes no seat at all, and a cancellation that finds no
/// booking frees none.
pub proof fn lemma_refused_changes_nothing(s: State, op: Op)
    ensures
        answer(s, op) is Err ==> step(s, op) == s,
{
}

/// A granted request names no seat twice and takes every seat it names,
/// none of which was taken before, and takes no other seat. Its seats come
/// after those taken before, in the request's order.
pub proof fn lemma_granted_takes_its_seats(
    s: State,
    r: RequestView,
    token: Seq<char>,
    created_at: i64,
)
    requires
        consistent(s),
        book(s, r, token, created_at).1 is Ok,
    ensures
        book(s, r, token, created_at).1 == Ok::<BookingView, Refusal>(
            receipt(s, r, token, created_at),
        ),
        has_show(s.catalog, r.show_id),
        well_formed_request(r),
        all_admitted(show_of(s.catalog, r.show_id), r.seats),
        r.seats.no_duplicates(),
        forall|label: Seq<char>|
            r.seats.contains(label) ==> !#[trigger] s.taken[r.show_id].contains(label),
        book(s, r, token, created_at).0.taken[r.show_id] == s.taken[r.show_id] + r.seats,
        forall|show_id: u64, label: Seq<char>|
            #[trigger] book(s, r, token, created_at).0.taken[show_id].contains(label)
                <==> s.taken[show_id].contains(label) || (show_id == r.show_id
                && r.seats.contains(label)),
{
    lemma_first_taken(r.seats, s.taken[r.show_id]);
    assert forall|label: Seq<char>| r.seats.contains(label) implies !#[trigger] s.taken[r.show_id].contains(
        label,
    ) by {
        let k = r.seats.index_of(label);
        assert(r.seats[k] == label);
    }
    assert forall|show_id: u64, label: Seq<char>|
        #[trigger] book(s, r, token, created_at).0.taken[show_id].contains(label)
            <==> s.taken[show_id].contains(label) || (show_id == r.show_id && r.seats.contains(
            label,
        )) by {
        if show_id == r.show_id {
            lemma_joined_contains(s.taken[r.show_id], r.seats, label);
        }
    }
}

/// A request that names a taken seat is refused and changes nothing. Where
/// the request names a customer and its labels fit the show's layout, the
/// refusal is `SeatUnavailable` and names a taken seat of the request: the
/// first. That holds also where the request names a seat twice.
pub proof fn lemma_taken_seat_is_refused(
    s: State,
    r: RequestView,
    token: Seq<char>,
    created_at: i64,
    label: Seq<char>,
)
    requires
        r.seats.contains(label),
        s.taken[r.show_id].contains(label),
    ensures
        book(s, r, token, created_at).1 is Err,
        book(s, r, token, created_at).0 == s,
        has_show(s.catalog, r.show_id) && well_formed_request(r) && all_admitted(
            show_of(s.catalog, r.show_id),
            r.seats,
        ) ==> {
            &&& book(s, r, token, created_at).1 matches Err(Refusal::SeatUnavailable(named))
            &&& r.seats.contains(named)
            &&& s.taken[r.show_id].contains(named)
            &&& named == first_taken(r.seats, s.taken[r.show_id])->0
        },
{
    lemma_first_taken(r.seats, s.taken[r.show_id]);
    let k = r.seats.index_of(label);
    assert(r.seats[k] == label);
}

/// A booking stays in the ledger through every operation but its own
/// cancellation.
pub proof fn lemma_booking_stays(s: State, ops: Seq<Op>, b: BookingView)
    requires
        consistent(s),
        s.ledger.contains(b),
        forall|k: int| 0 <= k < ops.len() ==> #[trigger] ops[k] != Op::Cancel(b.id),
    ensures
        run(s, ops).ledger.contains(b),
    decreases ops.len(),
{
    if ops.len() > 0 {
        let earlier = ops.drop_last();
        assert forall|k: int| 0 <= k < earlier.len() implies #[trigger] earlier[k] != Op::Cancel(
            b.id,
        ) by {
            assert(earlier[k] == ops[k]);
        }
        lemma_booking_stays(s, earlier, b);
        lemma_run_consistent(s, earlier);
        let before = run(s, earlier);
        let m = before.ledger.index_of(b);
        assert(before.ledger[m] == b);
        assert(ops[ops.len() - 1] != Op::Cancel(b.id));
        match ops.last() {
            Op::Book(r, token, created_at) => {
                if refusal(before, r) is None {
                    assert(granted(before, r, token, created_at).ledger[m] == b);
                }
            },
            Op::Cancel(id) => {
                if is_live(before.ledger, id) {
                    let p = position_of(before.ledger, id);
                    assert(before.ledger[p].id == id);
                    assert(p != m);
                    let after = cancelled(before, p);
                    if m < p {
                        assert(after.ledger[m] == b);
                    } else {
                        assert(after.ledger[m - 1] == b);
                    }
                }
            },
        }
    }
}

/// No seat is granted twice. Take any run from a consistent state. If the
/// request at position `i` was granted, and the request at a later position
/// `j` is for the same show and names one of the same seats, and the first
/// booking was not cancelled in between, then the request at `j` is refused
/// and changes nothing; where it names a customer and fits the layout, the
/// refusal is `SeatUnavailable`, also where it names a seat twice.
pub proof fn lemma_no_double_booking(s: State, ops: Seq<Op>, i: int, j: int, label: Seq<char>)
    requires
        consistent(s),
        0 <= i < j < ops.len(),
        granted_at(s, ops, i),
        ops[j] is Book,
        ops[i]->Book_0.show_id == ops[j]->Book_0.show_id,
        ops[i]->Book_0.seats.contains(label),
        ops[j]->Book_0.seats.contains(label),
        forall|k: int| i < k < j ==> #[trigger] ops[k] != Op::Cancel(answer(state_at(s, ops, i), ops[i])->Ok_0.id),
    ensures
        answer(state_at(s, ops, j), ops[j]) is Err,
        state_at(s, ops, j + 1) == state_at(s, ops, j),
        well_formed_request(ops[j]->Book_0) && all_admitted(
            show_of(s.catalog, ops[j]->Book_0.show_id),
            ops[j]->Book_0.seats,
        ) ==> {
            &&& answer(state_at(s, ops, j), ops[j]) matches Err(Refusal::SeatUnavailable(named))
            &&& ops[j]->Book_0.seats.contains(named)
        },
{
    let si = state_at(s, ops, i);
    let ri = ops[i]->Book_0;
    let ki = ops[i]->Book_1;
    let ti = ops[i]->Book_2;
    let rj = ops[j]->Book_0;
    let kj = ops[j]->Book_1;
    let tj = ops[j]->Book_2;
    lemma_run_consistent(s, ops.take(i));
    lemma_state_at_next(s, ops, i);
    let b = receipt(si, ri, ki, ti);
    let s1 = state_at(s, ops, i + 1);
    assert(s1 == granted(si, ri, ki, ti));
    assert(s1.ledger[si.ledger.len() as int] == b);
    lemma_book_consistent(si, ri, ki, ti);
    // the operations strictly between i and j
    let between = ops.subrange(i + 1, j);
    assert forall|k: int| 0 <= k < between.len() implies #[trigger] between[k] != Op::Cancel(
        b.id,
    ) by {
        assert(between[k] == ops[i + 1 + k]);
    }
    lemma_booking_stays(s1, between, b);
    lemma_run_split(s, ops.take(j), i + 1);
    assert(ops.take(j).take(i + 1) =~= ops.take(i + 1));
    assert(ops.take(j).skip(i + 1) =~= between);
    let sj = state_at(s, ops, j);
    assert(sj == run(s1, between));
    lemma_run_consistent(s, ops.take(j));
    let m = sj.ledger.index_of(b);
    assert(holds(sj.ledger[m], rj.show_id, label));
    assert(is_held(sj.ledger, rj.show_id, label));
    lemma_taken_seat_is_refused(sj, rj, kj, tj, label);
    lemma_state_at_next(s, ops, j);
    lemma_catalog_fixed(s, ops.take(j));
    // the show is in the catalog, since the first request was granted
    assert(has_show(si.catalog, ri.show_id));
    lemma_catalog_fixed(s, ops.take(i));
}

/// A run in two parts: the state after all of `ops` is the state after those
/// from position `k` on, applied from the state after the first `k`.
pub proof fn lemma_run_split(s: State, ops: Seq<Op>, k: int)
    requires
        0 <= k <= ops.len(),
    ensures
        run(s, ops) == run(run(s, ops.take(k)), ops.skip(k)),
    decreases ops.len() - k,
{
    if k == ops.len() {
        assert(ops.take(k) =~= ops);
        assert(ops.skip(k) =~= Seq::<Op>::empty());
    } else {
        let rest = ops.skip(k);
        assert(rest.drop_last() =~= ops.drop_last().skip(k));
        assert(ops.drop_last().take(k) =~= ops.take(k));
        lemma_run_split(s, ops.drop_last(), k);
    }
}

/// No operation changes the catalog.
pub proof fn lemma_catalog_fixed(s: State, ops: Seq<Op>)
    ensures
        run(s, ops).catalog == s.catalog,
    decreases ops.len(),
{
    if ops.len() > 0 {
        lemma_catalog_fixed(s, ops.drop_last());
    }
}

/// Booking and then cancelling that booking gives back the seat map and the
/// ledger as they were: each seat of the booking is free again, and no live
/// booking has its id. Only the supply of ids has moved on.
pub proof fn lemma_book_then_cancel(s: State, r: RequestView, token: Seq<char>, created_at: i64)
    requires
        consistent(s),
        book(s, r, token, created_at).1 is Ok,
    ensures
        ({
            let booked = book(s, r, token, created_at);
            let undone = cancel(booked.0, booked.1->Ok_0.id);
            &&& undone.1 == booked.1
            &&& undone.0.taken == s.taken
            &&& undone.0.ledger == s.ledger
            &&& undone.0.catalog == s.catalog
            &&& !is_live(undone.0.ledger, booked.1->Ok_0.id)
            &&& forall|label: Seq<char>|
                r.seats.contains(label) ==> !#[trigger] undone.0.taken[r.show_id].contains(label)
        }),
{
    let s1 = granted(s, r, token, created_at);
    let b = receipt(s, r, token, created_at);
    let n = s.ledger.len() as int;
    lemma_granted_takes_its_seats(s, r, token, created_at);
    lemma_book_consistent(s, r, token, created_at);
    assert(s1.ledger[n] == b);
    lemma_position_of(s1, n);
    let s2 = cancelled(s1, n);
    assert(s2.ledger =~= s.ledger);
    assert(s2.taken =~= s.taken) by {
        assert(s.taken.dom().contains(r.show_id));
        assert forall|i: int| 0 <= i < r.seats.len() implies !s.taken[r.show_id].contains(
            #[trigger] r.seats[i],
        ) by {
            assert(r.seats.contains(r.seats[i]));
        }
        lemma_without_added(s.taken[r.show_id], r.seats);
        assert(s2.taken[r.show_id] == s.taken[r.show_id]);
    }
    if is_live(s.ledger, b.id) {
        let k = position_of(s.ledger, b.id);
        assert(s1.ledger[k].id == s1.ledger[n].id);
    }
}

/// A cancellation frees exactly the seats that the cancelled booking held
/// and removes that booking alone: every other booking stays in the ledger,
/// in its order, and keeps its seats, which stay in the order in which they
/// were taken.
pub proof fn lemma_cancel_frees_its_seats(s: State, id: Seq<char>)
    requires
        consistent(s),
        cancel(s, id).1 is Ok,
    ensures
        ({
            let gone = cancel(s, id).1->Ok_0;
            let after = cancel(s, id).0;
            &&& gone.id == id
            &&& s.ledger.contains(gone)
            &&& after.ledger == s.ledger.remove(s.ledger.index_of(gone))
            &&& after.taken[gone.show_id] == without(s.taken[gone.show_id], gone.seats)
            &&& forall|b: BookingView| #[trigger]
                after.ledger.contains(b) <==> s.ledger.contains(b) && b != gone
            &&& forall|show_id: u64, label: Seq<char>| #[trigger]
                after.taken[show_id].contains(label) <==> s.taken[show_id].contains(label)
                    && !holds(gone, show_id, label)
        }),
{
    let k = position_of(s.ledger, id);
    let gone = s.ledger[k];
    let after = cancelled(s, k);
    let m = s.ledger.index_of(gone);
    assert(s.ledger[m] == gone);
    if m < k {
        assert(s.ledger[m].id != s.ledger[k].id);
    } else if k < m {
        assert(s.ledger[k].id != s.ledger[m].id);
    }
    lemma_without(s.taken[gone.show_id], gone.seats);
    assert(after.taken[gone.show_id] == without(s.taken[gone.show_id], gone.seats));
    assert forall|b: BookingView| #[trigger]
        after.ledger.contains(b) <==> s.ledger.contains(b) && b != gone by {
        if after.ledger.contains(b) {
            let i = after.ledger.index_of(b);
            let i0 = if i < k { i } else { i + 1 };
            assert(after.ledger[i] == s.ledger[i0]);
            if i0 < k {
                assert(s.ledger[i0].id != s.ledger[k].id);
            } else {
                assert(s.ledger[k].id != s.ledger[i0].id);
            }
        }
        if s.ledger.contains(b) && b != gone {
            let i0 = s.ledger.index_of(b);
            let i = if i0 < k { i0 } else { i0 - 1 };
            assert(after.ledger[i] == s.ledger[i0]);
        }
    }
}

/// Where a show has a fixed number of seats, a granted booking leaves as
/// many fewer seats free as it names.
pub proof fn lemma_booking_uses_its_seats(
    s: State,
    r: RequestView,
    token: Seq<char>,
    created_at: i64,
)
    requires
        consistent(s),
        book(s, r, token, created_at).1 is Ok,
        seats_left(s, r.show_id) is Some,
    ensures
        seats_left(s, r.show_id)->0 >= r.seats.len(),
        seats_left(book(s, r, token, created_at).0, r.show_id) == Some(
            (seats_left(s, r.show_id)->0 - r.seats.len()) as nat,
        ),
{
    let after = granted(s, r, token, created_at);
    lemma_book_consistent(s, r, token, created_at);
    lemma_taken_within_layout(after, r.show_id);
    assert(after.taken[r.show_id] == s.taken[r.show_id] + r.seats);
}

/// Where a show has a fixed number of seats, a cancellation leaves as many
/// more seats free as the cancelled booking held.
pub proof fn lemma_cancel_gives_back_its_seats(s: State, id: Seq<char>)
    requires
        consistent(s),
        cancel(s, id).1 is Ok,
        seats_left(s, cancel(s, id).1->Ok_0.show_id) is Some,
    ensures
        ({
            let gone = cancel(s, id).1->Ok_0;
            seats_left(cancel(s, id).0, gone.show_id) == Some(
                seats_left(s, gone.show_id)->0 + gone.seats.len(),
            )
        }),
{
    let k = position_of(s.ledger, id);
    let gone = s.ledger[k];
    let after = cancelled(s, k);
    let taken = s.taken[gone.show_id];
    let left = without(taken, gone.seats);
    assert(sound_booking(s, gone));
    lemma_cancel_consistent(s, id);
    lemma_taken_within_layout(s, gone.show_id);
    assert(after.taken[gone.show_id] == left);
    // count the three lists as sets: none of them holds a label twice
    assert(taken.no_duplicates());
    lemma_without(taken, gone.seats);
    taken.unique_seq_to_set();
    left.unique_seq_to_set();
    gone.seats.unique_seq_to_set();
    vstd::seq_lib::seq_to_set_is_finite(taken);
    vstd::seq_lib::seq_to_set_is_finite(gone.seats);
    let held = gone.seats.to_set();
    assert(held.subset_of(taken.to_set())) by {
        assert forall|label: Seq<char>| held.contains(label) implies taken.to_set().contains(
            label,
        ) by {
            assert(holds(s.ledger[k], gone.show_id, label));
            assert(is_held(s.ledger, gone.show_id, label));
            assert(s.taken[gone.show_id].contains(label));
        }
    }
    assert(left.to_set() =~= taken.to_set().difference(held));
    vstd::set_lib::lemma_set_difference_len(taken.to_set(), held);
    assert(taken.to_set().intersect(held) =~= held);
}

/// A booking desk changes the engine by at most one operation of the
/// engine: whatever the desk is told, the engine's state afterwards is the
/// state before, or the state that one booking attempt or one cancellation
/// leaves. So every law of runs holds of engines that desks work on.
pub proof fn lemma_desk_takes_engine_steps(
    ui: SessionView,
    s: State,
    event: EventView,
    token: Seq<char>,
    now: i64,
)
    ensures
        react(ui, s, event, token, now).1 == s || exists|op: Op| #[trigger]
            step(s, op) == react(ui, s, event, token, now).1,
        consistent(s) ==> consistent(react(ui, s, event, token, now).1),
{
    let after = react(ui, s, event, token, now).1;
    match event {
        EventView::ConfirmBooking => {
            if ui.selected_show is Some && ui.selected_seat is Some {
                let request = desk_request(
                    ui.selected_show->0,
                    ui.customer_name,
                    ui.selected_seat->0,
                );
                let op = Op::Book(request, token, now);
                assert(step(s, op) == after);
                if consistent(s) {
                    lemma_book_consistent(s, request, token, now);
                }
            }
        },
        EventView::CancelBookingConfirm => {
            let op = Op::Cancel(trimmed(ui.booking_id_input));
            assert(step(s, op) == after);
            if consistent(s) {
                lemma_cancel_consistent(s, trimmed(ui.booking_id_input));
            }
        },
        _ => {},
    }
}

/// The id of a live booking neither begins nor ends with white space:
/// trimmed, it is itself.
pub proof fn lemma_live_id_trimmed(s: State, i: int)
    requires
        consistent(s),
        0 <= i < s.ledger.len(),
    ensures
        trimmed(s.ledger[i].id) == s.ledger[i].id,
{
    assert(sound_booking(s, s.ledger[i]));
    let (serial, token) = choose|serial: u64, token: Seq<char>|
        serial < s.next_serial && s.ledger[i].id == #[trigger] booking_id(serial, token);
    lemma_booking_id_trimmed(serial, token);
}

/// A live booking is cancelled at the desk by typing its id, with white
/// space around it or without. The desk then reports the cancellation, the
/// booking is gone from the ledger, its seats and no others are free
/// again, and every other booking stays.
pub proof fn lemma_desk_cancels_typed_id(
    ui: SessionView,
    s: State,
    i: int,
    token: Seq<char>,
    now: i64,
)
    requires
        consistent(s),
        0 <= i < s.ledger.len(),
        ui.booking_id_input == s.ledger[i].id || trimmed(ui.booking_id_input) == s.ledger[i].id,
    ensures
        ({
            let gone = s.ledger[i];
            let desk = react(ui, s, EventView::CancelBookingConfirm, token, now).0;
            let after = react(ui, s, EventView::CancelBookingConfirm, token, now).1;
            &&& desk.success_message == Some(cancelled_text())
            &&& desk.error_message is None
            &&& desk.booking_id_input == Seq::<char>::empty()
            &&& after.ledger == s.ledger.remove(i)
            &&& !is_live(after.ledger, gone.id)
            &&& forall|label: Seq<char>|
                gone.seats.contains(label) ==> !#[trigger] after.taken[gone.show_id].contains(
                    label,
                )
            &&& forall|show_id: u64, label: Seq<char>| #[trigger]
                after.taken[show_id].contains(label) <==> s.taken[show_id].contains(label)
                    && !holds(gone, show_id, label)
            &&& forall|other: BookingView| #[trigger]
                after.ledger.contains(other) <==> s.ledger.contains(other) && other != gone
        }),
{
    let gone = s.ledger[i];
    lemma_live_id_trimmed(s, i);
    lemma_position_of(s, i);
    lemma_cancel_frees_its_seats(s, gone.id);
    lemma_cancel_once(s, gone.id);
    assert(s.ledger.index_of(gone) == i) by {
        let m = s.ledger.index_of(gone);
        assert(s.ledger[m] == gone);
        if m < i {
            assert(s.ledger[m].id != s.ledger[i].id);
        } else if i < m {
            assert(s.ledger[i].id != s.ledger[m].id);
        }
    }
}

/// Serial numbers never go back.
pub proof fn lemma_serial_never_falls(s: State, ops: Seq<Op>, i: int, j: int)
    requires
        0 <= i <= j <= ops.len(),
    ensures
        state_at(s, ops, i).next_serial <= state_at(s, ops, j).next_serial,
    decreases j - i,
{
    if i < j {
        lemma_serial_never_falls(s, ops, i, j - 1);
        lemma_state_at_next(s, ops, j - 1);
    }
}

/// Ids are never issued twice. In any run, from any state and whatever the
/// tokens are, two granted bookings have different ids: so N granted
/// bookings carry N ids, also where bookings were cancelled in between.
pub proof fn lemma_ids_unique(s: State, ops: Seq<Op>, i: int, j: int)
    requires
        0 <= i < j < ops.len(),
        granted_at(s, ops, i),
        granted_at(s, ops, j),
    ensures
        answer(state_at(s, ops, i), ops[i])->Ok_0.id != answer(state_at(s, ops, j), ops[j])->Ok_0.id,
{
    let si = state_at(s, ops, i);
    let sj = state_at(s, ops, j);
    lemma_state_at_next(s, ops, i);
    lemma_serial_never_falls(s, ops, i + 1, j);
    let id_i = booking_id(si.next_serial, ops[i]->Book_1);
    let id_j = booking_id(sj.next_serial, ops[j]->Book_1);
    if id_i == id_j {
        lemma_booking_id_injective(si.next_serial, ops[i]->Book_1, sj.next_serial, ops[j]->Book_1);
    }
}

/// Cancelling succeeds exactly on the id of a live booking, and once: a
/// second cancellation of the same id is refused with `BookingNotFound` and
/// changes nothing.
pub proof fn lemma_cancel_once(s: State, id: Seq<char>)
    requires
        consistent(s),
    ensures
        cancel(s, id).1 is Ok <==> is_live(s.ledger, id),
        cancel(s, id).1 is Err ==> cancel(s, id) == (s, Err::<BookingView, Refusal>(Refusal::BookingNotFound)),
        cancel(s, id).1 is Ok ==> cancel(cancel(s, id).0, id) == (
            cancel(s, id).0,
            Err::<BookingView, Refusal>(Refusal::BookingNotFound),
        ),
{
    if is_live(s.ledger, id) {
        let k = position_of(s.ledger, id);
        let after = cancelled(s, k);
        if is_live(after.ledger, id) {
            let m = position_of(after.ledger, id);
            let m0 = if m < k { m } else { m + 1 };
            assert(after.ledger[m] == s.ledger[m0]);
            if m0 < k {
                assert(s.ledger[m0].id != s.ledger[k].id);
            } else {
                assert(s.ledger[k].id != s.ledger[m0].id);
            }
        }
    }
}

} // verus!
