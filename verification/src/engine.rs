//! The reservation engine: the one owner of the seat map and the ledger.
//!
//! Every operation takes the engine by reference, and the two that change
//! it take it by `&mut`. A caller that shares an engine among threads puts
//! it behind one lock, and each call is then one critical section: a check
//! and its commit are never apart.

use vstd::prelude::*;
use vstd::string::StringExecFns;
use crate::booking::{
    Booking, BookingError, BookingRequest, booking_views, opt_refusal, outcome,
};
use crate::catalog::{Catalog, Show, has_show, show_of, show_views};
use crate::numeral::decimal_text;
use crate::outside::{current_timestamp, fresh_token};
use crate::ledger::Ledger;
use crate::model::{
    FIRST_SERIAL, State, all_admitted, book, booking_id, cancel, cancelled, consistent,
    first_taken, granted, holds, initial, initial_from, is_held, is_seat, is_uuid_text,
    lemma_book_consistent, lemma_first_taken, lemma_seats_left_grows, seats_left_in,
    some_uuid_text, lemma_cancel_consistent, lemma_initial_consistent,
    lemma_position_of, lemma_revenue_grows, lemma_taken_within_layout, receipt, refusal, revenue,
    seats_left, well_formed_request,
};
use crate::seat_map::SeatMap;
use crate::text::{find_text, text_is_blank, texts, texts_distinct, trimmed_text};

verus! {

/// Makes the id of a booking of its serial number and its token.
fn compose_id(serial: u64, token: &String) -> (id: String)
    ensures
        id@ == booking_id(serial, token@),
{
    let mut id = decimal_text(serial as u128);
    id.append("-");
    let kept = trimmed_text(token.as_str());
    id.append(kept.as_str());
    proof {
        reveal_strlit("-");
        assert("-"@ =~= seq!['-']);
    }
    id
}

/// A reservation engine over a fixed catalog.
pub struct Engine {
    catalog: Catalog,
    seats: SeatMap,
    ledger: Ledger,
}

impl View for Engine {
    type V = State;

    closed spec fn view(&self) -> State {
        State {
            catalog: self.catalog@,
            taken: self.seats@,
            ledger: self.ledger@,
            next_serial: self.ledger.next_serial(),
        }
    }
}

impl Engine {
    /// Holds of every engine that [`Engine::new`] built, after any calls.
    pub closed spec fn wf(&self) -> bool {
        &&& self.seats.wf()
        &&& consistent(self@)
    }

    /// The state of a well-formed engine is consistent.
    pub proof fn lemma_consistent(&self)
        requires
            self.wf(),
        ensures
            consistent(self@),
    {
    }

    /// A new engine over `catalog`: no seat taken, no booking made. Its first
    /// booking gets the serial number [`FIRST_SERIAL`].
    pub fn new(catalog: Catalog) -> (engine: Engine)
        requires
            catalog.wf(),
        ensures
            engine.wf(),
            engine@ == initial(catalog@),
    {
        Engine::with_first_serial(catalog, FIRST_SERIAL)
    }

    /// A new engine over `catalog` whose first booking gets the serial
    /// number `first_serial`.
    pub fn with_first_serial(catalog: Catalog, first_serial: u64) -> (engine: Engine)
        requires
            catalog.wf(),
        ensures
            engine.wf(),
            engine@ == initial_from(catalog@, first_serial),
    {
        let engine = Engine { catalog, seats: SeatMap::new(), ledger: Ledger::new(first_serial) };
        proof {
            lemma_initial_consistent(catalog@, first_serial);
            assert(engine@ =~= initial_from(catalog@, first_serial));
        }
        engine
    }

    /// The shows, in catalog order.
    pub fn list_shows(&self) -> (shows: &Vec<Show>)
        ensures
            show_views(shows@) == self@.catalog,
    {
        self.catalog.list_shows()
    }

    /// The show with the id `id`, or `ShowNotFound`.
    pub fn get_show(&self, id: u64) -> (res: Result<&Show, BookingError>)
        requires
            self.wf(),
        ensures
            match res {
                Ok(show) => has_show(self@.catalog, id) && show@ == show_of(self@.catalog, id),
                Err(why) => why == BookingError::ShowNotFound && !has_show(self@.catalog, id),
            },
    {
        match self.catalog.get_show(id) {
            Some(show) => Ok(show),
            None => Err(BookingError::ShowNotFound),
        }
    }

    /// Tells whether `label` names a seat of the show `show_id`: whether the
    /// catalog has the show and its layout admits the label.
    pub fn admits_seat(&self, show_id: u64, label: &str) -> (b: bool)
        requires
            self.wf(),
        ensures
            b == is_seat(self@, show_id, label@),
    {
        match self.catalog.get_show(show_id) {
            Some(show) => {
                let layout = show.layout;
                assert(layout.wf());
                layout.admits_label(label)
            },
            None => false,
        }
    }

    /// Tells whether the seat `label` of the show `show_id` is taken. Of a
    /// show that the catalog lacks no seat is taken.
    pub fn is_booked(&self, show_id: u64, label: &str) -> (b: bool)
        ensures
            b == self@.taken[show_id].contains(label@),
    {
        let label = label.to_owned();
        self.seats.is_booked(show_id, &label)
    }

    /// The seats of the show `show_id` that are taken, in the order in which
    /// they were taken: a snapshot of one moment. No seat is listed twice.
    /// Of a show that the catalog lacks no seat is taken.
    pub fn get_booked_seats(&self, show_id: u64) -> (labels: Vec<String>)
        requires
            self.wf(),
        ensures
            texts(labels@) == self@.taken[show_id],
            texts(labels@).no_duplicates(),
    {
        assert(self@.taken[show_id].no_duplicates());
        self.seats.booked_labels(show_id)
    }

    /// The id of the live booking that holds the seat `label` of the show
    /// `show_id`, or `None` where the seat is free.
    pub fn seat_holder(&self, show_id: u64, label: &str) -> (holder: Option<String>)
        requires
            self.wf(),
        ensures
            holder is Some <==> self@.taken[show_id].contains(label@),
            holder matches Some(id) ==> exists|i: int|
                0 <= i < self@.ledger.len() && holds(#[trigger] self@.ledger[i], show_id, label@)
                    && self@.ledger[i].id == id@,
    {
        let wanted = label.to_owned();
        let list = self.ledger.records();
        let ghost views = self@.ledger;
        let mut i: usize = 0;
        while i < list.len()
            invariant
                i <= list.len(),
                self.wf(),
                views == booking_views(list@),
                views == self@.ledger,
                wanted@ == label@,
                forall|j: int| 0 <= j < i ==> !holds(#[trigger] views[j], show_id, label@),
            decreases list.len() - i,
        {
            if list[i].show_id == show_id {
                let found = find_text(&list[i].seats, &wanted);
                if found.is_some() {
                    proof {
                        assert(views[i as int].seats[found->0 as int] == label@);
                        assert(holds(views[i as int], show_id, label@));
                        assert(is_held(views, show_id, label@));
                    }
                    return Some(list[i].id.clone());
                }
            }
            i += 1;
        }
        proof {
            assert(!is_held(views, show_id, label@));
        }
        None
    }

    /// How many seats of the show `show_id` are still free. `None` where the
    /// catalog lacks the show or its layout is open.
    pub fn available_seats(&self, show_id: u64) -> (left: Option<u64>)
        requires
            self.wf(),
        ensures
            match left {
                Some(n) => seats_left(self@, show_id) == Some(n as nat),
                None => seats_left(self@, show_id) is None,
            },
    {
        let show = match self.catalog.get_show(show_id) {
            Some(show) => show,
            None => {
                return None;
            },
        };
        match show.layout.capacity() {
            None => None,
            Some(capacity) => {
                let taken = self.seats.booked_count(show_id);
                proof {
                    lemma_taken_within_layout(self@, show_id);
                }
                Some(capacity - taken as u64)
            },
        }
    }

    /// How many seats are still free in all shows of the catalog together,
    /// shows with an open layout left aside; `None` where the number is too
    /// large for a `u64`.
    pub fn total_available_seats(&self) -> (sum: Option<u64>)
        requires
            self.wf(),
        ensures
            match sum {
                Some(sum) => seats_left_in(self@, self@.catalog) == sum,
                None => seats_left_in(self@, self@.catalog) > u64::MAX,
            },
    {
        let shows = self.catalog.list_shows();
        let ghost views = self@.catalog;
        let mut sum: u64 = 0;
        let mut i: usize = 0;
        while i < shows.len()
            invariant
                i <= shows.len(),
                self.wf(),
                views == show_views(shows@),
                views == self@.catalog,
                sum == seats_left_in(self@, views.take(i as int)),
            decreases shows.len() - i,
        {
            proof {
                assert(views.take(i + 1).drop_last() =~= views.take(i as int));
                assert(views.take(i + 1).last() == shows[i as int]@);
            }
            let left = match self.available_seats(shows[i].id) {
                Some(left) => left,
                None => 0,
            };
            match sum.checked_add(left) {
                Some(more) => {
                    sum = more;
                },
                None => {
                    proof {
                        lemma_seats_left_grows(self@, views, i + 1);
                    }
                    return None;
                },
            }
            i += 1;
        }
        assert(views.take(shows.len() as int) =~= views);
        Some(sum)
    }

    /// The sum of the totals of the live bookings, or `None` where the sum
    /// is too large for a `u128`.
    pub fn total_revenue(&self) -> (sum: Option<u128>)
        ensures
            match sum {
                Some(sum) => revenue(self@.ledger) == sum,
                None => revenue(self@.ledger) > u128::MAX,
            },
    {
        let list = self.ledger.records();
        let ghost views = self@.ledger;
        let mut sum: u128 = 0;
        let mut i: usize = 0;
        while i < list.len()
            invariant
                i <= list.len(),
                views == booking_views(list@),
                views == self@.ledger,
                sum == revenue(views.take(i as int)),
            decreases list.len() - i,
        {
            proof {
                assert(views.take(i + 1).drop_last() =~= views.take(i as int));
                assert(views.take(i + 1).last() == list[i as int]@);
            }
            match sum.checked_add(list[i].total_amount) {
                Some(more) => {
                    sum = more;
                },
                None => {
                    proof {
                        lemma_revenue_grows(views, i + 1);
                    }
                    return None;
                },
            }
            i += 1;
        }
        assert(views.take(list.len() as int) =~= views);
        Some(sum)
    }

    /// The live bookings, oldest first.
    pub fn list_bookings(&self) -> (list: &Vec<Booking>)
        ensures
            booking_views(list@) == self@.ledger,
    {
        self.ledger.records()
    }

    /// Why `request` would be refused now, or `None` where it would be
    /// granted: [`refusal`] says which.
    pub fn refusal_of(&self, request: &BookingRequest) -> (why: Option<BookingError>)
        requires
            self.wf(),
        ensures
            opt_refusal(why) == refusal(self@, request@),
    {
        let ghost s = self@;
        let ghost r = request@;
        let show = match self.catalog.get_show(request.show_id) {
            Some(show) => show,
            None => {
                return Some(BookingError::ShowNotFound);
            },
        };
        let layout = show.layout;
        if request.seats.len() == 0 || text_is_blank(request.customer_name.as_str()) {
            return Some(BookingError::InvalidInput);
        }
        assert(layout.wf());
        let mut i: usize = 0;
        while i < request.seats.len()
            invariant
                i <= request.seats.len(),
                r == request@,
                s == self@,
                self.wf(),
                has_show(s.catalog, r.show_id),
                well_formed_request(r),
                layout == show_of(s.catalog, r.show_id).layout,
                layout.wf(),
                forall|j: int| 0 <= j < i ==> layout.admits(#[trigger] r.seats[j]),
            decreases request.seats.len() - i,
        {
            if !layout.admits_label(request.seats[i].as_str()) {
                assert(!layout.admits(r.seats[i as int]));
                return Some(BookingError::InvalidSeat);
            }
            i += 1;
        }
        let ghost taken = s.taken[request.show_id];
        assert(r.seats.skip(0) =~= r.seats);
        let mut i: usize = 0;
        while i < request.seats.len()
            invariant
                i <= request.seats.len(),
                r == request@,
                s == self@,
                self.wf(),
                has_show(s.catalog, r.show_id),
                well_formed_request(r),
                all_admitted(show_of(s.catalog, r.show_id), r.seats),
                taken == s.taken[r.show_id],
                first_taken(r.seats, taken) == first_taken(r.seats.skip(i as int), taken),
            decreases request.seats.len() - i,
        {
            let ghost rest = r.seats.skip(i as int);
            assert(rest[0] == r.seats[i as int]);
            assert(rest.drop_first() =~= r.seats.skip(i + 1));
            if self.seats.is_booked(request.show_id, &request.seats[i]) {
                return Some(BookingError::SeatUnavailable(request.seats[i].clone()));
            }
            i += 1;
        }
        assert(first_taken(r.seats, taken) is None);
        if !texts_distinct(&request.seats) {
            return Some(BookingError::InvalidInput);
        }
        if !self.ledger.has_free_serial() {
            return Some(BookingError::IdsExhausted);
        }
        None
    }

    /// Enters the booking that `request` asks for: takes its seats and
    /// appends the booking to the ledger.
    fn commit(&mut self, request: BookingRequest, token: &String, created_at: i64) -> (booking:
        Booking)
        requires
            old(self).wf(),
            refusal(old(self)@, request@) is None,
        ensures
            final(self).wf(),
            final(self)@ == granted(old(self)@, request@, token@, created_at),
            booking@ == receipt(old(self)@, request@, token@, created_at),
    {
        let ghost s = self@;
        let ghost r = request@;
        let price = match self.catalog.get_show(request.show_id) {
            Some(show) => show.price,
            None => {
                assert(false);
                0
            },
        };
        let total: u128 = match request.total {
            Some(total) => total,
            None => {
                let count = request.seats.len();
                assert((price as u128) * (count as u128) <= u128::MAX) by (nonlinear_arith)
                    requires
                        price <= u64::MAX,
                        count <= u64::MAX,
                ;
                (price as u128) * (count as u128)
            },
        };
        proof {
            lemma_first_taken(r.seats, s.taken[r.show_id]);
            assert forall|j: int| 0 <= j < request.seats.len() implies !self.seats@[request.show_id].contains(
                request.seats[j]@,
            ) by {
                assert(!s.taken[r.show_id].contains(r.seats[j]));
            }
        }
        self.seats.mark_booked(request.show_id, &request.seats);
        let booking = Booking {
            id: compose_id(self.ledger.peek_serial(), token),
            show_id: request.show_id,
            customer_name: request.customer_name,
            email: request.email,
            seats: request.seats,
            total_amount: total,
            created_at,
        };
        let copy = booking.clone();
        self.ledger.append(booking);
        proof {
            assert(booking@ == receipt(s, r, token@, created_at));
            assert(final(self)@ =~= granted(s, r, token@, created_at));
            lemma_book_consistent(s, r, token@, created_at);
        }
        copy
    }

    /// Tries to book the seats of `request`. Either every seat of the
    /// request becomes taken and the booking is entered in the ledger and
    /// returned, or the call is refused and the engine is left as it was;
    /// [`book`] says which, and why. The booking's id is made of the next
    /// serial number and `token`, and its time is `created_at`.
    pub fn attempt_booking_with(
        &mut self,
        request: BookingRequest,
        token: String,
        created_at: i64,
    ) -> (res: Result<Booking, BookingError>)
        requires
            old(self).wf(),
        ensures
            final(self).wf(),
            final(self)@ == book(old(self)@, request@, token@, created_at).0,
            outcome(res) == book(old(self)@, request@, token@, created_at).1,
    {
        match self.refusal_of(&request) {
            Some(why) => Err(why),
            None => Ok(self.commit(request, &token, created_at)),
        }
    }

    /// Tries to book the seats of `request` now. Where the request is
    /// granted, the token in the booking's id is a random identifier drawn
    /// for it, and the booking's time is read from the clock.
    pub fn attempt_booking(&mut self, request: BookingRequest) -> (res: Result<
        Booking,
        BookingError,
    >)
        requires
            old(self).wf(),
        ensures
            final(self).wf(),
            exists|token: Seq<char>, created_at: i64|
                {
                    &&& is_uuid_text(token)
                    &&& final(self)@ == (#[trigger] book(
                        old(self)@,
                        request@,
                        token,
                        created_at,
                    )).0
                    &&& outcome(res) == book(old(self)@, request@, token, created_at).1
                },
    {
        match self.refusal_of(&request) {
            Some(why) => {
                proof {
                    let token = some_uuid_text();
                    assert(self@ == book(old(self)@, request@, token, 0).0);
                }
                Err(why)
            },
            None => {
                let token = fresh_token();
                let created_at = current_timestamp();
                let booking = self.commit(request, &token, created_at);
                proof {
                    assert(final(self)@ == book(old(self)@, request@, token@, created_at).0);
                }
                Ok(booking)
            },
        }
    }

    /// Cancels the booking with the id `booking_id`: frees its seats, removes
    /// it from the ledger and returns it. Where no live booking has that id
    /// the call is refused with `BookingNotFound` and changes nothing.
    pub fn cancel_booking(&mut self, booking_id: &str) -> (res: Result<Booking, BookingError>)
        requires
            old(self).wf(),
        ensures
            final(self).wf(),
            final(self)@ == cancel(old(self)@, booking_id@).0,
            outcome(res) == cancel(old(self)@, booking_id@).1,
    {
        let ghost s = self@;
        let wanted = booking_id.to_owned();
        match self.ledger.take(&wanted) {
            None => Err(BookingError::BookingNotFound),
            Some((i, booking)) => {
                proof {
                    lemma_position_of(s, i as int);
                }
                self.seats.mark_free(booking.show_id, &booking.seats);
                proof {
                    assert(final(self)@ =~= cancelled(s, i as int));
                    lemma_cancel_consistent(s, booking_id@);
                }
                Ok(booking)
            },
        }
    }
}

} // verus!
