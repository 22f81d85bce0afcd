//! The ledger: the live bookings, oldest first, and the supply of serial
//! numbers.

use vstd::prelude::*;
use crate::booking::{Booking, booking_views};
use crate::model::{BookingView, is_live};

verus! {

/// The live bookings in the order in which they were made, and the serial
/// number that the next booking will get.
pub(crate) struct Ledger {
    records: Vec<Booking>,
    next_serial: u64,
}

impl View for Ledger {
    type V = Seq<BookingView>;

    closed spec fn view(&self) -> Seq<BookingView> {
        booking_views(self.records@)
    }
}

impl Ledger {
    /// The serial number that the next booking gets.
    pub closed spec fn next_serial(&self) -> u64 {
        self.next_serial
    }

    /// An empty ledger whose first booking will get `first_serial`.
    pub(crate) fn new(first_serial: u64) -> (ledger: Ledger)
        ensures
            ledger@ == Seq::<BookingView>::empty(),
            ledger.next_serial() == first_serial,
    {
        let ledger = Ledger { records: Vec::new(), next_serial: first_serial };
        assert(ledger@ =~= Seq::<BookingView>::empty());
        ledger
    }

    /// Tells whether a serial number is left for another booking.
    pub(crate) fn has_free_serial(&self) -> (b: bool)
        ensures
            b == (self.next_serial() < u64::MAX),
    {
        self.next_serial < u64::MAX
    }

    /// The serial number that the next booking gets.
    pub(crate) fn peek_serial(&self) -> (serial: u64)
        ensures
            serial == self.next_serial(),
    {
        self.next_serial
    }

    /// The live bookings, oldest first.
    pub(crate) fn records(&self) -> (list: &Vec<Booking>)
        ensures
            booking_views(list@) == self@,
    {
        &self.records
    }

    /// Appends `booking` and moves on to the next serial number.
    pub(crate) fn append(&mut self, booking: Booking)
        requires
            old(self).next_serial() < u64::MAX,
        ensures
            final(self)@ == old(self)@.push(booking@),
            final(self).next_serial() == old(self).next_serial() + 1,
    {
        self.records.push(booking);
        self.next_serial = self.next_serial + 1;
        assert(final(self)@ =~= old(self)@.push(booking@));
    }

    /// Removes the oldest booking with the id `id` and returns it, together
    /// with the position it had.
    pub(crate) fn take(&mut self, id: &String) -> (taken: Option<(usize, Booking)>)
        ensures
            final(self).next_serial() == old(self).next_serial(),
            match taken {
                Some((i, booking)) => {
                    &&& i < old(self)@.len()
                    &&& old(self)@[i as int].id == id@
                    &&& forall|j: int| 0 <= j < i ==> old(self)@[j].id != id@
                    &&& booking@ == old(self)@[i as int]
                    &&& final(self)@ == old(self)@.remove(i as int)
                },
                None => !is_live(old(self)@, id@) && final(self)@ == old(self)@,
            },
    {
        let mut i: usize = 0;
        while i < self.records.len()
            invariant
                i <= self.records.len(),
                *self == *old(self),
                forall|j: int| 0 <= j < i ==> (#[trigger] self@[j]).id != id@,
            decreases self.records.len() - i,
        {
            if self.records[i].id == *id {
                assert(self@[i as int].id == id@);
                let booking = self.records.remove(i);
                assert(final(self)@ =~= old(self)@.remove(i as int));
                return Some((i, booking));
            }
            i += 1;
        }
        None
    }
}

} // verus!
