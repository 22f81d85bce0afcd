//! The catalog: the shows on offer, fixed once it is built.

use vstd::prelude::*;
use crate::layout::SeatLayout;

verus! {

/// A show on offer. `price` is the price of one seat, in the smallest unit
/// of the currency.
#[derive(Debug, PartialEq, Eq)]
pub struct Show {
    pub id: u64,
    pub title: String,
    pub schedule: String,
    pub hall: String,
    pub price: u64,
    pub layout: SeatLayout,
}

/// What a [`Show`] holds, as mathematical values.
pub struct ShowView {
    pub id: u64,
    pub title: Seq<char>,
    pub schedule: Seq<char>,
    pub hall: Seq<char>,
    pub price: u64,
    pub layout: SeatLayout,
}

impl View for Show {
    type V = ShowView;

    open spec fn view(&self) -> ShowView {
        ShowView {
            id: self.id,
            title: self.title@,
            schedule: self.schedule@,
            hall: self.hall@,
            price: self.price,
            layout: self.layout,
        }
    }
}

impl Clone for Show {
    fn clone(&self) -> (copy: Self)
        ensures
            copy@ == self@,
    {
        Show {
            id: self.id,
            title: self.title.clone(),
            schedule: self.schedule.clone(),
            hall: self.hall.clone(),
            price: self.price,
            layout: self.layout,
        }
    }
}

/// The views of a list of shows, in order.
pub open spec fn show_views(shows: Seq<Show>) -> Seq<ShowView> {
    shows.map_values(|s: Show| s@)
}

/// Whether some show of `shows` has the id `id`.
pub open spec fn has_show(shows: Seq<ShowView>, id: u64) -> bool {
    exists|i: int| 0 <= i < shows.len() && #[trigger] shows[i].id == id
}

/// The show of `shows` with the id `id`, where there is one.
pub open spec fn show_of(shows: Seq<ShowView>, id: u64) -> ShowView
    recommends
        has_show(shows, id),
{
    shows[choose|i: int| 0 <= i < shows.len() && #[trigger] shows[i].id == id]
}

/// A list of shows is a catalog when no two of them share an id and every
/// layout is well formed.
pub open spec fn is_catalog(shows: Seq<ShowView>) -> bool {
    &&& forall|i: int, j: int|
        0 <= i < j < shows.len() ==> #[trigger] shows[i].id != #[trigger] shows[j].id
    &&& forall|i: int| 0 <= i < shows.len() ==> (#[trigger] shows[i]).layout.wf()
}

/// In a catalog, a show found under an id is the show of that id.
pub proof fn lemma_show_of(shows: Seq<ShowView>, i: int)
    requires
        is_catalog(shows),
        0 <= i < shows.len(),
    ensures
        has_show(shows, shows[i].id),
        show_of(shows, shows[i].id) == shows[i],
{
    let id = shows[i].id;
    let j = choose|j: int| 0 <= j < shows.len() && #[trigger] shows[j].id == id;
    if i < j {
        assert(shows[i].id != shows[j].id);
    } else if j < i {
        assert(shows[j].id != shows[i].id);
    }
}

/// An ordered list of shows with distinct ids.
pub struct Catalog {
    shows: Vec<Show>,
}

impl View for Catalog {
    type V = Seq<ShowView>;

    closed spec fn view(&self) -> Seq<ShowView> {
        show_views(self.shows@)
    }
}

impl Catalog {
    /// Every catalog that [`Catalog::new`] builds is well formed.
    pub open spec fn wf(&self) -> bool {
        is_catalog(self@)
    }

    /// Builds the catalog of `shows`, in their order. `None` when two shows
    /// share an id, or when a grid has more rows than there are letters.
    pub fn new(shows: Vec<Show>) -> (catalog: Option<Catalog>)
        ensures
            match catalog {
                Some(c) => c.wf() && c@ == show_views(shows@),
                None => !is_catalog(show_views(shows@)),
            },
    {
        let ghost views = show_views(shows@);
        let mut i: usize = 0;
        while i < shows.len()
            invariant
                i <= shows.len(),
                views == show_views(shows@),
                forall|a: int, b: int| 0 <= a < b < i ==> views[a].id != views[b].id,
                forall|a: int| 0 <= a < i ==> (#[trigger] views[a]).layout.wf(),
            decreases shows.len() - i,
        {
            if !shows[i].layout.is_well_formed() {
                assert(!views[i as int].layout.wf());
                return None;
            }
            let mut j: usize = 0;
            while j < i
                invariant
                    j <= i < shows.len(),
                    views == show_views(shows@),
                    forall|a: int| 0 <= a < j ==> views[a].id != views[i as int].id,
                decreases i - j,
            {
                if shows[j].id == shows[i].id {
                    assert(views[j as int].id == views[i as int].id);
                    return None;
                }
                j += 1;
            }
            i += 1;
        }
        Some(Catalog { shows })
    }

    /// The shows, in catalog order.
    pub fn list_shows(&self) -> (shows: &Vec<Show>)
        ensures
            show_views(shows@) == self@,
    {
        &self.shows
    }

    /// The show with the id `id`, if the catalog has one.
    pub fn get_show(&self, id: u64) -> (show: Option<&Show>)
        requires
            self.wf(),
        ensures
            match show {
                Some(s) => has_show(self@, id) && s@ == show_of(self@, id),
                None => !has_show(self@, id),
            },
    {
        let mut i: usize = 0;
        while i < self.shows.len()
            invariant
                self.wf(),
                i <= self.shows.len(),
                forall|a: int| 0 <= a < i ==> (#[trigger] self@[a]).id != id,
            decreases self.shows.len() - i,
        {
            if self.shows[i].id == id {
                proof {
                    assert(self@[i as int].id == id);
                    lemma_show_of(self@, i as int);
                }
                return Some(&self.shows[i]);
            }
            i += 1;
        }
        None
    }
}

} // verus!
