//! The seat map: which seats of each show are taken, in the order in which
//! they were taken.

use vstd::prelude::*;
use std::collections::HashMap;
use crate::model::{mark_free, mark_taken};
use crate::text::{
    clone_texts, find_text, lemma_joined_distinct, lemma_without, texts, without,
};

verus! {

/// The seats taken, per show id. A show that the map has never heard of has
/// no seat taken.
pub(crate) struct SeatMap {
    by_show: HashMap<u64, Vec<String>>,
}

impl View for SeatMap {
    type V = Map<u64, Seq<Seq<char>>>;

    closed spec fn view(&self) -> Map<u64, Seq<Seq<char>>> {
        Map::total(|show_id: u64| self.labels(show_id))
    }
}

impl SeatMap {
    /// The labels taken for `show_id`, in the order in which they were taken.
    pub closed spec fn labels(&self, show_id: u64) -> Seq<Seq<char>> {
        if self.by_show@.contains_key(show_id) {
            texts(self.by_show@[show_id]@)
        } else {
            Seq::empty()
        }
    }

    /// No label is listed twice for a show.
    pub closed spec fn wf(&self) -> bool {
        forall|show_id: u64| #[trigger] self.labels(show_id).no_duplicates()
    }

    /// A map in which no seat is taken.
    pub(crate) fn new() -> (map: SeatMap)
        ensures
            map.wf(),
            map@ == Map::total(|show_id: u64| Seq::<Seq<char>>::empty()),
    {
        let map = SeatMap { by_show: HashMap::new() };
        assert(map@ =~= Map::total(|show_id: u64| Seq::<Seq<char>>::empty()));
        map
    }

    /// Tells whether the seat `label` of `show_id` is taken.
    pub(crate) fn is_booked(&self, show_id: u64, label: &String) -> (b: bool)
        ensures
            b == self@[show_id].contains(label@),
    {
        match self.by_show.get(&show_id) {
            Some(list) => {
                let found = find_text(list, label);
                proof {
                    if found is Some {
                        assert(texts(list@)[found->0 as int] == label@);
                    }
                }
                found.is_some()
            },
            None => false,
        }
    }

    /// The labels taken for `show_id`, in the order in which they were taken.
    pub(crate) fn booked_labels(&self, show_id: u64) -> (list: Vec<String>)
        ensures
            texts(list@) == self@[show_id],
    {
        match self.by_show.get(&show_id) {
            Some(list) => clone_texts(list),
            None => Vec::new(),
        }
    }

    /// How many seats of `show_id` are taken.
    pub(crate) fn booked_count(&self, show_id: u64) -> (count: usize)
        ensures
            count == self@[show_id].len(),
    {
        match self.by_show.get(&show_id) {
            Some(list) => list.len(),
            None => 0,
        }
    }

    /// Marks `labels` of `show_id` as taken, after those taken before.
    pub(crate) fn mark_booked(&mut self, show_id: u64, labels: &Vec<String>)
        requires
            old(self).wf(),
            texts(labels@).no_duplicates(),
            forall|i: int| 0 <= i < labels.len() ==> !old(self)@[show_id].contains(labels[i]@),
        ensures
            final(self).wf(),
            final(self)@ == mark_taken(old(self)@, show_id, texts(labels@)),
    {
        let ghost before = old(self).labels(show_id);
        let ghost added = texts(labels@);
        let mut list = match self.by_show.remove(&show_id) {
            Some(list) => list,
            None => Vec::new(),
        };
        assert(texts(list@) =~= before);
        let mut i: usize = 0;
        while i < labels.len()
            invariant
                i <= labels.len(),
                added == texts(labels@),
                texts(list@) == before + added.take(i as int),
            decreases labels.len() - i,
        {
            let ghost grown = texts(list@).push(labels[i as int]@);
            list.push(labels[i].clone());
            assert(texts(list@) =~= grown);
            assert(grown =~= before + added.take(i + 1));
            i += 1;
        }
        assert(added.take(labels.len() as int) =~= added);
        self.by_show.insert(show_id, list);
        proof {
            assert(final(self).labels(show_id) == before + added);
            assert forall|other: u64| other != show_id implies #[trigger] final(self).labels(other)
                == old(self).labels(other) by {}
            assert(final(self)@ =~= mark_taken(old(self)@, show_id, added));
            assert(before.no_duplicates());
            assert forall|k: int| 0 <= k < added.len() implies !before.contains(
                #[trigger] added[k],
            ) by {
                assert(added[k] == labels[k]@);
            }
            lemma_joined_distinct(before, added);
            assert forall|other: u64| #[trigger] final(self).labels(other).no_duplicates() by {
                if other != show_id {
                    assert(old(self).labels(other).no_duplicates());
                }
            }
        }
    }

    /// Marks `labels` of `show_id` as free; the other seats keep their order.
    pub(crate) fn mark_free(&mut self, show_id: u64, labels: &Vec<String>)
        requires
            old(self).wf(),
        ensures
            final(self).wf(),
            final(self)@ == mark_free(old(self)@, show_id, texts(labels@)),
    {
        let ghost before = old(self).labels(show_id);
        let ghost gone = texts(labels@);
        let ghost keep = |label: Seq<char>| !gone.contains(label);
        let list = match self.by_show.remove(&show_id) {
            Some(list) => list,
            None => Vec::new(),
        };
        assert(texts(list@) =~= before);
        let mut kept: Vec<String> = Vec::new();
        let mut i: usize = 0;
        while i < list.len()
            invariant
                i <= list.len(),
                texts(list@) == before,
                gone == texts(labels@),
                keep == |label: Seq<char>| !gone.contains(label),
                texts(kept@) == before.take(i as int).filter(keep),
            decreases list.len() - i,
        {
            let ghost done = before.take(i as int);
            proof {
                assert(before.take(i + 1) =~= done.push(before[i as int]));
                assert(before[i as int] == list[i as int]@);
                done.lemma_filter_push(before[i as int], keep);
            }
            let taken = find_text(labels, &list[i]);
            proof {
                if taken is Some {
                    assert(texts(labels@)[taken->0 as int] == list[i as int]@);
                }
            }
            if taken.is_none() {
                kept.push(list[i].clone());
                assert(texts(kept@) =~= done.filter(keep).push(before[i as int]));
            }
            i += 1;
        }
        assert(before.take(list.len() as int) =~= before);
        self.by_show.insert(show_id, kept);
        proof {
            let after = without(before, gone);
            assert(final(self).labels(show_id) == after);
            assert forall|other: u64| other != show_id implies #[trigger] final(self).labels(other)
                == old(self).labels(other) by {}
            assert(final(self)@ =~= mark_free(old(self)@, show_id, gone));
            assert(before.no_duplicates());
            lemma_without(before, gone);
            assert forall|other: u64| #[trigger] final(self).labels(other).no_duplicates() by {
                if other != show_id {
                    assert(old(self).labels(other).no_duplicates());
                }
            }
        }
    }
}

} // verus!
