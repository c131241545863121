//! A set of run ids.

use crate::text::{copy_all, is_among, opt_text, reads, texts};
use vstd::prelude::*;

verus! {

/// A set of run ids, listed in the order in which they came.
pub struct RunIdSet {
    ids: Vec<String>,
}

impl View for RunIdSet {
    type V = Set<Seq<char>>;

    closed spec fn view(&self) -> Set<Seq<char>> {
        texts(self.ids@).to_set()
    }
}

impl RunIdSet {
    /// No run id is listed twice.
    pub closed spec fn wf(&self) -> bool {
        texts(self.ids@).no_duplicates()
    }

    /// The empty set.
    pub fn new() -> (set: Self)
        ensures
            set.wf(),
            set@ == Set::<Seq<char>>::empty(),
    {
        let set = RunIdSet { ids: Vec::new() };
        assert(set@ =~= Set::<Seq<char>>::empty());
        set
    }

    /// Whether the set has no element.
    pub fn is_empty(&self) -> (empty: bool)
        ensures
            empty == (self@ == Set::<Seq<char>>::empty()),
    {
        proof {
            if self.ids.len() == 0 {
                assert(self@ =~= Set::<Seq<char>>::empty());
            } else {
                assert(texts(self.ids@).contains(texts(self.ids@)[0]));
                assert(self@.contains(texts(self.ids@)[0]));
            }
        }
        self.ids.len() == 0
    }

    /// Whether the set has an element other than `run_id`, which stands for no
    /// run id at all where it is `None`.
    pub fn has_other_than(&self, run_id: &Option<String>) -> (other: bool)
        ensures
            other == exists|id: Seq<char>| #[trigger]
                self@.contains(id) && opt_text(*run_id) != Some(id),
    {
        let mut i: usize = 0;
        while i < self.ids.len()
            invariant
                i <= self.ids.len(),
                forall|j: int|
                    0 <= j < i ==> opt_text(*run_id) == Some((#[trigger] self.ids[j])@),
            decreases self.ids.len() - i,
        {
            let same = match run_id {
                Some(run_id) => reads(&self.ids[i], run_id.as_str()),
                None => false,
            };
            if !same {
                assert(texts(self.ids@)[i as int] == self.ids[i as int]@);
                assert(self@.contains(self.ids[i as int]@));
                return true;
            }
            i += 1;
        }
        assert forall|id: Seq<char>| #[trigger] self@.contains(id) implies opt_text(*run_id)
            == Some(id) by {
            let j = choose|j: int| 0 <= j < texts(self.ids@).len() && texts(self.ids@)[j] == id;
            assert(self.ids[j]@ == id);
        }
        false
    }

    /// Adds a run id; says whether it is new.
    pub fn insert(&mut self, run_id: String) -> (inserted: bool)
        requires
            old(self).wf(),
        ensures
            final(self).wf(),
            final(self)@ == old(self)@.insert(run_id@),
            inserted == !old(self)@.contains(run_id@),
    {
        if is_among(run_id.as_str(), &self.ids) {
            assert(self@ =~= old(self)@.insert(run_id@));
            return false;
        }
        let ghost before = texts(self.ids@);
        let ghost id = run_id@;
        self.ids.push(run_id);
        proof {
            let after = texts(self.ids@);
            assert(after =~= before.push(id));
            assert forall|x: Seq<char>| after.contains(x) == (before.contains(x) || x == id) by {
                if before.contains(x) {
                    let j = before.index_of(x);
                    assert(after[j] == x);
                }
                if x == id {
                    assert(after[before.len() as int] == x);
                }
            }
            assert(self@ =~= old(self)@.insert(id));
        }
        true
    }

    /// Takes a run id out; says whether it was there.
    pub fn remove(&mut self, run_id: &str) -> (removed: bool)
        requires
            old(self).wf(),
        ensures
            final(self).wf(),
            final(self)@ == old(self)@.remove(run_id@),
            removed == old(self)@.contains(run_id@),
    {
        let mut i: usize = 0;
        while i < self.ids.len()
            invariant
                i <= self.ids.len(),
                self.wf(),
                self.ids@ == old(self).ids@,
                forall|j: int| 0 <= j < i ==> (#[trigger] self.ids[j])@ != run_id@,
            decreases self.ids.len() - i,
        {
            if reads(&self.ids[i], run_id) {
                let ghost before = texts(self.ids@);
                let _ = self.ids.remove(i);
                proof {
                    let after = texts(self.ids@);
                    assert(before[i as int] == run_id@);
                    assert(after =~= before.remove(i as int));
                    assert forall|x: Seq<char>| after.contains(x) == (before.contains(x) && x
                        != run_id@) by {
                        if after.contains(x) {
                            let j = after.index_of(x);
                            if j < i {
                                assert(before[j] == x);
                            } else {
                                assert(before[j + 1] == x);
                            }
                        }
                        if before.contains(x) && x != run_id@ {
                            let j = before.index_of(x);
                            if j < i {
                                assert(after[j] == x);
                            } else {
                                assert(after[j - 1] == x);
                            }
                        }
                    }
                    assert(self@ =~= old(self)@.remove(run_id@));
                }
                return true;
            }
            i += 1;
        }
        assert forall|j: int| 0 <= j < texts(self.ids@).len() implies texts(self.ids@)[j]
            != run_id@ by {
            assert(self.ids[j]@ != run_id@);
        }
        assert(self@ =~= old(self)@.remove(run_id@));
        false
    }

    /// The run ids of the set, each listed once.
    pub fn to_vec(&self) -> (run_ids: Vec<String>)
        requires
            self.wf(),
        ensures
            texts(run_ids@).no_duplicates(),
            texts(run_ids@).to_set() == self@,
    {
        copy_all(&self.ids)
    }
}

} // verus!
