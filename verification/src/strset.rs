//! A small set of strings, kept as a vector without repeats.

use vstd::prelude::*;
use crate::text::{str_eq, views};

verus! {

/// A set of strings; each text appears at most once.
pub struct StrSet {
    items: Vec<String>,
}

impl View for StrSet {
    type V = Set<Seq<char>>;

    closed spec fn view(&self) -> Set<Seq<char>> {
        views(self.items@).to_set()
    }
}

impl StrSet {
    /// No text is held twice.
    pub closed spec fn wf(&self) -> bool {
        views(self.items@).no_duplicates()
    }

    /// The texts in the order they were added.
    pub closed spec fn order(&self) -> Seq<Seq<char>> {
        views(self.items@)
    }

    pub fn new() -> (r: Self)
        ensures
            r.wf(),
            r@ == Set::<Seq<char>>::empty(),
            r.order() == Seq::<Seq<char>>::empty(),
    {
        let r = StrSet { items: Vec::new() };
        assert(r.order() =~= Seq::<Seq<char>>::empty());
        r
    }

    fn index_of(&self, x: &str) -> (r: Option<usize>)
        ensures
            match r {
                Some(i) => i < self.items.len() && self.order()[i as int] == x@,
                None => !self@.contains(x@),
            },
    {
        let mut i: usize = 0;
        while i < self.items.len()
            invariant
                i <= self.items.len(),
                forall|j: int| 0 <= j < i ==> self.items@[j]@ != x@,
            decreases self.items.len() - i,
        {
            if str_eq(self.items[i].as_str(), x) {
                return Some(i);
            }
            i = i + 1;
        }
        proof {
            if self@.contains(x@) {
                let j = choose|j: int| 0 <= j < self.order().len() && self.order()[j] == x@;
                assert(self.order()[j] == self.items@[j]@);
            }
        }
        None
    }

    /// Whether `x` is in the set.
    pub fn contains(&self, x: &str) -> (b: bool)
        ensures
            b == self@.contains(x@),
    {
        match self.index_of(x) {
            Some(i) => {
                assert(self.order().contains(x@));
                true
            },
            None => false,
        }
    }

    /// Adds `x`; `true` when it was not there before.
    pub fn insert(&mut self, x: &str) -> (added: bool)
        requires
            old(self).wf(),
        ensures
            final(self).wf(),
            final(self)@ == old(self)@.insert(x@),
            added == !old(self)@.contains(x@),
            added ==> final(self).order() == old(self).order().push(x@),
            !added ==> final(self).order() == old(self).order(),
    {
        if self.contains(x) {
            assert(self@ =~= self@.insert(x@));
            return false;
        }
        let ghost before = self.order();
        self.items.push(String::from_str(x));
        assert(self.order() =~= before.push(x@));
        proof {
            assert forall|i: int, j: int|
                0 <= i < self.order().len() && 0 <= j < self.order().len() && i != j implies self.order()[i]
                != self.order()[j] by {
                if i < before.len() && j < before.len() {
                } else if i == before.len() {
                    assert(before.contains(before[j]));
                } else {
                    assert(before.contains(before[i]));
                }
            }
            before.lemma_push_to_set_commute(x@);
        }
        true
    }

    /// Removes `x`; `true` when it was there.
    pub fn remove(&mut self, x: &str) -> (removed: bool)
        requires
            old(self).wf(),
        ensures
            final(self).wf(),
            final(self)@ == old(self)@.remove(x@),
            removed == old(self)@.contains(x@),
            removed ==> exists|i: int|
                0 <= i < old(self).order().len() && old(self).order()[i] == x@
                    && final(self).order() == old(self).order().remove(i),
            !removed ==> final(self).order() == old(self).order(),
    {
        match self.index_of(x) {
            None => {
                assert(self@ =~= self@.remove(x@));
                false
            },
            Some(i) => {
                let ghost before = self.order();
                self.items.remove(i);
                assert(self.order() =~= before.remove(i as int));
                proof {
                    assert(before.contains(x@));
                    assert forall|y: Seq<char>| self.order().to_set().contains(y) <==> before.to_set().remove(x@).contains(y) by {
                        if self.order().contains(y) {
                            let k = choose|k: int| 0 <= k < self.order().len() && self.order()[k] == y;
                            if k < i {
                                assert(before[k] == y);
                            } else {
                                assert(before[k + 1] == y);
                            }
                        }
                        if before.contains(y) && y != x@ {
                            let k = choose|k: int| 0 <= k < before.len() && before[k] == y;
                            if k < i {
                                assert(self.order()[k] == y);
                            } else {
                                assert(k != i);
                                assert(self.order()[k - 1] == y);
                            }
                        }
                    }
                    assert(self.order().to_set() =~= before.to_set().remove(x@));
                }
                true
            },
        }
    }

    /// The number of texts.
    pub fn len(&self) -> (n: usize)
        requires
            self.wf(),
        ensures
            n == self@.len(),
    {
        proof {
            self.order().unique_seq_to_set();
        }
        self.items.len()
    }

    /// The texts, in the order they were added.
    pub fn to_vec(&self) -> (r: Vec<String>)
        ensures
            views(r@) == self.order(),
            views(r@).to_set() == self@,
            self.wf() ==> views(r@).no_duplicates(),
    {
        let mut r: Vec<String> = Vec::new();
        let mut i: usize = 0;
        while i < self.items.len()
            invariant
                i <= self.items.len(),
                r@.len() == i,
                forall|k: int| 0 <= k < i ==> r@[k]@ == self.items@[k]@,
            decreases self.items.len() - i,
        {
            r.push(self.items[i].clone());
            i = i + 1;
        }
        assert(views(r@) =~= self.order());
        r
    }
}

} // verus!
