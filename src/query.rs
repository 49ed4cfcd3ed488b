use vstd::prelude::*;
use crate::model::Element;

verus! {

/// `i` is the first position among `children` where `predicate` holds.
pub open spec fn first_match<P: Fn(&Element) -> bool>(predicate: P, children: Seq<Element>, i: int) -> bool {
    &&& 0 <= i < children.len()
    &&& predicate.ensures((&children[i],), true)
    &&& forall|j: int| 0 <= j < i ==> predicate.ensures((&children[j],), false)
}

/// `idx` lists, in increasing order, the positions among the first `n` of
/// `children` where `predicate` holds; it returns false at every other one.
pub open spec fn selects<P: Fn(&Element) -> bool>(predicate: P, children: Seq<Element>, n: int, idx: Seq<int>) -> bool {
    &&& forall|k: int| 0 <= k < idx.len() ==> 0 <= #[trigger] idx[k] < n && predicate.ensures((&children[idx[k]],), true)
    &&& forall|k: int, l: int| 0 <= k < l < idx.len() ==> idx[k] < idx[l]
    &&& forall|j: int| 0 <= j < n && (forall|k: int| 0 <= k < idx.len() ==> idx[k] != j) ==> predicate.ensures((&children[j],), false)
}

impl Element {
    /// Find a single child of the current `Element`, given a predicate
    pub fn find_child<P: Fn(&Element) -> bool>(&self, predicate: P) -> (r: Option<&Element>)
        requires
            forall|e: &Element| predicate.requires((e,)),
        ensures
            match r {
                Some(c) => exists|i: int| first_match(predicate, self.children@, i) && self.children@[i] == *c,
                None => forall|i: int| 0 <= i < self.children@.len() ==> predicate.ensures((&self.children@[i],), false),
            },
    {
        let mut i: usize = 0;
        while i < self.children.len()
            invariant
                i <= self.children@.len(),
                forall|e: &Element| predicate.requires((e,)),
                forall|j: int| 0 <= j < i ==> predicate.ensures((&self.children@[j],), false),
            decreases self.children@.len() - i,
        {
            let c = &self.children[i];
            if predicate(c) {
                assert(first_match(predicate, self.children@, i as int));
                return Some(c);
            }
            i = i + 1;
        }
        None
    }

    /// Find a single child of the current `Element`, given a predicate; returns a mutable borrow
    pub fn find_child_mut<P: Fn(&Element) -> bool>(&mut self, predicate: P) -> (r: Option<&mut Element>)
        requires
            forall|e: &Element| predicate.requires((e,)),
        ensures
            match r {
                Some(c) => exists|i: int|
                    first_match(predicate, old(self).children@, i) && old(self).children@[i] == *c
                    && final(self).children@ == old(self).children@.update(i, *final(c))
                    && final(self).prefix == old(self).prefix && final(self).name == old(self).name
                    && final(self).attributes == old(self).attributes && final(self).text == old(self).text
                    && final(self).cdata == old(self).cdata,
                None => *final(self) == *old(self)
                    && forall|i: int| 0 <= i < old(self).children@.len() ==> predicate.ensures((&old(self).children@[i],), false),
            },
    {
        let mut i: usize = 0;
        while i < self.children.len()
            invariant
                i <= self.children@.len(),
                forall|e: &Element| predicate.requires((e,)),
                *self == *old(self),
                forall|j: int| 0 <= j < i ==> predicate.ensures((&self.children@[j],), false),
            decreases self.children@.len() - i,
        {
            if predicate(&self.children[i]) {
                assert(first_match(predicate, self.children@, i as int));
                return Some(&mut self.children[i]);
            }
            i = i + 1;
        }
        None
    }

    /// Filters the children of the current `Element`, given a predicate
    pub fn filter_children<P: Fn(&Element) -> bool>(&self, predicate: P) -> (r: Vec<&Element>)
        requires
            forall|e: &Element| predicate.requires((e,)),
        ensures
            exists|idx: Seq<int>| #![auto]
                selects(predicate, self.children@, self.children@.len() as int, idx)
                && idx.len() == r@.len()
                && forall|k: int| 0 <= k < idx.len() ==> *r@[k] == self.children@[idx[k]],
    {
        let mut r: Vec<&Element> = Vec::new();
        let ghost mut idx: Seq<int> = Seq::empty();
        let mut i: usize = 0;
        while i < self.children.len()
            invariant
                i <= self.children@.len(),
                forall|e: &Element| predicate.requires((e,)),
                selects(predicate, self.children@, i as int, idx),
                idx.len() == r@.len(),
                forall|k: int| 0 <= k < idx.len() ==> *r@[k] == self.children@[idx[k]],
            decreases self.children@.len() - i,
        {
            let c = &self.children[i];
            if predicate(c) {
                r.push(c);
                proof {
                    let nidx = idx.push(i as int);
                    assert forall|j: int| 0 <= j < i + 1 && (forall|k: int| 0 <= k < nidx.len() ==> nidx[k] != j)
                        implies predicate.ensures((&self.children@[j],), false) by {
                        assert(forall|k: int| 0 <= k < idx.len() ==> nidx[k] == idx[k]);
                        if j == i {
                            assert(nidx[idx.len() as int] == j);
                        } else {
                            assert(forall|k: int| 0 <= k < idx.len() ==> idx[k] != j);
                        }
                    }
                    idx = nidx;
                }
            } else {
                proof {
                    assert forall|j: int| 0 <= j < i + 1 && (forall|k: int| 0 <= k < idx.len() ==> idx[k] != j)
                        implies predicate.ensures((&self.children@[j],), false) by {
                        if j == i {
                        }
                    }
                }
            }
            i = i + 1;
        }
        r
    }

    /// The positions in `children` of the children that satisfy a predicate,
    /// in order, through which they can be changed in place
    pub fn filter_children_mut<P: Fn(&Element) -> bool>(&mut self, predicate: P) -> (r: Vec<usize>)
        requires
            forall|e: &Element| predicate.requires((e,)),
        ensures
            *final(self) == *old(self),
            selects(predicate, old(self).children@, old(self).children@.len() as int, r@.map_values(|k: usize| k as int)),
    {
        let mut r: Vec<usize> = Vec::new();
        let mut i: usize = 0;
        while i < self.children.len()
            invariant
                i <= self.children@.len(),
                *self == *old(self),
                forall|e: &Element| predicate.requires((e,)),
                selects(predicate, self.children@, i as int, r@.map_values(|k: usize| k as int)),
            decreases self.children@.len() - i,
        {
            let ghost before = r@.map_values(|k: usize| k as int);
            if predicate(&self.children[i]) {
                r.push(i);
                proof {
                    let nidx = before.push(i as int);
                    assert(r@.map_values(|k: usize| k as int) =~= nidx);
                    assert forall|j: int| 0 <= j < i + 1 && (forall|k: int| 0 <= k < nidx.len() ==> nidx[k] != j)
                        implies predicate.ensures((&self.children@[j],), false) by {
                        assert(forall|k: int| 0 <= k < before.len() ==> nidx[k] == before[k]);
                        if j == i {
                            assert(nidx[before.len() as int] == j);
                        } else {
                            assert(forall|k: int| 0 <= k < before.len() ==> before[k] != j);
                        }
                    }
                }
            } else {
                proof {
                    assert(r@.map_values(|k: usize| k as int) =~= before);
                }
            }
            i = i + 1;
        }
        r
    }
}

} // verus!
