//! The cut set of a wire: which sample indices along its curve are severed.

use vstd::prelude::*;

verus! {

/// A set of sample indices, stored without duplicates.
///
/// Cutting at a position already cut and joining at a position not cut are
/// both no-ops, observably and on the stored representation.
pub struct CutSet {
    elems: Vec<usize>,
}

impl View for CutSet {
    type V = Set<int>;

    /// The mathematical set of severed positions.
    closed spec fn view(&self) -> Set<int> {
        Set::new(
            |p: int| exists|i: int| 0 <= i < self.elems@.len() && self.elems@[i] == p,
        )
    }
}

impl CutSet {
    /// The stored vector holds each position at most once.
    pub closed spec fn wf(&self) -> bool {
        forall|i: int, j: int|
            0 <= i < j < self.elems@.len() ==> self.elems@[i] != self.elems@[j]
    }

    /// A fresh, fully joined wire: nothing is severed.
    pub fn new() -> (r: CutSet)
        ensures
            r.wf(),
            r@ =~= Set::<int>::empty(),
    {
        CutSet { elems: Vec::new() }
    }

    /// How many distinct positions are severed.
    pub fn count(&self) -> (n: usize)
        requires
            self.wf(),
        ensures
            (n == 0) <==> (self@ =~= Set::<int>::empty()),
    {
        proof {
            if self.elems@.len() > 0 {
                assert(self@.contains(self.elems@[0] as int));
            }
        }
        self.elems.len()
    }

    /// Index of `pos` in the stored vector, if present.
    fn index_of(&self, pos: usize) -> (r: Option<usize>)
        ensures
            match r {
                Some(i) => 0 <= i < self.elems@.len() && self.elems@[i as int] == pos,
                None => forall|j: int| 0 <= j < self.elems@.len() ==> self.elems@[j] != pos,
            },
    {
        let mut i: usize = 0;
        while i < self.elems.len()
            invariant
                0 <= i <= self.elems@.len(),
                forall|j: int| 0 <= j < i ==> self.elems@[j] != pos,
            decreases self.elems@.len() - i,
        {
            if self.elems[i] == pos {
                return Some(i);
            }
            i += 1;
        }
        None
    }

    /// Whether `pos` is currently severed.
    pub fn contains(&self, pos: usize) -> (r: bool)
        ensures
            r == self@.contains(pos as int),
    {
        match self.index_of(pos) {
            Some(_) => true,
            None => false,
        }
    }

    /// Sever `pos`: insert it into the set. Idempotent.
    pub fn cut(&mut self, pos: usize)
        requires
            old(self).wf(),
        ensures
            final(self).wf(),
            final(self)@ =~= old(self)@.insert(pos as int),
            old(self)@.contains(pos as int) ==> *final(self) == *old(self),
    {
        if !self.contains(pos) {
            self.elems.push(pos);
            proof {
                let prev = old(self).elems@;
                let cur = self.elems@;
                assert forall|p: int| self@.contains(p) implies old(self)@.insert(
                    pos as int,
                ).contains(p) by {
                    let k = choose|k: int| 0 <= k < cur.len() && cur[k] == p;
                    if k < prev.len() {
                        assert(prev[k] == p);
                    }
                }
                assert forall|p: int|
                    old(self)@.insert(pos as int).contains(p) implies self@.contains(p) by {
                    if p == pos as int {
                        assert(cur[prev.len() as int] == pos);
                    } else {
                        let k = choose|k: int| 0 <= k < prev.len() && prev[k] == p;
                        assert(cur[k] == p);
                    }
                }
                assert(self@ =~= old(self)@.insert(pos as int));
            }
        } else {
            proof {
                assert(self@ =~= old(self)@.insert(pos as int));
            }
        }
    }

    /// Rejoin `pos`: remove it from the set. Idempotent.
    pub fn join(&mut self, pos: usize)
        requires
            old(self).wf(),
        ensures
            final(self).wf(),
            final(self)@ =~= old(self)@.remove(pos as int),
            !old(self)@.contains(pos as int) ==> *final(self) == *old(self),
    {
        match self.index_of(pos) {
            Some(i) => {
                self.elems.remove(i);
                proof {
                    let prev = old(self).elems@;
                    let cur = self.elems@;
                    assert(cur =~= prev.subrange(0, i as int) + prev.subrange(
                        i + 1,
                        prev.len() as int,
                    ));
                    assert forall|p: int| self@.contains(p) implies old(self)@.remove(
                        pos as int,
                    ).contains(p) by {
                        let k = choose|k: int| 0 <= k < cur.len() && cur[k] == p;
                        if k < i {
                            assert(prev[k] == p);
                        } else {
                            assert(prev[k + 1] == p);
                            assert(prev[i as int] == pos);
                        }
                        assert(old(self)@.contains(p));
                        assert(p != pos as int);
                    }
                    assert forall|p: int|
                        old(self)@.remove(pos as int).contains(p) implies self@.contains(p) by {
                        let k = choose|k: int| 0 <= k < prev.len() && prev[k] == p;
                        assert(prev[i as int] == pos);
                        if k < i {
                            assert(cur[k] == p);
                        } else {
                            assert(k != i);
                            assert(cur[k - 1] == p);
                        }
                    }
                    assert(self@ =~= old(self)@.remove(pos as int));
                }
            },
            None => {
                proof {
                    assert(!old(self)@.contains(pos as int));
                    assert(self@ =~= old(self)@.remove(pos as int));
                }
            },
        }
    }
}

} // verus!
