//! A small set of board squares, viewed in specifications as a `Set<Position>`.

use vstd::prelude::*;
use crate::pieces::Position;

verus! {

/// A duplicate-free list of squares.
pub struct PositionSet {
    items: Vec<Position>,
}

impl View for PositionSet {
    type V = Set<Position>;

    closed spec fn view(&self) -> Set<Position> {
        self.items@.to_set()
    }
}

impl PositionSet {
    /// No square is listed twice, so the list's length is the set's size.
    pub closed spec fn wf(self) -> bool {
        self.items@.no_duplicates()
    }

    /// The underlying order of the squares, for indexed traversal.
    pub closed spec fn seq(self) -> Seq<Position> {
        self.items@
    }

    /// The set is the range of the traversal order.
    pub proof fn lemma_seq_view(&self)
        ensures
            forall|q: Position| #[trigger] self@.contains(q) <==> self.seq().contains(q),
            self@.finite(),
    {
        broadcast use vstd::seq_lib::seq_to_set_is_finite;


    }

    pub fn empty() -> (r: PositionSet)
        ensures
            r.wf(),
            r@ == Set::<Position>::empty(),
            r.seq() == Seq::<Position>::empty(),
    {
        let r = PositionSet { items: Vec::new() };
        proof {
            assert(r@ =~= Set::<Position>::empty());
        }
        r
    }

    /// How many squares the set holds.
    pub fn len(&self) -> (n: usize)
        requires
            self.wf(),
        ensures
            n == self@.len(),
            n == self.seq().len(),
    {
        proof {
            self.items@.unique_seq_to_set();
        }
        self.items.len()
    }

    pub fn is_empty(&self) -> (r: bool)
        requires
            self.wf(),
        ensures
            r == self@.is_empty(),
            !r ==> exists|q: Position| self@.contains(q),
    {
        proof {
            self.items@.unique_seq_to_set();
            if self.items@.len() == 0 {
                assert(self@ =~= Set::<Position>::empty());
            } else {
                assert(self.items@.contains(self.items@[0]));
                assert(self@.contains(self.items@[0]));
                assert(!self@.is_empty());
            }
        }
        self.items.len() == 0
    }

    pub fn contains(&self, p: Position) -> (r: bool)
        ensures
            r == self@.contains(p),
    {
        let n = self.items.len();
        let mut i: usize = 0;
        while i < n
            invariant
                n == self.items@.len(),
                i <= n,
                forall|j: int| 0 <= j < i ==> self.items@[j] != p,
            decreases n - i,
        {
            if self.items[i] == p {
                proof {
                    assert(self.items@.contains(p));
                }
                return true;
            }
            i += 1;
        }
        proof {
            assert(!self.items@.contains(p));
        }
        false
    }

    /// The square at a given place in the traversal order.
    pub fn get_at(&self, i: usize) -> (p: Position)
        requires
            i < self.seq().len(),
        ensures
            p == self.seq()[i as int],
            self@.contains(p),
    {
        proof {
            assert(self.items@.contains(self.items@[i as int]));
        }
        self.items[i]
    }



    /// The squares as a plain vector, in traversal order.
    pub fn to_vec(&self) -> (v: Vec<Position>)
        ensures
            v@ == self.seq(),
    {
        let mut v: Vec<Position> = Vec::new();
        let n = self.items.len();
        let mut i: usize = 0;
        while i < n
            invariant
                n == self.items@.len(),
                i <= n,
                v@ == self.items@.subrange(0, i as int),
            decreases n - i,
        {
            v.push(self.items[i]);
            proof {
                assert(v@ =~= self.items@.subrange(0, i + 1));
            }
            i += 1;
        }
        proof {
            assert(v@ =~= self.items@);
        }
        v
    }

    /// An independent copy of the set.
    pub fn duplicate(&self) -> (r: PositionSet)
        ensures
            r@ == self@,
            r.seq() == self.seq(),
            self.wf() ==> r.wf(),
    {
        let mut items: Vec<Position> = Vec::new();
        let n = self.items.len();
        let mut i: usize = 0;
        while i < n
            invariant
                n == self.items@.len(),
                i <= n,
                items@ == self.items@.subrange(0, i as int),
            decreases n - i,
        {
            items.push(self.items[i]);
            proof {
                assert(items@ =~= self.items@.subrange(0, i + 1));
            }
            i += 1;
        }
        let r = PositionSet { items };
        proof {
            assert(r.items@ =~= self.items@);
        }
        r
    }

    /// Add a square; a square already present is kept once.
    pub fn insert(&mut self, p: Position)
        requires
            old(self).wf(),
        ensures
            final(self).wf(),
            final(self)@ == old(self)@.insert(p),
    {
        if !self.contains(p) {
            self.items.push(p);
            proof {
                assert forall|q: Position| self.items@.contains(q) implies old(
                    self,
                ).items@.contains(q) || q == p by {
                    let j = choose|j: int| 0 <= j < self.items@.len() && self.items@[j] == q;
                    if j < old(self).items@.len() {
                        assert(old(self).items@[j] == q);
                    }
                }
                assert forall|q: Position| old(self).items@.contains(q)
                    implies self.items@.contains(q) by {
                    let j = choose|j: int|
                        0 <= j < old(self).items@.len() && old(self).items@[j] == q;
                    assert(self.items@[j] == q);
                }
                assert(self.items@.contains(p)) by {
                    assert(self.items@[self.items@.len() - 1] == p);
                }
                assert(self@ =~= old(self)@.insert(p));
            }
        } else {
            proof {
                assert(self@ =~= old(self)@.insert(p));
            }
        }
    }

    /// Drop a square, if present.
    pub fn remove(&mut self, p: Position)
        requires
            old(self).wf(),
        ensures
            final(self).wf(),
            final(self)@ == old(self)@.remove(p),
    {
        let n = self.items.len();
        let mut i: usize = 0;
        while i < n
            invariant
                old(self) == self,
                self.wf(),
                n == self.items@.len(),
                i <= n,
                forall|j: int| 0 <= j < i ==> self.items@[j] != p,
            decreases n - i,
        {
            if self.items[i] == p {
                self.items.remove(i);
                proof {
                    let pre = old(self).items@;
                    assert(pre.no_duplicates());
                    assert forall|a: int, b: int|
                        0 <= a < self.items@.len() && 0 <= b < self.items@.len() && a
                            != b implies self.items@[a] != self.items@[b] by {
                        let a0: int = if a < i { a } else { a + 1 };
                        let b0: int = if b < i { b } else { b + 1 };
                        assert(self.items@[a] == pre[a0]);
                        assert(self.items@[b] == pre[b0]);
                    }
                    assert forall|q: Position| self.items@.contains(q) implies pre.contains(q) && q
                        != p by {
                        let j = choose|j: int| 0 <= j < self.items@.len() && self.items@[j] == q;
                        if j < i {
                            assert(pre[j] == q);
                        } else {
                            assert(pre[j + 1] == q);
                        }
                    }
                    assert forall|q: Position| pre.contains(q) && q != p implies self.items@
                        .contains(q) by {
                        let j = choose|j: int| 0 <= j < pre.len() && pre[j] == q;
                        if j < i {
                            assert(self.items@[j] == q);
                        } else {
                            assert(j != i);
                            assert(self.items@[j - 1] == q);
                        }
                    }
                    assert(self@ =~= old(self)@.remove(p));
                }
                return ;
            }
            i += 1;
        }
        proof {
            assert(!self.items@.contains(p));
            assert(self@ =~= old(self)@.remove(p));
        }
    }

    /// Add every square of another set.
    pub fn union_with(&mut self, other: &PositionSet)
        requires
            old(self).wf(),
        ensures
            final(self).wf(),
            final(self)@ == old(self)@ + other@,
    {
        let n = other.items.len();
        let mut i: usize = 0;
        while i < n
            invariant
                self.wf(),
                n == other.items@.len(),
                i <= n,
                forall|q: Position| #[trigger] self@.contains(q) <==> old(self)@.contains(q) || (
                exists|j: int| 0 <= j < i && other.items@[j] == q),
            decreases n - i,
        {
            let p = other.items[i];
            self.insert(p);
            proof {
                assert(other.items@[i as int] == p);
            }
            i += 1;
        }
        proof {
            assert forall|q: Position| #[trigger] other@.contains(q) implies exists|j: int|
                0 <= j < n && other.items@[j] == q by {
            }
            assert(self@ =~= old(self)@ + other@);
        }
    }
}

} // verus!
