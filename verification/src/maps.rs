//! Small finite maps keyed by color or by square: castling rights per side,
//! king locations per side, and the aggregated legal-move map.

use vstd::prelude::*;
use crate::pieces::{Castling, PieceColor, Position};
use crate::sets::PositionSet;

verus! {

/// Castling rights per side; a side with no entry can never castle.
#[derive(Clone, Copy, Debug, PartialEq, Eq, Structural)]
pub struct CastlingMap {
    pub white: Option<Castling>,
    pub black: Option<Castling>,
}

impl View for CastlingMap {
    type V = Map<PieceColor, Castling>;

    open spec fn view(&self) -> Map<PieceColor, Castling> {
        Map::new(
            |c: PieceColor|
                match c {
                    PieceColor::White => self.white is Some,
                    PieceColor::Black => self.black is Some,
                },
            |c: PieceColor|
                match c {
                    PieceColor::White => self.white.unwrap(),
                    PieceColor::Black => self.black.unwrap(),
                },
        )
    }
}

proof fn lemma_castling_empty_view(m: CastlingMap)
    requires
        m.white is None,
        m.black is None,
    ensures
        m@ == Map::<PieceColor, Castling>::empty(),
{
    assert(!(m@.dom().contains(PieceColor::White)));
    assert(!(m@.dom().contains(PieceColor::Black)));
    assert(forall|c: PieceColor| !(m@.dom().contains(c)));
    assert(m@.dom() =~= Set::<PieceColor>::empty());
    assert(m@ =~= Map::<PieceColor, Castling>::empty());
}

impl CastlingMap {
    pub fn new() -> (r: CastlingMap)
        ensures
            r@ == Map::<PieceColor, Castling>::empty(),
    {
        let r = CastlingMap { white: None, black: None };
        proof {
            lemma_castling_empty_view(r);
        }
        r
    }

    pub fn get(&self, c: PieceColor) -> (r: Option<Castling>)
        ensures
            r == if self@.dom().contains(c) {
                Some(self@[c])
            } else {
                None::<Castling>
            },
    {
        match c {
            PieceColor::White => self.white,
            PieceColor::Black => self.black,
        }
    }

    pub fn insert(&mut self, c: PieceColor, rights: Castling)
        ensures
            final(self)@ == old(self)@.insert(c, rights),
    {
        match c {
            PieceColor::White => self.white = Some(rights),
            PieceColor::Black => self.black = Some(rights),
        }
        proof {
            assert(self@ =~= old(self)@.insert(c, rights));
        }
    }

    pub fn remove(&mut self, c: PieceColor)
        ensures
            final(self)@ == old(self)@.remove(c),
    {
        match c {
            PieceColor::White => self.white = None,
            PieceColor::Black => self.black = None,
        }
        proof {
            assert(self@ =~= old(self)@.remove(c));
        }
    }

    /// Clear the king-side right of a side, if it has an entry at all.
    pub fn clear_king_side(&mut self, c: PieceColor)
        ensures
            final(self)@ == if old(self)@.dom().contains(c) {
                old(self)@.insert(
                    c,
                    Castling { king_side: false, queen_side: old(self)@[c].queen_side },
                )
            } else {
                old(self)@
            },
    {
        match self.get(c) {
            Some(rights) => {
                self.insert(c, Castling { king_side: false, queen_side: rights.queen_side });
            },
            None => {
                proof {
                    assert(self@ =~= old(self)@);
                }
            },
        }
    }

    /// Clear the queen-side right of a side, if it has an entry at all.
    pub fn clear_queen_side(&mut self, c: PieceColor)
        ensures
            final(self)@ == if old(self)@.dom().contains(c) {
                old(self)@.insert(
                    c,
                    Castling { king_side: old(self)@[c].king_side, queen_side: false },
                )
            } else {
                old(self)@
            },
    {
        match self.get(c) {
            Some(rights) => {
                self.insert(c, Castling { king_side: rights.king_side, queen_side: false });
            },
            None => {
                proof {
                    assert(self@ =~= old(self)@);
                }
            },
        }
    }
}

/// Where each side's king stands, if it has one.
#[derive(Clone, Copy, Debug, PartialEq, Eq, Structural)]
pub struct KingPositions {
    pub white: Option<Position>,
    pub black: Option<Position>,
}

impl KingPositions {
    pub open spec fn spec_get(self, c: PieceColor) -> Option<Position> {
        match c {
            PieceColor::White => self.white,
            PieceColor::Black => self.black,
        }
    }

    pub fn get(&self, c: PieceColor) -> (r: Option<Position>)
        ensures
            r == self.spec_get(c),
    {
        match c {
            PieceColor::White => self.white,
            PieceColor::Black => self.black,
        }
    }
}

/// The aggregated move map: for each origin square, the set of destinations.
/// Origins with no moves are simply absent.
pub struct Moves {
    entries: Vec<(Position, PositionSet)>,
}

impl View for Moves {
    type V = Map<Position, Set<Position>>;

    closed spec fn view(&self) -> Map<Position, Set<Position>> {
        Map::new(
            |p: Position|
                exists|i: int| 0 <= i < self.entries@.len() && (#[trigger] self.entries@[i]).0 == p,
            |p: Position|
                {
                    let i = choose|i: int|
                        0 <= i < self.entries@.len() && (#[trigger] self.entries@[i]).0 == p;
                    self.entries@[i].1@
                },
        )
    }
}

impl Moves {
    pub closed spec fn wf(self) -> bool {
        &&& forall|i: int, j: int|
            0 <= i < self.entries@.len() && 0 <= j < self.entries@.len() && i != j ==> (
            #[trigger] self.entries@[i]).0 != (#[trigger] self.entries@[j]).0
        &&& forall|i: int| 0 <= i < self.entries@.len() ==> (#[trigger] self.entries@[i]).1.wf()
    }

    /// With origins unique, the entry at any index is what the view maps it to.
    proof fn lemma_entry_view(&self, i: int)
        requires
            self.wf(),
            0 <= i < self.entries@.len(),
        ensures
            self@.dom().contains(self.entries@[i].0),
            self@[self.entries@[i].0] == self.entries@[i].1@,
    {
        let p = self.entries@[i].0;
        assert(exists|j: int| 0 <= j < self.entries@.len() && (#[trigger] self.entries@[j]).0 == p);
    }

    pub fn new() -> (r: Moves)
        ensures
            r.wf(),
            r@ == Map::<Position, Set<Position>>::empty(),
    {
        let r = Moves { entries: Vec::new() };
        proof {
            assert(r@ =~= Map::<Position, Set<Position>>::empty());
        }
        r
    }

    /// The index of the entry for an origin square, if there is one.
    fn find(&self, p: Position) -> (r: Option<usize>)
        ensures
            match r {
                Some(i) => i < self.entries@.len() && self.entries@[i as int].0 == p,
                None => forall|i: int|
                    0 <= i < self.entries@.len() ==> (#[trigger] self.entries@[i]).0 != p,
            },
    {
        let n = self.entries.len();
        let mut i: usize = 0;
        while i < n
            invariant
                n == self.entries@.len(),
                i <= n,
                forall|j: int| 0 <= j < i ==> (#[trigger] self.entries@[j]).0 != p,
            decreases n - i,
        {
            if self.entries[i].0 == p {
                return Some(i);
            }
            i += 1;
        }
        None
    }

    /// The destination set recorded for an origin, if any.
    pub fn get(&self, p: Position) -> (r: Option<&PositionSet>)
        requires
            self.wf(),
        ensures
            match r {
                Some(s) => self@.dom().contains(p) && s@ == self@[p] && s.wf(),
                None => !self@.dom().contains(p),
            },
    {
        match self.find(p) {
            Some(i) => {
                proof {
                    self.lemma_entry_view(i as int);
                }
                Some(&self.entries[i].1)
            },
            None => None,
        }
    }

    pub fn contains_key(&self, p: Position) -> (r: bool)
        requires
            self.wf(),
        ensures
            r == self@.dom().contains(p),
    {
        self.get(p).is_some()
    }

    /// Record one more destination for an origin square.
    pub fn add_move(&mut self, origin: Position, dest: Position)
        requires
            old(self).wf(),
        ensures
            final(self).wf(),
            final(self)@ == if old(self)@.dom().contains(origin) {
                old(self)@.insert(origin, old(self)@[origin].insert(dest))
            } else {
                old(self)@.insert(origin, Set::<Position>::empty().insert(dest))
            },
    {
        match self.find(origin) {
            Some(i) => {
                proof {
                    self.lemma_entry_view(i as int);
                }
                let (p0, mut s) = self.entries.remove(i);
                s.insert(dest);
                self.entries.push((p0, s));
                proof {
                    self.lemma_readd_entry(*old(self), i as int);
                    assert(old(self)@[origin].insert(dest) == self.entries@[self.entries@.len()
                        - 1].1@);
                }
            },
            None => {
                let mut s = PositionSet::empty();
                s.insert(dest);
                self.entries.push((origin, s));
                proof {
                    if old(self)@.dom().contains(origin) {
                        let j = choose|j: int|
                            0 <= j < old(self).entries@.len() && (#[trigger] old(
                                self,
                            ).entries@[j]).0 == origin;
                        assert(false);
                    }
                    self.lemma_push_entry(*old(self), origin);
                    assert(Set::<Position>::empty().insert(dest) == self.entries@[self.entries@.len()
                        - 1].1@);
                }
            },
        }
    }

    /// Pushing an entry for a fresh origin adds exactly that binding to the
    /// view.
    proof fn lemma_push_entry(&self, pre: Moves, origin: Position)
        requires
            pre.wf(),
            forall|j: int| 0 <= j < pre.entries@.len() ==> (#[trigger] pre.entries@[j]).0 != origin,
            self.entries@.len() == pre.entries@.len() + 1,
            self.entries@ == pre.entries@.push(self.entries@[self.entries@.len() - 1]),
            self.entries@[self.entries@.len() - 1].0 == origin,
            self.entries@[self.entries@.len() - 1].1.wf(),
        ensures
            self.wf(),
            self@ == pre@.insert(origin, self.entries@[self.entries@.len() - 1].1@),
    {
        let n = pre.entries@.len() as int;
        let last = self.entries@[n].1@;
        assert forall|a: int, b: int|
            0 <= a < self.entries@.len() && 0 <= b < self.entries@.len() && a != b implies (
        #[trigger] self.entries@[a]).0 != (#[trigger] self.entries@[b]).0 by {
            if a < n && b < n {
                assert(self.entries@[a] == pre.entries@[a]);
                assert(self.entries@[b] == pre.entries@[b]);
            } else if a < n {
                assert(self.entries@[a] == pre.entries@[a]);
            } else {
                assert(self.entries@[b] == pre.entries@[b]);
            }
        }
        assert forall|a: int| 0 <= a < self.entries@.len() implies (
        #[trigger] self.entries@[a]).1.wf() by {
            if a < n {
                assert(self.entries@[a] == pre.entries@[a]);
            }
        }
        assert forall|q: Position| #![auto] self@.dom().contains(q) <==> (pre@.dom().contains(q) || q
            == origin) by {
            if self@.dom().contains(q) && q != origin {
                let j = choose|j: int|
                    0 <= j < self.entries@.len() && (#[trigger] self.entries@[j]).0 == q;
                assert(pre.entries@[j].0 == q);
            }
            if pre@.dom().contains(q) {
                let j = choose|j: int|
                    0 <= j < pre.entries@.len() && (#[trigger] pre.entries@[j]).0 == q;
                assert(self.entries@[j].0 == q);
            }
            if q == origin {
                self.lemma_entry_view(n);
            }
        }
        assert forall|q: Position| #![auto] self@.dom().contains(q) implies self@[q] == pre@.insert(
            origin,
            last,
        )[q] by {
            if q == origin {
                self.lemma_entry_view(n);
            } else {
                let j = choose|j: int|
                    0 <= j < self.entries@.len() && (#[trigger] self.entries@[j]).0 == q;
                assert(j < n);
                assert(self.entries@[j] == pre.entries@[j]);
                self.lemma_entry_view(j);
                pre.lemma_entry_view(j);
            }
        }
        assert(self@.dom() =~= pre@.insert(origin, last).dom());
        assert(self@ =~= pre@.insert(origin, last));
    }

    /// Removing an entry and pushing it back with a new destination set
    /// rebinds exactly that origin in the view.
    proof fn lemma_readd_entry(&self, pre: Moves, i: int)
        requires
            pre.wf(),
            0 <= i < pre.entries@.len(),
            self.entries@.len() == pre.entries@.len(),
            self.entries@ == pre.entries@.remove(i).push(
                (pre.entries@[i].0, self.entries@[self.entries@.len() - 1].1),
            ),
            self.entries@[self.entries@.len() - 1].1.wf(),
        ensures
            self.wf(),
            self@ == pre@.insert(pre.entries@[i].0, self.entries@[self.entries@.len() - 1].1@),
    {
        let n = pre.entries@.len() as int;
        let origin = pre.entries@[i].0;
        let last = self.entries@[n - 1].1@;
        assert forall|a: int, b: int|
            0 <= a < n && 0 <= b < n && a != b implies (#[trigger] self.entries@[a]).0 != (
        #[trigger] self.entries@[b]).0 by {
            let a0: int = if a == n - 1 {
                i
            } else if a < i {
                a
            } else {
                a + 1
            };
            let b0: int = if b == n - 1 {
                i
            } else if b < i {
                b
            } else {
                b + 1
            };
            assert(self.entries@[a].0 == pre.entries@[a0].0);
            assert(self.entries@[b].0 == pre.entries@[b0].0);
        }
        assert forall|a: int| 0 <= a < n implies (#[trigger] self.entries@[a]).1.wf() by {
            if a < n - 1 {
                let a0: int = if a < i {
                    a
                } else {
                    a + 1
                };
                assert(self.entries@[a] == pre.entries@[a0]);
            }
        }
        assert forall|q: Position| #![auto] self@.dom().contains(q) <==> (pre@.dom().contains(q) || q
            == origin) by {
            if self@.dom().contains(q) && q != origin {
                let j = choose|j: int|
                    0 <= j < self.entries@.len() && (#[trigger] self.entries@[j]).0 == q;
                assert(j != n - 1);
                let j0: int = if j < i {
                    j
                } else {
                    j + 1
                };
                assert(pre.entries@[j0].0 == q);
            }
            if pre@.dom().contains(q) && q != origin {
                let j = choose|j: int|
                    0 <= j < pre.entries@.len() && (#[trigger] pre.entries@[j]).0 == q;
                assert(j != i);
                let j1: int = if j < i {
                    j
                } else {
                    j - 1
                };
                assert(self.entries@[j1].0 == q);
            }
            if q == origin {
                self.lemma_entry_view(n - 1);
                pre.lemma_entry_view(i);
            }
        }
        assert forall|q: Position| #![auto] self@.dom().contains(q) implies self@[q] == pre@.insert(
            origin,
            last,
        )[q] by {
            if q == origin {
                self.lemma_entry_view(n - 1);
            } else {
                let j = choose|j: int|
                    0 <= j < self.entries@.len() && (#[trigger] self.entries@[j]).0 == q;
                assert(j != n - 1);
                let j0: int = if j < i {
                    j
                } else {
                    j + 1
                };
                assert(self.entries@[j] == pre.entries@[j0]);
                self.lemma_entry_view(j);
                pre.lemma_entry_view(j0);
            }
        }
        assert(self@.dom() =~= pre@.insert(origin, last).dom());
        assert(self@ =~= pre@.insert(origin, last));
    }

    /// The origin at a given place in the entry order.
    pub fn origin_at(&self, i: usize) -> (p: Position)
        requires
            self.wf(),
            i < self.spec_num_origins(),
        ensures
            self@.dom().contains(p),
    {
        proof {
            self.lemma_entry_view(i as int);
        }
        self.entries[i].0
    }

    pub closed spec fn spec_num_origins(self) -> nat {
        self.entries@.len()
    }

    /// How many origin squares have an entry; `origin_at` accepts any index
    /// below this.
    pub fn entry_count(&self) -> (n: usize)
        ensures
            n == self.spec_num_origins(),
    {
        self.entries.len()
    }

    /// Record a whole destination set for an origin with no entry yet.
    pub fn insert(&mut self, origin: Position, dests: PositionSet)
        requires
            old(self).wf(),
            !old(self)@.dom().contains(origin),
            dests.wf(),
        ensures
            final(self).wf(),
            final(self)@ == old(self)@.insert(origin, dests@),
    {
        self.entries.push((origin, dests));
        proof {
            if exists|j: int|
                0 <= j < old(self).entries@.len() && (#[trigger] old(self).entries@[j]).0
                    == origin {
                let j = choose|j: int|
                    0 <= j < old(self).entries@.len() && (#[trigger] old(self).entries@[j]).0
                        == origin;
                assert(false);
            }
            self.lemma_push_entry(*old(self), origin);
        }
    }
}

} // verus!
