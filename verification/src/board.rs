//! The board: a dense 8x8 array of optional pieces, viewed in specifications
//! as a sparse map from occupied squares to pieces.

use vstd::prelude::*;
use vstd::pervasive::VecAdditionalExecFns;
use crate::pieces::{PieceType, Position, in_bounds, is_valid_chess_position};

verus! {

/// Cell `y * 8 + x` holds the piece standing on square `(x, y)`, if any.
pub struct Board {
    cells: Vec<Option<PieceType>>,
}

/// The index of a square's cell in the backing vector.
pub open spec fn cell_index(p: Position) -> int {
    p.y * 8 + p.x
}

pub proof fn lemma_cell_index_injective(p: Position, q: Position)
    requires
        in_bounds(p),
        in_bounds(q),
        p != q,
    ensures
        cell_index(p) != cell_index(q),
{
}

impl View for Board {
    type V = Map<Position, PieceType>;

    closed spec fn view(&self) -> Map<Position, PieceType> {
        Map::new(
            |p: Position| in_bounds(p) && self.cells@[cell_index(p)] is Some,
            |p: Position| self.cells@[cell_index(p)].unwrap(),
        )
    }
}

impl Board {
    /// The backing vector covers all 64 squares.
    pub closed spec fn wf(self) -> bool {
        self.cells@.len() == 64
    }

    /// Only squares on the board can be occupied.
    pub proof fn lemma_dom_in_bounds(&self)
        ensures
            forall|p: Position| #[trigger] self@.dom().contains(p) ==> in_bounds(p),
    {
    }

    /// An empty board.
    pub fn empty() -> (r: Board)
        ensures
            r.wf(),
            r@ == Map::<Position, PieceType>::empty(),
    {
        let mut cells: Vec<Option<PieceType>> = Vec::new();
        let mut i: usize = 0;
        while i < 64
            invariant
                i <= 64,
                cells@.len() == i,
                forall|j: int| 0 <= j < i ==> cells@[j] is None,
            decreases 64 - i,
        {
            cells.push(None);
            i += 1;
        }
        let r = Board { cells };
        proof {
            assert(r@ =~= Map::<Position, PieceType>::empty());
        }
        r
    }

    /// The piece on a square, `None` for an empty or off-board square.
    pub fn get(&self, p: Position) -> (r: Option<PieceType>)
        requires
            self.wf(),
        ensures
            r == if self@.dom().contains(p) {
                Some(self@[p])
            } else {
                None::<PieceType>
            },
    {
        if is_valid_chess_position(p) {
            let i: usize = (p.y as usize) * 8 + (p.x as usize);
            self.cells[i]
        } else {
            None
        }
    }

    /// Whether a square is occupied.
    pub fn contains_key(&self, p: Position) -> (r: bool)
        requires
            self.wf(),
        ensures
            r == self@.dom().contains(p),
    {
        self.get(p).is_some()
    }

    /// Put a piece on a square, replacing whatever stood there.
    pub fn set(&mut self, p: Position, piece: PieceType)
        requires
            old(self).wf(),
            in_bounds(p),
        ensures
            final(self).wf(),
            final(self)@ == old(self)@.insert(p, piece),
    {
        let i: usize = (p.y as usize) * 8 + (p.x as usize);
        self.cells.set(i, Some(piece));
        proof {
            assert forall|q: Position| in_bounds(q) && q != p implies cell_index(q)
                != cell_index(p) by {
                lemma_cell_index_injective(p, q);
            }
            assert(self@ =~= old(self)@.insert(p, piece));
        }
    }

    /// Take the piece off a square, returning it.
    pub fn remove(&mut self, p: Position) -> (r: Option<PieceType>)
        requires
            old(self).wf(),
            in_bounds(p),
        ensures
            final(self).wf(),
            final(self)@ == old(self)@.remove(p),
            r == if old(self)@.dom().contains(p) {
                Some(old(self)@[p])
            } else {
                None::<PieceType>
            },
    {
        let i: usize = (p.y as usize) * 8 + (p.x as usize);
        let r = self.cells[i];
        self.cells.set(i, None);
        proof {
            assert forall|q: Position| in_bounds(q) && q != p implies cell_index(q)
                != cell_index(p) by {
                lemma_cell_index_injective(p, q);
            }
            assert(self@ =~= old(self)@.remove(p));
        }
        r
    }

    /// An independent copy of the board, for simulating moves on.
    pub fn duplicate(&self) -> (r: Board)
        requires
            self.wf(),
        ensures
            r.wf(),
            r@ == self@,
    {
        let mut cells: Vec<Option<PieceType>> = Vec::new();
        let mut i: usize = 0;
        while i < 64
            invariant
                self.wf(),
                i <= 64,
                cells@.len() == i,
                forall|j: int| 0 <= j < i ==> cells@[j] == self.cells@[j],
            decreases 64 - i,
        {
            cells.push(self.cells[i]);
            i += 1;
        }
        let r = Board { cells };
        proof {
            assert(r.cells@ =~= self.cells@);
            assert(r@ =~= self@);
        }
        r
    }
}

} // verus!
