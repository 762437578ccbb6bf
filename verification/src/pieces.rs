//! Coordinates, colors and pieces: the vocabulary of the board.

use vstd::prelude::*;

verus! {

/// One of the two sides of a chess game.
#[derive(Clone, Copy, Debug, PartialEq, Eq, Structural, Hash)]
pub enum PieceColor {
    Black,
    White,
}

impl PieceColor {
    /// The other side.
    pub open spec fn opposite(self) -> PieceColor {
        match self {
            PieceColor::Black => PieceColor::White,
            PieceColor::White => PieceColor::Black,
        }
    }

    pub fn get_opposite(&self) -> (r: PieceColor)
        ensures
            r == self.opposite(),
    {
        match self {
            PieceColor::Black => PieceColor::White,
            PieceColor::White => PieceColor::Black,
        }
    }
}

/// A piece is its kind together with the side that owns it; there is no
/// separate color field anywhere else, so a piece with an impossible color
/// cannot be represented.
#[derive(Clone, Copy, Debug, PartialEq, Eq, Structural, Hash)]
pub enum PieceType {
    King(PieceColor),
    Queen(PieceColor),
    Bishop(PieceColor),
    Knight(PieceColor),
    Rook(PieceColor),
    Pawn(PieceColor),
}

impl PieceType {
    /// The side a piece belongs to.
    pub open spec fn color(self) -> PieceColor {
        match self {
            PieceType::King(c) => c,
            PieceType::Queen(c) => c,
            PieceType::Bishop(c) => c,
            PieceType::Knight(c) => c,
            PieceType::Rook(c) => c,
            PieceType::Pawn(c) => c,
        }
    }

    pub fn get_color(&self) -> (r: PieceColor)
        ensures
            r == self.color(),
    {
        match *self {
            PieceType::King(color) => color,
            PieceType::Queen(color) => color,
            PieceType::Bishop(color) => color,
            PieceType::Knight(color) => color,
            PieceType::Rook(color) => color,
            PieceType::Pawn(color) => color,
        }
    }
}

/// A board coordinate: file `x` and rank `y`.  Rank 0 is White's home rank,
/// rank 7 is Black's.
#[derive(Clone, Copy, Debug, PartialEq, Eq, Structural, Hash, PartialOrd, Ord, Default)]
pub struct Position {
    pub x: i8,
    pub y: i8,
}

/// Whether a coordinate lies on the 8x8 board.
pub open spec fn in_bounds(p: Position) -> bool {
    0 <= p.x < 8 && 0 <= p.y < 8
}

pub fn is_valid_chess_position(position: Position) -> (r: bool)
    ensures
        r == in_bounds(position),
{
    0 <= position.x && position.x < 8 && 0 <= position.y && position.y < 8
}

/// Which castling moves are still available to one side.  Rights are only
/// ever cleared, never re-granted.
#[derive(Clone, Copy, Debug, PartialEq, Eq, Structural)]
pub struct Castling {
    pub king_side: bool,
    pub queen_side: bool,
}

} // verus!
