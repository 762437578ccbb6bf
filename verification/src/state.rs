//! The aggregate game snapshot and its construction.

use vstd::prelude::*;
use crate::board::Board;
use crate::maps::CastlingMap;
use crate::pieces::{Castling, PieceColor, PieceType, Position};
use crate::sets::PositionSet;

verus! {

/// A complete game snapshot.  The engine never mutates one in place: every
/// transition produces a new value.
pub struct GameData {
    /// Sparse piece placement; unoccupied squares are simply absent.
    pub board: Board,
    /// Castling rights per color; a missing color can never castle.
    pub castling: CastlingMap,
    /// Squares holding pawns that have never moved; only these may advance
    /// two squares.  The set only ever shrinks.
    pub can_move_2_squares: PositionSet,
    /// The side to move.
    pub to_move: PieceColor,
    /// The square a pawn reached by a double step on the immediately
    /// preceding ply, if any; the en passant target.
    pub moved_2_squares: Option<Position>,
}

impl GameData {
    /// The containers behind the snapshot are in shape.
    pub open spec fn wf(self) -> bool {
        self.board.wf() && self.can_move_2_squares.wf()
    }

    /// A snapshot with nothing on the board and nothing allowed.
    pub fn new() -> (r: GameData)
        ensures
            r.wf(),
            r.board@ == Map::<Position, PieceType>::empty(),
            r.castling@ == Map::<PieceColor, Castling>::empty(),
            r.can_move_2_squares@ == Set::<Position>::empty(),
            r.to_move == PieceColor::White,
            r.moved_2_squares is None,
    {
        GameData {
            board: Board::empty(),
            castling: CastlingMap::new(),
            can_move_2_squares: PositionSet::empty(),
            to_move: PieceColor::White,
            moved_2_squares: None,
        }
    }
}

/// The rank a side's back row of pieces starts on.
pub open spec fn home_rank(side: PieceColor) -> int {
    if side == PieceColor::Black {
        7
    } else {
        0
    }
}

/// The rank a side's pawns start on.
pub open spec fn pawn_rank(side: PieceColor) -> int {
    if side == PieceColor::Black {
        6
    } else {
        1
    }
}

/// The piece standing on file `x` of a side's back row at game start.
pub open spec fn back_rank_piece(side: PieceColor, x: int) -> PieceType {
    if x == 0 || x == 7 {
        PieceType::Rook(side)
    } else if x == 1 || x == 6 {
        PieceType::Knight(side)
    } else if x == 2 || x == 5 {
        PieceType::Bishop(side)
    } else if x == 3 {
        PieceType::Queen(side)
    } else {
        PieceType::King(side)
    }
}

/// What one side contributes to the standard starting position.
pub open spec fn start_square(side: PieceColor, p: Position) -> Option<PieceType> {
    if 0 <= p.x < 8 && p.y == home_rank(side) {
        Some(back_rank_piece(side, p.x as int))
    } else if 0 <= p.x < 8 && p.y == pawn_rank(side) {
        Some(PieceType::Pawn(side))
    } else {
        None
    }
}

/// The piece on a square in the standard starting position, if any.
pub open spec fn initial_piece(p: Position) -> Option<PieceType> {
    if start_square(PieceColor::White, p) is Some {
        start_square(PieceColor::White, p)
    } else {
        start_square(PieceColor::Black, p)
    }
}

/// Put one side's sixteen starting pieces on the board and mark its pawns
/// double-step eligible.
pub fn place_pieces(board: &mut Board, can_move_2_squares: &mut PositionSet, side: PieceColor)
    requires
        old(board).wf(),
        old(can_move_2_squares).wf(),
    ensures
        final(board).wf(),
        final(can_move_2_squares).wf(),
        forall|p: Position| #![auto]
            final(board)@.dom().contains(p) <==> old(board)@.dom().contains(p) || start_square(
                side,
                p,
            ) is Some,
        forall|p: Position| #![auto]
            start_square(side, p) is Some ==> final(board)@[p] == start_square(side, p).unwrap(),
        forall|p: Position| #![auto]
            start_square(side, p) is None && old(board)@.dom().contains(p) ==> final(board)@[p]
                == old(board)@[p],
        forall|p: Position| #![auto]
            final(can_move_2_squares)@.contains(p) <==> old(can_move_2_squares)@.contains(p) || (0
                <= p.x < 8 && p.y == pawn_rank(side)),
{
    let y: i8 = if side == PieceColor::Black {
        7
    } else {
        0
    };
    board.set(Position { x: 0, y }, PieceType::Rook(side));
    board.set(Position { x: 1, y }, PieceType::Knight(side));
    board.set(Position { x: 2, y }, PieceType::Bishop(side));
    board.set(Position { x: 3, y }, PieceType::Queen(side));
    board.set(Position { x: 4, y }, PieceType::King(side));
    board.set(Position { x: 5, y }, PieceType::Bishop(side));
    board.set(Position { x: 6, y }, PieceType::Knight(side));
    board.set(Position { x: 7, y }, PieceType::Rook(side));
    let y: i8 = if side == PieceColor::Black {
        6
    } else {
        1
    };
    let mut x: i8 = 0;
    while x < 8
        invariant
            0 <= x <= 8,
            board.wf(),
            can_move_2_squares.wf(),
            y == pawn_rank(side),
            forall|p: Position| #![auto]
                board@.dom().contains(p) <==> old(board)@.dom().contains(p) || (start_square(
                    side,
                    p,
                ) is Some && (p.y != pawn_rank(side) || p.x < x)),
            forall|p: Position| #![auto]
                start_square(side, p) is Some && (p.y != pawn_rank(side) || p.x < x)
                    ==> board@[p] == start_square(side, p).unwrap(),
            forall|p: Position| #![auto]
                start_square(side, p) is None && old(board)@.dom().contains(p) ==> board@[p] == old(
                    board,
                )@[p],
            forall|p: Position| #![auto]
                can_move_2_squares@.contains(p) <==> old(can_move_2_squares)@.contains(p) || (0
                    <= p.x < x && p.y == pawn_rank(side)),
        decreases 8 - x,
    {
        board.set(Position { x, y }, PieceType::Pawn(side));
        can_move_2_squares.insert(Position { x, y });
        x += 1;
    }
}

impl Default for GameData {
    /// The standard starting position: all 32 pieces placed, full castling
    /// rights for both colors, every pawn double-step eligible, no en passant
    /// target, White to move.
    fn default() -> (r: GameData)
        ensures
            r.wf(),
            forall|p: Position| #![auto]
                r.board@.dom().contains(p) <==> initial_piece(p) is Some,
            forall|p: Position| #![auto]
                initial_piece(p) is Some ==> r.board@[p] == initial_piece(p).unwrap(),
            forall|p: Position| #![auto]
                r.can_move_2_squares@.contains(p) <==> (0 <= p.x < 8 && (p.y == 1 || p.y == 6)),
            r.castling@ == Map::<PieceColor, Castling>::empty().insert(
                PieceColor::White,
                Castling { king_side: true, queen_side: true },
            ).insert(PieceColor::Black, Castling { king_side: true, queen_side: true }),
            r.to_move == PieceColor::White,
            r.moved_2_squares is None,
    {
        let mut board = Board::empty();
        let mut can_move_2_squares = PositionSet::empty();
        place_pieces(&mut board, &mut can_move_2_squares, PieceColor::White);
        place_pieces(&mut board, &mut can_move_2_squares, PieceColor::Black);
        let mut castling = CastlingMap::new();
        castling.insert(PieceColor::White, Castling { king_side: true, queen_side: true });
        castling.insert(PieceColor::Black, Castling { king_side: true, queen_side: true });
        GameData {
            board,
            castling,
            can_move_2_squares,
            to_move: PieceColor::White,
            moved_2_squares: None,
        }
    }
}

} // verus!
