//! The move applier: commit a chosen move and produce the successor
//! snapshot, together with a pending-promotion flag.

use vstd::prelude::*;
use crate::pieces::{PieceColor, PieceType, Position, in_bounds};
use crate::rules::{
    apply_board, apply_castling, apply_double_step, apply_ep_target, apply_promotion,
    castle_rook_from, is_castle_commit, occupied,
};
use crate::state::GameData;

verus! {

/// Commit a move assumed to come from the legal-move map.  Always: clear the
/// en passant target, lift the mover from its origin, apply the side effects
/// of its kind, set it down on the destination and flip the turn.  A pawn
/// reaching the first or last rank is reported as the pending promotion; the
/// caller resolves it before asking for further moves.
pub fn postprocess_move(game_data: &GameData, start: Position, end: Position) -> (r: (
    GameData,
    Option<Position>,
))
    requires
        game_data.wf(),
        in_bounds(start),
        in_bounds(end),
        occupied(game_data.board@, start),
        game_data.moved_2_squares matches Some(t) ==> in_bounds(t),
        is_castle_commit(*game_data, start, end) ==> (end.x == 6 || end.x == 2)
            && game_data.board@.remove(start).dom().contains(castle_rook_from(end)),
    ensures
        r.0.wf(),
        r.0.board@ == apply_board(*game_data, start, end),
        r.0.castling@ == apply_castling(*game_data, start, end),
        r.0.can_move_2_squares@ == apply_double_step(*game_data, start),
        r.0.moved_2_squares == apply_ep_target(*game_data, start, end),
        r.0.to_move == game_data.to_move.opposite(),
        r.1 == apply_promotion(*game_data, start, end),
{
    let mut new_board = game_data.board.duplicate();
    let mut new_castling = game_data.castling;
    let mut new_double_step = game_data.can_move_2_squares.duplicate();
    let mut new_ep_target: Option<Position> = None;
    let mut to_be_promoted: Option<Position> = None;
    let moving_piece = match new_board.remove(start) {
        Some(piece) => piece,
        None => {
            proof {
                assert(false);
            }
            PieceType::Pawn(PieceColor::White)
        },
    };
    match moving_piece {
        PieceType::King(_) => {
            new_castling.remove(game_data.to_move);
            let dx = start.x - end.x;
            if dx == 2 || dx == -2 {
                if end.x == 6 {
                    let rook = match new_board.remove(Position { x: 7, y: end.y }) {
                        Some(rook) => rook,
                        None => {
                            proof {
                                assert(false);
                            }
                            PieceType::Rook(PieceColor::White)
                        },
                    };
                    new_board.set(Position { x: end.x - 1, y: end.y }, rook);
                } else {
                    let rook = match new_board.remove(Position { x: 0, y: end.y }) {
                        Some(rook) => rook,
                        None => {
                            proof {
                                assert(false);
                            }
                            PieceType::Rook(PieceColor::White)
                        },
                    };
                    new_board.set(Position { x: end.x + 1, y: end.y }, rook);
                }
            }
        },
        PieceType::Rook(_) => {
            if start.x == 0 {
                new_castling.clear_queen_side(moving_piece.get_color());
            } else if start.x == 7 {
                new_castling.clear_king_side(moving_piece.get_color());
            }
        },
        PieceType::Pawn(_) => {
            new_double_step.remove(start);
            let mut ep_capture = false;
            match game_data.moved_2_squares {
                Some(en_passant) => {
                    if en_passant.x == end.x && start.y == en_passant.y {
                        ep_capture = true;
                        new_board.remove(en_passant);
                    }
                },
                None => {},
            }
            if !ep_capture {
                let dy = start.y - end.y;
                if dy == 2 || dy == -2 {
                    new_ep_target = Some(end);
                }
            }
            if end.y == 0 || end.y == 7 {
                to_be_promoted = Some(end);
            }
        },
        _ => {},
    }
    new_board.set(end, moving_piece);
    let new_game_data = GameData {
        board: new_board,
        castling: new_castling,
        can_move_2_squares: new_double_step,
        to_move: game_data.to_move.get_opposite(),
        moved_2_squares: new_ep_target,
    };
    (new_game_data, to_be_promoted)
}

/// Replace the pawn recorded as the pending promotion with the piece the
/// player chose; everything else in the snapshot stands.
pub fn resolve_promotion(game_data: &GameData, position: Position, piece: PieceType) -> (r:
    GameData)
    requires
        game_data.wf(),
        in_bounds(position),
    ensures
        r.wf(),
        r.board@ == game_data.board@.insert(position, piece),
        r.castling@ == game_data.castling@,
        r.can_move_2_squares@ == game_data.can_move_2_squares@,
        r.to_move == game_data.to_move,
        r.moved_2_squares == game_data.moved_2_squares,
{
    let mut board = game_data.board.duplicate();
    board.set(position, piece);
    GameData {
        board,
        castling: game_data.castling,
        can_move_2_squares: game_data.can_move_2_squares.duplicate(),
        to_move: game_data.to_move,
        moved_2_squares: game_data.moved_2_squares,
    }
}

} // verus!
