//! The legality filter: king location, king safety, and the simulation of a
//! candidate move on a scratch board.

use vstd::prelude::*;
use crate::attack::generate_squares_under_attack_for_side;
use crate::board::{Board, cell_index, lemma_cell_index_injective};
use crate::maps::KingPositions;
use crate::pieces::{PieceColor, PieceType, Position, in_bounds};
use crate::rules::{
    BoardMap, attacked_by_side, board_safe, ep_destination, ep_simulate, exactly_one_king,
    friendly, has_king, king_square, move_safe, occupied, simulate,
};
use crate::state::GameData;

verus! {

/// Some square below cell index `n` holds the king of side `c`.
pub open spec fn king_upto(b: BoardMap, c: PieceColor, n: int) -> bool {
    exists|p: Position| #[trigger] king_square(b, c, p) && cell_index(p) < n
}

/// Locate each side's king.  Every reported square holds that side's king,
/// and a side that has a king is reported.
pub fn collect_kings(board: &Board) -> (r: KingPositions)
    requires
        board.wf(),
    ensures
        forall|c: PieceColor, p: Position|
            r.spec_get(c) == Some(p) ==> #[trigger] king_square(board@, c, p),
        forall|c: PieceColor| has_king(board@, c) ==> (#[trigger] r.spec_get(c)) is Some,
{
    proof {
        board.lemma_dom_in_bounds();
    }
    let mut white: Option<Position> = None;
    let mut black: Option<Position> = None;
    let mut k: usize = 0;
    while k < 64
        invariant
            board.wf(),
            k <= 64,
            forall|p: Position| #[trigger] board@.dom().contains(p) ==> in_bounds(p),
            white matches Some(p) ==> king_square(board@, PieceColor::White, p),
            black matches Some(p) ==> king_square(board@, PieceColor::Black, p),
            king_upto(board@, PieceColor::White, k as int) ==> white is Some,
            king_upto(board@, PieceColor::Black, k as int) ==> black is Some,
        decreases 64 - k,
    {
        let x: i8 = (k % 8) as i8;
        let y: i8 = (k / 8) as i8;
        let p = Position { x, y };
        proof {
            assert(cell_index(p) == k as int);
            assert forall|z: Position| in_bounds(z) && cell_index(z) == k as int implies z == p by {
                if z != p {
                    lemma_cell_index_injective(z, p);
                }
            }
        }
        match board.get(p) {
            Some(piece) => {
                match piece {
                    PieceType::King(PieceColor::White) => {
                        white = Some(p);
                    },
                    PieceType::King(PieceColor::Black) => {
                        black = Some(p);
                    },
                    _ => {},
                }
            },
            None => {},
        }
        proof {
            assert forall|c: PieceColor| king_upto(board@, c, k + 1) implies king_upto(
                board@,
                c,
                k as int,
            ) || king_square(board@, c, p) by {
                let w = choose|w: Position|
                    #[trigger] king_square(board@, c, w) && cell_index(w) < k + 1;
                if cell_index(w) < k as int {
                    assert(king_upto(board@, c, k as int));
                } else {
                    assert(w == p);
                }
            }
        }
        k += 1;
    }
    proof {
        assert forall|c: PieceColor| has_king(board@, c) implies king_upto(board@, c, 64) by {
            let w = choose|w: Position| #[trigger] king_square(board@, c, w);
            assert(in_bounds(w));
            assert(king_square(board@, c, w) && cell_index(w) < 64);
        }
    }
    KingPositions { white, black }
}

/// Decide whether the side to move keeps its king out of the opponent's
/// attack set on the given board.
pub fn verify_board(to_move: PieceColor, new_board: &Board) -> (r: bool)
    requires
        new_board.wf(),
        exactly_one_king(new_board@, to_move),
    ensures
        r == board_safe(new_board@, to_move),
{
    let kings = collect_kings(new_board);
    let king = match kings.get(to_move) {
        Some(king) => king,
        None => {
            proof {
                assert(false);
            }
            Position { x: 0, y: 0 }
        },
    };
    let squares_under_attack = generate_squares_under_attack_for_side(
        new_board,
        to_move.get_opposite(),
    );
    let r = !squares_under_attack.contains(king);
    proof {
        assert(king_square(new_board@, to_move, king));
        if r {
            assert forall|z: Position| king_square(new_board@, to_move, z) implies !attacked_by_side(
                new_board@,
                to_move.opposite(),
                z,
            ) by {
                assert(z == king);
            }
        }
    }
    r
}

/// Moving a piece of side `c` to a square free of friendly pieces neither
/// loses nor duplicates that side's king.
pub proof fn lemma_simulate_keeps_king(b: BoardMap, c: PieceColor, start: Position, end: Position)
    requires
        exactly_one_king(b, c),
        occupied(b, start),
        b[start].color() == c,
        !friendly(b, end, c),
        start != end,
    ensures
        exactly_one_king(simulate(b, start, end), c),
{
    let k = choose|k: Position| #[trigger] king_square(b, c, k);
    let sim = simulate(b, start, end);
    if b[start] == PieceType::King(c) {
        assert(king_square(b, c, start));
        assert(king_square(sim, c, end));
        assert forall|z1: Position, z2: Position|
            #[trigger] king_square(sim, c, z1) && #[trigger] king_square(sim, c, z2) implies z1
            == z2 by {
            if z1 != end {
                assert(z1 != start);
                assert(king_square(b, c, z1));
                assert(king_square(b, c, start));
                assert(z1 == start);
            }
            if z2 != end {
                assert(z2 != start);
                assert(king_square(b, c, z2));
                assert(king_square(b, c, start));
                assert(z2 == start);
            }
        }
    } else {
        assert(k != start);
        assert(k != end);
        assert(king_square(sim, c, k));
        assert forall|z1: Position, z2: Position|
            #[trigger] king_square(sim, c, z1) && #[trigger] king_square(sim, c, z2) implies z1
            == z2 by {
            if z1 != end {
                assert(king_square(b, c, z1));
            }
            if z2 != end {
                assert(king_square(b, c, z2));
            }
        }
    }
}

/// Capturing en passant neither loses nor duplicates the mover's king, as
/// long as the landing square does not hold it.
pub proof fn lemma_ep_simulate_keeps_king(b: BoardMap, c: PieceColor, t: Position, p: Position)
    requires
        exactly_one_king(b, c),
        occupied(b, t),
        b[t] == PieceType::Pawn(c.opposite()),
        occupied(b, p),
        b[p] == PieceType::Pawn(c),
        !king_square(b, c, ep_destination(t, c)),
    ensures
        exactly_one_king(ep_simulate(b, t, p, c), c),
{
    let k = choose|k: Position| #[trigger] king_square(b, c, k);
    let dest = ep_destination(t, c);
    let sim = ep_simulate(b, t, p, c);
    assert(k != t);
    assert(k != p);
    assert(k != dest);
    assert(king_square(sim, c, k));
    assert forall|z1: Position, z2: Position|
        #[trigger] king_square(sim, c, z1) && #[trigger] king_square(sim, c, z2) implies z1
        == z2 by {
        if z1 != dest {
            assert(king_square(b, c, z1));
        }
        if z2 != dest {
            assert(king_square(b, c, z2));
        }
    }
}

/// Simulate moving the piece at `start` onto `end` on a scratch copy of the
/// board and report whether the mover's king survives.
pub fn try_make_move(game_data: &GameData, start: Position, end: Position) -> (r: bool)
    requires
        game_data.wf(),
        occupied(game_data.board@, start),
        in_bounds(end),
        exactly_one_king(simulate(game_data.board@, start, end), game_data.to_move),
    ensures
        r == move_safe(game_data.board@, game_data.to_move, start, end),
{
    proof {
        game_data.board.lemma_dom_in_bounds();
    }
    let mut new_board = game_data.board.duplicate();
    let moving_piece = match new_board.remove(start) {
        Some(piece) => piece,
        None => {
            proof {
                assert(false);
            }
            PieceType::Pawn(PieceColor::White)
        },
    };
    new_board.set(end, moving_piece);
    verify_board(game_data.to_move, &new_board)
}

} // verus!
