//! Laws of the engine: properties that hold of every snapshot, stated over
//! the same definitions the generators' contracts use and proved once and
//! for all.

use vstd::prelude::*;
use crate::pieces::{PieceColor, PieceType, Position, in_bounds};
use crate::rules::{
    BoardMap, apply_board, apply_ep_target, attacked_by_side, attacks, board_safe,
    castle_legal, castle_rook_from, castle_rook_to, ep_legal, ep_simulate, exactly_one_king,
    friendly, is_castle_commit, is_ep_capture, is_sliding, king_square, legal_move, legal_moves_map,
    normal_legal, occupied, path_clear, piece_attacks, seg_contains, simulate, sliding_line,
    state_wf,
};
use crate::state::{GameData, initial_piece};

verus! {

/// The legal-move map never includes a destination that leaves the mover's
/// king attacked.  Every entry is a legal move; an ordinary entry's
/// simulation and an en passant entry's simulation (the captured pawn
/// removed) both leave the king safe, and a castling entry's destination is
/// not in the opponent's attack set on the current board — castling
/// generation performs no further simulation, the path-attack check subsumes
/// it.
pub proof fn lemma_legal_moves_safe(g: GameData, p: Position, q: Position)
    requires
        legal_moves_map(g).dom().contains(p),
        legal_moves_map(g)[p].contains(q),
    ensures
        legal_move(g, p, q),
        normal_legal(g, p, q) ==> board_safe(simulate(g.board@, p, q), g.to_move),
        ep_legal(g, p, q) ==> board_safe(
            ep_simulate(g.board@, g.moved_2_squares.unwrap(), p, g.to_move),
            g.to_move,
        ),
        castle_legal(g, p, q) ==> !attacked_by_side(g.board@, g.to_move.opposite(), q),
{
}

/// The standard starting position is fit for move generation: each side has
/// exactly one king and there is no en passant target.
pub proof fn lemma_start_state_wf(g: GameData)
    requires
        g.wf(),
        forall|p: Position| #![auto] g.board@.dom().contains(p) <==> initial_piece(p) is Some,
        forall|p: Position| #![auto]
            initial_piece(p) is Some ==> g.board@[p] == initial_piece(p).unwrap(),
        g.moved_2_squares is None,
    ensures
        state_wf(g),
        exactly_one_king(g.board@, PieceColor::White),
        exactly_one_king(g.board@, PieceColor::Black),
{
    let wk = Position { x: 4, y: 0 };
    let bk = Position { x: 4, y: 7 };
    assert(initial_piece(wk) == Some(PieceType::King(PieceColor::White)));
    assert(initial_piece(bk) == Some(PieceType::King(PieceColor::Black)));
    assert(king_square(g.board@, PieceColor::White, wk));
    assert(king_square(g.board@, PieceColor::Black, bk));
    assert forall|c: PieceColor, z: Position| #[trigger] king_square(g.board@, c, z) implies z == (
    if c == PieceColor::White {
        wk
    } else {
        bk
    }) by {
        assert(initial_piece(z) == Some(PieceType::King(c)));
    }
}

/// Committing a legal castling move leaves the mover's king safe on the new
/// board, rook relocation included: the path-attack check of generation
/// subsumes a simulation.  The one hypothesis beyond legality is that the
/// moving side's own rook stands on the wing's home square — a state with a
/// castling right but a foreign piece there could relocate an attacker next
/// to the king.
pub proof fn lemma_castle_commit_safe(g: GameData, p: Position, q: Position)
    requires
        exactly_one_king(g.board@, g.to_move),
        castle_legal(g, p, q),
        is_castle_commit(g, p, q),
        occupied(g.board@.remove(p), castle_rook_from(q)),
        g.board@.remove(p)[castle_rook_from(q)].color() == g.to_move,
    ensures
        board_safe(apply_board(g, p, q), g.to_move),
{
    g.board.lemma_dom_in_bounds();
    let b = g.board@;
    let tm = g.to_move;
    let opp = tm.opposite();
    let rf = castle_rook_from(q);
    let rt = castle_rook_to(q);
    let nb = apply_board(g, p, q);
    let y = p.y;
    assert(king_square(b, tm, p));
    assert(in_bounds(p));
    assert(rf != p);
    assert(p.x == 4);
    assert(b.remove(p)[rf] == b[rf]);
    assert(!occupied(b, q));
    assert(!attacked_by_side(b, opp, q));
    // on the new board the mover's one king stands on the destination
    assert(king_square(nb, tm, q));
    assert forall|z: Position| #[trigger] king_square(nb, tm, z) implies z == q by {
        if z != q {
            if z == rt {
                if b[rf] == PieceType::King(tm) {
                    assert(king_square(b, tm, rf));
                    assert(rf == p);
                }
            } else {
                assert(z != p && z != rf);
                assert(king_square(b, tm, z));
                assert(z == p);
            }
        }
    }
    // and nothing of the opponent's reaches it
    assert forall|k: Position| #[trigger] king_square(nb, tm, k) implies !attacked_by_side(
        nb,
        opp,
        k,
    ) by {
        assert(k == q);
        if attacked_by_side(nb, opp, q) {
            let w = choose|w: Position|
                #[trigger] occupied(nb, w) && nb[w].color() == opp && piece_attacks(
                    nb,
                    w,
                    nb[w],
                    q,
                );
            assert(w != p && w != rf && w != q && w != rt);
            assert(occupied(b, w) && b[w] == nb[w]);
            assert(in_bounds(w));
            let pc = b[w];
            assert(!friendly(b, q, pc.color()));
            if pc is King || pc is Knight || pc is Pawn {
                assert(piece_attacks(b, w, pc, q));
                assert(occupied(b, w) && b[w].color() == opp && piece_attacks(b, w, b[w], q));
                assert(attacked_by_side(b, opp, q));
            } else {
                if path_clear(b, w, q) {
                    assert(piece_attacks(b, w, pc, q));
                    assert(occupied(b, w) && b[w].color() == opp && piece_attacks(b, w, b[w], q));
                    assert(attacked_by_side(b, opp, q));
                } else {
                    assert(exists|z: Position|
                        seg_contains(w, q, z) && #[trigger] occupied(b, z));
                    let z = choose|z: Position|
                        seg_contains(w, q, z) && #[trigger] occupied(b, z);
                    assert(!occupied(nb, z));
                    assert(z == p || z == rf);
                    if z == p {
                        assert(w.y == y);
                        assert(seg_contains(w, q, rt));
                        assert(occupied(nb, rt));
                        assert(false);
                    } else {
                        assert(seg_contains(w, q, rf));
                        assert(false);
                    }
                }
            }
        }
    }
}

/// The legal-move map holds no empty entries: an origin square is present
/// exactly when it has at least one legal move, and its set is then
/// inhabited.
pub proof fn lemma_no_empty_entries(g: GameData, p: Position)
    requires
        legal_moves_map(g).dom().contains(p),
    ensures
        exists|q: Position| #[trigger] legal_moves_map(g)[p].contains(q),
{
    let q = choose|q: Position| legal_move(g, p, q);
    assert(legal_moves_map(g)[p].contains(q));
}

/// Every origin in the legal-move map holds a piece of the side to move.
pub proof fn lemma_origins_are_movers(g: GameData, p: Position)
    requires
        legal_moves_map(g).dom().contains(p),
    ensures
        occupied(g.board@, p),
        g.board@[p].color() == g.to_move,
{
    let q = choose|q: Position| legal_move(g, p, q);
    if castle_legal(g, p, q) {
        assert(king_square(g.board@, g.to_move, p));
    }
}

/// Committing an ordinary move — no castling commit, no en passant capture —
/// produces exactly the scratch board the legality filter checked, so an
/// ordinary legal move leaves the mover's king safe on the committed board.
pub proof fn lemma_apply_ordinary_move(g: GameData, start: Position, end: Position)
    requires
        occupied(g.board@, start),
        !is_castle_commit(g, start, end),
        !(g.board@[start] is Pawn && is_ep_capture(g, start, end)),
    ensures
        apply_board(g, start, end) == simulate(g.board@, start, end),
        normal_legal(g, start, end) ==> board_safe(apply_board(g, start, end), g.to_move),
{
}

/// Committing a legal en passant capture produces exactly the scratch board
/// its legality check simulated, so it leaves the mover's king safe on the
/// committed board.
pub proof fn lemma_apply_ep_move(g: GameData, start: Position, end: Position)
    requires
        ep_legal(g, start, end),
    ensures
        apply_board(g, start, end) == ep_simulate(
            g.board@,
            g.moved_2_squares.unwrap(),
            start,
            g.to_move,
        ),
        board_safe(apply_board(g, start, end), g.to_move),
{
    let b = g.board@;
    let t = g.moved_2_squares.unwrap();
    assert(is_ep_capture(g, start, end));
    assert(b.remove(start).remove(t) =~= b.remove(t).remove(start));
    assert(apply_board(g, start, end) =~= ep_simulate(b, t, start, g.to_move));
}

/// A piece standing strictly between a sliding piece and a square cuts that
/// square off: nothing beyond a blocker, friendly or enemy, is attacked
/// along the line.
pub proof fn lemma_sliding_blocked_beyond(b: BoardMap, p: Position, q: Position, z: Position)
    requires
        occupied(b, p),
        is_sliding(b[p]),
        seg_contains(p, q, z),
        occupied(b, z),
    ensures
        !attacks(b, p, q),
{
}

/// An enemy blocker at the end of a clear line is itself attacked: capture
/// the blocker, stop.
pub proof fn lemma_sliding_captures_blocker(b: BoardMap, p: Position, q: Position)
    requires
        occupied(b, p),
        is_sliding(b[p]),
        sliding_line(b[p], p, q),
        in_bounds(q),
        path_clear(b, p, q),
        occupied(b, q),
        b[q].color() != b[p].color(),
    ensures
        attacks(b, p, q),
{
}

/// A friendly blocker's own square is never attacked, whatever the piece.
pub proof fn lemma_friendly_blocker_excluded(b: BoardMap, p: Position, q: Position)
    requires
        occupied(b, p),
        friendly(b, q, b[p].color()),
    ensures
        !attacks(b, p, q),
{
}

/// Knight moves ignore intervening occupancy entirely: whether a knight
/// attacks a square depends only on the two squares themselves, never on
/// what stands between them.
pub proof fn lemma_knight_jumps(
    b1: BoardMap,
    b2: BoardMap,
    p: Position,
    c: PieceColor,
    q: Position,
)
    requires
        occupied(b1, p) && b1[p] == PieceType::Knight(c),
        occupied(b2, p) && b2[p] == PieceType::Knight(c),
        occupied(b1, q) == occupied(b2, q),
        occupied(b1, q) ==> b1[q] == b2[q],
    ensures
        attacks(b1, p, q) == attacks(b2, p, q),
{
}

/// Committing a move never carries the old en passant target over: the
/// successor's target is the destination of a pawn double step made by that
/// very move, or nothing.  Legal-move generation on the successor therefore
/// never consults the pre-move target unless the move just made was itself a
/// double pawn step.
pub proof fn lemma_ep_target_fresh(g: GameData, start: Position, end: Position)
    ensures
        apply_ep_target(g, start, end) is Some ==> apply_ep_target(g, start, end) == Some(end)
            && g.board@[start] is Pawn && (end.y - start.y == 2 || start.y - end.y == 2),
{
}

} // verus!

