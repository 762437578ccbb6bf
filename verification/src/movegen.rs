//! The pseudo-legal move generator and the aggregation of fully legal moves.

use vstd::prelude::*;
use crate::attack::{
    attack_set, generate_squares_under_attack_for_position, generate_squares_under_attack_for_side,
    generate_squares_under_attack_pawn,
};
use crate::board::{cell_index, lemma_cell_index_injective};
use crate::legality::{
    collect_kings, lemma_ep_simulate_keeps_king, lemma_simulate_keeps_king, try_make_move,
    verify_board,
};
use crate::maps::Moves;
use crate::pieces::{PieceColor, PieceType, Position, in_bounds, is_valid_chess_position};
use crate::rules::{
    attacked_by_side, attacks, castle_extend, castle_legal, ep_destination, ep_extend, ep_legal,
    ep_simulate, exactly_one_king, has_castle_move, has_ep_move, has_legal_move, has_normal_move,
    king_square, legal_move, legal_moves_map, lemma_pseudo_legal_dest, move_safe, normal_legal,
    normal_legal_set, normal_moves_map, occupied, pawn_capture, pawn_move_set, pawn_push,
    pseudo_legal, pseudo_legal_set, state_wf,
};
use crate::sets::PositionSet;
use crate::state::GameData;

verus! {

/// A pawn's quiet advances together with the captures among the first listed
/// attack squares.
pub open spec fn pawn_partial_set(g: GameData, p: Position, sub: Seq<Position>) -> Set<Position> {
    Set::new(|q: Position| pawn_push(g, p, q) || (sub.contains(q) && occupied(g.board@, q)))
}

/// The listed pseudo-legal destinations that survive the king-safety
/// simulation.
pub open spec fn safe_filtered_set(g: GameData, p: Position, sub: Seq<Position>) -> Set<Position> {
    Set::new(
        |q: Position| sub.contains(q) && move_safe(g.board@, g.to_move, p, q),
    )
}

/// A pawn's moves: forward one onto an empty square; forward two over empty
/// squares while still double-step eligible; and its attack squares when an
/// enemy piece actually stands there.
pub fn generate_moves_pawn(game_data: &GameData, position: Position) -> (out: PositionSet)
    requires
        game_data.wf(),
        occupied(game_data.board@, position),
        game_data.board@[position] is Pawn,
    ensures
        out.wf(),
        out@ == pawn_move_set(*game_data, position),
{
    proof {
        game_data.board.lemma_dom_in_bounds();
    }
    let color = match game_data.board.get(position) {
        Some(piece) => piece.get_color(),
        None => PieceColor::White,
    };
    let (move_pos, two_squares) = match color {
        PieceColor::White => (
            Position { x: position.x, y: position.y + 1 },
            Position { x: position.x, y: position.y + 2 },
        ),
        PieceColor::Black => (
            Position { x: position.x, y: position.y - 1 },
            Position { x: position.x, y: position.y - 2 },
        ),
    };
    let mut out = PositionSet::empty();
    if is_valid_chess_position(move_pos) && !game_data.board.contains_key(move_pos) {
        out.insert(move_pos);
    }
    if game_data.can_move_2_squares.contains(position) && is_valid_chess_position(two_squares)
        && !game_data.board.contains_key(two_squares) && !game_data.board.contains_key(move_pos) {
        out.insert(two_squares);
    }
    let attack_squares = generate_squares_under_attack_pawn(&game_data.board, position);
    proof {
        assert forall|q: Position| #![auto]
            out@.contains(q) <==> pawn_push(*game_data, position, q) by {}
        assert(out@ =~= pawn_partial_set(
            *game_data,
            position,
            attack_squares.seq().subrange(0, 0),
        ));
    }
    let n = attack_squares.len();
    let mut j: usize = 0;
    while j < n
        invariant
            game_data.wf(),
            occupied(game_data.board@, position),
            n == attack_squares.seq().len(),
            attack_squares.wf(),
            attack_squares@ == attack_set(game_data.board@, position),
            j <= n,
            out.wf(),
            out@ == pawn_partial_set(
                *game_data,
                position,
                attack_squares.seq().subrange(0, j as int),
            ),
        decreases n - j,
    {
        let attack_square = attack_squares.get_at(j);
        let ghost pre = out@;
        let ghost sub_j = attack_squares.seq().subrange(0, j as int);
        let ghost sub_j1 = attack_squares.seq().subrange(0, j + 1);
        if game_data.board.contains_key(attack_square) {
            out.insert(attack_square);
        }
        proof {
            assert(attack_squares.seq()[j as int] == attack_square);
            assert(sub_j1 == sub_j.push(attack_square));
            assert forall|q: Position| #![auto]
                out@.contains(q) <==> (pawn_push(*game_data, position, q) || (sub_j1.contains(q)
                    && occupied(game_data.board@, q))) by {
                assert(pre.contains(q) <==> (pawn_push(*game_data, position, q) || (sub_j.contains(
                    q,
                ) && occupied(game_data.board@, q))));
                if q == attack_square {
                    assert(sub_j1[sub_j1.len() - 1] == q);
                    assert(sub_j1.contains(q));
                } else {
                    assert(out@.contains(q) == pre.contains(q));
                    if sub_j1.contains(q) {
                        let i = choose|i: int| 0 <= i < sub_j1.len() && sub_j1[i] == q;
                        assert(i < j);
                        assert(sub_j[i] == q);
                        assert(sub_j.contains(q));
                    }
                    if sub_j.contains(q) {
                        let i = choose|i: int| 0 <= i < sub_j.len() && sub_j[i] == q;
                        assert(sub_j1[i] == q);
                        assert(sub_j1.contains(q));
                    }
                }
            }
            assert(out@ =~= pawn_partial_set(*game_data, position, sub_j1));
        }
        j += 1;
    }
    proof {
        attack_squares.lemma_seq_view();
        assert(attack_squares.seq().subrange(0, n as int) == attack_squares.seq());
        assert forall|q: Position| #![auto]
            out@.contains(q) <==> (pawn_push(*game_data, position, q) || pawn_capture(
                game_data.board@,
                position,
                q,
            )) by {
            assert(out@.contains(q) <==> (pawn_push(*game_data, position, q) || (
            attack_squares.seq().contains(q) && occupied(game_data.board@, q))));
            if attack_squares.seq().contains(q) {
                assert(attack_squares@.contains(q));
            }
            if pawn_capture(game_data.board@, position, q) {
                assert(attacks(game_data.board@, position, q));
                assert(attack_squares@.contains(q));
                assert(attack_squares.seq().contains(q));
            }
        }
        assert(out@ =~= pawn_move_set(*game_data, position));
    }
    out
}

/// The destinations the piece on `position` may move to under its movement
/// rules, check exposure ignored; an empty square has none.
pub fn generate_default_moves(game_data: &GameData, position: Position) -> (out: PositionSet)
    requires
        game_data.wf(),
    ensures
        out.wf(),
        out@ == pseudo_legal_set(*game_data, position),
{
    let piece = match game_data.board.get(position) {
        Some(piece) => piece,
        None => {
            let out = PositionSet::empty();
            proof {
                assert(out@ =~= pseudo_legal_set(*game_data, position));
            }
            return out;
        },
    };
    match piece {
        PieceType::Pawn(_) => {
            let out = generate_moves_pawn(game_data, position);
            proof {
                assert(out@ =~= pseudo_legal_set(*game_data, position));
            }
            out
        },
        _ => {
            let out = generate_squares_under_attack_for_position(&game_data.board, position);
            proof {
                assert(out@ =~= pseudo_legal_set(*game_data, position));
            }
            out
        },
    }
}

/// The ordinary legal moves with cell index below `n`, aggregated by origin.
pub open spec fn normal_map_upto(g: GameData, n: int) -> Map<Position, Set<Position>> {
    Map::new(
        |p: Position| cell_index(p) < n && has_normal_move(g, p),
        |p: Position| normal_legal_set(g, p),
    )
}

/// For every piece of the side to move, its pseudo-legal destinations that
/// survive the king-safety simulation; origins with none are omitted.
pub fn generate_normal_default_moves(game_data: &GameData) -> (moves: Moves)
    requires
        game_data.wf(),
        exactly_one_king(game_data.board@, game_data.to_move),
    ensures
        moves.wf(),
        moves@ == normal_moves_map(*game_data),
{
    proof {
        game_data.board.lemma_dom_in_bounds();
    }
    let mut moves = Moves::new();
    let mut k: usize = 0;
    proof {
        assert(moves@ =~= normal_map_upto(*game_data, 0));
    }
    while k < 64
        invariant
            game_data.wf(),
            exactly_one_king(game_data.board@, game_data.to_move),
            forall|p: Position| #[trigger] game_data.board@.dom().contains(p) ==> in_bounds(p),
            k <= 64,
            moves.wf(),
            moves@ == normal_map_upto(*game_data, k as int),
        decreases 64 - k,
    {
        let x: i8 = (k % 8) as i8;
        let y: i8 = (k / 8) as i8;
        let p = Position { x, y };
        proof {
            assert(cell_index(p) == k as int);
            assert forall|z: Position| in_bounds(z) && cell_index(z) == k as int implies z == p by {
                if z != p {
                    lemma_cell_index_injective(z, p);
                }
            }
        }
        let ghost pre = moves@;
        let mut piece_color_matches = false;
        match game_data.board.get(p) {
            Some(piece) => {
                if piece.get_color() == game_data.to_move {
                    piece_color_matches = true;
                }
            },
            None => {},
        }
        if piece_color_matches {
            let piece_moves = generate_default_moves(game_data, p);
            let mut valid = PositionSet::empty();
            let pn = piece_moves.len();
            let mut j: usize = 0;
            proof {
                assert(valid@ =~= safe_filtered_set(
                    *game_data,
                    p,
                    piece_moves.seq().subrange(0, 0),
                ));
            }
            while j < pn
                invariant
                    game_data.wf(),
                    exactly_one_king(game_data.board@, game_data.to_move),
                    occupied(game_data.board@, p),
                    game_data.board@[p].color() == game_data.to_move,
                    pn == piece_moves.seq().len(),
                    piece_moves.wf(),
                    piece_moves@ == pseudo_legal_set(*game_data, p),
                    j <= pn,
                    valid.wf(),
                    valid@ == safe_filtered_set(
                        *game_data,
                        p,
                        piece_moves.seq().subrange(0, j as int),
                    ),
                decreases pn - j,
            {
                let piece_move = piece_moves.get_at(j);
                proof {
                    assert(piece_moves@.contains(piece_move));
                    assert(pseudo_legal(*game_data, p, piece_move));
                    lemma_pseudo_legal_dest(*game_data, p, piece_move);
                    lemma_simulate_keeps_king(
                        game_data.board@,
                        game_data.to_move,
                        p,
                        piece_move,
                    );
                }
                let ghost prev = valid@;
                let ghost sub_j = piece_moves.seq().subrange(0, j as int);
                let ghost sub_j1 = piece_moves.seq().subrange(0, j + 1);
                if try_make_move(game_data, p, piece_move) {
                    valid.insert(piece_move);
                }
                proof {
                    assert(piece_moves.seq()[j as int] == piece_move);
                    assert(sub_j1 == sub_j.push(piece_move));
                    assert forall|q: Position| #![auto]
                        valid@.contains(q) <==> (sub_j1.contains(q) && move_safe(
                            game_data.board@,
                            game_data.to_move,
                            p,
                            q,
                        )) by {
                        assert(prev.contains(q) <==> (sub_j.contains(q) && move_safe(
                            game_data.board@,
                            game_data.to_move,
                            p,
                            q,
                        )));
                        if q == piece_move {
                            assert(sub_j1[sub_j1.len() - 1] == q);
                            assert(sub_j1.contains(q));
                            if !move_safe(game_data.board@, game_data.to_move, p, q) {
                                assert(!prev.contains(q));
                                assert(valid@ == prev);
                            }
                        } else {
                            assert(valid@.contains(q) == prev.contains(q));
                            if sub_j1.contains(q) {
                                let i = choose|i: int| 0 <= i < sub_j1.len() && sub_j1[i] == q;
                                assert(i < j);
                                assert(sub_j[i] == q);
                                assert(sub_j.contains(q));
                            }
                            if sub_j.contains(q) {
                                let i = choose|i: int| 0 <= i < sub_j.len() && sub_j[i] == q;
                                assert(sub_j1[i] == q);
                                assert(sub_j1.contains(q));
                            }
                        }
                    }
                    assert(valid@ =~= safe_filtered_set(*game_data, p, sub_j1));
                }
                j += 1;
            }
            proof {
                piece_moves.lemma_seq_view();
                assert(piece_moves.seq().subrange(0, pn as int) == piece_moves.seq());
                assert forall|q: Position| #![auto]
                    valid@.contains(q) <==> normal_legal(*game_data, p, q) by {
                    assert(valid@.contains(q) <==> (piece_moves.seq().contains(q) && move_safe(
                        game_data.board@,
                        game_data.to_move,
                        p,
                        q,
                    )));
                    if piece_moves.seq().contains(q) {
                        assert(piece_moves@.contains(q));
                    }
                    if normal_legal(*game_data, p, q) {
                        assert(piece_moves@.contains(q));
                        assert(piece_moves.seq().contains(q));
                    }
                }
                assert(valid@ =~= normal_legal_set(*game_data, p));
            }
            if !valid.is_empty() {
                proof {
                    assert(!pre.dom().contains(p));
                    let w = choose|w: Position| valid@.contains(w);
                    assert(normal_legal(*game_data, p, w));
                    assert(has_normal_move(*game_data, p));
                }
                moves.insert(p, valid);
                proof {
                    assert forall|z: Position| #![auto]
                        moves@.dom().contains(z) <==> (cell_index(z) < k + 1 && has_normal_move(
                            *game_data,
                            z,
                        )) by {
                        if z != p && has_normal_move(*game_data, z) {
                            let w = choose|w: Position| normal_legal(*game_data, z, w);
                            assert(occupied(game_data.board@, z));
                            assert(in_bounds(z));
                        }
                    }
                    assert(moves@ =~= normal_map_upto(*game_data, k + 1));
                }
            } else {
                proof {
                    assert forall|z: Position| #![auto]
                        pre.dom().contains(z) <==> (cell_index(z) < k + 1 && has_normal_move(
                            *game_data,
                            z,
                        )) by {
                        if z != p && has_normal_move(*game_data, z) {
                            let w = choose|w: Position| normal_legal(*game_data, z, w);
                            assert(occupied(game_data.board@, z));
                            assert(in_bounds(z));
                        }
                        if z == p && has_normal_move(*game_data, z) {
                            let w = choose|w: Position| normal_legal(*game_data, z, w);
                            assert(valid@.contains(w));
                            assert(false);
                        }
                    }
                    assert(moves@ =~= normal_map_upto(*game_data, k + 1));
                }
            }
        } else {
            proof {
                assert forall|z: Position| #![auto]
                    pre.dom().contains(z) <==> (cell_index(z) < k + 1 && has_normal_move(
                        *game_data,
                        z,
                    )) by {
                    if has_normal_move(*game_data, z) {
                        let w = choose|w: Position| normal_legal(*game_data, z, w);
                        assert(occupied(game_data.board@, z));
                        assert(in_bounds(z));
                        if z == p {
                            assert(false);
                        }
                    }
                }
                assert(moves@ =~= normal_map_upto(*game_data, k + 1));
            }
        }
        k += 1;
    }
    proof {
        assert forall|z: Position| #![auto]
            moves@.dom().contains(z) <==> has_normal_move(*game_data, z) by {
            if has_normal_move(*game_data, z) {
                let w = choose|w: Position| normal_legal(*game_data, z, w);
                assert(occupied(game_data.board@, z));
                assert(in_bounds(z));
                assert(cell_index(z) < 64);
            }
        }
        assert(moves@ =~= normal_moves_map(*game_data));
    }
    moves
}

/// A move map extended with whatever en passant capture the single candidate
/// pawn on `cand` has.
pub open spec fn ep_extend_one(g: GameData, m: Map<Position, Set<Position>>, cand: Position) -> Map<
    Position,
    Set<Position>,
> {
    Map::new(
        |z: Position| m.dom().contains(z) || (z == cand && has_ep_move(g, z)),
        |z: Position|
            Set::new(
                |q: Position| (m.dom().contains(z) && m[z].contains(q)) || (z == cand && ep_legal(
                    g,
                    z,
                    q,
                )),
            ),
    )
}

/// Test one pawn beside the en passant target: simulate the capture and
/// record it when the mover's king survives.
fn try_ep_candidate(game_data: &GameData, t: Position, cand: Position, moves: &mut Moves)
    requires
        game_data.wf(),
        old(moves).wf(),
        exactly_one_king(game_data.board@, game_data.to_move),
        game_data.moved_2_squares == Some(t),
        occupied(game_data.board@, t),
        game_data.board@[t] == PieceType::Pawn(game_data.to_move.opposite()),
        !king_square(
            game_data.board@,
            game_data.to_move,
            ep_destination(t, game_data.to_move),
        ),
        cand == (Position { x: (t.x - 1) as i8, y: t.y }) || cand == (Position {
            x: (t.x + 1) as i8,
            y: t.y,
        }),
    ensures
        final(moves).wf(),
        final(moves)@ == ep_extend_one(*game_data, old(moves)@, cand),
{
    proof {
        game_data.board.lemma_dom_in_bounds();
    }
    let y_modifier: i8 = if game_data.to_move == PieceColor::White {
        1
    } else {
        -1
    };
    let dest = Position { x: t.x, y: t.y + y_modifier };
    proof {
        assert(dest == ep_destination(t, game_data.to_move));
    }
    let mut ok = is_valid_chess_position(cand) && is_valid_chess_position(dest);
    if ok {
        match game_data.board.get(cand) {
            Some(piece) => {
                match piece {
                    PieceType::Pawn(c2) => {
                        if c2 != game_data.to_move {
                            ok = false;
                        }
                    },
                    _ => {
                        ok = false;
                    },
                }
            },
            None => {
                ok = false;
            },
        }
    }
    if ok {
        let mut new_board = game_data.board.duplicate();
        new_board.remove(t);
        let moving_pawn = match new_board.remove(cand) {
            Some(piece) => piece,
            None => {
                proof {
                    assert(false);
                }
                PieceType::Pawn(PieceColor::White)
            },
        };
        new_board.set(dest, moving_pawn);
        proof {
            lemma_ep_simulate_keeps_king(game_data.board@, game_data.to_move, t, cand);
            assert(new_board@ == ep_simulate(game_data.board@, t, cand, game_data.to_move));
        }
        if !verify_board(game_data.to_move, &new_board) {
            ok = false;
        }
    }
    proof {
        assert forall|q: Position| #![auto] ep_legal(*game_data, cand, q) <==> (ok && q
            == dest) by {}
    }
    let ghost m0 = moves@;
    if ok {
        moves.add_move(cand, dest);
        proof {
            assert forall|z: Position| #![auto]
                moves@.dom().contains(z) <==> ep_extend_one(*game_data, m0, cand).dom().contains(
                    z,
                ) by {
                if z == cand {
                    assert(ep_legal(*game_data, cand, dest));
                    assert(has_ep_move(*game_data, cand));
                }
            }
            assert forall|z: Position| #![auto] moves@.dom().contains(z) implies moves@[z] =~= ep_extend_one(
                *game_data,
                m0,
                cand,
            )[z] by {}
            assert(moves@ =~~= ep_extend_one(*game_data, m0, cand));
        }
    } else {
        proof {
            assert forall|z: Position| #![auto]
                moves@.dom().contains(z) <==> ep_extend_one(*game_data, m0, cand).dom().contains(
                    z,
                ) by {
                if z == cand && has_ep_move(*game_data, z) {
                    let w = choose|w: Position| ep_legal(*game_data, z, w);
                    assert(false);
                }
            }
            assert forall|z: Position| #![auto] moves@.dom().contains(z) implies moves@[z] =~= ep_extend_one(
                *game_data,
                m0,
                cand,
            )[z] by {
                if z == cand {
                    assert forall|q: Position| #![auto] !ep_legal(*game_data, z, q) by {}
                }
            }
            assert(moves@ =~~= ep_extend_one(*game_data, m0, cand));
        }
    }
}

/// The en passant capture generator: when the en passant target holds a just
/// double-stepped enemy pawn, each of the mover's pawns beside it may capture
/// onto the skipped square, subject to the same king-safety check as any
/// other move.
pub fn generate_en_passant_moves(game_data: &GameData, moves: &mut Moves)
    requires
        game_data.wf(),
        old(moves).wf(),
        exactly_one_king(game_data.board@, game_data.to_move),
        game_data.moved_2_squares matches Some(t) ==> !king_square(
            game_data.board@,
            game_data.to_move,
            ep_destination(t, game_data.to_move),
        ),
    ensures
        final(moves).wf(),
        final(moves)@ == ep_extend(*game_data, old(moves)@),
{
    proof {
        game_data.board.lemma_dom_in_bounds();
    }
    let ghost m0 = moves@;
    let t = match game_data.moved_2_squares {
        Some(t) => t,
        None => {
            proof {
                lemma_ep_extend_trivial(*game_data, m0);
            }
            return ;
        },
    };
    let target_is_enemy_pawn = match game_data.board.get(t) {
        Some(piece) => {
            match piece {
                PieceType::Pawn(c) => c == game_data.to_move.get_opposite(),
                _ => false,
            }
        },
        None => false,
    };
    if !target_is_enemy_pawn {
        proof {
            lemma_ep_extend_trivial(*game_data, m0);
        }
        return ;
    }
    let left = Position { x: t.x - 1, y: t.y };
    let right = Position { x: t.x + 1, y: t.y };
    try_ep_candidate(game_data, t, left, moves);
    let ghost m1 = moves@;
    try_ep_candidate(game_data, t, right, moves);
    proof {
        assert(left != right);
        assert forall|p: Position, q: Position| #![auto] ep_legal(*game_data, p, q) implies p
            == left || p == right by {}
        assert forall|z: Position| #![auto]
            moves@.dom().contains(z) <==> ep_extend(*game_data, m0).dom().contains(z) by {
            if has_ep_move(*game_data, z) {
                let w = choose|w: Position| ep_legal(*game_data, z, w);
            }
        }
        assert forall|z: Position| #![auto] moves@.dom().contains(z) implies moves@[z] =~= ep_extend(
            *game_data,
            m0,
        )[z] by {
            if z != left && z != right {
                assert forall|q: Position| #![auto] !ep_legal(*game_data, z, q) by {}
            }
        }
        assert(moves@ =~~= ep_extend(*game_data, m0));
    }
}

/// A snapshot with no usable en passant target extends a move map by nothing.
proof fn lemma_ep_extend_trivial(g: GameData, m: Map<Position, Set<Position>>)
    requires
        g.moved_2_squares matches Some(t) ==> !(occupied(g.board@, t) && g.board@[t]
            == PieceType::Pawn(g.to_move.opposite())),
    ensures
        ep_extend(g, m) == m,
{
    assert forall|p: Position, q: Position| #![auto] !ep_legal(g, p, q) by {}
    assert forall|z: Position| #![auto]
        ep_extend(g, m).dom().contains(z) <==> m.dom().contains(z) by {
        if has_ep_move(g, z) {
            let w = choose|w: Position| ep_legal(g, z, w);
        }
    }
    assert forall|z: Position| #![auto] m.dom().contains(z) implies ep_extend(g, m)[z] =~= m[z] by {}
    assert(ep_extend(g, m) =~~= m);
}

/// A move map is unchanged by castling extension when no castling move is
/// legal.
proof fn lemma_castle_extend_trivial(g: GameData, m: Map<Position, Set<Position>>)
    requires
        forall|p: Position, q: Position| !(#[trigger] castle_legal(g, p, q)),
    ensures
        castle_extend(g, m) == m,
{
    assert forall|z: Position| #![auto]
        castle_extend(g, m).dom().contains(z) <==> m.dom().contains(z) by {
        if has_castle_move(g, z) {
            let w = choose|w: Position| castle_legal(g, z, w);
        }
    }
    assert forall|z: Position| #![auto] m.dom().contains(z) implies castle_extend(g, m)[z]
        =~= m[z] by {}
    assert(castle_extend(g, m) =~~= m);
}

/// The castling generator: each surviving right gates a two-file king move,
/// allowed when the king is not in check, the squares between king and rook
/// are empty, and the king's transit path is unattacked.
pub fn generate_castling_moves(game_data: &GameData, moves: &mut Moves)
    requires
        game_data.wf(),
        old(moves).wf(),
        game_data.castling@.dom().contains(game_data.to_move) ==> exactly_one_king(
            game_data.board@,
            game_data.to_move,
        ),
    ensures
        final(moves).wf(),
        final(moves)@ == castle_extend(*game_data, old(moves)@),
{
    proof {
        game_data.board.lemma_dom_in_bounds();
    }
    let ghost m0 = moves@;
    let castling = match game_data.castling.get(game_data.to_move) {
        Some(castling) => castling,
        None => {
            proof {
                assert forall|p: Position, q: Position|
                    !(#[trigger] castle_legal(*game_data, p, q)) by {}
                lemma_castle_extend_trivial(*game_data, m0);
            }
            return ;
        },
    };
    let kings = collect_kings(&game_data.board);
    let king_pos = match kings.get(game_data.to_move) {
        Some(king_pos) => king_pos,
        None => {
            proof {
                assert(false);
            }
            Position { x: 0, y: 0 }
        },
    };
    proof {
        assert(king_square(game_data.board@, game_data.to_move, king_pos));
        assert forall|p: Position, q: Position| #[trigger] castle_legal(*game_data, p, q) implies p
            == king_pos by {
            assert(king_square(game_data.board@, game_data.to_move, p));
        }
    }
    let attack_squares = generate_squares_under_attack_for_side(
        &game_data.board,
        game_data.to_move.get_opposite(),
    );
    if attack_squares.contains(king_pos) {
        proof {
            assert forall|p: Position, q: Position|
                !(#[trigger] castle_legal(*game_data, p, q)) by {
                if castle_legal(*game_data, p, q) {
                    assert(p == king_pos);
                    assert(!attacked_by_side(
                        game_data.board@,
                        game_data.to_move.opposite(),
                        king_pos,
                    ));
                }
            }
            lemma_castle_extend_trivial(*game_data, m0);
        }
        return ;
    }
    let y = king_pos.y;
    let dest_ks = Position { x: 6, y };
    let dest_qs = Position { x: 2, y };
    let mut ks_ok = castling.king_side;
    if ks_ok {
        if game_data.board.contains_key(Position { x: 5, y }) || game_data.board.contains_key(
            Position { x: 6, y },
        ) {
            ks_ok = false;
        }
    }
    if ks_ok {
        if attack_squares.contains(Position { x: 5, y }) || attack_squares.contains(
            Position { x: 6, y },
        ) {
            ks_ok = false;
        }
    }
    let mut qs_ok = castling.queen_side;
    if qs_ok {
        if game_data.board.contains_key(Position { x: 1, y }) || game_data.board.contains_key(
            Position { x: 2, y },
        ) || game_data.board.contains_key(Position { x: 3, y }) {
            qs_ok = false;
        }
    }
    if qs_ok {
        if attack_squares.contains(Position { x: 2, y }) || attack_squares.contains(
            Position { x: 3, y },
        ) {
            qs_ok = false;
        }
    }
    proof {
        assert forall|q: Position| #![auto] castle_legal(*game_data, king_pos, q) <==> ((ks_ok && q
            == dest_ks) || (qs_ok && q == dest_qs)) by {}
    }
    if ks_ok {
        moves.add_move(king_pos, dest_ks);
    }
    let ghost m1 = moves@;
    if qs_ok {
        moves.add_move(king_pos, dest_qs);
    }
    proof {
        assert(dest_ks != dest_qs);
        assert forall|z: Position| #![auto]
            moves@.dom().contains(z) <==> castle_extend(*game_data, m0).dom().contains(z) by {
            if has_castle_move(*game_data, z) {
                let w = choose|w: Position| castle_legal(*game_data, z, w);
                assert(z == king_pos);
            }
            if z == king_pos && (ks_ok || qs_ok) {
                if ks_ok {
                    assert(castle_legal(*game_data, king_pos, dest_ks));
                } else {
                    assert(castle_legal(*game_data, king_pos, dest_qs));
                }
                assert(has_castle_move(*game_data, z));
            }
        }
        assert forall|z: Position| #![auto] moves@.dom().contains(z) implies moves@[z]
            =~= castle_extend(*game_data, m0)[z] by {
            if z != king_pos {
                assert forall|q: Position| #![auto] !castle_legal(*game_data, z, q) by {}
            }
        }
        assert(moves@ =~~= castle_extend(*game_data, m0));
    }
}

/// The complete legal-move map for the side to move: every ordinary move
/// that survives the king-safety simulation, every legal en passant capture
/// and every available castling move, aggregated by origin square.  An origin
/// absent from the map has no legal moves.
pub fn generate_moves(game_data: &GameData) -> (moves: Moves)
    requires
        state_wf(*game_data),
    ensures
        moves.wf(),
        moves@ == legal_moves_map(*game_data),
{
    let mut moves = generate_normal_default_moves(game_data);
    generate_en_passant_moves(game_data, &mut moves);
    generate_castling_moves(game_data, &mut moves);
    proof {
        let g = *game_data;
        let m_n = normal_moves_map(g);
        let m_e = ep_extend(g, m_n);
        assert forall|z: Position| #![auto]
            moves@.dom().contains(z) <==> legal_moves_map(g).dom().contains(z) by {
            if has_legal_move(g, z) {
                let w = choose|w: Position| legal_move(g, z, w);
                if normal_legal(g, z, w) {
                    assert(has_normal_move(g, z));
                } else if ep_legal(g, z, w) {
                    assert(has_ep_move(g, z));
                } else {
                    assert(has_castle_move(g, z));
                }
            }
            if m_n.dom().contains(z) {
                let w = choose|w: Position| normal_legal(g, z, w);
                assert(legal_move(g, z, w));
                assert(has_legal_move(g, z));
            }
            if m_e.dom().contains(z) && !m_n.dom().contains(z) {
                let w = choose|w: Position| ep_legal(g, z, w);
                assert(legal_move(g, z, w));
                assert(has_legal_move(g, z));
            }
            if moves@.dom().contains(z) && !m_e.dom().contains(z) {
                let w = choose|w: Position| castle_legal(g, z, w);
                assert(legal_move(g, z, w));
                assert(has_legal_move(g, z));
            }
        }
        assert forall|z: Position| #![auto] moves@.dom().contains(z) implies moves@[z]
            =~= legal_moves_map(g)[z] by {
            assert forall|q: Position| #![auto] moves@[z].contains(q) <==> legal_move(g, z, q) by {
                if m_e.dom().contains(z) {
                    if m_n.dom().contains(z) {
                        assert(m_n[z] == normal_legal_set(g, z));
                    }
                }
            }
        }
        assert(moves@ =~~= legal_moves_map(g));
    }
    moves
}

} // verus!
