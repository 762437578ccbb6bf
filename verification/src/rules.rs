//! The mathematical model of the rules: attack relations, pseudo-legal
//! movement, king safety, the special moves and the effect of committing a
//! move.  Every executable generator's contract is stated over these
//! definitions.

use vstd::prelude::*;
use vstd::math::abs;
use crate::pieces::{Castling, PieceColor, PieceType, Position, in_bounds};
use crate::state::GameData;

verus! {

/// A board snapshot as specifications see it.
pub type BoardMap = Map<Position, PieceType>;

/// A square holds a piece.
pub open spec fn occupied(b: BoardMap, p: Position) -> bool {
    b.dom().contains(p)
}

/// A square holds a piece of the given color.
pub open spec fn friendly(b: BoardMap, p: Position, c: PieceColor) -> bool {
    occupied(b, p) && b[p].color() == c
}

/// The rank direction a side's pawns advance in.
pub open spec fn forward(c: PieceColor) -> int {
    if c == PieceColor::White {
        1
    } else {
        -1
    }
}

/// One king step: the squares touch but differ.
pub open spec fn king_step(p: Position, q: Position) -> bool {
    p != q && abs(q.x - p.x) <= 1 && abs(q.y - p.y) <= 1
}

/// One knight leap: two files and one rank, or one file and two ranks.
pub open spec fn knight_step(p: Position, q: Position) -> bool {
    (abs(q.x - p.x) == 2 && abs(q.y - p.y) == 1) || (abs(q.x - p.x) == 1 && abs(q.y - p.y) == 2)
}

/// A pawn's capture reach: one square forward-diagonal.
pub open spec fn pawn_attack_step(c: PieceColor, p: Position, q: Position) -> bool {
    q.y == p.y + forward(c) && abs(q.x - p.x) == 1
}

/// Two distinct squares share a rank or a file.
pub open spec fn on_rook_line(p: Position, q: Position) -> bool {
    p != q && (p.x == q.x || p.y == q.y)
}

/// Two distinct squares share a diagonal.
pub open spec fn on_bishop_line(p: Position, q: Position) -> bool {
    p != q && (p.x + p.y == q.x + q.y || p.x - p.y == q.x - q.y)
}

pub open spec fn strictly_between(a: int, b: int, c: int) -> bool {
    (a < b && b < c) || (c < b && b < a)
}

/// `z` lies strictly inside the straight segment from `p` to `q`, where the
/// two share a rank, a file or a diagonal.
pub open spec fn seg_contains(p: Position, q: Position, z: Position) -> bool {
    ||| (p.y == q.y && z.y == p.y && strictly_between(p.x as int, z.x as int, q.x as int))
    ||| (p.x == q.x && z.x == p.x && strictly_between(p.y as int, z.y as int, q.y as int))
    ||| (p.x - p.y == q.x - q.y && z.x - z.y == p.x - p.y && strictly_between(
        p.x as int,
        z.x as int,
        q.x as int,
    ))
    ||| (p.x + p.y == q.x + q.y && z.x + z.y == p.x + p.y && strictly_between(
        p.x as int,
        z.x as int,
        q.x as int,
    ))
}

/// Nothing stands strictly between two aligned squares.
pub open spec fn path_clear(b: BoardMap, p: Position, q: Position) -> bool {
    forall|z: Position| seg_contains(p, q, z) ==> !(#[trigger] occupied(b, z))
}

/// A piece is one of the three sliding kinds.
pub open spec fn is_sliding(pc: PieceType) -> bool {
    pc is Rook || pc is Bishop || pc is Queen
}

/// The line pattern a sliding piece moves along.
pub open spec fn sliding_line(pc: PieceType, p: Position, q: Position) -> bool {
    match pc {
        PieceType::Rook(_) => on_rook_line(p, q),
        PieceType::Bishop(_) => on_bishop_line(p, q),
        PieceType::Queen(_) => on_rook_line(p, q) || on_bishop_line(p, q),
        _ => false,
    }
}

/// The piece `pc`, standing on `p` of board `b`, threatens square `q`: the
/// attack set, independent of check legality.  A friendly blocker is never
/// threatened; an enemy blocker is ("capture the blocker, stop").
pub open spec fn piece_attacks(b: BoardMap, p: Position, pc: PieceType, q: Position) -> bool {
    &&& in_bounds(q)
    &&& !friendly(b, q, pc.color())
    &&& match pc {
        PieceType::King(_) => king_step(p, q),
        PieceType::Knight(_) => knight_step(p, q),
        PieceType::Pawn(c) => pawn_attack_step(c, p, q),
        _ => sliding_line(pc, p, q) && path_clear(b, p, q),
    }
}

/// The piece on `p` threatens `q`.
pub open spec fn attacks(b: BoardMap, p: Position, q: Position) -> bool {
    occupied(b, p) && piece_attacks(b, p, b[p], q)
}

/// Some piece of side `c` threatens `q`.
pub open spec fn attacked_by_side(b: BoardMap, c: PieceColor, q: Position) -> bool {
    exists|p: Position|
        #[trigger] occupied(b, p) && b[p].color() == c && piece_attacks(b, p, b[p], q)
}

/// `p` holds the king of side `c`.
pub open spec fn king_square(b: BoardMap, c: PieceColor, p: Position) -> bool {
    occupied(b, p) && b[p] == PieceType::King(c)
}

pub open spec fn has_king(b: BoardMap, c: PieceColor) -> bool {
    exists|p: Position| #[trigger] king_square(b, c, p)
}

pub open spec fn at_most_one_king(b: BoardMap, c: PieceColor) -> bool {
    forall|p1: Position, p2: Position|
        #[trigger] king_square(b, c, p1) && #[trigger] king_square(b, c, p2) ==> p1 == p2
}

pub open spec fn exactly_one_king(b: BoardMap, c: PieceColor) -> bool {
    has_king(b, c) && at_most_one_king(b, c)
}

/// Side `c`'s king is not under attack.
pub open spec fn board_safe(b: BoardMap, c: PieceColor) -> bool {
    forall|k: Position|
        #[trigger] king_square(b, c, k) ==> !attacked_by_side(b, c.opposite(), k)
}

/// The scratch board for the legality filter: the piece at `start` lifted
/// and set down on `end`, with no other side effects.
pub open spec fn simulate(b: BoardMap, start: Position, end: Position) -> BoardMap {
    b.remove(start).insert(end, b[start])
}

/// The mover's king survives the simulated move.
pub open spec fn move_safe(b: BoardMap, c: PieceColor, start: Position, end: Position) -> bool {
    board_safe(simulate(b, start, end), c)
}

/// A pawn's quiet advance: one square forward onto an empty square, or two
/// squares from a never-moved pawn over an empty square onto an empty square.
pub open spec fn pawn_push(g: GameData, p: Position, q: Position) -> bool {
    let c = g.board@[p].color();
    ||| (q.x == p.x && q.y == p.y + forward(c) && in_bounds(q) && !occupied(g.board@, q))
    ||| (q.x == p.x && q.y == p.y + 2 * forward(c) && in_bounds(q) && g.can_move_2_squares@
        .contains(p) && !occupied(g.board@, q) && !occupied(
        g.board@,
        Position { x: p.x, y: (p.y + forward(c)) as i8 },
    ))
}

/// A pawn's ordinary capture: a forward-diagonal square actually occupied by
/// an enemy piece.
pub open spec fn pawn_capture(b: BoardMap, p: Position, q: Position) -> bool {
    piece_attacks(b, p, b[p], q) && occupied(b, q)
}

/// A destination reachable by the piece on `p` under its movement rules,
/// check exposure ignored.  For every piece but the pawn this is its attack
/// set; a pawn moves forward but captures diagonally.
pub open spec fn pseudo_legal(g: GameData, p: Position, q: Position) -> bool {
    occupied(g.board@, p) && match g.board@[p] {
        PieceType::Pawn(_) => pawn_push(g, p, q) || pawn_capture(g.board@, p, q),
        _ => piece_attacks(g.board@, p, g.board@[p], q),
    }
}

/// An ordinary legal move of the side to move: pseudo-legal and surviving
/// the king-safety simulation.
pub open spec fn normal_legal(g: GameData, p: Position, q: Position) -> bool {
    &&& occupied(g.board@, p)
    &&& g.board@[p].color() == g.to_move
    &&& pseudo_legal(g, p, q)
    &&& move_safe(g.board@, g.to_move, p, q)
}

/// Where a pawn capturing en passant onto target `t` lands.
pub open spec fn ep_destination(t: Position, mover: PieceColor) -> Position {
    Position { x: t.x, y: (t.y + forward(mover)) as i8 }
}

/// The scratch board for en passant: target pawn removed, capturing pawn
/// relocated to the skipped square.
pub open spec fn ep_simulate(b: BoardMap, t: Position, p: Position, mover: PieceColor) -> BoardMap {
    b.remove(t).remove(p).insert(ep_destination(t, mover), b[p])
}

/// An en passant capture by the side to move: the en passant target holds an
/// enemy pawn that just double-stepped, the capturing pawn stands beside it,
/// and the mover's king survives the simulated capture.
pub open spec fn ep_legal(g: GameData, p: Position, q: Position) -> bool {
    &&& g.moved_2_squares is Some
    &&& {
        let t = g.moved_2_squares.unwrap();
        &&& occupied(g.board@, t)
        &&& g.board@[t] == PieceType::Pawn(g.to_move.opposite())
        &&& (p == Position { x: (t.x - 1) as i8, y: t.y } || p == Position {
            x: (t.x + 1) as i8,
            y: t.y,
        })
        &&& in_bounds(p)
        &&& occupied(g.board@, p)
        &&& g.board@[p] == PieceType::Pawn(g.to_move)
        &&& q == ep_destination(t, g.to_move)
        &&& in_bounds(q)
        &&& board_safe(ep_simulate(g.board@, t, p, g.to_move), g.to_move)
    }
}

/// The file the king's castling destination stands on, per wing.
pub open spec fn castle_dest_file(king_side: bool) -> int {
    if king_side {
        6
    } else {
        2
    }
}

/// The squares between king and rook are free for the given wing, with the
/// king on file 4 of rank `y`.
pub open spec fn castle_path_free(b: BoardMap, y: int, king_side: bool) -> bool {
    if king_side {
        !occupied(b, Position { x: 5, y: y as i8 }) && !occupied(b, Position { x: 6, y: y as i8 })
    } else {
        !occupied(b, Position { x: 1, y: y as i8 }) && !occupied(b, Position { x: 2, y: y as i8 })
            && !occupied(b, Position { x: 3, y: y as i8 })
    }
}

/// The squares the king transits (destination included) are not attacked by
/// the opponent.
pub open spec fn castle_path_unattacked(b: BoardMap, opp: PieceColor, y: int, king_side: bool) -> bool {
    if king_side {
        !attacked_by_side(b, opp, Position { x: 5, y: y as i8 }) && !attacked_by_side(
            b,
            opp,
            Position { x: 6, y: y as i8 },
        )
    } else {
        !attacked_by_side(b, opp, Position { x: 2, y: y as i8 }) && !attacked_by_side(
            b,
            opp,
            Position { x: 3, y: y as i8 },
        )
    }
}

/// A castling move of the side to move: the right survives, the king is not
/// in check, the path is empty and the king's transit is unattacked.  The
/// king's two-file move itself is the generated move; the rook's relocation
/// is a side effect of committing it.
pub open spec fn castle_legal(g: GameData, p: Position, q: Position) -> bool {
    &&& g.castling@.dom().contains(g.to_move)
    &&& king_square(g.board@, g.to_move, p)
    &&& !attacked_by_side(g.board@, g.to_move.opposite(), p)
    &&& {
        ||| (g.castling@[g.to_move].king_side && q == Position { x: 6, y: p.y }
            && castle_path_free(g.board@, p.y as int, true) && castle_path_unattacked(
            g.board@,
            g.to_move.opposite(),
            p.y as int,
            true,
        ))
        ||| (g.castling@[g.to_move].queen_side && q == Position { x: 2, y: p.y }
            && castle_path_free(g.board@, p.y as int, false) && castle_path_unattacked(
            g.board@,
            g.to_move.opposite(),
            p.y as int,
            false,
        ))
    }
}

/// A fully legal move: ordinary, en passant or castling.
pub open spec fn legal_move(g: GameData, p: Position, q: Position) -> bool {
    normal_legal(g, p, q) || ep_legal(g, p, q) || castle_legal(g, p, q)
}

/// The conditions move generation needs of a snapshot: sound containers and
/// a unique king for the side to move.
pub open spec fn state_wf(g: GameData) -> bool {
    &&& g.wf()
    &&& exactly_one_king(g.board@, g.to_move)
    &&& (g.moved_2_squares matches Some(t) ==> !king_square(
        g.board@,
        g.to_move,
        ep_destination(t, g.to_move),
    ))
}

/// The destinations a pawn may move to, ignoring self-check.
pub open spec fn pawn_move_set(g: GameData, p: Position) -> Set<Position> {
    Set::new(|q: Position| pawn_push(g, p, q) || pawn_capture(g.board@, p, q))
}

/// The destinations the piece on `p` may move to, ignoring self-check.
pub open spec fn pseudo_legal_set(g: GameData, p: Position) -> Set<Position> {
    Set::new(|q: Position| pseudo_legal(g, p, q))
}

/// The ordinary legal destinations of the piece on `p`.
pub open spec fn normal_legal_set(g: GameData, p: Position) -> Set<Position> {
    Set::new(|q: Position| normal_legal(g, p, q))
}

pub open spec fn has_normal_move(g: GameData, p: Position) -> bool {
    exists|q: Position| normal_legal(g, p, q)
}

pub open spec fn has_ep_move(g: GameData, p: Position) -> bool {
    exists|q: Position| ep_legal(g, p, q)
}

pub open spec fn has_castle_move(g: GameData, p: Position) -> bool {
    exists|q: Position| castle_legal(g, p, q)
}

pub open spec fn has_legal_move(g: GameData, p: Position) -> bool {
    exists|q: Position| legal_move(g, p, q)
}

/// The map of all ordinary legal moves; origins with none are absent.
pub open spec fn normal_moves_map(g: GameData) -> Map<Position, Set<Position>> {
    Map::new(|p: Position| has_normal_move(g, p), |p: Position| normal_legal_set(g, p))
}

/// A move map extended with the legal en passant captures.
pub open spec fn ep_extend(g: GameData, m: Map<Position, Set<Position>>) -> Map<
    Position,
    Set<Position>,
> {
    Map::new(
        |p: Position| m.dom().contains(p) || has_ep_move(g, p),
        |p: Position|
            Set::new(
                |q: Position| (m.dom().contains(p) && m[p].contains(q)) || ep_legal(g, p, q),
            ),
    )
}

/// A move map extended with the legal castling moves.
pub open spec fn castle_extend(g: GameData, m: Map<Position, Set<Position>>) -> Map<
    Position,
    Set<Position>,
> {
    Map::new(
        |p: Position| m.dom().contains(p) || has_castle_move(g, p),
        |p: Position|
            Set::new(
                |q: Position| (m.dom().contains(p) && m[p].contains(q)) || castle_legal(g, p, q),
            ),
    )
}

/// The complete legal-move map of a snapshot: for each origin with at least
/// one fully legal move, all its destinations.
pub open spec fn legal_moves_map(g: GameData) -> Map<Position, Set<Position>> {
    Map::new(|p: Position| has_legal_move(g, p), |p: Position| Set::new(|q: Position| legal_move(g, p, q)))
}

/// A pseudo-legal destination is on the board, differs from the origin, and
/// never holds a friendly piece.
pub proof fn lemma_pseudo_legal_dest(g: GameData, p: Position, q: Position)
    requires
        pseudo_legal(g, p, q),
    ensures
        in_bounds(q),
        q != p,
        !friendly(g.board@, q, g.board@[p].color()),
{
}

/// Committing this move is a castling commit: a king moving two files.
pub open spec fn is_castle_commit(g: GameData, start: Position, end: Position) -> bool {
    g.board@[start] is King && (end.x - start.x == 2 || start.x - end.x == 2)
}

/// Committing this move captures en passant: the previous en passant target
/// shares the destination's file and the pawn started on the target's rank.
pub open spec fn is_ep_capture(g: GameData, start: Position, end: Position) -> bool {
    g.moved_2_squares matches Some(t) && t.x == end.x && start.y == t.y
}

/// The home square of the rook taking part in a castling commit.
pub open spec fn castle_rook_from(end: Position) -> Position {
    if end.x == 6 {
        Position { x: 7, y: end.y }
    } else {
        Position { x: 0, y: end.y }
    }
}

/// Where the castling rook lands: beside the king's new square, on the side
/// it came from.
pub open spec fn castle_rook_to(end: Position) -> Position {
    if end.x == 6 {
        Position { x: (end.x - 1) as i8, y: end.y }
    } else {
        Position { x: (end.x + 1) as i8, y: end.y }
    }
}

/// The board after committing a move: the mover lifted from its origin, the
/// rook relocated on a castling commit, the en passant victim removed on an
/// en passant capture, and the mover set down on the destination.
pub open spec fn apply_board(g: GameData, start: Position, end: Position) -> BoardMap {
    let piece = g.board@[start];
    let b1 = g.board@.remove(start);
    let b2 = if is_castle_commit(g, start, end) {
        b1.remove(castle_rook_from(end)).insert(castle_rook_to(end), b1[castle_rook_from(end)])
    } else if piece is Pawn && is_ep_capture(g, start, end) {
        b1.remove(g.moved_2_squares.unwrap())
    } else {
        b1
    };
    b2.insert(end, piece)
}

/// The castling rights after committing a move: a king move revokes both of
/// its side's rights; a rook move from file 0 revokes that side's queen-side
/// right and one from file 7 its king-side right.  A rook moving from any
/// other file has already left its home square, so the rights are unchanged.
pub open spec fn apply_castling(g: GameData, start: Position, end: Position) -> Map<
    PieceColor,
    Castling,
> {
    let piece = g.board@[start];
    if piece is King {
        g.castling@.remove(g.to_move)
    } else if piece is Rook && g.castling@.dom().contains(piece.color()) {
        if start.x == 0 {
            g.castling@.insert(
                piece.color(),
                Castling { king_side: g.castling@[piece.color()].king_side, queen_side: false },
            )
        } else if start.x == 7 {
            g.castling@.insert(
                piece.color(),
                Castling { king_side: false, queen_side: g.castling@[piece.color()].queen_side },
            )
        } else {
            g.castling@
        }
    } else {
        g.castling@
    }
}

/// The double-step eligibility after committing a move: a pawn loses its
/// entry on its first move; nothing is ever added.
pub open spec fn apply_double_step(g: GameData, start: Position) -> Set<Position> {
    if g.board@[start] is Pawn {
        g.can_move_2_squares@.remove(start)
    } else {
        g.can_move_2_squares@
    }
}

/// The en passant target after committing a move: set to the destination
/// exactly when a pawn has just moved two ranks without capturing en passant,
/// cleared otherwise.
pub open spec fn apply_ep_target(g: GameData, start: Position, end: Position) -> Option<Position> {
    let piece = g.board@[start];
    if piece is Pawn && !is_ep_capture(g, start, end) && (end.y - start.y == 2 || start.y - end.y
        == 2) {
        Some(end)
    } else {
        None
    }
}

/// The pending promotion a committed move reports: the destination, when a
/// pawn reaches the first or last rank.
pub open spec fn apply_promotion(g: GameData, start: Position, end: Position) -> Option<Position> {
    if g.board@[start] is Pawn && (end.y == 0 || end.y == 7) {
        Some(end)
    } else {
        None
    }
}

} // verus!
