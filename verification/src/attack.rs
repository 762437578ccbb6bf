//! The attack generator: for a piece, or a whole side, the squares it
//! threatens on a given board snapshot.

use vstd::prelude::*;
use vstd::math::{abs, max};
use crate::board::{Board, cell_index, lemma_cell_index_injective};
use crate::pieces::{PieceColor, PieceType, Position, in_bounds, is_valid_chess_position};
use crate::rules::{
    BoardMap, attacked_by_side, attacks, friendly, king_step, knight_step, occupied,
    on_bishop_line, on_rook_line, path_clear, pawn_attack_step, piece_attacks, seg_contains,
};
use crate::sets::PositionSet;

verus! {

/// A unit ray direction component.
pub open spec fn dir_ok(d: int) -> bool {
    d == -1 || d == 0 || d == 1
}

/// `q` lies on the open ray that leaves `p` in direction `(dx, dy)`.
pub open spec fn dir_aligned(p: Position, q: Position, dx: int, dy: int) -> bool {
    &&& q != p
    &&& (if dx == 0 {
        q.x == p.x
    } else if dx == 1 {
        q.x > p.x
    } else {
        q.x < p.x
    })
    &&& (if dy == 0 {
        q.y == p.y
    } else if dy == 1 {
        q.y > p.y
    } else {
        q.y < p.y
    })
    &&& (dx != 0 && dy != 0 ==> abs(q.x - p.x) == abs(q.y - p.y))
}

/// How many unit steps separate two squares of a common ray.
pub open spec fn ray_dist(p: Position, q: Position) -> int {
    max(abs(q.x - p.x) as int, abs(q.y - p.y) as int)
}

/// A ray walk from `p` in direction `(dx, dy)` includes `q` when `q` is on
/// the board, nothing blocks the way, and `q` holds no friendly piece.
pub open spec fn ray_reaches(b: BoardMap, p: Position, dx: int, dy: int, q: Position) -> bool {
    &&& dir_aligned(p, q, dx, dy)
    &&& in_bounds(q)
    &&& path_clear(b, p, q)
    &&& !friendly(b, q, b[p].color())
}

/// Everything one ray walk threatens.
pub open spec fn ray_set(b: BoardMap, p: Position, dx: int, dy: int) -> Set<Position> {
    Set::new(|q: Position| ray_reaches(b, p, dx, dy, q))
}

/// Everything the piece on `p` threatens along ranks and files.
pub open spec fn rook_attack_set(b: BoardMap, p: Position) -> Set<Position> {
    Set::new(
        |q: Position|
            on_rook_line(p, q) && in_bounds(q) && path_clear(b, p, q) && !friendly(
                b,
                q,
                b[p].color(),
            ),
    )
}

/// Everything the piece on `p` threatens along diagonals.
pub open spec fn bishop_attack_set(b: BoardMap, p: Position) -> Set<Position> {
    Set::new(
        |q: Position|
            on_bishop_line(p, q) && in_bounds(q) && path_clear(b, p, q) && !friendly(
                b,
                q,
                b[p].color(),
            ),
    )
}

/// The squares a listed set of candidates yields: on the board and free of
/// friendly pieces.
pub open spec fn points_attack_set(b: BoardMap, mine: PieceColor, aps: Seq<Position>) -> Set<
    Position,
> {
    Set::new(|q: Position| aps.contains(q) && in_bounds(q) && !friendly(b, q, mine))
}

/// The squares a knight standing on `p` would threaten, whatever `p` holds:
/// the leap squares on the board and free of pieces of `p`'s color.
pub open spec fn knight_attack_set(b: BoardMap, p: Position) -> Set<Position> {
    Set::new(|q: Position| knight_step(p, q) && in_bounds(q) && !friendly(b, q, b[p].color()))
}

/// Everything the piece on `p` threatens: its attack set.
pub open spec fn attack_set(b: BoardMap, p: Position) -> Set<Position> {
    Set::new(|q: Position| attacks(b, p, q))
}

/// The coordinates of a ray square are determined by its distance.
proof fn lemma_ray_coords(p: Position, q: Position, dx: int, dy: int)
    requires
        dir_ok(dx),
        dir_ok(dy),
        !(dx == 0 && dy == 0),
        dir_aligned(p, q, dx, dy),
    ensures
        q.x - p.x == (if dx == 1 {
            ray_dist(p, q)
        } else if dx == -1 {
            -ray_dist(p, q)
        } else {
            0
        }),
        q.y - p.y == (if dy == 1 {
            ray_dist(p, q)
        } else if dy == -1 {
            -ray_dist(p, q)
        } else {
            0
        }),
        ray_dist(p, q) >= 1,
{
}

/// One more unit step lands on the next ray square.
proof fn lemma_ray_step(p: Position, cur: Position, next: Position, dx: int, dy: int, i: int)
    requires
        dir_ok(dx),
        dir_ok(dy),
        !(dx == 0 && dy == 0),
        i >= 0,
        i == 0 ==> cur == p,
        i > 0 ==> dir_aligned(p, cur, dx, dy) && ray_dist(p, cur) == i,
        next.x == cur.x + dx,
        next.y == cur.y + dy,
    ensures
        dir_aligned(p, next, dx, dy),
        ray_dist(p, next) == i + 1,
{
    if i > 0 {
        lemma_ray_coords(p, cur, dx, dy);
    }
}

/// Two ray squares at the same distance coincide.
proof fn lemma_ray_point_unique(p: Position, q1: Position, q2: Position, dx: int, dy: int)
    requires
        dir_ok(dx),
        dir_ok(dy),
        !(dx == 0 && dy == 0),
        dir_aligned(p, q1, dx, dy),
        dir_aligned(p, q2, dx, dy),
        ray_dist(p, q1) == ray_dist(p, q2),
    ensures
        q1 == q2,
{
    lemma_ray_coords(p, q1, dx, dy);
    lemma_ray_coords(p, q2, dx, dy);
}

/// A nearer ray square stands strictly between `p` and a farther one.
proof fn lemma_seg_on_ray(p: Position, q: Position, z: Position, dx: int, dy: int)
    requires
        dir_ok(dx),
        dir_ok(dy),
        !(dx == 0 && dy == 0),
        dir_aligned(p, q, dx, dy),
        dir_aligned(p, z, dx, dy),
        ray_dist(p, z) < ray_dist(p, q),
    ensures
        seg_contains(p, q, z),
{
    lemma_ray_coords(p, q, dx, dy);
    lemma_ray_coords(p, z, dx, dy);
}

/// Whatever stands strictly between `p` and a ray square is a nearer square
/// of the same ray.
proof fn lemma_seg_to_ray(p: Position, q: Position, z: Position, dx: int, dy: int)
    requires
        dir_ok(dx),
        dir_ok(dy),
        !(dx == 0 && dy == 0),
        dir_aligned(p, q, dx, dy),
        seg_contains(p, q, z),
    ensures
        dir_aligned(p, z, dx, dy),
        ray_dist(p, z) < ray_dist(p, q),
{
    lemma_ray_coords(p, q, dx, dy);
}

/// Walk one ray outward from `position`, collecting every square the piece
/// there threatens along it: empty squares up to and including the first
/// enemy blocker, stopping short of a friendly blocker or the board's edge.
fn generate_ray(board: &Board, position: Position, dx: i8, dy: i8) -> (out: PositionSet)
    requires
        board.wf(),
        board@.dom().contains(position),
        dir_ok(dx as int),
        dir_ok(dy as int),
        !(dx == 0 && dy == 0),
    ensures
        out.wf(),
        out@ == ray_set(board@, position, dx as int, dy as int),
{
    proof {
        board.lemma_dom_in_bounds();
    }
    let my_color = match board.get(position) {
        Some(piece) => piece.get_color(),
        None => PieceColor::White,
    };
    let mut out = PositionSet::empty();
    let mut cx: i8 = position.x;
    let mut cy: i8 = position.y;
    let mut i: i8 = 0;
    while i < 8
        invariant
            board.wf(),
            board@.dom().contains(position),
            my_color == board@[position].color(),
            dir_ok(dx as int),
            dir_ok(dy as int),
            !(dx == 0 && dy == 0),
            0 <= i <= 8,
            in_bounds((Position { x: cx, y: cy })),
            i == 0 ==> (Position { x: cx, y: cy }) == position,
            i > 0 ==> dir_aligned(position, (Position { x: cx, y: cy }), dx as int, dy as int)
                && ray_dist(position, (Position { x: cx, y: cy })) == i,
            forall|z: Position|
                dir_aligned(position, z, dx as int, dy as int) && ray_dist(position, z) <= i ==> !(
                #[trigger] occupied(board@, z)),
            out.wf(),
            forall|q: Position| #![auto]
                out@.contains(q) <==> (ray_reaches(board@, position, dx as int, dy as int, q)
                    && ray_dist(position, q) <= i),
        decreases 8 - i,
    {
        let cur = Position { x: cx, y: cy };
        let next = Position { x: cx + dx, y: cy + dy };
        proof {
            lemma_ray_step(position, cur, next, dx as int, dy as int, i as int);
        }
        if !is_valid_chess_position(next) {
            proof {
                assert forall|q: Position|
                    dir_aligned(position, q, dx as int, dy as int) && ray_dist(position, q) > i
                        as int implies !in_bounds(q) by {
                    lemma_ray_coords(position, q, dx as int, dy as int);
                    lemma_ray_coords(position, next, dx as int, dy as int);
                }
                assert(out@ =~= ray_set(board@, position, dx as int, dy as int));
            }
            return out;
        }
        match board.get(next) {
            Some(piece) => {
                proof {
                    assert(occupied(board@, next));
                    assert forall|q: Position|
                        dir_aligned(position, q, dx as int, dy as int) && ray_dist(position, q) > i
                            + 1 implies !path_clear(board@, position, q) by {
                        lemma_seg_on_ray(position, q, next, dx as int, dy as int);
                    }
                    assert(path_clear(board@, position, next)) by {
                        assert forall|z: Position| seg_contains(position, next, z) implies !(
                        #[trigger] occupied(board@, z)) by {
                            lemma_seg_to_ray(position, next, z, dx as int, dy as int);
                        }
                    }
                }
                if piece.get_color() != my_color {
                    out.insert(next);
                    proof {
                        assert(ray_reaches(board@, position, dx as int, dy as int, next));
                        assert forall|q: Position| #![auto]
                            out@.contains(q) <==> ray_reaches(
                                board@,
                                position,
                                dx as int,
                                dy as int,
                                q,
                            ) by {
                            if ray_reaches(board@, position, dx as int, dy as int, q) {
                                if ray_dist(position, q) == i + 1 {
                                    lemma_ray_point_unique(
                                        position,
                                        q,
                                        next,
                                        dx as int,
                                        dy as int,
                                    );
                                }
                            }
                        }
                        assert(out@ =~= ray_set(board@, position, dx as int, dy as int));
                    }
                } else {
                    proof {
                        assert forall|q: Position| #![auto]
                            out@.contains(q) <==> ray_reaches(
                                board@,
                                position,
                                dx as int,
                                dy as int,
                                q,
                            ) by {
                            if ray_reaches(board@, position, dx as int, dy as int, q) {
                                if ray_dist(position, q) == i + 1 {
                                    lemma_ray_point_unique(
                                        position,
                                        q,
                                        next,
                                        dx as int,
                                        dy as int,
                                    );
                                }
                            }
                        }
                        assert(out@ =~= ray_set(board@, position, dx as int, dy as int));
                    }
                }
                return out;
            },
            None => {
                out.insert(next);
                proof {
                    assert(path_clear(board@, position, next)) by {
                        assert forall|z: Position| seg_contains(position, next, z) implies !(
                        #[trigger] occupied(board@, z)) by {
                            lemma_seg_to_ray(position, next, z, dx as int, dy as int);
                        }
                    }
                    assert(ray_reaches(board@, position, dx as int, dy as int, next));
                    assert forall|z: Position|
                        dir_aligned(position, z, dx as int, dy as int) && ray_dist(position, z) <= i
                            + 1 implies !(#[trigger] occupied(board@, z)) by {
                        if ray_dist(position, z) == i + 1 {
                            lemma_ray_point_unique(position, z, next, dx as int, dy as int);
                        }
                    }
                    assert forall|q: Position| #![auto]
                        out@.contains(q) <==> (ray_reaches(board@, position, dx as int, dy as int, q)
                            && ray_dist(position, q) <= i + 1) by {
                        if ray_reaches(board@, position, dx as int, dy as int, q) && ray_dist(
                            position,
                            q,
                        ) == i + 1 {
                            lemma_ray_point_unique(position, q, next, dx as int, dy as int);
                        }
                    }
                }
                cx = next.x;
                cy = next.y;
                i += 1;
            },
        }
    }
    proof {
        assert forall|q: Position| #![auto]
            out@.contains(q) <==> ray_reaches(board@, position, dx as int, dy as int, q) by {
            if ray_reaches(board@, position, dx as int, dy as int, q) {
                lemma_ray_coords(position, q, dx as int, dy as int);
            }
        }
        assert(out@ =~= ray_set(board@, position, dx as int, dy as int));
    }
    out
}

/// The four orthogonal rays together cover exactly the rank-and-file lines.
proof fn lemma_rook_line_dirs(p: Position, q: Position)
    ensures
        on_rook_line(p, q) <==> (dir_aligned(p, q, -1, 0) || dir_aligned(p, q, 1, 0)
            || dir_aligned(p, q, 0, 1) || dir_aligned(p, q, 0, -1)),
{
}

/// The four diagonal rays together cover exactly the diagonal lines.
proof fn lemma_bishop_line_dirs(p: Position, q: Position)
    ensures
        on_bishop_line(p, q) <==> (dir_aligned(p, q, 1, 1) || dir_aligned(p, q, 1, -1)
            || dir_aligned(p, q, -1, 1) || dir_aligned(p, q, -1, -1)),
{
}

/// The squares threatened along ranks and files: the rook's rays, also half
/// of the queen's.
pub fn generate_vertical_horizontal(position: Position, board: &Board) -> (out: PositionSet)
    requires
        board.wf(),
        board@.dom().contains(position),
    ensures
        out.wf(),
        out@ == rook_attack_set(board@, position),
{
    let mut out = generate_ray(board, position, -1, 0);
    let r1 = generate_ray(board, position, 1, 0);
    out.union_with(&r1);
    let r2 = generate_ray(board, position, 0, 1);
    out.union_with(&r2);
    let r3 = generate_ray(board, position, 0, -1);
    out.union_with(&r3);
    proof {
        assert forall|q: Position| #![auto]
            out@.contains(q) <==> rook_attack_set(board@, position).contains(q) by {
            lemma_rook_line_dirs(position, q);
        }
        assert(out@ =~= rook_attack_set(board@, position));
    }
    out
}

/// The squares threatened along diagonals: the bishop's rays, also half of
/// the queen's.
pub fn generate_cross(position: Position, board: &Board) -> (out: PositionSet)
    requires
        board.wf(),
        board@.dom().contains(position),
    ensures
        out.wf(),
        out@ == bishop_attack_set(board@, position),
{
    let mut out = generate_ray(board, position, -1, -1);
    let r1 = generate_ray(board, position, 1, 1);
    out.union_with(&r1);
    let r2 = generate_ray(board, position, -1, 1);
    out.union_with(&r2);
    let r3 = generate_ray(board, position, 1, -1);
    out.union_with(&r3);
    proof {
        assert forall|q: Position| #![auto]
            out@.contains(q) <==> bishop_attack_set(board@, position).contains(q) by {
            lemma_bishop_line_dirs(position, q);
        }
        assert(out@ =~= bishop_attack_set(board@, position));
    }
    out
}

/// Keep, of a fixed list of candidate squares, those on the board and not
/// held by a friendly piece.  The origin's piece is read only to judge an
/// occupied candidate, so an empty origin is tolerated as long as every
/// listed candidate square is empty.
pub fn generate_from_points(position: Position, board: &Board, attack_positions: &Vec<Position>) -> (out:
    PositionSet)
    requires
        board.wf(),
        (exists|q: Position| #[trigger] attack_positions@.contains(q) && occupied(board@, q))
            ==> board@.dom().contains(position),
    ensures
        out.wf(),
        out@ == points_attack_set(board@, board@[position].color(), attack_positions@),
{
    let my_color = match board.get(position) {
        Some(piece) => piece.get_color(),
        None => PieceColor::White,
    };
    let mut out = PositionSet::empty();
    let n = attack_positions.len();
    let mut k: usize = 0;
    proof {
        assert(out@ =~= points_attack_set(board@, my_color, attack_positions@.subrange(0, 0)));
    }
    while k < n
        invariant
            board.wf(),
            board@.dom().contains(position) ==> my_color == board@[position].color(),
            (exists|q: Position| #[trigger] attack_positions@.contains(q) && occupied(board@, q))
                ==> board@.dom().contains(position),
            n == attack_positions@.len(),
            k <= n,
            out.wf(),
            out@ == points_attack_set(board@, my_color, attack_positions@.subrange(0, k as int)),
        decreases n - k,
    {
        let ap = attack_positions[k];
        let mut add = is_valid_chess_position(ap);
        if add {
            match board.get(ap) {
                Some(piece) => {
                    if piece.get_color() == my_color {
                        add = false;
                    }
                },
                None => {},
            }
        }
        let ghost pre = out@;
        let ghost sub_k = attack_positions@.subrange(0, k as int);
        let ghost sub_k1 = attack_positions@.subrange(0, k + 1);
        if add {
            out.insert(ap);
        }
        proof {
            assert(attack_positions@[k as int] == ap);
            assert(attack_positions@.contains(ap));
            assert(sub_k1 == sub_k.push(ap));
            assert(add == (in_bounds(ap) && !friendly(board@, ap, my_color)));
            assert forall|q: Position| #![auto]
                out@.contains(q) <==> (sub_k1.contains(q) && in_bounds(q) && !friendly(
                    board@,
                    q,
                    my_color,
                )) by {
                assert(pre.contains(q) <==> (sub_k.contains(q) && in_bounds(q) && !friendly(
                    board@,
                    q,
                    my_color,
                )));
                if q == ap {
                    if add {
                        assert(sub_k1[sub_k1.len() - 1] == q);
                        assert(sub_k1.contains(q));
                    } else {
                        assert(!pre.contains(q));
                    }
                } else {
                    assert(out@.contains(q) == pre.contains(q));
                    if sub_k1.contains(q) {
                        let j = choose|j: int| 0 <= j < sub_k1.len() && sub_k1[j] == q;
                        assert(j < k);
                        assert(sub_k[j] == q);
                        assert(sub_k.contains(q));
                    }
                    if sub_k.contains(q) {
                        let j = choose|j: int| 0 <= j < sub_k.len() && sub_k[j] == q;
                        assert(sub_k1[j] == q);
                        assert(sub_k1.contains(q));
                    }
                }
            }
            assert(out@ =~= points_attack_set(board@, my_color, sub_k1));
        }
        k += 1;
    }
    proof {
        assert(attack_positions@.subrange(0, n as int) == attack_positions@);
        if !board@.dom().contains(position) {
            // no listed candidate is occupied, so the color filter is idle
            // and the result does not depend on which color was read
            assert forall|q: Position| #![auto]
                points_attack_set(board@, my_color, attack_positions@).contains(q)
                    <==> points_attack_set(
                    board@,
                    board@[position].color(),
                    attack_positions@,
                ).contains(q) by {
                if attack_positions@.contains(q) && occupied(board@, q) {
                    assert(board@.dom().contains(position));
                }
            }
            assert(points_attack_set(board@, my_color, attack_positions@) =~= points_attack_set(
                board@,
                board@[position].color(),
                attack_positions@,
            ));
        }
    }
    out
}

/// The king's reach: the adjacent squares, friendly occupancy excluded.
pub fn generate_squares_under_attack_king(board: &Board, position: Position) -> (out: PositionSet)
    requires
        board.wf(),
        board@.dom().contains(position),
        board@[position] is King,
    ensures
        out.wf(),
        out@ == attack_set(board@, position),
{
    proof {
        board.lemma_dom_in_bounds();
    }
    let mut points: Vec<Position> = Vec::new();
    points.push(Position { x: position.x - 1, y: position.y - 1 });
    points.push(Position { x: position.x - 1, y: position.y });
    points.push(Position { x: position.x - 1, y: position.y + 1 });
    points.push(Position { x: position.x, y: position.y - 1 });
    points.push(Position { x: position.x, y: position.y + 1 });
    points.push(Position { x: position.x + 1, y: position.y - 1 });
    points.push(Position { x: position.x + 1, y: position.y });
    points.push(Position { x: position.x + 1, y: position.y + 1 });
    let out = generate_from_points(position, board, &points);
    proof {
        assert forall|q: Position| #![auto] points@.contains(q) <==> king_step(position, q) by {
            if points@.contains(q) {
                let j = choose|j: int| 0 <= j < points@.len() && points@[j] == q;
            }
            if king_step(position, q) {
                if q.x == position.x - 1 {
                    if q.y == position.y - 1 {
                        assert(points@[0] == q);
                    } else if q.y == position.y {
                        assert(points@[1] == q);
                    } else {
                        assert(points@[2] == q);
                    }
                } else if q.x == position.x {
                    if q.y == position.y - 1 {
                        assert(points@[3] == q);
                    } else {
                        assert(points@[4] == q);
                    }
                } else {
                    if q.y == position.y - 1 {
                        assert(points@[5] == q);
                    } else if q.y == position.y {
                        assert(points@[6] == q);
                    } else {
                        assert(points@[7] == q);
                    }
                }
                assert(points@.contains(q));
            }
        }
        assert(out@ =~= attack_set(board@, position));
    }
    out
}

/// The knight's reach: the eight leap squares, intervening occupancy ignored.
/// The origin's piece is read only when a leap square is occupied, so an
/// empty origin with empty leap squares is tolerated and yields every leap
/// square on the board.
pub fn generate_squares_under_attack_knight(board: &Board, position: Position) -> (out:
    PositionSet)
    requires
        board.wf(),
        in_bounds(position),
        (exists|q: Position| #[trigger] occupied(board@, q) && knight_step(position, q))
            ==> board@.dom().contains(position),
    ensures
        out.wf(),
        out@ == knight_attack_set(board@, position),
        board@.dom().contains(position) && board@[position] is Knight ==> out@ == attack_set(
            board@,
            position,
        ),
{
    proof {
        board.lemma_dom_in_bounds();
    }
    let mut points: Vec<Position> = Vec::new();
    points.push(Position { x: position.x - 2, y: position.y + 1 });
    points.push(Position { x: position.x - 2, y: position.y - 1 });
    points.push(Position { x: position.x + 2, y: position.y + 1 });
    points.push(Position { x: position.x + 2, y: position.y - 1 });
    points.push(Position { x: position.x + 1, y: position.y - 2 });
    points.push(Position { x: position.x + 1, y: position.y + 2 });
    points.push(Position { x: position.x - 1, y: position.y - 2 });
    points.push(Position { x: position.x - 1, y: position.y + 2 });
    proof {
        lemma_knight_points_cover(points@, position);
        if exists|q: Position| #[trigger] points@.contains(q) && occupied(board@, q) {
            let q = choose|q: Position| #[trigger] points@.contains(q) && occupied(board@, q);
            assert(knight_step(position, q));
            assert(board@.dom().contains(position));
        }
    }
    let out = generate_from_points(position, board, &points);
    proof {
        lemma_knight_points_cover(points@, position);
        assert(out@ =~= knight_attack_set(board@, position));
        if board@.dom().contains(position) && board@[position] is Knight {
            assert(out@ =~= attack_set(board@, position));
        }
    }
    out
}

/// The eight listed leap offsets are exactly the knight-step squares.
proof fn lemma_knight_points_cover(points: Seq<Position>, position: Position)
    requires
        points.len() == 8,
        points[0] == (Position { x: (position.x - 2) as i8, y: (position.y + 1) as i8 }),
        points[1] == (Position { x: (position.x - 2) as i8, y: (position.y - 1) as i8 }),
        points[2] == (Position { x: (position.x + 2) as i8, y: (position.y + 1) as i8 }),
        points[3] == (Position { x: (position.x + 2) as i8, y: (position.y - 1) as i8 }),
        points[4] == (Position { x: (position.x + 1) as i8, y: (position.y - 2) as i8 }),
        points[5] == (Position { x: (position.x + 1) as i8, y: (position.y + 2) as i8 }),
        points[6] == (Position { x: (position.x - 1) as i8, y: (position.y - 2) as i8 }),
        points[7] == (Position { x: (position.x - 1) as i8, y: (position.y + 2) as i8 }),
        in_bounds(position),
    ensures
        forall|q: Position| #![auto] points.contains(q) <==> knight_step(position, q),
{
    assert forall|q: Position| #![auto] points.contains(q) <==> knight_step(position, q) by {
        if points.contains(q) {
            let j = choose|j: int| 0 <= j < points.len() && points[j] == q;
        }
        if knight_step(position, q) {
            if q.x == position.x - 2 {
                if q.y == position.y + 1 {
                    assert(points[0] == q);
                } else {
                    assert(points[1] == q);
                }
            } else if q.x == position.x + 2 {
                if q.y == position.y + 1 {
                    assert(points[2] == q);
                } else {
                    assert(points[3] == q);
                }
            } else if q.x == position.x + 1 {
                if q.y == position.y - 2 {
                    assert(points[4] == q);
                } else {
                    assert(points[5] == q);
                }
            } else {
                if q.y == position.y - 2 {
                    assert(points[6] == q);
                } else {
                    assert(points[7] == q);
                }
            }
            assert(points.contains(q));
        }
    }
}

/// A pawn's reach: its two forward-diagonal squares, whether or not they are
/// occupied — a pawn's attack squares differ from its move squares.
pub fn generate_squares_under_attack_pawn(board: &Board, position: Position) -> (out: PositionSet)
    requires
        board.wf(),
        board@.dom().contains(position),
        board@[position] is Pawn,
    ensures
        out.wf(),
        out@ == attack_set(board@, position),
{
    proof {
        board.lemma_dom_in_bounds();
    }
    let my_color = match board.get(position) {
        Some(piece) => piece.get_color(),
        None => PieceColor::White,
    };
    let mut points: Vec<Position> = Vec::new();
    if my_color == PieceColor::White {
        points.push(Position { x: position.x - 1, y: position.y + 1 });
        points.push(Position { x: position.x + 1, y: position.y + 1 });
    } else {
        points.push(Position { x: position.x - 1, y: position.y - 1 });
        points.push(Position { x: position.x + 1, y: position.y - 1 });
    }
    let out = generate_from_points(position, board, &points);
    proof {
        assert forall|q: Position| #![auto]
            points@.contains(q) <==> pawn_attack_step(my_color, position, q) by {
            if points@.contains(q) {
                let j = choose|j: int| 0 <= j < points@.len() && points@[j] == q;
            }
            if pawn_attack_step(my_color, position, q) {
                if q.x == position.x - 1 {
                    assert(points@[0] == q);
                } else {
                    assert(points@[1] == q);
                }
                assert(points@.contains(q));
            }
        }
        assert(out@ =~= attack_set(board@, position));
    }
    out
}

/// The rook's reach: its four orthogonal rays.
pub fn generate_squares_under_attack_rook(board: &Board, position: Position) -> (out: PositionSet)
    requires
        board.wf(),
        board@.dom().contains(position),
        board@[position] is Rook,
    ensures
        out.wf(),
        out@ == attack_set(board@, position),
{
    let out = generate_vertical_horizontal(position, board);
    proof {
        assert(out@ =~= attack_set(board@, position));
    }
    out
}

/// The bishop's reach: its four diagonal rays.
pub fn generate_squares_under_attack_bishop(board: &Board, position: Position) -> (out:
    PositionSet)
    requires
        board.wf(),
        board@.dom().contains(position),
        board@[position] is Bishop,
    ensures
        out.wf(),
        out@ == attack_set(board@, position),
{
    let out = generate_cross(position, board);
    proof {
        assert(out@ =~= attack_set(board@, position));
    }
    out
}

/// The queen's reach: all eight rays.
pub fn generate_squares_under_attack_queen(board: &Board, position: Position) -> (out: PositionSet)
    requires
        board.wf(),
        board@.dom().contains(position),
        board@[position] is Queen,
    ensures
        out.wf(),
        out@ == attack_set(board@, position),
{
    let mut out = generate_cross(position, board);
    let vh = generate_vertical_horizontal(position, board);
    out.union_with(&vh);
    proof {
        assert(out@ =~= attack_set(board@, position));
    }
    out
}

/// The full attack set of the piece standing on `position`; an empty square
/// threatens nothing, and its attack set is the empty set.
pub fn generate_squares_under_attack_for_position(board: &Board, position: Position) -> (out:
    PositionSet)
    requires
        board.wf(),
    ensures
        out.wf(),
        out@ == attack_set(board@, position),
{
    proof {
        board.lemma_dom_in_bounds();
    }
    let piece = match board.get(position) {
        Some(piece) => piece,
        None => {
            let out = PositionSet::empty();
            proof {
                assert(out@ =~= attack_set(board@, position));
            }
            return out;
        },
    };
    match piece {
        PieceType::King(_) => generate_squares_under_attack_king(board, position),
        PieceType::Queen(_) => generate_squares_under_attack_queen(board, position),
        PieceType::Bishop(_) => generate_squares_under_attack_bishop(board, position),
        PieceType::Knight(_) => {
            let out = generate_squares_under_attack_knight(board, position);
            proof {
                assert(out@ =~= attack_set(board@, position));
            }
            out
        },
        PieceType::Rook(_) => generate_squares_under_attack_rook(board, position),
        PieceType::Pawn(_) => generate_squares_under_attack_pawn(board, position),
    }
}

/// Some piece of side `c` with a cell index below `n` threatens `q`.
pub open spec fn attacked_upto(b: BoardMap, c: PieceColor, n: int, q: Position) -> bool {
    exists|p: Position|
        #[trigger] occupied(b, p) && b[p].color() == c && piece_attacks(b, p, b[p], q)
            && cell_index(p) < n
}

/// The squares threatened by pieces of side `c` with cell indices below `n`.
pub open spec fn side_attack_set_upto(b: BoardMap, c: PieceColor, n: int) -> Set<Position> {
    Set::new(|q: Position| attacked_upto(b, c, n, q))
}

/// Everything side `c` threatens.
pub open spec fn side_attack_set(b: BoardMap, c: PieceColor) -> Set<Position> {
    Set::new(|q: Position| attacked_by_side(b, c, q))
}

/// The union, over all pieces of one side, of their attack sets: the side's
/// threat map.
pub fn generate_squares_under_attack_for_side(board: &Board, to_move: PieceColor) -> (out:
    PositionSet)
    requires
        board.wf(),
    ensures
        out.wf(),
        out@ == side_attack_set(board@, to_move),
{
    proof {
        board.lemma_dom_in_bounds();
    }
    let mut out = PositionSet::empty();
    let mut k: usize = 0;
    proof {
        assert(out@ =~= side_attack_set_upto(board@, to_move, 0));
    }
    while k < 64
        invariant
            board.wf(),
            k <= 64,
            out.wf(),
            out@ == side_attack_set_upto(board@, to_move, k as int),
            forall|p: Position| #[trigger] board@.dom().contains(p) ==> in_bounds(p),
        decreases 64 - k,
    {
        let x: i8 = (k % 8) as i8;
        let y: i8 = (k / 8) as i8;
        let p = Position { x, y };
        proof {
            assert(cell_index(p) == k as int);
            assert forall|z: Position| in_bounds(z) && cell_index(z) == k as int implies z == p by {
                if z != p {
                    lemma_cell_index_injective(z, p);
                }
            }
        }
        let ghost pre = out@;
        let mut contributed = false;
        match board.get(p) {
            Some(piece) => {
                if piece.get_color() == to_move {
                    let s = generate_squares_under_attack_for_position(board, p);
                    out.union_with(&s);
                    contributed = true;
                    proof {
                        assert forall|q: Position| #![auto]
                            out@.contains(q) <==> attacked_upto(board@, to_move, k + 1, q) by {
                            if out@.contains(q) {
                                if pre.contains(q) {
                                    let w = choose|w: Position|
                                        #[trigger] occupied(board@, w) && board@[w].color()
                                            == to_move && piece_attacks(board@, w, board@[w], q)
                                            && cell_index(w) < k as int;
                                    assert(occupied(board@, w) && board@[w].color() == to_move
                                        && piece_attacks(board@, w, board@[w], q) && cell_index(w)
                                        < k + 1);
                                } else {
                                    assert(attacks(board@, p, q));
                                    assert(occupied(board@, p) && board@[p].color() == to_move
                                        && piece_attacks(board@, p, board@[p], q) && cell_index(p)
                                        < k + 1);
                                }
                            }
                            if attacked_upto(board@, to_move, k + 1, q) {
                                let w = choose|w: Position|
                                    #[trigger] occupied(board@, w) && board@[w].color() == to_move
                                        && piece_attacks(board@, w, board@[w], q) && cell_index(w)
                                        < k + 1;
                                if cell_index(w) < k as int {
                                    assert(attacked_upto(board@, to_move, k as int, q));
                                    assert(pre.contains(q));
                                } else {
                                    assert(w == p);
                                    assert(attacks(board@, p, q));
                                }
                            }
                        }
                        assert(out@ =~= side_attack_set_upto(board@, to_move, k + 1));
                    }
                }
            },
            None => {},
        }
        if !contributed {
            proof {
                assert forall|q: Position| #![auto]
                    pre.contains(q) <==> attacked_upto(board@, to_move, k + 1, q) by {
                    if attacked_upto(board@, to_move, k + 1, q) {
                        let w = choose|w: Position|
                            #[trigger] occupied(board@, w) && board@[w].color() == to_move
                                && piece_attacks(board@, w, board@[w], q) && cell_index(w) < k + 1;
                        if cell_index(w) < k as int {
                            assert(attacked_upto(board@, to_move, k as int, q));
                        } else {
                            assert(w == p);
                            assert(false);
                        }
                    }
                    if pre.contains(q) {
                        let w = choose|w: Position|
                            #[trigger] occupied(board@, w) && board@[w].color() == to_move
                                && piece_attacks(board@, w, board@[w], q) && cell_index(w)
                                < k as int;
                        assert(occupied(board@, w) && board@[w].color() == to_move
                            && piece_attacks(board@, w, board@[w], q) && cell_index(w) < k + 1);
                    }
                }
                assert(out@ =~= side_attack_set_upto(board@, to_move, k + 1));
            }
        }
        k += 1;
    }
    proof {
        assert forall|q: Position| #![auto]
            out@.contains(q) <==> attacked_by_side(board@, to_move, q) by {
            if attacked_upto(board@, to_move, 64, q) {
                let w = choose|w: Position|
                    #[trigger] occupied(board@, w) && board@[w].color() == to_move && piece_attacks(
                        board@,
                        w,
                        board@[w],
                        q,
                    ) && cell_index(w) < 64;
                assert(attacked_by_side(board@, to_move, q));
            }
            if attacked_by_side(board@, to_move, q) {
                let w = choose|w: Position|
                    #[trigger] occupied(board@, w) && board@[w].color() == to_move && piece_attacks(
                        board@,
                        w,
                        board@[w],
                        q,
                    );
                assert(in_bounds(w));
                assert(cell_index(w) < 64);
                assert(attacked_upto(board@, to_move, 64, q));
            }
        }
        assert(out@ =~= side_attack_set(board@, to_move));
    }
    out
}

} // verus!
