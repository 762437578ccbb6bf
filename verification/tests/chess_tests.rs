use chess_engine::apply::postprocess_move;
use chess_engine::board::Board;
use chess_engine::legality::collect_kings;
use chess_engine::maps::{CastlingMap, Moves};
use chess_engine::attack::{generate_squares_under_attack_knight, generate_vertical_horizontal};
use chess_engine::movegen::{generate_castling_moves, generate_en_passant_moves, generate_moves};
use chess_engine::pieces::{Castling, PieceColor, PieceType, Position};
use chess_engine::sets::PositionSet;
use chess_engine::state::GameData;

fn empty_game(board: Board, castling: CastlingMap, to_move: PieceColor) -> GameData {
    GameData {
        board,
        castling,
        can_move_2_squares: PositionSet::empty(),
        to_move,
        moved_2_squares: None,
    }
}

#[test]
fn generate_en_passant_move_1_right() {
    let mut board = Board::empty();
    let to_move = PieceColor::White;
    board.set(Position { x: 0, y: 0 }, PieceType::King(to_move));
    let moved_2_squares = Position { x: 7, y: 4 };
    board.set(moved_2_squares, PieceType::Pawn(to_move.get_opposite()));
    let right_pos = Position { x: 6, y: 4 };
    board.set(right_pos, PieceType::Pawn(to_move));
    let game_data = GameData {
        board,
        castling: CastlingMap::new(),
        can_move_2_squares: PositionSet::empty(),
        to_move,
        moved_2_squares: Some(moved_2_squares),
    };

    let mut moves = Moves::new();
    generate_en_passant_moves(&game_data, &mut moves);
    assert_eq!(
        vec![Position { x: 7, y: 5 }],
        moves.get(right_pos).unwrap().to_vec()
    );
}

#[test]
fn generate_vertical_horizontal_inclusive_test() {
    let mut board = Board::empty();
    board.set(
        Position { x: 4, y: 3 },
        PieceType::Bishop(PieceColor::Black),
    );
    board.set(
        Position { x: 3, y: 3 },
        PieceType::Bishop(PieceColor::White),
    );
    let out = generate_vertical_horizontal(Position { x: 3, y: 3 }, &board);
    assert!(out.contains(Position { x: 4, y: 3 }))
}

#[test]
fn generate_vertical_horizontal_exclusive_test() {
    let mut board = Board::empty();
    board.set(
        Position { x: 4, y: 3 },
        PieceType::Bishop(PieceColor::Black),
    );
    board.set(
        Position { x: 3, y: 3 },
        PieceType::Bishop(PieceColor::Black),
    );
    let out = generate_vertical_horizontal(Position { x: 3, y: 3 }, &board);
    assert!(!out.contains(Position { x: 4, y: 3 }))
}

#[test]
fn generate_vertical_horizontal_horsie_test() {
    let mut board = Board::empty();
    board.set(
        Position { x: 4, y: 3 },
        PieceType::Knight(PieceColor::Black),
    );
    board.set(
        Position { x: 6, y: 2 },
        PieceType::Bishop(PieceColor::Black),
    );
    let out = generate_squares_under_attack_knight(&board, Position { x: 3, y: 3 });
    assert!(!out.contains(Position { x: 6, y: 2 }))
}

#[test]
fn test_castling() {
    let mut moves = Moves::new();
    let mut board = Board::empty();
    let king_pos = Position { x: 4, y: 7 };
    board.set(king_pos, PieceType::King(PieceColor::Black));
    board.set(Position { x: 7, y: 7 }, PieceType::Rook(PieceColor::Black));
    board.set(Position { x: 0, y: 7 }, PieceType::Rook(PieceColor::Black));
    let castling_black = Castling {
        king_side: true,
        queen_side: true,
    };
    let mut castling = CastlingMap::new();
    castling.insert(PieceColor::Black, castling_black);
    generate_castling_moves(
        &empty_game(board, castling, PieceColor::Black),
        &mut moves,
    );
    assert_eq!(moves.get(king_pos).unwrap().len(), 2);
}

#[test]
fn test_rooks() {
    let mut board = Board::empty();
    let king_pos = Position { x: 4, y: 7 };
    board.set(king_pos, PieceType::King(PieceColor::Black));
    board.set(Position { x: 7, y: 7 }, PieceType::Rook(PieceColor::Black));
    board.set(Position { x: 0, y: 7 }, PieceType::Rook(PieceColor::Black));
    let castling_black = Castling {
        king_side: true,
        queen_side: true,
    };
    let mut castling = CastlingMap::new();
    castling.insert(PieceColor::Black, castling_black);
    let moves = generate_moves(&empty_game(board, castling, PieceColor::Black));
    assert_eq!(moves.get(Position { x: 7, y: 7 }).unwrap().len(), 9);
    assert_eq!(moves.get(Position { x: 0, y: 7 }).unwrap().len(), 10);
}

#[test]
fn test_bishops() {
    let mut board = Board::empty();
    let king_pos = Position { x: 4, y: 7 };
    board.set(king_pos, PieceType::King(PieceColor::Black));
    board.set(
        Position { x: 7, y: 7 },
        PieceType::Bishop(PieceColor::Black),
    );
    board.set(
        Position { x: 0, y: 7 },
        PieceType::Bishop(PieceColor::Black),
    );
    let moves = generate_moves(&empty_game(board, CastlingMap::new(), PieceColor::Black));
    assert_eq!(moves.get(Position { x: 7, y: 7 }).unwrap().len(), 7);
    assert_eq!(moves.get(Position { x: 0, y: 7 }).unwrap().len(), 7);
}

#[test]
fn test_queen() {
    let mut board = Board::empty();
    let king_pos = Position { x: 4, y: 7 };
    board.set(king_pos, PieceType::King(PieceColor::Black));
    board.set(Position { x: 4, y: 4 }, PieceType::Queen(PieceColor::Black));
    let moves = generate_moves(&empty_game(board, CastlingMap::new(), PieceColor::Black));
    assert_eq!(moves.get(Position { x: 4, y: 4 }).unwrap().len(), 26);
}

#[test]
fn test_king_under_attack() {
    let mut board = Board::empty();
    let king_pos = Position { x: 4, y: 7 };
    board.set(king_pos, PieceType::King(PieceColor::Black));
    board.set(Position { x: 4, y: 6 }, PieceType::Queen(PieceColor::White));
    let moves = generate_moves(&empty_game(board, CastlingMap::new(), PieceColor::Black));
    assert!(moves
        .get(Position { x: 4, y: 7 })
        .unwrap()
        .contains(Position { x: 4, y: 6 }));
}

#[test]
fn test_king_under_attack_unreachable() {
    let mut board = Board::empty();
    let king_pos = Position { x: 4, y: 7 };
    board.set(king_pos, PieceType::King(PieceColor::Black));
    board.set(Position { x: 3, y: 5 }, PieceType::Queen(PieceColor::White));
    let moves = generate_moves(&empty_game(board, CastlingMap::new(), PieceColor::Black));
    assert!(!moves
        .get(Position { x: 4, y: 7 })
        .unwrap()
        .contains(Position { x: 4, y: 6 }));
}

#[test]
fn initial_position_has_twenty_moves() {
    let game = GameData::default();
    let moves = generate_moves(&game);
    let mut total = 0;
    for i in 0..moves.entry_count() {
        let origin = moves.origin_at(i);
        total += moves.get(origin).unwrap().len();
    }
    assert_eq!(total, 20);
    // each pawn may advance one or two squares
    assert_eq!(moves.get(Position { x: 0, y: 1 }).unwrap().len(), 2);
    // each knight has two developing squares
    assert_eq!(moves.get(Position { x: 1, y: 0 }).unwrap().len(), 2);
    // the blocked pieces have no entries at all
    assert!(moves.get(Position { x: 4, y: 0 }).is_none());
    assert!(moves.get(Position { x: 0, y: 0 }).is_none());
}

#[test]
fn collect_kings_finds_both() {
    let game = GameData::default();
    let kings = collect_kings(&game.board);
    assert_eq!(kings.get(PieceColor::White), Some(Position { x: 4, y: 0 }));
    assert_eq!(kings.get(PieceColor::Black), Some(Position { x: 4, y: 7 }));
}

#[test]
fn castling_commit_relocates_rook() {
    let mut board = Board::empty();
    let king_pos = Position { x: 4, y: 7 };
    board.set(king_pos, PieceType::King(PieceColor::Black));
    board.set(Position { x: 7, y: 7 }, PieceType::Rook(PieceColor::Black));
    board.set(Position { x: 0, y: 0 }, PieceType::King(PieceColor::White));
    let mut castling = CastlingMap::new();
    castling.insert(
        PieceColor::Black,
        Castling {
            king_side: true,
            queen_side: false,
        },
    );
    let game = empty_game(board, castling, PieceColor::Black);
    let (next, promotion) = postprocess_move(&game, king_pos, Position { x: 6, y: 7 });
    assert!(promotion.is_none());
    assert_eq!(
        next.board.get(Position { x: 6, y: 7 }),
        Some(PieceType::King(PieceColor::Black))
    );
    assert_eq!(
        next.board.get(Position { x: 5, y: 7 }),
        Some(PieceType::Rook(PieceColor::Black))
    );
    assert_eq!(next.board.get(Position { x: 7, y: 7 }), None);
    assert!(next.castling.get(PieceColor::Black).is_none());
    assert_eq!(next.to_move, PieceColor::White);
}

#[test]
fn en_passant_commit_removes_captured_pawn() {
    let mut board = Board::empty();
    board.set(Position { x: 0, y: 0 }, PieceType::King(PieceColor::White));
    let target = Position { x: 7, y: 4 };
    board.set(target, PieceType::Pawn(PieceColor::Black));
    let pawn = Position { x: 6, y: 4 };
    board.set(pawn, PieceType::Pawn(PieceColor::White));
    let game = GameData {
        board,
        castling: CastlingMap::new(),
        can_move_2_squares: PositionSet::empty(),
        to_move: PieceColor::White,
        moved_2_squares: Some(target),
    };
    let (next, promotion) = postprocess_move(&game, pawn, Position { x: 7, y: 5 });
    assert!(promotion.is_none());
    assert_eq!(next.board.get(target), None);
    assert_eq!(
        next.board.get(Position { x: 7, y: 5 }),
        Some(PieceType::Pawn(PieceColor::White))
    );
    assert!(next.moved_2_squares.is_none());
}

#[test]
fn double_step_sets_en_passant_target() {
    let game = GameData::default();
    let from = Position { x: 0, y: 1 };
    let to = Position { x: 0, y: 3 };
    let (next, promotion) = postprocess_move(&game, from, to);
    assert!(promotion.is_none());
    assert_eq!(next.moved_2_squares, Some(to));
    assert!(!next.can_move_2_squares.contains(from));
    assert_eq!(next.to_move, PieceColor::Black);
}

#[test]
fn single_step_leaves_no_en_passant_target() {
    let game = GameData::default();
    let from = Position { x: 0, y: 1 };
    let to = Position { x: 0, y: 2 };
    let (next, _promotion) = postprocess_move(&game, from, to);
    assert!(next.moved_2_squares.is_none());
}

#[test]
fn promotion_is_reported_and_resolved() {
    let mut board = Board::empty();
    board.set(Position { x: 4, y: 0 }, PieceType::King(PieceColor::White));
    board.set(Position { x: 4, y: 7 }, PieceType::King(PieceColor::Black));
    let pawn = Position { x: 0, y: 6 };
    board.set(pawn, PieceType::Pawn(PieceColor::White));
    let game = empty_game(board, CastlingMap::new(), PieceColor::White);
    let dest = Position { x: 0, y: 7 };
    let (next, promotion) = postprocess_move(&game, pawn, dest);
    assert_eq!(promotion, Some(dest));
    assert_eq!(next.board.get(dest), Some(PieceType::Pawn(PieceColor::White)));
    let resolved =
        chess_engine::apply::resolve_promotion(&next, dest, PieceType::Queen(PieceColor::White));
    assert_eq!(
        resolved.board.get(dest),
        Some(PieceType::Queen(PieceColor::White))
    );
}

#[test]
fn rook_move_revokes_one_right() {
    let mut board = Board::empty();
    board.set(Position { x: 4, y: 0 }, PieceType::King(PieceColor::White));
    board.set(Position { x: 0, y: 0 }, PieceType::Rook(PieceColor::White));
    board.set(Position { x: 7, y: 0 }, PieceType::Rook(PieceColor::White));
    let mut castling = CastlingMap::new();
    castling.insert(
        PieceColor::White,
        Castling {
            king_side: true,
            queen_side: true,
        },
    );
    let game = empty_game(board, castling, PieceColor::White);
    let (next, _) = postprocess_move(&game, Position { x: 0, y: 0 }, Position { x: 0, y: 3 });
    let rights = next.castling.get(PieceColor::White).unwrap();
    assert!(rights.king_side);
    assert!(!rights.queen_side);
}

#[test]
fn rook_move_from_file_seven_revokes_king_side() {
    let mut board = Board::empty();
    board.set(Position { x: 4, y: 0 }, PieceType::King(PieceColor::White));
    board.set(Position { x: 0, y: 0 }, PieceType::Rook(PieceColor::White));
    board.set(Position { x: 7, y: 0 }, PieceType::Rook(PieceColor::White));
    let mut castling = CastlingMap::new();
    castling.insert(
        PieceColor::White,
        Castling {
            king_side: true,
            queen_side: true,
        },
    );
    let game = empty_game(board, castling, PieceColor::White);
    let (next, _) = postprocess_move(&game, Position { x: 7, y: 0 }, Position { x: 7, y: 3 });
    let rights = next.castling.get(PieceColor::White).unwrap();
    assert!(!rights.king_side);
    assert!(rights.queen_side);
}

#[test]
fn rook_move_from_other_file_keeps_rights() {
    // a rook that already left its home square changes nothing when it moves
    // again: its wing's flag was cleared on its first move
    let mut board = Board::empty();
    board.set(Position { x: 4, y: 0 }, PieceType::King(PieceColor::White));
    board.set(Position { x: 3, y: 3 }, PieceType::Rook(PieceColor::White));
    board.set(Position { x: 7, y: 0 }, PieceType::Rook(PieceColor::White));
    let mut castling = CastlingMap::new();
    castling.insert(
        PieceColor::White,
        Castling {
            king_side: true,
            queen_side: false,
        },
    );
    let game = empty_game(board, castling, PieceColor::White);
    let (next, _) = postprocess_move(&game, Position { x: 3, y: 3 }, Position { x: 3, y: 6 });
    let rights = next.castling.get(PieceColor::White).unwrap();
    assert!(rights.king_side);
    assert!(!rights.queen_side);
}

#[test]
fn pinned_rook_cannot_leave_the_file() {
    let mut board = Board::empty();
    board.set(Position { x: 4, y: 7 }, PieceType::King(PieceColor::Black));
    board.set(Position { x: 4, y: 6 }, PieceType::Rook(PieceColor::Black));
    board.set(Position { x: 4, y: 0 }, PieceType::Queen(PieceColor::White));
    let moves = generate_moves(&empty_game(board, CastlingMap::new(), PieceColor::Black));
    let rook_moves = moves.get(Position { x: 4, y: 6 }).unwrap();
    // moving along the pin file, including capturing the queen, is fine
    assert!(rook_moves.contains(Position { x: 4, y: 0 }));
    assert!(rook_moves.contains(Position { x: 4, y: 5 }));
    // leaving the file would expose the king
    assert!(!rook_moves.contains(Position { x: 3, y: 6 }));
    assert!(!rook_moves.contains(Position { x: 5, y: 6 }));
}

#[test]
fn castling_blocked_by_attacked_transit() {
    let mut board = Board::empty();
    let king_pos = Position { x: 4, y: 7 };
    board.set(king_pos, PieceType::King(PieceColor::Black));
    board.set(Position { x: 7, y: 7 }, PieceType::Rook(PieceColor::Black));
    board.set(Position { x: 0, y: 7 }, PieceType::Rook(PieceColor::Black));
    // a white rook covering file 5 bars the king-side transit only
    board.set(Position { x: 5, y: 0 }, PieceType::Rook(PieceColor::White));
    let mut castling = CastlingMap::new();
    castling.insert(
        PieceColor::Black,
        Castling {
            king_side: true,
            queen_side: true,
        },
    );
    let mut moves = Moves::new();
    generate_castling_moves(
        &empty_game(board, castling, PieceColor::Black),
        &mut moves,
    );
    let king_moves = moves.get(king_pos).unwrap();
    assert_eq!(king_moves.len(), 1);
    assert!(king_moves.contains(Position { x: 2, y: 7 }));
    assert!(!king_moves.contains(Position { x: 6, y: 7 }));
}

#[test]
fn opposite_colors_and_piece_colors() {
    assert_eq!(PieceColor::White.get_opposite(), PieceColor::Black);
    assert_eq!(PieceColor::Black.get_opposite(), PieceColor::White);
    assert_eq!(
        PieceType::Knight(PieceColor::Black).get_color(),
        PieceColor::Black
    );
    assert_eq!(
        PieceType::Pawn(PieceColor::White).get_color(),
        PieceColor::White
    );
}

#[test]
fn new_game_data_is_empty() {
    let game = GameData::new();
    assert!(game.board.get(Position { x: 0, y: 0 }).is_none());
    assert!(game.castling.get(PieceColor::White).is_none());
    assert_eq!(game.to_move, PieceColor::White);
    assert!(game.moved_2_squares.is_none());
}

#[test]
fn scholars_mate_sequence_ends_with_capture_available() {
    // play a few plies from the start and check the state stays coherent
    let game = GameData::default();
    // white pawn e2-e4
    let (game, _) = postprocess_move(&game, Position { x: 4, y: 1 }, Position { x: 4, y: 3 });
    assert_eq!(game.moved_2_squares, Some(Position { x: 4, y: 3 }));
    // black pawn e7-e5
    let (game, _) = postprocess_move(&game, Position { x: 4, y: 6 }, Position { x: 4, y: 4 });
    // white queen d1-h5
    let (game, _) = postprocess_move(&game, Position { x: 3, y: 0 }, Position { x: 7, y: 4 });
    // black knight b8-c6
    let (game, _) = postprocess_move(&game, Position { x: 1, y: 7 }, Position { x: 2, y: 5 });
    let moves = generate_moves(&game);
    // the queen on h5 may capture the pawn on e5 among other moves
    assert!(moves
        .get(Position { x: 7, y: 4 })
        .unwrap()
        .contains(Position { x: 4, y: 4 }));
    // castling rights are untouched by pawn, queen and knight moves
    assert!(game.castling.get(PieceColor::White).unwrap().king_side);
    assert!(game.castling.get(PieceColor::Black).unwrap().queen_side);
}
