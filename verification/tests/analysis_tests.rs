use chess_rl::engine::analysis::material_value;
use chess_rl::engine::rl::RLEngine;
use chess_rl::game::board::Board;
use chess_rl::game::piece::{Color, Piece, PieceType};
use chess_rl::utils::parse_coordinate;

fn put(board: &mut Board, pos: (usize, usize), piece_type: PieceType, color: Color) {
    board.set_piece(pos, Some(Piece::new(piece_type, color)));
}

/// White king a1, white rook a2 pinned by the black rook a8; the black rook
/// b8 takes b1 and b2 from the king.
fn pinned_rook_position() -> Board {
    let mut board = Board::empty();
    put(&mut board, (7, 0), PieceType::King, Color::White);
    put(&mut board, (6, 0), PieceType::Rook, Color::White);
    put(&mut board, (0, 0), PieceType::Rook, Color::Black);
    put(&mut board, (0, 1), PieceType::Rook, Color::Black);
    board
}

/// White king a1 boxed in by the black rooks b8 and h2; the white pawn d5
/// has the only legal move.
fn single_move_position() -> Board {
    let mut board = Board::empty();
    put(&mut board, (7, 0), PieceType::King, Color::White);
    put(&mut board, (3, 3), PieceType::Pawn, Color::White);
    put(&mut board, (0, 1), PieceType::Rook, Color::Black);
    put(&mut board, (6, 7), PieceType::Rook, Color::Black);
    board
}

#[test]
fn material_values_are_the_fixed_table() {
    assert_eq!(material_value(PieceType::Pawn), 100);
    assert_eq!(material_value(PieceType::Knight), 320);
    assert_eq!(material_value(PieceType::Bishop), 330);
    assert_eq!(material_value(PieceType::Rook), 500);
    assert_eq!(material_value(PieceType::Queen), 900);
    assert_eq!(material_value(PieceType::King), 20000);
}

#[test]
fn king_mobility_after_e2_e4_is_the_vacated_square() {
    let engine = RLEngine::new();
    let mut board = Board::new();
    let from = parse_coordinate("e2").unwrap();
    let to = parse_coordinate("e4").unwrap();
    assert!(board.move_piece(from, to));
    let king = parse_coordinate("e1").unwrap();
    assert_eq!(engine.get_piece_moves(&board, king), vec![parse_coordinate("e2").unwrap()]);
    let analysis = engine.analyze_board(&board, Color::White);
    assert_eq!(analysis.piece_mobility[king.0 * 8 + king.1], Some(vec![(6, 4)]));
}

#[test]
fn mobility_lists_are_in_reading_order() {
    let engine = RLEngine::new();
    let board = Board::new();
    assert_eq!(engine.get_piece_moves(&board, (7, 1)), vec![(5, 0), (5, 2)]);
    assert_eq!(engine.get_piece_moves(&board, (6, 3)), vec![(4, 3), (5, 3)]);
    assert_eq!(engine.get_piece_moves(&board, (7, 0)), vec![]);
    assert_eq!(engine.get_piece_moves(&board, (4, 4)), vec![]);
}

#[test]
fn analysis_of_the_starting_position() {
    let engine = RLEngine::new();
    let board = Board::new();
    let analysis = engine.analyze_board(&board, Color::White);
    assert_eq!(analysis.material_balance, 0);
    assert_eq!(analysis.king_safety, 5);
    assert_eq!(analysis.center_control, 4);
    assert!(analysis.threats.is_empty());
    assert_eq!(analysis.piece_mobility.len(), 64);
    let total: usize = analysis.piece_mobility.iter().flatten().map(|moves| moves.len()).sum();
    assert_eq!(total, 40);
    for rank in 0..8 {
        for file in 0..8 {
            let occupied = rank < 2 || rank >= 6;
            assert_eq!(analysis.piece_mobility[rank * 8 + file].is_some(), occupied);
            let reachable = (2..6).contains(&rank);
            assert_eq!(analysis.controlled_squares[rank][file], reachable);
        }
    }
}

#[test]
fn analysis_twice_gives_the_same_content() {
    let engine = RLEngine::new();
    let board = pinned_rook_position();
    let first = engine.analyze_board(&board, Color::White);
    let second = engine.analyze_board(&board, Color::White);
    assert_eq!(first.controlled_squares, second.controlled_squares);
    assert_eq!(first.piece_mobility, second.piece_mobility);
    assert_eq!(first.threats, second.threats);
    assert_eq!(first.king_safety, second.king_safety);
    assert_eq!(first.material_balance, second.material_balance);
    assert_eq!(first.center_control, second.center_control);
}

#[test]
fn threats_pair_enemy_attackers_with_friendly_targets() {
    let engine = RLEngine::new();
    let board = pinned_rook_position();
    let white = engine.analyze_board(&board, Color::White);
    assert_eq!(white.threats, vec![((0, 0), (6, 0))]);
    let black = engine.analyze_board(&board, Color::Black);
    assert_eq!(black.threats, vec![((6, 0), (0, 0))]);
}

#[test]
fn material_balance_counts_the_reference_color_positive() {
    let engine = RLEngine::new();
    let board = pinned_rook_position();
    assert_eq!(engine.get_material_balance(&board, Color::White), 20000 + 500 - 1000);
    assert_eq!(engine.get_material_balance(&board, Color::Black), 1000 - 20000 - 500);
    assert_eq!(engine.get_material_balance(&Board::new(), Color::White), 0);
}

#[test]
fn king_safety_counts_neighbors_and_threats() {
    let engine = RLEngine::new();
    // one friendly neighbor, no threat onto the king
    assert_eq!(engine.get_king_safety(&pinned_rook_position(), Color::White), 1);
    // no king on the board
    assert_eq!(engine.get_king_safety(&pinned_rook_position(), Color::Black), 0);
    // a king in check by two pieces, next to one friend
    let mut board = Board::empty();
    put(&mut board, (4, 4), PieceType::King, Color::White);
    put(&mut board, (4, 5), PieceType::Pawn, Color::White);
    put(&mut board, (4, 0), PieceType::Rook, Color::Black);
    put(&mut board, (2, 3), PieceType::Knight, Color::Black);
    assert_eq!(engine.get_king_safety(&board, Color::White), 1 - 2 * 2);
    // a king in the corner with all three neighbors friendly
    let mut corner = Board::empty();
    put(&mut corner, (0, 0), PieceType::King, Color::Black);
    put(&mut corner, (0, 1), PieceType::Pawn, Color::Black);
    put(&mut corner, (1, 0), PieceType::Pawn, Color::Black);
    put(&mut corner, (1, 1), PieceType::Pawn, Color::Black);
    assert_eq!(engine.get_king_safety(&corner, Color::Black), 3);
}

#[test]
fn the_first_king_in_reading_order_is_found() {
    let engine = RLEngine::new();
    assert_eq!(engine.find_king(&Board::new(), Color::White), Some((7, 4)));
    assert_eq!(engine.find_king(&Board::new(), Color::Black), Some((0, 4)));
    assert_eq!(engine.find_king(&Board::empty(), Color::White), None);
    let mut board = Board::empty();
    put(&mut board, (5, 5), PieceType::King, Color::White);
    put(&mut board, (2, 6), PieceType::King, Color::White);
    assert_eq!(engine.find_king(&board, Color::White), Some((2, 6)));
}

#[test]
fn center_control_counts_reachable_central_squares() {
    let engine = RLEngine::new();
    assert_eq!(engine.get_center_control(&Board::new(), Color::White), 4);
    assert_eq!(engine.get_center_control(&Board::empty(), Color::White), 0);
    let mut board = Board::empty();
    put(&mut board, (3, 0), PieceType::Rook, Color::White);
    assert_eq!(engine.get_center_control(&board, Color::Black), 2);
    let mut grid = [[false; 8]; 8];
    grid[3][3] = true;
    grid[4][4] = true;
    grid[0][0] = true;
    assert_eq!(engine.evaluate_center_control(&grid), 2);
}

#[test]
fn king_threat_is_membership_in_the_controlled_squares() {
    let engine = RLEngine::new();
    let mut board = pinned_rook_position();
    assert!(!engine.is_king_threatened(&board, Color::White));
    assert!(board.move_piece((6, 0), (6, 5)));
    assert!(engine.is_king_threatened(&board, Color::White));
    assert!(!engine.is_king_threatened(&board, Color::Black));
}

#[test]
fn score_of_the_starting_position_without_noise() {
    let engine = RLEngine::new();
    let board = Board::new();
    // material 0; king safety 5 each: 3.0 * 5 - 2.5 * 5; mobility 40 * 0.1;
    // no threats; center control 4 * 1.5
    assert_eq!(engine.evaluate_with_noise(&board, Color::White, 0), 12_500);
    assert_eq!(engine.evaluate_with_noise(&board, Color::Black, 0), 12_500);
    assert_eq!(engine.evaluate_with_noise(&board, Color::White, -200), 12_300);
    assert_eq!(engine.evaluate_with_noise(&board, Color::White, 199), 12_699);
}

#[test]
fn score_of_a_position_with_threats_and_material() {
    let engine = RLEngine::new();
    let board = pinned_rook_position();
    // White: material 19500; own king safety 1; no black king; mobility
    // 2 (king) + 13 (rook a2) + 6 (rook a8) + 13 (rook b8) = 34; one threat
    // against White; center control 0
    let king_moves = engine.get_piece_moves(&board, (7, 0)).len();
    let rook_moves = engine.get_piece_moves(&board, (6, 0)).len();
    let a8_moves = engine.get_piece_moves(&board, (0, 0)).len();
    let b8_moves = engine.get_piece_moves(&board, (0, 1)).len();
    assert_eq!((king_moves, rook_moves, a8_moves, b8_moves), (2, 13, 6, 13));
    let mobility = 100 * 34;
    assert_eq!(
        engine.evaluate_with_noise(&board, Color::White, 0),
        19_500_000 + 3000 - 0 + mobility - 2000 + 0
    );
    // Black: material -19500; no own king; white king safety 1; one threat
    // against Black (the rook a2 attacks a8)
    assert_eq!(
        engine.evaluate_with_noise(&board, Color::Black, 0),
        -19_500_000 + 0 - 2500 + mobility - 2000 + 0
    );
}

#[test]
fn material_part_of_the_score_is_antisymmetric() {
    let engine = RLEngine::new();
    for board in [Board::new(), pinned_rook_position(), single_move_position()] {
        assert_eq!(
            engine.get_material_balance(&board, Color::White),
            -engine.get_material_balance(&board, Color::Black)
        );
    }
    // where nothing can move, the whole positional part is antisymmetric
    let mut stuck = Board::empty();
    put(&mut stuck, (0, 0), PieceType::Pawn, Color::White);
    put(&mut stuck, (7, 7), PieceType::Pawn, Color::Black);
    put(&mut stuck, (0, 3), PieceType::Pawn, Color::White);
    let white = engine.evaluate_with_noise(&stuck, Color::White, 0);
    let black = engine.evaluate_with_noise(&stuck, Color::Black, 0);
    assert_eq!(white, 100_000);
    assert_eq!(white, -black);
}

#[test]
fn evaluation_noise_stays_inside_its_band() {
    let engine = RLEngine::new();
    let board = Board::new();
    let mut seen = Vec::new();
    for _ in 0..300 {
        let score = engine.evaluate_position(&board, Color::White);
        assert!(12_300 <= score && score < 12_700);
        if !seen.contains(&score) {
            seen.push(score);
        }
    }
    assert!(seen.len() > 1);
}

#[test]
fn move_priority_adds_capture_threat_and_center() {
    let engine = RLEngine::new();
    let mut board = Board::empty();
    put(&mut board, (4, 0), PieceType::Rook, Color::White);
    put(&mut board, (4, 4), PieceType::Queen, Color::Black);
    put(&mut board, (0, 0), PieceType::Knight, Color::Black);
    let analysis = engine.analyze_board(&board, Color::White);
    assert_eq!(analysis.threats, vec![((4, 4), (4, 0))]);
    // capture of the queen on a central square
    assert_eq!(engine.evaluate_move_priority(&board, (4, 4), &analysis), 900 + 10);
    // capture of the knight
    assert_eq!(engine.evaluate_move_priority(&board, (0, 0), &analysis), 320);
    // a quiet move
    assert_eq!(engine.evaluate_move_priority(&board, (4, 1), &analysis), 0);
    // the target square of a threat
    assert_eq!(engine.evaluate_move_priority(&board, (4, 0), &analysis), 500 + 50);
    // an empty central square
    assert_eq!(engine.evaluate_move_priority(&board, (3, 3), &analysis), 10);
}

#[test]
fn candidates_are_ranked_by_falling_priority_and_stably() {
    let engine = RLEngine::new();
    let given = vec![('a', 5i64), ('b', 9), ('c', 5), ('d', -1), ('e', 9), ('f', 0)];
    let ranked = engine.rank_candidates(&given);
    assert_eq!(ranked, vec![('b', 9), ('e', 9), ('a', 5), ('c', 5), ('f', 0), ('d', -1)]);
    let none: Vec<(u8, i64)> = Vec::new();
    assert_eq!(engine.rank_candidates(&none), vec![]);
}

#[test]
fn ranked_moves_of_the_starting_position() {
    let engine = RLEngine::new();
    let board = Board::new();
    let moves = engine.generate_ranked_moves(&board, Color::White);
    assert_eq!(moves.len(), 20);
    // the two moves onto central squares come first, then reading order
    assert_eq!(moves[0], ((6, 3), (4, 3)));
    assert_eq!(moves[1], ((6, 4), (4, 4)));
    assert_eq!(moves[2], ((6, 0), (4, 0)));
    assert_eq!(moves[3], ((6, 0), (5, 0)));
    assert_eq!(moves[19], ((7, 6), (5, 7)));
    let black = engine.generate_ranked_moves(&board, Color::Black);
    assert_eq!(black.len(), 20);
    assert_eq!(black[0], ((1, 3), (3, 3)));
    assert_eq!(black[1], ((1, 4), (3, 4)));
}

#[test]
fn ranker_keeps_a_pinned_piece_on_its_line() {
    let engine = RLEngine::new();
    let board = pinned_rook_position();
    let moves = engine.generate_ranked_moves(&board, Color::White);
    // the capture of the pinning rook first, then the quiet moves along
    // the file; no king move and no move off the file
    assert_eq!(
        moves,
        vec![
            ((6, 0), (0, 0)),
            ((6, 0), (1, 0)),
            ((6, 0), (2, 0)),
            ((6, 0), (3, 0)),
            ((6, 0), (4, 0)),
            ((6, 0), (5, 0)),
        ]
    );
}

#[test]
fn ranker_returns_the_only_legal_move() {
    let engine = RLEngine::new();
    let board = single_move_position();
    assert_eq!(engine.generate_ranked_moves(&board, Color::White), vec![((3, 3), (2, 3))]);
}

#[test]
fn every_ranked_move_leaves_the_own_king_safe() {
    let engine = RLEngine::new();
    let mut board = Board::new();
    for (from, to) in [("e2", "e4"), ("e7", "e5"), ("d1", "h5"), ("b8", "c6"), ("h5", "f7")] {
        let from = parse_coordinate(from).unwrap();
        let to = parse_coordinate(to).unwrap();
        assert!(board.move_piece(from, to));
    }
    // the white queen on f7 gives check: Black may only take it
    let moves = engine.generate_ranked_moves(&board, Color::Black);
    assert_eq!(moves, vec![((0, 4), (1, 5))]);
    for color in [Color::White, Color::Black] {
        for (from, to) in engine.generate_ranked_moves(&board, color) {
            let mut copy = board.clone();
            assert!(copy.move_piece(from, to));
            assert!(!engine.is_king_threatened(&copy, color));
        }
    }
}

#[test]
fn ranker_has_nothing_for_a_side_without_pieces() {
    let engine = RLEngine::new();
    let board = pinned_rook_position();
    let mut only_black = board.clone();
    only_black.set_piece((7, 0), None);
    only_black.set_piece((6, 0), None);
    assert_eq!(engine.generate_ranked_moves(&only_black, Color::White), vec![]);
}

/// White king h1 behind its pawns g2 and h2 and next to its knight g1; the
/// black rook a2 attacks the pawn g2.
fn boxed_king_position() -> Board {
    let mut board = Board::empty();
    put(&mut board, (7, 7), PieceType::King, Color::White);
    put(&mut board, (7, 6), PieceType::Knight, Color::White);
    put(&mut board, (6, 6), PieceType::Pawn, Color::White);
    put(&mut board, (6, 7), PieceType::Pawn, Color::White);
    put(&mut board, (6, 0), PieceType::Rook, Color::Black);
    board
}

#[test]
fn escape_prefers_the_first_safest_king_move() {
    let engine = RLEngine::new();
    let board = pinned_rook_position();
    let analysis = engine.analyze_board(&board, Color::White);
    // b2 and b1 are both next to the rook a2; b2 comes first in reading order
    assert_eq!(engine.find_escape_move(&board, Color::White, &analysis), Some(((7, 0), (6, 1))));
    // a king with more friends around one destination goes there
    let mut board = Board::empty();
    put(&mut board, (4, 4), PieceType::King, Color::Black);
    put(&mut board, (2, 6), PieceType::Pawn, Color::Black);
    put(&mut board, (4, 6), PieceType::Pawn, Color::Black);
    let analysis = engine.analyze_board(&board, Color::Black);
    assert_eq!(engine.find_escape_move(&board, Color::Black, &analysis), Some(((4, 4), (3, 5))));
}

#[test]
fn escape_of_a_boxed_king_captures_the_attacker() {
    let engine = RLEngine::new();
    let mut board = boxed_king_position();
    put(&mut board, (4, 2), PieceType::Bishop, Color::White);
    let analysis = engine.analyze_board(&board, Color::White);
    assert_eq!(analysis.threats, vec![((6, 0), (6, 6))]);
    assert_eq!(engine.find_escape_move(&board, Color::White, &analysis), Some(((4, 2), (6, 0))));
}

#[test]
fn escape_counts_every_move_onto_the_squares_of_a_threat() {
    let engine = RLEngine::new();
    let board = boxed_king_position();
    let analysis = engine.analyze_board(&board, Color::White);
    // only the attacker itself reaches a square of the threat
    assert_eq!(engine.find_escape_move(&board, Color::White, &analysis), Some(((6, 0), (6, 6))));
}

#[test]
fn escape_is_none_without_king_or_without_moves() {
    let engine = RLEngine::new();
    let board = pinned_rook_position();
    let analysis = engine.analyze_board(&board, Color::Black);
    assert_eq!(engine.find_escape_move(&board, Color::Black, &analysis), None);
    let mut board = boxed_king_position();
    board.set_piece((6, 0), None);
    let analysis = engine.analyze_board(&board, Color::White);
    assert!(analysis.threats.is_empty());
    assert_eq!(engine.find_escape_move(&board, Color::White, &analysis), None);
}
