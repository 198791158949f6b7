use chess_rl::engine::rl::{Confidence, MCTSNode, RLEngine, SimulationStats, MAX_PLIES};
use chess_rl::game::board::Board;
use chess_rl::game::piece::{Color, Piece, PieceType};
use std::cell::Cell;

fn put(board: &mut Board, pos: (usize, usize), piece_type: PieceType, color: Color) {
    board.set_piece(pos, Some(Piece::new(piece_type, color)));
}

/// The selection rule of the search: the child with the largest upper
/// confidence bound, the last of them where several have it.
fn uct(tallies: Vec<(i64, u32)>, parent_visits: u32) -> usize {
    let mut best = 0;
    let mut best_score = f64::NEG_INFINITY;
    for (index, (total, visits)) in tallies.iter().enumerate() {
        let score = if *visits == 0 {
            f64::INFINITY
        } else {
            let visits = *visits as f64;
            (*total as f64 / 1000.0) / visits
                + 1.414 * ((parent_visits as f64).ln() / visits).sqrt()
        };
        if score >= best_score {
            best = index;
            best_score = score;
        }
    }
    best
}

fn leaf(board: &Board, player: Color, visits: u32, total_value: i64) -> MCTSNode {
    MCTSNode {
        board: board.clone(),
        visits,
        total_value,
        children: Vec::new(),
        unexplored_moves: Vec::new(),
        current_player: player,
    }
}

fn single_move_position() -> Board {
    let mut board = Board::empty();
    put(&mut board, (7, 0), PieceType::King, Color::White);
    put(&mut board, (3, 3), PieceType::Pawn, Color::White);
    put(&mut board, (0, 1), PieceType::Rook, Color::Black);
    put(&mut board, (6, 7), PieceType::Rook, Color::Black);
    board
}

fn two_kings_and_a_queen() -> Board {
    let mut board = Board::empty();
    put(&mut board, (7, 4), PieceType::King, Color::White);
    put(&mut board, (7, 3), PieceType::Queen, Color::White);
    put(&mut board, (0, 4), PieceType::King, Color::Black);
    board
}

#[test]
fn a_new_engine_plays_ten_plies_deep() {
    let engine = RLEngine::new();
    assert_eq!(engine.simulation_depth, MAX_PLIES);
    assert_eq!(engine.simulation_depth, 10);
    assert_eq!(engine.current_stats.total_simulations, 0);
    assert_eq!(engine.current_stats.nodes_explored, 0);
    assert!(engine.current_stats.top_moves.is_empty());
}

#[test]
fn default_statistics_are_empty() {
    let stats = SimulationStats::default();
    assert_eq!(stats.total_simulations, 0);
    assert_eq!(stats.nodes_explored, 0);
    assert!(stats.best_line.is_empty());
    assert_eq!(stats.best_move_confidence.visits, 0);
    assert_eq!(stats.best_move_confidence.total, 0);
    assert_eq!(stats.current_eval, 0);
    assert_eq!(stats.depth_reached, 0);
    assert!(stats.top_moves.is_empty());
    assert_eq!(stats.thinking_line, "");
}

#[test]
fn a_fresh_node_queues_every_ranked_move() {
    let engine = RLEngine::new();
    let board = Board::new();
    let node = MCTSNode::new(board, Color::White, &engine);
    assert_eq!(node.visits, 0);
    assert_eq!(node.total_value, 0);
    assert!(node.children.is_empty());
    assert_eq!(node.unexplored_moves, engine.generate_ranked_moves(&board, Color::White));
    assert_eq!(node.current_player, Color::White);
}

#[test]
fn playout_of_depth_zero_scores_the_position() {
    let engine = RLEngine::new();
    let board = Board::new();
    for _ in 0..20 {
        let value = engine.simulate(&board, Color::White, 0);
        assert!(12_300 <= value && value < 12_700);
    }
    let value = engine.simulate(&board, Color::White, -3);
    assert!(12_300 <= value && value < 12_700);
}

#[test]
fn playout_without_moves_scores_the_position() {
    let engine = RLEngine::new();
    let mut board = Board::empty();
    put(&mut board, (0, 0), PieceType::Rook, Color::Black);
    // White has nothing to move: material -500, mobility 14, center 0
    let value = engine.simulate(&board, Color::White, 10);
    let score = -500_000 + 1400;
    assert!(score - 200 <= value && value < score + 200);
}

#[test]
fn playout_of_one_ply_negates_the_reply() {
    let engine = RLEngine::new();
    let board = single_move_position();
    let mut after = board.clone();
    assert!(after.move_piece((3, 3), (2, 3)));
    let reply = engine.evaluate_with_noise(&after, Color::Black, 0);
    let value = engine.simulate(&board, Color::White, 1);
    assert!(-reply - 200 < value && value <= -reply + 200);
}

#[test]
fn every_iteration_expands_one_unexplored_move_of_the_root() {
    let mut engine = RLEngine::new();
    let board = Board::new();
    let ranked = engine.generate_ranked_moves(&board, Color::White);
    let mut root = MCTSNode::new(board, Color::White, &engine);
    let mut total = 0;
    for round in 1..=5u32 {
        let value = engine.mcts_iteration(&mut root, &uct);
        assert!(-1_400_000_000 <= value && value <= 1_400_000_000);
        total += value;
        assert_eq!(root.visits, round);
        assert_eq!(root.total_value, total);
        assert_eq!(root.children.len(), round as usize);
        assert_eq!(root.children.len() + root.unexplored_moves.len(), 20);
        let (mv, child) = root.children.last().unwrap();
        assert_eq!(child.visits, 1);
        assert_eq!(child.total_value, -value);
        assert_eq!(child.current_player, Color::Black);
        assert!(child.children.is_empty());
        assert!(ranked.contains(mv));
        assert!(!root.unexplored_moves.contains(mv));
        let mut expected = board.clone();
        assert!(expected.move_piece(mv.0, mv.1));
        assert_eq!(child.unexplored_moves, engine.generate_ranked_moves(&expected, Color::Black));
    }
    assert_eq!(engine.current_stats.nodes_explored, 5);
    for mv in &ranked {
        let expanded = root.children.iter().filter(|(m, _)| m == mv).count();
        let queued = root.unexplored_moves.iter().filter(|m| *m == mv).count();
        assert_eq!(expanded + queued, 1);
    }
}

#[test]
fn once_every_move_is_expanded_the_search_descends() {
    let mut engine = RLEngine::new();
    let board = Board::new();
    let mut root = MCTSNode::new(board, Color::White, &engine);
    for _ in 0..20 {
        engine.mcts_iteration(&mut root, &uct);
    }
    assert_eq!(root.children.len(), 20);
    assert!(root.unexplored_moves.is_empty());
    assert_eq!(engine.current_stats.nodes_explored, 20);
    engine.mcts_iteration(&mut root, &uct);
    assert_eq!(root.visits, 21);
    assert_eq!(root.children.len(), 20);
    assert_eq!(engine.current_stats.nodes_explored, 22);
    let visits: Vec<u32> = root.children.iter().map(|(_, child)| child.visits).collect();
    assert_eq!(visits.iter().sum::<u32>(), 21);
    assert_eq!(visits.iter().filter(|v| **v == 2).count(), 1);
    let deeper = root.children.iter().find(|(_, child)| child.visits == 2).unwrap();
    assert_eq!(deeper.1.children.len(), 1);
    assert_eq!(deeper.1.children[0].1.current_player, Color::White);
}

#[test]
fn expansion_attaches_the_child_of_the_given_move() {
    let engine = RLEngine::new();
    let board = Board::new();
    let mut root = MCTSNode::new(board, Color::White, &engine);
    engine.record(&mut root, 700);
    assert_eq!((root.visits, root.total_value), (1, 700));
    let value = engine.expand(&mut root, 1);
    assert_eq!(root.visits, 2);
    assert_eq!(root.total_value, 700 + value);
    assert_eq!(root.unexplored_moves.len(), 19);
    assert_eq!(root.unexplored_moves[0], ((6, 3), (4, 3)));
    assert_eq!(root.unexplored_moves[1], ((6, 0), (4, 0)));
    assert_eq!(root.children.len(), 1);
    let (mv, child) = &root.children[0];
    assert_eq!(*mv, ((6, 4), (4, 4)));
    assert_eq!(child.visits, 1);
    assert_eq!(child.total_value, -value);
    assert_eq!(child.current_player, Color::Black);
    assert!(child.board.get_piece((4, 4)).is_some());
    assert!(child.board.get_piece((6, 4)).is_none());
}

#[test]
fn a_node_without_moves_is_scored_again_on_each_visit() {
    let mut engine = RLEngine::new();
    let mut board = Board::empty();
    put(&mut board, (0, 0), PieceType::Rook, Color::Black);
    let mut root = MCTSNode::new(board, Color::White, &engine);
    for round in 1..=3 {
        let value = engine.mcts_iteration(&mut root, &uct);
        let score = -500_000 + 1400;
        assert!(score - 200 <= value && value < score + 200);
        assert_eq!(root.visits, round);
        assert!(root.children.is_empty());
    }
}

#[test]
fn descent_follows_the_selection_policy_and_negates_the_value() {
    let mut engine = RLEngine::new();
    let board = single_move_position();
    let mut root = MCTSNode::new(board, Color::White, &engine);
    engine.mcts_iteration(&mut root, &uct);
    assert_eq!(root.children.len(), 1);
    assert!(root.unexplored_moves.is_empty());
    let asked = Cell::new(0u32);
    let policy = |tallies: Vec<(i64, u32)>, visits: u32| {
        asked.set(asked.get() + 1);
        assert_eq!(tallies.len(), 1);
        assert_eq!(visits, 1);
        0
    };
    let before_root = root.total_value;
    let before_child = root.children[0].1.total_value;
    let value = engine.mcts_iteration(&mut root, &policy);
    assert_eq!(asked.get(), 1);
    assert_eq!(root.visits, 2);
    assert_eq!(root.total_value, before_root + value);
    assert_eq!(root.children[0].1.visits, 2);
    assert_eq!(root.children[0].1.total_value, before_child - value);
    assert_eq!(root.children[0].1.children.len(), 1);
}

#[test]
fn a_policy_that_names_no_child_falls_back_to_the_first() {
    let engine = RLEngine::new();
    let board = Board::new();
    let mut root = leaf(&board, Color::White, 5, 0);
    root.children.push((((6, 0), (5, 0)), leaf(&board, Color::Black, 1, 10)));
    root.children.push((((6, 1), (5, 1)), leaf(&board, Color::Black, 3, 20)));
    assert_eq!(engine.select_child(&root, &|_t: Vec<(i64, u32)>, _n: u32| 7), 0);
    assert_eq!(engine.select_child(&root, &|_t: Vec<(i64, u32)>, _n: u32| 1), 1);
    let seen = Cell::new((Vec::new(), 0u32));
    let index = engine.select_child(&root, &|tallies: Vec<(i64, u32)>, visits: u32| {
        seen.set((tallies, visits));
        0
    });
    assert_eq!(index, 0);
    assert_eq!(seen.take(), (vec![(10, 1), (20, 3)], 5));
    assert_eq!(engine.select_child(&root, &uct), uct(vec![(10, 1), (20, 3)], 5));
}

#[test]
fn the_robust_child_has_the_most_visits_and_ties_go_to_the_last() {
    let engine = RLEngine::new();
    let board = Board::new();
    let mut root = leaf(&board, Color::White, 12, 0);
    assert_eq!(engine.best_child(&root), None);
    root.children.push((((6, 0), (5, 0)), leaf(&board, Color::Black, 2, 9_000)));
    assert_eq!(engine.best_child(&root), Some(0));
    root.children.push((((6, 1), (5, 1)), leaf(&board, Color::Black, 4, -1_000)));
    root.children.push((((6, 2), (5, 2)), leaf(&board, Color::Black, 1, 50_000)));
    assert_eq!(engine.best_child(&root), Some(1));
    root.children.push((((6, 3), (5, 3)), leaf(&board, Color::Black, 4, -9_000)));
    assert_eq!(engine.best_child(&root), Some(3));
    assert_eq!(engine.child_visit_total(&root), 11);
}

#[test]
fn the_robust_move_comes_with_its_share_of_the_visits() {
    let engine = RLEngine::new();
    let board = Board::new();
    let mut root = MCTSNode::new(board, Color::White, &engine);
    let (best, confidence) = engine.robust_move(&root);
    assert_eq!(best, None);
    assert_eq!((confidence.visits, confidence.total), (0, 0));
    root.visits = 12;
    let moves = [((6, 0), (5, 0)), ((6, 1), (5, 1)), ((6, 2), (5, 2)), ((6, 3), (5, 3))];
    for (mv, visits) in moves.iter().zip([2u32, 4, 1, 4]) {
        let index = root.unexplored_moves.iter().position(|m| m == mv).unwrap();
        root.unexplored_moves.remove(index);
        let mut after = board.clone();
        assert!(after.move_piece(mv.0, mv.1));
        let mut child = MCTSNode::new(after, Color::Black, &engine);
        child.visits = visits;
        root.children.push((*mv, child));
    }
    let (best, confidence) = engine.robust_move(&root);
    assert_eq!(best, Some(((6, 3), (5, 3))));
    assert_eq!((confidence.visits, confidence.total), (4, 11));
}

#[test]
fn search_runs_the_given_number_of_iterations() {
    let mut engine = RLEngine::new();
    let board = Board::new();
    let reports = Cell::new(0u32);
    let hook = |stats: &SimulationStats| {
        reports.set(reports.get() + 1);
        assert_eq!(stats.total_simulations, 50 * reports.get());
        assert!(!stats.top_moves.is_empty());
    };
    let best = engine.search(&board, Color::White, 120, None, &uct, &hook);
    let ranked = engine.generate_ranked_moves(&board, Color::White);
    assert!(ranked.contains(&best.unwrap()));
    let stats = &engine.current_stats;
    assert_eq!(stats.total_simulations, 120);
    assert_eq!(reports.get(), 2);
    assert_eq!(stats.best_move_confidence.total, 120);
    assert!(stats.nodes_explored >= 120);
    assert_eq!(stats.top_moves.len(), 3);
    for (text, _, visits) in &stats.top_moves {
        assert!(ranked.iter().any(|mv| engine.move_to_string(*mv) == *text));
        assert!(*visits >= 1);
    }
    assert!(stats.top_moves[0].2 >= stats.top_moves[1].2);
    assert!(stats.top_moves[1].2 >= stats.top_moves[2].2);
    assert!(-1_400_000 <= stats.current_eval && stats.current_eval <= 1_400_000);
}

#[test]
fn search_needs_one_iteration_for_a_move() {
    let mut engine = RLEngine::new();
    let board = Board::new();
    let quiet = |_: &SimulationStats| {};
    assert_eq!(engine.search(&board, Color::White, 0, None, &uct, &quiet), None);
    assert_eq!(engine.current_stats.total_simulations, 0);
    let best = engine.search(&board, Color::White, 1, None, &uct, &quiet);
    assert_eq!(engine.current_stats.total_simulations, 1);
    assert!(best.is_some());
    let confidence = engine.current_stats.best_move_confidence;
    assert_eq!((confidence.visits, confidence.total), (1, 1));
    assert!(engine.current_stats.top_moves.is_empty());
    assert_eq!(engine.current_stats.current_eval, 0);
    assert_eq!(engine.current_stats.best_line, vec![engine.move_to_string(best.unwrap())]);
}

#[test]
fn search_stops_at_the_first_of_its_two_limits() {
    let mut engine = RLEngine::new();
    let board = Board::new();
    let quiet = |_: &SimulationStats| {};
    engine.search(&board, Color::White, 3, Some(60_000), &uct, &quiet);
    assert_eq!(engine.current_stats.total_simulations, 3);
    engine.search(&board, Color::White, 1_000_000, Some(0), &uct, &quiet);
    assert_eq!(engine.current_stats.total_simulations, 0);
}

#[test]
fn top_moves_list_three_children_by_visits() {
    let engine = RLEngine::new();
    let board = Board::new();
    let mut root = MCTSNode::new(board, Color::White, &engine);
    root.visits = 12;
    let moves = [((6, 0), (5, 0)), ((6, 1), (5, 1)), ((6, 2), (5, 2)), ((6, 3), (5, 3))];
    let tallies = [(2u32, 9_001i64), (4, -1_001), (1, 50_000), (4, -9_000)];
    for (mv, (visits, total)) in moves.iter().zip(tallies) {
        let index = root.unexplored_moves.iter().position(|m| m == mv).unwrap();
        root.unexplored_moves.remove(index);
        let mut after = board.clone();
        assert!(after.move_piece(mv.0, mv.1));
        let mut child = MCTSNode::new(after, Color::Black, &engine);
        child.visits = visits;
        child.total_value = total;
        root.children.push((*mv, child));
    }
    let top = engine.top_moves(&root);
    assert_eq!(
        top,
        vec![
            ("b2b3".to_string(), -250, 4),
            ("d2d3".to_string(), -2_250, 4),
            ("a2a3".to_string(), 4_500, 2),
        ]
    );
    root.children.truncate(1);
    root.unexplored_moves = engine.generate_ranked_moves(&board, Color::White);
    root.unexplored_moves.retain(|m| *m != moves[0]);
    assert_eq!(engine.top_moves(&root), vec![("a2a3".to_string(), 4_500, 2)]);
}

#[test]
fn moves_are_written_as_two_square_names() {
    let engine = RLEngine::new();
    assert_eq!(engine.move_to_string(((6, 4), (4, 4))), "e2e4");
    assert_eq!(engine.move_to_string(((0, 0), (7, 7))), "a8h1");
}

#[test]
fn search_from_the_starting_position_returns_a_ranked_move() {
    let mut engine = RLEngine::new();
    let board = Board::new();
    let reports = Cell::new(0u32);
    let best = engine.get_best_move(&board, Color::White, 1500, &uct, &|stats: &SimulationStats| {
        assert_eq!(stats.total_simulations % 50, 0);
        assert!(stats.top_moves.len() <= 3);
        reports.set(reports.get() + 1);
    });
    let stats = &engine.current_stats;
    assert!(stats.total_simulations >= 1);
    assert_eq!(reports.get(), stats.total_simulations / 50);
    let best = best.unwrap();
    assert!(engine.generate_ranked_moves(&board, Color::White).contains(&best));
    assert_eq!(stats.best_line, vec![engine.move_to_string(best)]);
    let Confidence { visits, total } = stats.best_move_confidence;
    assert!(1 <= visits);
    assert!(visits as u64 <= total);
    assert_eq!(total, stats.total_simulations as u64);
    assert!(stats.nodes_explored >= stats.total_simulations as u64);
    for pair in stats.top_moves.windows(2) {
        assert!(pair[0].2 >= pair[1].2);
    }
}

#[test]
fn search_of_a_forced_move_is_fully_confident() {
    let mut engine = RLEngine::new();
    let board = single_move_position();
    let best = engine.get_best_move(&board, Color::White, 300, &uct, &|_: &SimulationStats| {});
    assert_eq!(best, Some(((3, 3), (2, 3))));
    let confidence = engine.current_stats.best_move_confidence;
    assert!(confidence.visits >= 1);
    assert_eq!(confidence.visits as u64, confidence.total);
    assert_eq!(engine.current_stats.best_line, vec!["d5d6".to_string()]);
}

#[test]
fn search_without_legal_moves_reports_no_move() {
    let mut engine = RLEngine::new();
    let mut board = Board::empty();
    put(&mut board, (0, 0), PieceType::Rook, Color::Black);
    engine.current_stats.best_line.push("stale".to_string());
    engine.current_stats.best_move_confidence = Confidence { visits: 3, total: 4 };
    let best = engine.get_best_move(&board, Color::White, 100, &uct, &|_: &SimulationStats| {});
    assert_eq!(best, None);
    assert_eq!(engine.current_stats.best_move_confidence.visits, 0);
    assert_eq!(engine.current_stats.best_move_confidence.total, 0);
    assert!(engine.current_stats.best_line.is_empty());
    assert!(engine.current_stats.total_simulations >= 1);
}

#[test]
fn search_without_time_runs_no_iteration() {
    let mut engine = RLEngine::new();
    let board = Board::new();
    let best = engine.get_best_move(&board, Color::White, 0, &uct, &|_: &SimulationStats| {});
    assert_eq!(best, None);
    assert_eq!(engine.current_stats.total_simulations, 0);
    assert_eq!(engine.current_stats.nodes_explored, 0);
}

#[test]
fn search_with_a_queen_up_keeps_to_legal_moves_that_save_the_king() {
    let mut engine = RLEngine::new();
    let board = two_kings_and_a_queen();
    for _ in 0..3 {
        let best = engine
            .get_best_move(&board, Color::White, 400, &uct, &|_: &SimulationStats| {})
            .unwrap();
        let mut after = board.clone();
        assert!(after.move_piece(best.0, best.1));
        assert!(!engine.is_king_threatened(&after, Color::White));
        assert_eq!(engine.get_material_balance(&after, Color::White), 900);
        let confidence = engine.current_stats.best_move_confidence;
        assert!(confidence.visits as u64 <= confidence.total);
    }
}

#[test]
fn statistics_start_afresh_with_every_search() {
    let mut engine = RLEngine::new();
    let board = single_move_position();
    engine.get_best_move(&board, Color::White, 200, &uct, &|_: &SimulationStats| {});
    let first = engine.current_stats.total_simulations;
    assert!(first >= 1);
    engine.get_best_move(&board, Color::White, 0, &uct, &|_: &SimulationStats| {});
    assert_eq!(engine.current_stats.total_simulations, 0);
    assert!(engine.current_stats.best_line.is_empty());
}
