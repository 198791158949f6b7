use chess_rl::engine::rl::{SimulationStats, SEARCH_BUDGET_MILLIS};
use chess_rl::game::board::Board;
use chess_rl::game::piece::{Color, Piece, PieceType};
use chess_rl::ui::app::{App, GameState};
use chess_rl::ui::terminal::{Direction, Key, TerminalUI, UserAction, DEFAULT_TERMINAL_SIZE};
use chess_rl::ui::text::{is_separator, two_words};
use chess_rl::ui::welcome::{MenuItem, WelcomeScreen};

fn uct(tallies: Vec<(i64, u32)>, parent_visits: u32) -> usize {
    let mut best = 0;
    let mut best_score = f64::NEG_INFINITY;
    for (index, (total, visits)) in tallies.iter().enumerate() {
        let visits = *visits as f64;
        let score = (*total as f64 / 1000.0) / visits
            + 1.414 * ((parent_visits as f64).ln() / visits).sqrt();
        if score >= best_score {
            best = index;
            best_score = score;
        }
    }
    best
}

fn quiet(_: &SimulationStats) {}

fn type_text(app: &mut App, text: &str) {
    for c in text.chars() {
        assert_eq!(app.dispatch_key(Key::Char(c), &uct, &quiet), None);
    }
}

fn playing() -> App {
    let mut app = App::new();
    app.search_budget_millis = 600;
    assert_eq!(app.dispatch_key(Key::Enter, &uct, &quiet), None);
    assert_eq!(app.game_state, GameState::Playing);
    app
}

fn cells(board: &Board) -> Vec<Option<(PieceType, Color)>> {
    let mut all = Vec::new();
    for rank in 0..8 {
        for file in 0..8 {
            all.push(board.get_piece((rank, file)).map(|p| (p.piece_type, p.color)));
        }
    }
    all
}

#[test]
fn terminal_takes_the_reported_size_or_the_default() {
    assert_eq!(DEFAULT_TERMINAL_SIZE, (80, 24));
    assert_eq!(TerminalUI::new(None).get_terminal_size(), (80, 24));
    assert_eq!(TerminalUI::new(Some((132, 43))).get_terminal_size(), (132, 43));
    assert_eq!(TerminalUI::new(None).get_cursor_pos(), (0, 0));
}

#[test]
fn cursor_moves_one_square_and_stops_at_the_edges() {
    let mut ui = TerminalUI::new(None);
    ui.move_cursor(Direction::Up);
    ui.move_cursor(Direction::Left);
    assert_eq!(ui.get_cursor_pos(), (0, 0));
    ui.move_cursor(Direction::Down);
    assert_eq!(ui.get_cursor_pos(), (0, 1));
    ui.move_cursor(Direction::Right);
    assert_eq!(ui.get_cursor_pos(), (1, 1));
    for _ in 0..10 {
        ui.move_cursor(Direction::Right);
        ui.move_cursor(Direction::Down);
    }
    assert_eq!(ui.get_cursor_pos(), (7, 7));
    ui.move_cursor(Direction::Up);
    ui.move_cursor(Direction::Left);
    assert_eq!(ui.get_cursor_pos(), (6, 6));
    assert_eq!(ui.get_terminal_size(), (80, 24));
}

#[test]
fn user_actions_compare_by_content() {
    assert_eq!(UserAction::Move(Direction::Up), UserAction::Move(Direction::Up));
    assert_ne!(UserAction::Move(Direction::Up), UserAction::Move(Direction::Down));
    assert_ne!(UserAction::Select, UserAction::Quit);
}

#[test]
fn welcome_menu_selects_and_confirms() {
    let mut screen = WelcomeScreen::new();
    assert_eq!(screen.selected_item(), MenuItem::Play);
    assert_eq!(screen.handle_input(Key::Enter), Some(MenuItem::Play));
    assert_eq!(screen.handle_input(Key::Down), None);
    assert_eq!(screen.selected_item(), MenuItem::About);
    assert_eq!(screen.handle_input(Key::Other), None);
    assert_eq!(screen.handle_input(Key::Char('x')), None);
    assert_eq!(screen.selected_item(), MenuItem::About);
    assert_eq!(screen.handle_input(Key::Enter), Some(MenuItem::About));
    assert_eq!(screen.handle_input(Key::Char('w')), None);
    assert_eq!(screen.selected_item(), MenuItem::Play);
    assert_eq!(screen.handle_input(Key::Char('s')), None);
    assert_eq!(screen.selected_item(), MenuItem::About);
    assert_eq!(screen.handle_input(Key::Up), None);
    assert_eq!(screen.selected_item(), MenuItem::Play);
}

#[test]
fn separators_are_the_unicode_white_space() {
    for c in [' ', '\t', '\n', '\r', '\u{0b}', '\u{0c}', '\u{85}', '\u{a0}', '\u{1680}'] {
        assert!(is_separator(c));
    }
    for c in ['\u{2000}', '\u{200a}', '\u{2028}', '\u{2029}', '\u{202f}', '\u{205f}', '\u{3000}'] {
        assert!(is_separator(c));
    }
    for c in ['a', '1', '_', '\u{200b}', '\u{1f}', '\u{180e}', '\u{feff}'] {
        assert!(!is_separator(c));
    }
    for code in 0..0x3100u32 {
        if let Some(c) = char::from_u32(code) {
            assert_eq!(is_separator(c), c.is_whitespace());
        }
    }
}

#[test]
fn a_command_is_split_into_its_two_words() {
    let pair = |a: &str, b: &str| Some((a.chars().collect(), b.chars().collect()));
    assert_eq!(two_words("e2 e4"), pair("e2", "e4"));
    assert_eq!(two_words("  e2 \t  e4\n"), pair("e2", "e4"));
    assert_eq!(two_words("castle now"), pair("castle", "now"));
    assert_eq!(two_words(""), None);
    assert_eq!(two_words("   "), None);
    assert_eq!(two_words("e2"), None);
    assert_eq!(two_words("e2e4"), None);
    assert_eq!(two_words("e2 e4 e5"), None);
    assert_eq!(two_words("a b c d"), None);
}

#[test]
fn a_new_program_shows_the_menu() {
    let app = App::new();
    assert_eq!(app.game_state, GameState::Menu);
    assert_eq!(cells(&app.board), cells(&Board::new()));
    assert_eq!(app.cursor_pos, (0, 0));
    assert_eq!(app.selected_piece, None);
    assert!(!app.should_quit);
    assert_eq!(app.menu_index, 0);
    assert_eq!(app.command_buffer, "");
    assert!(app.move_history.is_empty());
    assert_eq!(app.history_scroll, 0);
    assert_eq!(app.current_turn, Color::White);
    assert_eq!(app.bot_color, Color::Black);
    assert_eq!(app.last_position_score, 0);
    assert_eq!(app.current_position_score, 0);
    assert_eq!(app.search_budget_millis, SEARCH_BUDGET_MILLIS);
    assert_eq!(SEARCH_BUDGET_MILLIS, 5000);
}

#[test]
fn menu_keys_move_between_the_screens() {
    let mut app = App::new();
    assert_eq!(app.dispatch_key(Key::Up, &uct, &quiet), None);
    assert_eq!(app.menu_index, 0);
    app.dispatch_key(Key::Down, &uct, &quiet);
    assert_eq!(app.menu_index, 1);
    app.dispatch_key(Key::Down, &uct, &quiet);
    assert_eq!(app.menu_index, 1);
    app.dispatch_key(Key::Enter, &uct, &quiet);
    assert_eq!(app.game_state, GameState::About);
    // on the other screens the arrow keys leave the menu alone
    app.dispatch_key(Key::Up, &uct, &quiet);
    assert_eq!(app.menu_index, 1);
    app.dispatch_key(Key::Enter, &uct, &quiet);
    assert_eq!(app.game_state, GameState::Menu);
    app.dispatch_key(Key::Up, &uct, &quiet);
    assert_eq!(app.menu_index, 0);
    app.dispatch_key(Key::Enter, &uct, &quiet);
    assert_eq!(app.game_state, GameState::Playing);
    app.dispatch_key(Key::Esc, &uct, &quiet);
    assert_eq!(app.game_state, GameState::Menu);
    assert!(!app.should_quit);
    app.menu_index = 5;
    app.dispatch_key(Key::Enter, &uct, &quiet);
    assert_eq!(app.game_state, GameState::Menu);
    app.dispatch_key(Key::Esc, &uct, &quiet);
    assert!(app.should_quit);
}

#[test]
fn typed_keys_edit_the_command_while_playing() {
    let mut app = App::new();
    type_text(&mut app, "e2");
    assert_eq!(app.command_buffer, "");
    let mut app = playing();
    type_text(&mut app, "e2 e5");
    assert_eq!(app.command_buffer, "e2 e5");
    assert_eq!(app.dispatch_key(Key::Backspace, &uct, &quiet), None);
    assert_eq!(app.command_buffer, "e2 e");
    app.dispatch_key(Key::Other, &uct, &quiet);
    app.dispatch_key(Key::Left, &uct, &quiet);
    app.dispatch_key(Key::PageUp, &uct, &quiet);
    assert_eq!(app.command_buffer, "e2 e");
    for _ in 0..6 {
        app.dispatch_key(Key::Backspace, &uct, &quiet);
    }
    assert_eq!(app.command_buffer, "");
    type_text(&mut app, "abc");
    app.dispatch_key(Key::Esc, &uct, &quiet);
    assert_eq!(app.game_state, GameState::Menu);
    assert_eq!(app.command_buffer, "");
}

#[test]
fn the_q_key_quits_on_every_screen() {
    let mut app = playing();
    type_text(&mut app, "e2");
    assert_eq!(app.dispatch_key(Key::Char('q'), &uct, &quiet), None);
    assert!(app.should_quit);
    assert_eq!(app.command_buffer, "e2");
    let mut app = App::new();
    app.dispatch_key(Key::Char('q'), &uct, &quiet);
    assert!(app.should_quit);
}

#[test]
fn malformed_commands_are_answered_and_change_nothing() {
    let mut app = playing();
    let before = cells(&app.board);
    let cases = [
        ("", "Invalid command. Use: <from> <to> (e.g. 'e2 e4')"),
        ("e2", "Invalid command. Use: <from> <to> (e.g. 'e2 e4')"),
        ("e2 e3 e4", "Invalid command. Use: <from> <to> (e.g. 'e2 e4')"),
        ("e2 e9", "Invalid coordinate format. Use a1-h8"),
        ("i2 e4", "Invalid coordinate format. Use a1-h8"),
        ("e2 e44", "Invalid coordinate format. Use a1-h8"),
        ("e4 e5", "No piece at selected position"),
        ("e2 e5", "Invalid move"),
        ("e1 e2", "Invalid move"),
    ];
    for (typed, answer) in cases {
        app.command_buffer = typed.to_string();
        let said = app.dispatch_key(Key::Enter, &uct, &quiet);
        assert_eq!(said, Some(answer.to_string()));
        assert_eq!(app.command_buffer, typed);
        assert_eq!(cells(&app.board), before);
        assert!(app.move_history.is_empty());
        assert_eq!(app.current_turn, Color::White);
        assert_eq!(app.game_state, GameState::Playing);
    }
}

#[test]
fn an_accepted_command_is_played_and_answered_by_the_engine() {
    let mut app = playing();
    type_text(&mut app, " E2  e4 ");
    let said = app.dispatch_key(Key::Enter, &uct, &quiet);
    assert_eq!(said, Some("Move successful".to_string()));
    assert_eq!(app.command_buffer, "");
    assert_eq!(app.move_history.len(), 3);
    assert_eq!(app.move_history[0], "\u{2659} e2 \u{2192} e4");
    assert!(app.move_history[1].starts_with('\u{265f}') || app.move_history[1].starts_with('\u{265e}'));
    assert_eq!(app.move_history[2], "Bot: Bot moved successfully");
    assert_eq!(app.current_turn, Color::White);
    let white = Some((PieceType::Pawn, Color::White));
    assert_eq!(app.board.get_piece((4, 4)).map(|p| (p.piece_type, p.color)), white);
    assert!(app.board.get_piece((6, 4)).is_none());
    let blacks = cells(&app.board).iter().filter(|c| matches!(c, Some((_, Color::Black)))).count();
    assert_eq!(blacks, 16);
    assert_ne!(cells(&app.board)[..16], cells(&Board::new())[..16]);
    assert_eq!(app.last_position_score, 0);
    let stats = &app.rl_engine.current_stats;
    assert!(stats.total_simulations >= 1);
    assert_eq!(stats.best_line.len(), 1);
    let line = &app.move_history[1];
    let text: String = line.chars().filter(|c| c.is_ascii_alphanumeric()).collect();
    assert_eq!(text, stats.best_line[0]);
}

#[test]
fn an_engine_without_time_fails_to_move() {
    let mut app = playing();
    app.search_budget_millis = 0;
    type_text(&mut app, "e2 e4");
    let said = app.dispatch_key(Key::Enter, &uct, &quiet);
    assert_eq!(said, Some("Move successful".to_string()));
    assert_eq!(
        app.move_history,
        vec!["\u{2659} e2 \u{2192} e4".to_string(), "Bot: Bot failed to move".to_string()]
    );
    assert_eq!(app.current_turn, Color::Black);
    assert_eq!(app.command_buffer, "");
}

#[test]
fn the_engine_moves_only_on_its_turn() {
    let mut app = App::new();
    app.search_budget_millis = 300;
    let before = cells(&app.board);
    assert_eq!(app.make_bot_move(&uct, &quiet), None);
    assert_eq!(cells(&app.board), before);
    assert!(app.move_history.is_empty());
    app.current_turn = Color::Black;
    app.current_position_score = 777;
    assert_eq!(app.make_bot_move(&uct, &quiet), Some("Bot moved successfully".to_string()));
    assert_ne!(cells(&app.board), before);
    assert_eq!(app.move_history.len(), 1);
    assert_eq!(app.current_turn, Color::White);
    assert_eq!(app.last_position_score, 777);
    let exact = app.rl_engine.evaluate_with_noise(&app.board, Color::Black, 0);
    assert!(exact - 200 <= app.current_position_score);
    assert!(app.current_position_score < exact + 200);
}

#[test]
fn selecting_squares_picks_drops_and_captures() {
    let mut app = App::new();
    app.board = Board::empty();
    app.board.set_piece((4, 0), Some(Piece::new(PieceType::Rook, Color::White)));
    app.board.set_piece((4, 7), Some(Piece::new(PieceType::Knight, Color::Black)));
    app.board.set_piece((0, 0), Some(Piece::new(PieceType::Pawn, Color::Black)));
    // an empty square selects nothing
    app.cursor_pos = (3, 3);
    app.select_piece();
    assert_eq!(app.selected_piece, None);
    // a piece is selected, and unselected by selecting it again
    app.cursor_pos = (4, 0);
    app.select_piece();
    assert_eq!(app.selected_piece, Some((4, 0)));
    app.select_piece();
    assert_eq!(app.selected_piece, None);
    app.select_piece();
    // an empty destination is ignored
    app.cursor_pos = (4, 3);
    app.select_piece();
    assert_eq!(app.selected_piece, Some((4, 0)));
    assert!(app.board.get_piece((4, 0)).is_some());
    // a refused capture keeps the selection
    app.cursor_pos = (0, 0);
    app.board.set_piece((2, 0), Some(Piece::new(PieceType::Pawn, Color::White)));
    app.select_piece();
    assert_eq!(app.selected_piece, Some((4, 0)));
    assert!(app.board.get_piece((4, 0)).is_some());
    // an accepted capture is played and ends the selection
    app.cursor_pos = (4, 7);
    app.select_piece();
    assert_eq!(app.selected_piece, None);
    assert!(app.board.get_piece((4, 0)).is_none());
    let taken = app.board.get_piece((4, 7)).map(|p| (p.piece_type, p.color));
    assert_eq!(taken, Some((PieceType::Rook, Color::White)));
}

#[test]
fn history_scrolls_between_its_first_and_last_line() {
    let mut app = App::new();
    app.scroll_history(false);
    assert_eq!(app.history_scroll, 0);
    app.scroll_history(true);
    assert_eq!(app.history_scroll, 0);
    for line in ["one", "two", "three"] {
        app.move_history.push(line.to_string());
    }
    app.scroll_history(false);
    assert_eq!(app.history_scroll, 1);
    app.scroll_history(false);
    assert_eq!(app.history_scroll, 2);
    app.scroll_history(false);
    assert_eq!(app.history_scroll, 2);
    app.scroll_history(true);
    assert_eq!(app.history_scroll, 1);
    app.scroll_history(true);
    app.scroll_history(true);
    assert_eq!(app.history_scroll, 0);
}

#[test]
fn page_keys_scroll_the_history_five_lines() {
    let mut app = App::new();
    for n in 0..12 {
        app.move_history.push(format!("line {}", n));
    }
    app.handle_key_event(Key::PageDown);
    assert_eq!(app.history_scroll, 5);
    app.handle_key_event(Key::Down);
    assert_eq!(app.history_scroll, 6);
    app.handle_key_event(Key::PageDown);
    assert_eq!(app.history_scroll, 11);
    app.handle_key_event(Key::PageDown);
    assert_eq!(app.history_scroll, 11);
    app.handle_key_event(Key::Up);
    assert_eq!(app.history_scroll, 10);
    app.handle_key_event(Key::Enter);
    app.handle_key_event(Key::Char('x'));
    assert_eq!(app.history_scroll, 10);
    app.handle_key_event(Key::PageUp);
    assert_eq!(app.history_scroll, 5);
    app.handle_key_event(Key::PageUp);
    app.handle_key_event(Key::PageUp);
    assert_eq!(app.history_scroll, 0);
}
