use crate::engine::evaluation::{static_score, NOISE_SPAN};
use crate::engine::ranking::{is_legal, Step};
use crate::engine::rl::{RLEngine, SimulationStats, SEARCH_BUDGET_MILLIS};
use crate::game::board::{on_board, Board, Position, Square};
use crate::game::piece::{Color, Piece};
use crate::ui::terminal::Key;
use crate::ui::text::two_words;
use crate::ui::text::words;
use crate::utils::{coordinate_text, coordinate_to_string, parsed_coordinate, square_named};
use vstd::prelude::*;
use vstd::string::*;

verus! {

/// The screen that is shown.
#[derive(Clone, Copy, PartialEq, Eq, Structural, Debug)]
pub enum GameState {
    Menu,
    Playing,
    About,
}

/// The state of the program: which screen is shown, the game, what the
/// player has typed, the history of moves and the engine that answers.
/// Scores are in thousandths of a point.
pub struct App {
    pub game_state: GameState,
    pub board: Board,
    pub cursor_pos: (usize, usize),
    pub selected_piece: Option<(usize, usize)>,
    pub should_quit: bool,
    pub menu_index: usize,
    pub command_buffer: String,
    pub move_history: Vec<String>,
    pub history_scroll: usize,
    pub rl_engine: RLEngine,
    pub current_turn: Color,
    pub bot_color: Color,
    pub last_position_score: i64,
    pub current_position_score: i64,
    pub search_budget_millis: u64,
}

/// The mathematical content of the program's state, the engine left out.
pub struct AppView {
    pub game_state: GameState,
    pub board: Position,
    pub cursor_pos: (usize, usize),
    pub selected_piece: Option<(usize, usize)>,
    pub should_quit: bool,
    pub menu_index: usize,
    pub command_buffer: Seq<char>,
    pub move_history: Seq<Seq<char>>,
    pub history_scroll: usize,
    pub current_turn: Color,
    pub bot_color: Color,
    pub last_position_score: int,
    pub current_position_score: int,
    pub search_budget_millis: u64,
}

impl View for App {
    type V = AppView;

    open spec fn view(&self) -> AppView {
        AppView {
            game_state: self.game_state,
            board: self.board@,
            cursor_pos: self.cursor_pos,
            selected_piece: self.selected_piece,
            should_quit: self.should_quit,
            menu_index: self.menu_index,
            command_buffer: self.command_buffer@,
            move_history: self.move_history@.map_values(|line: String| line@),
            history_scroll: self.history_scroll,
            current_turn: self.current_turn,
            bot_color: self.bot_color,
            last_position_score: self.last_position_score as int,
            current_position_score: self.current_position_score as int,
            search_budget_millis: self.search_budget_millis,
        }
    }
}

/// The line that the history keeps for a move: the figurine of the piece,
/// the square it left, an arrow and the square it reached.
pub open spec fn history_entry(piece: Piece, from: Square, to: Square) -> Seq<char> {
    seq![piece.symbol(), ' '] + coordinate_text(from) + seq![' ', '\u{2192}', ' ']
        + coordinate_text(to)
}

/// The scroll position after one step up or down a history of `entries`
/// lines: it stays between the first line and the last.
pub open spec fn scrolled(scroll: usize, entries: nat, up: bool) -> usize {
    if up {
        if scroll > 0 {
            (scroll - 1) as usize
        } else {
            scroll
        }
    } else {
        if scroll + 1 < entries {
            (scroll + 1) as usize
        } else {
            scroll
        }
    }
}

/// The scroll position after `steps` steps in one direction.
pub open spec fn scrolled_by(scroll: usize, entries: nat, up: bool, steps: nat) -> usize
    decreases steps,
{
    if steps == 0 {
        scroll
    } else {
        scrolled(scrolled_by(scroll, entries, up, (steps - 1) as nat), entries, up)
    }
}

/// What a key does to the scroll position of the history: the arrow keys
/// scroll one line, the page keys five lines.
pub open spec fn scroll_after(scroll: usize, entries: nat, key: Key) -> usize {
    match key {
        Key::Up => scrolled(scroll, entries, true),
        Key::Down => scrolled(scroll, entries, false),
        Key::PageUp => scrolled_by(scroll, entries, true, 5),
        Key::PageDown => scrolled_by(scroll, entries, false, 5),
        _ => scroll,
    }
}

/// What selecting the square under the cursor does: on an empty square
/// nothing; with nothing selected the square becomes selected; the
/// selected square itself is unselected; any other square is the
/// destination of a move from the selected square, which ends the
/// selection if the board accepts it.
pub open spec fn after_select(pre: AppView) -> AppView {
    let pos = pre.cursor_pos;
    if pre.board.at(pos) is None {
        pre
    } else {
        match pre.selected_piece {
            None => AppView { selected_piece: Some(pos), ..pre },
            Some(from) => if from == pos {
                AppView { selected_piece: None, ..pre }
            } else if pre.board.accepts(from, pos) {
                AppView { selected_piece: None, board: pre.board.after(from, pos), ..pre }
            } else {
                pre
            },
        }
    }
}

/// What a key does to the program's state, but for the enter key while a
/// game is played, which hands the typed command to the game.
pub open spec fn after_key(pre: AppView, key: Key) -> AppView {
    match key {
        Key::Char(c) => if c == 'q' {
            AppView { should_quit: true, ..pre }
        } else if pre.game_state == GameState::Playing {
            AppView { command_buffer: pre.command_buffer.push(c), ..pre }
        } else {
            pre
        },
        Key::Esc => if pre.game_state == GameState::Menu {
            AppView { should_quit: true, ..pre }
        } else {
            AppView { game_state: GameState::Menu, command_buffer: Seq::empty(), ..pre }
        },
        Key::Up => if pre.game_state == GameState::Menu {
            AppView {
                menu_index: if pre.menu_index > 0 {
                    (pre.menu_index - 1) as usize
                } else {
                    0
                },
                ..pre
            }
        } else {
            pre
        },
        Key::Down => if pre.game_state == GameState::Menu {
            AppView { menu_index: 1, ..pre }
        } else {
            pre
        },
        Key::Enter => match pre.game_state {
            GameState::Menu => AppView {
                game_state: if pre.menu_index == 0 {
                    GameState::Playing
                } else if pre.menu_index == 1 {
                    GameState::About
                } else {
                    GameState::Menu
                },
                ..pre
            },
            GameState::Playing => pre,
            GameState::About => AppView { game_state: GameState::Menu, ..pre },
        },
        Key::Backspace => if pre.game_state == GameState::Playing && pre.command_buffer.len() > 0 {
            AppView { command_buffer: pre.command_buffer.drop_last(), ..pre }
        } else {
            pre
        },
        _ => pre,
    }
}

/// The effect of the engine's turn. When it is not the engine's turn,
/// nothing happens and nothing is said. Otherwise the engine either plays
/// a legal move of its color, which is written to the history, and hands
/// the turn to White, keeping the former score and scoring the new
/// position; or it finds no move and says so.
pub open spec fn bot_turn(pre: AppView, post: AppView, said: Option<Seq<char>>) -> bool {
    if pre.current_turn != pre.bot_color {
        post == pre && said is None
    } else {
        ||| {
            &&& said == Some("Bot failed to move"@)
            &&& post == pre
        }
        ||| exists|mv: Step| #[trigger]
            bot_played(pre, post, mv) && said == Some("Bot moved successfully"@)
    }
}

/// The state after the engine has played the move `mv`.
pub open spec fn bot_played(pre: AppView, post: AppView, mv: Step) -> bool {
    &&& is_legal(pre.board, pre.bot_color, mv)
    &&& static_score(post.board, pre.bot_color) - NOISE_SPAN <= post.current_position_score
        < static_score(post.board, pre.bot_color) + NOISE_SPAN
    &&& post == AppView {
        board: pre.board.after(mv.0, mv.1),
        move_history: pre.move_history.push(history_entry(pre.board.at(mv.0)->0, mv.0, mv.1)),
        last_position_score: pre.current_position_score,
        current_position_score: post.current_position_score,
        current_turn: Color::White,
        ..pre
    }
}

/// The state after the player's move from `from` to `to` and before the
/// engine's answer: the move is made and written to the history, the
/// command is cleared and the turn is the engine's.
pub open spec fn player_moved(pre: AppView, from: Square, to: Square) -> AppView {
    AppView {
        board: pre.board.after(from, to),
        move_history: pre.move_history.push(history_entry(pre.board.at(from)->0, from, to)),
        command_buffer: Seq::empty(),
        current_turn: pre.bot_color,
        ..pre
    }
}

/// The effect of a typed command. A command is two words, each the name
/// of a square. A malformed command, a command from an empty square and a
/// move that the board refuses change nothing and are answered with a
/// message. An accepted move is made, then it is the engine's turn, and
/// what the engine says is written to the history.
pub open spec fn command_outcome(pre: AppView, post: AppView, said: Seq<char>) -> bool {
    let typed = words(pre.command_buffer);
    if typed.len() != 2 {
        post == pre && said == "Invalid command. Use: <from> <to> (e.g. 'e2 e4')"@
    } else if parsed_coordinate(typed[0]) is None || parsed_coordinate(typed[1]) is None {
        post == pre && said == "Invalid coordinate format. Use a1-h8"@
    } else {
        let from = parsed_coordinate(typed[0])->0;
        let to = parsed_coordinate(typed[1])->0;
        if pre.board.at(from) is None {
            post == pre && said == "No piece at selected position"@
        } else if !pre.board.accepts(from, to) {
            post == pre && said == "Invalid move"@
        } else {
            &&& said == "Move successful"@
            &&& exists|replied: AppView, bot_said: Seq<char>|
                {
                    &&& #[trigger] bot_turn(player_moved(pre, from, to), replied, Some(bot_said))
                    &&& post == AppView {
                        move_history: replied.move_history.push("Bot: "@ + bot_said),
                        ..replied
                    }
                }
        }
    }
}

/// The text of a message that may be missing.
pub open spec fn text_of(message: Option<String>) -> Option<Seq<char>> {
    match message {
        Some(text) => Some(text@),
        None => None,
    }
}

/// The square that a word names.
fn named_square(word: &Vec<char>) -> (parsed: Option<(usize, usize)>)
    ensures
        parsed == parsed_coordinate(word@),
{
    if word.len() != 2 {
        return None;
    }
    assert(word@ =~= seq![word@[0], word@[1]]);
    square_named(word[0], word[1])
}

/// Writes the history line of a move.
fn write_entry(piece: &Piece, from: (usize, usize), to: (usize, usize)) -> (line: String)
    requires
        on_board(from),
        on_board(to),
    ensures
        line@ == history_entry(*piece, from, to),
{
    let mut line = String::new();
    line.push(piece.to_char());
    line.push(' ');
    line.append(coordinate_to_string(from).as_str());
    line.push(' ');
    line.push('\u{2192}');
    line.push(' ');
    line.append(coordinate_to_string(to).as_str());
    assert(line@ =~= history_entry(*piece, from, to));
    line
}

impl App {
    /// The program at its start: the menu is shown, the pieces stand in
    /// the starting layout, White is to move and the engine plays Black.
    pub fn new() -> (app: App)
        ensures
            app@ == (AppView {
                game_state: GameState::Menu,
                board: Position::starting(),
                cursor_pos: (0, 0),
                selected_piece: None,
                should_quit: false,
                menu_index: 0,
                command_buffer: Seq::empty(),
                move_history: Seq::empty(),
                history_scroll: 0,
                current_turn: Color::White,
                bot_color: Color::Black,
                last_position_score: 0,
                current_position_score: 0,
                search_budget_millis: SEARCH_BUDGET_MILLIS,
            }),
    {
        let app = App {
            game_state: GameState::Menu,
            board: Board::new(),
            cursor_pos: (0, 0),
            selected_piece: None,
            should_quit: false,
            menu_index: 0,
            command_buffer: String::new(),
            move_history: Vec::new(),
            history_scroll: 0,
            rl_engine: RLEngine::new(),
            current_turn: Color::White,
            bot_color: Color::Black,
            last_position_score: 0,
            current_position_score: 0,
            search_budget_millis: SEARCH_BUDGET_MILLIS,
        };
        assert(app@.move_history =~= Seq::<Seq<char>>::empty());
        app
    }

    /// Lets the engine move if it is its turn, and returns what it says.
    pub fn make_bot_move<F: Fn(Vec<(i64, u32)>, u32) -> usize, P: Fn(&SimulationStats)>(
        &mut self,
        select: &F,
        on_progress: &P,
    ) -> (said: Option<String>)
        requires
            forall|tallies: Vec<(i64, u32)>, visits: u32|
                call_requires(*select, (tallies, visits)),
            forall|stats: &SimulationStats| call_requires(*on_progress, (stats,)),
        ensures
            bot_turn(old(self)@, final(self)@, text_of(said)),
    {
        if self.current_turn == self.bot_color {
            let best = self.rl_engine.get_best_move(
                &self.board,
                self.bot_color,
                self.search_budget_millis,
                select,
                on_progress,
            );
            if let Some((from, to)) = best {
                let found = match self.board.get_piece(from) {
                    Some(piece) => Some(*piece),
                    None => None,
                };
                if let Some(piece) = found {
                    if self.board.move_piece(from, to) {
                        let line = write_entry(&piece, from, to);
                        self.move_history.push(line);
                        self.last_position_score = self.current_position_score;
                        self.current_position_score = self.rl_engine.evaluate_position(
                            &self.board,
                            self.bot_color,
                        );
                        self.current_turn = Color::White;
                        proof {
                            assert(self@.move_history =~= old(self)@.move_history.push(
                                history_entry(piece, from, to),
                            ));
                            assert(bot_played(old(self)@, self@, (from, to)));
                        }
                        return Some("Bot moved successfully".to_owned());
                    }
                }
            }
            Some("Bot failed to move".to_owned())
        } else {
            None
        }
    }

    /// Carries out the typed command and returns the answer to it.
    pub fn handle_command<F: Fn(Vec<(i64, u32)>, u32) -> usize, P: Fn(&SimulationStats)>(
        &mut self,
        select: &F,
        on_progress: &P,
    ) -> (said: Option<String>)
        requires
            forall|tallies: Vec<(i64, u32)>, visits: u32|
                call_requires(*select, (tallies, visits)),
            forall|stats: &SimulationStats| call_requires(*on_progress, (stats,)),
        ensures
            said is Some,
            command_outcome(old(self)@, final(self)@, said->0@),
    {
        let (first, second) = match two_words(self.command_buffer.as_str()) {
            Some(pair) => pair,
            None => {
                return Some("Invalid command. Use: <from> <to> (e.g. 'e2 e4')".to_owned());
            },
        };
        let (from_pos, to_pos) = match (named_square(&first), named_square(&second)) {
            (Some(from_pos), Some(to_pos)) => (from_pos, to_pos),
            _ => {
                return Some("Invalid coordinate format. Use a1-h8".to_owned());
            },
        };
        proof {
            crate::utils::lemma_parsed_coordinate_on_board(first@);
            crate::utils::lemma_parsed_coordinate_on_board(second@);
        }
        let piece = match self.board.get_piece(from_pos) {
            Some(piece) => *piece,
            None => {
                return Some("No piece at selected position".to_owned());
            },
        };
        if !self.board.move_piece(from_pos, to_pos) {
            return Some("Invalid move".to_owned());
        }
        let line = write_entry(&piece, from_pos, to_pos);
        self.move_history.push(line);
        self.command_buffer.clear();
        self.current_turn = self.bot_color;
        let ghost moved = self@;
        proof {
            assert(moved.move_history =~= old(self)@.move_history.push(
                history_entry(piece, from_pos, to_pos),
            ));
            assert(moved == player_moved(old(self)@, from_pos, to_pos));
        }
        if let Some(bot_msg) = self.make_bot_move(select, on_progress) {
            let ghost replied = self@;
            let note = "Bot: ".to_owned().concat(bot_msg.as_str());
            self.move_history.push(note);
            proof {
                assert(self@.move_history =~= replied.move_history.push("Bot: "@ + bot_msg@));
                assert(bot_turn(player_moved(old(self)@, from_pos, to_pos), replied, Some(bot_msg@)));
            }
        }
        self.command_buffer.clear();
        Some("Move successful".to_owned())
    }

    /// Selects the square under the cursor, or moves the selected piece
    /// there.
    pub fn select_piece(&mut self)
        requires
            on_board(old(self).cursor_pos),
            old(self).selected_piece is Some ==> on_board(old(self).selected_piece->0),
        ensures
            final(self)@ == after_select(old(self)@),
    {
        let pos = self.cursor_pos;
        if self.board.get_piece(pos).is_some() {
            match self.selected_piece {
                None => {
                    self.selected_piece = Some(pos);
                },
                Some(from) => {
                    if from.0 == pos.0 && from.1 == pos.1 {
                        self.selected_piece = None;
                    } else if self.board.move_piece(from, pos) {
                        self.selected_piece = None;
                    }
                },
            }
        }
    }

    /// Scrolls the history one line up or down.
    pub fn scroll_history(&mut self, up: bool)
        ensures
            final(self)@ == (AppView {
                history_scroll: scrolled(
                    old(self).history_scroll,
                    old(self).move_history@.len(),
                    up,
                ),
                ..old(self)@
            }),
    {
        if up {
            if self.history_scroll > 0 {
                self.history_scroll -= 1;
            }
        } else {
            if self.move_history.len() > 0 && self.history_scroll < self.move_history.len() - 1 {
                self.history_scroll += 1;
            }
        }
    }

    /// Scrolls the history as a key asks: a line with the arrow keys, five
    /// lines with the page keys.
    pub fn handle_key_event(&mut self, key: Key)
        ensures
            final(self)@ == (AppView {
                history_scroll: scroll_after(
                    old(self).history_scroll,
                    old(self).move_history@.len(),
                    key,
                ),
                ..old(self)@
            }),
    {
        match key {
            Key::Up => self.scroll_history(true),
            Key::Down => self.scroll_history(false),
            Key::PageUp => {
                self.scroll_steps(true);
            },
            Key::PageDown => {
                self.scroll_steps(false);
            },
            _ => {},
        }
    }

    /// Scrolls the history five lines.
    fn scroll_steps(&mut self, up: bool)
        ensures
            final(self)@ == (AppView {
                history_scroll: scrolled_by(
                    old(self).history_scroll,
                    old(self).move_history@.len(),
                    up,
                    5,
                ),
                ..old(self)@
            }),
    {
        let mut i: usize = 0;
        while i < 5
            invariant
                i <= 5,
                self@ == (AppView {
                    history_scroll: scrolled_by(
                        old(self).history_scroll,
                        old(self).move_history@.len(),
                        up,
                        i as nat,
                    ),
                    ..old(self)@
                }),
            decreases 5 - i,
        {
            assert(self@.move_history.len() == self.move_history@.len());
            assert(old(self)@.move_history.len() == old(self).move_history@.len());
            self.scroll_history(up);
            i += 1;
        }
    }

    /// Takes one key of the keyboard. The enter key while a game is played
    /// carries out the typed command, and the answer is returned to be
    /// shown; any other key changes screen, menu or command and returns
    /// nothing.
    pub fn dispatch_key<F: Fn(Vec<(i64, u32)>, u32) -> usize, P: Fn(&SimulationStats)>(
        &mut self,
        key: Key,
        select: &F,
        on_progress: &P,
    ) -> (said: Option<String>)
        requires
            forall|tallies: Vec<(i64, u32)>, visits: u32|
                call_requires(*select, (tallies, visits)),
            forall|stats: &SimulationStats| call_requires(*on_progress, (stats,)),
        ensures
            if key == Key::Enter && old(self).game_state == GameState::Playing {
                said is Some && command_outcome(old(self)@, final(self)@, said->0@)
            } else {
                said is None && final(self)@ == after_key(old(self)@, key)
            },
    {
        match key {
            Key::Char(c) => {
                if c == 'q' {
                    self.should_quit = true;
                } else if self.game_state == GameState::Playing {
                    self.command_buffer.push(c);
                }
                None
            },
            Key::Esc => {
                match self.game_state {
                    GameState::Playing | GameState::About => {
                        self.game_state = GameState::Menu;
                        self.command_buffer.clear();
                    },
                    GameState::Menu => {
                        self.should_quit = true;
                    },
                }
                None
            },
            Key::Up => {
                if self.game_state == GameState::Menu && self.menu_index > 0 {
                    self.menu_index -= 1;
                }
                None
            },
            Key::Down => {
                if self.game_state == GameState::Menu {
                    self.menu_index = 1;
                }
                None
            },
            Key::Enter => match self.game_state {
                GameState::Menu => {
                    self.game_state = if self.menu_index == 0 {
                        GameState::Playing
                    } else if self.menu_index == 1 {
                        GameState::About
                    } else {
                        GameState::Menu
                    };
                    None
                },
                GameState::Playing => self.handle_command(select, on_progress),
                GameState::About => {
                    self.game_state = GameState::Menu;
                    None
                },
            },
            Key::Backspace => {
                if self.game_state == GameState::Playing {
                    self.command_buffer.pop();
                }
                None
            },
            _ => None,
        }
    }
}

} // verus!
