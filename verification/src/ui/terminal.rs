use vstd::prelude::*;

verus! {

#[derive(Clone, Copy, PartialEq, Eq, Structural, Debug)]
pub enum Direction {
    Up,
    Down,
    Left,
    Right,
}

#[derive(Clone, Copy, PartialEq, Eq, Structural, Debug)]
pub enum UserAction {
    Move(Direction),
    Select,
    Quit,
}

/// A key of the keyboard, as far as the screens tell keys apart.
#[derive(Clone, Copy, PartialEq, Eq, Structural, Debug)]
pub enum Key {
    Up,
    Down,
    Left,
    Right,
    Enter,
    Esc,
    Backspace,
    PageUp,
    PageDown,
    Char(char),
    Other,
}

/// The size that a terminal is taken to have when it cannot be asked:
/// 80 columns and 24 rows.
pub const DEFAULT_TERMINAL_SIZE: (u16, u16) = (80, 24);

/// Where the cursor stands after a step in a direction: one square further
/// unless it stands at the edge of the 8x8 grid. The first coordinate
/// counts columns, the second rows.
pub open spec fn cursor_after(pos: (usize, usize), direction: Direction) -> (usize, usize) {
    match direction {
        Direction::Up => if pos.1 > 0 {
            (pos.0, (pos.1 - 1) as usize)
        } else {
            pos
        },
        Direction::Down => if pos.1 < 7 {
            (pos.0, (pos.1 + 1) as usize)
        } else {
            pos
        },
        Direction::Left => if pos.0 > 0 {
            ((pos.0 - 1) as usize, pos.1)
        } else {
            pos
        },
        Direction::Right => if pos.0 < 7 {
            ((pos.0 + 1) as usize, pos.1)
        } else {
            pos
        },
    }
}

/// A cursor on the board and the size of the terminal around it.
pub struct TerminalUI {
    cursor_pos: (usize, usize),
    terminal_size: (u16, u16),
}

impl TerminalUI {
    /// Where the cursor stands.
    pub closed spec fn cursor(&self) -> (usize, usize) {
        self.cursor_pos
    }

    /// The size of the terminal, columns first.
    pub closed spec fn size(&self) -> (u16, u16) {
        self.terminal_size
    }

    /// A cursor in the corner of the board, with the size that the
    /// terminal reported, or the default size if it reported none.
    pub fn new(reported_size: Option<(u16, u16)>) -> (ui: TerminalUI)
        ensures
            ui.cursor() == (0usize, 0usize),
            ui.size() == (match reported_size {
                Some(size) => size,
                None => DEFAULT_TERMINAL_SIZE,
            }),
    {
        let terminal_size = match reported_size {
            Some(size) => size,
            None => DEFAULT_TERMINAL_SIZE,
        };
        TerminalUI { cursor_pos: (0, 0), terminal_size }
    }

    pub fn get_terminal_size(&self) -> (size: (u16, u16))
        ensures
            size == self.size(),
    {
        self.terminal_size
    }

    /// Moves the cursor one square, unless it stands at the edge.
    pub fn move_cursor(&mut self, direction: Direction)
        ensures
            final(self).size() == old(self).size(),
            final(self).cursor() == cursor_after(old(self).cursor(), direction),
    {
        match direction {
            Direction::Up => {
                if self.cursor_pos.1 > 0 {
                    self.cursor_pos.1 -= 1;
                }
            },
            Direction::Down => {
                if self.cursor_pos.1 < 7 {
                    self.cursor_pos.1 += 1;
                }
            },
            Direction::Left => {
                if self.cursor_pos.0 > 0 {
                    self.cursor_pos.0 -= 1;
                }
            },
            Direction::Right => {
                if self.cursor_pos.0 < 7 {
                    self.cursor_pos.0 += 1;
                }
            },
        }
    }

    pub fn get_cursor_pos(&self) -> (pos: (usize, usize))
        ensures
            pos == self.cursor(),
    {
        self.cursor_pos
    }
}

/// A cursor that starts on the board never leaves it.
pub proof fn lemma_cursor_stays_on_board(pos: (usize, usize), direction: Direction)
    requires
        pos.0 < 8,
        pos.1 < 8,
    ensures
        cursor_after(pos, direction).0 < 8,
        cursor_after(pos, direction).1 < 8,
{
}

} // verus!
