use crate::ui::terminal::Key;
use vstd::prelude::*;

verus! {

#[derive(Clone, Copy, PartialEq, Eq, Structural, Debug)]
pub enum MenuItem {
    Play,
    About,
}

/// The welcome menu with one of its items selected.
pub struct WelcomeScreen {
    selected_item: MenuItem,
}

/// The item that is selected after a key: the up key and `w` select
/// `Play`, the down key and `s` select `About`, any other key changes
/// nothing.
pub open spec fn selection_after(selected: MenuItem, key: Key) -> MenuItem {
    match key {
        Key::Up => MenuItem::Play,
        Key::Down => MenuItem::About,
        Key::Char(c) => if c == 'w' {
            MenuItem::Play
        } else if c == 's' {
            MenuItem::About
        } else {
            selected
        },
        _ => selected,
    }
}

impl WelcomeScreen {
    /// The item that is selected.
    pub closed spec fn selected(&self) -> MenuItem {
        self.selected_item
    }

    pub fn new() -> (screen: WelcomeScreen)
        ensures
            screen.selected() == MenuItem::Play,
    {
        WelcomeScreen { selected_item: MenuItem::Play }
    }

    /// The selected item.
    pub fn selected_item(&self) -> (item: MenuItem)
        ensures
            item == self.selected(),
    {
        self.selected_item
    }

    /// Takes one key: the enter key confirms the selected item, the other
    /// keys move the selection or do nothing.
    pub fn handle_input(&mut self, key: Key) -> (confirmed: Option<MenuItem>)
        ensures
            final(self).selected() == selection_after(old(self).selected(), key),
            confirmed == (if key == Key::Enter {
                Some(old(self).selected())
            } else {
                None
            }),
    {
        match key {
            Key::Up => {
                self.selected_item = MenuItem::Play;
                None
            },
            Key::Down => {
                self.selected_item = MenuItem::About;
                None
            },
            Key::Char(c) => {
                if c == 'w' {
                    self.selected_item = MenuItem::Play;
                } else if c == 's' {
                    self.selected_item = MenuItem::About;
                }
                None
            },
            Key::Enter => Some(self.selected_item),
            _ => None,
        }
    }
}

} // verus!
