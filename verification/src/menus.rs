//! The main menu and the pause menu: a list of entries and the selected one.
use vstd::prelude::*;

verus! {

/// A menu whose selection moves up and down its entries, wrapping around.
pub trait Menu {
    /// The entries, top first.
    spec fn entries(&self) -> Seq<Seq<char>>;

    /// The index of the selected entry.
    spec fn selection(&self) -> nat;

    /// The menu has entries and the selection is one of them.
    open spec fn menu_wf(&self) -> bool {
        0 < self.entries().len() && self.selection() < self.entries().len()
    }

    /// The entries, top first.
    fn items(&self) -> (r: &Vec<String>)
        ensures
            r@.map_values(|s: String| s@) == self.entries(),
    ;

    /// The index of the selected entry.
    fn selected(&self) -> (r: usize)
        ensures
            r == self.selection(),
    ;

    /// Selects the entry below, or the top one after the last.
    fn next(&mut self)
        requires
            old(self).menu_wf(),
        ensures
            final(self).menu_wf(),
            final(self).entries() == old(self).entries(),
            final(self).selection() == (old(self).selection() + 1) % old(self).entries().len(),
    ;

    /// Selects the entry above, or the last one before the top.
    fn previous(&mut self)
        requires
            old(self).menu_wf(),
        ensures
            final(self).menu_wf(),
            final(self).entries() == old(self).entries(),
            final(self).selection() == if old(self).selection() == 0 {
                (old(self).entries().len() - 1) as nat
            } else {
                (old(self).selection() - 1) as nat
            },
    ;

    /// Selects the top entry.
    fn reset_selection(&mut self)
        requires
            old(self).menu_wf(),
        ensures
            final(self).menu_wf(),
            final(self).entries() == old(self).entries(),
            final(self).selection() == 0,
    ;

    /// Selects entry `index`.
    fn set_selection(&mut self, index: usize)
        requires
            old(self).menu_wf(),
            index < old(self).entries().len(),
        ensures
            final(self).menu_wf(),
            final(self).entries() == old(self).entries(),
            final(self).selection() == index,
    ;
}

/// The entries of the main menu.
pub open spec fn main_menu_entries() -> Seq<Seq<char>> {
    seq!["Start Game"@, "Options"@, "Quit Game"@]
}

/// The entries of the pause menu.
pub open spec fn paused_menu_entries() -> Seq<Seq<char>> {
    seq!["Resume Game"@, "Options"@, "Exit to Menu"@, "Quit Game"@]
}

/// The main menu.
pub struct MenuState {
    menu: Vec<String>,
    selected: usize,
}

impl MenuState {
    /// The main menu with its top entry selected.
    pub fn new() -> (r: Self)
        ensures
            r.entries() == main_menu_entries(),
            r.selection() == 0,
            r.menu_wf(),
    {
        let menu = vec!["Start Game".to_owned(), "Options".to_owned(), "Quit Game".to_owned()];
        let r = MenuState { menu, selected: 0 };
        assert(r.entries() =~= main_menu_entries());
        r
    }
}

impl Menu for MenuState {
    closed spec fn entries(&self) -> Seq<Seq<char>> {
        self.menu@.map_values(|s: String| s@)
    }

    closed spec fn selection(&self) -> nat {
        self.selected as nat
    }

    fn items(&self) -> (r: &Vec<String>) {
        &self.menu
    }

    fn next(&mut self) {
        self.selected = (self.selected + 1) % self.menu.len();
    }

    fn selected(&self) -> (r: usize) {
        self.selected
    }

    fn previous(&mut self) {
        self.selected = if self.selected == 0 {
            self.menu.len() - 1
        } else {
            self.selected - 1
        };
    }

    fn reset_selection(&mut self) {
        self.selected = 0;
    }

    fn set_selection(&mut self, index: usize) {
        self.selected = index;
    }
}

/// The pause menu.
pub struct PausedState {
    menu: Vec<String>,
    selected: usize,
}

impl PausedState {
    /// The pause menu with its top entry selected.
    pub fn new() -> (r: Self)
        ensures
            r.entries() == paused_menu_entries(),
            r.selection() == 0,
            r.menu_wf(),
    {
        let menu = vec![
            "Resume Game".to_owned(),
            "Options".to_owned(),
            "Exit to Menu".to_owned(),
            "Quit Game".to_owned(),
        ];
        let r = PausedState { menu, selected: 0 };
        assert(r.entries() =~= paused_menu_entries());
        r
    }
}

impl Menu for PausedState {
    closed spec fn entries(&self) -> Seq<Seq<char>> {
        self.menu@.map_values(|s: String| s@)
    }

    closed spec fn selection(&self) -> nat {
        self.selected as nat
    }

    fn items(&self) -> (r: &Vec<String>) {
        &self.menu
    }

    fn next(&mut self) {
        self.selected = (self.selected + 1) % self.menu.len();
    }

    fn selected(&self) -> (r: usize) {
        self.selected
    }

    fn previous(&mut self) {
        self.selected = if self.selected == 0 {
            self.menu.len() - 1
        } else {
            self.selected - 1
        };
    }

    fn reset_selection(&mut self) {
        self.selected = 0;
    }

    fn set_selection(&mut self, index: usize) {
        self.selected = index;
    }
}

/// Moving the selection down and then up, or up and then down, returns to the
/// same entry; moving down once per entry comes back round to it too.
pub proof fn lemma_menu_moves(len: nat, sel: nat)
    requires
        0 < len,
        sel < len,
    ensures
        ({
            let down = (sel + 1) % len;
            (if down == 0 {
                len - 1
            } else {
                down - 1
            }) == sel
        }),
        ({
            let up: nat = if sel == 0 {
                (len - 1) as nat
            } else {
                (sel - 1) as nat
            };
            (up + 1) % len == sel
        }),
{
    if sel + 1 < len {
        vstd::arithmetic::div_mod::lemma_small_mod((sel + 1) as nat, len);
    } else {
        vstd::arithmetic::div_mod::lemma_mod_self_0(len as int);
    }
    if sel == 0 {
        vstd::arithmetic::div_mod::lemma_mod_self_0(len as int);
    } else {
        vstd::arithmetic::div_mod::lemma_small_mod(sel, len);
    }
}

} // verus!
