use vstd::prelude::*;

verus! {

/// The entries of the main menu, in display order.
#[derive(Clone, Copy, Debug, PartialEq, Eq, Structural)]
pub enum MenuID {
    NewGame,
    Options,
    Quit,
}

/// Raised when a menu entry is chosen.
#[derive(Clone, Copy, Debug, PartialEq, Eq, Structural)]
pub struct MenuEvent(pub MenuID);

/// The main menu's state: which entry is selected.
#[derive(Clone, Copy, Debug, PartialEq, Eq, Structural)]
pub struct Menu {
    pub selected: MenuID,
}

/// The display position of a menu entry.
pub open spec fn menu_idx_spec(m: MenuID) -> int {
    match m {
        MenuID::NewGame => 0,
        MenuID::Options => 1,
        MenuID::Quit => 2,
    }
}

/// The menu entry at a display position, wrapping modulo the entry count.
pub open spec fn idx_to_item_spec(idx: int) -> MenuID {
    let w = ((idx % 3) + 3) % 3;
    if w == 0 {
        MenuID::NewGame
    } else if w == 1 {
        MenuID::Options
    } else {
        MenuID::Quit
    }
}

impl Menu {
    /// The display position of the selected entry.
    pub fn item_idx(&self) -> (r: i64)
        ensures
            r == menu_idx_spec(self.selected),
    {
        match self.selected {
            MenuID::NewGame => 0,
            MenuID::Options => 1,
            MenuID::Quit => 2,
        }
    }

    /// The entry at a display position; any integer wraps around the
    /// three entries.
    pub fn idx_to_item(idx: i64) -> (r: MenuID)
        ensures
            r == idx_to_item_spec(idx as int),
    {
        let w: i64 = ((idx % 3) + 3) % 3;
        proof {
            vstd::arithmetic::div_mod::lemma_mod_bound(idx as int, 3);
            vstd::arithmetic::div_mod::lemma_mod_bound((idx as int % 3) + 3, 3);
        }
        if w == 0 {
            MenuID::NewGame
        } else if w == 1 {
            MenuID::Options
        } else {
            MenuID::Quit
        }
    }

    /// Moves the selection one entry down, wrapping at the end.
    pub fn next_item(&mut self)
        ensures
            final(self).selected == idx_to_item_spec(menu_idx_spec(old(self).selected) + 1),
    {
        self.selected = Menu::idx_to_item(self.item_idx() + 1);
    }

    /// Moves the selection one entry up, wrapping at the start.
    pub fn previous_item(&mut self)
        ensures
            final(self).selected == idx_to_item_spec(menu_idx_spec(old(self).selected) - 1),
    {
        self.selected = Menu::idx_to_item(self.item_idx() - 1);
    }
}

impl Default for Menu {
    /// A fresh menu selects the first entry.
    fn default() -> (r: Self)
        ensures
            r.selected == MenuID::NewGame,
    {
        Self { selected: MenuID::NewGame }
    }
}

/// One rendered menu entry: which entry it stands for and whether it is
/// currently highlighted.
#[derive(Clone, Copy, Debug, PartialEq, Eq, Structural)]
pub struct MenuItem {
    pub identifier: MenuID,
    pub highlighted: bool,
}

impl MenuItem {
    /// A fresh, unhighlighted entry.
    pub fn new(identifier: MenuID) -> (r: MenuItem)
        ensures
            r.identifier == identifier,
            !r.highlighted,
    {
        MenuItem { identifier, highlighted: false }
    }

    /// Highlights this entry exactly when the menu has it selected.
    pub fn update_highlight(&mut self, menu: &Menu)
        ensures
            final(self).identifier == old(self).identifier,
            final(self).highlighted == (menu.selected == old(self).identifier),
    {
        self.highlighted = menu.selected == self.identifier;
    }
}

} // verus!
