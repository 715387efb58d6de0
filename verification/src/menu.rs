//! The actions that the menu offers.

use vstd::prelude::*;
use crate::{is_legal_number, legal_number};

verus! {

/// An entry of the menu: one of the nine digits, or a command.
#[derive(Copy, Clone, Eq, PartialEq, Debug, Structural)]
pub enum MenuActions {
    One,
    Two,
    Three,
    Four,
    Five,
    Six,
    Seven,
    Eight,
    Nine,
    Pencil,
    Undo,
    New,
    Delete,
}

/// The number of a menu entry: the digits are numbered by their value,
/// the commands from ten on.
pub open spec fn menu_action_code(action: MenuActions) -> u8 {
    match action {
        MenuActions::One => 1,
        MenuActions::Two => 2,
        MenuActions::Three => 3,
        MenuActions::Four => 4,
        MenuActions::Five => 5,
        MenuActions::Six => 6,
        MenuActions::Seven => 7,
        MenuActions::Eight => 8,
        MenuActions::Nine => 9,
        MenuActions::Pencil => 10,
        MenuActions::Undo => 11,
        MenuActions::New => 12,
        MenuActions::Delete => 13,
    }
}

/// Computes the number of a menu entry.
pub fn menu_action_number(action: MenuActions) -> (code: u8)
    ensures
        code == menu_action_code(action),
{
    match action {
        MenuActions::One => 1,
        MenuActions::Two => 2,
        MenuActions::Three => 3,
        MenuActions::Four => 4,
        MenuActions::Five => 5,
        MenuActions::Six => 6,
        MenuActions::Seven => 7,
        MenuActions::Eight => 8,
        MenuActions::Nine => 9,
        MenuActions::Pencil => 10,
        MenuActions::Undo => 11,
        MenuActions::New => 12,
        MenuActions::Delete => 13,
    }
}

/// The menu entry of the digit `value`; none for any other number.
pub fn menu_action_from_u8(value: u8) -> (action: Option<MenuActions>)
    ensures
        legal_number(value) ==> action is Some && menu_action_code(action->0) == value,
        !legal_number(value) ==> action is None,
{
    match value {
        1 => Some(MenuActions::One),
        2 => Some(MenuActions::Two),
        3 => Some(MenuActions::Three),
        4 => Some(MenuActions::Four),
        5 => Some(MenuActions::Five),
        6 => Some(MenuActions::Six),
        7 => Some(MenuActions::Seven),
        8 => Some(MenuActions::Eight),
        9 => Some(MenuActions::Nine),
        _ => None,
    }
}

/// Tells whether the menu entry is one of the nine digits.
pub fn is_menu_action_number(action: MenuActions) -> (digit: bool)
    ensures
        digit == legal_number(menu_action_code(action)),
{
    let number = menu_action_number(action);
    is_legal_number(number)
}

} // verus!
