//! What each event of the player's input does to the board, and what is
//! to be done about it outside the board.

use vstd::prelude::*;
use crate::board::Board;
use crate::board_model::BoardModel;
use crate::menu::{is_menu_action_number, menu_action_code, menu_action_number, MenuActions};
use crate::{is_legal_number, legal_number};

verus! {

/// An event of the player's input.
#[derive(Copy, Clone, Eq, PartialEq, Debug, Structural)]
pub enum InputEvent {
    /// A click on an entry of the menu.
    MenuClick(MenuActions),
    /// A click on the board: on the cell of the given index, or outside every cell.
    BoardClick(Option<usize>),
    /// The key that takes back the last change.
    UndoKey,
    /// A digit typed on the keyboard.
    DigitKey(u8),
}

/// What is to be done after an event has been applied to the board.
#[derive(Copy, Clone, Eq, PartialEq, Debug, Structural)]
pub enum InputOutcome {
    /// The event was ignored.
    Ignored,
    /// The board is to be saved.
    Save,
    /// The board is to be saved, and the game is won.
    SaveAndShowVictory,
    /// The player asks for a new game.
    ShowNewGame,
}

impl BoardModel {
    /// Arming `number` by the menu or the keyboard: nothing happens where
    /// `number` is no digit or stands in nine cells already.
    pub open spec fn choose_number(self, number: u8) -> (BoardModel, InputOutcome) {
        if !legal_number(number) || self.is_number_done(number) {
            (self, InputOutcome::Ignored)
        } else {
            (
                self.disable_delete_mode().set_selected_number(number).highlight(),
                InputOutcome::Save,
            )
        }
    }

    /// The board after `event`, and what is to be done about it.
    pub open spec fn handle_input(self, event: InputEvent) -> (BoardModel, InputOutcome) {
        match event {
            InputEvent::MenuClick(action) => if legal_number(menu_action_code(action)) {
                self.choose_number(menu_action_code(action))
            } else {
                match action {
                    MenuActions::Pencil => (
                        self.disable_delete_mode().toggle_pencil_mode(),
                        InputOutcome::Save,
                    ),
                    MenuActions::Delete => (self.toggle_delete_mode(), InputOutcome::Save),
                    MenuActions::Undo => (self.disable_delete_mode().undo(), InputOutcome::Save),
                    _ => (self, InputOutcome::ShowNewGame),
                }
            },
            InputEvent::BoardClick(clicked) => (
                self.click(clicked),
                if self.click(clicked).is_victory() {
                    InputOutcome::SaveAndShowVictory
                } else {
                    InputOutcome::Save
                },
            ),
            InputEvent::UndoKey => (self.disable_delete_mode().undo(), InputOutcome::Save),
            InputEvent::DigitKey(number) => self.choose_number(number),
        }
    }
}

/// Arms `number`, unless it is no digit or stands in nine cells already.
fn choose_number(board: &mut Board, number: u8) -> (outcome: InputOutcome)
    ensures
        (final(board)@, outcome) == old(board)@.choose_number(number),
        old(board)@.wf() ==> final(board)@.wf(),
{
    if !is_legal_number(number) {
        return InputOutcome::Ignored;
    }
    if board.is_number_done(number) {
        return InputOutcome::Ignored;
    }
    board.disable_delete_mode();
    board.set_selected_number(number);
    board.highlight();
    proof {
        let armed = old(board)@.disable_delete_mode().set_selected_number(number);
        if armed.wf() {
            armed.lemma_highlight_settled();
        }
    }
    InputOutcome::Save
}

/// Applies one event of the player's input to the board and tells what
/// is to be done about it.
pub fn handle_input(board: &mut Board, event: InputEvent) -> (outcome: InputOutcome)
    ensures
        (final(board)@, outcome) == old(board)@.handle_input(event),
        old(board)@.wf() ==> final(board)@.wf(),
{
    match event {
        InputEvent::MenuClick(menu_action) => {
            if is_menu_action_number(menu_action) {
                let number = menu_action_number(menu_action);
                choose_number(board, number)
            } else if menu_action == MenuActions::Pencil {
                board.disable_delete_mode();
                board.toggle_pencil_mode();
                InputOutcome::Save
            } else if menu_action == MenuActions::Delete {
                board.toggle_delete_mode();
                InputOutcome::Save
            } else if menu_action == MenuActions::Undo {
                board.disable_delete_mode();
                board.undo();
                InputOutcome::Save
            } else {
                InputOutcome::ShowNewGame
            }
        },
        InputEvent::BoardClick(clicked) => {
            board.click(clicked);
            if board.is_victory() {
                InputOutcome::SaveAndShowVictory
            } else {
                InputOutcome::Save
            }
        },
        InputEvent::UndoKey => {
            board.disable_delete_mode();
            board.undo();
            InputOutcome::Save
        },
        InputEvent::DigitKey(number) => choose_number(board, number),
    }
}

} // verus!
