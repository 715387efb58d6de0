//! The logic core of a single-player Sudoku game: puzzle generation and
//! solving, and the board state machine that applies the player's moves.
//!
//! - [`grid`] is the model of a 9×9 grid of digits and of its completions;
//!   [`grid_lemmas`] holds the facts about it that the proofs use.
//! - [`generate`] fills a grid by randomized backtracking and carves a
//!   puzzle with a single solution out of it; [`random`] is its source of
//!   randomness.
//! - [`cell_state`], [`board_history`] and [`board`] are the state of a
//!   game; [`board_model`] says what each action does to it, and
//!   [`board_laws`] what holds of that.
//! - [`puzzle`] makes the board at the start of a puzzle, [`input`] turns
//!   the player's input into actions, and [`menu`], [`areas`] and
//!   [`index`] are small helpers.
//!
//! Every function is verified against its contract; the one function that
//! is trusted is [`random::random_below`], which draws the random numbers.

use vstd::prelude::*;

pub mod areas;
pub mod board;
pub mod board_history;
pub mod board_laws;
pub mod board_model;
pub mod cell_state;
pub mod generate;
pub mod grid;
pub mod grid_lemmas;
pub mod index;
pub mod input;
pub mod menu;
pub mod puzzle;
pub mod random;

verus! {

/// The number of digits, and the number of cells in a row, a column or a box.
pub const DIGIT_COUNT: u8 = 9;

/// `number` is one of the digits one to nine.
pub open spec fn legal_number(number: u8) -> bool {
    1 <= number <= 9
}

/// `index` names one of the 81 cells of the board.
pub open spec fn legal_index(index: usize) -> bool {
    index <= 80
}

/// Tells whether `number` is one of the digits one to nine.
pub fn is_legal_number(number: u8) -> (legal: bool)
    ensures
        legal == legal_number(number),
{
    1 <= number && number <= 9
}

/// Tells whether `number` names one of the 81 cells of the board.
pub fn is_legal_index(number: usize) -> (legal: bool)
    ensures
        legal == legal_index(number),
{
    number <= 80
}

} // verus!
