//! The mathematical model of the board and of what each action does to it.
//!
//! The board's functions are specified against this model: each of them
//! states that the board's model after the call is the result of the
//! function of the same name here.

use vstd::prelude::*;
use crate::areas::{group_of, member_of, shares_area, Area};
use crate::board::BoardMode;
use crate::cell_state::{CellModel, CellSelection, CellState};
use crate::legal_number;

verus! {

/// The model of the 81 cells of a board.
pub open spec fn cells_view(cells: [CellState; 81]) -> Seq<CellModel> {
    Seq::new(81, |i: int| cells[i]@)
}

/// The cell `j` is a source of highlighting: it is the selected cell, or it
/// holds the selected number.
pub open spec fn is_seed(
    cells: Seq<CellModel>,
    selected_index: Option<usize>,
    selected_number: Option<u8>,
    j: int,
) -> bool {
    0 <= j < 81 && (selected_index == Some(j as usize) || (selected_number is Some
        && cells[j].number == selected_number))
}

/// The cell `i` lies in the row, the column or the box of a source of highlighting.
pub open spec fn near_seed(
    cells: Seq<CellModel>,
    selected_index: Option<usize>,
    selected_number: Option<u8>,
    i: int,
) -> bool {
    exists|j: int| #[trigger] is_seed(cells, selected_index, selected_number, j) && shares_area(i, j)
}

/// The mark that highlighting gives the cell `i`.
pub open spec fn selection_of(
    cells: Seq<CellModel>,
    selected_index: Option<usize>,
    selected_number: Option<u8>,
    i: int,
) -> CellSelection {
    if is_seed(cells, selected_index, selected_number, i) {
        CellSelection::Emphasized
    } else if near_seed(cells, selected_index, selected_number, i) {
        CellSelection::Highlighted
    } else {
        CellSelection::Unselected
    }
}

/// The cells with their marks derived anew from the selection.
pub open spec fn highlighted(
    cells: Seq<CellModel>,
    selected_index: Option<usize>,
    selected_number: Option<u8>,
) -> Seq<CellModel> {
    Seq::new(
        81,
        |i: int| cells[i].with_selection(selection_of(cells, selected_index, selected_number, i)),
    )
}

/// The cells without any mark.
pub open spec fn unmarked(cells: Seq<CellModel>) -> Seq<CellModel> {
    Seq::new(81, |i: int| cells[i].with_selection(CellSelection::Unselected))
}

/// The cells after every cell without a mark in the group of `area` in
/// which the cell `index` lies has been marked as highlighted.
pub open spec fn area_highlighted(cells: Seq<CellModel>, area: Area, index: int) -> Seq<CellModel> {
    Seq::new(
        81,
        |k: int|
            if cells[k].selection == CellSelection::Unselected && group_of(area, k) == group_of(
                area,
                index,
            ) {
                cells[k].with_selection(CellSelection::Highlighted)
            } else {
                cells[k]
            },
    )
}

/// The number of cells among the first `n` that hold `number`.
pub open spec fn count_number(cells: Seq<CellModel>, number: u8, n: int) -> nat
    decreases n,
{
    if n <= 0 {
        0
    } else {
        count_number(cells, number, n - 1) + if cells[n - 1].number == Some(number) {
            1nat
        } else {
            0nat
        }
    }
}

/// For each digit, the number of cells that hold it.
pub open spec fn counted(cells: Seq<CellModel>) -> Seq<u8> {
    Seq::new(9, |d: int| count_number(cells, (d + 1) as u8, 81) as u8)
}

/// No row, column or box holds a number twice.
pub open spec fn grid_valid(cells: Seq<CellModel>) -> bool {
    forall|i: int, j: int|
        #![trigger cells[i], cells[j]]
        0 <= i < 81 && 0 <= j < 81 && i != j && shares_area(i, j) && cells[i].number is Some
            ==> cells[i].number != cells[j].number
}

/// The group `group` of `area` holds no number twice.
pub open spec fn range_valid(cells: Seq<CellModel>, area: Area, group: int) -> bool {
    forall|a: int, b: int|
        #![trigger member_of(area, group, a), member_of(area, group, b)]
        0 <= a < 9 && 0 <= b < 9 && a != b && cells[member_of(area, group, a)].number is Some
            ==> cells[member_of(area, group, a)].number != cells[member_of(area, group, b)].number
}

/// No group of `area` holds a number twice.
pub open spec fn area_valid(cells: Seq<CellModel>, area: Area) -> bool {
    forall|g: int| 0 <= g < 9 ==> #[trigger] range_valid(cells, area, g)
}

/// The cells after the pencil mark of `number` has been removed from every
/// highlighted cell that holds no number.
pub open spec fn pencil_cleared(cells: Seq<CellModel>, number: u8) -> Seq<CellModel> {
    Seq::new(
        81,
        |i: int|
            if cells[i].number is None && cells[i].selection == CellSelection::Highlighted {
                cells[i].remove_pencil(number)
            } else {
                cells[i]
            },
    )
}

/// The digit that stands for the cell in the board's fingerprint: its
/// number if the puzzle gave it, else zero.
pub open spec fn initial_digit(cell: CellModel) -> u8 {
    if cell.initial && cell.number is Some {
        cell.number->0
    } else {
        0
    }
}

/// The character that stands for the digit `d`; zero for any other number.
pub open spec fn digit_char(d: u8) -> char {
    if d == 1 {
        '1'
    } else if d == 2 {
        '2'
    } else if d == 3 {
        '3'
    } else if d == 4 {
        '4'
    } else if d == 5 {
        '5'
    } else if d == 6 {
        '6'
    } else if d == 7 {
        '7'
    } else if d == 8 {
        '8'
    } else if d == 9 {
        '9'
    } else {
        '0'
    }
}

/// The board's fingerprint: for each of the 81 cells in turn, the digit
/// that the puzzle gave it, or zero.
pub open spec fn fingerprint(cells: Seq<CellModel>) -> Seq<char> {
    Seq::new(81, |i: int| digit_char(initial_digit(cells[i])))
}

/// The model of one entry of the undo history.
#[verifier::ext_equal]
pub struct UndoPointModel {
    pub cells: Seq<CellModel>,
    pub mode: BoardMode,
    pub selected_index: Option<usize>,
    pub selected_number: Option<u8>,
}

/// The model of a board.
#[verifier::ext_equal]
pub struct BoardModel {
    pub history: Seq<UndoPointModel>,
    pub cells: Seq<CellModel>,
    pub number_count: Seq<u8>,
    pub mode: BoardMode,
    pub delete_mode: bool,
    pub selected_index: Option<usize>,
    pub selected_number: Option<u8>,
}

/// What holds of cells and selection on a well-formed board, and of every
/// entry of its history.
pub open spec fn state_wf(
    cells: Seq<CellModel>,
    selected_index: Option<usize>,
    selected_number: Option<u8>,
) -> bool {
    &&& cells.len() == 81
    &&& forall|i: int| 0 <= i < 81 ==> (#[trigger] cells[i]).wf()
    &&& (selected_index matches Some(i) ==> i < 81)
    &&& (selected_number matches Some(n) ==> legal_number(n))
    &&& grid_valid(cells)
    &&& cells == highlighted(cells, selected_index, selected_number)
}

impl UndoPointModel {
    /// The entry records the cells and the selection of a well-formed board.
    pub open spec fn wf(self) -> bool {
        state_wf(self.cells, self.selected_index, self.selected_number)
    }
}

impl BoardModel {
    /// A board of 81 empty cells with nothing selected and no history.
    pub open spec fn empty() -> BoardModel {
        BoardModel {
            history: Seq::empty(),
            cells: Seq::new(81, |i: int| CellModel::empty()),
            number_count: Seq::new(9, |d: int| 0u8),
            mode: BoardMode::Normal,
            delete_mode: false,
            selected_index: None,
            selected_number: None,
        }
    }

    /// The board's invariant: every cell is well formed, the selection
    /// names a cell and a digit, no row, column or box holds a number
    /// twice, the marks are the ones that highlighting derives, the counts
    /// are the ones of the cells, and the same holds of every entry of the
    /// history.
    pub open spec fn wf(self) -> bool {
        &&& state_wf(self.cells, self.selected_index, self.selected_number)
        &&& self.number_count == counted(self.cells)
        &&& forall|k: int| 0 <= k < self.history.len() ==> (#[trigger] self.history[k]).wf()
    }

    /// The entry that records the board as it is.
    pub open spec fn snapshot(self) -> UndoPointModel {
        UndoPointModel {
            cells: self.cells,
            mode: self.mode,
            selected_index: self.selected_index,
            selected_number: self.selected_number,
        }
    }

    /// The board with a record of itself added to the history.
    pub open spec fn add_undo_point(self) -> BoardModel {
        BoardModel { history: self.history.push(self.snapshot()), ..self }
    }

    /// The board with the marks of its cells derived anew.
    pub open spec fn highlight(self) -> BoardModel {
        BoardModel {
            cells: highlighted(self.cells, self.selected_index, self.selected_number),
            ..self
        }
    }

    /// The board with its counts taken anew from its cells.
    pub open spec fn update_number_count(self) -> BoardModel {
        BoardModel { number_count: counted(self.cells), ..self }
    }

    /// The board after the pencil mark of `number` has been removed from
    /// every highlighted cell that holds no number.
    pub open spec fn clear_pencil(self, number: u8) -> BoardModel {
        BoardModel { cells: pencil_cleared(self.cells, number), ..self }
    }

    /// Highlighting and counting anew, as after every accepted change.
    pub open spec fn refresh(self) -> BoardModel {
        self.highlight().update_number_count()
    }

    /// The board in the other of the two modes.
    pub open spec fn toggle_pencil_mode(self) -> BoardModel {
        BoardModel {
            mode: match self.mode {
                BoardMode::Normal => BoardMode::Pencil,
                BoardMode::Pencil => BoardMode::Normal,
            },
            ..self
        }
    }

    /// The board with delete mode switched.
    pub open spec fn toggle_delete_mode(self) -> BoardModel {
        BoardModel { delete_mode: !self.delete_mode, ..self }
    }

    /// The board with delete mode off.
    pub open spec fn disable_delete_mode(self) -> BoardModel {
        BoardModel { delete_mode: false, ..self }
    }

    /// Takes the last entry off the history and restores cells, mode and
    /// selection from it; does nothing where the history is empty.
    pub open spec fn undo(self) -> BoardModel {
        if self.history.len() == 0 {
            self
        } else {
            let point = self.history.last();
            BoardModel {
                history: self.history.drop_last(),
                cells: point.cells,
                mode: point.mode,
                selected_index: point.selected_index,
                selected_number: point.selected_number,
                ..self
            }.refresh()
        }
    }

    /// Arms `number` for placement; does nothing where it is armed already
    /// or is no digit.
    pub open spec fn set_selected_number(self, number: u8) -> BoardModel {
        if !legal_number(number) || self.selected_number == Some(number) {
            self
        } else {
            BoardModel { selected_number: Some(number), ..self.add_undo_point() }.highlight()
        }
    }

    /// Each digit stands in nine cells.
    pub open spec fn is_victory(self) -> bool {
        forall|d: int| 0 <= d < 9 ==> #[trigger] self.number_count[d] == 9
    }

    /// `number` stands in nine cells.
    pub open spec fn is_number_done(self, number: u8) -> bool {
        self.number_count[number - 1] == 9
    }

    /// The board with the cell `index` selected and replaced by `cell`,
    /// after the board as it was has been recorded.
    pub open spec fn changed(self, index: usize, cell: CellModel) -> BoardModel {
        BoardModel {
            selected_index: Some(index),
            cells: self.cells.update(index as int, cell),
            ..self.add_undo_point()
        }
    }

    /// A click in delete mode on a cell that the puzzle did not give: a
    /// number is dropped and becomes the selected number; failing a number,
    /// the pencil marks are dropped.
    pub open spec fn delete_at(self, index: usize) -> BoardModel {
        let cell = self.cells[index as int];
        if cell.has_number() {
            BoardModel {
                selected_number: cell.number,
                ..self.changed(index, cell.clear_number())
            }.refresh()
        } else if cell.has_pencil() {
            self.changed(index, cell.clear_pencil()).refresh()
        } else {
            self
        }
    }

    /// A click in normal mode on a cell that the puzzle did not give: the
    /// selected number is committed, or, where the cell holds it already,
    /// turned into its pencil mark. A number that stands twice in a row, a
    /// column or a box afterwards is taken back by `undo`.
    pub open spec fn enter_number(self, index: usize) -> BoardModel {
        match self.selected_number {
            Some(number) => if !legal_number(number) {
                self
            } else {
                let cell = self.cells[index as int];
                if cell.is_number(number) {
                    let next = self.changed(index, cell.set_pencil(number));
                    if grid_valid(next.cells) {
                        next.refresh()
                    } else {
                        next.undo()
                    }
                } else {
                    let next = self.changed(index, cell.set_number(number));
                    if grid_valid(next.cells) {
                        next.highlight().clear_pencil(number).update_number_count()
                    } else {
                        next.undo()
                    }
                }
            },
            None => self,
        }
    }

    /// A click in pencil mode on a cell that the puzzle did not give: the
    /// pencil mark of the selected number is removed where the cell has
    /// it, and added where it has not; a cell with a number stays as it is.
    pub open spec fn toggle_pencil(self, index: usize) -> BoardModel {
        match self.selected_number {
            Some(number) => {
                let cell = self.cells[index as int];
                if !legal_number(number) || cell.has_number() {
                    self
                } else if cell.has_this_pencil(number) {
                    self.changed(index, cell.remove_pencil(number)).refresh()
                } else {
                    self.changed(index, cell.set_pencil(number)).refresh()
                }
            },
            None => self,
        }
    }

    /// A click on the cell `clicked`, or, for `None`, on the board outside
    /// every cell.
    pub open spec fn click(self, clicked: Option<usize>) -> BoardModel {
        match clicked {
            None => BoardModel { selected_index: None, ..self }.highlight(),
            Some(index) => if index >= 81 {
                self
            } else if self.cells[index as int].has_initial_number() {
                BoardModel { selected_index: Some(index), ..self }.highlight()
            } else if self.delete_mode {
                self.delete_at(index)
            } else {
                match self.mode {
                    BoardMode::Normal => self.enter_number(index),
                    BoardMode::Pencil => self.toggle_pencil(index),
                }
            },
        }
    }
}

/// An action of the player that is recorded for `undo` where it is accepted.
pub enum BoardAction {
    /// A click on a cell, or on the board outside every cell.
    Click(Option<usize>),
    /// Arming a digit.
    SelectNumber(u8),
}

impl BoardModel {
    /// The board after `action`.
    pub open spec fn apply(self, action: BoardAction) -> BoardModel {
        match action {
            BoardAction::Click(clicked) => self.click(clicked),
            BoardAction::SelectNumber(number) => self.set_selected_number(number),
        }
    }

    /// `action` is accepted: it changes the board and records it for `undo`.
    pub open spec fn accepts(self, action: BoardAction) -> bool {
        self.apply(action).history.len() == self.history.len() + 1
    }

    /// The board after `actions`, one after the other.
    pub open spec fn run(self, actions: Seq<BoardAction>) -> BoardModel
        decreases actions.len(),
    {
        if actions.len() == 0 {
            self
        } else {
            self.run(actions.drop_last()).apply(actions.last())
        }
    }

    /// Each of `actions`, when its turn comes, is accepted.
    pub open spec fn accepts_all(self, actions: Seq<BoardAction>) -> bool
        decreases actions.len(),
    {
        actions.len() == 0 || (self.accepts_all(actions.drop_last()) && self.run(
            actions.drop_last(),
        ).accepts(actions.last()))
    }

    /// The board after `n` calls of `undo`.
    pub open spec fn undo_times(self, n: nat) -> BoardModel
        decreases n,
    {
        if n == 0 {
            self
        } else {
            self.undo().undo_times((n - 1) as nat)
        }
    }
}

} // verus!
