//! What holds of the board's model: its invariant is kept by every
//! action, highlighting settles at once, and `undo` takes back what an
//! accepted action did.

use vstd::prelude::*;
use crate::areas::shares_area;
use crate::board::BoardMode;
use crate::board_model::{
    count_number, counted, grid_valid, highlighted, is_seed, near_seed, pencil_cleared,
    selection_of, state_wf, BoardAction, BoardModel,
};
use crate::cell_state::CellModel;
use crate::grid::{fits, get, in_grid, peers, row_digits, solved, GridModel};
use crate::grid_lemmas::law_solved_units_are_permutations;
use crate::legal_number;

verus! {

/// The marks that highlighting derives depend on the numbers of the
/// cells alone.
pub proof fn lemma_selection_by_numbers(
    a: Seq<CellModel>,
    b: Seq<CellModel>,
    selected_index: Option<usize>,
    selected_number: Option<u8>,
    i: int,
)
    requires
        forall|k: int| 0 <= k < 81 ==> (#[trigger] a[k]).number == b[k].number,
    ensures
        selection_of(a, selected_index, selected_number, i) == selection_of(
            b,
            selected_index,
            selected_number,
            i,
        ),
{
    assert forall|j: int|
        is_seed(a, selected_index, selected_number, j) == is_seed(
            b,
            selected_index,
            selected_number,
            j,
        ) by {
        if 0 <= j < 81 {
            assert(a[j].number == b[j].number);
        }
    }
    if near_seed(a, selected_index, selected_number, i) {
        let j = choose|j: int|
            #[trigger] is_seed(a, selected_index, selected_number, j) && shares_area(i, j);
        assert(is_seed(b, selected_index, selected_number, j));
    }
    if near_seed(b, selected_index, selected_number, i) {
        let j = choose|j: int|
            #[trigger] is_seed(b, selected_index, selected_number, j) && shares_area(i, j);
        assert(is_seed(a, selected_index, selected_number, j));
    }
}

/// Highlighting a second time changes nothing.
pub proof fn lemma_highlighted_twice(
    cells: Seq<CellModel>,
    selected_index: Option<usize>,
    selected_number: Option<u8>,
)
    ensures
        highlighted(highlighted(cells, selected_index, selected_number), selected_index, selected_number)
            == highlighted(cells, selected_index, selected_number),
{
    let once = highlighted(cells, selected_index, selected_number);
    let twice = highlighted(once, selected_index, selected_number);
    assert forall|i: int| 0 <= i < 81 implies #[trigger] twice[i] == once[i] by {
        lemma_selection_by_numbers(once, cells, selected_index, selected_number, i);
    }
    assert(twice =~= once);
}

/// Cells that are well formed and hold no number twice in a row, a column
/// or a box are, once highlighted, the cells of a well-formed board.
pub proof fn lemma_highlighted_state(
    cells: Seq<CellModel>,
    selected_index: Option<usize>,
    selected_number: Option<u8>,
)
    requires
        cells.len() == 81,
        forall|i: int| 0 <= i < 81 ==> (#[trigger] cells[i]).wf(),
        selected_index matches Some(i) ==> i < 81,
        selected_number matches Some(n) ==> legal_number(n),
        grid_valid(cells),
    ensures
        state_wf(
            highlighted(cells, selected_index, selected_number),
            selected_index,
            selected_number,
        ),
{
    let once = highlighted(cells, selected_index, selected_number);
    lemma_highlighted_twice(cells, selected_index, selected_number);
    assert forall|i: int| 0 <= i < 81 implies (#[trigger] once[i]).wf() by {
        assert(cells[i].wf());
    }
    assert forall|i: int, j: int|
        #![trigger once[i], once[j]]
        0 <= i < 81 && 0 <= j < 81 && i != j && shares_area(i, j)
            && once[i].number is Some implies once[i].number != once[j].number by {
        assert(cells[i].number != cells[j].number);
    }
}

/// Removing a pencil mark from the highlighted cells keeps the cells
/// those of a well-formed board.
pub proof fn lemma_pencil_cleared_state(
    cells: Seq<CellModel>,
    selected_index: Option<usize>,
    selected_number: Option<u8>,
    number: u8,
)
    requires
        state_wf(cells, selected_index, selected_number),
    ensures
        state_wf(pencil_cleared(cells, number), selected_index, selected_number),
{
    let cleared = pencil_cleared(cells, number);
    assert forall|i: int| 0 <= i < 81 implies (#[trigger] cleared[i]).wf() && cleared[i].number
        == cells[i].number && cleared[i].selection == cells[i].selection by {
        assert(cells[i].wf());
        if cells[i].number is None && !cells[i].initial && legal_number(number) {
            assert(cells[i].remove_pencil(number).pencil.len() == 9);
        }
    }
    assert forall|i: int, j: int|
        #![trigger cleared[i], cleared[j]]
        0 <= i < 81 && 0 <= j < 81 && i != j && shares_area(i, j)
            && cleared[i].number is Some implies cleared[i].number != cleared[j].number by {
        assert(cells[i].number != cells[j].number);
    }
    let again = highlighted(cleared, selected_index, selected_number);
    assert forall|i: int| 0 <= i < 81 implies #[trigger] again[i] == cleared[i] by {
        lemma_selection_by_numbers(cleared, cells, selected_index, selected_number, i);
        assert(highlighted(cells, selected_index, selected_number)[i] == cells[i]);
    }
    assert(again =~= cleared);
}

/// Replacing a cell by one that holds the same number or none keeps the
/// rows, columns and boxes free of repeated numbers.
pub proof fn lemma_grid_valid_without(cells: Seq<CellModel>, index: int, cell: CellModel)
    requires
        cells.len() == 81,
        0 <= index < 81,
        grid_valid(cells),
        cell.number is None || cell.number == cells[index].number,
    ensures
        grid_valid(cells.update(index, cell)),
{
    let next = cells.update(index, cell);
    assert forall|i: int, j: int|
        #![trigger next[i], next[j]]
        0 <= i < 81 && 0 <= j < 81 && i != j && shares_area(i, j)
            && next[i].number is Some implies next[i].number != next[j].number by {
        assert(cells[i].number != cells[j].number);
    }
}

impl BoardModel {
    /// Highlighting is idempotent.
    pub proof fn law_highlight_idempotent(self)
        ensures
            self.highlight().highlight() == self.highlight(),
    {
        lemma_highlighted_twice(self.cells, self.selected_index, self.selected_number);
    }

    /// Highlighting leaves a well-formed board as it is.
    pub proof fn lemma_highlight_settled(self)
        requires
            self.wf(),
        ensures
            self.highlight() == self,
    {
        assert(self.highlight() =~= self);
    }

    /// Highlighting and counting leave a well-formed board as it is.
    pub proof fn lemma_refresh_settled(self)
        requires
            self.wf(),
        ensures
            self.refresh() == self,
    {
        assert(self.refresh() =~= self);
    }

    /// A board that is well formed but for its marks and counts is well
    /// formed once these are derived anew.
    pub proof fn lemma_refresh_wf(self)
        requires
            self.cells.len() == 81,
            forall|i: int| 0 <= i < 81 ==> (#[trigger] self.cells[i]).wf(),
            self.selected_index matches Some(i) ==> i < 81,
            self.selected_number matches Some(n) ==> legal_number(n),
            grid_valid(self.cells),
            forall|k: int| 0 <= k < self.history.len() ==> (#[trigger] self.history[k]).wf(),
        ensures
            self.refresh().wf(),
    {
        lemma_highlighted_state(self.cells, self.selected_index, self.selected_number);
    }

    /// The board with one cell selected and replaced, after recording,
    /// goes back to the board as it was by `undo`.
    pub proof fn lemma_changed_undo(self, index: usize, cell: CellModel)
        requires
            self.wf(),
        ensures
            self.changed(index, cell).undo() == self,
            (BoardModel { selected_number: cell.number, ..self.changed(index, cell) }).refresh().undo()
                == self,
            self.changed(index, cell).refresh().undo() == self,
            self.changed(index, cell).highlight().undo() == self,
    {
        let next = self.changed(index, cell);
        assert(next.history.drop_last() =~= self.history);
        assert(next.history.last() == self.snapshot());
        self.lemma_refresh_settled();
        assert(next.undo() =~= self);
        let a = (BoardModel { selected_number: cell.number, ..next }).refresh();
        assert(a.history.drop_last() =~= self.history);
        assert(a.undo() =~= self);
        let b = next.refresh();
        assert(b.history.drop_last() =~= self.history);
        assert(b.undo() =~= self);
        let c = next.highlight();
        assert(c.history.drop_last() =~= self.history);
        assert(c.undo() =~= self);
    }

    /// `undo` keeps the invariant.
    pub proof fn lemma_undo_wf(self)
        requires
            self.wf(),
        ensures
            self.undo().wf(),
    {
        if self.history.len() > 0 {
            let point = self.history.last();
            assert(point.wf());
            let restored = BoardModel {
                history: self.history.drop_last(),
                cells: point.cells,
                mode: point.mode,
                selected_index: point.selected_index,
                selected_number: point.selected_number,
                ..self
            };
            assert forall|k: int| 0 <= k < restored.history.len() implies (
            #[trigger] restored.history[k]).wf() by {
                assert(self.history[k].wf());
            }
            restored.lemma_refresh_wf();
        }
    }

    /// Recording the board keeps every entry of the history well formed.
    pub proof fn lemma_recorded(self)
        requires
            self.wf(),
        ensures
            forall|k: int|
                0 <= k < self.add_undo_point().history.len() ==> (
                #[trigger] self.add_undo_point().history[k]).wf(),
    {
        let next = self.add_undo_point();
        assert forall|k: int| 0 <= k < next.history.len() implies (#[trigger] next.history[k]).wf() by {
            if k < self.history.len() {
                assert(self.history[k].wf());
            }
        }
    }

    /// Arming a digit keeps the invariant.
    pub proof fn lemma_set_selected_number_wf(self, number: u8)
        requires
            self.wf(),
        ensures
            self.set_selected_number(number).wf(),
    {
        if legal_number(number) && self.selected_number != Some(number) {
            self.lemma_recorded();
            let armed = BoardModel { selected_number: Some(number), ..self.add_undo_point() };
            armed.lemma_refresh_wf();
            assert(counted(highlighted(self.cells, self.selected_index, Some(number))) =~= counted(
                self.cells,
            )) by {
                lemma_counted_by_numbers(
                    highlighted(self.cells, self.selected_index, Some(number)),
                    self.cells,
                );
            }
            assert(armed.highlight() =~= armed.refresh());
        }
    }

    /// A click keeps the invariant.
    pub proof fn lemma_click_wf(self, clicked: Option<usize>)
        requires
            self.wf(),
        ensures
            self.click(clicked).wf(),
    {
        match clicked {
            None => {
                let next = BoardModel { selected_index: None, ..self };
                next.lemma_refresh_wf();
                lemma_counted_by_numbers(next.highlight().cells, self.cells);
                assert(next.highlight() =~= next.refresh());
            },
            Some(index) => {
                if index < 81 {
                    let cell = self.cells[index as int];
                    assert(cell.wf());
                    self.lemma_recorded();
                    if cell.has_initial_number() {
                        let next = BoardModel { selected_index: Some(index), ..self };
                        next.lemma_refresh_wf();
                        lemma_counted_by_numbers(next.highlight().cells, self.cells);
                        assert(next.highlight() =~= next.refresh());
                    } else if self.delete_mode {
                        if cell.has_number() {
                            self.lemma_changed_wf(index, cell.clear_number());
                            let next = BoardModel {
                                selected_number: cell.number,
                                ..self.changed(index, cell.clear_number())
                            };
                            next.lemma_refresh_wf();
                        } else if cell.has_pencil() {
                            self.lemma_changed_wf(index, cell.clear_pencil());
                            self.changed(index, cell.clear_pencil()).lemma_refresh_wf();
                        }
                    } else {
                        match self.selected_number {
                            None => {},
                            Some(number) => {
                                assert(legal_number(number));
                                self.lemma_click_digit_wf(index, number);
                            },
                        }
                    }
                }
            },
        }
    }

    /// Replacing a cell by a well-formed one that holds the same number or
    /// none leaves a board that needs only its marks and counts derived anew.
    pub proof fn lemma_changed_wf(self, index: usize, cell: CellModel)
        requires
            self.wf(),
            index < 81,
            cell.wf(),
            cell.number is None || cell.number == self.cells[index as int].number,
        ensures
            forall|i: int| 0 <= i < 81 ==> (#[trigger] self.changed(index, cell).cells[i]).wf(),
            grid_valid(self.changed(index, cell).cells),
            self.changed(index, cell).cells.len() == 81,
            forall|k: int|
                0 <= k < self.changed(index, cell).history.len() ==> (#[trigger] self.changed(
                    index,
                    cell,
                ).history[k]).wf(),
    {
        self.lemma_recorded();
        lemma_grid_valid_without(self.cells, index as int, cell);
        let next = self.changed(index, cell);
        assert forall|i: int| 0 <= i < 81 implies (#[trigger] next.cells[i]).wf() by {
            if i != index {
                assert(self.cells[i].wf());
            }
        }
    }

    /// A click that enters the armed digit, as a number or as a pencil
    /// mark, keeps the invariant.
    pub proof fn lemma_click_digit_wf(self, index: usize, number: u8)
        requires
            self.wf(),
            index < 81,
            legal_number(number),
            self.selected_number == Some(number),
        ensures
            self.enter_number(index).wf(),
            self.toggle_pencil(index).wf(),
    {
        let cell = self.cells[index as int];
        assert(cell.wf());
        self.lemma_recorded();
        // Pencil mode.
        if !cell.has_number() {
            if cell.has_this_pencil(number) {
                assert(cell.remove_pencil(number).wf());
                self.lemma_changed_wf(index, cell.remove_pencil(number));
                self.changed(index, cell.remove_pencil(number)).lemma_refresh_wf();
            } else {
                assert(cell.set_pencil(number).wf());
                self.lemma_changed_wf(index, cell.set_pencil(number));
                self.changed(index, cell.set_pencil(number)).lemma_refresh_wf();
            }
        }
        // Normal mode.
        if cell.is_number(number) {
            assert(cell.set_pencil(number).wf());
            let next = self.changed(index, cell.set_pencil(number));
            self.lemma_changed_wf(index, cell.set_pencil(number));
            self.lemma_changed_undo(index, cell.set_pencil(number));
            next.lemma_refresh_wf();
        } else {
            let next = self.changed(index, cell.set_number(number));
            self.lemma_changed_undo(index, cell.set_number(number));
            if grid_valid(next.cells) {
                assert forall|i: int| 0 <= i < 81 implies (#[trigger] next.cells[i]).wf() by {
                    if i != index {
                        assert(self.cells[i].wf());
                    }
                }
                lemma_highlighted_state(next.cells, next.selected_index, next.selected_number);
                lemma_pencil_cleared_state(
                    next.highlight().cells,
                    next.selected_index,
                    next.selected_number,
                    number,
                );
            }
        }
    }
}

/// The counts depend on the numbers of the cells alone.
pub proof fn lemma_counted_by_numbers(a: Seq<CellModel>, b: Seq<CellModel>)
    requires
        forall|k: int| 0 <= k < 81 ==> (#[trigger] a[k]).number == b[k].number,
    ensures
        counted(a) == counted(b),
{
    assert forall|d: int| 0 <= d < 9 implies #[trigger] counted(a)[d] == counted(b)[d] by {
        lemma_count_number_by_numbers(a, b, (d + 1) as u8, 81);
    }
    assert(counted(a) =~= counted(b));
}

/// The count of a number depends on the numbers of the cells alone.
pub proof fn lemma_count_number_by_numbers(a: Seq<CellModel>, b: Seq<CellModel>, number: u8, n: int)
    requires
        0 <= n <= 81,
        forall|k: int| 0 <= k < 81 ==> (#[trigger] a[k]).number == b[k].number,
    ensures
        count_number(a, number, n) == count_number(
            b,
            number,
            n,
        ),
    decreases n,
{
    if n > 0 {
        lemma_count_number_by_numbers(a, b, number, n - 1);
        assert(a[n - 1].number == b[n - 1].number);
    }
}

impl BoardModel {
    /// The empty board is well formed.
    pub proof fn lemma_empty_wf()
        ensures
            BoardModel::empty().wf(),
    {
        let m = BoardModel::empty();
        assert forall|i: int| 0 <= i < 81 implies (#[trigger] m.cells[i]).wf() by {}
        assert forall|i: int| 0 <= i < 81 implies #[trigger] highlighted(m.cells, None, None)[i]
            == m.cells[i] by {
            if near_seed(m.cells, None, None, i) {
                let j = choose|j: int| #[trigger] is_seed(m.cells, None, None, j) && shares_area(i, j);
                assert(false);
            }
        }
        assert(highlighted(m.cells, None, None) =~= m.cells);
        assert forall|d: int| 0 <= d < 9 implies #[trigger] counted(m.cells)[d] == 0 by {
            lemma_count_number_none(m.cells, (d + 1) as u8, 81);
        }
        assert(m.number_count =~= counted(m.cells));
    }

    /// Every action keeps the invariant.
    pub proof fn law_apply_wf(self, action: BoardAction)
        requires
            self.wf(),
        ensures
            self.apply(action).wf(),
    {
        match action {
            BoardAction::Click(clicked) => self.lemma_click_wf(clicked),
            BoardAction::SelectNumber(number) => self.lemma_set_selected_number_wf(number),
        }
    }

    /// `undo` takes back an accepted action: the board is again what it
    /// was before, cells, counts, mode, selection and history.
    pub proof fn law_undo_takes_back(self, action: BoardAction)
        requires
            self.wf(),
            self.accepts(action),
        ensures
            self.apply(action).undo() == self,
    {
        match action {
            BoardAction::SelectNumber(number) => {
                let armed = BoardModel { selected_number: Some(number), ..self.add_undo_point() };
                let next = armed.highlight();
                assert(next.history.drop_last() =~= self.history);
                self.lemma_refresh_settled();
                assert(next.undo() =~= self);
            },
            BoardAction::Click(clicked) => {
                let index = clicked->0;
                let cell = self.cells[index as int];
                if self.delete_mode {
                    self.lemma_changed_undo(index, cell.clear_number());
                    self.lemma_changed_undo(index, cell.clear_pencil());
                } else {
                    let number = self.selected_number->0;
                    self.lemma_changed_undo(index, cell.set_pencil(number));
                    self.lemma_changed_undo(index, cell.remove_pencil(number));
                    self.lemma_changed_undo(index, cell.set_number(number));
                    if self.mode == BoardMode::Normal && !cell.is_number(number) {
                        let next = self.changed(index, cell.set_number(number));
                        let last = next.highlight().clear_pencil(number).update_number_count();
                        assert(last.history.drop_last() =~= self.history);
                        self.lemma_refresh_settled();
                        assert(last.undo() =~= self);
                    }
                }
            },
        }
    }

    /// Actions keep the invariant, however many.
    pub proof fn law_run_wf(self, actions: Seq<BoardAction>)
        requires
            self.wf(),
        ensures
            self.run(actions).wf(),
        decreases actions.len(),
    {
        if actions.len() > 0 {
            self.law_run_wf(actions.drop_last());
            self.run(actions.drop_last()).law_apply_wf(actions.last());
        }
    }

    /// After any number of accepted actions, as many calls of `undo` give
    /// back the board as it was before the first of them.
    pub proof fn law_undo_round_trip(self, actions: Seq<BoardAction>)
        requires
            self.wf(),
            self.accepts_all(actions),
        ensures
            self.run(actions).undo_times(actions.len()) == self,
        decreases actions.len(),
    {
        if actions.len() > 0 {
            let before = self.run(actions.drop_last());
            self.law_run_wf(actions.drop_last());
            before.law_undo_takes_back(actions.last());
            self.law_undo_round_trip(actions.drop_last());
        }
    }

    /// A click in normal mode that would put the armed digit into a row, a
    /// column or a box that holds it already changes nothing: the cell
    /// stays as it was, and so does the history.
    pub proof fn law_illegal_placement_rejected(self, index: usize, other: usize)
        requires
            self.wf(),
            index < 81,
            other < 81,
            other != index,
            shares_area(index as int, other as int),
            self.mode == BoardMode::Normal,
            !self.delete_mode,
            self.selected_number is Some,
            self.cells[other as int].number == self.selected_number,
            !self.cells[index as int].initial,
        ensures
            self.click(Some(index)) == self,
    {
        let number = self.selected_number->0;
        let cell = self.cells[index as int];
        assert(cell.wf());
        assert(self.cells[index as int].number != self.cells[other as int].number);
        let next = self.changed(index, cell.set_number(number));
        assert(next.cells[index as int].number == Some(number));
        assert(next.cells[other as int].number == Some(number));
        assert(!grid_valid(next.cells));
        self.lemma_changed_undo(index, cell.set_number(number));
    }
}

/// No cell holds a number where every cell is empty.
pub proof fn lemma_count_number_none(cells: Seq<CellModel>, number: u8, n: int)
    requires
        0 <= n <= cells.len(),
        forall|k: int| 0 <= k < cells.len() ==> (#[trigger] cells[k]).number is None,
    ensures
        count_number(cells, number, n) == 0,
    decreases n,
{
    if n > 0 {
        lemma_count_number_none(cells, number, n - 1);
        assert(cells[n - 1].number is None);
    }
}

/// The numbers of the cells, row by row, as a grid.
pub open spec fn numbers_grid(cells: Seq<CellModel>) -> GridModel {
    Seq::new(9, |r: int| Seq::new(9, |c: int| cells[9 * r + c].number->0))
}

/// Cells that all hold digits, none twice in a row, a column or a box,
/// form a solved grid.
pub proof fn lemma_full_board_solved(cells: Seq<CellModel>)
    requires
        cells.len() == 81,
        forall|i: int|
            0 <= i < 81 ==> (#[trigger] cells[i]).number is Some && legal_number(
                cells[i].number->0,
            ),
        grid_valid(cells),
    ensures
        solved(numbers_grid(cells)),
{
    let g = numbers_grid(cells);
    assert forall|r: int, c: int| in_grid(r, c) implies #[trigger] fits(g, r, c) by {
        let i = 9 * r + c;
        assert(cells[i].number is Some);
        assert forall|r2: int, c2: int| in_grid(r2, c2) && peers(r, c, r2, c2) implies #[trigger] get(
            g,
            r2,
            c2,
        ) != get(g, r, c) by {
            let j = 9 * r2 + c2;
            assert(i / 9 == r && i % 9 == c && j / 9 == r2 && j % 9 == c2);
            assert(shares_area(i, j));
            assert(cells[j].number is Some);
            assert(cells[i].number != cells[j].number);
        }
    }
}

/// In a row that holds `number` at the place `p` and nowhere else, the
/// count of `number` rises by one as the row is passed.
proof fn lemma_count_in_row(cells: Seq<CellModel>, number: u8, r: int, p: int, k: int)
    requires
        0 <= r < 9,
        0 <= p < 9,
        0 <= k <= 9,
        forall|c: int|
            0 <= c < 9 ==> ((#[trigger] cells[9 * r + c]).number == Some(number) <==> c == p),
    ensures
        count_number(cells, number, 9 * r + k) == count_number(cells, number, 9 * r) + if k > p {
            1nat
        } else {
            0nat
        },
    decreases k,
{
    if k > 0 {
        lemma_count_in_row(cells, number, r, p, k - 1);
        assert(cells[9 * r + (k - 1)].number == Some(number) <==> k - 1 == p);
    }
}

/// On a board whose cells form a solved grid, the first `r` rows hold
/// each digit `r` times.
proof fn lemma_count_by_rows(cells: Seq<CellModel>, number: u8, r: int)
    requires
        cells.len() == 81,
        forall|i: int|
            0 <= i < 81 ==> (#[trigger] cells[i]).number is Some && legal_number(
                cells[i].number->0,
            ),
        grid_valid(cells),
        legal_number(number),
        0 <= r <= 9,
    ensures
        count_number(cells, number, 9 * r) == r,
    decreases r,
{
    if r > 0 {
        lemma_count_by_rows(cells, number, r - 1);
        let g = numbers_grid(cells);
        lemma_full_board_solved(cells);
        law_solved_units_are_permutations(g, r - 1);
        let row = row_digits(g, r - 1);
        assert(row.contains(number));
        let p = choose|p: int| 0 <= p < row.len() && row[p] == number;
        assert forall|c: int| 0 <= c < 9 implies ((#[trigger] cells[9 * (r - 1) + c]).number
            == Some(number) <==> c == p) by {
            assert(row[c] == cells[9 * (r - 1) + c].number->0);
            assert(cells[9 * (r - 1) + c].number is Some);
            if c != p {
                assert(row[c] != row[p]);
            }
        }
        lemma_count_in_row(cells, number, r - 1, p, 9);
    }
}

impl BoardModel {
    /// A board whose 81 cells hold digits, none twice in a row, a column
    /// or a box, is won.
    pub proof fn law_solved_board_is_victory(self)
        requires
            self.cells.len() == 81,
            forall|i: int|
                0 <= i < 81 ==> (#[trigger] self.cells[i]).number is Some && legal_number(
                    self.cells[i].number->0,
                ),
            grid_valid(self.cells),
            self.number_count == counted(self.cells),
        ensures
            self.is_victory(),
    {
        assert forall|d: int| 0 <= d < 9 implies #[trigger] self.number_count[d] == 9 by {
            lemma_count_by_rows(self.cells, (d + 1) as u8, 9);
        }
    }

    /// A board on which some digit stands in fewer than nine cells is not won.
    pub proof fn law_missing_digit_is_no_victory(self, number: u8)
        requires
            legal_number(number),
            self.number_count[number - 1] < 9,
        ensures
            !self.is_victory(),
    {
    }
}

} // verus!
