//! The board: 81 cells, the selection, the undo history, and the actions
//! of the player.

use std::collections::HashSet;
use vstd::prelude::*;
use vstd::string::StringExecFns;
use crate::areas::{
    area_group, area_member, group_of, lemma_cell_in_area, lemma_member_in_area,
    lemma_shares_area, member_of, position_of, shares_area, Area,
};
use crate::board_history::BoardHistory;
use crate::board_model::{
    area_highlighted, area_valid, cells_view, count_number, counted, digit_char, fingerprint,
    grid_valid, highlighted, initial_digit, is_seed, near_seed, pencil_cleared, range_valid,
    state_wf, unmarked, BoardModel,
};
use crate::cell_state::{CellModel, CellSelection, CellState};
use crate::{is_legal_index, is_legal_number, legal_index, legal_number, DIGIT_COUNT};

verus! {

/// How a digit is entered: as a committed number or as a pencil mark.
#[derive(Debug, PartialEq, Eq, Structural, Clone, Copy)]
pub enum BoardMode {
    Normal,
    Pencil,
}

/// The state of a game.
pub struct Board {
    pub history: BoardHistory,
    pub cell_state: [CellState; 81],
    /// For each digit `d`, at `number_count[d - 1]`, the number of cells that hold it.
    pub number_count: [u8; 9],
    pub mode: BoardMode,
    /// Whether a click erases rather than enters.
    pub delete_mode: bool,
    /// The cell that the last accepted click fell on.
    pub selected_index: Option<usize>,
    /// The digit that a click enters.
    pub selected_number: Option<u8>,
}

impl View for Board {
    type V = BoardModel;

    open spec fn view(&self) -> BoardModel {
        BoardModel {
            history: self.history@,
            cells: cells_view(self.cell_state),
            number_count: self.number_count@,
            mode: self.mode,
            delete_mode: self.delete_mode,
            selected_index: self.selected_index,
            selected_number: self.selected_number,
        }
    }
}

/// No more than `n` of the first `n` cells hold a given number.
pub proof fn lemma_count_number_bound(cells: Seq<CellModel>, number: u8, n: int)
    requires
        0 <= n,
    ensures
        count_number(cells, number, n) <= n,
    decreases n,
{
    if n > 0 {
        lemma_count_number_bound(cells, number, n - 1);
    }
}

impl Board {
    /// A board of 81 empty cells in normal mode, with nothing selected and
    /// an empty history.
    pub fn new() -> (board: Self)
        ensures
            board@ == BoardModel::empty(),
            board@.wf(),
    {
        let cell = CellState::new();
        let board = Board {
            history: BoardHistory::new(),
            cell_state: [cell;81],
            number_count: [0;9],
            mode: BoardMode::Normal,
            delete_mode: false,
            selected_index: None,
            selected_number: None,
        };
        proof {
            assert(board@.cells =~= BoardModel::empty().cells);
            assert(board@.number_count =~= BoardModel::empty().number_count);
            BoardModel::lemma_empty_wf();
        }
        board
    }

    /// Switches between normal mode and pencil mode.
    pub fn toggle_pencil_mode(&mut self)
        ensures
            final(self)@ == old(self)@.toggle_pencil_mode(),
            old(self)@.wf() ==> final(self)@.wf(),
    {
        match self.mode {
            BoardMode::Normal => self.mode = BoardMode::Pencil,
            BoardMode::Pencil => self.mode = BoardMode::Normal,
        }
    }

    /// Switches delete mode on or off.
    pub fn toggle_delete_mode(&mut self)
        ensures
            final(self)@ == old(self)@.toggle_delete_mode(),
            old(self)@.wf() ==> final(self)@.wf(),
    {
        self.delete_mode = !self.delete_mode;
    }

    /// Switches delete mode off.
    pub fn disable_delete_mode(&mut self)
        ensures
            final(self)@ == old(self)@.disable_delete_mode(),
            old(self)@.wf() ==> final(self)@.wf(),
    {
        self.delete_mode = false;
    }

    /// Puts a record of the board as it is on the undo history.
    fn add_undo_point(&mut self)
        ensures
            final(self)@ == old(self)@.add_undo_point(),
    {
        self.history.add_undo_point(
            &self.cell_state,
            self.mode,
            self.selected_index,
            self.selected_number,
        );
    }

    /// Removes the mark of every cell.
    fn clear_cell_selection(&mut self)
        ensures
            final(self)@ == (BoardModel { cells: unmarked(old(self)@.cells), ..old(self)@ }),
    {
        let mut i: usize = 0;
        while i < 81
            invariant
                i <= 81,
                self.history == old(self).history,
                self.number_count == old(self).number_count,
                self.mode == old(self).mode,
                self.delete_mode == old(self).delete_mode,
                self.selected_index == old(self).selected_index,
                self.selected_number == old(self).selected_number,
                forall|k: int|
                    0 <= k < i ==> (#[trigger] self.cell_state[k])@ == old(
                        self,
                    ).cell_state[k]@.with_selection(CellSelection::Unselected),
                forall|k: int|
                    i <= k < 81 ==> #[trigger] self.cell_state[k] == old(self).cell_state[k],
            decreases 81 - i,
        {
            self.cell_state[i].clear_selection();
            i += 1;
        }
        assert(self@.cells =~= unmarked(old(self)@.cells));
    }

    /// Tells whether each digit stands in nine cells.
    pub fn is_victory(&self) -> (won: bool)
        ensures
            won == self@.is_victory(),
    {
        let mut d: usize = 0;
        while d < 9
            invariant
                d <= 9,
                forall|k: int| 0 <= k < d ==> #[trigger] self.number_count@[k] == 9,
            decreases 9 - d,
        {
            if self.number_count[d] != DIGIT_COUNT {
                assert(self@.number_count[d as int] != 9);
                return false;
            }
            d += 1;
        }
        true
    }

    /// Tells whether `number` stands in nine cells.
    pub fn is_number_done(&self, number: u8) -> (done: bool)
        requires
            legal_number(number),
        ensures
            done == self@.is_number_done(number),
    {
        self.number_count[(number - 1) as usize] == DIGIT_COUNT
    }

    /// Counts anew, for each digit, the cells that hold it.
    pub fn update_number_count(&mut self)
        ensures
            final(self)@ == old(self)@.update_number_count(),
    {
        self.number_count = [0;9];
        let ghost cells = self@.cells;
        let mut i: usize = 0;
        while i < 81
            invariant
                i <= 81,
                self.history == old(self).history,
                self.cell_state == old(self).cell_state,
                self.mode == old(self).mode,
                self.delete_mode == old(self).delete_mode,
                self.selected_index == old(self).selected_index,
                self.selected_number == old(self).selected_number,
                cells == cells_view(self.cell_state),
                forall|n: u8|
                    1 <= n <= 9 ==> self.number_count@[n - 1] == #[trigger] count_number(
                        cells,
                        n,
                        i as int,
                    ),
            decreases 81 - i,
        {
            proof {
                assert forall|n: u8| 1 <= n <= 9 implies #[trigger] count_number(
                    cells,
                    n,
                    i as int,
                ) <= i by {
                    lemma_count_number_bound(cells, n, i as int);
                }
            }
            let ghost counts = self.number_count@;
            if let Some(number) = self.cell_state[i].number {
                if is_legal_number(number) {
                    assert(counts[number - 1] == count_number(cells, number, i as int));
                    self.number_count[(number - 1) as usize] += 1;
                }
            }
            proof {
                assert(cells[i as int].number == self.cell_state[i as int].number);
                assert forall|n: u8| 1 <= n <= 9 implies self.number_count@[n - 1]
                    == #[trigger] count_number(cells, n, i + 1) by {
                    assert(counts[n - 1] == count_number(cells, n, i as int));
                }
            }
            i += 1;
        }
        proof {
            assert forall|d: int| 0 <= d < 9 implies #[trigger] self.number_count@[d] == counted(
                cells,
            )[d] by {
                let n = (d + 1) as u8;
                lemma_count_number_bound(cells, n, 81);
                assert(self.number_count@[n - 1] == count_number(cells, n, 81));
            }
            assert(self.number_count@ =~= counted(cells));
        }
    }
}

/// The cell `k` lies in the row, the column or the box of one of the
/// first `t` cells of `list`.
pub open spec fn near_listed(list: Seq<usize>, t: int, k: int) -> bool {
    exists|u: int| 0 <= u < t && #[trigger] shares_area(k, list[u] as int)
}

impl Board {
    /// Marks as highlighted every unmarked cell of the group of `area` in
    /// which the cell `selected_index` lies.
    fn highlight_areas(&mut self, area: Area, selected_index: usize)
        requires
            selected_index < 81,
        ensures
            final(self)@ == (BoardModel {
                cells: area_highlighted(old(self)@.cells, area, selected_index as int),
                ..old(self)@
            }),
    {
        let group = area_group(area, selected_index);
        let mut position: usize = 0;
        while position < 9
            invariant
                position <= 9,
                group < 9,
                group == group_of(area, selected_index as int),
                self.history == old(self).history,
                self.number_count == old(self).number_count,
                self.mode == old(self).mode,
                self.delete_mode == old(self).delete_mode,
                self.selected_index == old(self).selected_index,
                self.selected_number == old(self).selected_number,
                forall|k: int|
                    0 <= k < 81 ==> (#[trigger] self.cell_state[k])@ == if old(
                        self,
                    ).cell_state[k].selection == CellSelection::Unselected && group_of(area, k)
                        == group && position_of(area, k) < position {
                        old(self).cell_state[k]@.with_selection(CellSelection::Highlighted)
                    } else {
                        old(self).cell_state[k]@
                    },
            decreases 9 - position,
        {
            let index = area_member(area, group, position);
            proof {
                lemma_member_in_area(area, group as int, position as int);
                assert forall|k: int| 0 <= k < 81 && k != index && group_of(area, k)
                    == group implies position_of(area, k) != position by {
                    lemma_cell_in_area(area, k);
                }
            }
            if self.cell_state[index].selection == CellSelection::Unselected {
                self.cell_state[index].selection = CellSelection::Highlighted;
            }
            position += 1;
        }
        proof {
            let marked = area_highlighted(old(self)@.cells, area, selected_index as int);
            assert forall|k: int| 0 <= k < 81 implies #[trigger] self@.cells[k] == marked[k] by {
                lemma_cell_in_area(area, k);
                assert(self@.cells[k] == self.cell_state[k]@);
            }
            assert(self@.cells =~= marked);
        }
    }

    /// Derives the mark of every cell anew: the selected cell and every
    /// cell that holds the selected number are emphasized, and the other
    /// cells of their rows, columns and boxes are highlighted.
    pub fn highlight(&mut self)
        ensures
            final(self)@ == old(self)@.highlight(),
    {
        let ghost base = self@.cells;
        let ghost si = self.selected_index;
        let ghost sn = self.selected_number;
        self.clear_cell_selection();
        let mut highlight_list: Vec<usize> = Vec::new();
        let mut i: usize = 0;
        while i < 81
            invariant
                i <= 81,
                base == old(self)@.cells,
                si == self.selected_index,
                sn == self.selected_number,
                self@.history == old(self)@.history,
                self@.number_count == old(self)@.number_count,
                self.mode == old(self).mode,
                self.delete_mode == old(self).delete_mode,
                self.selected_index == old(self).selected_index,
                self.selected_number == old(self).selected_number,
                forall|k: int|
                    0 <= k < 81 ==> (#[trigger] self@.cells[k]) == base[k].with_selection(
                        if k < i && is_seed(base, si, sn, k) {
                            CellSelection::Emphasized
                        } else {
                            CellSelection::Unselected
                        },
                    ),
                forall|t: int|
                    0 <= t < highlight_list@.len() ==> (#[trigger] highlight_list@[t]) < i
                        && is_seed(base, si, sn, highlight_list@[t] as int),
                forall|k: int|
                    0 <= k < i && is_seed(base, si, sn, k) ==> exists|t: int|
                        0 <= t < highlight_list@.len() && #[trigger] highlight_list@[t] == k,
            decreases 81 - i,
        {
            let selected = match self.selected_index {
                Some(index) => index == i,
                None => false,
            };
            let same_number = match (self.cell_state[i].number, self.selected_number) {
                (Some(held), Some(armed)) => held == armed,
                _ => false,
            };
            let ghost before = self@.cells;
            proof {
                assert(before[i as int] == self.cell_state[i as int]@);
            }
            if selected || same_number {
                self.cell_state[i].selection = CellSelection::Emphasized;
                let ghost listed = highlight_list@;
                highlight_list.push(i);
                proof {
                    assert forall|k: int| 0 <= k < i + 1 && is_seed(base, si, sn, k) implies exists|
                        t: int,
                    |
                        0 <= t < highlight_list@.len() && #[trigger] highlight_list@[t] == k by {
                        if k < i {
                            let t = choose|t: int|
                                0 <= t < listed.len() && #[trigger] listed[t] == k;
                            assert(highlight_list@[t] == k);
                        } else {
                            assert(highlight_list@[listed.len() as int] == k);
                        }
                    }
                }
            }
            proof {
                assert forall|k: int| 0 <= k < 81 implies (#[trigger] self@.cells[k])
                    == base[k].with_selection(
                    if k < i + 1 && is_seed(base, si, sn, k) {
                        CellSelection::Emphasized
                    } else {
                        CellSelection::Unselected
                    },
                ) by {
                    assert(self@.cells[k] == self.cell_state[k]@);
                    if k != i {
                        assert(self@.cells[k] == before[k]);
                    }
                }
            }
            i += 1;
        }
        let mut t: usize = 0;
        while t < highlight_list.len()
            invariant
                t <= highlight_list@.len(),
                base == old(self)@.cells,
                si == self.selected_index,
                sn == self.selected_number,
                self@.history == old(self)@.history,
                self@.number_count == old(self)@.number_count,
                self.mode == old(self).mode,
                self.delete_mode == old(self).delete_mode,
                self.selected_index == old(self).selected_index,
                self.selected_number == old(self).selected_number,
                forall|u: int|
                    0 <= u < highlight_list@.len() ==> (#[trigger] highlight_list@[u]) < 81
                        && is_seed(base, si, sn, highlight_list@[u] as int),
                forall|k: int|
                    0 <= k < 81 ==> (#[trigger] self@.cells[k]) == base[k].with_selection(
                        if is_seed(base, si, sn, k) {
                            CellSelection::Emphasized
                        } else if near_listed(highlight_list@, t as int, k) {
                            CellSelection::Highlighted
                        } else {
                            CellSelection::Unselected
                        },
                    ),
            decreases highlight_list@.len() - t,
        {
            let index = highlight_list[t];
            let ghost before = self@.cells;
            proof {
            }
            self.highlight_areas(Area::Boxes, index);
            self.highlight_areas(Area::Rows, index);
            self.highlight_areas(Area::Columns, index);
            proof {
                assert forall|k: int| 0 <= k < 81 implies (#[trigger] self@.cells[k])
                    == base[k].with_selection(
                    if is_seed(base, si, sn, k) {
                        CellSelection::Emphasized
                    } else if near_listed(highlight_list@, t + 1, k) {
                        CellSelection::Highlighted
                    } else {
                        CellSelection::Unselected
                    },
                ) by {
                    lemma_shares_area(k, index as int);
                    if near_listed(highlight_list@, t + 1, k) {
                        let u = choose|u: int|
                            0 <= u < t + 1 && #[trigger] shares_area(k, highlight_list@[u] as int);
                        if u < t {
                            assert(near_listed(highlight_list@, t as int, k));
                        }
                    }
                    if near_listed(highlight_list@, t as int, k) {
                        let u = choose|u: int|
                            0 <= u < t && #[trigger] shares_area(k, highlight_list@[u] as int);
                        assert(shares_area(k, highlight_list@[u] as int));
                        assert(near_listed(highlight_list@, t + 1, k));
                    }
                    if shares_area(k, index as int) {
                        assert(shares_area(k, highlight_list@[t as int] as int));
                        assert(near_listed(highlight_list@, t + 1, k));
                    }
                }
            }
            t += 1;
        }
        proof {
            assert forall|k: int| 0 <= k < 81 implies #[trigger] self@.cells[k] == highlighted(
                base,
                si,
                sn,
            )[k] by {
                let n = highlight_list@.len() as int;
                if near_listed(highlight_list@, n, k) {
                    let u = choose|u: int|
                        0 <= u < n && #[trigger] shares_area(k, highlight_list@[u] as int);
                    assert(is_seed(base, si, sn, highlight_list@[u] as int));
                    assert(near_seed(base, si, sn, k));
                }
                if near_seed(base, si, sn, k) {
                    let j = choose|j: int| #[trigger] is_seed(base, si, sn, j) && shares_area(k, j);
                    let u = choose|u: int|
                        0 <= u < highlight_list@.len() && #[trigger] highlight_list@[u] == j;
                    assert(shares_area(k, highlight_list@[u] as int));
                    assert(near_listed(highlight_list@, n, k));
                }
            }
            assert(self@.cells =~= highlighted(base, si, sn));
        }
    }
}

/// No row, column or box holds a number twice exactly if no group of any
/// area does.
pub proof fn lemma_grid_valid_by_areas(cells: Seq<CellModel>)
    ensures
        grid_valid(cells) <==> area_valid(cells, Area::Boxes) && area_valid(cells, Area::Rows)
            && area_valid(cells, Area::Columns),
{
    if area_valid(cells, Area::Boxes) && area_valid(cells, Area::Rows) && area_valid(
        cells,
        Area::Columns,
    ) {
        assert forall|i: int, j: int|
            #![trigger cells[i], cells[j]]
            0 <= i < 81 && 0 <= j < 81 && i != j && shares_area(i, j)
                && cells[i].number is Some implies cells[i].number != cells[j].number by {
            lemma_shares_area(i, j);
            let area = if group_of(Area::Boxes, i) == group_of(Area::Boxes, j) {
                Area::Boxes
            } else if group_of(Area::Rows, i) == group_of(Area::Rows, j) {
                Area::Rows
            } else {
                Area::Columns
            };
            lemma_cell_in_area(area, i);
            lemma_cell_in_area(area, j);
            let g = group_of(area, i);
            assert(range_valid(cells, area, g));
            let a = position_of(area, i);
            let b = position_of(area, j);
            assert(member_of(area, g, a) == i && member_of(area, g, b) == j);
        }
    }
    if grid_valid(cells) {
        assert forall|area: Area, g: int| 0 <= g < 9 implies #[trigger] range_valid(
            cells,
            area,
            g,
        ) by {
            assert forall|a: int, b: int|
                #![trigger member_of(area, g, a), member_of(area, g, b)]
                0 <= a < 9 && 0 <= b < 9 && a != b && cells[member_of(area, g, a)].number
                    is Some implies cells[member_of(area, g, a)].number != cells[member_of(
                area,
                g,
                b,
            )].number by {
                let i = member_of(area, g, a);
                let j = member_of(area, g, b);
                lemma_member_in_area(area, g, a);
                lemma_member_in_area(area, g, b);
                lemma_shares_area(i, j);
                assert(cells[i].number != cells[j].number);
            }
        }
    }
}

impl Board {
    /// Tells whether the group `group` of `area` holds no number twice.
    fn is_range_valid(&self, area: Area, group: usize) -> (valid: bool)
        requires
            group < 9,
        ensures
            valid == range_valid(self@.cells, area, group as int),
    {
        broadcast use vstd::std_specs::hash::group_hash_axioms;

        let ghost cells = self@.cells;
        let mut values: HashSet<u8> = HashSet::new();
        let mut position: usize = 0;
        while position < 9
            invariant
                position <= 9,
                group < 9,
                cells == self@.cells,
                forall|v: u8|
                    values@.contains(v) <==> exists|a: int|
                        0 <= a < position && cells[#[trigger] member_of(
                            area,
                            group as int,
                            a,
                        )].number == Some(v),
                forall|a: int, b: int|
                    #![trigger member_of(area, group as int, a), member_of(area, group as int, b)]
                    0 <= a < position && 0 <= b < position && a != b && cells[member_of(
                        area,
                        group as int,
                        a,
                    )].number is Some ==> cells[member_of(area, group as int, a)].number
                        != cells[member_of(area, group as int, b)].number,
            decreases 9 - position,
        {
            let index = area_member(area, group, position);
            proof {
                assert(cells[index as int] == self.cell_state[index as int]@);
            }
            if let Some(number) = self.cell_state[index].number {
                if values.contains(&number) {
                    proof {
                        let a = choose|a: int|
                            0 <= a < position && cells[#[trigger] member_of(
                                area,
                                group as int,
                                a,
                            )].number == Some(number);
                        assert(cells[member_of(area, group as int, a)].number == cells[member_of(
                            area,
                            group as int,
                            position as int,
                        )].number);
                    }
                    return false;
                }
                let ghost held = values@;
                values.insert(number);
                proof {
                    assert forall|v: u8| values@.contains(v) <==> exists|a: int|
                        0 <= a < position + 1 && cells[#[trigger] member_of(
                            area,
                            group as int,
                            a,
                        )].number == Some(v) by {
                        if held.contains(v) {
                            let a = choose|a: int|
                                0 <= a < position && cells[#[trigger] member_of(
                                    area,
                                    group as int,
                                    a,
                                )].number == Some(v);
                            assert(cells[member_of(area, group as int, a)].number == Some(v));
                        }
                        if v == number {
                            assert(cells[member_of(area, group as int, position as int)].number
                                == Some(v));
                        }
                    }
                }
            }
            position += 1;
        }
        true
    }

    /// Tells whether no group of `area` holds a number twice.
    fn is_area_valid(&self, area: Area) -> (valid: bool)
        ensures
            valid == area_valid(self@.cells, area),
    {
        let mut group: usize = 0;
        while group < 9
            invariant
                group <= 9,
                forall|g: int| 0 <= g < group ==> #[trigger] range_valid(self@.cells, area, g),
            decreases 9 - group,
        {
            if !self.is_range_valid(area, group) {
                return false;
            }
            group += 1;
        }
        true
    }

    /// Tells whether no row, column or box holds a number twice.
    pub fn is_valid(&self) -> (valid: bool)
        ensures
            valid == grid_valid(self@.cells),
    {
        proof {
            lemma_grid_valid_by_areas(self@.cells);
        }
        if !self.is_area_valid(Area::Boxes) {
            return false;
        }
        if !self.is_area_valid(Area::Rows) {
            return false;
        }
        if !self.is_area_valid(Area::Columns) {
            return false;
        }
        true
    }

    /// Removes the pencil mark of `number` from every highlighted cell
    /// that holds no number.
    fn clear_pencil(&mut self, number: u8)
        ensures
            final(self)@ == old(self)@.clear_pencil(number),
    {
        let mut i: usize = 0;
        while i < 81
            invariant
                i <= 81,
                self@.history == old(self)@.history,
                self@.number_count == old(self)@.number_count,
                self.mode == old(self).mode,
                self.delete_mode == old(self).delete_mode,
                self.selected_index == old(self).selected_index,
                self.selected_number == old(self).selected_number,
                forall|k: int|
                    0 <= k < i ==> (#[trigger] self@.cells[k]) == pencil_cleared(
                        old(self)@.cells,
                        number,
                    )[k],
                forall|k: int| i <= k < 81 ==> (#[trigger] self@.cells[k]) == old(self)@.cells[k],
            decreases 81 - i,
        {
            let ghost before = self@.cells;
            proof {
                assert(before[i as int] == self.cell_state[i as int]@);
            }
            if !self.cell_state[i].has_number() && self.cell_state[i].selection
                == CellSelection::Highlighted {
                self.cell_state[i].remove_pencil(number);
            }
            proof {
                assert forall|k: int| 0 <= k < 81 && k != i implies #[trigger] self@.cells[k]
                    == before[k] by {
                    assert(self@.cells[k] == self.cell_state[k]@);
                }
                assert(self@.cells[i as int] == self.cell_state[i as int]@);
            }
            i += 1;
        }
        assert(self@.cells =~= pencil_cleared(old(self)@.cells, number));
    }

    /// Takes back the latest recorded change: cells, mode and selection
    /// are restored from the latest record, which leaves the history.
    /// Does nothing where the history is empty.
    pub fn undo(&mut self)
        ensures
            final(self)@ == old(self)@.undo(),
            old(self)@.wf() ==> final(self)@.wf(),
    {
        proof {
            if self@.wf() {
                self@.lemma_undo_wf();
            }
        }
        let undo_point = self.history.undo();
        match undo_point {
            None => {},
            Some(undo_point) => {
                self.cell_state = undo_point.cell_state;
                self.mode = undo_point.mode;
                self.selected_index = undo_point.selected_index;
                self.selected_number = undo_point.selected_number;
                self.highlight();
                self.update_number_count();
            },
        }
    }

    /// Arms `number` as the digit that clicks enter, after recording the
    /// board, and derives the marks anew. Does nothing where `number` is
    /// armed already or is no digit.
    pub fn set_selected_number(&mut self, number: u8)
        ensures
            final(self)@ == old(self)@.set_selected_number(number),
            old(self)@.wf() ==> final(self)@.wf(),
    {
        proof {
            if self@.wf() {
                self@.lemma_set_selected_number_wf(number);
            }
        }
        if !is_legal_number(number) {
            return ;
        }
        if let Some(num) = self.selected_number {
            if num == number {
                return ;
            }
        }
        self.add_undo_point();
        self.selected_number = Some(number);
        self.highlight();
    }
}

impl Board {
    /// Derives the marks and the counts anew, as after every accepted change.
    fn refresh(&mut self)
        ensures
            final(self)@ == old(self)@.refresh(),
    {
        self.highlight();
        self.update_number_count();
    }

    /// Tells whether `index` names a cell and `number` a digit.
    fn can_insert(&self, index: Option<usize>, number: Option<u8>) -> (possible: bool)
        ensures
            possible == (index is Some && legal_index(index->0) && number is Some && legal_number(
                number->0,
            )),
    {
        let index = match index {
            Some(index) => index,
            None => { return false; },
        };
        if !is_legal_index(index) {
            return false;
        }
        let number = match number {
            Some(number) => number,
            None => { return false; },
        };
        is_legal_number(number)
    }

    /// Commits `number` to the cell `index`, where `index` names a cell and
    /// `number` a digit; tells whether they do.
    fn try_insert(&mut self, index: Option<usize>, number: Option<u8>) -> (possible: bool)
        ensures
            possible == (index is Some && legal_index(index->0) && number is Some && legal_number(
                number->0,
            )),
            possible ==> final(self)@ == (BoardModel {
                cells: old(self)@.cells.update(
                    index->0 as int,
                    old(self)@.cells[index->0 as int].set_number(number->0),
                ),
                ..old(self)@
            }),
            !possible ==> final(self)@ == old(self)@,
    {
        if !self.can_insert(index, number) {
            return false;
        }
        let index = index.unwrap();
        let ghost cell = self@.cells[index as int];
        proof {
            assert(cell == self.cell_state[index as int]@);
        }
        self.cell_state[index].set_number(number.unwrap());
        proof {
            assert(self@.cells =~= old(self)@.cells.update(
                index as int,
                cell.set_number(number->0),
            ));
        }
        true
    }

    /// Records the board and selects the cell `index`, which the caller
    /// is about to change.
    fn select_for_change(&mut self, index: usize)
        ensures
            final(self)@ == (BoardModel {
                selected_index: Some(index),
                ..old(self)@.add_undo_point()
            }),
    {
        self.add_undo_point();
        self.selected_index = Some(index);
    }

    /// A click in delete mode on the cell `index`.
    fn delete_at(&mut self, index: usize)
        requires
            index < 81,
        ensures
            final(self)@ == old(self)@.delete_at(index),
    {
        let ghost cell = self@.cells[index as int];
        proof {
            assert(cell == self.cell_state[index as int]@);
        }
        if self.cell_state[index].has_number() {
            self.select_for_change(index);
            self.selected_number = self.cell_state[index].number;
            self.cell_state[index].clear_number();
            proof {
                assert(self@.cells =~= old(self)@.cells.update(index as int, cell.clear_number()));
            }
            self.refresh();
        } else if self.cell_state[index].has_pencil() {
            self.select_for_change(index);
            self.cell_state[index].clear_pencil();
            proof {
                assert(self@.cells =~= old(self)@.cells.update(index as int, cell.clear_pencil()));
            }
            self.refresh();
        }
    }

    /// A click in normal mode on the cell `index`.
    fn enter_number(&mut self, index: usize)
        requires
            index < 81,
        ensures
            final(self)@ == old(self)@.enter_number(index),
    {
        if !self.can_insert(Some(index), self.selected_number) {
            return ;
        }
        let number = self.selected_number.unwrap();
        let ghost cell = self@.cells[index as int];
        proof {
            assert(cell == self.cell_state[index as int]@);
        }
        if self.cell_state[index].is_number(number) {
            self.select_for_change(index);
            self.cell_state[index].set_pencil(number);
            proof {
                assert(self@.cells =~= old(self)@.cells.update(
                    index as int,
                    cell.set_pencil(number),
                ));
            }
            if !self.is_valid() {
                self.undo();
                return ;
            }
            self.refresh();
        } else {
            self.select_for_change(index);
            self.try_insert(Some(index), Some(number));
            if !self.is_valid() {
                self.undo();
                return ;
            }
            self.highlight();
            self.clear_pencil(number);
            self.update_number_count();
        }
    }

    /// A click in pencil mode on the cell `index`.
    fn toggle_pencil(&mut self, index: usize)
        requires
            index < 81,
        ensures
            final(self)@ == old(self)@.toggle_pencil(index),
    {
        let pencil_number = match self.selected_number {
            Some(number) => number,
            None => { return ; },
        };
        let ghost cell = self@.cells[index as int];
        proof {
            assert(cell == self.cell_state[index as int]@);
        }
        if !is_legal_number(pencil_number) || self.cell_state[index].has_number() {
            return ;
        }
        if self.cell_state[index].has_this_pencil(pencil_number) {
            self.select_for_change(index);
            self.cell_state[index].remove_pencil(pencil_number);
            proof {
                assert(self@.cells =~= old(self)@.cells.update(
                    index as int,
                    cell.remove_pencil(pencil_number),
                ));
            }
        } else {
            self.select_for_change(index);
            self.cell_state[index].set_pencil(pencil_number);
            proof {
                assert(self@.cells =~= old(self)@.cells.update(
                    index as int,
                    cell.set_pencil(pencil_number),
                ));
            }
        }
        self.refresh();
    }

    /// Applies a click on the cell `clicked_index`, or, for `None`, a
    /// click on the board that fell outside every cell.
    ///
    /// A click outside every cell clears the selection. A click on a cell
    /// that the puzzle gave selects it and changes nothing else. Any other
    /// click is read by the mode: in delete mode it erases, in normal mode
    /// it enters the selected number, in pencil mode it toggles that
    /// number's pencil mark. An index that names no cell is ignored.
    pub fn click(&mut self, clicked_index: Option<usize>)
        ensures
            final(self)@ == old(self)@.click(clicked_index),
            old(self)@.wf() ==> final(self)@.wf(),
    {
        proof {
            if self@.wf() {
                self@.lemma_click_wf(clicked_index);
            }
        }
        let index = match clicked_index {
            Some(index) => index,
            None => {
                self.selected_index = None;
                self.highlight();
                return ;
            },
        };
        if !is_legal_index(index) {
            return ;
        }
        proof {
            assert(self@.cells[index as int] == self.cell_state[index as int]@);
        }
        if self.cell_state[index].has_initial_number() {
            self.selected_index = clicked_index;
            self.highlight();
            return ;
        }
        if self.delete_mode {
            self.delete_at(index);
            return ;
        }
        match self.mode {
            BoardMode::Normal => self.enter_number(index),
            BoardMode::Pencil => self.toggle_pencil(index),
        }
    }
}

/// The text of one digit; the text of zero for any other number.
fn digit_text(d: u8) -> (text: &'static str)
    ensures
        text@ == seq![digit_char(d)],
{
    proof {
        reveal_strlit("0");
        reveal_strlit("1");
        reveal_strlit("2");
        reveal_strlit("3");
        reveal_strlit("4");
        reveal_strlit("5");
        reveal_strlit("6");
        reveal_strlit("7");
        reveal_strlit("8");
        reveal_strlit("9");
    }
    let text = if d == 1 {
        "1"
    } else if d == 2 {
        "2"
    } else if d == 3 {
        "3"
    } else if d == 4 {
        "4"
    } else if d == 5 {
        "5"
    } else if d == 6 {
        "6"
    } else if d == 7 {
        "7"
    } else if d == 8 {
        "8"
    } else if d == 9 {
        "9"
    } else {
        "0"
    };
    assert(text@ =~= seq![digit_char(d)]);
    text
}

impl Board {
    /// The board's fingerprint: 81 characters, one for each cell in turn,
    /// the digit that the puzzle gave the cell or `0`. It does not change
    /// while the puzzle is played.
    pub fn cell_initial_to_string(&self) -> (result: String)
        ensures
            result@ == fingerprint(self@.cells),
    {
        let mut result = String::new();
        let mut index: usize = 0;
        while index < 81
            invariant
                index <= 81,
                result@.len() == index,
                forall|k: int|
                    0 <= k < index ==> #[trigger] result@[k] == digit_char(
                        initial_digit(self@.cells[k]),
                    ),
            decreases 81 - index,
        {
            let cell = self.cell_state[index];
            proof {
                assert(self@.cells[index as int] == cell@);
            }
            if cell.has_initial_number() {
                result.append(digit_text(cell.number.unwrap()));
            } else {
                result.append(digit_text(0));
            }
            index += 1;
        }
        assert(result@ =~= fingerprint(self@.cells));
        result
    }
}

/// Tells whether the cells, with the selection, are those of a
/// well-formed board: every cell meets its invariant, the selection names
/// a cell and a digit, no row, column or box holds a number twice, and
/// the marks are the ones that highlighting derives.
fn state_is_well_formed(
    cells: &[CellState; 81],
    selected_index: Option<usize>,
    selected_number: Option<u8>,
) -> (well_formed: bool)
    ensures
        well_formed == state_wf(cells_view(*cells), selected_index, selected_number),
{
    let ghost model = cells_view(*cells);
    let mut i: usize = 0;
    while i < 81
        invariant
            i <= 81,
            model == cells_view(*cells),
            forall|k: int| 0 <= k < i ==> (#[trigger] model[k]).wf(),
        decreases 81 - i,
    {
        proof {
            assert(model[i as int] == cells[i as int]@);
        }
        if !cells[i].is_well_formed() {
            return false;
        }
        i += 1;
    }
    if let Some(index) = selected_index {
        if !is_legal_index(index) {
            return false;
        }
    }
    if let Some(number) = selected_number {
        if !is_legal_number(number) {
            return false;
        }
    }
    let mut board = Board {
        history: BoardHistory::new(),
        cell_state: *cells,
        number_count: [0;9],
        mode: BoardMode::Normal,
        delete_mode: false,
        selected_index,
        selected_number,
    };
    if !board.is_valid() {
        return false;
    }
    board.highlight();
    let ghost derived = highlighted(model, selected_index, selected_number);
    let mut i: usize = 0;
    while i < 81
        invariant
            i <= 81,
            model == cells_view(*cells),
            derived == highlighted(model, selected_index, selected_number),
            board@.cells == derived,
            forall|k: int| 0 <= k < i ==> #[trigger] derived[k] == model[k],
        decreases 81 - i,
    {
        proof {
            assert(model[i as int] == cells[i as int]@);
            assert(board@.cells[i as int] == board.cell_state[i as int]@);
        }
        if board.cell_state[i].selection != cells[i].selection {
            assert(derived[i as int] != model[i as int]);
            return false;
        }
        i += 1;
    }
    assert(derived =~= model);
    true
}

impl Board {
    /// Tells whether the board meets its invariant.
    ///
    /// A board that was made by this library and changed by its functions
    /// alone does; one that was put together from a save may not.
    pub fn is_well_formed(&self) -> (well_formed: bool)
        ensures
            well_formed == self@.wf(),
    {
        if !state_is_well_formed(&self.cell_state, self.selected_index, self.selected_number) {
            return false;
        }
        let mut counted_anew = Board {
            history: BoardHistory::new(),
            cell_state: self.cell_state,
            number_count: [0;9],
            mode: self.mode,
            delete_mode: self.delete_mode,
            selected_index: self.selected_index,
            selected_number: self.selected_number,
        };
        counted_anew.update_number_count();
        let mut d: usize = 0;
        while d < 9
            invariant
                d <= 9,
                counted_anew@.number_count == counted(self@.cells),
                forall|k: int|
                    0 <= k < d ==> #[trigger] self@.number_count[k] == counted(self@.cells)[k],
            decreases 9 - d,
        {
            if self.number_count[d] != counted_anew.number_count[d] {
                assert(self@.number_count[d as int] != counted(self@.cells)[d as int]);
                return false;
            }
            d += 1;
        }
        assert(self@.number_count =~= counted(self@.cells));
        let mut k: usize = 0;
        while k < self.history.points.len()
            invariant
                k <= self.history.points@.len(),
                forall|t: int| 0 <= t < k ==> (#[trigger] self@.history[t]).wf(),
            decreases self.history.points@.len() - k,
        {
            let point = &self.history.points[k];
            proof {
                assert(self@.history[k as int] == self.history.points@[k as int]@);
            }
            if !state_is_well_formed(
                &point.cell_state,
                point.selected_index,
                point.selected_number,
            ) {
                return false;
            }
            k += 1;
        }
        true
    }
}

} // verus!
