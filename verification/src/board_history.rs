//! The undo history: a stack of records of the board, each taken before a
//! change.

use vstd::prelude::*;
use crate::board::BoardMode;
use crate::board_model::{cells_view, UndoPointModel};
use crate::cell_state::CellState;

verus! {

/// A record of the board: its cells, its mode and its selection.
#[derive(Clone, Copy)]
pub struct BoardUndoPoint {
    pub cell_state: [CellState; 81],
    pub mode: BoardMode,
    pub selected_index: Option<usize>,
    pub selected_number: Option<u8>,
}

impl View for BoardUndoPoint {
    type V = UndoPointModel;

    open spec fn view(&self) -> UndoPointModel {
        UndoPointModel {
            cells: cells_view(self.cell_state),
            mode: self.mode,
            selected_index: self.selected_index,
            selected_number: self.selected_number,
        }
    }
}

/// The stack of records, the latest last.
pub struct BoardHistory {
    pub points: Vec<BoardUndoPoint>,
}

impl View for BoardHistory {
    type V = Seq<UndoPointModel>;

    open spec fn view(&self) -> Seq<UndoPointModel> {
        Seq::new(self.points@.len(), |k: int| self.points@[k]@)
    }
}

impl BoardHistory {
    /// An empty history.
    pub fn new() -> (history: Self)
        ensures
            history@ == Seq::<UndoPointModel>::empty(),
    {
        let history = BoardHistory { points: Vec::new() };
        assert(history@ =~= Seq::<UndoPointModel>::empty());
        history
    }

    /// The number of records.
    pub fn len(&self) -> (n: usize)
        ensures
            n == self@.len(),
    {
        self.points.len()
    }

    /// Takes the latest record off the stack and returns it, if there is one.
    pub fn undo(&mut self) -> (point: Option<BoardUndoPoint>)
        ensures
            match point {
                Some(p) => old(self)@.len() > 0 && p@ == old(self)@.last() && final(self)@ == old(
                    self,
                )@.drop_last(),
                None => old(self)@.len() == 0 && final(self)@ == old(self)@,
            },
    {
        let point = self.points.pop();
        proof {
            if point is Some {
                assert(self@ =~= old(self)@.drop_last());
            } else {
                assert(self@ =~= old(self)@);
            }
        }
        point
    }

    /// Puts a record of the given cells, mode and selection on the stack.
    pub fn add_undo_point(
        &mut self,
        cell_states: &[CellState; 81],
        mode: BoardMode,
        selected_index: Option<usize>,
        selected_number: Option<u8>,
    )
        ensures
            final(self)@ == old(self)@.push(
                UndoPointModel {
                    cells: cells_view(*cell_states),
                    mode,
                    selected_index,
                    selected_number,
                },
            ),
    {
        self.points.push(
            BoardUndoPoint { cell_state: *cell_states, mode, selected_index, selected_number },
        );
        assert(self@ =~= old(self)@.push(
            UndoPointModel {
                cells: cells_view(*cell_states),
                mode,
                selected_index,
                selected_number,
            },
        ));
    }
}

} // verus!
