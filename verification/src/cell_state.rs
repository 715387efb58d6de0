//! The state of one cell of the board: a committed number or pencil
//! marks, how the cell is highlighted, and whether the puzzle gave it.

use vstd::prelude::*;
use crate::{is_legal_number, legal_number};

verus! {

/// How a cell is marked by highlighting.
#[derive(Debug, Clone, Copy, PartialEq, Eq, Structural)]
pub enum CellSelection {
    Unselected,
    Emphasized,
    Highlighted,
}

/// One cell of the board.
#[derive(Clone, Copy)]
pub struct CellState {
    /// The committed number, if the cell holds one.
    pub number: Option<u8>,
    /// The pencil marks: the slot of digit `d` is `pencil[d - 1]`.
    pub pencil: [Option<u8>; 9],
    pub selection: CellSelection,
    /// Whether the puzzle gave the cell's number; such a cell never changes.
    pub initial: bool,
}

/// The model of a cell: its pencil marks as a sequence of nine slots.
#[verifier::ext_equal]
pub struct CellModel {
    pub number: Option<u8>,
    pub pencil: Seq<Option<u8>>,
    pub selection: CellSelection,
    pub initial: bool,
}

/// Nine empty pencil slots.
pub open spec fn no_pencil() -> Seq<Option<u8>> {
    Seq::new(9, |i: int| None)
}

impl CellModel {
    /// A cell without number, pencil marks or highlight.
    pub open spec fn empty() -> CellModel {
        CellModel {
            number: None,
            pencil: no_pencil(),
            selection: CellSelection::Unselected,
            initial: false,
        }
    }

    /// The cell's invariant: a number is a digit and excludes pencil marks,
    /// a pencil slot holds only its own digit, and a given cell has a number.
    pub open spec fn wf(self) -> bool {
        &&& self.pencil.len() == 9
        &&& match self.number {
            Some(n) => legal_number(n) && self.pencil == no_pencil(),
            None => !self.initial,
        }
        &&& forall|i: int|
            0 <= i < 9 ==> (#[trigger] self.pencil[i] is None || self.pencil[i] == Some(
                (i + 1) as u8,
            ))
    }

    /// Some pencil slot is filled.
    pub open spec fn has_pencil(self) -> bool {
        exists|i: int| 0 <= i < 9 && #[trigger] self.pencil[i] is Some
    }

    /// The pencil slot of `number` is filled.
    pub open spec fn has_this_pencil(self, number: u8) -> bool {
        self.pencil[number - 1] is Some
    }

    /// The cell holds a number.
    pub open spec fn has_number(self) -> bool {
        self.number is Some
    }

    /// The cell holds a number that the puzzle gave.
    pub open spec fn has_initial_number(self) -> bool {
        self.initial && self.number is Some
    }

    /// The cell holds `number`.
    pub open spec fn is_number(self, number: u8) -> bool {
        self.number == Some(number)
    }

    /// The cell with the mark `selection`.
    pub open spec fn with_selection(self, selection: CellSelection) -> CellModel {
        CellModel { selection, ..self }
    }

    /// The cell without its number; a given cell as it is.
    pub open spec fn clear_number(self) -> CellModel {
        if self.initial {
            self
        } else {
            CellModel { number: None, ..self }
        }
    }

    /// The cell without pencil marks.
    pub open spec fn clear_pencil(self) -> CellModel {
        CellModel { pencil: no_pencil(), ..self }
    }

    /// The cell with `number` committed and no pencil marks; the cell as it
    /// is where it is given or `number` is no digit.
    pub open spec fn set_number(self, number: u8) -> CellModel {
        if self.initial || !legal_number(number) {
            self
        } else {
            CellModel { number: Some(number), pencil: no_pencil(), ..self }
        }
    }

    /// The cell with `number` committed as given by the puzzle; the cell as
    /// it is where it is given already or `number` is no digit.
    pub open spec fn set_initial_number(self, number: u8) -> CellModel {
        if self.initial || !legal_number(number) {
            self
        } else {
            CellModel { number: Some(number), pencil: no_pencil(), initial: true, ..self }
        }
    }

    /// The cell with the pencil mark of `number` and no number; the cell as
    /// it is where it is given or `number` is no digit.
    pub open spec fn set_pencil(self, number: u8) -> CellModel {
        if self.initial || !legal_number(number) {
            self
        } else {
            CellModel {
                number: None,
                pencil: self.pencil.update(number - 1, Some(number)),
                ..self
            }
        }
    }

    /// The cell without the pencil mark of `number` and without a number;
    /// the cell as it is where it is given or `number` is no digit.
    pub open spec fn remove_pencil(self, number: u8) -> CellModel {
        if self.initial || !legal_number(number) {
            self
        } else {
            CellModel { number: None, pencil: self.pencil.update(number - 1, None), ..self }
        }
    }
}

impl View for CellState {
    type V = CellModel;

    open spec fn view(&self) -> CellModel {
        CellModel {
            number: self.number,
            pencil: self.pencil@,
            selection: self.selection,
            initial: self.initial,
        }
    }
}

impl Default for CellState {
    fn default() -> (cell: Self)
        ensures
            cell@ == CellModel::empty(),
    {
        Self::new()
    }
}

impl CellState {
    /// A cell without number, pencil marks or highlight.
    pub fn new() -> (cell: Self)
        ensures
            cell@ == CellModel::empty(),
    {
        let cell = CellState {
            number: None,
            pencil: [None, None, None, None, None, None, None, None, None],
            selection: CellSelection::Unselected,
            initial: false,
        };
        assert(cell@.pencil =~= no_pencil());
        cell
    }

    /// Removes the cell's highlight.
    pub fn clear_selection(&mut self)
        ensures
            final(self)@ == old(self)@.with_selection(CellSelection::Unselected),
    {
        self.selection = CellSelection::Unselected;
    }

    /// Tells whether the cell holds any pencil mark.
    pub fn has_pencil(&self) -> (marked: bool)
        ensures
            marked == self@.has_pencil(),
    {
        let mut i: usize = 0;
        while i < 9
            invariant
                i <= 9,
                forall|k: int| 0 <= k < i ==> #[trigger] self.pencil@[k] is None,
            decreases 9 - i,
        {
            if self.pencil[i].is_some() {
                return true;
            }
            i += 1;
        }
        false
    }

    /// Tells whether the cell holds the pencil mark of `number`.
    pub fn has_this_pencil(&self, number: u8) -> (marked: bool)
        requires
            legal_number(number),
        ensures
            marked == self@.has_this_pencil(number),
    {
        self.pencil[number as usize - 1].is_some()
    }

    /// Adds the pencil mark of `number` and drops the cell's number.
    /// Does nothing to a given cell or with a number that is no digit.
    pub fn set_pencil(&mut self, number: u8)
        ensures
            final(self)@ == old(self)@.set_pencil(number),
            old(self)@.wf() ==> final(self)@.wf(),
    {
        if self.initial || !is_legal_number(number) {
            return ;
        }
        self.clear_number();
        self.pencil[number as usize - 1] = Some(number);
        assert(self@.pencil =~= old(self)@.pencil.update(number - 1, Some(number)));
    }

    /// Removes the pencil mark of `number` and drops the cell's number.
    /// Does nothing to a given cell or with a number that is no digit.
    pub fn remove_pencil(&mut self, number: u8)
        ensures
            final(self)@ == old(self)@.remove_pencil(number),
            old(self)@.wf() ==> final(self)@.wf(),
    {
        if self.initial || !is_legal_number(number) {
            return ;
        }
        self.clear_number();
        self.pencil[number as usize - 1] = None;
        assert(self@.pencil =~= old(self)@.pencil.update(number - 1, None));
    }

    /// Removes every pencil mark.
    pub fn clear_pencil(&mut self)
        ensures
            final(self)@ == old(self)@.clear_pencil(),
            old(self)@.wf() ==> final(self)@.wf(),
    {
        self.pencil = [None, None, None, None, None, None, None, None, None];
        assert(self@.pencil =~= no_pencil());
    }

    /// Tells whether the cell holds a number.
    pub fn has_number(&self) -> (held: bool)
        ensures
            held == self@.has_number(),
    {
        self.number.is_some()
    }

    /// Tells whether the cell holds a number that the puzzle gave.
    pub fn has_initial_number(&self) -> (given: bool)
        ensures
            given == self@.has_initial_number(),
    {
        self.initial && self.number.is_some()
    }

    /// Tells whether the cell holds `number`.
    pub fn is_number(&self, number: u8) -> (held: bool)
        ensures
            held == self@.is_number(number),
    {
        match self.number {
            Some(n) => n == number,
            None => false,
        }
    }

    /// Commits `number` as one that the puzzle gave: the cell never changes again.
    /// Does nothing to a given cell or with a number that is no digit.
    pub fn set_initial_number(&mut self, number: u8)
        ensures
            final(self)@ == old(self)@.set_initial_number(number),
            old(self)@.wf() ==> final(self)@.wf(),
    {
        if self.initial || !is_legal_number(number) {
            return ;
        }
        self.set_number(number);
        self.initial = true;
    }

    /// Commits `number` and removes every pencil mark.
    /// Does nothing to a given cell or with a number that is no digit.
    pub fn set_number(&mut self, number: u8)
        ensures
            final(self)@ == old(self)@.set_number(number),
            old(self)@.wf() ==> final(self)@.wf(),
    {
        if self.initial || !is_legal_number(number) {
            return ;
        }
        self.clear_pencil();
        self.number = Some(number);
    }

    /// Drops the cell's number. Does nothing to a given cell.
    pub fn clear_number(&mut self)
        ensures
            final(self)@ == old(self)@.clear_number(),
            old(self)@.wf() ==> final(self)@.wf(),
    {
        if self.initial {
            return ;
        }
        self.number = None;
    }
}

impl CellState {
    /// Tells whether the cell meets its invariant.
    pub fn is_well_formed(&self) -> (well_formed: bool)
        ensures
            well_formed == self@.wf(),
    {
        let mut marked = false;
        let mut i: usize = 0;
        while i < 9
            invariant
                i <= 9,
                marked == exists|k: int| 0 <= k < i && #[trigger] self.pencil@[k] is Some,
                forall|k: int|
                    0 <= k < i ==> (#[trigger] self.pencil@[k] is None || self.pencil@[k] == Some(
                        (k + 1) as u8,
                    )),
            decreases 9 - i,
        {
            match self.pencil[i] {
                Some(mark) => {
                    if mark as usize != i + 1 {
                        assert(self.pencil@[i as int] != Some((i + 1) as u8));
                        return false;
                    }
                    marked = true;
                },
                None => {},
            }
            i += 1;
        }
        proof {
            if !marked {
                assert(self@.pencil =~= no_pencil());
            } else {
                let k = choose|k: int| 0 <= k < 9 && #[trigger] self.pencil@[k] is Some;
                assert(no_pencil()[k] is None);
            }
        }
        match self.number {
            Some(number) => is_legal_number(number) && !marked,
            None => !self.initial,
        }
    }
}

} // verus!
