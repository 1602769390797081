//! The grid's dimensions and alphabet, and a puzzle stated on it.
use vstd::prelude::*;

verus! {

/// Dimensions of a grid and the symbols that may be placed in it.
///
/// A grid is meant to have positive sizes, a width and a height that are
/// multiples of the side of a block, and an alphabet without repeated
/// symbols. Nothing here depends on that: a side of 0 leaves the grid without
/// blocks, and a width or height that is no multiple of the side leaves the
/// cells behind the last whole block outside every block.
#[derive(Debug)]
pub struct GridInfo {
    /// Number of columns.
    pub width: usize,
    /// Number of rows.
    pub height: usize,
    /// Side length of a block.
    pub square: usize,
    /// The candidate symbols, in the order in which the search tries them.
    pub values: Vec<char>,
}

/// The mathematical content of a [`GridInfo`].
pub ghost struct GridModel {
    pub width: nat,
    pub height: nat,
    pub square: nat,
    pub values: Seq<char>,
}

impl View for GridInfo {
    type V = GridModel;

    open spec fn view(&self) -> GridModel {
        GridModel {
            width: self.width as nat,
            height: self.height as nat,
            square: self.square as nat,
            values: self.values@,
        }
    }
}

impl GridModel {
    /// Number of cells of the grid.
    pub open spec fn cells(self) -> nat {
        self.width * self.height
    }

    /// Number of blocks stacked vertically.
    pub open spec fn block_rows(self) -> nat {
        if self.square == 0 {
            0
        } else {
            self.height / self.square
        }
    }

    /// Number of blocks side by side.
    pub open spec fn block_columns(self) -> nat {
        if self.square == 0 {
            0
        } else {
            self.width / self.square
        }
    }

    /// Number of rules of the grid: one for each row, column and block.
    pub open spec fn rule_count(self) -> nat {
        self.height + self.width + self.block_rows() * self.block_columns()
    }
}

/// A grid together with its clues: one slot per cell in row-major order,
/// `None` for a blank cell.
#[derive(Debug)]
pub struct Problem {
    pub grid: GridInfo,
    pub values: Vec<Option<char>>,
}

/// The mathematical content of a [`Problem`].
pub ghost struct ProblemModel {
    pub grid: GridModel,
    pub values: Seq<Option<char>>,
}

impl ProblemModel {
    /// What the search asks of a problem: one clue slot for each cell, and no
    /// more rules than a `u32` counts.
    pub open spec fn searchable(self) -> bool {
        &&& self.values.len() == self.grid.cells()
        &&& self.grid.rule_count() <= u32::MAX
    }
}

impl View for Problem {
    type V = ProblemModel;

    open spec fn view(&self) -> ProblemModel {
        ProblemModel { grid: self.grid@, values: self.values@ }
    }
}

impl Clone for GridInfo {
    fn clone(&self) -> (copy: GridInfo)
        ensures
            copy@ == self@,
    {
        GridInfo {
            width: self.width,
            height: self.height,
            square: self.square,
            values: self.values.clone(),
        }
    }
}

impl Clone for Problem {
    fn clone(&self) -> (copy: Problem)
        ensures
            copy@ == self@,
    {
        Problem { grid: self.grid.clone(), values: self.values.clone() }
    }
}

impl Problem {
    /// Whether the search can take the problem.
    pub fn is_searchable(&self) -> (fit: bool)
        ensures
            fit == self@.searchable(),
    {
        let width: u128 = self.grid.width as u128;
        let height: u128 = self.grid.height as u128;
        assert(width * height <= 0xffff_ffff_ffff_ffff * 0xffff_ffff_ffff_ffff) by (nonlinear_arith)
            requires
                width <= 0xffff_ffff_ffff_ffff,
                height <= 0xffff_ffff_ffff_ffff,
        ;
        assert(width * height == self@.grid.cells()) by (nonlinear_arith)
            requires
                width == self@.grid.width,
                height == self@.grid.height,
                self@.grid.cells() == self@.grid.width * self@.grid.height,
        ;
        if self.values.len() as u128 != width * height {
            return false;
        }
        let blocks: u128 = if self.grid.square == 0 {
            0
        } else {
            let block_rows: u128 = (self.grid.height / self.grid.square) as u128;
            let block_columns: u128 = (self.grid.width / self.grid.square) as u128;
            assert(block_rows * block_columns <= 0xffff_ffff_ffff_ffff * 0xffff_ffff_ffff_ffff)
                by (nonlinear_arith)
                requires
                    block_rows <= 0xffff_ffff_ffff_ffff,
                    block_columns <= 0xffff_ffff_ffff_ffff,
            ;
            assert(block_rows * block_columns == self.grid@.block_rows() * self.grid@.block_columns())
                by (nonlinear_arith)
                requires
                    block_rows == self.grid@.block_rows(),
                    block_columns == self.grid@.block_columns(),
            ;
            block_rows * block_columns
        };
        height + width + blocks <= u32::MAX as u128
    }
}

} // verus!
