//! The game board: a rectangular array of single-character cell markers.
//!
//! `'0'` marks an empty passable cell, `'1'` permanently blocking terrain,
//! and any other character is the identifier of the token occupying the
//! cell. The board is stored row-major in a flat vector.

use vstd::prelude::*;

verus! {

/// Marker of an empty passable cell.
pub const EMPTY: char = '0';

/// Marker of permanently blocking terrain.
pub const BLOCKED: char = '1';

/// A rectangular board of cell markers, stored row-major.
pub struct Grid {
    pub rows: usize,
    pub cols: usize,
    pub cells: Vec<char>,
}

/// Abstract value of a grid: its dimensions and its flattened cells.
pub ghost struct GridV {
    pub rows: int,
    pub cols: int,
    pub cells: Seq<char>,
}

impl GridV {
    /// A grid view is well formed when the flat cell list matches the
    /// declared dimensions.
    pub open spec fn wf(self) -> bool {
        self.cells.len() == self.rows * self.cols
    }

    pub open spec fn in_bounds(self, r: int, c: int) -> bool {
        0 <= r < self.rows && 0 <= c < self.cols
    }

    /// The marker at row `r`, column `c`.
    pub open spec fn at(self, r: int, c: int) -> char {
        self.cells[r * self.cols + c]
    }

    /// The grid with the marker at `(r, c)` replaced by `ch`.
    pub open spec fn write(self, r: int, c: int, ch: char) -> GridV {
        GridV { rows: self.rows, cols: self.cols, cells: self.cells.update(r * self.cols + c, ch) }
    }
}

impl View for Grid {
    type V = GridV;

    open spec fn view(&self) -> GridV {
        GridV { rows: self.rows as int, cols: self.cols as int, cells: self.cells@ }
    }
}

/// Row-major indices of in-bounds coordinates stay within the cell list.
pub proof fn lemma_flat_index(rows: int, cols: int, r: int, c: int)
    by (nonlinear_arith)
    requires
        0 <= r < rows,
        0 <= c < cols,
    ensures
        0 <= r * cols + c < rows * cols,
        r * cols + c <= (rows - 1) * cols + (cols - 1),
{
}

/// Row-major indexing is injective on in-bounds coordinates.
pub proof fn lemma_flat_index_injective(cols: int, r1: int, c1: int, r2: int, c2: int)
    by (nonlinear_arith)
    requires
        0 <= c1 < cols,
        0 <= c2 < cols,
        0 <= r1,
        0 <= r2,
        r1 * cols + c1 == r2 * cols + c2,
    ensures
        r1 == r2 && c1 == c2,
{
}

impl Grid {
    /// An empty zero-by-zero board.
    pub fn new() -> (r: Self)
        ensures
            r@.rows == 0,
            r@.cols == 0,
            r@.cells.len() == 0,
            r@.wf(),
    {
        let g = Grid { rows: 0, cols: 0, cells: Vec::new() };
        proof {
            assert(g@.cells.len() == 0);
        }
        g
    }

    pub fn dims(&self) -> (r: (usize, usize))
        ensures
            r.0 == self@.rows,
            r.1 == self@.cols,
    {
        (self.rows, self.cols)
    }

    /// Checks that the flat cell list matches the declared dimensions.
    pub fn check_wf(&self) -> (b: bool)
        ensures
            b == self@.wf(),
    {
        let n = self.cells.len();
        match self.rows.checked_mul(self.cols) {
            None => false,
            Some(t) => t == n,
        }
    }

    pub fn in_bounds(&self, r: usize, c: usize) -> (b: bool)
        ensures
            b == self@.in_bounds(r as int, c as int),
    {
        r < self.rows && c < self.cols
    }

    /// Reads the marker at `(r, c)`.
    pub fn at(&self, r: usize, c: usize) -> (ch: char)
        requires
            self@.wf(),
            self@.in_bounds(r as int, c as int),
        ensures
            ch == self@.at(r as int, c as int),
    {
        let n = self.cells.len();
        proof {
            lemma_flat_index(self@.rows, self@.cols, r as int, c as int);
        }
        self.cells[r * self.cols + c]
    }

    /// Replaces the marker at `(r, c)`.
    pub fn set(&mut self, r: usize, c: usize, ch: char)
        requires
            old(self)@.wf(),
            old(self)@.in_bounds(r as int, c as int),
        ensures
            final(self)@ == old(self)@.write(r as int, c as int, ch),
            final(self)@.wf(),
            final(self)@.rows == old(self)@.rows,
            final(self)@.cols == old(self)@.cols,
            final(self)@.at(r as int, c as int) == ch,
            forall|r2: int, c2: int|
                old(self)@.in_bounds(r2, c2) && (r2 != r || c2 != c) ==> final(self)@.at(r2, c2)
                    == #[trigger] old(self)@.at(r2, c2),
    {
        let n = self.cells.len();
        proof {
            lemma_flat_index(self@.rows, self@.cols, r as int, c as int);
        }
        let idx = r * self.cols + c;
        self.cells.set(idx, ch);
        proof {
            assert forall|r2: int, c2: int|
                old(self)@.in_bounds(r2, c2) && (r2 != r || c2 != c) implies final(self)@.at(
                r2,
                c2,
            ) == #[trigger] old(self)@.at(r2, c2) by {
                lemma_flat_index(old(self)@.rows, old(self)@.cols, r2, c2);
                if r2 * old(self)@.cols + c2 == r as int * old(self)@.cols + c as int {
                    lemma_flat_index_injective(old(self)@.cols, r2, c2, r as int, c as int);
                }
            }
        }
    }

    /// A grid of the given dimensions that keeps the markers of `self`
    /// where they overlap and pads the rest with empty cells.
    pub fn resized(&self, rows: usize, cols: usize) -> (r: Result<Grid, crate::EngineError>)
        requires
            self@.wf(),
        ensures
            match r {
                Ok(g) => {
                    &&& rows * cols <= usize::MAX
                    &&& g@.wf()
                    &&& g@.rows == rows
                    &&& g@.cols == cols
                    &&& forall|r2: int, c2: int|
                        g@.in_bounds(r2, c2) ==> #[trigger] g@.at(r2, c2) == if self@.in_bounds(
                            r2,
                            c2,
                        ) {
                            self@.at(r2, c2)
                        } else {
                            EMPTY
                        }
                },
                Err(e) => e == crate::EngineError::OutOfBounds && rows * cols > usize::MAX,
            },
    {
        let total = match rows.checked_mul(cols) {
            Some(t) => t,
            None => {
                return Err(crate::EngineError::OutOfBounds);
            },
        };
        let mut cells: Vec<char> = Vec::new();
        let mut r: usize = 0;
        while r < rows
            invariant
                0 <= r <= rows,
                total == rows * cols,
                total <= usize::MAX,
                self@.wf(),
                cells@.len() == r * cols,
                forall|r2: int, c2: int|
                    0 <= r2 < r && 0 <= c2 < cols ==> #[trigger] cells@[r2 * cols + c2] == if self@.in_bounds(
                        r2,
                        c2,
                    ) {
                        self@.at(r2, c2)
                    } else {
                        EMPTY
                    },
            decreases rows - r,
        {
            let mut c: usize = 0;
            while c < cols
                invariant
                    0 <= c <= cols,
                    0 <= r < rows,
                    total == rows * cols,
                    total <= usize::MAX,
                    self@.wf(),
                    cells@.len() == r * cols + c,
                    forall|r2: int, c2: int|
                        0 <= r2 < r && 0 <= c2 < cols ==> #[trigger] cells@[r2 * cols + c2] == if self@.in_bounds(
                            r2,
                            c2,
                        ) {
                            self@.at(r2, c2)
                        } else {
                            EMPTY
                        },
                    forall|c2: int|
                        0 <= c2 < c ==> #[trigger] cells@[r * cols + c2] == if self@.in_bounds(
                            r as int,
                            c2,
                        ) {
                            self@.at(r as int, c2)
                        } else {
                            EMPTY
                        },
                decreases cols - c,
            {
                proof {
                    lemma_flat_index(rows as int, cols as int, r as int, c as int);
                }
                let ch = if r < self.rows && c < self.cols {
                    self.at(r, c)
                } else {
                    EMPTY
                };
                cells.push(ch);
                proof {
                    assert forall|r2: int, c2: int|
                        0 <= r2 < r && 0 <= c2 < cols implies #[trigger] cells@[r2 * cols + c2]
                        == if self@.in_bounds(r2, c2) {
                        self@.at(r2, c2)
                    } else {
                        EMPTY
                    } by {
                        lemma_flat_index(r as int, cols as int, r2, c2);
                        assert(r2 * cols + c2 < r * cols + c + 1) by (nonlinear_arith)
                            requires
                                0 <= r2 < r,
                                0 <= c2 < cols,
                                0 <= c,
                        ;
                    }
                    assert forall|c2: int| 0 <= c2 < c + 1 implies #[trigger] cells@[r * cols + c2]
                        == if self@.in_bounds(r as int, c2) {
                        self@.at(r as int, c2)
                    } else {
                        EMPTY
                    } by {
                    }
                }
                c = c + 1;
            }
            r = r + 1;
            proof {
                assert(cells@.len() == (r - 1) * cols + cols);
                assert((r - 1) * cols + cols == r as int * cols) by (nonlinear_arith);
            }
        }
        let g = Grid { rows, cols, cells };
        proof {
            assert forall|r2: int, c2: int| g@.in_bounds(r2, c2) implies #[trigger] g@.at(r2, c2)
                == if self@.in_bounds(r2, c2) {
                self@.at(r2, c2)
            } else {
                EMPTY
            } by {
            }
        }
        Ok(g)
    }
}

} // verus!
