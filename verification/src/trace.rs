//! The trace table: one row of real values, padded with zero rows.

use crate::layout::TRACE_HEIGHT;
use vstd::prelude::*;

verus! {

/// A row of `width` zeros.
pub open spec fn zero_row(width: nat) -> Seq<u32> {
    Seq::new(width, |c: int| 0u32)
}

/// The rows of the table whose first row is `row`: `row` itself, then zero
/// rows up to `TRACE_HEIGHT`.
pub open spec fn padded_rows(row: Seq<u32>) -> Seq<Seq<u32>> {
    Seq::new(TRACE_HEIGHT as nat, |r: int| if r == 0 { row } else { zero_row(row.len()) })
}

/// The cells of that table in row-major order.
pub open spec fn padded_cells(row: Seq<u32>) -> Seq<u32> {
    row + zero_row(((TRACE_HEIGHT - 1) * row.len()) as nat)
}

/// A table of `TRACE_HEIGHT` rows of equal width, kept in row-major order.
/// Its view is the sequence of its rows. Row 0 holds the values; every row
/// after it is zero in every column. A table is not changed once built.
pub struct TraceTable {
    values: Vec<u32>,
    width: usize,
}

impl View for TraceTable {
    type V = Seq<Seq<u32>>;

    closed spec fn view(&self) -> Seq<Seq<u32>> {
        Seq::new(
            TRACE_HEIGHT as nat,
            |r: int| self.values@.subrange(r * self.width, (r + 1) * self.width),
        )
    }
}

impl TraceTable {
    #[verifier::type_invariant]
    spec fn well_formed(&self) -> bool {
        &&& self.width >= 1
        &&& TRACE_HEIGHT * self.width <= usize::MAX
        &&& self.values@.len() == TRACE_HEIGHT * self.width
        &&& forall|i: int| self.width <= i < self.values@.len() ==> self.values@[i] == 0
    }

    /// The cells in row-major order.
    pub closed spec fn cells(&self) -> Seq<u32> {
        self.values@
    }

    /// Row `r` of a well-formed table lies inside its cells.
    proof fn lemma_row_bounds(&self, r: int)
        requires
            self.well_formed(),
            0 <= r < TRACE_HEIGHT,
        ensures
            0 <= r * self.width,
            (r + 1) * self.width == r * self.width + self.width,
            (r + 1) * self.width <= self.values@.len(),
            self@[r].len() == self.width,
            self@[0].len() == self.width,
            r >= 1 ==> self@[r] == zero_row(self.width as nat),
    {
        let w = self.width as int;
        assert(0 <= r * w && (r + 1) * w == r * w + w && (r + 1) * w <= 4 * w) by (nonlinear_arith)
            requires
                0 <= r < 4,
                0 <= w,
        ;
        if r >= 1 {
            assert(r * w >= w) by (nonlinear_arith)
                requires
                    r >= 1,
                    w >= 0,
            ;
            assert(self@[r] =~= zero_row(self.width as nat));
        }
        assert(0 * w == 0 && (0 + 1) * w == w) by (nonlinear_arith);
    }

    /// Builds the table whose row 0 is `row` and whose other rows are zero.
    pub fn from_first_row(row: Vec<u32>) -> (table: TraceTable)
        requires
            1 <= row.len(),
            TRACE_HEIGHT * row.len() <= usize::MAX,
        ensures
            table@ == padded_rows(row@),
            table.cells() == padded_cells(row@),
            table@[0] == row@,
            forall|r: int, c: int|
                1 <= r < TRACE_HEIGHT && 0 <= c < row.len() ==> table@[r][c] == 0,
    {
        let width: usize = row.len();
        let ghost first = row@;
        let mut values: Vec<u32> = row;
        let padding: usize = (TRACE_HEIGHT - 1) * width;
        let mut filled: usize = 0;
        while filled < padding
            invariant
                filled <= padding,
                padding == (TRACE_HEIGHT - 1) * width,
                width == first.len(),
                values@ == first + zero_row(filled as nat),
            decreases padding - filled,
        {
            values.push(0);
            filled = filled + 1;
            assert(values@ =~= first + zero_row(filled as nat));
        }
        let table = TraceTable { values, width };
        proof {
            assert forall|r: int| 0 <= r < TRACE_HEIGHT implies #[trigger] table@[r] == padded_rows(
                first,
            )[r] by {
                assert(r * width + width == (r + 1) * width) by (nonlinear_arith);
                assert(table@[r] =~= padded_rows(first)[r]);
            }
            assert(table@ =~= padded_rows(first));
        }
        table
    }

    /// Number of columns.
    pub fn width(&self) -> (width: usize)
        ensures
            width == self@[0].len(),
            width >= 1,
    {
        proof {
            use_type_invariant(self);
        }
        self.width
    }

    /// Number of rows.
    pub fn height(&self) -> (height: usize)
        ensures
            height == TRACE_HEIGHT,
            height == self@.len(),
    {
        TRACE_HEIGHT
    }

    /// The cell in row `r` and column `c`.
    pub fn get(&self, r: usize, c: usize) -> (cell: u32)
        requires
            r < TRACE_HEIGHT,
            c < self@[0].len(),
        ensures
            cell == self@[r as int][c as int],
            r >= 1 ==> cell == 0,
    {
        proof {
            use_type_invariant(self);
            self.lemma_row_bounds(r as int);
        }
        self.values[r * self.width + c]
    }

    /// A copy of row `r`.
    pub fn row(&self, r: usize) -> (row: Vec<u32>)
        requires
            r < TRACE_HEIGHT,
        ensures
            row@ == self@[r as int],
            row.len() == self@[0].len(),
            r >= 1 ==> row@ == zero_row(self@[0].len()),
    {
        proof {
            use_type_invariant(self);
            self.lemma_row_bounds(r as int);
        }
        let start: usize = r * self.width;
        let mut row: Vec<u32> = Vec::new();
        let mut c: usize = 0;
        while c < self.width
            invariant
                c <= self.width,
                start == r * self.width,
                start + self.width <= self.values@.len(),
                self.values@.len() <= usize::MAX,
                row@ == self.values@.subrange(start as int, start + c),
            decreases self.width - c,
        {
            row.push(self.values[start + c]);
            c = c + 1;
            assert(row@ =~= self.values@.subrange(start as int, start + c));
        }
        row
    }

    /// The cells in row-major order, for handing the table on.
    pub fn into_cells(self) -> (values: Vec<u32>)
        ensures
            values@ == self.cells(),
            values@.len() == TRACE_HEIGHT * self@[0].len(),
            forall|r: int, c: int|
                0 <= r < TRACE_HEIGHT && 0 <= c < self@[0].len() ==> values@[r * self@[0].len() + c]
                    == #[trigger] self@[r][c],
    {
        proof {
            use_type_invariant(&self);
            self.lemma_row_bounds(0);
            assert forall|r: int, c: int|
                0 <= r < TRACE_HEIGHT && 0 <= c < self@[0].len() implies self.values@[r
                * self@[0].len() + c] == #[trigger] self@[r][c] by {
                self.lemma_row_bounds(r);
            }
        }
        self.values
    }
}

} // verus!
