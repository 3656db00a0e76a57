use vstd::prelude::*;

use crate::cell::Cell;
use crate::slice::Slice;

verus! {

/// The flat index of position `k` of row `row_id` (row-major layout).
pub open spec fn row_cell_id(row_id: int, k: int) -> int {
    row_id * 9 + k
}

/// The flat index of position `k` of column `column_id`.
pub open spec fn column_cell_id(column_id: int, k: int) -> int {
    k * 9 + column_id
}

/// The flat index of the top-left cell of block `block_id`
/// (blocks are numbered 0 through 8 in row-major block order).
pub open spec fn block_base(block_id: int) -> int {
    (block_id / 3) * 27 + (block_id % 3) * 3
}

/// The flat index of position `k` of block `block_id`, walking the
/// block's three rows top to bottom, each left to right.
pub open spec fn block_cell_id(block_id: int, k: int) -> int {
    block_base(block_id) + (k / 3) * 9 + k % 3
}

/// The block that cell `cell_id` belongs to.
pub open spec fn block_id_of(cell_id: int) -> int {
    (cell_id / 27) * 3 + (cell_id % 9) / 3
}

/// The position of cell `cell_id` inside its block.
pub open spec fn block_slot_of(cell_id: int) -> int {
    ((cell_id / 9) % 3) * 3 + cell_id % 3
}

/// The nine digits of row `row_id` of the flat board `b`.
pub open spec fn row_digits(b: Seq<u8>, row_id: int) -> Seq<u8> {
    Seq::new(9, |k: int| b[row_cell_id(row_id, k)])
}

/// The nine digits of column `column_id` of the flat board `b`.
pub open spec fn column_digits(b: Seq<u8>, column_id: int) -> Seq<u8> {
    Seq::new(9, |k: int| b[column_cell_id(column_id, k)])
}

/// The nine digits of block `block_id` of the flat board `b`.
pub open spec fn block_digits(b: Seq<u8>, block_id: int) -> Seq<u8> {
    Seq::new(9, |k: int| b[block_cell_id(block_id, k)])
}

/// The nine blocks partition the 81 cells: every block position names a
/// cell, the two mappings `block_cell_id` and `(block_id_of, block_slot_of)`
/// invert each other, and so every cell lies in exactly one block, at
/// exactly one position.
pub proof fn lemma_blocks_partition_cells()
    ensures
        forall|id: int, k: int| 0 <= id < 9 && 0 <= k < 9
            ==> 0 <= #[trigger] block_cell_id(id, k) < 81,
        forall|id: int, k: int| 0 <= id < 9 && 0 <= k < 9
            ==> block_id_of(#[trigger] block_cell_id(id, k)) == id
                && block_slot_of(block_cell_id(id, k)) == k,
        forall|c: int| 0 <= c < 81
            ==> 0 <= #[trigger] block_id_of(c) < 9 && 0 <= block_slot_of(c) < 9
                && block_cell_id(block_id_of(c), block_slot_of(c)) == c,
{
    assert forall|id: int, k: int| 0 <= id < 9 && 0 <= k < 9
        implies 0 <= #[trigger] block_cell_id(id, k) < 81
            && block_id_of(block_cell_id(id, k)) == id
            && block_slot_of(block_cell_id(id, k)) == k by {
        let c = block_cell_id(id, k);
        assert(c == (id / 3) * 27 + (id % 3) * 3 + (k / 3) * 9 + k % 3);
        assert(0 <= c < 81) by (nonlinear_arith)
            requires c == (id / 3) * 27 + (id % 3) * 3 + (k / 3) * 9 + k % 3 && 0 <= id < 9 && 0 <= k < 9;
        assert(c / 27 == id / 3 && (c % 9) / 3 == id % 3 && (c / 9) % 3 == k / 3 && c % 3 == k % 3)
            by (nonlinear_arith)
            requires c == (id / 3) * 27 + (id % 3) * 3 + (k / 3) * 9 + k % 3 && 0 <= id < 9 && 0 <= k < 9;
        assert(id == (id / 3) * 3 + id % 3 && k == (k / 3) * 3 + k % 3) by (nonlinear_arith)
            requires 0 <= id < 9 && 0 <= k < 9;
    };
    assert forall|c: int| 0 <= c < 81
        implies 0 <= #[trigger] block_id_of(c) < 9 && 0 <= block_slot_of(c) < 9
            && block_cell_id(block_id_of(c), block_slot_of(c)) == c by {
        let id = block_id_of(c);
        let k = block_slot_of(c);
        assert(0 <= id < 9 && 0 <= k < 9) by (nonlinear_arith)
            requires id == (c / 27) * 3 + (c % 9) / 3 && k == ((c / 9) % 3) * 3 + c % 3 && 0 <= c < 81;
        assert((id / 3) * 27 + (id % 3) * 3 + (k / 3) * 9 + k % 3 == c) by (nonlinear_arith)
            requires id == (c / 27) * 3 + (c % 9) / 3 && k == ((c / 9) % 3) * 3 + c % 3 && 0 <= c < 81;
    };
}

/// The board: 81 cells in row-major order, addressed by a flat index
/// 0 through 80 or by a (row, column) pair. A board is a value type:
/// every derivation (row, column, block, cell replacement) yields an
/// independent copy, never an alias into the original.
#[derive(Clone, Copy, Debug)]
pub struct Board {
    pub cells: [Cell; 81],
}

impl View for Board {
    type V = Seq<u8>;

    /// The 81 digits of the board, in row-major order.
    open spec fn view(&self) -> Seq<u8> {
        self.cells@.map_values(|c: Cell| c.0)
    }
}

impl Board {
    /// Build a board by copying 81 digits given in row-major order.
    pub fn from_flattened_values(values: &[u8; 81]) -> (r: Board)
        ensures
            r@ == values@,
    {
        let mut new_cells = [Cell(0); 81];
        let mut i: usize = 0;
        while i < 81
            invariant
                i <= 81,
                forall|k: int| 0 <= k < i ==> new_cells@[k].0 == values@[k],
            decreases 81 - i,
        {
            new_cells[i] = Cell(values[i]);
            i += 1;
        }
        let r = Board { cells: new_cells };
        proof {
            assert(r@ =~= values@);
        }
        r
    }

    /// Build a board from nine rows of nine digits each; row `r`,
    /// column `c` of the input lands at flat index `r * 9 + c`.
    pub fn from_values_per_row(values: &[[u8; 9]; 9]) -> (r: Board)
        ensures
            r@.len() == 81,
            forall|row: int, col: int| 0 <= row < 9 && 0 <= col < 9
                ==> r@[row * 9 + col] == #[trigger] values@[row]@[col],
    {
        let mut new_cells = [Cell(0); 81];
        let mut row_id: usize = 0;
        while row_id < 9
            invariant
                row_id <= 9,
                forall|row: int, col: int| 0 <= row < row_id && 0 <= col < 9
                    ==> new_cells@[row * 9 + col].0 == #[trigger] values@[row]@[col],
            decreases 9 - row_id,
        {
            let mut column_id: usize = 0;
            while column_id < 9
                invariant
                    row_id < 9,
                    column_id <= 9,
                    forall|row: int, col: int| 0 <= row < row_id && 0 <= col < 9
                        ==> new_cells@[row * 9 + col].0 == #[trigger] values@[row]@[col],
                    forall|col: int| 0 <= col < column_id
                        ==> new_cells@[row_id * 9 + col].0 == #[trigger] values@[row_id as int]@[col],
                decreases 9 - column_id,
            {
                new_cells[row_id * 9 + column_id] = Cell(values[row_id][column_id]);
                column_id += 1;
            }
            row_id += 1;
        }
        Board { cells: new_cells }
    }

    /// The cell at flat index `cell_id`.
    pub fn index(&self, cell_id: usize) -> (r: Cell)
        requires
            cell_id < 81,
        ensures
            r.0 == self@[cell_id as int],
    {
        self.cells[cell_id]
    }

    /// The cell at the given zero-based row and column.
    pub fn index_by_row_and_col(&self, row: usize, col: usize) -> (r: Cell)
        requires
            row < 9,
            col < 9,
        ensures
            r.0 == self@[row_cell_id(row as int, col as int)],
    {
        self.cells[row * 9 + col]
    }

    /// The flat indices of all unassigned cells (digit 0), ascending.
    pub fn unassigned(&self) -> (r: Vec<usize>)
        ensures
            forall|k: int| 0 <= k < r@.len() ==> #[trigger] r@[k] < 81 && self@[r@[k] as int] == 0,
            forall|i: int| 0 <= i < 81 && self@[i] == 0 ==> r@.contains(i as usize),
            forall|k1: int, k2: int| 0 <= k1 < k2 < r@.len() ==> r@[k1] < r@[k2],
    {
        let mut unassigned: Vec<usize> = Vec::new();
        let mut cell_id: usize = 0;
        while cell_id < 81
            invariant
                cell_id <= 81,
                forall|k: int| 0 <= k < unassigned@.len()
                    ==> #[trigger] unassigned@[k] < 81 && self@[unassigned@[k] as int] == 0,
                forall|i: int| 0 <= i < cell_id && self@[i] == 0 ==> unassigned@.contains(i as usize),
                forall|k: int| 0 <= k < unassigned@.len() ==> #[trigger] unassigned@[k] < cell_id,
                forall|k1: int, k2: int| 0 <= k1 < k2 < unassigned@.len()
                    ==> unassigned@[k1] < unassigned@[k2],
            decreases 81 - cell_id,
        {
            let ghost pre = unassigned@;
            if self.cells[cell_id].0 == 0 {
                unassigned.push(cell_id);
                proof {
                    assert(unassigned@[unassigned@.len() - 1] == cell_id);
                    assert forall|i: int| 0 <= i < cell_id + 1 && self@[i] == 0
                        implies unassigned@.contains(i as usize) by {
                        if i < cell_id {
                            assert(pre.contains(i as usize));
                            let k = choose|k: int| 0 <= k < pre.len() && pre[k] == i as usize;
                            assert(unassigned@[k] == i as usize);
                        }
                    };
                }
            }
            cell_id += 1;
        }
        unassigned
    }

    /// A snapshot of block `block_id` (0 = top-left, 8 = bottom-right).
    pub fn block(&self, block_id: usize) -> (r: Slice)
        requires
            block_id < 9,
        ensures
            r@ == block_digits(self@, block_id as int),
    {
        let base: usize = match block_id {
            0 => 0,
            1 => 3,
            2 => 6,
            3 => 27,
            4 => 30,
            5 => 33,
            6 => 54,
            7 => 57,
            _ => 60,
        };
        assert(base == block_base(block_id as int));
        let mut block = Slice::default();
        let mut k: usize = 0;
        while k < 9
            invariant
                k <= 9,
                block_id < 9,
                base == block_base(block_id as int),
                block@.len() == 9,
                forall|p: int| 0 <= p < k ==> block@[p] == block_digits(self@, block_id as int)[p],
            decreases 9 - k,
        {
            let cell_id = base + (k / 3) * 9 + k % 3;
            assert(cell_id == block_cell_id(block_id as int, k as int));
            assert(cell_id < 81);
            block.set(k, self.cells[cell_id]);
            k += 1;
        }
        proof {
            assert(block@ =~= block_digits(self@, block_id as int));
        }
        block
    }

    /// A snapshot of row `row_id`.
    pub fn row(&self, row_id: usize) -> (r: Slice)
        requires
            row_id < 9,
        ensures
            r@ == row_digits(self@, row_id as int),
    {
        let mut row = Slice::default();
        let mut column_id: usize = 0;
        while column_id < 9
            invariant
                column_id <= 9,
                row_id < 9,
                row@.len() == 9,
                forall|p: int| 0 <= p < column_id ==> row@[p] == row_digits(self@, row_id as int)[p],
            decreases 9 - column_id,
        {
            row.set(column_id, self.cells[row_id * 9 + column_id]);
            column_id += 1;
        }
        proof {
            assert(row@ =~= row_digits(self@, row_id as int));
        }
        row
    }

    /// A snapshot of column `column_id`.
    pub fn column(&self, column_id: usize) -> (r: Slice)
        requires
            column_id < 9,
        ensures
            r@ == column_digits(self@, column_id as int),
    {
        let mut column = Slice::default();
        let mut row_id: usize = 0;
        while row_id < 9
            invariant
                row_id <= 9,
                column_id < 9,
                column@.len() == 9,
                forall|p: int| 0 <= p < row_id
                    ==> column@[p] == column_digits(self@, column_id as int)[p],
            decreases 9 - row_id,
        {
            column.set(row_id, self.cells[row_id * 9 + column_id]);
            row_id += 1;
        }
        proof {
            assert(column@ =~= column_digits(self@, column_id as int));
        }
        column
    }

    /// A new board identical to this one except that cell `cell_id`
    /// now holds `value`; the receiver is untouched.
    pub fn replace_cell(&self, cell_id: usize, value: u8) -> (r: Board)
        requires
            cell_id < 81,
        ensures
            r@ == self@.update(cell_id as int, value),
    {
        let mut b = *self;
        b.cells[cell_id] = Cell(value);
        proof {
            assert(b@ =~= self@.update(cell_id as int, value));
        }
        b
    }
}

impl Default for Board {
    /// The empty board: all 81 cells unassigned.
    fn default() -> (r: Self)
        ensures
            r@.len() == 81,
            forall|i: int| 0 <= i < 81 ==> r@[i] == 0,
    {
        // At this length the repeat expression leaves the array's
        // contents opaque to the proofs; write each cell so all 81
        // are known to be zero.
        let mut cells = [Cell(0); 81];
        let mut i: usize = 0;
        while i < 81
            invariant
                i <= 81,
                forall|k: int| 0 <= k < i ==> cells@[k].0 == 0,
            decreases 81 - i,
        {
            cells[i] = Cell(0);
            i += 1;
        }
        Board { cells }
    }
}

} // verus!
