use vstd::prelude::*;

use core::ops::Range;

use crate::board::Board;
use crate::board::block_cell_id;
use crate::board::block_digits;
use crate::board::block_id_of;
use crate::board::block_slot_of;
use crate::board::lemma_blocks_partition_cells;
use crate::board::column_digits;
use crate::board::row_digits;
use crate::slice::Slice;
use crate::slice::lemma_place_unused_digit_keeps_unique;
use crate::slice::unique_sudoku_digits;

verus! {

/// The errors of this library. Only constraint violations are produced
/// by the verified operations (out-of-range ids are ruled out by their
/// preconditions); the other variants are kept for loaders and other
/// callers that must reject bad ids or malformed digits as data.
#[derive(Debug)]
pub enum Error {
    IdError { admissible: Range<usize>, actual: usize },
    ValueError { value: u8, expected: String },
    ConstraintError { region: String, slice: Slice },
}

/// The label naming a column region, as reported in a violation
/// (columns are numbered 1 through 9 for human readers).
pub open spec fn column_label(column_id: int) -> Seq<char> {
    if column_id == 0 {
        "column 1"@
    } else if column_id == 1 {
        "column 2"@
    } else if column_id == 2 {
        "column 3"@
    } else if column_id == 3 {
        "column 4"@
    } else if column_id == 4 {
        "column 5"@
    } else if column_id == 5 {
        "column 6"@
    } else if column_id == 6 {
        "column 7"@
    } else if column_id == 7 {
        "column 8"@
    } else {
        "column 9"@
    }
}

/// The label naming a row region (rows are numbered 1 through 9).
pub open spec fn row_label(row_id: int) -> Seq<char> {
    if row_id == 0 {
        "row 1"@
    } else if row_id == 1 {
        "row 2"@
    } else if row_id == 2 {
        "row 3"@
    } else if row_id == 3 {
        "row 4"@
    } else if row_id == 4 {
        "row 5"@
    } else if row_id == 5 {
        "row 6"@
    } else if row_id == 6 {
        "row 7"@
    } else if row_id == 7 {
        "row 8"@
    } else {
        "row 9"@
    }
}

/// The label naming a block region by its vertical and horizontal
/// position on the board.
pub open spec fn block_label(block_id: int) -> Seq<char> {
    if block_id == 0 {
        "block top-left"@
    } else if block_id == 1 {
        "block top-center"@
    } else if block_id == 2 {
        "block top-right"@
    } else if block_id == 3 {
        "block middle-left"@
    } else if block_id == 4 {
        "block middle-center"@
    } else if block_id == 5 {
        "block middle-right"@
    } else if block_id == 6 {
        "block bottom-left"@
    } else if block_id == 7 {
        "block bottom-center"@
    } else {
        "block bottom-right"@
    }
}

fn column_region_name(column_id: usize) -> (r: String)
    requires
        column_id < 9,
    ensures
        r@ == column_label(column_id as int),
{
    let s: &str = match column_id {
        0 => "column 1",
        1 => "column 2",
        2 => "column 3",
        3 => "column 4",
        4 => "column 5",
        5 => "column 6",
        6 => "column 7",
        7 => "column 8",
        _ => "column 9",
    };
    s.to_owned()
}

fn row_region_name(row_id: usize) -> (r: String)
    requires
        row_id < 9,
    ensures
        r@ == row_label(row_id as int),
{
    let s: &str = match row_id {
        0 => "row 1",
        1 => "row 2",
        2 => "row 3",
        3 => "row 4",
        4 => "row 5",
        5 => "row 6",
        6 => "row 7",
        7 => "row 8",
        _ => "row 9",
    };
    s.to_owned()
}

fn block_region_name(block_id: usize) -> (r: String)
    requires
        block_id < 9,
    ensures
        r@ == block_label(block_id as int),
{
    let s: &str = match block_id {
        0 => "block top-left",
        1 => "block top-center",
        2 => "block top-right",
        3 => "block middle-left",
        4 => "block middle-center",
        5 => "block middle-right",
        6 => "block bottom-left",
        7 => "block bottom-center",
        _ => "block bottom-right",
    };
    s.to_owned()
}

/// The first `n` columns of board `b` each satisfy the uniqueness
/// constraint.
pub open spec fn columns_valid_to(b: Seq<u8>, n: int) -> bool {
    forall|id: int| 0 <= id < n ==> unique_sudoku_digits(#[trigger] column_digits(b, id))
}

/// The first `n` rows of board `b` each satisfy the uniqueness
/// constraint.
pub open spec fn rows_valid_to(b: Seq<u8>, n: int) -> bool {
    forall|id: int| 0 <= id < n ==> unique_sudoku_digits(#[trigger] row_digits(b, id))
}

/// The first `n` blocks of board `b` each satisfy the uniqueness
/// constraint.
pub open spec fn blocks_valid_to(b: Seq<u8>, n: int) -> bool {
    forall|id: int| 0 <= id < n ==> unique_sudoku_digits(#[trigger] block_digits(b, id))
}

/// Every column, row, and block of board `b` satisfies the Sudoku
/// uniqueness constraint.
pub open spec fn board_valid(b: Seq<u8>) -> bool {
    columns_valid_to(b, 9) && rows_valid_to(b, 9) && blocks_valid_to(b, 9)
}

/// `e` reports exactly the first violated region of board `b`, in the
/// fixed checking order: columns 0 through 8, then rows 0 through 8,
/// then blocks 0 through 8. The error carries the region's label and a
/// snapshot of its nine cells.
pub open spec fn reports_first_violation(b: Seq<u8>, e: Error) -> bool {
    &&& e matches Error::ConstraintError { region, slice } && ({
        ||| (exists|c: int| #![auto]
            0 <= c < 9 && columns_valid_to(b, c) && !unique_sudoku_digits(column_digits(b, c))
                && region@ == column_label(c) && slice@ == column_digits(b, c))
        ||| (columns_valid_to(b, 9) && exists|r: int| #![auto]
            0 <= r < 9 && rows_valid_to(b, r) && !unique_sudoku_digits(row_digits(b, r))
                && region@ == row_label(r) && slice@ == row_digits(b, r))
        ||| (columns_valid_to(b, 9) && rows_valid_to(b, 9) && exists|k: int| #![auto]
            0 <= k < 9 && blocks_valid_to(b, k) && !unique_sudoku_digits(block_digits(b, k))
                && region@ == block_label(k) && slice@ == block_digits(b, k))
    })
}

/// Digit `v` may be placed at `cell_id`: it is absent from the cell's
/// column, from its row, and from the block that contains the cell.
pub open spec fn candidate_admissible(b: Seq<u8>, cell_id: int, v: u8) -> bool {
    &&& !column_digits(b, cell_id % 9).contains(v)
    &&& !row_digits(b, cell_id / 9).contains(v)
    &&& !block_digits(b, block_id_of(cell_id)).contains(v)
}

/// The admissible (cell, digit) pairs for cell `cell_id` with candidate
/// digits `v` through 9, in ascending digit order.
pub open spec fn cell_moves(b: Seq<u8>, cell_id: int, v: int) -> Seq<(int, u8)>
    decreases 10 - v,
{
    if v < 1 || v > 9 {
        Seq::empty()
    } else {
        let rest = cell_moves(b, cell_id, v + 1);
        if candidate_admissible(b, cell_id, v as u8) {
            seq![(cell_id, v as u8)] + rest
        } else {
            rest
        }
    }
}

/// The admissible (cell, digit) pairs over all unassigned cells from
/// `cell_id` up, in ascending cell order, digits ascending within a cell.
pub open spec fn moves_from(b: Seq<u8>, cell_id: int) -> Seq<(int, u8)>
    decreases 81 - cell_id,
{
    if cell_id < 0 || cell_id >= 81 {
        Seq::empty()
    } else {
        let here = if b[cell_id] == 0 {
            cell_moves(b, cell_id, 1)
        } else {
            Seq::empty()
        };
        here + moves_from(b, cell_id + 1)
    }
}

/// All admissible one-step moves of board `b`, in the fixed order:
/// ascending unassigned cell index, then ascending candidate digit.
pub open spec fn possible_moves(b: Seq<u8>) -> Seq<(int, u8)> {
    moves_from(b, 0)
}

proof fn lemma_cell_moves_facts(b: Seq<u8>, cell_id: int, v: int)
    requires
        1 <= v <= 10,
    ensures
        cell_moves(b, cell_id, v).len() <= 10 - v,
        forall|i: int| 0 <= i < cell_moves(b, cell_id, v).len()
            ==> (#[trigger] cell_moves(b, cell_id, v)[i]).0 == cell_id && 1 <= cell_moves(
                b,
                cell_id,
                v,
            )[i].1 <= 9 && candidate_admissible(b, cell_id, cell_moves(b, cell_id, v)[i].1),
    decreases 10 - v,
{
    if v <= 9 {
        lemma_cell_moves_facts(b, cell_id, v + 1);
    }
}

/// Every generated move names an unassigned cell in range and an
/// admissible digit 1 through 9, and a cell offers at most 9 moves.
pub proof fn lemma_moves_facts(b: Seq<u8>, cell_id: int)
    requires
        0 <= cell_id <= 81,
    ensures
        moves_from(b, cell_id).len() <= 9 * (81 - cell_id),
        forall|i: int| 0 <= i < moves_from(b, cell_id).len()
            ==> 0 <= (#[trigger] moves_from(b, cell_id)[i]).0 < 81 && b[moves_from(
                b,
                cell_id,
            )[i].0] == 0 && 1 <= moves_from(b, cell_id)[i].1 <= 9 && candidate_admissible(
                b,
                moves_from(b, cell_id)[i].0,
                moves_from(b, cell_id)[i].1,
            ),
    decreases 81 - cell_id,
{
    if cell_id < 81 {
        lemma_moves_facts(b, cell_id + 1);
        lemma_cell_moves_facts(b, cell_id, 1);
    }
}

/// Placing an admissible digit on an unassigned cell of a valid board
/// yields a valid board: only the cell's own column, row, and block
/// change, and each gains a digit it lacked.
pub proof fn lemma_admissible_move_preserves_validity(b: Seq<u8>, cell_id: int, v: u8)
    requires
        b.len() == 81,
        0 <= cell_id < 81,
        b[cell_id] == 0,
        1 <= v <= 9,
        candidate_admissible(b, cell_id, v),
        board_valid(b),
    ensures
        board_valid(b.update(cell_id, v)),
{
    let nb = b.update(cell_id, v);
    let col = cell_id % 9;
    let row = cell_id / 9;
    let blk = block_id_of(cell_id);
    lemma_blocks_partition_cells();
    assert(cell_id == row * 9 + col);

    assert forall|id: int| 0 <= id < 9 implies unique_sudoku_digits(
        #[trigger] column_digits(nb, id),
    ) by {
        if id == col {
            assert(column_digits(nb, id) =~= column_digits(b, id).update(row, v));
            lemma_place_unused_digit_keeps_unique(column_digits(b, id), row, v);
        } else {
            assert(column_digits(nb, id) =~= column_digits(b, id));
        }
    };
    assert forall|id: int| 0 <= id < 9 implies unique_sudoku_digits(
        #[trigger] row_digits(nb, id),
    ) by {
        if id == row {
            assert(row_digits(nb, id) =~= row_digits(b, id).update(col, v));
            lemma_place_unused_digit_keeps_unique(row_digits(b, id), col, v);
        } else {
            assert(row_digits(nb, id) =~= row_digits(b, id));
        }
    };
    assert forall|id: int| 0 <= id < 9 implies unique_sudoku_digits(
        #[trigger] block_digits(nb, id),
    ) by {
        let slot = block_slot_of(cell_id);
        if id == blk {
            assert(block_cell_id(blk, slot) == cell_id);
            assert forall|k: int| 0 <= k < 9 && k != slot implies block_cell_id(id, k)
                != cell_id by {
                assert(block_slot_of(block_cell_id(id, k)) == k);
            };
            assert(block_digits(nb, id) =~= block_digits(b, id).update(slot, v));
            lemma_place_unused_digit_keeps_unique(block_digits(b, id), slot, v);
        } else {
            assert forall|k: int| 0 <= k < 9 implies block_cell_id(id, k) != cell_id by {
                assert(block_id_of(block_cell_id(id, k)) == id);
            };
            assert(block_digits(nb, id) =~= block_digits(b, id));
        }
    };
}

/// Move generation preserves validity: every board the move generator
/// offers for a valid board passes verification itself.
pub proof fn lemma_moves_preserve_validity(b: Seq<u8>)
    requires
        b.len() == 81,
        board_valid(b),
    ensures
        forall|i: int| 0 <= i < possible_moves(b).len() ==> board_valid(
            b.update((#[trigger] possible_moves(b)[i]).0, possible_moves(b)[i].1),
        ),
{
    lemma_moves_facts(b, 0);
    assert forall|i: int| 0 <= i < possible_moves(b).len() implies board_valid(
        b.update((#[trigger] possible_moves(b)[i]).0, possible_moves(b)[i].1),
    ) by {
        let m = possible_moves(b)[i];
        lemma_admissible_move_preserves_validity(b, m.0, m.1);
    };
}

/// One Sudoku game: wraps exactly one current board.
#[derive(Clone, Copy, Debug)]
pub struct Sudoku {
    pub board: Board,
}

impl View for Sudoku {
    type V = Seq<u8>;

    /// The 81 digits of the current board, in row-major order.
    open spec fn view(&self) -> Seq<u8> {
        self.board@
    }
}

impl Sudoku {
    /// Make the given board the current one (copied, not aliased).
    pub fn init_board(&mut self, board: &Board)
        ensures
            final(self)@ == board@,
    {
        self.board = *board;
    }

    /// Load the current board from 81 digits in row-major order.
    pub fn init_board_values(&mut self, values: &[u8; 81])
        ensures
            final(self)@ == values@,
    {
        self.board = Board::from_flattened_values(values);
    }

    /// The board currently active in this game.
    pub fn board(&self) -> (r: &Board)
        ensures
            r@ == self@,
    {
        &self.board
    }

    /// Check every column, then every row, then every block for the
    /// Sudoku uniqueness constraint; succeed iff all pass, and report
    /// the first violated region otherwise.
    pub fn verify_board(&self) -> (r: Result<(), Error>)
        ensures
            r is Ok <==> board_valid(self@),
            r matches Err(e) ==> reports_first_violation(self@, e),
    {
        let mut column_id: usize = 0;
        while column_id < 9
            invariant
                column_id <= 9,
                columns_valid_to(self@, column_id as int),
            decreases 9 - column_id,
        {
            let col = self.board.column(column_id);
            if !col.has_unique_sudoku_values() {
                return Err(
                    Error::ConstraintError { region: column_region_name(column_id), slice: col },
                );
            }
            column_id += 1;
        }

        let mut row_id: usize = 0;
        while row_id < 9
            invariant
                row_id <= 9,
                columns_valid_to(self@, 9),
                rows_valid_to(self@, row_id as int),
            decreases 9 - row_id,
        {
            let row = self.board.row(row_id);
            if !row.has_unique_sudoku_values() {
                return Err(
                    Error::ConstraintError { region: row_region_name(row_id), slice: row },
                );
            }
            row_id += 1;
        }

        let mut block_id: usize = 0;
        while block_id < 9
            invariant
                block_id <= 9,
                columns_valid_to(self@, 9),
                rows_valid_to(self@, 9),
                blocks_valid_to(self@, block_id as int),
            decreases 9 - block_id,
        {
            let block = self.board.block(block_id);
            if !block.has_unique_sudoku_values() {
                return Err(
                    Error::ConstraintError { region: block_region_name(block_id), slice: block },
                );
            }
            block_id += 1;
        }

        Ok(())
    }

    /// Is every cell assigned? A finished board need not be valid:
    /// callers that want a solved board must also check `verify_board`.
    pub fn finished(&self) -> (r: bool)
        ensures
            r <==> (forall|i: int| 0 <= i < 81 ==> self@[i] != 0),
    {
        let unassigned = self.board.unassigned();
        let r = unassigned.is_empty();
        proof {
            if unassigned@.len() > 0 {
                assert(self@[unassigned@[0] as int] == 0);
            } else {
                assert forall|i: int| 0 <= i < 81 implies self@[i] != 0 by {
                    if self@[i] == 0 {
                        assert(unassigned@.contains(i as usize));
                    }
                };
            }
        }
        r
    }

    /// All one-step candidate moves of the current board: for every
    /// unassigned cell, ascending, and every digit 1 through 9,
    /// ascending, each admissible (cell, digit) pair paired with the
    /// board that results from placing that digit there.
    pub fn next_possible_moves(&self) -> (r: Vec<(usize, Board)>)
        ensures
            r@.len() == possible_moves(self@).len(),
            forall|i: int| #![trigger r@[i]] 0 <= i < r@.len() ==> {
                let m = possible_moves(self@)[i];
                &&& r@[i].0 == m.0
                &&& 0 <= m.0 < 81
                &&& 1 <= m.1 <= 9
                &&& self@[m.0] == 0
                &&& candidate_admissible(self@, m.0, m.1)
                &&& r@[i].1@ == self@.update(m.0, m.1)
            },
    {
        let b = &self.board;
        let ghost bb = self@;
        let mut moves: Vec<(usize, Board)> = Vec::new();
        let ghost mut done: Seq<(int, u8)> = Seq::empty();
        proof {
            assert(possible_moves(bb) =~= done + moves_from(bb, 0));
        }
        let mut cell_id: usize = 0;
        while cell_id < 81
            invariant
                cell_id <= 81,
                bb == self@,
                b@ == bb,
                possible_moves(bb) == done + moves_from(bb, cell_id as int),
                moves@.len() == done.len(),
                forall|i: int| #![auto] 0 <= i < done.len() ==> {
                    &&& moves@[i].0 == done[i].0
                    &&& 0 <= done[i].0 < 81
                    &&& 1 <= done[i].1 <= 9
                    &&& bb[done[i].0] == 0
                    &&& candidate_admissible(bb, done[i].0, done[i].1)
                    &&& moves@[i].1@ == bb.update(done[i].0, done[i].1)
                },
            decreases 81 - cell_id,
        {
            let ghost cid = cell_id as int;
            if b.index(cell_id).0 == 0 {
                proof {
                    assert(moves_from(bb, cid) == cell_moves(bb, cid, 1) + moves_from(bb, cid + 1));
                    assert(done + (cell_moves(bb, cid, 1) + moves_from(bb, cid + 1)) =~= done
                        + cell_moves(bb, cid, 1) + moves_from(bb, cid + 1));
                }
                let mut v: u8 = 1;
                while v <= 9
                    invariant
                        1 <= v <= 10,
                        cell_id < 81,
                        cid == cell_id as int,
                        bb == self@,
                        b@ == bb,
                        bb[cid] == 0,
                        possible_moves(bb) == done + cell_moves(bb, cid, v as int) + moves_from(
                            bb,
                            cid + 1,
                        ),
                        moves@.len() == done.len(),
                        forall|i: int| #![auto] 0 <= i < done.len() ==> {
                            &&& moves@[i].0 == done[i].0
                            &&& 0 <= done[i].0 < 81
                            &&& 1 <= done[i].1 <= 9
                            &&& bb[done[i].0] == 0
                            &&& candidate_admissible(bb, done[i].0, done[i].1)
                            &&& moves@[i].1@ == bb.update(done[i].0, done[i].1)
                        },
                    decreases 10 - v,
                {
                    let col = b.column(cell_id % 9);
                    let row = b.row(cell_id / 9);
                    let block_id = (cell_id / 27) * 3 + (cell_id % 9) / 3;
                    assert(block_id as int == block_id_of(cid));
                    assert(block_id < 9);
                    let block = b.block(block_id);
                    let admissible = !col.has(v) && !row.has(v) && !block.has(v);
                    proof {
                        assert(admissible == candidate_admissible(bb, cid, v));
                        assert(cell_moves(bb, cid, v as int) == if candidate_admissible(bb, cid, v) {
                            seq![(cid, v)] + cell_moves(bb, cid, v as int + 1)
                        } else {
                            cell_moves(bb, cid, v as int + 1)
                        });
                    }
                    if admissible {
                        let next = b.replace_cell(cell_id, v);
                        moves.push((cell_id, next));
                        proof {
                            let prev = done;
                            done = done + seq![(cid, v)];
                            assert(done[done.len() - 1] == (cid, v));
                            assert(prev + (seq![(cid, v)] + cell_moves(bb, cid, v as int + 1))
                                =~= done + cell_moves(bb, cid, v as int + 1));
                            assert(prev + (seq![(cid, v)] + cell_moves(bb, cid, v as int + 1))
                                + moves_from(bb, cid + 1) =~= done + cell_moves(bb, cid, v as int + 1)
                                + moves_from(bb, cid + 1));
                            assert(possible_moves(bb) =~= done + cell_moves(bb, cid, v as int + 1)
                                + moves_from(bb, cid + 1));
                        }
                    }
                    v += 1;
                }
                proof {
                    assert(cell_moves(bb, cid, 10) =~= Seq::<(int, u8)>::empty());
                    assert(done + cell_moves(bb, cid, 10) =~= done);
                    assert(possible_moves(bb) =~= done + moves_from(bb, cid + 1));
                }
            } else {
                proof {
                    assert(moves_from(bb, cid) == moves_from(bb, cid + 1));
                }
            }
            cell_id += 1;
        }
        proof {
            assert(moves_from(bb, 81) =~= Seq::<(int, u8)>::empty());
            assert(possible_moves(bb) =~= done);
        }
        moves
    }
}

impl Default for Sudoku {
    /// A fresh game over the empty (all-unassigned) board.
    fn default() -> (r: Self)
        ensures
            r@.len() == 81,
            forall|i: int| 0 <= i < 81 ==> r@[i] == 0,
    {
        Sudoku { board: Board::default() }
    }
}

} // verus!
