use vstd::prelude::*;

use crate::cell::Cell;

verus! {

/// One row, column, or 3×3 block of the board: an ordered snapshot of
/// exactly 9 cells, copied out of a board and independent of it.
/// A slice does not know which kind of region it came from.
#[derive(Clone, Copy, Debug, PartialEq)]
pub struct Slice(pub [Cell; 9]);

impl View for Slice {
    type V = Seq<u8>;

    /// The digits of the nine cells, in order.
    open spec fn view(&self) -> Seq<u8> {
        self.0@.map_values(|c: Cell| c.0)
    }
}

/// No digit 1 through 9 occurs more than once among the digits `s`;
/// 0 (and any malformed digit) may repeat freely.
pub open spec fn unique_sudoku_digits(s: Seq<u8>) -> bool {
    forall|i: int, j: int| 0 <= i < j < s.len() && 1 <= #[trigger] s[i] <= 9 ==> s[i] != #[trigger] s[j]
}

/// The digits 1 through 9 that occur somewhere in `s`.
pub open spec fn present_sudoku_digits(s: Seq<u8>) -> Set<u8> {
    Set::new(|v: u8| 1 <= v <= 9 && s.contains(v))
}

/// The digits 1 through 9 that occur nowhere in `s`.
pub open spec fn missing_sudoku_digits(s: Seq<u8>) -> Set<u8> {
    Set::new(|v: u8| 1 <= v <= 9 && !s.contains(v))
}

/// All nine placeable Sudoku digits.
pub open spec fn all_sudoku_digits() -> Set<u8> {
    Set::new(|v: u8| 1 <= v <= 9)
}

impl Slice {
    /// Overwrite one of the nine positions.
    pub fn set(&mut self, index: usize, cell: Cell)
        requires
            index < 9,
        ensures
            final(self)@ == old(self)@.update(index as int, cell.0),
    {
        self.0[index] = cell;
        proof {
            assert(final(self)@ =~= old(self)@.update(index as int, cell.0));
        }
    }

    /// The cell at one of the nine positions.
    pub fn get(&self, index: usize) -> (r: Cell)
        requires
            index < 9,
        ensures
            r.0 == self@[index as int],
    {
        self.0[index]
    }

    /// Does some cell of this slice hold the digit `value`?
    pub fn has(&self, value: u8) -> (r: bool)
        ensures
            r == self@.contains(value),
    {
        let mut i: usize = 0;
        while i < 9
            invariant
                i <= 9,
                forall|k: int| 0 <= k < i ==> self@[k] != value,
            decreases 9 - i,
        {
            if self.0[i].0 == value {
                assert(self@[i as int] == value);
                return true;
            }
            i += 1;
        }
        assert(!self@.contains(value));
        false
    }

    /// Does every digit 1 through 9 occur at most once among the cells?
    pub fn has_unique_sudoku_values(&self) -> (r: bool)
        ensures
            r == unique_sudoku_digits(self@),
    {
        let mut i: usize = 0;
        while i < 9
            invariant
                i <= 9,
                forall|p: int, q: int| 0 <= p < q < 9 && p < i && 1 <= #[trigger] self@[p] <= 9
                    ==> self@[p] != #[trigger] self@[q],
            decreases 9 - i,
        {
            let d = self.0[i].0;
            if 1 <= d && d <= 9 {
                let mut j: usize = i + 1;
                while j < 9
                    invariant
                        i < j <= 9,
                        d == self@[i as int],
                        1 <= d <= 9,
                        forall|q: int| i < q < j ==> self@[q] != d,
                    decreases 9 - j,
                {
                    if self.0[j].0 == d {
                        proof {
                            let ii = i as int;
                            let jj = j as int;
                            assert(0 <= ii < jj < 9);
                            assert(1 <= self@[ii] <= 9);
                            assert(self@[jj] == d);
                            assert(!unique_sudoku_digits(self@));
                        }
                        return false;
                    }
                    j += 1;
                }
            }
            i += 1;
        }
        true
    }

    /// The digits 1 through 9 that occur nowhere in this slice,
    /// in ascending order.
    pub fn unused_sudoku_values(&self) -> (r: Vec<u8>)
        ensures
            forall|k: int| 0 <= k < r@.len() ==> missing_sudoku_digits(self@).contains(#[trigger] r@[k]),
            forall|v: u8| missing_sudoku_digits(self@).contains(v) ==> r@.contains(v),
            forall|k1: int, k2: int| 0 <= k1 < k2 < r@.len() ==> r@[k1] < r@[k2],
    {
        let mut unused: Vec<u8> = Vec::new();
        let mut candidate: u8 = 1;
        while candidate <= 9
            invariant
                1 <= candidate <= 10,
                forall|k: int| 0 <= k < unused@.len()
                    ==> missing_sudoku_digits(self@).contains(#[trigger] unused@[k]),
                forall|v: u8| v < candidate && missing_sudoku_digits(self@).contains(v)
                    ==> unused@.contains(v),
                forall|k: int| 0 <= k < unused@.len() ==> #[trigger] unused@[k] < candidate,
                forall|k1: int, k2: int| 0 <= k1 < k2 < unused@.len() ==> unused@[k1] < unused@[k2],
            decreases 10 - candidate,
        {
            let ghost pre = unused@;
            if !self.has(candidate) {
                unused.push(candidate);
                proof {
                    assert(unused@[unused@.len() - 1] == candidate);
                    assert forall|v: u8| v < candidate && missing_sudoku_digits(self@).contains(v)
                        implies unused@.contains(v) by {
                        assert(pre.contains(v));
                        let k = choose|k: int| 0 <= k < pre.len() && pre[k] == v;
                        assert(unused@[k] == v);
                    };
                }
            }
            candidate += 1;
        }
        unused
    }
}

/// A slice that holds one placed digit `d` and zeros everywhere else
/// satisfies the uniqueness predicate, and writing a second `d` into
/// any other position breaks it.
pub proof fn lemma_single_digit_unique(s: Seq<u8>, d: u8, i: int)
    requires
        s.len() == 9,
        1 <= d <= 9,
        0 <= i < 9,
        s[i] == d,
        forall|j: int| 0 <= j < 9 && j != i ==> s[j] == 0,
    ensures
        unique_sudoku_digits(s),
        forall|j: int| 0 <= j < 9 && j != i ==> !unique_sudoku_digits(#[trigger] s.update(j, d)),
{
    assert forall|j: int| 0 <= j < 9 && j != i implies !unique_sudoku_digits(
        #[trigger] s.update(j, d),
    ) by {
        let t = s.update(j, d);
        let p = if i < j { i } else { j };
        let q = if i < j { j } else { i };
        assert(t[p] == d && t[q] == d);
        assert(0 <= p < q < 9);
    };
}

/// Digits outside 1 through 9 — in particular any number of zeros —
/// never affect the uniqueness test: two slices that agree on every
/// position holding a placed digit pass or fail together.
pub proof fn lemma_zeros_never_affect_uniqueness(s1: Seq<u8>, s2: Seq<u8>)
    requires
        s1.len() == 9,
        s2.len() == 9,
        forall|i: int| 0 <= i < 9
            ==> (s1[i] == s2[i] || (!(1 <= #[trigger] s1[i] <= 9) && !(1 <= #[trigger] s2[i]
                <= 9))),
    ensures
        unique_sudoku_digits(s1) == unique_sudoku_digits(s2),
{
    if unique_sudoku_digits(s1) {
        assert forall|i: int, j: int|
            0 <= i < j < 9 && 1 <= #[trigger] s2[i] <= 9 implies s2[i] != #[trigger] s2[j] by {
            assert(s1[i] == s2[i]);
            if 1 <= s2[j] <= 9 {
                assert(s1[j] == s2[j]);
            }
        };
    }
    if unique_sudoku_digits(s2) {
        assert forall|i: int, j: int|
            0 <= i < j < 9 && 1 <= #[trigger] s1[i] <= 9 implies s1[i] != #[trigger] s1[j] by {
            assert(s2[i] == s1[i]);
            if 1 <= s1[j] <= 9 {
                assert(s2[j] == s1[j]);
            }
        };
    }
}

/// Writing a digit that a slice lacks into one of its cells keeps the
/// slice's digits unique.
pub proof fn lemma_place_unused_digit_keeps_unique(s: Seq<u8>, slot: int, v: u8)
    requires
        s.len() == 9,
        0 <= slot < 9,
        1 <= v <= 9,
        !s.contains(v),
        unique_sudoku_digits(s),
    ensures
        unique_sudoku_digits(s.update(slot, v)),
{
    let t = s.update(slot, v);
    assert forall|i: int, j: int|
        0 <= i < j < 9 && 1 <= #[trigger] t[i] <= 9 implies t[i] != #[trigger] t[j] by {
        if i == slot {
            if t[j] == v {
                assert(s[j] == v);
                assert(s.contains(v));
            }
        } else if j == slot {
            if t[i] == v {
                assert(s[i] == v);
                assert(s.contains(v));
            }
        } else {
            assert(t[i] == s[i] && t[j] == s[j]);
        }
    };
}

/// The unused digits and the present digits of a slice partition the
/// nine Sudoku digits: together they are exactly 1 through 9, and no
/// digit lies in both sets.
pub proof fn lemma_unused_present_partition(s: Seq<u8>)
    ensures
        missing_sudoku_digits(s).union(present_sudoku_digits(s)) =~= all_sudoku_digits(),
        missing_sudoku_digits(s).intersect(present_sudoku_digits(s)) =~= Set::<u8>::empty(),
{
}

impl Default for Slice {
    /// The neutral slice: all nine cells unassigned.
    fn default() -> (r: Self)
        ensures
            r@ =~= seq![0u8; 9],
    {
        Slice([Cell(0); 9])
    }
}

} // verus!
