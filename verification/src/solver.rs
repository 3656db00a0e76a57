use vstd::prelude::*;

use vstd::arithmetic::power::lemma_pow_positive;
use vstd::arithmetic::power::pow;

use crate::board::Board;
use crate::game::Sudoku;
use crate::game::board_valid;
use crate::game::lemma_moves_facts;
use crate::game::possible_moves;

verus! {

/// Number of unassigned (zero) digits among the first `n` of `b`.
pub open spec fn zeros_below(b: Seq<u8>, n: int) -> nat
    decreases n,
{
    if n <= 0 {
        0
    } else {
        zeros_below(b, n - 1) + if b[n - 1] == 0 {
            1nat
        } else {
            0nat
        }
    }
}

/// Number of unassigned cells of board `b`.
pub open spec fn unassigned_count(b: Seq<u8>) -> nat {
    zeros_below(b, b.len() as int)
}

proof fn lemma_zeros_below_update(b: Seq<u8>, i: int, v: u8, n: int)
    requires
        0 <= i < b.len(),
        b[i] == 0,
        v != 0,
        n <= b.len(),
    ensures
        zeros_below(b.update(i, v), n) + (if i < n { 1nat } else { 0nat }) == zeros_below(b, n),
    decreases n,
{
    if n > 0 {
        lemma_zeros_below_update(b, i, v, n - 1);
    }
}

/// Placing a digit on an unassigned cell lowers the count by one.
pub proof fn lemma_update_unassigned_count(b: Seq<u8>, i: int, v: u8)
    requires
        0 <= i < b.len(),
        b[i] == 0,
        v != 0,
    ensures
        unassigned_count(b.update(i, v)) + 1 == unassigned_count(b),
{
    lemma_zeros_below_update(b, i, v, b.len() as int);
}

proof fn lemma_zero_gives_positive_count(b: Seq<u8>, i: int, n: int)
    requires
        0 <= i < n <= b.len(),
        b[i] == 0,
    ensures
        zeros_below(b, n) >= 1,
    decreases n,
{
    if i < n - 1 {
        lemma_zero_gives_positive_count(b, i, n - 1);
    }
}

/// The candidate boards that expanding board `b` pushes, in push order.
pub open spec fn expansions(b: Seq<u8>) -> Seq<Seq<u8>> {
    Seq::new(
        possible_moves(b).len(),
        |i: int| b.update(possible_moves(b)[i].0, possible_moves(b)[i].1),
    )
}

/// Termination measure of the search. A popped board can spawn at most
/// 729 children, each with one more cell assigned, so weighting every
/// board on the stack by 730 to the power of its unassigned count
/// shrinks strictly at each step.
pub open spec fn search_potential(stack: Seq<Seq<u8>>) -> nat
    decreases stack.len(),
{
    if stack.len() == 0 {
        0
    } else {
        search_potential(stack.drop_last()) + pow(730, unassigned_count(stack.last())) as nat
    }
}

proof fn lemma_potential_append(s: Seq<Seq<u8>>, t: Seq<Seq<u8>>)
    ensures
        search_potential(s + t) == search_potential(s) + search_potential(t),
    decreases t.len(),
{
    if t.len() == 0 {
        assert(s + t =~= s);
    } else {
        lemma_potential_append(s, t.drop_last());
        assert((s + t).drop_last() =~= s + t.drop_last());
        assert((s + t).last() == t.last());
    }
}

proof fn lemma_potential_uniform(t: Seq<Seq<u8>>, k: nat)
    requires
        forall|i: int| 0 <= i < t.len() ==> unassigned_count(#[trigger] t[i]) == k,
    ensures
        search_potential(t) == t.len() * pow(730, k),
    decreases t.len(),
{
    lemma_pow_positive(730, k);
    if t.len() == 0 {
        assert(search_potential(t) == 0);
    } else {
        lemma_potential_uniform(t.drop_last(), k);
        assert((t.len() - 1) * pow(730, k) + pow(730, k) == t.len() * pow(730, k))
            by (nonlinear_arith);
    }
}

/// Every board on the stack has the full 81 cells.
pub open spec fn stack_boards_wf(stack: Seq<Seq<u8>>) -> bool {
    forall|i: int| 0 <= i < stack.len() ==> (#[trigger] stack[i]).len() == 81
}

/// Popping a board strictly lowers the search potential, even after
/// pushing all of its expansions.
pub proof fn lemma_search_step_decreases(stack: Seq<Seq<u8>>)
    requires
        stack.len() > 0,
        stack_boards_wf(stack),
    ensures
        search_potential(stack.drop_last()) < search_potential(stack),
        search_potential(stack.drop_last() + expansions(stack.last())) < search_potential(stack),
{
    let top = stack.last();
    let rest = stack.drop_last();
    let u = unassigned_count(top);
    lemma_pow_positive(730, u);
    lemma_moves_facts(top, 0);
    let ch = expansions(top);
    lemma_potential_append(rest, ch);
    if ch.len() > 0 {
        assert forall|i: int| 0 <= i < ch.len() implies unassigned_count(#[trigger] ch[i]) == (u
            - 1) as nat by {
            let m = possible_moves(top)[i];
            lemma_zero_gives_positive_count(top, m.0, 81);
            lemma_update_unassigned_count(top, m.0, m.1);
        };
        let m0 = possible_moves(top)[0];
        lemma_zero_gives_positive_count(top, m0.0, 81);
        assert(u >= 1);
        lemma_potential_uniform(ch, (u - 1) as nat);
        lemma_pow_positive(730, (u - 1) as nat);
        assert(ch.len() * pow(730, (u - 1) as nat) <= 729 * pow(730, (u - 1) as nat))
            by (nonlinear_arith)
            requires
                0 <= ch.len() <= 729,
                pow(730, (u - 1) as nat) >= 1,
        ;
        vstd::arithmetic::power::lemma_pow_adds(730, 1, (u - 1) as nat);
        vstd::arithmetic::power::lemma_pow1(730);
        assert(pow(730, u) == 730 * pow(730, (u - 1) as nat));
    }
}

/// The digit sequences of a list of boards.
pub open spec fn boards_view(v: Seq<Board>) -> Seq<Seq<u8>> {
    v.map_values(|b: Board| b@)
}

/// `b` agrees with `base` on every cell that `base` has assigned.
pub open spec fn extends(base: Seq<u8>, b: Seq<u8>) -> bool {
    forall|c: int| 0 <= c < 81 && base[c] != 0 ==> b[c] == base[c]
}

/// A solution: every cell holds a placed digit and every column, row,
/// and block satisfies the uniqueness constraint.
pub open spec fn is_solution(b: Seq<u8>) -> bool {
    (forall|i: int| 0 <= i < 81 ==> b[i] != 0) && board_valid(b)
}

/// The solutions the backtracking search emits from a stack of boards
/// (most recently pushed last), in emission order: pop the top board;
/// a finished board that passes verification is emitted; any other
/// board is replaced by its candidate expansions; repeat until the
/// stack is empty.
pub open spec fn search_solutions(stack: Seq<Seq<u8>>) -> Seq<Seq<u8>>
    decreases search_potential(stack),
        when stack_boards_wf(stack)
{
    if stack.len() == 0 {
        Seq::empty()
    } else {
        let top = stack.last();
        let rest = stack.drop_last();
        proof {
            lemma_search_step_decreases(stack);
        }
        if is_solution(top) {
            seq![top] + search_solutions(rest)
        } else {
            search_solutions(rest + expansions(top))
        }
    }
}

impl Sudoku {
    /// Exhaustive depth-first backtracking search from the current
    /// board: pop the most recently pushed board; if it is finished and
    /// passes verification, emit it as a solution; otherwise push every
    /// candidate board of `next_possible_moves`; continue until the
    /// stack is empty. The fixed ascending cell and digit order of the
    /// move generator makes the emission order deterministic. Every
    /// emitted board is a solution and agrees with the starting board
    /// on every cell that was already assigned.
    pub fn solve(&self) -> (r: Vec<Board>)
        ensures
            boards_view(r@) == search_solutions(seq![self@]),
            forall|i: int| 0 <= i < r@.len() ==> is_solution(#[trigger] r@[i]@) && extends(
                self@,
                r@[i]@,
            ),
    {
        let mut stack: Vec<Board> = Vec::new();
        let mut solutions: Vec<Board> = Vec::new();
        stack.push(self.board);
        proof {
            assert(boards_view(stack@) =~= seq![self@]);
            assert(boards_view(solutions@) + search_solutions(seq![self@])
                =~= search_solutions(seq![self@]));
        }
        while stack.len() > 0
            invariant
                stack_boards_wf(boards_view(stack@)),
                forall|i: int| 0 <= i < stack@.len() ==> extends(self@, #[trigger] stack@[i]@),
                forall|i: int| 0 <= i < solutions@.len() ==> is_solution(#[trigger] solutions@[i]@)
                    && extends(self@, solutions@[i]@),
                search_solutions(seq![self@]) == boards_view(solutions@)
                    + search_solutions(boards_view(stack@)),
            decreases search_potential(boards_view(stack@)),
        {
            let ghost pre_stack = boards_view(stack@);
            let ghost pre_solutions = boards_view(solutions@);
            let board = stack.pop().unwrap();
            proof {
                assert(boards_view(stack@) =~= pre_stack.drop_last());
                assert(board@ == pre_stack.last());
                lemma_search_step_decreases(pre_stack);
            }
            let game = Sudoku { board };
            if game.finished() && game.verify_board().is_ok() {
                solutions.push(board);
                proof {
                    assert(is_solution(board@));
                    assert(search_solutions(pre_stack) == seq![board@] + search_solutions(
                        pre_stack.drop_last(),
                    ));
                    assert(boards_view(solutions@) =~= pre_solutions.push(board@));
                    assert(pre_solutions + (seq![board@] + search_solutions(pre_stack.drop_last()))
                        =~= pre_solutions.push(board@) + search_solutions(pre_stack.drop_last()));
                }
            } else {
                let moves = game.next_possible_moves();
                proof {
                    assert(!is_solution(board@));
                    assert(pre_stack.len() > 0);
                    assert(stack_boards_wf(pre_stack));
                    assert(pre_stack.last() == board@);
                    assert(!is_solution(pre_stack.last()));
                    let successors = pre_stack.drop_last() + expansions(board@);
                    assert forall|i: int| 0 <= i < successors.len() implies (#[trigger]
                    successors[i]).len() == 81 by {
                        if i < pre_stack.len() - 1 {
                            assert(successors[i] == pre_stack.drop_last()[i]);
                            assert(pre_stack.drop_last()[i] == pre_stack[i]);
                            assert(pre_stack[i].len() == 81);
                        } else {
                            let k = i - (pre_stack.len() - 1);
                            assert(0 <= k < expansions(board@).len());
                            assert(successors[i] == expansions(board@)[k]);
                            let m = possible_moves(board@)[k];
                            assert(expansions(board@)[k] == board@.update(m.0, m.1));
                            assert(board@.len() == 81);
                            lemma_moves_facts(board@, 0);
                            assert(0 <= m.0 < 81);
                            assert(board@.update(m.0, m.1).len() == 81);
                        }
                    };
                    assert(stack_boards_wf(successors));
                    assert(search_solutions(pre_stack) == search_solutions(
                        pre_stack.drop_last() + expansions(pre_stack.last()),
                    ));
                    assert(search_solutions(pre_stack) == search_solutions(
                        pre_stack.drop_last() + expansions(board@),
                    ));
                    assert(moves@.len() == expansions(board@).len());
                    assert(pre_stack.drop_last() + expansions(board@).take(0)
                        =~= pre_stack.drop_last());
                }
                let mut j: usize = 0;
                while j < moves.len()
                    invariant
                        j <= moves.len(),
                        board@ == pre_stack.last(),
                        moves@.len() == possible_moves(board@).len(),
                        forall|i: int| #![trigger moves@[i]] 0 <= i < moves@.len() ==> {
                            let m = possible_moves(board@)[i];
                            &&& moves@[i].1@ == board@.update(m.0, m.1)
                            &&& 0 <= m.0 < 81
                            &&& board@[m.0] == 0
                        },
                        board@.len() == 81,
                        extends(self@, board@),
                        boards_view(stack@) == pre_stack.drop_last() + expansions(
                            board@,
                        ).take(j as int),
                        forall|i: int| 0 <= i < stack@.len() ==> extends(
                            self@,
                            #[trigger] stack@[i]@,
                        ),
                        stack_boards_wf(boards_view(stack@)),
                    decreases moves@.len() - j,
                {
                    let ghost mid_stack = boards_view(stack@);
                    let (move_cell, candidate) = moves[j];
                    stack.push(candidate);
                    proof {
                        assert(candidate@ == expansions(board@)[j as int]);
                        assert(boards_view(stack@) =~= mid_stack.push(candidate@));
                        assert(expansions(board@).take(j as int).push(expansions(board@)[j as int])
                            =~= expansions(board@).take(j as int + 1));
                        assert(mid_stack.push(candidate@) =~= pre_stack.drop_last() + expansions(
                            board@,
                        ).take(j as int + 1));
                    }
                    j += 1;
                }
                proof {
                    assert(expansions(board@).take(moves@.len() as int) =~= expansions(board@));
                }
            }
        }
        proof {
            assert(boards_view(stack@) =~= Seq::<Seq<u8>>::empty());
            assert(search_solutions(Seq::<Seq<u8>>::empty()) =~= Seq::<Seq<u8>>::empty());
            assert(boards_view(solutions@) + Seq::<Seq<u8>>::empty()
                =~= boards_view(solutions@));
        }
        solutions
    }
}

} // verus!
