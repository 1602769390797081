//! Enumeration of all completions of a generalized sudoku grid.
//!
//! A grid of `width` by `height` cells is cut into square blocks. A rule is a
//! row, a column or a block, and it is violated when two of its cells hold the
//! same symbol. The search fills the blank cells in row-major order with the
//! symbols of the grid's alphabet and keeps every filling that violates no rule.
pub mod assignment;
pub mod grid;
pub mod helper;
pub mod json;
pub mod rule;
pub mod sequence;
pub mod text;
pub mod theory;
pub mod utils;

pub use grid::{GridInfo, GridModel, Problem, ProblemModel};

use vstd::prelude::*;
use crate::helper::{completions, create_children, first_of, first_solution, lists};
use crate::rule::violations;
use crate::theory::{
    completes, lemma_completions_are_the_fillings, lemma_completions_sound,
    lemma_conflict_has_no_completion,
};

verus! {

/// Every solution of the problem, in the order in which the search finds
/// them: depth first, the symbols of the alphabet tried in their order. The
/// solutions are the fillings of the grid that keep the clues, hold a symbol
/// of the alphabet in every other cell and violate no rule; clues that
/// violate a rule leave none.
pub fn solve(problem: Problem) -> (solutions: Vec<Vec<char>>)
    requires
        problem@.searchable(),
    ensures
        lists(solutions@) == completions(problem.grid@, problem.values@),
        violations(problem.values@, problem.grid@) > 0 ==> solutions@.len() == 0,
        forall|s: Seq<char>|
            #[trigger] lists(solutions@).contains(s) <==> completes(
                s,
                problem.values@,
                problem.grid@,
            ),
        forall|k: int|
            0 <= k < solutions@.len() ==> completes(
                (#[trigger] solutions@[k])@,
                problem.values@,
                problem.grid@,
            ),
{
    let none: Vec<Vec<char>> = Vec::new();
    let solutions = create_children(&problem, problem.values.as_slice(), none.as_slice());
    proof {
        assert(lists(solutions@) =~= completions(problem.grid@, problem.values@));
        if violations(problem.values@, problem.grid@) > 0 {
            lemma_conflict_has_no_completion(problem.grid@, problem.values@);
        }
        assert forall|s: Seq<char>| #[trigger]
            lists(solutions@).contains(s) <==> completes(s, problem.values@, problem.grid@) by {
            lemma_completions_are_the_fillings(problem.grid@, problem.values@, s);
        }
        assert forall|k: int| 0 <= k < solutions@.len() implies completes(
            (#[trigger] solutions@[k])@,
            problem.values@,
            problem.grid@,
        ) by {
            lemma_completions_sound(problem.grid@, problem.values@, k);
            assert(lists(solutions@)[k] == solutions@[k]@);
        }
    }
    solutions
}

/// The first solution of the problem in the order of [`solve`], if the
/// problem has any. The search stops at it.
pub fn solve_first(problem: Problem) -> (solution: Option<Vec<char>>)
    requires
        problem@.searchable(),
    ensures
        match solution {
            Some(found) => first_of(completions(problem.grid@, problem.values@)) == Some(found@),
            None => completions(problem.grid@, problem.values@).len() == 0,
        },
{
    first_solution(&problem, problem.values.as_slice())
}

} // verus!
