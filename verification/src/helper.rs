//! The search: every way to fill the blank cells of an assignment, first blank
//! first, with the symbols of the alphabet, so that no rule is violated.
use vstd::prelude::*;
use crate::assignment::{
    blank_count, fill_first_blank, is_complete, lemma_fill_lowers_blank_count,
    lemma_first_blank_found, symbols,
};
use crate::grid::{GridModel, Problem};
use crate::rule::{check_rules, violations};
use crate::utils::{append, copy, splice};

verus! {

/// The solutions that the search finds from an assignment, in the order in
/// which it finds them. A complete assignment is its own and only solution
/// when it violates no rule. An incomplete one has what its first blank cell
/// yields with each symbol of the alphabet in turn.
pub open spec fn completions(grid: GridModel, a: Seq<Option<char>>) -> Seq<Seq<char>>
    decreases blank_count(a), 2nat, 0nat,
{
    if is_complete(a) {
        if violations(a, grid) == 0 {
            seq![symbols(a)]
        } else {
            Seq::empty()
        }
    } else {
        expansions(grid, a, grid.values.len())
    }
}

/// What the first `n` symbols of the alphabet yield, in their order, when
/// each is put into the first blank cell of an incomplete assignment.
pub open spec fn expansions(grid: GridModel, a: Seq<Option<char>>, n: nat) -> Seq<Seq<char>>
    decreases blank_count(a), 1nat, n,
{
    if n == 0 || n > grid.values.len() || is_complete(a) {
        Seq::empty()
    } else {
        expansions(grid, a, (n - 1) as nat) + branch(grid, a, grid.values[n - 1])
    }
}

/// What one symbol yields: nothing when putting it into the first blank cell
/// violates a rule, the filled grid when that was the last blank cell, and
/// otherwise what the search finds from there.
pub open spec fn branch(grid: GridModel, a: Seq<Option<char>>, value: char) -> Seq<Seq<char>>
    decreases blank_count(a), 0nat, 0nat,
{
    let trial = fill_first_blank(a, value);
    if violations(trial, grid) > 0 {
        Seq::empty()
    } else if is_complete(trial) {
        seq![symbols(trial)]
    } else {
        proof {
            lemma_trial_has_fewer_blanks(a, value);
        }
        completions(grid, trial)
    }
}

/// A trial that is still incomplete has one blank cell less than the
/// assignment it was made from.
pub proof fn lemma_trial_has_fewer_blanks(a: Seq<Option<char>>, value: char)
    requires
        !is_complete(fill_first_blank(a, value)),
    ensures
        blank_count(fill_first_blank(a, value)) + 1 == blank_count(a),
{
    lemma_first_blank_found(a);
    lemma_fill_lowers_blank_count(a, value);
}

/// The solutions of a list as mathematical sequences.
pub open spec fn lists(v: Seq<Vec<char>>) -> Seq<Seq<char>> {
    Seq::new(v.len(), |i: int| v[i]@)
}

/// Whether every slot is filled.
fn is_full(xs: &[Option<char>]) -> (full: bool)
    ensures
        full == is_complete(xs@),
{
    let mut i: usize = 0;
    while i < xs.len()
        invariant
            i <= xs.len(),
            forall|j: int| 0 <= j < i ==> xs@[j] is Some,
        decreases xs.len() - i,
    {
        if xs[i].is_none() {
            return false;
        }
        i += 1;
    }
    true
}

/// The symbols of a complete assignment.
fn filled(xs: &[Option<char>]) -> (solution: Vec<char>)
    requires
        is_complete(xs@),
    ensures
        solution@ == symbols(xs@),
{
    let mut solution: Vec<char> = Vec::new();
    let mut i: usize = 0;
    while i < xs.len()
        invariant
            i <= xs.len(),
            is_complete(xs@),
            solution@.len() == i,
            forall|j: int| 0 <= j < i ==> solution@[j] == xs@[j]->0,
        decreases xs.len() - i,
    {
        match xs[i] {
            Some(symbol) => {
                solution.push(symbol);
            },
            None => {},
        }
        i += 1;
    }
    assert(solution@ =~= symbols(xs@));
    solution
}

/// Tries one symbol in the first blank cell of `parent_solution` and returns
/// `solutions` followed by what the symbol yields.
fn create_child(
    value: char,
    problem: &Problem,
    parent_solution: &[Option<char>],
    solutions: &[Vec<char>],
) -> (found: Vec<Vec<char>>)
    requires
        parent_solution@.len() == problem.grid@.cells(),
        problem.grid@.rule_count() <= u32::MAX,
    ensures
        lists(found@) == lists(solutions@) + branch(problem.grid@, parent_solution@, value),
    decreases blank_count(parent_solution@), 0nat, 0nat,
{
    let trial_values = splice(parent_solution, value);
    proof {
        lemma_first_blank_found(parent_solution@);
        assert(trial_values@ =~= fill_first_blank(parent_solution@, value));
    }
    let broken_rule_count = check_rules(trial_values.as_slice(), &problem.grid);
    if broken_rule_count == 0 {
        let done = is_full(trial_values.as_slice());
        if done {
            let solution = filled(trial_values.as_slice());
            let found = append(solutions, &solution);
            assert(lists(found@) =~= lists(solutions@) + seq![solution@]);
            found
        } else {
            proof {
                lemma_trial_has_fewer_blanks(parent_solution@, value);
            }
            create_children(problem, trial_values.as_slice(), solutions)
        }
    } else {
        let found = copy(solutions);
        assert(lists(found@) =~= lists(solutions@));
        found
    }
}

/// Returns `solutions` followed by every solution that the search finds from
/// `parent_solution`, in the order of the alphabet, depth first.
pub fn create_children(
    problem: &Problem,
    parent_solution: &[Option<char>],
    solutions: &[Vec<char>],
) -> (found: Vec<Vec<char>>)
    requires
        parent_solution@.len() == problem.grid@.cells(),
        problem.grid@.rule_count() <= u32::MAX,
    ensures
        lists(found@) == lists(solutions@) + completions(problem.grid@, parent_solution@),
    decreases blank_count(parent_solution@), 2nat, 0nat,
{
    if is_full(parent_solution) {
        if check_rules(parent_solution, &problem.grid) == 0 {
            let solution = filled(parent_solution);
            let found = append(solutions, &solution);
            assert(lists(found@) =~= lists(solutions@) + seq![solution@]);
            found
        } else {
            let found = copy(solutions);
            assert(lists(found@) =~= lists(solutions@));
            found
        }
    } else {
        let mut found = copy(solutions);
        assert(lists(found@) =~= lists(solutions@));
        let mut k: usize = 0;
        while k < problem.grid.values.len()
            invariant
                k <= problem.grid.values.len(),
                parent_solution@.len() == problem.grid@.cells(),
                problem.grid@.rule_count() <= u32::MAX,
                !is_complete(parent_solution@),
                lists(found@) == lists(solutions@) + expansions(
                    problem.grid@,
                    parent_solution@,
                    k as nat,
                ),
            decreases problem.grid.values.len() - k,
        {
            let value = problem.grid.values[k];
            found = create_child(value, problem, parent_solution, found.as_slice());
            k += 1;
            assert(lists(found@) =~= lists(solutions@) + expansions(
                problem.grid@,
                parent_solution@,
                k as nat,
            ));
        }
        found
    }
}

/// The first element of a list, if it has one.
pub open spec fn first_of(found: Seq<Seq<char>>) -> Option<Seq<char>> {
    if found.len() > 0 {
        Some(found[0])
    } else {
        None
    }
}

/// What more symbols yield comes behind what fewer symbols yield.
pub proof fn lemma_expansions_grow(grid: GridModel, a: Seq<Option<char>>, n: nat, m: nat)
    requires
        n <= m <= grid.values.len(),
        !is_complete(a),
    ensures
        expansions(grid, a, n).len() <= expansions(grid, a, m).len(),
        forall|k: int|
            0 <= k < expansions(grid, a, n).len() ==> expansions(grid, a, m)[k] == expansions(
                grid,
                a,
                n,
            )[k],
    decreases m,
{
    if n < m {
        lemma_expansions_grow(grid, a, n, (m - 1) as nat);
    }
}

/// The first solution that the search finds from `parent_solution`, if it
/// finds any. The search stops there: no later branch is tried.
pub fn first_solution(problem: &Problem, parent_solution: &[Option<char>]) -> (found: Option<
    Vec<char>,
>)
    requires
        parent_solution@.len() == problem.grid@.cells(),
        problem.grid@.rule_count() <= u32::MAX,
    ensures
        match found {
            Some(solution) => first_of(completions(problem.grid@, parent_solution@)) == Some(
                solution@,
            ),
            None => completions(problem.grid@, parent_solution@).len() == 0,
        },
    decreases blank_count(parent_solution@),
{
    if is_full(parent_solution) {
        if check_rules(parent_solution, &problem.grid) == 0 {
            Some(filled(parent_solution))
        } else {
            None
        }
    } else {
        let mut k: usize = 0;
        while k < problem.grid.values.len()
            invariant
                k <= problem.grid.values.len(),
                parent_solution@.len() == problem.grid@.cells(),
                problem.grid@.rule_count() <= u32::MAX,
                !is_complete(parent_solution@),
                expansions(problem.grid@, parent_solution@, k as nat).len() == 0,
            decreases problem.grid.values.len() - k,
        {
            let value = problem.grid.values[k];
            let trial_values = splice(parent_solution, value);
            proof {
                lemma_first_blank_found(parent_solution@);
                assert(trial_values@ =~= fill_first_blank(parent_solution@, value));
                lemma_expansions_grow(
                    problem.grid@,
                    parent_solution@,
                    (k + 1) as nat,
                    problem.grid@.values.len(),
                );
                assert(expansions(problem.grid@, parent_solution@, (k + 1) as nat) =~= branch(
                    problem.grid@,
                    parent_solution@,
                    value,
                ));
            }
            if check_rules(trial_values.as_slice(), &problem.grid) == 0 {
                if is_full(trial_values.as_slice()) {
                    return Some(filled(trial_values.as_slice()));
                } else {
                    proof {
                        lemma_trial_has_fewer_blanks(parent_solution@, value);
                    }
                    match first_solution(problem, trial_values.as_slice()) {
                        Some(solution) => {
                            return Some(solution);
                        },
                        None => {},
                    }
                }
            }
            k += 1;
        }
        None
    }
}

} // verus!
