//! What holds of the search for every grid and every assignment.
use vstd::prelude::*;
use crate::assignment::{
    blank_count, clues, fill_first_blank, first_blank, is_complete, lemma_fill_lowers_blank_count,
    lemma_first_blank_at, lemma_first_blank_found, symbols,
};
use crate::grid::GridModel;
use crate::helper::{branch, completions, expansions, lemma_trial_has_fewer_blanks, lists};
use crate::rule::{
    cell_index, is_rule_of, lemma_rule_cell_on_grid, lemma_violations_positive, rule_cells, rule_violated,
    symbol_at, violations, RuleModel,
};
use crate::sequence::{has_duplicates, lemma_pigeonhole};

verus! {

/// Two runs of the search on the same grid and clues find the same
/// solutions in the same order: what a run returns is determined by its
/// contract.
pub proof fn lemma_search_is_determined(
    grid: GridModel,
    a: Seq<Option<char>>,
    first: Seq<Vec<char>>,
    second: Seq<Vec<char>>,
)
    requires
        lists(first) == completions(grid, a),
        lists(second) == completions(grid, a),
    ensures
        first.len() == second.len(),
        forall|k: int| 0 <= k < first.len() ==> (#[trigger] first[k])@ == second[k]@,
{
    assert(lists(first).len() == first.len() && lists(second).len() == second.len());
    assert forall|k: int| 0 <= k < first.len() implies (#[trigger] first[k])@ == second[k]@ by {
        assert(lists(first)[k] == first[k]@ && lists(second)[k] == second[k]@);
    }
}

/// `b` has the slots of `a` and holds what `a` holds wherever `a` is filled.
pub open spec fn extends(b: Seq<Option<char>>, a: Seq<Option<char>>) -> bool {
    &&& b.len() == a.len()
    &&& forall|i: int| 0 <= i < a.len() && (#[trigger] a[i]) is Some ==> b[i] == a[i]
}

/// A violated rule stays violated when more cells are filled.
pub proof fn lemma_violation_persists(
    a: Seq<Option<char>>,
    b: Seq<Option<char>>,
    rule: RuleModel,
    grid: GridModel,
)
    requires
        extends(b, a),
        rule_violated(a, rule, grid),
    ensures
        rule_violated(b, rule, grid),
{
    let cells = rule_cells(rule, grid);
    let (p, q) = choose|p: int, q: int|
        0 <= p < q < cells.len() && symbol_at(a, #[trigger] cells[p], grid) is Some && symbol_at(
            a,
            cells[p],
            grid,
        ) == symbol_at(a, #[trigger] cells[q], grid);
    assert(symbol_at(b, cells[p], grid) == symbol_at(a, cells[p], grid));
    assert(symbol_at(b, cells[q], grid) == symbol_at(a, cells[q], grid));
}

/// An assignment with a violation keeps one when more cells are filled.
pub proof fn lemma_violations_persist(a: Seq<Option<char>>, b: Seq<Option<char>>, grid: GridModel)
    requires
        extends(b, a),
        violations(a, grid) > 0,
    ensures
        violations(b, grid) > 0,
{
    lemma_violations_positive(a, grid);
    lemma_violations_positive(b, grid);
    let rule = choose|rule: RuleModel| is_rule_of(rule, grid) && #[trigger] rule_violated(a, rule, grid);
    lemma_violation_persists(a, b, rule, grid);
}

/// Filling the first blank cell keeps every filled cell.
pub proof fn lemma_fill_extends(a: Seq<Option<char>>, value: char)
    ensures
        extends(fill_first_blank(a, value), a),
{
    lemma_first_blank_found(a);
}

proof fn lemma_conflict_has_no_expansion(grid: GridModel, a: Seq<Option<char>>, n: nat)
    requires
        violations(a, grid) > 0,
    ensures
        expansions(grid, a, n) == Seq::<Seq<char>>::empty(),
    decreases n,
{
    if n == 0 || n > grid.values.len() || is_complete(a) {
    } else {
        lemma_conflict_has_no_expansion(grid, a, (n - 1) as nat);
        let value = grid.values[n - 1];
        lemma_fill_extends(a, value);
        lemma_violations_persist(a, fill_first_blank(a, value), grid);
        assert(branch(grid, a, value) == Seq::<Seq<char>>::empty());
        assert(expansions(grid, a, n) =~= Seq::<Seq<char>>::empty());
    }
}

/// Clues that violate a rule leave no solution.
pub proof fn lemma_conflict_has_no_completion(grid: GridModel, a: Seq<Option<char>>)
    requires
        violations(a, grid) > 0,
    ensures
        completions(grid, a) == Seq::<Seq<char>>::empty(),
{
    lemma_conflict_has_no_expansion(grid, a, grid.values.len());
}

/// `s` fills the grid as `a` asks: it keeps the clues of `a`, holds a symbol
/// of the alphabet in every cell that `a` leaves blank, and violates no rule.
pub open spec fn completes(s: Seq<char>, a: Seq<Option<char>>, grid: GridModel) -> bool {
    &&& s.len() == a.len()
    &&& forall|i: int|
        0 <= i < a.len() ==> match #[trigger] a[i] {
            Some(symbol) => s[i] == symbol,
            None => grid.values.contains(s[i]),
        }
    &&& violations(clues(s), grid) == 0
}

/// Which symbol of the alphabet yields a given element of `expansions`, and
/// where that element stands in what the symbol yields.
proof fn lemma_expansions_member(grid: GridModel, a: Seq<Option<char>>, n: nat, k: int) -> (at: (
    int,
    int,
))
    requires
        0 <= k < expansions(grid, a, n).len(),
    ensures
        0 <= at.0 < n,
        at.0 < grid.values.len(),
        !is_complete(a),
        0 <= at.1 < branch(grid, a, grid.values[at.0]).len(),
        branch(grid, a, grid.values[at.0])[at.1] == expansions(grid, a, n)[k],
    decreases n,
{
    let front = expansions(grid, a, (n - 1) as nat);
    if k < front.len() {
        lemma_expansions_member(grid, a, (n - 1) as nat, k)
    } else {
        (n - 1, k - front.len())
    }
}

/// What a symbol yields is part of `expansions` once the symbol is among
/// those tried.
proof fn lemma_expansions_include(grid: GridModel, a: Seq<Option<char>>, n: nat, j: int, s: Seq<char>)
    requires
        0 <= j < n <= grid.values.len(),
        !is_complete(a),
        branch(grid, a, grid.values[j]).contains(s),
    ensures
        expansions(grid, a, n).contains(s),
    decreases n,
{
    let front = expansions(grid, a, (n - 1) as nat);
    let last = branch(grid, a, grid.values[n - 1]);
    if j == n - 1 {
        let m = choose|m: int| 0 <= m < last.len() && last[m] == s;
        assert((front + last)[front.len() + m] == s);
    } else {
        lemma_expansions_include(grid, a, (n - 1) as nat, j, s);
        let m = choose|m: int| 0 <= m < front.len() && front[m] == s;
        assert((front + last)[m] == s);
    }
}

/// The symbols of a complete assignment, taken as clues, are that assignment.
pub proof fn lemma_clues_of_symbols(a: Seq<Option<char>>)
    requires
        is_complete(a),
    ensures
        clues(symbols(a)) == a,
{
    assert(clues(symbols(a)) =~= a);
}

/// Every solution that the search finds keeps the clues, fills the blank cells
/// from the alphabet and violates no rule.
pub proof fn lemma_completions_sound(grid: GridModel, a: Seq<Option<char>>, k: int)
    requires
        0 <= k < completions(grid, a).len(),
    ensures
        completes(completions(grid, a)[k], a, grid),
    decreases blank_count(a),
{
    let s = completions(grid, a)[k];
    if is_complete(a) {
        lemma_clues_of_symbols(a);
    } else {
        let (j, m) = lemma_expansions_member(grid, a, grid.values.len(), k);
        let value = grid.values[j];
        let trial = fill_first_blank(a, value);
        lemma_first_blank_found(a);
        if is_complete(trial) {
            lemma_clues_of_symbols(trial);
        } else {
            lemma_trial_has_fewer_blanks(a, value);
            lemma_completions_sound(grid, trial, m);
        }
        assert(completes(s, trial, grid));
        assert forall|i: int| 0 <= i < a.len() implies match #[trigger] a[i] {
            Some(symbol) => s[i] == symbol,
            None => grid.values.contains(s[i]),
        } by {
            assert(trial[i] is Some ==> s[i] == trial[i]->0);
            if first_blank(a) == Some(i) {
                assert(grid.values[j] == s[i]);
            }
        }
    }
}

/// The search finds every filling that keeps the clues, takes its symbols
/// from the alphabet and violates no rule.
pub proof fn lemma_completions_complete(grid: GridModel, a: Seq<Option<char>>, s: Seq<char>)
    requires
        completes(s, a, grid),
    ensures
        completions(grid, a).contains(s),
    decreases blank_count(a),
{
    if is_complete(a) {
        assert(symbols(a) =~= s) by {
            assert forall|i: int| 0 <= i < a.len() implies symbols(a)[i] == s[i] by {
                assert(a[i] is Some);
            }
        }
        lemma_clues_of_symbols(a);
        assert(completions(grid, a)[0] == s);
    } else {
        lemma_first_blank_found(a);
        let p = first_blank(a)->0;
        assert(a[p] is None);
        let j = choose|j: int| 0 <= j < grid.values.len() && grid.values[j] == s[p];
        let value = grid.values[j];
        let trial = fill_first_blank(a, value);
        assert(extends(clues(s), trial)) by {
            assert forall|i: int| 0 <= i < trial.len() && (#[trigger] trial[i]) is Some implies clues(
                s,
            )[i] == trial[i] by {
                if i != p {
                    assert(a[i] is Some);
                }
            }
        }
        if violations(trial, grid) > 0 {
            lemma_violations_persist(trial, clues(s), grid);
        }
        if is_complete(trial) {
            assert(symbols(trial) =~= s) by {
                assert forall|i: int| 0 <= i < trial.len() implies symbols(trial)[i] == s[i] by {
                    assert(trial[i] is Some);
                    assert(clues(s)[i] == trial[i]);
                }
            }
            assert(branch(grid, a, value)[0] == s);
        } else {
            lemma_trial_has_fewer_blanks(a, value);
            assert(completes(s, trial, grid)) by {
                assert forall|i: int| 0 <= i < trial.len() implies match #[trigger] trial[i] {
                    Some(symbol) => s[i] == symbol,
                    None => grid.values.contains(s[i]),
                } by {
                    if i != p {
                        assert(trial[i] == a[i]);
                    }
                }
            }
            lemma_completions_complete(grid, trial, s);
        }
        lemma_expansions_include(grid, a, grid.values.len(), j, s);
    }
}

/// The solutions that the search finds are exactly the fillings that keep the
/// clues, take their other symbols from the alphabet and violate no rule.
pub proof fn lemma_completions_are_the_fillings(grid: GridModel, a: Seq<Option<char>>, s: Seq<char>)
    ensures
        completions(grid, a).contains(s) <==> completes(s, a, grid),
{
    if completions(grid, a).contains(s) {
        let k = choose|k: int| 0 <= k < completions(grid, a).len() && completions(grid, a)[k] == s;
        lemma_completions_sound(grid, a, k);
    }
    if completes(s, a, grid) {
        lemma_completions_complete(grid, a, s);
    }
}

/// What a symbol yields is what the search finds from the assignment with
/// the symbol in its first blank cell.
pub proof fn lemma_branch_is_completion(grid: GridModel, a: Seq<Option<char>>, value: char)
    ensures
        branch(grid, a, value) == completions(grid, fill_first_blank(a, value)),
{
    let trial = fill_first_blank(a, value);
    if violations(trial, grid) > 0 {
        lemma_conflict_has_no_completion(grid, trial);
    }
}

proof fn lemma_expansions_hold_branch(grid: GridModel, a: Seq<Option<char>>, n: nat, j: int)
    requires
        0 <= j < n <= grid.values.len(),
        !is_complete(a),
    ensures
        branch(grid, a, grid.values[j]).len() <= expansions(grid, a, n).len(),
    decreases n,
{
    if j < n - 1 {
        lemma_expansions_hold_branch(grid, a, (n - 1) as nat, j);
    }
}

/// A clue in a cell that is not the first blank cell leaves the first blank
/// cell where it was, and commutes with filling it.
proof fn lemma_clue_beside_first_blank(a: Seq<Option<char>>, i: int, value: char, tried: char)
    requires
        0 <= i < a.len(),
        a[i] is None,
        first_blank(a) != Some(i),
    ensures
        !is_complete(a),
        !is_complete(a.update(i, Some(value))),
        fill_first_blank(a, tried).len() == a.len(),
        fill_first_blank(a, tried)[i] is None,
        fill_first_blank(a.update(i, Some(value)), tried) == fill_first_blank(a, tried).update(
            i,
            Some(value),
        ),
{
    let clued = a.update(i, Some(value));
    lemma_first_blank_found(a);
    let p = first_blank(a)->0;
    assert(clued[p] is None);
    assert forall|j: int| 0 <= j < p implies clued[j] is Some by {
        assert(a[j] is Some);
    }
    lemma_first_blank_at(clued, p);
    assert(fill_first_blank(clued, tried) =~= fill_first_blank(a, tried).update(i, Some(value)));
}

/// With one more symbol tried, `expansions` grows by what that symbol yields.
proof fn lemma_expansions_step(grid: GridModel, a: Seq<Option<char>>, n: nat)
    requires
        0 < n <= grid.values.len(),
        !is_complete(a),
    ensures
        expansions(grid, a, n).len() == expansions(grid, a, (n - 1) as nat).len() + completions(
            grid,
            fill_first_blank(a, grid.values[n - 1]),
        ).len(),
{
    lemma_branch_is_completion(grid, a, grid.values[n - 1]);
}

proof fn lemma_clue_adds_no_expansion(
    grid: GridModel,
    a: Seq<Option<char>>,
    i: int,
    value: char,
    n: nat,
)
    requires
        0 <= i < a.len(),
        a[i] is None,
        first_blank(a) != Some(i),
        grid.values.contains(value),
        n <= grid.values.len(),
    ensures
        expansions(grid, a.update(i, Some(value)), n).len() <= expansions(grid, a, n).len(),
    decreases blank_count(a), 0nat, n,
{
    let clued = a.update(i, Some(value));
    if n > 0 {
        let tried = grid.values[n - 1];
        let trial = fill_first_blank(a, tried);
        lemma_clue_beside_first_blank(a, i, value, tried);
        lemma_clue_adds_no_expansion(grid, a, i, value, (n - 1) as nat);
        lemma_fill_lowers_blank_count(a, tried);
        lemma_clue_adds_no_solution(grid, trial, i, value);
        lemma_expansions_step(grid, a, n);
        lemma_expansions_step(grid, clued, n);
    }
}

/// Making a blank cell a clue, with a symbol of the alphabet, never adds a
/// solution: the search finds at most as many as before.
pub proof fn lemma_clue_adds_no_solution(grid: GridModel, a: Seq<Option<char>>, i: int, value: char)
    requires
        0 <= i < a.len(),
        a[i] is None,
        grid.values.contains(value),
    ensures
        completions(grid, a.update(i, Some(value))).len() <= completions(grid, a).len(),
    decreases blank_count(a), 1nat, 0nat,
{
    let clued = a.update(i, Some(value));
    lemma_first_blank_found(a);
    if first_blank(a) == Some(i) {
        let j = choose|j: int| 0 <= j < grid.values.len() && grid.values[j] == value;
        lemma_branch_is_completion(grid, a, value);
        lemma_expansions_hold_branch(grid, a, grid.values.len(), j);
    } else {
        lemma_clue_adds_no_expansion(grid, a, i, value, grid.values.len());
        lemma_clue_beside_first_blank(a, i, value, value);
    }
}

/// Every solution of the clued assignment is a solution of the assignment
/// without the clue, when the clue is a symbol of the alphabet.
pub proof fn lemma_clue_keeps_solutions(
    grid: GridModel,
    a: Seq<Option<char>>,
    i: int,
    value: char,
    s: Seq<char>,
)
    requires
        0 <= i < a.len(),
        a[i] is None,
        grid.values.contains(value),
        completions(grid, a.update(i, Some(value))).contains(s),
    ensures
        completions(grid, a).contains(s),
{
    let clued = a.update(i, Some(value));
    lemma_completions_are_the_fillings(grid, clued, s);
    assert(completes(s, a, grid)) by {
        assert forall|k: int| 0 <= k < a.len() implies match #[trigger] a[k] {
            Some(symbol) => s[k] == symbol,
            None => grid.values.contains(s[k]),
        } by {
            assert(match clued[k] {
                Some(symbol) => s[k] == symbol,
                None => grid.values.contains(s[k]),
            });
        }
    }
    lemma_completions_are_the_fillings(grid, a, s);
}

/// What a symbol yields holds that symbol in the first blank cell.
proof fn lemma_branch_holds_symbol(grid: GridModel, a: Seq<Option<char>>, value: char, m: int)
    requires
        !is_complete(a),
        0 <= m < branch(grid, a, value).len(),
    ensures
        0 <= first_blank(a)->0 < branch(grid, a, value)[m].len(),
        branch(grid, a, value)[m][first_blank(a)->0] == value,
{
    lemma_first_blank_found(a);
    lemma_branch_is_completion(grid, a, value);
    let trial = fill_first_blank(a, value);
    lemma_completions_sound(grid, trial, m);
    assert(trial[first_blank(a)->0] == Some(value));
}

proof fn lemma_expansions_distinct(grid: GridModel, a: Seq<Option<char>>, n: nat)
    requires
        !has_duplicates(grid.values),
        !is_complete(a),
        n <= grid.values.len(),
    ensures
        !has_duplicates(expansions(grid, a, n)),
    decreases blank_count(a), 0nat, n,
{
    if n > 0 {
        let front = expansions(grid, a, (n - 1) as nat);
        let value = grid.values[n - 1];
        let last = branch(grid, a, value);
        let whole = expansions(grid, a, n);
        let p = first_blank(a)->0;
        lemma_expansions_distinct(grid, a, (n - 1) as nat);
        lemma_branch_is_completion(grid, a, value);
        lemma_fill_lowers_blank_count(a, value);
        lemma_completions_distinct(grid, fill_first_blank(a, value));
        if has_duplicates(whole) {
            let (i, j) = choose|i: int, j: int|
                0 <= i < j < whole.len() && #[trigger] whole[i] == #[trigger] whole[j];
            if j < front.len() {
                assert(front[i] == front[j]);
            } else if i >= front.len() {
                assert(last[i - front.len()] == last[j - front.len()]);
            } else {
                let (k, m) = lemma_expansions_member(grid, a, (n - 1) as nat, i);
                lemma_branch_holds_symbol(grid, a, grid.values[k], m);
                lemma_branch_holds_symbol(grid, a, value, j - front.len());
                assert(whole[i][p] == grid.values[k]);
                assert(whole[j][p] == grid.values[n - 1]);
                assert(!(0 <= k < n - 1 < grid.values.len() && grid.values[k] == grid.values[n - 1]));
            }
        }
    }
}

/// With an alphabet that holds no symbol twice, the search finds no solution
/// twice.
pub proof fn lemma_completions_distinct(grid: GridModel, a: Seq<Option<char>>)
    requires
        !has_duplicates(grid.values),
    ensures
        !has_duplicates(completions(grid, a)),
    decreases blank_count(a), 1nat, 0nat,
{
    if !is_complete(a) {
        lemma_expansions_distinct(grid, a, grid.values.len());
    }
}

/// An alphabet with fewer symbols than some rule has cells leaves no
/// solution, when the clues themselves are symbols of the alphabet.
pub proof fn lemma_short_alphabet_has_no_completion(
    grid: GridModel,
    a: Seq<Option<char>>,
    rule: RuleModel,
)
    requires
        a.len() == grid.cells(),
        is_rule_of(rule, grid),
        rule_cells(rule, grid).len() > grid.values.len(),
        forall|i: int| 0 <= i < a.len() && (#[trigger] a[i]) is Some ==> grid.values.contains(a[i]->0),
    ensures
        completions(grid, a) == Seq::<Seq<char>>::empty(),
{
    if completions(grid, a).len() > 0 {
        let s = completions(grid, a)[0];
        lemma_completions_sound(grid, a, 0);
        let filled = clues(s);
        let cells = rule_cells(rule, grid);
        let held = Seq::new(cells.len(), |p: int| symbol_at(filled, cells[p], grid)->0);
        assert forall|p: int| 0 <= p < held.len() implies grid.values.contains(#[trigger] held[p]) by {
            lemma_rule_cell_on_grid(rule, grid, p);
            let place = cell_index(cells[p].0, cells[p].1, grid)->0;
            assert(symbol_at(filled, cells[p], grid) == Some(s[place]));
            assert(a[place] is Some ==> s[place] == a[place]->0);
        }
        lemma_pigeonhole(held, grid.values);
        let (p, q) = choose|p: int, q: int|
            0 <= p < q < held.len() && #[trigger] held[p] == #[trigger] held[q];
        lemma_rule_cell_on_grid(rule, grid, p);
        lemma_rule_cell_on_grid(rule, grid, q);
        assert(symbol_at(filled, cells[p], grid) is Some && symbol_at(filled, cells[p], grid)
            == symbol_at(filled, cells[q], grid));
        assert(rule_violated(filled, rule, grid));
        lemma_violations_positive(filled, grid);
    }
}

} // verus!
