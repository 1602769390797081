use sudoku::helper::{create_children, first_solution};
use sudoku::rule::check_rules;
use sudoku::{solve, solve_first, GridInfo, Problem};

fn problem(width: usize, height: usize, square: usize, alphabet: &str, clues: &str) -> Problem {
    Problem {
        grid: GridInfo { width, height, square, values: alphabet.chars().collect() },
        values: clues.chars().map(|c| if c == '.' { None } else { Some(c) }).collect(),
    }
}

fn rows(solutions: &[&str]) -> Vec<Vec<char>> {
    solutions.iter().map(|s| s.chars().collect()).collect()
}

fn classic() -> Problem {
    problem(
        9,
        9,
        3,
        "123456789",
        "53..7....6..195....98....6.8...6...34..8.3..17...2...6.6....28....419..5....8..79",
    )
}

#[test]
fn single_cell_has_one_solution() {
    assert_eq!(solve(problem(1, 1, 1, "1", ".")), rows(&["1"]));
}

#[test]
fn classic_puzzle_has_its_one_solution() {
    let solutions = solve(classic());
    assert_eq!(
        solutions,
        rows(&["534678912672195348198342567859761423426853791713924856961537284287419635345286179"])
    );
    let filled: Vec<Option<char>> = solutions[0].iter().map(|c| Some(*c)).collect();
    assert_eq!(check_rules(&filled, &classic().grid), 0);
}

#[test]
fn solving_twice_gives_the_same_list() {
    let first = solve(problem(4, 4, 2, "1234", "1...........4..."));
    let second = solve(problem(4, 4, 2, "1234", "1...........4..."));
    assert!(first.len() > 1);
    assert_eq!(first, second);
}

#[test]
fn conflicting_clues_leave_no_solution() {
    let p = problem(4, 4, 2, "1234", "1..1............");
    assert!(check_rules(&p.values, &p.grid) > 0);
    assert_eq!(solve(p), Vec::<Vec<char>>::new());
}

#[test]
fn conflicting_complete_grid_has_no_solution() {
    assert_eq!(solve(problem(2, 1, 1, "12", "11")), Vec::<Vec<char>>::new());
}

#[test]
fn solutions_come_in_the_order_of_the_alphabet() {
    assert_eq!(solve(problem(2, 1, 1, "ab", "..")), rows(&["ab", "ba"]));
    assert_eq!(solve(problem(2, 1, 1, "ba", "..")), rows(&["ba", "ab"]));
}

#[test]
fn two_by_two_without_blocks_has_two_solutions() {
    assert_eq!(solve(problem(2, 2, 1, "12", "....")), rows(&["1221", "2112"]));
}

#[test]
fn complete_valid_grid_is_its_only_solution() {
    assert_eq!(solve(problem(2, 2, 1, "12", "1221")), rows(&["1221"]));
}

#[test]
fn complete_valid_grid_is_its_only_solution_with_an_empty_alphabet() {
    assert_eq!(solve(problem(2, 2, 1, "", "1221")), rows(&["1221"]));
}

#[test]
fn empty_alphabet_leaves_no_solution_for_a_blank_cell() {
    assert_eq!(solve(problem(1, 1, 1, "", ".")), Vec::<Vec<char>>::new());
}

#[test]
fn empty_grid_is_its_only_solution() {
    assert_eq!(solve(problem(0, 0, 1, "1", "")), vec![Vec::<char>::new()]);
}

#[test]
fn a_clue_never_adds_solutions() {
    let open = solve(problem(4, 4, 2, "1234", "1..............."));
    let clued = solve(problem(4, 4, 2, "1234", "12.............."));
    let more = solve(problem(4, 4, 2, "1234", "12..34.........."));
    assert_eq!(open.len(), 72);
    assert_eq!(clued.len(), 24);
    assert_eq!(more.len(), 12);
    assert!(clued.iter().all(|s| open.contains(s)));
}

#[test]
fn short_alphabet_leaves_no_solution() {
    assert_eq!(solve(problem(3, 3, 1, "12", ".........")), Vec::<Vec<char>>::new());
    assert_eq!(solve(problem(2, 2, 2, "123", "....")), Vec::<Vec<char>>::new());
}

#[test]
fn clue_outside_the_alphabet_is_kept() {
    assert_eq!(solve(problem(2, 1, 1, "1", "2.")), rows(&["21"]));
}

#[test]
fn repeated_symbol_in_the_alphabet_repeats_solutions() {
    assert_eq!(solve(problem(1, 1, 1, "11", ".")), rows(&["1", "1"]));
}

#[test]
fn every_solution_keeps_the_clues_and_the_rules() {
    let p = problem(4, 4, 2, "1234", ".2....4..3....1.");
    let clues = p.values.clone();
    let grid = p.grid.clone();
    let solutions = solve(p);
    assert!(!solutions.is_empty());
    for s in &solutions {
        assert_eq!(s.len(), 16);
        let filled: Vec<Option<char>> = s.iter().map(|c| Some(*c)).collect();
        assert_eq!(check_rules(&filled, &grid), 0);
        for (i, clue) in clues.iter().enumerate() {
            if let Some(c) = clue {
                assert_eq!(s[i], *c);
            }
        }
    }
}

#[test]
fn create_children_keeps_what_was_found_before() {
    let p = problem(2, 1, 1, "ab", "..");
    let before = rows(&["zz"]);
    assert_eq!(create_children(&p, &p.values, &before), rows(&["zz", "ab", "ba"]));
}

#[test]
fn create_children_from_a_partial_grid() {
    let p = problem(2, 2, 1, "12", "....");
    let partial = vec![Some('2'), None, None, None];
    assert_eq!(create_children(&p, &partial, &[]), rows(&["2112"]));
}

#[test]
fn first_solution_is_the_first_of_all() {
    let all = solve(problem(4, 4, 2, "1234", "1..............."));
    let first = solve_first(problem(4, 4, 2, "1234", "1..............."));
    assert_eq!(first, Some(all[0].clone()));
    assert_eq!(first, Some("1234341221434321".chars().collect()));
}

#[test]
fn first_solution_of_the_classic_puzzle() {
    let expected: Vec<char> =
        "534678912672195348198342567859761423426853791713924856961537284287419635345286179"
            .chars()
            .collect();
    assert_eq!(solve_first(classic()), Some(expected));
}

#[test]
fn first_solution_is_none_without_solutions() {
    assert_eq!(solve_first(problem(4, 4, 2, "1234", "1..1............")), None);
    assert_eq!(solve_first(problem(2, 1, 1, "12", "11")), None);
}

#[test]
fn first_solution_from_a_complete_grid() {
    let p = problem(2, 2, 1, "12", "2112");
    assert_eq!(first_solution(&p, &p.values), Some(vec!['2', '1', '1', '2']));
}
