use sudoku::rule::{
    check_rule, check_rules, contains_duplicates, flat_index, flatten_indices, generate_rule, Rule,
};
use sudoku::GridInfo;

fn grid(width: usize, height: usize, square: usize, alphabet: &str) -> GridInfo {
    GridInfo { width, height, square, values: alphabet.chars().collect() }
}

fn cells(text: &str) -> Vec<Option<char>> {
    text.chars().map(|c| if c == '.' { None } else { Some(c) }).collect()
}

#[test]
fn row_rule_lists_the_row_left_to_right() {
    let g = grid(4, 2, 2, "1234");
    assert_eq!(generate_rule(&Rule::Row(1), &g), vec![(1, 0), (1, 1), (1, 2), (1, 3)]);
}

#[test]
fn column_rule_lists_the_column_top_to_bottom() {
    let g = grid(4, 2, 2, "1234");
    assert_eq!(generate_rule(&Rule::Column(3), &g), vec![(0, 3), (1, 3)]);
}

#[test]
fn block_rule_lists_rows_then_columns() {
    let g = grid(6, 4, 2, "123456");
    assert_eq!(generate_rule(&Rule::Square(1, 2), &g), vec![(2, 4), (2, 5), (3, 4), (3, 5)]);
}

#[test]
fn block_rule_takes_its_first_index_for_the_rows() {
    let g = grid(9, 9, 3, "123456789");
    let block = generate_rule(&Rule::Square(0, 2), &g);
    assert_eq!(block.len(), 9);
    assert_eq!(block[0], (0, 6));
    assert_eq!(block[1], (0, 7));
    assert_eq!(block[3], (1, 6));
    assert_eq!(block[8], (2, 8));
}

#[test]
fn block_rule_of_side_zero_is_empty() {
    let g = grid(3, 3, 0, "123");
    assert_eq!(generate_rule(&Rule::Square(1, 1), &g), Vec::<(usize, usize)>::new());
}

#[test]
fn flat_index_is_row_major() {
    let g = grid(4, 3, 1, "1234");
    assert_eq!(flat_index(&0, &0, &g), Some(0));
    assert_eq!(flat_index(&2, &1, &g), Some(9));
    assert_eq!(flat_index(&2, &3, &g), Some(11));
}

#[test]
fn flat_index_of_a_cell_off_the_grid_is_none() {
    let g = grid(4, 3, 1, "1234");
    assert_eq!(flat_index(&3, &0, &g), None);
    assert_eq!(flat_index(&0, &4, &g), None);
}

#[test]
fn flatten_indices_skips_cells_off_the_grid() {
    let g = grid(2, 2, 1, "12");
    let listed = [(0, 0), (5, 0), (1, 1), (0, 2), (1, 0)];
    assert_eq!(flatten_indices(&listed, &g), vec![0, 3, 2]);
}

#[test]
fn contains_duplicates_finds_a_repeat() {
    assert!(contains_duplicates(&['a', 'b', 'a']));
    assert!(contains_duplicates(&['a', 'b', 'c', 'c']));
}

#[test]
fn contains_duplicates_accepts_distinct_and_short_lists() {
    assert!(!contains_duplicates(&['a', 'b', 'c']));
    assert!(!contains_duplicates(&['a']));
    assert!(!contains_duplicates(&[]));
}

#[test]
fn check_rule_ignores_blank_cells() {
    let g = grid(3, 1, 1, "123");
    assert!(check_rule(&cells(".1."), &Rule::Row(0), &g));
    assert!(check_rule(&cells("..."), &Rule::Row(0), &g));
}

#[test]
fn check_rule_fails_on_a_repeated_symbol() {
    let g = grid(3, 1, 1, "123");
    assert!(!check_rule(&cells("1.1"), &Rule::Row(0), &g));
    assert!(check_rule(&cells("1.1"), &Rule::Column(0), &g));
}

#[test]
fn check_rules_counts_each_violated_rule_once() {
    let g = grid(4, 4, 2, "1234");
    // Row 0 holds '1' three times: one violated row, and its first block
    // holds '1' twice.
    assert_eq!(check_rules(&cells("111............."), &g), 2);
}

#[test]
fn check_rules_counts_rows_columns_and_blocks() {
    let g = grid(4, 4, 2, "1234");
    // The two '1's share column 0 and nothing else.
    assert_eq!(check_rules(&cells("1.......1......."), &g), 1);
    // The two '2's share a block and nothing else.
    assert_eq!(check_rules(&cells("2....2.........."), &g), 1);
    // The two '3's share row, column and block with nothing.
    assert_eq!(check_rules(&cells("3.........3....."), &g), 0);
}

#[test]
fn check_rules_is_zero_on_an_empty_and_on_a_solved_grid() {
    let g = grid(4, 4, 2, "1234");
    assert_eq!(check_rules(&cells("................"), &g), 0);
    assert_eq!(check_rules(&cells("1234341221434321"), &g), 0);
}

#[test]
fn check_rules_on_a_grid_that_is_not_square() {
    let g = grid(4, 2, 2, "1234");
    assert_eq!(check_rules(&cells("12343412"), &g), 0);
    // Column 0 and the first block hold '1' twice, the second block '3'.
    assert_eq!(check_rules(&cells("12341423"), &g), 3);
}

#[test]
fn check_rules_without_blocks_when_the_side_is_zero() {
    let g = grid(2, 2, 0, "12");
    assert_eq!(check_rules(&cells("1221"), &g), 0);
    assert_eq!(check_rules(&cells("1212"), &g), 2);
}
