use sudoku::{GridInfo, Problem};

fn problem(width: usize, height: usize, square: usize, slots: usize) -> Problem {
    Problem {
        grid: GridInfo { width, height, square, values: vec!['1', '2'] },
        values: vec![None; slots],
    }
}

#[test]
fn clone_copies_every_field() {
    let p = Problem {
        grid: GridInfo { width: 2, height: 1, square: 1, values: vec!['a', 'b'] },
        values: vec![Some('a'), None],
    };
    let q = p.clone();
    assert_eq!(q.grid.width, 2);
    assert_eq!(q.grid.height, 1);
    assert_eq!(q.grid.square, 1);
    assert_eq!(q.grid.values, vec!['a', 'b']);
    assert_eq!(q.values, vec![Some('a'), None]);
    assert_eq!(p.values, q.values);
}

#[test]
fn searchable_with_one_slot_for_each_cell() {
    assert!(problem(9, 9, 3, 81).is_searchable());
    assert!(problem(4, 2, 2, 8).is_searchable());
    assert!(problem(0, 0, 0, 0).is_searchable());
    assert!(problem(3, 3, 0, 9).is_searchable());
}

#[test]
fn not_searchable_with_another_number_of_slots() {
    assert!(!problem(9, 9, 3, 80).is_searchable());
    assert!(!problem(9, 9, 3, 82).is_searchable());
    assert!(!problem(2, 2, 1, 0).is_searchable());
    assert!(!problem(usize::MAX, usize::MAX, 1, 1).is_searchable());
}

#[test]
fn not_searchable_with_more_rules_than_a_u32_counts() {
    // No cell, and yet one rule for each of the 2^32 columns.
    assert!(!problem(1 << 32, 0, 1, 0).is_searchable());
    assert!(problem((1 << 32) - 1, 0, 1, 0).is_searchable());
}
