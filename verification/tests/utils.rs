use sudoku::utils::{append, copy, splice};

#[test]
fn splice_fills_the_first_blank_only() {
    let xs = vec![Some('a'), None, Some('c'), None];
    assert_eq!(splice(&xs, 'b'), vec![Some('a'), Some('b'), Some('c'), None]);
}

#[test]
fn splice_leaves_its_input_as_it_was() {
    let xs = vec![None, Some(2)];
    let filled = splice(&xs, 1);
    assert_eq!(filled, vec![Some(1), Some(2)]);
    assert_eq!(xs, vec![None, Some(2)]);
}

#[test]
fn splice_without_a_blank_drops_the_value() {
    let xs = vec![Some('a'), Some('b')];
    assert_eq!(splice(&xs, 'z'), vec![Some('a'), Some('b')]);
}

#[test]
fn splice_of_nothing_is_nothing() {
    let xs: Vec<Option<char>> = Vec::new();
    assert_eq!(splice(&xs, 'z'), Vec::<Option<char>>::new());
}

#[test]
fn append_puts_the_value_last() {
    let xs = vec![vec!['a'], vec!['b', 'c']];
    assert_eq!(append(&xs, &vec!['d']), vec![vec!['a'], vec!['b', 'c'], vec!['d']]);
    assert_eq!(xs.len(), 2);
}

#[test]
fn append_to_nothing_gives_one_element() {
    let xs: Vec<u8> = Vec::new();
    assert_eq!(append(&xs, &7), vec![7]);
}

#[test]
fn copy_gives_the_same_elements() {
    let xs = vec![String::from("a"), String::from("b")];
    assert_eq!(copy(&xs), xs);
}
