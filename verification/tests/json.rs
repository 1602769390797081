use sudoku::json::codec::{Category, JsonFault};
use sudoku::json::document::Json;
use sudoku::json::reader::{
    check_shape, json_error_to_str, parse, parse_value, problem_from_document, shape_message,
    validate_json, validate_problem, Field, ShapeFault,
};
use sudoku::json::writer::{char_to_json, grid_to_json, solution_to_json, usize_to_json};
use sudoku::json::{read_problem, write_solution};
use sudoku::{solve, GridInfo, Problem};

fn text(s: &str) -> Json {
    Json::Text(String::from(s))
}

fn texts(items: &[&str]) -> Json {
    Json::Array(items.iter().map(|s| text(s)).collect())
}

fn object(members: Vec<(&str, Json)>) -> Json {
    Json::Object(members.into_iter().map(|(k, v)| (String::from(k), v)).collect())
}

fn grid_object(height: u64, width: u64, square: u64, alphabet: &[&str]) -> Json {
    object(vec![
        ("height", Json::Count(height)),
        ("square", Json::Count(square)),
        ("values", texts(alphabet)),
        ("width", Json::Count(width)),
    ])
}

fn puzzle(height: u64, width: u64, square: u64, alphabet: &[&str], clues: &[&str]) -> Json {
    object(vec![("grid", grid_object(height, width, square, alphabet)), ("values", texts(clues))])
}

fn cells(clues: &str) -> Vec<Option<char>> {
    clues.chars().map(|c| if c == '.' { None } else { Some(c) }).collect()
}

#[test]
fn parse_value_takes_the_first_character() {
    assert_eq!(parse_value("7"), Some('7'));
    assert_eq!(parse_value("xy"), Some('x'));
    assert_eq!(parse_value("\u{e9}t\u{e9}"), Some('\u{e9}'));
}

#[test]
fn parse_value_reads_the_placeholder_as_blank() {
    assert_eq!(parse_value("-"), None);
    assert_eq!(parse_value("-5"), None);
}

#[test]
fn parse_value_reads_the_empty_text_as_blank() {
    assert_eq!(parse_value(""), None);
}

#[test]
fn get_finds_a_member_of_an_object() {
    let doc = object(vec![("a", Json::Count(1)), ("b", Json::Bool(true))]);
    assert!(matches!(doc.get("a"), Some(Json::Count(1))));
    assert!(matches!(doc.get("b"), Some(Json::Bool(true))));
    assert!(doc.get("c").is_none());
}

#[test]
fn get_takes_the_last_member_of_a_repeated_key() {
    let doc = object(vec![("a", Json::Count(1)), ("a", Json::Count(2))]);
    assert!(matches!(doc.get("a"), Some(Json::Count(2))));
}

#[test]
fn get_finds_nothing_outside_an_object() {
    assert!(texts(&["a"]).get("a").is_none());
    assert!(Json::Null.get("a").is_none());
}

#[test]
fn read_problem_reads_a_puzzle() {
    let p = read_problem(
        r#"{"grid": {"height": 2, "width": 2, "square": 1, "values": ["1", "2"]},
            "values": ["1", "-", "-", "1"]}"#,
    )
    .unwrap();
    assert_eq!(p.grid.height, 2);
    assert_eq!(p.grid.width, 2);
    assert_eq!(p.grid.square, 1);
    assert_eq!(p.grid.values, vec!['1', '2']);
    assert_eq!(p.values, cells("1..1"));
}

#[test]
fn read_problem_keeps_height_and_width_apart() {
    let p = read_problem(
        r#"{"grid": {"height": 1, "width": 3, "square": 1, "values": ["a"]},
            "values": ["-", "a", "-"]}"#,
    )
    .unwrap();
    assert_eq!((p.grid.height, p.grid.width), (1, 3));
    assert_eq!(p.values, cells(".a."));
}

#[test]
fn read_problem_ignores_other_members() {
    let p = read_problem(
        r#"{"title": "easy", "grid": {"height": 1, "width": 1, "square": 1, "values": ["1"],
            "depth": -1.5}, "values": ["-"]}"#,
    )
    .unwrap();
    assert_eq!(p.values, cells("."));
}

#[test]
fn read_problem_drops_the_placeholder_from_the_alphabet() {
    let p = read_problem(
        r#"{"grid": {"height": 1, "width": 1, "square": 1, "values": ["1", "-", "", "2"]},
            "values": ["-"]}"#,
    )
    .unwrap();
    assert_eq!(p.grid.values, vec!['1', '2']);
}

#[test]
fn read_problem_takes_the_last_of_a_repeated_key() {
    let p = read_problem(
        r#"{"grid": {"height": 1, "width": 1, "square": 1, "values": ["1"]},
            "values": ["-", "-"], "values": ["1"]}"#,
    )
    .unwrap();
    assert_eq!(p.values, cells("1"));
}

#[test]
fn read_problem_refuses_text_that_ends_early() {
    assert_eq!(read_problem("{\"grid\": ").unwrap_err(), "unexpected end of the input data");
    assert_eq!(read_problem("").unwrap_err(), "unexpected end of the input data");
}

#[test]
fn read_problem_refuses_text_that_is_not_json() {
    assert_eq!(read_problem("{]").unwrap_err(), "syntax error at line 1 column 2");
    assert_eq!(read_problem("{\n\n   \"a\" 12}").unwrap_err(), "syntax error at line 3 column 8");
}

#[test]
fn read_problem_refuses_a_document_that_is_no_object() {
    assert_eq!(read_problem("[]").unwrap_err(), "/ is not an object");
    assert_eq!(read_problem("12").unwrap_err(), "/ is not an object");
}

#[test]
fn read_problem_refuses_a_missing_part() {
    assert_eq!(read_problem("{}").unwrap_err(), "/grid is required");
    assert_eq!(
        read_problem(r#"{"grid": {"height": 1, "square": 1, "values": []}, "values": []}"#)
            .unwrap_err(),
        "/grid/width is required"
    );
    assert_eq!(
        read_problem(r#"{"grid": {"height": 1, "width": 1, "square": 1, "values": ["1"]}}"#)
            .unwrap_err(),
        "/values is required"
    );
}

#[test]
fn read_problem_refuses_a_part_of_the_wrong_kind() {
    assert_eq!(read_problem(r#"{"grid": 3, "values": []}"#).unwrap_err(), "/grid is not an object");
    assert_eq!(
        read_problem(
            r#"{"grid": {"height": -1, "width": 1, "square": 1, "values": ["1"]}, "values": []}"#
        )
        .unwrap_err(),
        "/grid/height is not a whole number"
    );
    assert_eq!(
        read_problem(
            r#"{"grid": {"height": 1, "width": 1, "square": 1.5, "values": ["1"]}, "values": []}"#
        )
        .unwrap_err(),
        "/grid/square is not a whole number"
    );
    assert_eq!(
        read_problem(
            r#"{"grid": {"height": 1, "width": "1", "square": 1, "values": ["1"]}, "values": []}"#
        )
        .unwrap_err(),
        "/grid/width is not a whole number"
    );
    assert_eq!(
        read_problem(
            r#"{"grid": {"height": 1, "width": 1, "square": 1, "values": "12"}, "values": []}"#
        )
        .unwrap_err(),
        "/grid/values is not a list of texts"
    );
    assert_eq!(
        read_problem(
            r#"{"grid": {"height": 1, "width": 1, "square": 1, "values": ["1"]}, "values": [1]}"#
        )
        .unwrap_err(),
        "/values is not a list of texts"
    );
}

#[test]
fn read_problem_names_the_first_fault() {
    assert_eq!(
        read_problem(r#"{"grid": {"square": "x", "values": 1}}"#).unwrap_err(),
        "/grid/height is required"
    );
    assert_eq!(
        read_problem(r#"{"grid": {"height": 1, "square": "x", "values": 1}}"#).unwrap_err(),
        "/grid/square is not a whole number"
    );
}

#[test]
fn read_problem_refuses_a_wrong_number_of_clues() {
    assert_eq!(
        read_problem(
            r#"{"grid": {"height": 3, "width": 2, "square": 1, "values": ["1"]},
                "values": ["1", "-"]}"#
        )
        .unwrap_err(),
        "Given grid information spesifies a grid of 2 by 3 requiring 6 values, number of values given is 2."
    );
}

#[test]
fn json_error_to_str_names_each_category() {
    let fault = |category| JsonFault { category, line: 12, column: 305 };
    assert_eq!(json_error_to_str(fault(Category::Io)), "failed to read bytes into IO stream");
    assert_eq!(json_error_to_str(fault(Category::Syntax)), "syntax error at line 12 column 305");
    assert_eq!(
        json_error_to_str(fault(Category::Data)),
        "input data that is semantically incorrect"
    );
    assert_eq!(json_error_to_str(fault(Category::Eof)), "unexpected end of the input data");
}

#[test]
fn json_error_to_str_writes_zero_and_large_numbers() {
    let fault = JsonFault { category: Category::Syntax, line: 0, column: 1234567890 };
    assert_eq!(json_error_to_str(fault), "syntax error at line 0 column 1234567890");
}

#[test]
fn check_shape_accepts_a_puzzle_file() {
    assert_eq!(check_shape(&puzzle(1, 1, 1, &["1"], &["-"])), None);
    assert_eq!(check_shape(&puzzle(2, 2, 1, &[], &[])), None);
}

#[test]
fn check_shape_finds_each_fault() {
    assert_eq!(check_shape(&Json::Null), Some(ShapeFault::Mistyped(Field::Document)));
    assert_eq!(check_shape(&object(vec![])), Some(ShapeFault::Missing(Field::Grid)));
    assert_eq!(
        check_shape(&object(vec![("grid", Json::Bool(true))])),
        Some(ShapeFault::Mistyped(Field::Grid))
    );
    assert_eq!(
        check_shape(&object(vec![("grid", object(vec![]))])),
        Some(ShapeFault::Missing(Field::Height))
    );
    assert_eq!(
        check_shape(&object(vec![("grid", object(vec![("height", Json::OtherNumber)]))])),
        Some(ShapeFault::Mistyped(Field::Height))
    );
    assert_eq!(
        check_shape(&object(vec![("grid", object(vec![("height", Json::Count(1))]))])),
        Some(ShapeFault::Missing(Field::Square))
    );
    let no_alphabet = object(vec![("height", Json::Count(1)), ("square", Json::Count(1))]);
    assert_eq!(
        check_shape(&object(vec![("grid", no_alphabet)])),
        Some(ShapeFault::Missing(Field::Alphabet))
    );
    let mixed = object(vec![
        ("height", Json::Count(1)),
        ("square", Json::Count(1)),
        ("values", Json::Array(vec![text("1"), Json::Count(2)])),
    ]);
    assert_eq!(check_shape(&object(vec![("grid", mixed)])), Some(ShapeFault::Mistyped(Field::Alphabet)));
    let no_width = object(vec![
        ("height", Json::Count(1)),
        ("square", Json::Count(1)),
        ("values", texts(&["1"])),
    ]);
    assert_eq!(check_shape(&object(vec![("grid", no_width)])), Some(ShapeFault::Missing(Field::Width)));
    assert_eq!(
        check_shape(&object(vec![("grid", grid_object(1, 1, 1, &["1"]))])),
        Some(ShapeFault::Missing(Field::Values))
    );
    assert_eq!(
        check_shape(&object(vec![("grid", grid_object(1, 1, 1, &["1"])), ("values", Json::Null)])),
        Some(ShapeFault::Mistyped(Field::Values))
    );
}

#[test]
fn shape_message_names_the_part() {
    assert_eq!(shape_message(ShapeFault::Missing(Field::Square)), "/grid/square is required");
    assert_eq!(shape_message(ShapeFault::Mistyped(Field::Document)), "/ is not an object");
    assert_eq!(
        shape_message(ShapeFault::Mistyped(Field::Values)),
        "/values is not a list of texts"
    );
}

#[test]
fn validate_json_hands_the_document_back() {
    let checked = validate_json(puzzle(1, 1, 1, &["1"], &["-"])).unwrap();
    assert!(matches!(checked.get("grid"), Some(Json::Object(_))));
    assert!(matches!(checked.get("values"), Some(Json::Array(_))));
}

#[test]
fn validate_json_refuses_with_a_message() {
    assert_eq!(validate_json(texts(&[])).unwrap_err(), "/ is not an object");
}

#[test]
fn parse_reads_sizes_alphabet_and_clues() {
    let p = parse(puzzle(2, 3, 1, &["a", "b", "-"], &["a", "-", "b", "", "ab", "-"])).unwrap();
    assert_eq!((p.grid.height, p.grid.width, p.grid.square), (2, 3, 1));
    assert_eq!(p.grid.values, vec!['a', 'b']);
    assert_eq!(p.values, vec![Some('a'), None, Some('b'), None, Some('a'), None]);
}

#[test]
fn parse_reads_an_item_that_is_no_text_as_blank() {
    let doc = object(vec![
        ("grid", grid_object(1, 2, 1, &["1"])),
        ("values", Json::Array(vec![Json::Count(1), text("1")])),
    ]);
    assert_eq!(parse(doc).unwrap().values, vec![None, Some('1')]);
}

#[test]
fn parse_refuses_what_states_no_puzzle() {
    assert_eq!(parse(Json::Null).unwrap_err(), "could not parse");
    assert_eq!(parse(object(vec![("values", texts(&[]))])).unwrap_err(), "could not parse");
    let no_clues = object(vec![("grid", grid_object(1, 1, 1, &["1"]))]);
    assert_eq!(parse(no_clues).unwrap_err(), "could not parse");
    let wrong_size = object(vec![
        (
            "grid",
            object(vec![
                ("height", text("1")),
                ("square", Json::Count(1)),
                ("values", texts(&[])),
                ("width", Json::Count(1)),
            ]),
        ),
        ("values", texts(&[])),
    ]);
    assert_eq!(parse(wrong_size).unwrap_err(), "could not parse");
}

#[test]
fn validate_problem_accepts_one_clue_slot_for_each_cell() {
    let p = Problem {
        grid: GridInfo { width: 2, height: 3, square: 1, values: vec!['1'] },
        values: cells("1....."),
    };
    let checked = validate_problem(p).unwrap();
    assert_eq!(checked.values, cells("1....."));
    assert_eq!(checked.grid.width, 2);
}

#[test]
fn validate_problem_refuses_with_the_numbers() {
    let p = Problem {
        grid: GridInfo { width: 9, height: 9, square: 3, values: vec![] },
        values: cells("1234567.."),
    };
    assert_eq!(
        validate_problem(p).unwrap_err(),
        "Given grid information spesifies a grid of 9 by 9 requiring 81 values, number of values given is 9."
    );
}

#[test]
fn validate_problem_counts_beyond_the_machine_word() {
    let p = Problem {
        grid: GridInfo { width: usize::MAX, height: 2, square: 1, values: vec![] },
        values: cells(""),
    };
    let expected = format!(
        "Given grid information spesifies a grid of {} by 2 requiring {} values, number of values given is 0.",
        usize::MAX,
        (usize::MAX as u128) * 2
    );
    assert_eq!(validate_problem(p).unwrap_err(), expected);
}

#[test]
fn problem_from_document_checks_shape_then_count() {
    assert_eq!(problem_from_document(Json::Null).unwrap_err(), "/ is not an object");
    assert_eq!(
        problem_from_document(puzzle(2, 2, 1, &["1"], &["-"])).unwrap_err(),
        "Given grid information spesifies a grid of 2 by 2 requiring 4 values, number of values given is 1."
    );
    let p = problem_from_document(puzzle(1, 2, 1, &["1", "2"], &["-", "2"])).unwrap();
    assert_eq!(p.values, cells(".2"));
}

#[test]
fn char_to_json_is_a_text_of_one_character() {
    assert!(matches!(char_to_json(&'x'), Json::Text(s) if s == "x"));
    assert!(matches!(char_to_json(&'\u{e9}'), Json::Text(s) if s == "\u{e9}"));
}

#[test]
fn usize_to_json_is_a_count() {
    assert!(matches!(usize_to_json(0), Json::Count(0)));
    assert!(matches!(usize_to_json(81), Json::Count(81)));
}

#[test]
fn grid_to_json_holds_sizes_and_alphabet() {
    let g = GridInfo { width: 4, height: 2, square: 2, values: vec!['a', 'b'] };
    let doc = grid_to_json(&g);
    assert!(matches!(doc.get("width"), Some(Json::Count(4))));
    assert!(matches!(doc.get("height"), Some(Json::Count(2))));
    assert!(matches!(doc.get("square"), Some(Json::Count(2))));
    match doc.get("values") {
        Some(Json::Array(items)) => {
            assert_eq!(items.len(), 2);
            assert!(matches!(&items[0], Json::Text(s) if s == "a"));
            assert!(matches!(&items[1], Json::Text(s) if s == "b"));
        }
        _ => panic!("the alphabet is no list"),
    }
}

#[test]
fn solution_to_json_holds_grid_and_symbols() {
    let p = Problem {
        grid: GridInfo { width: 2, height: 1, square: 1, values: vec!['1', '2'] },
        values: cells(".."),
    };
    let doc = solution_to_json(&p, &['2', '1']);
    assert_eq!(check_shape(&doc), None);
    match doc.get("values") {
        Some(Json::Array(items)) => {
            assert_eq!(items.len(), 2);
            assert!(matches!(&items[0], Json::Text(s) if s == "2"));
            assert!(matches!(&items[1], Json::Text(s) if s == "1"));
        }
        _ => panic!("the symbols are no list"),
    }
}

#[test]
fn write_solution_writes_compact_json() {
    let p = Problem {
        grid: GridInfo { width: 2, height: 1, square: 1, values: vec!['1', '2'] },
        values: cells("1."),
    };
    assert_eq!(
        write_solution(&p, &['1', '2']),
        r#"{"grid":{"height":1,"square":1,"values":["1","2"],"width":2},"values":["1","2"]}"#
    );
}

#[test]
fn write_solution_escapes_what_json_escapes() {
    let p = Problem {
        grid: GridInfo { width: 1, height: 1, square: 1, values: vec!['"'] },
        values: cells("."),
    };
    assert_eq!(
        write_solution(&p, &['"']),
        r#"{"grid":{"height":1,"square":1,"values":["\""],"width":1},"values":["\""]}"#
    );
}

#[test]
fn written_solution_reads_back_as_a_problem_with_that_one_solution() {
    let p = read_problem(
        r#"{"grid": {"height": 4, "width": 4, "square": 2, "values": ["1", "2", "3", "4"]},
            "values": ["-", "2", "-", "-", "-", "-", "4", "-", "-", "3", "-", "-", "-", "-", "1", "-"]}"#,
    )
    .unwrap();
    let again = p.clone();
    let solutions = solve(p);
    assert!(!solutions.is_empty());
    for solution in &solutions {
        let written = write_solution(&again, solution);
        let read = read_problem(&written).unwrap();
        assert_eq!(read.grid.width, 4);
        assert_eq!(read.grid.height, 4);
        assert_eq!(read.grid.square, 2);
        assert_eq!(read.grid.values, vec!['1', '2', '3', '4']);
        let clues: Vec<Option<char>> = solution.iter().map(|c| Some(*c)).collect();
        assert_eq!(read.values, clues);
        assert_eq!(solve(read), vec![solution.clone()]);
    }
}
