//! From a JSON document to a puzzle.
use vstd::prelude::*;
use crate::grid::{GridInfo, GridModel, Problem, ProblemModel};
use crate::json::codec::{document_of, fault_of, json_parse, parse_text, Category, JsonFault};
use crate::json::document::{documents, lemma_array_view, Json, JsonValue};
use crate::sequence::{filter_map, lemma_filter_map_step};
use crate::text::{decimal, push_decimal};

verus! {

/// The symbol that a text of a puzzle file stands for: its first character.
/// The empty text stands for a blank cell, and so does a text that begins
/// with the placeholder `-`.
pub open spec fn cell_symbol(s: Seq<char>) -> Option<char> {
    if s.len() == 0 || s[0] == '-' {
        None
    } else {
        Some(s[0])
    }
}

/// The symbol that an item of a list stands for; none where the item is no
/// text.
pub open spec fn item_symbol() -> spec_fn(JsonValue) -> Option<char> {
    |item: JsonValue|
        match item {
            JsonValue::Text(s) => cell_symbol(s),
            _ => None,
        }
}

/// The size that a document states: a count that a `usize` can hold.
pub open spec fn size_of(document: JsonValue) -> Option<nat> {
    match document {
        JsonValue::Count(n) => if n <= usize::MAX {
            Some(n)
        } else {
            None
        },
        _ => None,
    }
}

/// The items of a document that is a list.
pub open spec fn items_of(document: JsonValue) -> Option<Seq<JsonValue>> {
    match document {
        JsonValue::Array(items) => Some(items),
        _ => None,
    }
}

/// The puzzle that a document states. It has one when `grid` holds the
/// sizes `height`, `width` and `square` and a list `values`, and the document
/// holds a list `values`. The alphabet is made of the symbols that the items
/// of the grid's list stand for, the clues of what each item of the
/// document's list stands for.
pub open spec fn problem_of(document: JsonValue) -> Option<ProblemModel> {
    let grid = document.at("grid"@);
    match (
        size_of(grid.at("height"@)),
        size_of(grid.at("width"@)),
        size_of(grid.at("square"@)),
        items_of(grid.at("values"@)),
        items_of(document.at("values"@)),
    ) {
        (Some(height), Some(width), Some(square), Some(alphabet), Some(values)) => Some(
            ProblemModel {
                grid: GridModel {
                    width,
                    height,
                    square,
                    values: filter_map(alphabet, item_symbol()),
                },
                values: Seq::new(values.len(), |i: int| item_symbol()(values[i])),
            },
        ),
        _ => None,
    }
}

/// A part of a puzzle file.
#[derive(Clone, Copy, Debug, PartialEq, Eq, Structural)]
pub enum Field {
    /// The whole document.
    Document,
    /// `grid`.
    Grid,
    /// `height` of `grid`.
    Height,
    /// `square` of `grid`.
    Square,
    /// `values` of `grid`: the alphabet.
    Alphabet,
    /// `width` of `grid`.
    Width,
    /// `values`: the clues.
    Values,
}

/// What a part of a puzzle file has to be.
#[derive(Clone, Copy, Debug, PartialEq, Eq, Structural)]
pub enum Kind {
    Object,
    Count,
    TextList,
}

/// What is wrong with the shape of a document.
#[derive(Clone, Copy, Debug, PartialEq, Eq, Structural)]
pub enum ShapeFault {
    /// The part is not there.
    Missing(Field),
    /// The part is there and is something else than it has to be.
    Mistyped(Field),
}

/// Whether a document is of a kind.
pub open spec fn is_of_kind(document: JsonValue, kind: Kind) -> bool {
    match kind {
        Kind::Object => document is Object,
        Kind::Count => document is Count,
        Kind::TextList => document is Array && forall|i: int|
            0 <= i < document->Array_0.len() ==> (#[trigger] document->Array_0[i]) is Text,
    }
}

/// What is wrong with the member under `key`, if anything: it is missing, or
/// it is not of the kind.
pub open spec fn member_fault(holder: JsonValue, key: Seq<char>, field: Field, kind: Kind) -> Option<
    ShapeFault,
> {
    if !holder.has(key) {
        Some(ShapeFault::Missing(field))
    } else if !is_of_kind(holder.at(key), kind) {
        Some(ShapeFault::Mistyped(field))
    } else {
        None
    }
}

/// The first of two findings.
pub open spec fn or_else(first: Option<ShapeFault>, second: Option<ShapeFault>) -> Option<ShapeFault> {
    if first is Some {
        first
    } else {
        second
    }
}

/// The first thing that is wrong with the shape of a document, if anything.
/// A puzzle file is an object with an object `grid` that holds the counts
/// `height`, `square` and `width` and a list of texts `values`, and with a
/// list of texts `values`. The parts are looked at in this order: the
/// document, `grid`, its `height`, `square`, `values` and `width`, and last
/// the document's `values`.
pub open spec fn shape_fault(document: JsonValue) -> Option<ShapeFault> {
    if !(document is Object) {
        Some(ShapeFault::Mistyped(Field::Document))
    } else {
        let grid = document.at("grid"@);
        or_else(
            member_fault(document, "grid"@, Field::Grid, Kind::Object),
            or_else(
                member_fault(grid, "height"@, Field::Height, Kind::Count),
                or_else(
                    member_fault(grid, "square"@, Field::Square, Kind::Count),
                    or_else(
                        member_fault(grid, "values"@, Field::Alphabet, Kind::TextList),
                        or_else(
                            member_fault(grid, "width"@, Field::Width, Kind::Count),
                            member_fault(document, "values"@, Field::Values, Kind::TextList),
                        ),
                    ),
                ),
            ),
        )
    }
}

/// Where a part stands in a puzzle file.
pub open spec fn field_path(field: Field) -> Seq<char> {
    match field {
        Field::Document => "/"@,
        Field::Grid => "/grid"@,
        Field::Height => "/grid/height"@,
        Field::Square => "/grid/square"@,
        Field::Alphabet => "/grid/values"@,
        Field::Width => "/grid/width"@,
        Field::Values => "/values"@,
    }
}

/// What a part has to be, in words.
pub open spec fn field_kind(field: Field) -> Seq<char> {
    match field {
        Field::Document | Field::Grid => "an object"@,
        Field::Height | Field::Square | Field::Width => "a whole number"@,
        Field::Alphabet | Field::Values => "a list of texts"@,
    }
}

/// The message for a fault in the shape of a document.
pub open spec fn shape_text(fault: ShapeFault) -> Seq<char> {
    match fault {
        ShapeFault::Missing(field) => field_path(field) + " is required"@,
        ShapeFault::Mistyped(field) => field_path(field) + " is not "@ + field_kind(field),
    }
}

/// The message for a text that is not JSON.
pub open spec fn fault_text(fault: JsonFault) -> Seq<char> {
    match fault.category {
        Category::Io => "failed to read bytes into IO stream"@,
        Category::Syntax => "syntax error at line "@ + decimal(fault.line as nat) + " column "@
            + decimal(fault.column as nat),
        Category::Data => "input data that is semantically incorrect"@,
        Category::Eof => "unexpected end of the input data"@,
    }
}

/// The message for a puzzle whose clues are not as many as its cells.
pub open spec fn count_text(width: nat, height: nat, given: nat) -> Seq<char> {
    "Given grid information spesifies a grid of "@ + decimal(width) + " by "@ + decimal(height)
        + " requiring "@ + decimal(width * height) + " values, number of values given is "@
        + decimal(given) + "."@
}

/// The puzzle that a document gives, or the message with which it is
/// refused: for its shape, for what it states, or for the number of its
/// clues, whichever comes first.
pub open spec fn read_document(document: JsonValue) -> Result<ProblemModel, Seq<char>> {
    match shape_fault(document) {
        Some(fault) => Err(shape_text(fault)),
        None => match problem_of(document) {
            None => Err("could not parse"@),
            Some(problem) => if problem.values.len() == problem.grid.cells() {
                Ok(problem)
            } else {
                Err(count_text(problem.grid.width, problem.grid.height, problem.values.len()))
            },
        },
    }
}

/// The puzzle that a parsed text gives, or the message with which it is
/// refused.
pub open spec fn read_parsed(parsed: Result<JsonValue, JsonFault>) -> Result<ProblemModel, Seq<char>> {
    match parsed {
        Ok(document) => read_document(document),
        Err(fault) => Err(fault_text(fault)),
    }
}

/// The outcome is the puzzle or the message that was expected.
pub open spec fn outcome_is(
    outcome: Result<Problem, String>,
    expected: Result<ProblemModel, Seq<char>>,
) -> bool {
    match (outcome, expected) {
        (Ok(problem), Ok(model)) => problem@ == model,
        (Err(message), Err(text)) => message@ == text,
        _ => false,
    }
}

/// The message for a text that serde_json refused.
pub fn json_error_to_str(e: JsonFault) -> (message: String)
    ensures
        message@ == fault_text(e),
{
    match e.category {
        Category::Io => String::from_str("failed to read bytes into IO stream"),
        Category::Syntax => {
            let mut message = String::from_str("syntax error at line ");
            push_decimal(&mut message, e.line as u128);
            message.append(" column ");
            push_decimal(&mut message, e.column as u128);
            message
        },
        Category::Data => String::from_str("input data that is semantically incorrect"),
        Category::Eof => String::from_str("unexpected end of the input data"),
    }
}

/// The symbol that a text stands for.
pub fn parse_value(s: &str) -> (symbol: Option<char>)
    ensures
        symbol == cell_symbol(s@),
{
    if s.unicode_len() == 0 {
        None
    } else {
        let first = s.get_char(0);
        if first == '-' {
            None
        } else {
            Some(first)
        }
    }
}

/// The symbol that an item of a list stands for.
fn symbol_of(item: &Json) -> (symbol: Option<char>)
    ensures
        symbol == item_symbol()(item@),
{
    match item {
        Json::Text(s) => parse_value(s.as_str()),
        _ => None,
    }
}

/// The size stated under a key.
fn size_at(holder: Option<&Json>, key: &str) -> (size: Option<usize>)
    ensures
        match size {
            Some(n) => holder is Some && size_of(holder->0@.at(key@)) == Some(n as nat),
            None => holder is Some ==> size_of(holder->0@.at(key@)) is None,
        },
{
    match holder {
        Some(document) => match document.get(key) {
            Some(Json::Count(n)) => if *n <= usize::MAX as u64 {
                Some(*n as usize)
            } else {
                None
            },
            _ => None,
        },
        None => None,
    }
}

/// The list under a key.
fn items_at<'a>(holder: Option<&'a Json>, key: &str) -> (items: Option<&'a Vec<Json>>)
    ensures
        match items {
            Some(list) => holder is Some && items_of(holder->0@.at(key@)) == Some(documents(list@)),
            None => holder is Some ==> items_of(holder->0@.at(key@)) is None,
        },
{
    match holder {
        Some(document) => match document.get(key) {
            Some(Json::Array(list)) => {
                proof {
                    lemma_array_view(*list);
                }
                Some(list)
            },
            _ => None,
        },
        None => None,
    }
}

/// Reads the puzzle that a document states.
pub fn parse(j: Json) -> (outcome: Result<Problem, String>)
    ensures
        match outcome {
            Ok(problem) => problem_of(j@) == Some(problem@),
            Err(message) => problem_of(j@) is None && message@ == "could not parse"@,
        },
{
    let grid = j.get("grid");
    proof {
        if grid is None {
            assert(j@.at("grid"@) == JsonValue::Null);
        }
    }
    let height = size_at(grid, "height");
    let width = size_at(grid, "width");
    let square = size_at(grid, "square");
    let alphabet = items_at(grid, "values");
    let clues = items_at(Some(&j), "values");
    match (height, width, square, alphabet, clues) {
        (Some(height), Some(width), Some(square), Some(alphabet), Some(clues)) => {
            let mut grid_values: Vec<char> = Vec::new();
            let mut i: usize = 0;
            while i < alphabet.len()
                invariant
                    i <= alphabet.len(),
                    grid_values@ == filter_map(documents(alphabet@).take(i as int), item_symbol()),
                decreases alphabet.len() - i,
            {
                proof {
                    lemma_filter_map_step(documents(alphabet@), item_symbol(), i as int);
                }
                match symbol_of(&alphabet[i]) {
                    Some(symbol) => {
                        grid_values.push(symbol);
                    },
                    None => {},
                }
                i += 1;
            }
            assert(documents(alphabet@).take(i as int) =~= documents(alphabet@));
            let mut values: Vec<Option<char>> = Vec::new();
            let mut k: usize = 0;
            while k < clues.len()
                invariant
                    k <= clues.len(),
                    values@.len() == k,
                    forall|n: int| 0 <= n < k ==> values@[n] == item_symbol()(documents(clues@)[n]),
                decreases clues.len() - k,
            {
                values.push(symbol_of(&clues[k]));
                k += 1;
            }
            let problem = Problem {
                grid: GridInfo { height: height, width: width, square: square, values: grid_values },
                values: values,
            };
            assert(problem@.values =~= problem_of(j@)->0.values);
            Ok(problem)
        },
        _ => Err(String::from_str("could not parse")),
    }
}

/// Where a part stands in a puzzle file, as a text.
fn path_of(field: Field) -> (path: &'static str)
    ensures
        path@ == field_path(field),
{
    match field {
        Field::Document => "/",
        Field::Grid => "/grid",
        Field::Height => "/grid/height",
        Field::Square => "/grid/square",
        Field::Alphabet => "/grid/values",
        Field::Width => "/grid/width",
        Field::Values => "/values",
    }
}

/// What a part has to be, as a text.
fn kind_of(field: Field) -> (kind: &'static str)
    ensures
        kind@ == field_kind(field),
{
    match field {
        Field::Document | Field::Grid => "an object",
        Field::Height | Field::Square | Field::Width => "a whole number",
        Field::Alphabet | Field::Values => "a list of texts",
    }
}

/// The message for a fault in the shape of a document.
pub fn shape_message(fault: ShapeFault) -> (message: String)
    ensures
        message@ == shape_text(fault),
{
    match fault {
        ShapeFault::Missing(field) => {
            let mut message = String::from_str(path_of(field));
            message.append(" is required");
            message
        },
        ShapeFault::Mistyped(field) => {
            let mut message = String::from_str(path_of(field));
            message.append(" is not ");
            message.append(kind_of(field));
            message
        },
    }
}

/// Whether a document is of a kind.
fn has_kind(document: &Json, kind: Kind) -> (fits: bool)
    ensures
        fits == is_of_kind(document@, kind),
{
    match kind {
        Kind::Object => match document {
            Json::Object(_) => true,
            _ => false,
        },
        Kind::Count => match document {
            Json::Count(_) => true,
            _ => false,
        },
        Kind::TextList => match document {
            Json::Array(items) => {
                proof {
                    lemma_array_view(*items);
                }
                let mut i: usize = 0;
                while i < items.len()
                    invariant
                        i <= items.len(),
                        document@ == JsonValue::Array(documents(items@)),
                        forall|k: int| 0 <= k < i ==> (#[trigger] documents(items@)[k]) is Text,
                    decreases items.len() - i,
                {
                    match &items[i] {
                        Json::Text(_) => {},
                        _ => {
                            assert(!(documents(items@)[i as int] is Text));
                            return false;
                        },
                    }
                    i += 1;
                }
                true
            },
            _ => false,
        },
    }
}

/// What is wrong with the member under `key`, if anything.
fn check_member(holder: &Json, key: &str, field: Field, kind: Kind) -> (fault: Option<ShapeFault>)
    ensures
        fault == member_fault(holder@, key@, field, kind),
{
    match holder.get(key) {
        None => Some(ShapeFault::Missing(field)),
        Some(member) => if has_kind(member, kind) {
            None
        } else {
            Some(ShapeFault::Mistyped(field))
        },
    }
}

/// The first thing that is wrong with the shape of a document, if anything.
pub fn check_shape(document: &Json) -> (fault: Option<ShapeFault>)
    ensures
        fault == shape_fault(document@),
{
    if !has_kind(document, Kind::Object) {
        return Some(ShapeFault::Mistyped(Field::Document));
    }
    let fault = check_member(document, "grid", Field::Grid, Kind::Object);
    if fault.is_some() {
        return fault;
    }
    match document.get("grid") {
        None => None,
        Some(grid) => {
            let fault = check_member(grid, "height", Field::Height, Kind::Count);
            if fault.is_some() {
                return fault;
            }
            let fault = check_member(grid, "square", Field::Square, Kind::Count);
            if fault.is_some() {
                return fault;
            }
            let fault = check_member(grid, "values", Field::Alphabet, Kind::TextList);
            if fault.is_some() {
                return fault;
            }
            let fault = check_member(grid, "width", Field::Width, Kind::Count);
            if fault.is_some() {
                return fault;
            }
            check_member(document, "values", Field::Values, Kind::TextList)
        },
    }
}

/// Accepts a document that has the shape of a puzzle file, and refuses any
/// other with a message that names the first part that is missing or is not
/// what it has to be.
pub fn validate_json(j: Json) -> (outcome: Result<Json, String>)
    ensures
        match outcome {
            Ok(document) => shape_fault(j@) is None && document == j,
            Err(message) => shape_fault(j@) is Some && message@ == shape_text(shape_fault(j@)->0),
        },
{
    match check_shape(&j) {
        None => Ok(j),
        Some(fault) => Err(shape_message(fault)),
    }
}

/// Accepts a puzzle that has one clue slot for each cell of its grid, and
/// refuses any other with a message that gives the numbers.
pub fn validate_problem(p: Problem) -> (outcome: Result<Problem, String>)
    ensures
        match outcome {
            Ok(problem) => p.values@.len() == p.grid@.cells() && problem == p,
            Err(message) => p.values@.len() != p.grid@.cells() && message@ == count_text(
                p.grid@.width,
                p.grid@.height,
                p.values@.len(),
            ),
        },
{
    let width: u128 = p.grid.width as u128;
    let height: u128 = p.grid.height as u128;
    assert(width * height <= u128::MAX) by (nonlinear_arith)
        requires
            width <= 0xffff_ffff_ffff_ffff,
            height <= 0xffff_ffff_ffff_ffff,
    ;
    let size: u128 = width * height;
    let given: u128 = p.values.len() as u128;
    if given == size {
        Ok(p)
    } else {
        let mut message = String::from_str("Given grid information spesifies a grid of ");
        push_decimal(&mut message, width);
        message.append(" by ");
        push_decimal(&mut message, height);
        message.append(" requiring ");
        push_decimal(&mut message, size);
        message.append(" values, number of values given is ");
        push_decimal(&mut message, given);
        message.append(".");
        Err(message)
    }
}

/// The puzzle that a document gives: the document has to have the shape of a
/// puzzle file, state a puzzle, and give one clue slot for each cell.
pub fn problem_from_document(document: Json) -> (outcome: Result<Problem, String>)
    ensures
        outcome_is(outcome, read_document(document@)),
{
    match validate_json(document) {
        Err(message) => Err(message),
        Ok(document) => match parse(document) {
            Err(message) => Err(message),
            Ok(problem) => validate_problem(problem),
        },
    }
}

/// The puzzle that a JSON text gives, or the message with which the text is
/// refused: because it is not JSON, or for one of the reasons of
/// [`problem_from_document`].
pub fn read_problem(json_text: &str) -> (outcome: Result<Problem, String>)
    ensures
        outcome_is(outcome, read_parsed(json_parse(json_text@))),
{
    match parse_text(json_text) {
        Err(error) => Err(json_error_to_str(fault_of(&error))),
        Ok(value) => problem_from_document(document_of(&value)),
    }
}

} // verus!
