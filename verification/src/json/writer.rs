//! From a solution to a JSON document and its text.
use vstd::prelude::*;
use crate::grid::{GridInfo, GridModel, Problem};
use crate::json::codec::{json_text, text_of, value_of};
use crate::json::document::{documents, lemma_array_view, members, Json, JsonValue};
use crate::text::push_char;

verus! {

/// The document for a symbol: the text made of the symbol alone.
pub open spec fn symbol_document(symbol: char) -> JsonValue {
    JsonValue::Text(seq![symbol])
}

/// The document for a list of symbols: the list of their documents.
pub open spec fn symbols_document(symbols: Seq<char>) -> JsonValue {
    JsonValue::Array(Seq::new(symbols.len(), |i: int| symbol_document(symbols[i])))
}

/// The document for a grid: an object with the three sizes and the
/// alphabet.
pub open spec fn grid_document(grid: GridModel) -> JsonValue {
    JsonValue::Object(
        Map::empty().insert("width"@, JsonValue::Count(grid.width)).insert(
            "height"@,
            JsonValue::Count(grid.height),
        ).insert("square"@, JsonValue::Count(grid.square)).insert(
            "values"@,
            symbols_document(grid.values),
        ),
    )
}

/// The document for a solution: an object with the grid and the symbols of
/// the solution, cell by cell.
pub open spec fn solution_document(grid: GridModel, solution: Seq<char>) -> JsonValue {
    JsonValue::Object(
        Map::empty().insert("grid"@, grid_document(grid)).insert(
            "values"@,
            symbols_document(solution),
        ),
    )
}

/// The document for a symbol.
pub fn char_to_json(cs: &char) -> (document: Json)
    ensures
        document@ == symbol_document(*cs),
{
    let mut text = String::new();
    push_char(&mut text, *cs);
    assert(text@ =~= seq![*cs]);
    Json::Text(text)
}

/// The document for a size.
pub fn usize_to_json(u: usize) -> (document: Json)
    ensures
        document@ == JsonValue::Count(u as nat),
{
    Json::Count(u as u64)
}

/// The document for a list of symbols.
fn symbols_to_json(symbols: &[char]) -> (document: Json)
    ensures
        document@ == symbols_document(symbols@),
{
    let mut items: Vec<Json> = Vec::new();
    let mut i: usize = 0;
    while i < symbols.len()
        invariant
            i <= symbols.len(),
            items@.len() == i,
            forall|k: int| 0 <= k < i ==> (#[trigger] items@[k])@ == symbol_document(symbols@[k]),
        decreases symbols.len() - i,
    {
        items.push(char_to_json(&symbols[i]));
        i += 1;
    }
    proof {
        lemma_array_view(items);
        assert(documents(items@) =~= symbols_document(symbols@)->Array_0);
    }
    Json::Array(items)
}

/// The document for a grid.
pub fn grid_to_json(g: &GridInfo) -> (document: Json)
    ensures
        document@ == grid_document(g@),
{
    let mut entries: Vec<(String, Json)> = Vec::new();
    entries.push((String::from_str("width"), usize_to_json(g.width)));
    entries.push((String::from_str("height"), usize_to_json(g.height)));
    entries.push((String::from_str("square"), usize_to_json(g.square)));
    entries.push((String::from_str("values"), symbols_to_json(g.values.as_slice())));
    proof {
        let e = entries@;
        assert(members(e, 1) == members(e, 0).insert(e[0].0@, e[0].1@));
        assert(members(e, 2) == members(e, 1).insert(e[1].0@, e[1].1@));
        assert(members(e, 3) == members(e, 2).insert(e[2].0@, e[2].1@));
        assert(members(e, 4) == members(e, 3).insert(e[3].0@, e[3].1@));
        assert(members(e, 4) =~= grid_document(g@)->Object_0);
    }
    Json::Object(entries)
}

/// The document for a solution of a problem.
pub fn solution_to_json(problem: &Problem, solution: &[char]) -> (document: Json)
    ensures
        document@ == solution_document(problem.grid@, solution@),
{
    let mut entries: Vec<(String, Json)> = Vec::new();
    entries.push((String::from_str("grid"), grid_to_json(&problem.grid)));
    entries.push((String::from_str("values"), symbols_to_json(solution)));
    proof {
        let e = entries@;
        assert(members(e, 1) == members(e, 0).insert(e[0].0@, e[0].1@));
        assert(members(e, 2) == members(e, 1).insert(e[1].0@, e[1].1@));
        assert(members(e, 2) =~= solution_document(problem.grid@, solution@)->Object_0);
    }
    Json::Object(entries)
}

/// The document for a list of symbols says all that is to be written.
pub proof fn lemma_symbols_document_exact(symbols: Seq<char>)
    ensures
        symbols_document(symbols).is_exact(),
{
    let items = symbols_document(symbols)->Array_0;
    assert forall|i: int| 0 <= i < items.len() implies (#[trigger] items[i]).is_exact() by {}
}

/// The document for a solution says all that is to be written.
pub proof fn lemma_solution_document_exact(grid: GridModel, solution: Seq<char>)
    ensures
        grid_document(grid).is_exact(),
        solution_document(grid, solution).is_exact(),
{
    lemma_symbols_document_exact(grid.values);
    lemma_symbols_document_exact(solution);
    let inner = grid_document(grid)->Object_0;
    assert forall|key: Seq<char>| inner.contains_key(key) implies (#[trigger] inner[key]).is_exact() by {}
    let outer = solution_document(grid, solution)->Object_0;
    assert forall|key: Seq<char>| outer.contains_key(key) implies (#[trigger] outer[key]).is_exact() by {}
}

/// The JSON text for a solution of a problem: the grid, and the symbols of
/// the solution as texts of one character each.
pub fn write_solution(p: &Problem, s: &[char]) -> (text: String)
    ensures
        text@ == json_text(solution_document(p.grid@, s@)),
{
    let document = solution_to_json(p, s);
    proof {
        lemma_solution_document_exact(p.grid@, s@);
    }
    let value = value_of(&document);
    text_of(&value)
}

} // verus!
