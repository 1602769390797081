//! What holds of reading and writing for every grid and every solution.
use vstd::prelude::*;
use crate::assignment::{clues, lemma_symbols_of_clues};
use crate::grid::{GridModel, ProblemModel};
use crate::helper::completions;
use crate::json::document::JsonValue;
use crate::json::reader::{item_symbol, problem_of, read_document, shape_fault};
use crate::json::writer::{grid_document, solution_document, symbols_document};
use crate::rule::violations;
use crate::sequence::filter_map;

verus! {

/// The keys of a puzzle file differ from one another.
proof fn lemma_keys_differ()
    ensures
        "grid"@ != "values"@,
        "width"@ != "height"@,
        "width"@ != "square"@,
        "width"@ != "values"@,
        "height"@ != "square"@,
        "height"@ != "values"@,
        "square"@ != "values"@,
{
    reveal_strlit("grid");
    reveal_strlit("values");
    reveal_strlit("width");
    reveal_strlit("height");
    reveal_strlit("square");
    assert("grid"@.len() == 4 && "values"@.len() == 6 && "width"@.len() == 5);
    assert("height"@[0] == 'h' && "square"@[0] == 's' && "values"@[0] == 'v');
}

/// A list of symbols, none of them the placeholder, is read back from its
/// document symbol by symbol.
proof fn lemma_symbols_read_back(symbols: Seq<char>)
    requires
        !symbols.contains('-'),
    ensures
        filter_map(symbols_document(symbols)->Array_0, item_symbol()) == symbols,
    decreases symbols.len(),
{
    let items = symbols_document(symbols)->Array_0;
    if symbols.len() == 0 {
        assert(filter_map(items, item_symbol()) =~= symbols);
    } else {
        let front = symbols.drop_last();
        assert(!front.contains('-')) by {
            if front.contains('-') {
                let i = choose|i: int| 0 <= i < front.len() && front[i] == '-';
                assert(symbols[i] == '-');
            }
        }
        lemma_symbols_read_back(front);
        assert(items.drop_last() =~= symbols_document(front)->Array_0);
        assert(symbols.last() != '-') by {
            assert(symbols[symbols.len() - 1] == symbols.last());
        }
        assert(item_symbol()(items.last()) == Some(symbols.last()));
        assert(front.push(symbols.last()) =~= symbols);
    }
}

/// The document written for a solution is read back as the puzzle on the
/// same grid whose clues are the solution, when the placeholder `-` is
/// neither in the alphabet nor in the solution.
pub proof fn lemma_written_solution_reads_back(grid: GridModel, solution: Seq<char>)
    requires
        grid.width <= usize::MAX,
        grid.height <= usize::MAX,
        grid.square <= usize::MAX,
        solution.len() == grid.cells(),
        !grid.values.contains('-'),
        !solution.contains('-'),
    ensures
        read_document(solution_document(grid, solution)) == Ok::<ProblemModel, Seq<char>>(
            ProblemModel { grid, values: clues(solution) },
        ),
{
    let document = solution_document(grid, solution);
    let inner = grid_document(grid);
    lemma_keys_differ();
    assert(document.at("grid"@) == inner);
    assert(document.at("values"@) == symbols_document(solution));
    assert(inner.at("height"@) == JsonValue::Count(grid.height));
    assert(inner.at("width"@) == JsonValue::Count(grid.width));
    assert(inner.at("square"@) == JsonValue::Count(grid.square));
    assert(inner.at("values"@) == symbols_document(grid.values));
    assert(shape_fault(document) is None);
    lemma_symbols_read_back(grid.values);
    let read = problem_of(document)->0;
    assert(read.values =~= clues(solution)) by {
        assert forall|i: int| 0 <= i < solution.len() implies read.values[i] == clues(solution)[i] by {
            assert(solution[i] != '-');
        }
    }
}

/// A solution that is written and read back as a puzzle has itself as its
/// only solution, when the placeholder `-` is neither in the alphabet nor in
/// the solution.
pub proof fn lemma_solution_round_trip(grid: GridModel, solution: Seq<char>)
    requires
        grid.width <= usize::MAX,
        grid.height <= usize::MAX,
        grid.square <= usize::MAX,
        solution.len() == grid.cells(),
        violations(clues(solution), grid) == 0,
        !grid.values.contains('-'),
        !solution.contains('-'),
    ensures
        read_document(solution_document(grid, solution)) is Ok,
        completions(
            read_document(solution_document(grid, solution))->Ok_0.grid,
            read_document(solution_document(grid, solution))->Ok_0.values,
        ) == seq![solution],
{
    lemma_written_solution_reads_back(grid, solution);
    lemma_symbols_of_clues(solution);
}

} // verus!
