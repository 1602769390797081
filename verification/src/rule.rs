//! The rules of a grid, the cells that each of them governs, and the count of
//! the rules that an assignment violates.
use vstd::prelude::*;
use vstd::arithmetic::div_mod::{lemma_fundamental_div_mod, lemma_mod_bound, lemma_div_pos_is_pos};
use vstd::arithmetic::mul::{lemma_mul_inequality, lemma_mul_is_commutative, lemma_mul_upper_bound};
use itertools::Itertools;
use crate::grid::{GridInfo, GridModel};
use crate::sequence::{
    and_then, filter_map, has_duplicates, lemma_filter_map_contains, lemma_filter_map_duplicates,
    lemma_filter_map_step, lemma_filter_map_twice,
};

verus! {

/// A region of the grid in which no symbol may occur twice.
#[derive(Clone, Copy, Debug)]
pub enum Rule {
    /// The row with the given index.
    Row(usize),
    /// The column with the given index.
    Column(usize),
    /// The block in the given row of blocks and the given column of blocks.
    Square(usize, usize),
}

/// The mathematical content of a [`Rule`].
pub ghost enum RuleModel {
    Row(int),
    Column(int),
    Square(int, int),
}

impl View for Rule {
    type V = RuleModel;

    open spec fn view(&self) -> RuleModel {
        match self {
            Rule::Row(i) => RuleModel::Row(*i as int),
            Rule::Column(j) => RuleModel::Column(*j as int),
            Rule::Square(i, j) => RuleModel::Square(*i as int, *j as int),
        }
    }
}

/// Number of integers from `start` up to, not including, `end`.
pub open spec fn span(start: int, end: int) -> nat {
    if end > start {
        (end - start) as nat
    } else {
        0
    }
}

/// The pairs of a row from `row_start..row_end` and a column from
/// `column_start..column_end`, row by row.
pub open spec fn product(row_start: int, row_end: int, column_start: int, column_end: int) -> Seq<
    (int, int),
> {
    let columns = span(column_start, column_end) as int;
    Seq::new(
        span(row_start, row_end) * span(column_start, column_end),
        |k: int| (row_start + k / columns, column_start + k % columns),
    )
}

/// The cells that a rule governs, as (row, column), in row-major order.
pub open spec fn rule_cells(rule: RuleModel, grid: GridModel) -> Seq<(int, int)> {
    match rule {
        RuleModel::Row(i) => Seq::new(grid.width, |j: int| (i, j)),
        RuleModel::Column(j) => Seq::new(grid.height, |i: int| (i, j)),
        RuleModel::Square(i, j) => product(
            grid.square * i,
            grid.square * (i + 1),
            grid.square * j,
            grid.square * (j + 1),
        ),
    }
}

/// The place of a cell in the row-major layout; a cell off the grid has none.
pub open spec fn cell_index(row: int, column: int, grid: GridModel) -> Option<int> {
    if 0 <= row < grid.height && 0 <= column < grid.width {
        Some(column + grid.width * row)
    } else {
        None
    }
}

/// `cell_index` as a function of the cell.
pub open spec fn index_in(grid: GridModel) -> spec_fn((int, int)) -> Option<int> {
    |cell: (int, int)| cell_index(cell.0, cell.1, grid)
}

/// What an assignment holds at a place; nothing at a blank slot and nothing
/// outside the assignment.
pub open spec fn slot_in(a: Seq<Option<char>>) -> spec_fn(int) -> Option<char> {
    |i: int|
        if 0 <= i < a.len() {
            a[i]
        } else {
            None
        }
}

/// The symbol that an assignment holds in a cell; none for a blank cell and
/// none for a cell off the grid.
pub open spec fn symbol_at(a: Seq<Option<char>>, cell: (int, int), grid: GridModel) -> Option<char> {
    and_then(index_in(grid), slot_in(a))(cell)
}

/// Two different cells of the rule hold the same symbol.
pub open spec fn rule_violated(a: Seq<Option<char>>, rule: RuleModel, grid: GridModel) -> bool {
    let cells = rule_cells(rule, grid);
    exists|p: int, q: int|
        0 <= p < q < cells.len() && symbol_at(a, #[trigger] cells[p], grid) is Some && symbol_at(
            a,
            cells[p],
            grid,
        ) == symbol_at(a, #[trigger] cells[q], grid)
}

/// The row rules of a grid, top to bottom.
pub open spec fn row_rules(grid: GridModel) -> Seq<RuleModel> {
    Seq::new(grid.height, |i: int| RuleModel::Row(i))
}

/// The column rules of a grid, left to right.
pub open spec fn column_rules(grid: GridModel) -> Seq<RuleModel> {
    Seq::new(grid.width, |j: int| RuleModel::Column(j))
}

/// The block rules of a grid, row of blocks by row of blocks.
pub open spec fn block_rules(grid: GridModel) -> Seq<RuleModel> {
    let blocks = product(0, grid.block_rows() as int, 0, grid.block_columns() as int);
    Seq::new(blocks.len(), |k: int| RuleModel::Square(blocks[k].0, blocks[k].1))
}

/// Number of the given rules that the assignment violates.
pub open spec fn violated_among(a: Seq<Option<char>>, grid: GridModel, rules: Seq<RuleModel>) -> nat
    decreases rules.len(),
{
    if rules.len() == 0 {
        0
    } else {
        violated_among(a, grid, rules.drop_last()) + if rule_violated(a, rules.last(), grid) {
            1nat
        } else {
            0nat
        }
    }
}

/// Number of rules of the grid, rows, columns and blocks, that the assignment
/// violates.
pub open spec fn violations(a: Seq<Option<char>>, grid: GridModel) -> nat {
    violated_among(a, grid, row_rules(grid)) + violated_among(a, grid, column_rules(grid))
        + violated_among(a, grid, block_rules(grid))
}

/// The rule is one of the rules of the grid.
pub open spec fn is_rule_of(rule: RuleModel, grid: GridModel) -> bool {
    match rule {
        RuleModel::Row(i) => 0 <= i < grid.height,
        RuleModel::Column(j) => 0 <= j < grid.width,
        RuleModel::Square(i, j) => 0 <= i < grid.block_rows() && 0 <= j < grid.block_columns(),
    }
}

/// The rule's cells can be listed without leaving the machine's integers.
pub open spec fn rule_fits(rule: RuleModel, grid: GridModel) -> bool {
    match rule {
        RuleModel::Square(i, j) => {
            &&& 0 <= i < usize::MAX
            &&& 0 <= j < usize::MAX
            &&& grid.square * (i + 1) <= usize::MAX
            &&& grid.square * (j + 1) <= usize::MAX
            &&& grid.square * grid.square <= usize::MAX
        },
        _ => true,
    }
}

/// The cells of a list as pairs of integers.
pub open spec fn cells_of(v: Seq<(usize, usize)>) -> Seq<(int, int)> {
    Seq::new(v.len(), |k: int| (v[k].0 as int, v[k].1 as int))
}

/// The places of a list as integers.
pub open spec fn places_of(v: Seq<usize>) -> Seq<int> {
    Seq::new(v.len(), |k: int| v[k] as int)
}

/// The pairs of [`itertools::Itertools::cartesian_product`] on the ranges
/// `row_start..row_end` and `column_start..column_end`, collected into a
/// vector. The contract claims what that method's documentation shows: every
/// row is paired with every column, the rows in order and, for each row, the
/// columns in order; an empty range gives no pair. Callers keep the number of
/// pairs within `usize`, since a vector holds no more.
#[verifier::external_body]
fn cartesian_product(row_start: usize, row_end: usize, column_start: usize, column_end: usize) -> (pairs:
    Vec<(usize, usize)>)
    requires
        span(row_start as int, row_end as int) * span(column_start as int, column_end as int)
            <= usize::MAX,
    ensures
        cells_of(pairs@) == product(
            row_start as int,
            row_end as int,
            column_start as int,
            column_end as int,
        ),
{
    (row_start..row_end).cartesian_product(column_start..column_end).collect()
}

/// Where the pair with a given row and column stands in a product.
pub proof fn lemma_product_position(
    row_start: int,
    row_end: int,
    column_start: int,
    column_end: int,
    row: int,
    column: int,
)
    requires
        row_start <= row < row_end,
        column_start <= column < column_end,
    ensures
        ({
            let k = (row - row_start) * (column_end - column_start) + (column - column_start);
            &&& 0 <= k < product(row_start, row_end, column_start, column_end).len()
            &&& product(row_start, row_end, column_start, column_end)[k] == (row, column)
        }),
{
    let rows = row_end - row_start;
    let columns = column_end - column_start;
    let r = row - row_start;
    let c = column - column_start;
    let k = r * columns + c;
    assert(0 <= r * columns && r * columns + columns <= rows * columns) by (nonlinear_arith)
        requires
            0 <= r < rows,
            0 < columns,
    ;
    assert(k / columns == r && k % columns == c) by {
        vstd::arithmetic::div_mod::lemma_fundamental_div_mod_converse(k, columns, r, c);
        lemma_mul_is_commutative(r, columns);
    }
}

/// Every pair of a product has its row and its column in range.
pub proof fn lemma_product_member(
    row_start: int,
    row_end: int,
    column_start: int,
    column_end: int,
    k: int,
)
    requires
        0 <= k < product(row_start, row_end, column_start, column_end).len(),
    ensures
        row_start <= product(row_start, row_end, column_start, column_end)[k].0 < row_end,
        column_start <= product(row_start, row_end, column_start, column_end)[k].1 < column_end,
{
    let rows = span(row_start, row_end) as int;
    let columns = span(column_start, column_end) as int;
    assert(rows > 0 && columns > 0) by (nonlinear_arith)
        requires
            0 <= k < rows * columns,
            rows >= 0,
            columns >= 0,
    ;
    lemma_fundamental_div_mod(k, columns);
    lemma_mod_bound(k, columns);
    lemma_div_pos_is_pos(k, columns);
    assert(k / columns < rows) by (nonlinear_arith)
        requires
            k == columns * (k / columns) + k % columns,
            0 <= k % columns,
            k < rows * columns,
            columns > 0,
    ;
}

/// Lists the cells that a rule governs.
pub fn generate_rule(r: &Rule, g: &GridInfo) -> (cells: Vec<(usize, usize)>)
    requires
        rule_fits(r@, g@),
    ensures
        cells_of(cells@) == rule_cells(r@, g@),
{
    match *r {
        Rule::Row(i) => {
            let mut cells: Vec<(usize, usize)> = Vec::new();
            let mut j: usize = 0;
            while j < g.width
                invariant
                    j <= g.width,
                    cells@.len() == j,
                    forall|k: int| 0 <= k < j ==> cells@[k] == (i, k as usize),
                decreases g.width - j,
            {
                cells.push((i, j));
                j += 1;
            }
            assert(cells_of(cells@) =~= rule_cells(r@, g@));
            cells
        },
        Rule::Column(j) => {
            let mut cells: Vec<(usize, usize)> = Vec::new();
            let mut i: usize = 0;
            while i < g.height
                invariant
                    i <= g.height,
                    cells@.len() == i,
                    forall|k: int| 0 <= k < i ==> cells@[k] == (k as usize, j),
                decreases g.height - i,
            {
                cells.push((i, j));
                i += 1;
            }
            assert(cells_of(cells@) =~= rule_cells(r@, g@));
            cells
        },
        Rule::Square(i, j) => {
            let side = g.square;
            proof {
                assert(side * (i + 1) == side * i + side) by (nonlinear_arith);
                assert(side * (j + 1) == side * j + side) by (nonlinear_arith);
            }
            cartesian_product(side * i, side * (i + 1), side * j, side * (j + 1))
        },
    }
}

/// Maps a cell to its place in the row-major layout; a cell off the grid has
/// none.
pub fn flat_index(x: &usize, y: &usize, g: &GridInfo) -> (index: Option<usize>)
    requires
        g@.cells() <= usize::MAX,
    ensures
        match index {
            Some(i) => cell_index(*x as int, *y as int, g@) == Some(i as int),
            None => cell_index(*x as int, *y as int, g@) is None,
        },
{
    if *x < g.height && *y < g.width {
        assert(*y + g.width * *x < g.width * g.height) by (nonlinear_arith)
            requires
                *x < g.height,
                *y < g.width,
        ;
        Some(*y + g.width * *x)
    } else {
        None
    }
}

/// The places of the cells that lie on the grid, in the order of the cells.
pub fn flatten_indices(xs: &[(usize, usize)], g: &GridInfo) -> (indices: Vec<usize>)
    requires
        g@.cells() <= usize::MAX,
    ensures
        places_of(indices@) == filter_map(cells_of(xs@), index_in(g@)),
{
    let mut indices: Vec<usize> = Vec::new();
    let mut k: usize = 0;
    while k < xs.len()
        invariant
            k <= xs.len(),
            g@.cells() <= usize::MAX,
            places_of(indices@) == filter_map(cells_of(xs@).take(k as int), index_in(g@)),
        decreases xs.len() - k,
    {
        let (x, y) = xs[k];
        proof {
            lemma_filter_map_step(cells_of(xs@), index_in(g@), k as int);
        }
        match flat_index(&x, &y, g) {
            Some(i) => {
                let ghost before = places_of(indices@);
                indices.push(i);
                assert(places_of(indices@) =~= before.push(i as int));
            },
            None => {},
        }
        k += 1;
    }
    assert(cells_of(xs@).take(k as int) =~= cells_of(xs@));
    indices
}

/// Whether a symbol occurs at two positions of the list.
pub fn contains_duplicates(x: &[char]) -> (found: bool)
    ensures
        found == has_duplicates(x@),
{
    let mut i: usize = 0;
    while i < x.len()
        invariant
            i <= x.len(),
            forall|p: int, q: int| 0 <= p < i && p < q < x@.len() ==> x@[p] != x@[q],
        decreases x.len() - i,
    {
        let mut j: usize = i + 1;
        while j < x.len()
            invariant
                i < j <= x.len(),
                forall|q: int| i < q < j ==> x@[i as int] != x@[q],
            decreases x.len() - j,
        {
            if x[i] == x[j] {
                return true;
            }
            j += 1;
        }
        i += 1;
    }
    false
}

/// Every place that `index_in` gives lies on the grid.
proof fn lemma_places_on_grid(cells: Seq<(int, int)>, grid: GridModel, k: int)
    requires
        0 <= k < filter_map(cells, index_in(grid)).len(),
    ensures
        0 <= filter_map(cells, index_in(grid))[k] < grid.cells(),
{
    let places = filter_map(cells, index_in(grid));
    assert(places.contains(places[k]));
    lemma_filter_map_contains(cells, index_in(grid), places[k]);
    let p = choose|p: int| 0 <= p < cells.len() && index_in(grid)(#[trigger] cells[p]) == Some(places[k]);
    let (row, column) = cells[p];
    assert(column + grid.width * row < grid.width * grid.height) by (nonlinear_arith)
        requires
            0 <= row < grid.height,
            0 <= column < grid.width,
    ;
    assert(0 <= column + grid.width * row) by (nonlinear_arith)
        requires
            0 <= row,
            0 <= column,
            0 <= grid.width,
    ;
}

/// A rule is violated exactly when the list of the symbols in its cells holds
/// a symbol twice.
pub proof fn lemma_rule_violated(a: Seq<Option<char>>, rule: RuleModel, grid: GridModel)
    ensures
        rule_violated(a, rule, grid) <==> has_duplicates(
            filter_map(filter_map(rule_cells(rule, grid), index_in(grid)), slot_in(a)),
        ),
{
    let cells = rule_cells(rule, grid);
    let f = and_then(index_in(grid), slot_in(a));
    lemma_filter_map_twice(cells, index_in(grid), slot_in(a));
    lemma_filter_map_duplicates(cells, f);
    if rule_violated(a, rule, grid) {
        let (p, q) = choose|p: int, q: int|
            0 <= p < q < cells.len() && symbol_at(a, #[trigger] cells[p], grid) is Some && symbol_at(
                a,
                cells[p],
                grid,
            ) == symbol_at(a, #[trigger] cells[q], grid);
        assert(f(cells[p]) is Some && f(cells[p]) == f(cells[q]));
    }
    if has_duplicates(filter_map(cells, f)) {
        let (p, q) = choose|p: int, q: int|
            0 <= p < q < cells.len() && f(#[trigger] cells[p]) is Some && f(cells[p]) == f(
                #[trigger] cells[q],
            );
        assert(symbol_at(a, cells[p], grid) is Some && symbol_at(a, cells[p], grid) == symbol_at(
            a,
            cells[q],
            grid,
        ));
    }
}

/// Whether the assignment keeps the rule: `true` when no symbol occurs twice
/// in the rule's cells.
pub fn check_rule(g: &[Option<char>], r: &Rule, gi: &GridInfo) -> (kept: bool)
    requires
        g@.len() == gi@.cells(),
        rule_fits(r@, gi@),
    ensures
        kept == !rule_violated(g@, r@, gi@),
{
    let slots = g.len();
    let cells = generate_rule(r, gi);
    let indices = flatten_indices(cells.as_slice(), gi);
    let ghost places = filter_map(rule_cells(r@, gi@), index_in(gi@));
    let mut values: Vec<char> = Vec::new();
    let mut k: usize = 0;
    while k < indices.len()
        invariant
            k <= indices.len(),
            g@.len() == gi@.cells(),
            slots == g@.len(),
            places_of(indices@) == places,
            places == filter_map(rule_cells(r@, gi@), index_in(gi@)),
            values@ == filter_map(places.take(k as int), slot_in(g@)),
        decreases indices.len() - k,
    {
        proof {
            lemma_places_on_grid(rule_cells(r@, gi@), gi@, k as int);
            lemma_filter_map_step(places, slot_in(g@), k as int);
            assert(places[k as int] == indices@[k as int] as int);
        }
        match g[indices[k]] {
            Some(symbol) => {
                values.push(symbol);
            },
            None => {},
        }
        k += 1;
    }
    proof {
        assert(places.take(k as int) =~= places);
        lemma_rule_violated(g@, r@, gi@);
    }
    !contains_duplicates(values.as_slice())
}

/// One more rule adds one to the count when the assignment violates it.
proof fn lemma_violated_among_step(a: Seq<Option<char>>, grid: GridModel, rules: Seq<RuleModel>, n: int)
    requires
        0 <= n < rules.len(),
    ensures
        violated_among(a, grid, rules.take(n + 1)) == violated_among(a, grid, rules.take(n))
            + if rule_violated(a, rules[n], grid) {
            1nat
        } else {
            0nat
        },
        violated_among(a, grid, rules.take(n)) <= n,
    decreases n,
{
    assert(rules.take(n + 1).drop_last() =~= rules.take(n));
    if n > 0 {
        lemma_violated_among_step(a, grid, rules, n - 1);
    }
}

/// The count is positive exactly when the assignment violates one of the
/// rules.
pub proof fn lemma_violated_among_positive(a: Seq<Option<char>>, grid: GridModel, rules: Seq<RuleModel>)
    ensures
        violated_among(a, grid, rules) > 0 <==> exists|k: int|
            0 <= k < rules.len() && rule_violated(a, #[trigger] rules[k], grid),
    decreases rules.len(),
{
    if rules.len() > 0 {
        let front = rules.drop_last();
        lemma_violated_among_positive(a, grid, front);
        if violated_among(a, grid, rules) > 0 {
            if rule_violated(a, rules.last(), grid) {
                assert(rule_violated(a, rules[rules.len() - 1], grid));
            } else {
                let k = choose|k: int| 0 <= k < front.len() && rule_violated(a, #[trigger] front[k], grid);
                assert(rule_violated(a, rules[k], grid));
            }
        }
        if exists|k: int| 0 <= k < rules.len() && rule_violated(a, #[trigger] rules[k], grid) {
            let k = choose|k: int| 0 <= k < rules.len() && rule_violated(a, #[trigger] rules[k], grid);
            if k < rules.len() - 1 {
                assert(rule_violated(a, front[k], grid));
            }
        }
    }
}

/// An assignment has a violation exactly when it violates a rule of the grid.
pub proof fn lemma_violations_positive(a: Seq<Option<char>>, grid: GridModel)
    ensures
        violations(a, grid) > 0 <==> exists|rule: RuleModel|
            is_rule_of(rule, grid) && #[trigger] rule_violated(a, rule, grid),
{
    let rows = row_rules(grid);
    let columns = column_rules(grid);
    let blocks = block_rules(grid);
    let pairs = product(0, grid.block_rows() as int, 0, grid.block_columns() as int);
    lemma_violated_among_positive(a, grid, rows);
    lemma_violated_among_positive(a, grid, columns);
    lemma_violated_among_positive(a, grid, blocks);
    if violations(a, grid) > 0 {
        if violated_among(a, grid, rows) > 0 {
            let k = choose|k: int| 0 <= k < rows.len() && rule_violated(a, #[trigger] rows[k], grid);
            assert(is_rule_of(rows[k], grid) && rule_violated(a, rows[k], grid));
        } else if violated_among(a, grid, columns) > 0 {
            let k = choose|k: int|
                0 <= k < columns.len() && rule_violated(a, #[trigger] columns[k], grid);
            assert(is_rule_of(columns[k], grid) && rule_violated(a, columns[k], grid));
        } else {
            let k = choose|k: int| 0 <= k < blocks.len() && rule_violated(a, #[trigger] blocks[k], grid);
            lemma_product_member(0, grid.block_rows() as int, 0, grid.block_columns() as int, k);
            assert(is_rule_of(blocks[k], grid) && rule_violated(a, blocks[k], grid));
        }
    }
    if exists|rule: RuleModel| is_rule_of(rule, grid) && #[trigger] rule_violated(a, rule, grid) {
        let rule = choose|rule: RuleModel| is_rule_of(rule, grid) && #[trigger] rule_violated(a, rule, grid);
        match rule {
            RuleModel::Row(i) => {
                assert(rule_violated(a, rows[i], grid));
            },
            RuleModel::Column(j) => {
                assert(rule_violated(a, columns[j], grid));
            },
            RuleModel::Square(i, j) => {
                lemma_product_position(
                    0,
                    grid.block_rows() as int,
                    0,
                    grid.block_columns() as int,
                    i,
                    j,
                );
                let k = i * grid.block_columns() + j;
                assert(blocks[k] == rule);
                assert(rule_violated(a, blocks[k], grid));
            },
        }
    }
}

/// A block of the grid lies on the grid.
pub proof fn lemma_block_on_grid(grid: GridModel, i: int, j: int)
    requires
        0 <= i < grid.block_rows(),
        0 <= j < grid.block_columns(),
    ensures
        grid.square > 0,
        0 <= grid.square * i < grid.square * (i + 1) <= grid.height,
        0 <= grid.square * j < grid.square * (j + 1) <= grid.width,
        grid.square * (i + 1) - grid.square * i == grid.square,
        grid.square * (j + 1) - grid.square * j == grid.square,
{
    let side = grid.square as int;
    let height = grid.height as int;
    let width = grid.width as int;
    lemma_fundamental_div_mod(height, side);
    lemma_fundamental_div_mod(width, side);
    lemma_mod_bound(height, side);
    lemma_mod_bound(width, side);
    lemma_mul_inequality(i + 1, height / side, side);
    lemma_mul_inequality(j + 1, width / side, side);
    lemma_mul_is_commutative(side, i + 1);
    lemma_mul_is_commutative(side, j + 1);
    lemma_mul_is_commutative(side, height / side);
    lemma_mul_is_commutative(side, width / side);
    assert(0 <= side * i && side * (i + 1) == side * i + side) by (nonlinear_arith)
        requires
            side > 0,
            i >= 0,
    ;
    assert(0 <= side * j && side * (j + 1) == side * j + side) by (nonlinear_arith)
        requires
            side > 0,
            j >= 0,
    ;
}

/// Every block rule of a grid can be listed within the machine's integers
/// when the grid's cells can be counted within them.
proof fn lemma_block_fits(grid: GridModel, i: int, j: int)
    requires
        grid.cells() <= usize::MAX,
        0 <= i < grid.block_rows(),
        0 <= j < grid.block_columns(),
    ensures
        rule_fits(RuleModel::Square(i, j), grid),
{
    let side = grid.square as int;
    let height = grid.height as int;
    let width = grid.width as int;
    lemma_block_on_grid(grid, i, j);
    lemma_mul_upper_bound(side, width, side, height);
    assert(width <= width * height) by (nonlinear_arith)
        requires
            width >= 0,
            height >= 1,
    ;
    assert(height <= width * height) by (nonlinear_arith)
        requires
            width >= 1,
            height >= 0,
    ;
}

/// Every cell of a rule of the grid lies on the grid.
pub proof fn lemma_rule_cell_on_grid(rule: RuleModel, grid: GridModel, p: int)
    requires
        is_rule_of(rule, grid),
        0 <= p < rule_cells(rule, grid).len(),
    ensures
        cell_index(rule_cells(rule, grid)[p].0, rule_cells(rule, grid)[p].1, grid) is Some,
        0 <= cell_index(rule_cells(rule, grid)[p].0, rule_cells(rule, grid)[p].1, grid)->0
            < grid.cells(),
{
    let (row, column) = rule_cells(rule, grid)[p];
    match rule {
        RuleModel::Square(i, j) => {
            lemma_block_on_grid(grid, i, j);
            lemma_product_member(
                grid.square * i,
                grid.square * (i + 1),
                grid.square * j,
                grid.square * (j + 1),
                p,
            );
        },
        _ => {},
    }
    assert(0 <= column + grid.width * row < grid.width * grid.height) by (nonlinear_arith)
        requires
            0 <= row < grid.height,
            0 <= column < grid.width,
    ;
}

/// Number of cells of a rule of the grid: the width for a row, the height
/// for a column, the square of the side for a block.
pub proof fn lemma_rule_size(rule: RuleModel, grid: GridModel)
    requires
        is_rule_of(rule, grid),
    ensures
        rule_cells(rule, grid).len() == match rule {
            RuleModel::Row(_) => grid.width,
            RuleModel::Column(_) => grid.height,
            RuleModel::Square(_, _) => grid.square * grid.square,
        },
{
    match rule {
        RuleModel::Square(i, j) => {
            lemma_block_on_grid(grid, i, j);
        },
        _ => {},
    }
}

/// Counts the rules of the grid that the assignment violates: the rows, the
/// columns and the blocks in which a symbol occurs twice. Blank cells never
/// count.
pub fn check_rules(g: &[Option<char>], gi: &GridInfo) -> (broken: u32)
    requires
        g@.len() == gi@.cells(),
        gi@.rule_count() <= u32::MAX,
    ensures
        broken == violations(g@, gi@),
{
    let ghost rows = row_rules(gi@);
    let ghost columns = column_rules(gi@);
    let ghost blocks = block_rules(gi@);
    let slots = g.len();
    let mut broken: u32 = 0;
    let mut i: usize = 0;
    while i < gi.height
        invariant
            i <= gi.height,
            g@.len() == gi@.cells(),
            gi@.rule_count() <= u32::MAX,
            rows == row_rules(gi@),
            broken == violated_among(g@, gi@, rows.take(i as int)),
            broken <= i,
        decreases gi.height - i,
    {
        proof {
            lemma_violated_among_step(g@, gi@, rows, i as int);
        }
        if !check_rule(g, &Rule::Row(i), gi) {
            broken += 1;
        }
        i += 1;
    }
    assert(rows.take(i as int) =~= rows);
    let mut j: usize = 0;
    while j < gi.width
        invariant
            j <= gi.width,
            g@.len() == gi@.cells(),
            gi@.rule_count() <= u32::MAX,
            columns == column_rules(gi@),
            broken == violated_among(g@, gi@, row_rules(gi@)) + violated_among(
                g@,
                gi@,
                columns.take(j as int),
            ),
            broken <= gi.height + j,
        decreases gi.width - j,
    {
        proof {
            lemma_violated_among_step(g@, gi@, columns, j as int);
        }
        if !check_rule(g, &Rule::Column(j), gi) {
            broken += 1;
        }
        j += 1;
    }
    assert(columns.take(j as int) =~= columns);
    if gi.square > 0 {
        let pairs = cartesian_product(0, gi.height / gi.square, 0, gi.width / gi.square);
        let mut k: usize = 0;
        while k < pairs.len()
            invariant
                k <= pairs.len(),
                gi.square > 0,
                slots == g@.len(),
                g@.len() == gi@.cells(),
                gi@.rule_count() <= u32::MAX,
                blocks == block_rules(gi@),
                cells_of(pairs@) == product(0, gi@.block_rows() as int, 0, gi@.block_columns() as int),
                pairs@.len() == blocks.len(),
                pairs@.len() == gi@.block_rows() * gi@.block_columns(),
                broken == violated_among(g@, gi@, row_rules(gi@)) + violated_among(
                    g@,
                    gi@,
                    column_rules(gi@),
                ) + violated_among(g@, gi@, blocks.take(k as int)),
                broken <= gi.height + gi.width + k,
            decreases pairs.len() - k,
        {
            let (bi, bj) = pairs[k];
            proof {
                lemma_violated_among_step(g@, gi@, blocks, k as int);
                lemma_product_member(
                    0,
                    gi@.block_rows() as int,
                    0,
                    gi@.block_columns() as int,
                    k as int,
                );
                assert(cells_of(pairs@)[k as int] == (bi as int, bj as int));
                lemma_block_fits(gi@, bi as int, bj as int);
                assert(blocks[k as int] == Rule::Square(bi, bj)@);
            }
            if !check_rule(g, &Rule::Square(bi, bj), gi) {
                broken += 1;
            }
            k += 1;
        }
        assert(blocks.take(k as int) =~= blocks);
    } else {
        assert(blocks.len() == 0);
    }
    broken
}

} // verus!
