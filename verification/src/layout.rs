//! Where the agents start: a square grid filled in index order, and a
//! heading whose signs go by the parity of the contributor's figures.

use vstd::prelude::*;

verus! {

/// `columns` is the side of the smallest square grid with room for `count`
/// agents: the least number whose square is at least `count`.
pub open spec fn is_grid_side(count: nat, columns: nat) -> bool {
    &&& columns * columns >= count
    &&& columns > 0 ==> (columns - 1) * (columns - 1) < count
}

/// The component of a heading for a figure: the figure itself where it is
/// odd, its negative where it is even.
pub open spec fn signed_by_parity(figure: u32) -> int {
    if figure % 2 == 0 {
        -(figure as int)
    } else {
        figure as int
    }
}

/// The side of the grid for `count` agents.
pub fn grid_columns(count: usize) -> (columns: usize)
    ensures
        is_grid_side(count as nat, columns as nat),
{
    let mut columns: usize = 0;
    let mut square: u128 = 0;
    while square < count as u128
        invariant
            columns <= count,
            square == columns * columns,
            columns > 0 ==> (columns - 1) * (columns - 1) < count,
        decreases count - columns,
    {
        proof {
            assert(columns * columns < count ==> columns < count) by (nonlinear_arith);
            assert((columns + 1) * (columns + 1) == columns * columns + 2 * columns + 1)
                by (nonlinear_arith);
        }
        square = square + 2 * (columns as u128) + 1;
        columns = columns + 1;
    }
    columns
}

/// The grid cell of the agent `index`, as row and column, in a grid with
/// `columns` columns.
pub fn grid_cell(index: usize, columns: usize) -> (cell: (usize, usize))
    requires
        columns > 0,
    ensures
        cell.0 == index / columns,
        cell.1 == index % columns,
        cell.1 < columns,
        cell.0 * columns + cell.1 == index,
{
    proof {
        assert(0 <= (index as int) % (columns as int) < columns
            && ((index as int) / (columns as int)) * columns + (index as int) % (columns as int)
            == index) by (nonlinear_arith)
            requires
                columns > 0,
        ;
    }
    (index / columns, index % columns)
}

/// The direction an agent first heads in, before it is scaled to a speed:
/// additions along x and deletions along y, each signed by its parity.
pub fn heading(additions: u32, deletions: u32) -> (direction: (i64, i64))
    ensures
        direction.0 == signed_by_parity(additions),
        direction.1 == signed_by_parity(deletions),
{
    let x: i64 = if additions % 2 == 0 {
        -(additions as i64)
    } else {
        additions as i64
    };
    let y: i64 = if deletions % 2 == 0 {
        -(deletions as i64)
    } else {
        deletions as i64
    };
    (x, y)
}

/// Every agent of a population of `count` gets a cell inside the square:
/// its row, too, is below the side.
pub proof fn lemma_grid_holds_all(count: nat, columns: nat, index: nat)
    requires
        is_grid_side(count, columns),
        index < count,
    ensures
        columns > 0,
        index / columns < columns,
        index % columns < columns,
{
    assert(columns > 0) by (nonlinear_arith)
        requires
            columns * columns >= count,
            count > 0,
    ;
    assert(index / columns < columns && index % columns < columns) by (nonlinear_arith)
        requires
            columns > 0,
            index < columns * columns,
    ;
}

/// Only one number is the side of the grid for a given population.
pub proof fn lemma_grid_side_unique(count: nat, first: nat, second: nat)
    requires
        is_grid_side(count, first),
        is_grid_side(count, second),
    ensures
        first == second,
{
    if first < second {
        assert(first * first <= (second - 1) * (second - 1)) by (nonlinear_arith)
            requires
                first <= second - 1,
        ;
    } else if second < first {
        assert(second * second <= (first - 1) * (first - 1)) by (nonlinear_arith)
            requires
                second <= first - 1,
        ;
    }
}

} // verus!
