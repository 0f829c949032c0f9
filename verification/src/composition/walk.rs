//! Walks over the open cells of a grid: what a flood fill reaches.

use vstd::prelude::*;
use crate::composition::traits::{judged_equal, EqualityChecker};

verus! {

/// Width of a grid: the length of its first row, 0 without rows.
pub open spec fn grid_width(grid: Seq<Vec<u32>>) -> int {
    if grid.len() > 0 {
        grid[0].len() as int
    } else {
        0
    }
}

/// Whether every row of the grid is at least as long as the first.
pub open spec fn rows_reach(grid: Seq<Vec<u32>>) -> bool {
    forall|r: int| 0 <= r < grid.len() ==> (#[trigger] grid[r]).len() >= grid_width(grid)
}

/// Whether the marks cover the grid: a mark for every cell of every row, up
/// to the width of the grid.
pub open spec fn covers(marks: Seq<Vec<bool>>, grid: Seq<Vec<u32>>) -> bool {
    &&& marks.len() >= grid.len()
    &&& forall|r: int| 0 <= r < grid.len() ==> (#[trigger] marks[r]).len() >= grid_width(grid)
}

/// The marks as a mathematical value.
pub open spec fn seen_of(marks: Seq<Vec<bool>>) -> Seq<Seq<bool>> {
    Seq::new(marks.len(), |r: int| marks[r]@)
}

/// A cell as a pair of integers.
pub open spec fn point(cell: (usize, usize)) -> (int, int) {
    (cell.0 as int, cell.1 as int)
}

/// Whether the cell is one of the list.
pub open spec fn in_cells(cells: Seq<(usize, usize)>, cell: (int, int)) -> bool {
    exists|k: int|
        0 <= k < cells.len() && (#[trigger] cells[k]).0 == cell.0 && cells[k].1 == cell.1
}

/// Whether no cell is listed twice.
pub open spec fn cells_distinct(cells: Seq<(usize, usize)>) -> bool {
    forall|k: int, l: int| 0 <= k < l < cells.len() ==> #[trigger] cells[k] != #[trigger] cells[l]
}

/// Whether a fill for `target` may enter the cell: it lies on the grid,
/// within the width, it is not marked as seen, and the unit holds its value
/// equal to the target.
pub open spec fn open_cell<E: EqualityChecker>(
    checker: &E,
    grid: Seq<Vec<u32>>,
    seen: Seq<Seq<bool>>,
    target: u32,
    cell: (int, int),
) -> bool {
    &&& 0 <= cell.0 < grid.len()
    &&& 0 <= cell.1 < grid_width(grid)
    &&& !seen[cell.0][cell.1]
    &&& judged_equal(checker, grid[cell.0][cell.1], target)
}

/// Whether two cells share a side.
pub open spec fn adjacent(a: (int, int), b: (int, int)) -> bool {
    ||| a.0 == b.0 && (a.1 == b.1 + 1 || b.1 == a.1 + 1)
    ||| a.1 == b.1 && (a.0 == b.0 + 1 || b.0 == a.0 + 1)
}

/// Whether `walk` is a walk over open cells: at least one cell, every cell
/// open, and each next to the one before.
pub open spec fn is_walk<E: EqualityChecker>(
    checker: &E,
    grid: Seq<Vec<u32>>,
    seen: Seq<Seq<bool>>,
    target: u32,
    walk: Seq<(int, int)>,
) -> bool {
    &&& walk.len() > 0
    &&& forall|i: int| 0 <= i < walk.len() ==> open_cell(checker, grid, seen, target, #[trigger] walk[i])
    &&& forall|i: int| 0 <= i < walk.len() - 1 ==> adjacent(#[trigger] walk[i], walk[i + 1])
}

/// Whether a walk over open cells leads from one cell to the other.
pub open spec fn reaches<E: EqualityChecker>(
    checker: &E,
    grid: Seq<Vec<u32>>,
    seen: Seq<Seq<bool>>,
    target: u32,
    from: (int, int),
    to: (int, int),
) -> bool {
    exists|walk: Seq<(int, int)>| #[trigger]
        is_walk(checker, grid, seen, target, walk) && walk[0] == from && walk.last() == to
}

/// An open cell reaches itself.
pub proof fn lemma_reaches_self<E: EqualityChecker>(
    checker: &E,
    grid: Seq<Vec<u32>>,
    seen: Seq<Seq<bool>>,
    target: u32,
    cell: (int, int),
)
    requires
        open_cell(checker, grid, seen, target, cell),
    ensures
        reaches(checker, grid, seen, target, cell, cell),
{
    let walk = seq![cell];
    assert(is_walk(checker, grid, seen, target, walk));
}

/// What reaches a cell reaches its open neighbours.
pub proof fn lemma_reaches_next<E: EqualityChecker>(
    checker: &E,
    grid: Seq<Vec<u32>>,
    seen: Seq<Seq<bool>>,
    target: u32,
    from: (int, int),
    via: (int, int),
    to: (int, int),
)
    requires
        reaches(checker, grid, seen, target, from, via),
        adjacent(via, to),
        open_cell(checker, grid, seen, target, to),
    ensures
        reaches(checker, grid, seen, target, from, to),
{
    let walk = choose|walk: Seq<(int, int)>| #[trigger]
        is_walk(checker, grid, seen, target, walk) && walk[0] == from && walk.last() == via;
    let longer = walk.push(to);
    assert forall|i: int| 0 <= i < longer.len() implies open_cell(
        checker,
        grid,
        seen,
        target,
        #[trigger] longer[i],
    ) by {
        if i < walk.len() {
            assert(longer[i] == walk[i]);
        }
    }
    assert forall|i: int| 0 <= i < longer.len() - 1 implies adjacent(
        #[trigger] longer[i],
        longer[i + 1],
    ) by {
        if i < walk.len() - 1 {
            assert(longer[i] == walk[i]);
            assert(longer[i + 1] == walk[i + 1]);
        }
    }
    assert(is_walk(checker, grid, seen, target, longer));
    assert(longer[0] == from && longer.last() == to);
}

/// A list of cells that holds the start, where that is open, and every open
/// neighbour of each of its cells, holds every cell of every walk from the
/// start.
pub proof fn lemma_walk_inside<E: EqualityChecker>(
    checker: &E,
    grid: Seq<Vec<u32>>,
    seen: Seq<Seq<bool>>,
    target: u32,
    cells: Seq<(usize, usize)>,
    walk: Seq<(int, int)>,
    i: int,
)
    requires
        is_walk(checker, grid, seen, target, walk),
        0 <= i < walk.len(),
        in_cells(cells, walk[0]),
        forall|k: int, q: (int, int)|
            0 <= k < cells.len() && #[trigger] adjacent(point(cells[k]), q) && open_cell(
                checker,
                grid,
                seen,
                target,
                q,
            ) ==> in_cells(cells, q),
    ensures
        in_cells(cells, walk[i]),
    decreases i,
{
    if i > 0 {
        lemma_walk_inside(checker, grid, seen, target, cells, walk, i - 1);
        let k = choose|k: int|
            0 <= k < cells.len() && (#[trigger] cells[k]).0 == walk[i - 1].0 && cells[k].1 == walk[i
                - 1].1;
        assert(point(cells[k]) == walk[i - 1]);
        assert(adjacent(walk[i - 1], walk[i]));
        assert(adjacent(point(cells[k]), walk[i]));
    }
}

/// Number of unmarked cells among the first `w` of a row.
pub open spec fn row_free(row: Seq<bool>, w: int) -> nat
    decreases w,
{
    if w <= 0 {
        0
    } else {
        row_free(row, w - 1) + if row[w - 1] {
            0nat
        } else {
            1nat
        }
    }
}

/// Number of unmarked cells among the first `w` of the first `h` rows.
pub open spec fn grid_free(marks: Seq<Vec<bool>>, h: int, w: int) -> nat
    decreases h,
{
    if h <= 0 {
        0
    } else {
        grid_free(marks, h - 1, w) + row_free(marks[h - 1]@, w)
    }
}

/// Rows that agree on their first `w` cells have as many unmarked cells
/// there.
pub proof fn lemma_row_same(row: Seq<bool>, other: Seq<bool>, w: int)
    requires
        forall|c: int| 0 <= c < w ==> row[c] == other[c],
    ensures
        row_free(row, w) == row_free(other, w),
    decreases w,
{
    if w > 0 {
        lemma_row_same(row, other, w - 1);
    }
}

/// Marking an unmarked cell of a row leaves one unmarked cell less.
pub proof fn lemma_row_mark(row: Seq<bool>, other: Seq<bool>, w: int, c: int)
    requires
        0 <= c < w <= row.len(),
        !row[c],
        other == row.update(c, true),
    ensures
        row_free(other, w) + 1 == row_free(row, w),
    decreases w,
{
    if w - 1 == c {
        lemma_row_same(row, other, w - 1);
    } else {
        lemma_row_mark(row, other, w - 1, c);
    }
}

/// Marks that agree on the first `h` rows have as many unmarked cells
/// there.
pub proof fn lemma_grid_same(marks: Seq<Vec<bool>>, other: Seq<Vec<bool>>, h: int, w: int)
    requires
        forall|r: int| 0 <= r < h ==> (#[trigger] marks[r])@ == other[r]@,
    ensures
        grid_free(marks, h, w) == grid_free(other, h, w),
    decreases h,
{
    if h > 0 {
        lemma_grid_same(marks, other, h - 1, w);
        assert(marks[h - 1]@ == other[h - 1]@);
    }
}

/// Marking an unmarked cell of the grid leaves one unmarked cell less.
pub proof fn lemma_grid_mark(
    marks: Seq<Vec<bool>>,
    other: Seq<Vec<bool>>,
    h: int,
    w: int,
    r: int,
    c: int,
)
    requires
        0 <= r < h <= marks.len(),
        0 <= c < w <= marks[r].len(),
        !marks[r][c],
        other.len() == marks.len(),
        other[r]@ == marks[r]@.update(c, true),
        forall|i: int| 0 <= i < marks.len() && i != r ==> (#[trigger] other[i])@ == marks[i]@,
    ensures
        grid_free(other, h, w) + 1 == grid_free(marks, h, w),
    decreases h,
{
    if h - 1 == r {
        lemma_grid_same(marks, other, h - 1, w);
        lemma_row_mark(marks[r]@, other[r]@, w, c);
    } else {
        lemma_grid_mark(marks, other, h - 1, w, r, c);
        assert(other[h - 1]@ == marks[h - 1]@);
    }
}

} // verus!
