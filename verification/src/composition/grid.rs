//! Grid predicates composed from the equality unit.

use vstd::prelude::*;
use crate::composition::traits::{judge, judged_equal, EqualityChecker};
use crate::composition::walk::{
    adjacent, cells_distinct, covers, grid_free, grid_width, in_cells, lemma_grid_mark,
    lemma_reaches_next, lemma_reaches_self, lemma_walk_inside, open_cell, point, reaches,
    rows_reach, seen_of, is_walk,
};

verus! {

/// A connected region of a grid.
#[derive(Clone, Debug, PartialEq)]
pub struct Region {
    /// The cells of the region, each as row and column.
    pub positions: Vec<(usize, usize)>,
    /// The value of the cell that the region was grown from.
    pub value: u32,
}

/// Whether `bounds`, as least row, least column, greatest row and greatest
/// column, is the bounding box of the cells: every cell lies within, and each
/// of the four bounds is reached by some cell.
pub open spec fn bounds_cells(cells: Seq<(usize, usize)>, bounds: (usize, usize, usize, usize)) -> bool {
    &&& forall|k: int|
        0 <= k < cells.len() ==> bounds.0 <= (#[trigger] cells[k]).0 <= bounds.2 && bounds.1
            <= cells[k].1 <= bounds.3
    &&& exists|k: int| 0 <= k < cells.len() && (#[trigger] cells[k]).0 == bounds.0
    &&& exists|k: int| 0 <= k < cells.len() && (#[trigger] cells[k]).1 == bounds.1
    &&& exists|k: int| 0 <= k < cells.len() && (#[trigger] cells[k]).0 == bounds.2
    &&& exists|k: int| 0 <= k < cells.len() && (#[trigger] cells[k]).1 == bounds.3
}

/// Whether `bounds` is what `bounding_box` gives for the cells: their
/// bounding box, and four zeros where there is no cell.
pub open spec fn is_bounding_box(cells: Seq<(usize, usize)>, bounds: (usize, usize, usize, usize)) -> bool {
    if cells.len() == 0 {
        bounds == (0usize, 0usize, 0usize, 0usize)
    } else {
        bounds_cells(cells, bounds)
    }
}

/// The cells have one bounding box only.
pub proof fn lemma_bounding_box_unique(
    cells: Seq<(usize, usize)>,
    first: (usize, usize, usize, usize),
    second: (usize, usize, usize, usize),
)
    requires
        is_bounding_box(cells, first),
        is_bounding_box(cells, second),
    ensures
        first == second,
{
}

impl Region {
    /// The bounding box that `bounding_box` returns.
    pub open spec fn spec_bounding_box(&self) -> (usize, usize, usize, usize) {
        choose|bounds: (usize, usize, usize, usize)| is_bounding_box(self.positions@, bounds)
    }

    /// Height of the bounding box. A region without cells has height 1.
    pub open spec fn spec_height(&self) -> int {
        self.spec_bounding_box().2 - self.spec_bounding_box().0 + 1
    }

    /// Width of the bounding box. A region without cells has width 1.
    pub open spec fn spec_width(&self) -> int {
        self.spec_bounding_box().3 - self.spec_bounding_box().1 + 1
    }

    /// Whether the region has the cell at `row` and `col`.
    pub open spec fn has_cell(&self, row: int, col: int) -> bool {
        exists|k: int|
            0 <= k < self.positions.len() && (#[trigger] self.positions[k]).0 == row
                && self.positions[k].1 == col
    }

    /// The bounding box as least row, least column, greatest row and
    /// greatest column; four zeros for a region without cells.
    pub fn bounding_box(&self) -> (bounds: (usize, usize, usize, usize))
        ensures
            is_bounding_box(self.positions@, bounds),
            bounds == self.spec_bounding_box(),
    {
        if self.positions.len() == 0 {
            proof {
                assert(is_bounding_box(self.positions@, (0usize, 0usize, 0usize, 0usize)));
                lemma_bounding_box_unique(
                    self.positions@,
                    (0usize, 0usize, 0usize, 0usize),
                    self.spec_bounding_box(),
                );
            }
            return (0, 0, 0, 0);
        }
        let first = self.positions[0];
        let mut min_r: usize = first.0;
        let mut min_c: usize = first.1;
        let mut max_r: usize = first.0;
        let mut max_c: usize = first.1;
        let mut k: usize = 1;
        proof {
            let start = self.positions@.take(1);
            assert(start[0] == first);
        }
        while k < self.positions.len()
            invariant
                1 <= k <= self.positions.len(),
                bounds_cells(self.positions@.take(k as int), (min_r, min_c, max_r, max_c)),
            decreases self.positions.len() - k,
        {
            let cell = self.positions[k];
            let ghost old_bounds = (min_r, min_c, max_r, max_c);
            let ghost shorter = self.positions@.take(k as int);
            if cell.0 < min_r {
                min_r = cell.0;
            }
            if cell.0 > max_r {
                max_r = cell.0;
            }
            if cell.1 < min_c {
                min_c = cell.1;
            }
            if cell.1 > max_c {
                max_c = cell.1;
            }
            proof {
                let longer = self.positions@.take(k + 1);
                let bounds = (min_r, min_c, max_r, max_c);
                assert(longer[k as int] == cell);
                assert forall|j: int| 0 <= j < longer.len() implies bounds.0 <= (
                #[trigger] longer[j]).0 <= bounds.2 && bounds.1 <= longer[j].1 <= bounds.3 by {
                    if j < k {
                        assert(shorter[j] == longer[j]);
                    }
                }
                let a = choose|a: int| 0 <= a < shorter.len() && (#[trigger] shorter[a]).0 == old_bounds.0;
                assert(longer[a] == shorter[a]);
                let b = choose|b: int| 0 <= b < shorter.len() && (#[trigger] shorter[b]).1 == old_bounds.1;
                assert(longer[b] == shorter[b]);
                let c = choose|c: int| 0 <= c < shorter.len() && (#[trigger] shorter[c]).0 == old_bounds.2;
                assert(longer[c] == shorter[c]);
                let d = choose|d: int| 0 <= d < shorter.len() && (#[trigger] shorter[d]).1 == old_bounds.3;
                assert(longer[d] == shorter[d]);
                assert(longer[a].0 == bounds.0 || longer[k as int].0 == bounds.0);
                assert(longer[b].1 == bounds.1 || longer[k as int].1 == bounds.1);
                assert(longer[c].0 == bounds.2 || longer[k as int].0 == bounds.2);
                assert(longer[d].1 == bounds.3 || longer[k as int].1 == bounds.3);
            }
            k = k + 1;
        }
        proof {
            assert(self.positions@.take(k as int) =~= self.positions@);
            lemma_bounding_box_unique(
                self.positions@,
                (min_r, min_c, max_r, max_c),
                self.spec_bounding_box(),
            );
        }
        (min_r, min_c, max_r, max_c)
    }

    /// Height and width of the bounding box. Both must fit the machine word.
    pub fn dimensions(&self) -> (size: (usize, usize))
        requires
            self.spec_height() <= usize::MAX,
            self.spec_width() <= usize::MAX,
        ensures
            size.0 == self.spec_height(),
            size.1 == self.spec_width(),
    {
        let (min_r, min_c, max_r, max_c) = self.bounding_box();
        proof {
            if self.positions.len() > 0 {
                let a = choose|a: int|
                    0 <= a < self.positions.len() && (#[trigger] self.positions[a]).0 == min_r;
                let b = choose|b: int|
                    0 <= b < self.positions.len() && (#[trigger] self.positions[b]).1 == min_c;
            }
        }
        (max_r - min_r + 1, max_c - min_c + 1)
    }

    /// Number of cells of the region.
    pub fn size(&self) -> (count: usize)
        ensures
            count == self.positions.len(),
    {
        self.positions.len()
    }

    /// Whether one of the first `n` cells of the region is the cell at `row`
    /// and `col`.
    pub open spec fn has_cell_before(&self, n: int, row: int, col: int) -> bool {
        exists|k: int|
            0 <= k < n && (#[trigger] self.positions[k]).0 == row && self.positions[k].1 == col
    }

    /// The region as a grid of the size of its bounding box: the region's
    /// value where it has a cell, the background elsewhere. A region without
    /// cells gives a grid without rows. Height and width must fit the machine
    /// word.
    pub fn as_grid(&self, background: u32) -> (grid: Vec<Vec<u32>>)
        requires
            self.spec_height() <= usize::MAX,
            self.spec_width() <= usize::MAX,
        ensures
            self.positions.len() == 0 ==> grid.len() == 0,
            self.positions.len() > 0 ==> grid.len() == self.spec_height(),
            forall|i: int| 0 <= i < grid.len() ==> (#[trigger] grid[i]).len() == self.spec_width(),
            forall|i: int, j: int|
                0 <= i < grid.len() && 0 <= j < self.spec_width() ==> #[trigger] grid[i][j] == (
                if self.has_cell(
                    i + self.spec_bounding_box().0,
                    j + self.spec_bounding_box().1,
                ) {
                    self.value
                } else {
                    background
                }),
    {
        if self.positions.len() == 0 {
            return Vec::new();
        }
        let (min_r, min_c, max_r, max_c) = self.bounding_box();
        proof {
            let a = choose|a: int|
                0 <= a < self.positions.len() && (#[trigger] self.positions[a]).0 == min_r;
            let b = choose|b: int|
                0 <= b < self.positions.len() && (#[trigger] self.positions[b]).1 == min_c;
        }
        let h: usize = max_r - min_r + 1;
        let w: usize = max_c - min_c + 1;
        let mut grid: Vec<Vec<u32>> = Vec::new();
        let mut i: usize = 0;
        while i < h
            invariant
                0 <= i <= h,
                grid.len() == i,
                forall|a: int| 0 <= a < i ==> (#[trigger] grid[a]).len() == w,
                forall|a: int, b: int| 0 <= a < i && 0 <= b < w ==> #[trigger] grid[a][b] == background,
            decreases h - i,
        {
            let mut row: Vec<u32> = Vec::new();
            let mut j: usize = 0;
            while j < w
                invariant
                    0 <= j <= w,
                    row.len() == j,
                    forall|b: int| 0 <= b < j ==> #[trigger] row[b] == background,
                decreases w - j,
            {
                row.push(background);
                j = j + 1;
            }
            grid.push(row);
            i = i + 1;
        }
        let mut k: usize = 0;
        while k < self.positions.len()
            invariant
                0 <= k <= self.positions.len(),
                grid.len() == h,
                h == max_r - min_r + 1,
                w == max_c - min_c + 1,
                bounds_cells(self.positions@, (min_r, min_c, max_r, max_c)),
                forall|a: int| 0 <= a < h ==> (#[trigger] grid[a]).len() == w,
                forall|a: int, b: int|
                    0 <= a < h && 0 <= b < w ==> #[trigger] grid[a][b] == (if self.has_cell_before(
                        k as int,
                        a + min_r,
                        b + min_c,
                    ) {
                        self.value
                    } else {
                        background
                    }),
            decreases self.positions.len() - k,
        {
            let cell = self.positions[k];
            let local_r: usize = cell.0 - min_r;
            let local_c: usize = cell.1 - min_c;
            let ghost before = grid;
            grid[local_r][local_c] = self.value;
            proof {
                assert forall|a: int, b: int| 0 <= a < h && 0 <= b < w implies #[trigger] grid[a][b]
                    == (if self.has_cell_before(k + 1, a + min_r, b + min_c) {
                    self.value
                } else {
                    background
                }) by {
                    if a == local_r && b == local_c {
                        assert(self.positions[k as int].0 == a + min_r);
                    } else {
                        assert(grid[a][b] == before[a][b]);
                        if self.has_cell_before(k + 1, a + min_r, b + min_c) {
                            let m = choose|m: int|
                                0 <= m < k + 1 && (#[trigger] self.positions[m]).0 == a + min_r
                                    && self.positions[m].1 == b + min_c;
                            assert(m < k);
                        }
                        if self.has_cell_before(k as int, a + min_r, b + min_c) {
                            let m = choose|m: int|
                                0 <= m < k && (#[trigger] self.positions[m]).0 == a + min_r
                                    && self.positions[m].1 == b + min_c;
                            assert(self.positions[m].0 == a + min_r);
                        }
                    }
                }
            }
            k = k + 1;
        }
        grid
    }
}

/// The shorter of two lengths.
pub open spec fn shorter(a: int, b: int) -> int {
    if a <= b {
        a
    } else {
        b
    }
}

/// Whether the unit holds two grids equal: as many rows, first rows of one
/// length, and every cell of the first equal to the cell of the second at
/// its place, as far as both rows go.
pub open spec fn grids_alike<E: EqualityChecker>(
    checker: &E,
    a: Seq<Vec<u32>>,
    b: Seq<Vec<u32>>,
) -> bool {
    &&& a.len() == b.len()
    &&& a.len() > 0 ==> a[0].len() == b[0].len()
    &&& forall|i: int, j: int|
        0 <= i < a.len() && 0 <= j < shorter(a[i].len() as int, b[i].len() as int) ==> judged_equal(
            checker,
            #[trigger] a[i][j],
            #[trigger] b[i][j],
        )
}

/// Whether two grids are equal cell by cell, by the unit's judgement.
pub fn grids_equal<E: EqualityChecker>(checker: &E, a: &[Vec<u32>], b: &[Vec<u32>]) -> (equal: bool)
    ensures
        equal == grids_alike(checker, a@, b@),
{
    if a.len() != b.len() {
        return false;
    }
    if a.len() == 0 {
        return true;
    }
    if a[0].len() != b[0].len() {
        return false;
    }
    let mut i: usize = 0;
    while i < a.len()
        invariant
            0 <= i <= a.len(),
            a.len() == b.len(),
            forall|r: int, c: int|
                0 <= r < i && 0 <= c < shorter(a[r].len() as int, b[r].len() as int)
                    ==> judged_equal(checker, #[trigger] a[r][c], #[trigger] b[r][c]),
        decreases a.len() - i,
    {
        let width = if a[i].len() <= b[i].len() {
            a[i].len()
        } else {
            b[i].len()
        };
        let mut j: usize = 0;
        while j < width
            invariant
                0 <= j <= width,
                0 <= i < a.len(),
                a.len() == b.len(),
                width == shorter(a[i as int].len() as int, b[i as int].len() as int),
                forall|c: int|
                    0 <= c < j ==> judged_equal(
                        checker,
                        #[trigger] a[i as int][c],
                        #[trigger] b[i as int][c],
                    ),
            decreases width - j,
        {
            if !judge(checker, a[i][j], b[i][j]) {
                return false;
            }
            j = j + 1;
        }
        i = i + 1;
    }
    true
}

/// Whether a cell comes before another in reading order: in an earlier row,
/// or earlier in the same row.
pub open spec fn reads_before(a: (int, int), b: (int, int)) -> bool {
    a.0 < b.0 || (a.0 == b.0 && a.1 < b.1)
}

/// Whether the unit holds the cell at `r` and `c` equal to the value.
pub open spec fn cell_matches<E: EqualityChecker>(
    checker: &E,
    grid: Seq<Vec<u32>>,
    value: u32,
    r: int,
    c: int,
) -> bool {
    0 <= r < grid.len() && 0 <= c < grid[r].len() && judged_equal(checker, grid[r][c], value)
}

/// Whether `cells` lists, in reading order and each once, the cells of the
/// grid that the unit holds equal to the value.
pub open spec fn lists_matches<E: EqualityChecker>(
    checker: &E,
    grid: Seq<Vec<u32>>,
    value: u32,
    cells: Seq<(usize, usize)>,
) -> bool {
    &&& forall|k: int|
        0 <= k < cells.len() ==> cell_matches(
            checker,
            grid,
            value,
            (#[trigger] cells[k]).0 as int,
            cells[k].1 as int,
        )
    &&& forall|k: int, l: int|
        0 <= k < l < cells.len() ==> reads_before(point(#[trigger] cells[k]), point(#[trigger] cells[l]))
    &&& forall|r: int, c: int| #[trigger]
        cell_matches(checker, grid, value, r, c) ==> cells.contains((r as usize, c as usize))
}

/// Two lists of the matching cells agree up to every place that the first
/// has.
proof fn lemma_lists_agree<E: EqualityChecker>(
    checker: &E,
    grid: Seq<Vec<u32>>,
    value: u32,
    first: Seq<(usize, usize)>,
    second: Seq<(usize, usize)>,
    k: int,
)
    requires
        lists_matches(checker, grid, value, first),
        lists_matches(checker, grid, value, second),
        0 <= k < first.len(),
    ensures
        k < second.len(),
        first[k] == second[k],
    decreases k,
{
    assert forall|j: int| 0 <= j < k implies j < second.len() && first[j] == second[j] by {
        lemma_lists_agree(checker, grid, value, first, second, j);
    }
    let cell = first[k];
    assert(cell_matches(checker, grid, value, cell.0 as int, cell.1 as int));
    assert(second.contains(cell));
    let m = second.index_of(cell);
    if m < k {
        assert(first[m] == second[m]);
        assert(reads_before(point(first[m]), point(first[k])));
    } else if m > k {
        let other = second[k];
        assert(cell_matches(checker, grid, value, other.0 as int, other.1 as int));
        assert(first.contains(other));
        let n = first.index_of(other);
        assert(reads_before(point(second[k]), point(second[m])));
        if n < k {
            assert(first[n] == second[n]);
            assert(reads_before(point(second[n]), point(second[k])));
        } else if n > k {
            assert(reads_before(point(first[k]), point(first[n])));
        }
    }
}

/// The matching cells have one list only.
pub proof fn lemma_lists_matches_one<E: EqualityChecker>(
    checker: &E,
    grid: Seq<Vec<u32>>,
    value: u32,
    first: Seq<(usize, usize)>,
    second: Seq<(usize, usize)>,
)
    requires
        lists_matches(checker, grid, value, first),
        lists_matches(checker, grid, value, second),
    ensures
        first == second,
{
    if first.len() > 0 {
        lemma_lists_agree(checker, grid, value, first, second, first.len() - 1);
    }
    if second.len() > 0 {
        lemma_lists_agree(checker, grid, value, second, first, second.len() - 1);
    }
    assert forall|k: int| 0 <= k < first.len() implies first[k] == second[k] by {
        lemma_lists_agree(checker, grid, value, first, second, k);
    }
    assert(first =~= second);
}

/// The cells of the grid that the unit holds equal to the value, in reading
/// order.
pub fn grid_find_value<E: EqualityChecker>(checker: &E, grid: &[Vec<u32>], value: u32) -> (cells: Vec<
    (usize, usize),
>)
    ensures
        lists_matches(checker, grid@, value, cells@),
{
    let mut cells: Vec<(usize, usize)> = Vec::new();
    let mut r: usize = 0;
    while r < grid.len()
        invariant
            0 <= r <= grid.len(),
            forall|k: int|
                0 <= k < cells.len() ==> (#[trigger] cells[k]).0 < r && cell_matches(
                    checker,
                    grid@,
                    value,
                    cells[k].0 as int,
                    cells[k].1 as int,
                ),
            forall|k: int, l: int|
                0 <= k < l < cells.len() ==> reads_before(point(#[trigger] cells[k]), point(#[trigger] cells[l])),
            forall|a: int, b: int|
                a < r && #[trigger] cell_matches(checker, grid@, value, a, b) ==> cells@.contains(
                    (a as usize, b as usize),
                ),
        decreases grid.len() - r,
    {
        let mut c: usize = 0;
        while c < grid[r].len()
            invariant
                0 <= r < grid.len(),
                0 <= c <= grid[r as int].len(),
                forall|k: int|
                    0 <= k < cells.len() ==> reads_before(point(#[trigger] cells[k]), (r as int, c as int))
                        && cell_matches(
                        checker,
                        grid@,
                        value,
                        cells[k].0 as int,
                        cells[k].1 as int,
                    ),
                forall|k: int, l: int|
                    0 <= k < l < cells.len() ==> reads_before(
                        point(#[trigger] cells[k]),
                        point(#[trigger] cells[l]),
                    ),
                forall|a: int, b: int|
                    (a < r || (a == r && b < c)) && #[trigger] cell_matches(
                        checker,
                        grid@,
                        value,
                        a,
                        b,
                    ) ==> cells@.contains((a as usize, b as usize)),
            decreases grid[r as int].len() - c,
        {
            if judge(checker, grid[r][c], value) {
                let ghost before = cells@;
                cells.push((r, c));
                proof {
                    assert forall|a: int, b: int|
                        (a < r || (a == r && b < c + 1)) && #[trigger] cell_matches(
                            checker,
                            grid@,
                            value,
                            a,
                            b,
                        ) implies cells@.contains((a as usize, b as usize)) by {
                        if a == r && b == c {
                            assert(cells@[cells.len() - 1] == (r, c));
                        } else {
                            let k = before.index_of((a as usize, b as usize));
                            assert(cells@[k] == (a as usize, b as usize));
                        }
                    }
                }
            }
            c = c + 1;
        }
        r = r + 1;
    }
    cells
}

/// Number of cells of the grid that the unit holds equal to the value: the
/// length of the list of them.
pub fn grid_count_value<E: EqualityChecker>(checker: &E, grid: &[Vec<u32>], value: u32) -> (count:
    usize)
    ensures
        exists|cells: Seq<(usize, usize)>| #[trigger]
            lists_matches(checker, grid@, value, cells) && count == cells.len(),
{
    let cells = grid_find_value(checker, grid, value);
    assert(lists_matches(checker, grid@, value, cells@));
    cells.len()
}

/// The value that a fill from the start looks for: the value of the start
/// cell, and 0 where the start lies off the grid or is marked as seen.
pub open spec fn fill_target(
    grid: Seq<Vec<u32>>,
    marks: Seq<Vec<bool>>,
    start_row: usize,
    start_col: usize,
) -> u32 {
    if start_row < grid.len() && start_col < grid_width(grid) && !marks[start_row as int][start_col as int] {
        grid[start_row as int][start_col as int]
    } else {
        0
    }
}

/// Whether the fill has what it owes: the start, where that is open, and the
/// open neighbours of every cell taken, each taken or waiting on the stack.
pub open spec fn fill_closed<E: EqualityChecker>(
    checker: &E,
    grid: Seq<Vec<u32>>,
    seen: Seq<Seq<bool>>,
    target: u32,
    start: (int, int),
    taken: Seq<(usize, usize)>,
    waiting: Seq<(usize, usize)>,
) -> bool {
    &&& open_cell(checker, grid, seen, target, start) ==> in_cells(taken, start) || in_cells(
        waiting,
        start,
    )
    &&& forall|k: int, q: (int, int)|
        0 <= k < taken.len() && #[trigger] adjacent(point(taken[k]), q) && open_cell(
            checker,
            grid,
            seen,
            target,
            q,
        ) ==> in_cells(taken, q) || in_cells(waiting, q)
}

/// Whether every waiting cell lies on the grid and, where it is open, is
/// reached from the start.
pub open spec fn fill_waiting<E: EqualityChecker>(
    checker: &E,
    grid: Seq<Vec<u32>>,
    seen: Seq<Seq<bool>>,
    target: u32,
    start: (int, int),
    waiting: Seq<(usize, usize)>,
) -> bool {
    forall|i: int|
        0 <= i < waiting.len() ==> {
            &&& (#[trigger] waiting[i]).0 < grid.len()
            &&& waiting[i].1 < grid_width(grid)
            &&& open_cell(checker, grid, seen, target, point(waiting[i])) ==> reaches(
                checker,
                grid,
                seen,
                target,
                start,
                point(waiting[i]),
            )
        }
}

/// Whether every cell taken is open and reached from the start.
pub open spec fn fill_taken<E: EqualityChecker>(
    checker: &E,
    grid: Seq<Vec<u32>>,
    seen: Seq<Seq<bool>>,
    target: u32,
    start: (int, int),
    taken: Seq<(usize, usize)>,
) -> bool {
    forall|k: int|
        0 <= k < taken.len() ==> open_cell(checker, grid, seen, target, point(#[trigger] taken[k]))
            && reaches(checker, grid, seen, target, start, point(taken[k]))
}

/// Whether the marks are those from before the fill, with the cells taken
/// marked besides.
pub open spec fn fill_marks(
    before: Seq<Vec<bool>>,
    marks: Seq<Vec<bool>>,
    taken: Seq<(usize, usize)>,
) -> bool {
    &&& marks.len() == before.len()
    &&& forall|r: int| 0 <= r < before.len() ==> (#[trigger] marks[r]).len() == before[r].len()
    &&& forall|r: int, c: int|
        0 <= r < before.len() && 0 <= c < before[r].len() ==> #[trigger] marks[r][c] == (
        before[r][c] || in_cells(taken, (r, c)))
}

/// Grows the region of the start cell by flood fill: the cells that a walk
/// from the start reaches over cells not marked as seen whose value the unit
/// holds equal to that of the start. The cells are marked as seen. The start
/// comes first among them. Every row of the grid is at least as long as the
/// first, and so is every row of marks.
pub fn find_connected_component<E: EqualityChecker>(
    checker: &E,
    grid: &[Vec<u32>],
    start_row: usize,
    start_col: usize,
    visited: &mut [Vec<bool>],
) -> (region: Region)
    requires
        rows_reach(grid@),
        covers(old(visited)@, grid@),
    ensures
        fill_marks(old(visited)@, final(visited)@, region.positions@),
        region.value == fill_target(grid@, old(visited)@, start_row, start_col),
        forall|r: int, c: int|
            #![trigger region.has_cell(r, c)]
            region.has_cell(r, c) <==> reaches(
                checker,
                grid@,
                seen_of(old(visited)@),
                region.value,
                (start_row as int, start_col as int),
                (r, c),
            ),
        cells_distinct(region.positions@),
        region.positions.len() > 0 ==> region.positions[0] == (start_row, start_col),
{
    let ghost before = visited@;
    let ghost seen = seen_of(before);
    let ghost start = (start_row as int, start_col as int);
    let h = grid.len();
    let w = if h > 0 {
        grid[0].len()
    } else {
        0
    };
    if start_row >= h || start_col >= w || visited[start_row][start_col] {
        let region = Region { positions: Vec::new(), value: 0 };
        proof {
            assert forall|r: int, c: int| !reaches(checker, grid@, seen, 0, start, (r, c)) by {
                if reaches(checker, grid@, seen, 0, start, (r, c)) {
                    let walk = choose|walk: Seq<(int, int)>| #[trigger]
                        is_walk(checker, grid@, seen, 0, walk) && walk[0] == start && walk.last()
                            == (r, c);
                    assert(open_cell(checker, grid@, seen, 0, walk[0]));
                }
            }
        }
        return region;
    }
    let target = grid[start_row][start_col];
    let mut positions: Vec<(usize, usize)> = Vec::new();
    let mut stack: Vec<(usize, usize)> = Vec::new();
    stack.push((start_row, start_col));
    proof {
        assert(stack@[0] == (start_row, start_col));
        assert(in_cells(stack@, start));
        if open_cell(checker, grid@, seen, target, start) {
            lemma_reaches_self(checker, grid@, seen, target, start);
        }
    }
    while stack.len() > 0
        invariant
            h == grid.len(),
            w == grid_width(grid@),
            rows_reach(grid@),
            covers(before, grid@),
            seen == seen_of(before),
            start == (start_row as int, start_col as int),
            start_row < h,
            start_col < w,
            fill_marks(before, visited@, positions@),
            fill_taken(checker, grid@, seen, target, start, positions@),
            fill_waiting(checker, grid@, seen, target, start, stack@),
            fill_closed(checker, grid@, seen, target, start, positions@, stack@),
            cells_distinct(positions@),
            positions.len() > 0 ==> positions[0] == (start_row, start_col),
            positions.len() == 0 ==> stack.len() == 0 || stack@ =~= seq![(start_row, start_col)],
        decreases grid_free(visited@, h as int, w as int), stack.len(),
    {
        let ghost waiting = stack@;
        let ghost taken = positions@;
        let ghost marks = visited@;
        let cell = stack.pop().unwrap();
        let r = cell.0;
        let c = cell.1;
        let ghost rest = stack@;
        proof {
            assert(rest =~= waiting.drop_last());
            assert(waiting[waiting.len() - 1] == cell);
            assert(cell.0 < h && cell.1 < w);
            assert(before[r as int].len() >= w);
            assert forall|q: (int, int)| in_cells(waiting, q) implies in_cells(rest, q) || q
                == point(cell) by {
                let i = choose|i: int|
                    0 <= i < waiting.len() && (#[trigger] waiting[i]).0 == q.0 && waiting[i].1
                        == q.1;
                if i < rest.len() {
                    assert(rest[i] == waiting[i]);
                }
            }
        }
        if !visited[r][c] && judge(checker, grid[r][c], target) {
            proof {
                assert(marks[r as int][c as int] == (before[r as int][c as int] || in_cells(
                    taken,
                    (r as int, c as int),
                )));
                assert(seen[r as int] == before[r as int]@);
                assert(open_cell(checker, grid@, seen, target, point(cell)));
            }
            visited[r][c] = true;
            positions.push((r, c));
            let ghost up = stack@.len() as int;
            if r > 0 {
                stack.push((r - 1, c));
            }
            let ghost down = stack@.len() as int;
            if r + 1 < h {
                stack.push((r + 1, c));
            }
            let ghost left = stack@.len() as int;
            if c > 0 {
                stack.push((r, c - 1));
            }
            let ghost right = stack@.len() as int;
            if c + 1 < w {
                stack.push((r, c + 1));
            }
            proof {
                let now = positions@;
                let pile = stack@;
                assert(now =~= taken.push(cell));
                assert(now[now.len() - 1] == cell);
                lemma_grid_mark(marks, visited@, h as int, w as int, r as int, c as int);
                assert forall|q: (int, int)| in_cells(taken, q) implies in_cells(now, q) by {
                    let k = choose|k: int|
                        0 <= k < taken.len() && (#[trigger] taken[k]).0 == q.0 && taken[k].1 == q.1;
                    assert(now[k] == taken[k]);
                }
                assert forall|q: (int, int)| in_cells(rest, q) implies in_cells(pile, q) by {
                    let i = choose|i: int|
                        0 <= i < rest.len() && (#[trigger] rest[i]).0 == q.0 && rest[i].1 == q.1;
                    assert(pile[i] == rest[i]);
                }
                assert(in_cells(now, point(cell)));
                assert forall|q: (int, int)| in_cells(now, q) implies in_cells(taken, q) || q
                    == point(cell) by {
                    let k = choose|k: int|
                        0 <= k < now.len() && (#[trigger] now[k]).0 == q.0 && now[k].1 == q.1;
                    if k < taken.len() {
                        assert(taken[k] == now[k]);
                    }
                }
                // the marks
                assert forall|a: int, b: int|
                    0 <= a < before.len() && 0 <= b < before[a].len() implies #[trigger] visited@[a][b]
                    == (before[a][b] || in_cells(now, (a, b))) by {
                    if a == r && b == c {
                    } else if a == r {
                        assert(visited@[a][b] == marks[a][b]);
                    } else {
                        assert(visited@[a]@ == marks[a]@);
                    }
                }
                // the cells taken
                assert forall|k: int| 0 <= k < now.len() implies open_cell(
                    checker,
                    grid@,
                    seen,
                    target,
                    point(#[trigger] now[k]),
                ) && reaches(checker, grid@, seen, target, start, point(now[k])) by {
                    if k < taken.len() {
                        assert(now[k] == taken[k]);
                    }
                }
                assert forall|k: int, l: int| 0 <= k < l < now.len() implies #[trigger] now[k]
                    != #[trigger] now[l] by {
                    if l == taken.len() {
                        assert(now[k] == taken[k]);
                        if now[k] == cell {
                            assert(in_cells(taken, (r as int, c as int)));
                        }
                    } else {
                        assert(now[k] == taken[k] && now[l] == taken[l]);
                    }
                }
                // the cells waiting
                assert forall|i: int| 0 <= i < pile.len() implies {
                    &&& (#[trigger] pile[i]).0 < grid@.len()
                    &&& pile[i].1 < grid_width(grid@)
                    &&& open_cell(checker, grid@, seen, target, point(pile[i])) ==> reaches(
                        checker,
                        grid@,
                        seen,
                        target,
                        start,
                        point(pile[i]),
                    )
                } by {
                    if i < rest.len() {
                        assert(pile[i] == rest[i]);
                        assert(rest[i] == waiting[i]);
                    } else {
                        assert(adjacent(point(cell), point(pile[i])));
                        if open_cell(checker, grid@, seen, target, point(pile[i])) {
                            lemma_reaches_next(
                                checker,
                                grid@,
                                seen,
                                target,
                                start,
                                point(cell),
                                point(pile[i]),
                            );
                        }
                    }
                }
                // what the fill owes
                assert forall|k: int, q: (int, int)|
                    0 <= k < now.len() && #[trigger] adjacent(point(now[k]), q) && open_cell(
                        checker,
                        grid@,
                        seen,
                        target,
                        q,
                    ) implies in_cells(now, q) || in_cells(pile, q) by {
                    if k < taken.len() {
                        assert(now[k] == taken[k]);
                        assert(adjacent(point(taken[k]), q));
                    } else {
                        if q.0 == r - 1 {
                            assert(pile[up] == (((r - 1) as usize), c));
                        } else if q.0 == r + 1 {
                            assert(pile[down] == (((r + 1) as usize), c));
                        } else if q.1 == c - 1 {
                            assert(pile[left] == (r, ((c - 1) as usize)));
                        } else {
                            assert(pile[right] == (r, ((c + 1) as usize)));
                        }
                    }
                }
            }
        } else {
            proof {
                assert(marks[r as int][c as int] == (before[r as int][c as int] || in_cells(
                    taken,
                    (r as int, c as int),
                )));
                assert(seen[r as int] == before[r as int]@);
                assert(!open_cell(checker, grid@, seen, target, point(cell)) || in_cells(
                    taken,
                    point(cell),
                ));
                assert forall|i: int| 0 <= i < rest.len() implies {
                    &&& (#[trigger] rest[i]).0 < grid@.len()
                    &&& rest[i].1 < grid_width(grid@)
                    &&& open_cell(checker, grid@, seen, target, point(rest[i])) ==> reaches(
                        checker,
                        grid@,
                        seen,
                        target,
                        start,
                        point(rest[i]),
                    )
                } by {
                    assert(rest[i] == waiting[i]);
                }
                assert forall|k: int, q: (int, int)|
                    0 <= k < taken.len() && #[trigger] adjacent(point(taken[k]), q) && open_cell(
                        checker,
                        grid@,
                        seen,
                        target,
                        q,
                    ) implies in_cells(taken, q) || in_cells(rest, q) by {
                    assert(in_cells(taken, q) || in_cells(waiting, q));
                }
                if taken.len() == 0 {
                    assert(waiting =~= seq![(start_row, start_col)]);
                    assert(rest.len() == 0);
                }
            }
        }
    }
    let region = Region { positions, value: target };
    proof {
        let cells = region.positions@;
        assert forall|q: (int, int)| !in_cells(stack@, q) by {}
        assert forall|r: int, c: int| #![trigger region.has_cell(r, c)]
            region.has_cell(r, c) <==> reaches(
                checker,
                grid@,
                seen,
                target,
                start,
                (r, c),
            ) by {
            if region.has_cell(r, c) {
                let k = choose|k: int|
                    0 <= k < cells.len() && (#[trigger] cells[k]).0 == r && cells[k].1 == c;
                assert(point(cells[k]) == (r, c));
            }
            if reaches(checker, grid@, seen, target, start, (r, c)) {
                let walk = choose|walk: Seq<(int, int)>| #[trigger]
                    is_walk(checker, grid@, seen, target, walk) && walk[0] == start && walk.last()
                        == (r, c);
                assert(open_cell(checker, grid@, seen, target, walk[0]));
                lemma_walk_inside(checker, grid@, seen, target, cells, walk, walk.len() - 1);
                let k = choose|k: int|
                    0 <= k < cells.len() && (#[trigger] cells[k]).0 == r && cells[k].1 == c;
                assert(cells[k].0 == r);
            }
        }
    }
    region
}

/// Whether one of the first `n` regions has the cell.
pub open spec fn in_regions(regions: Seq<Region>, n: int, cell: (int, int)) -> bool {
    exists|j: int| 0 <= j < n && (#[trigger] regions[j]).has_cell(cell.0, cell.1)
}

/// Whether the unit holds the cell equal to the background.
pub open spec fn is_background<E: EqualityChecker>(
    checker: &E,
    grid: Seq<Vec<u32>>,
    background: u32,
    r: int,
    c: int,
) -> bool {
    judged_equal(checker, grid[r][c], background)
}

/// What is seen when a scan in reading order stands at the cell `at` with
/// `n` regions grown: the cells of those regions, and the cells before `at`
/// that the unit holds equal to the background.
pub open spec fn seen_at<E: EqualityChecker>(
    checker: &E,
    grid: Seq<Vec<u32>>,
    background: u32,
    regions: Seq<Region>,
    n: int,
    at: (int, int),
) -> Seq<Seq<bool>> {
    Seq::new(
        grid.len(),
        |r: int|
            Seq::new(
                grid_width(grid) as nat,
                |c: int|
                    in_regions(regions, n, (r, c)) || (reads_before((r, c), at)
                        && is_background(checker, grid, background, r, c)),
            ),
    )
}

/// Whether region `i` is the one that the scan grows as its region `i`: it
/// has cells, each once; its first cell lies on the grid and is not held
/// equal to the background; its value is that of the first cell; it has the
/// cells that a walk from the first cell reaches over what is not seen when
/// the scan stands there with `i` regions grown; and none of its cells that
/// the unit holds equal to itself comes before the first in reading order.
pub open spec fn region_grown<E: EqualityChecker>(
    checker: &E,
    grid: Seq<Vec<u32>>,
    background: u32,
    regions: Seq<Region>,
    i: int,
) -> bool {
    let region = regions[i];
    let first = region.positions[0];
    &&& region.positions.len() > 0
    &&& cells_distinct(region.positions@)
    &&& first.0 < grid.len()
    &&& first.1 < grid_width(grid)
    &&& !is_background(checker, grid, background, first.0 as int, first.1 as int)
    &&& region.value == grid[first.0 as int][first.1 as int]
    &&& forall|r: int, c: int|
        #![trigger region.has_cell(r, c)]
        region.has_cell(r, c) <==> reaches(
            checker,
            grid,
            seen_at(checker, grid, background, regions, i, point(first)),
            region.value,
            point(first),
            (r, c),
        )
    &&& forall|r: int, c: int|
        #![trigger region.has_cell(r, c)]
        region.has_cell(r, c) && reads_before((r, c), point(first)) ==> !judged_equal(
            checker,
            grid[r][c],
            grid[r][c],
        )
}

/// Whether the regions are those that the scan has grown when it stands at
/// `at`: each grown in its turn, from first cells in reading order, all
/// before `at`.
pub open spec fn scan_regions<E: EqualityChecker>(
    checker: &E,
    grid: Seq<Vec<u32>>,
    background: u32,
    regions: Seq<Region>,
    at: (int, int),
) -> bool {
    &&& forall|i: int|
        0 <= i < regions.len() ==> #[trigger] region_grown(checker, grid, background, regions, i)
    &&& forall|i: int|
        0 <= i < regions.len() ==> reads_before(point((#[trigger] regions[i]).positions[0]), at)
    &&& forall|i: int, j: int|
        0 <= i < j < regions.len() ==> reads_before(
            point((#[trigger] regions[i]).positions[0]),
            point((#[trigger] regions[j]).positions[0]),
        )
}

/// Whether every cell before `at` that the unit holds equal to itself and
/// not to the background lies in a region.
pub open spec fn scan_covered<E: EqualityChecker>(
    checker: &E,
    grid: Seq<Vec<u32>>,
    background: u32,
    regions: Seq<Region>,
    at: (int, int),
) -> bool {
    forall|r: int, c: int|
        0 <= r < grid.len() && 0 <= c < grid_width(grid) && reads_before((r, c),
            at,
        ) && !is_background(checker, grid, background, r, c) && judged_equal(
            checker,
            grid[r][c],
            grid[r][c],
        ) ==> #[trigger] in_regions(regions, regions.len() as int, (r, c))
}

/// Whether the marks are those of a scan that stands at `at`.
pub open spec fn scan_marks<E: EqualityChecker>(
    checker: &E,
    grid: Seq<Vec<u32>>,
    background: u32,
    regions: Seq<Region>,
    at: (int, int),
    marks: Seq<Vec<bool>>,
) -> bool {
    seen_of(marks) == seen_at(checker, grid, background, regions, regions.len() as int, at)
}

/// Regions do not share cells: a cell of an earlier region is seen when a
/// later one is grown.
pub proof fn lemma_regions_disjoint<E: EqualityChecker>(
    checker: &E,
    grid: Seq<Vec<u32>>,
    background: u32,
    regions: Seq<Region>,
    i: int,
    j: int,
    r: int,
    c: int,
)
    requires
        0 <= i < j < regions.len(),
        region_grown(checker, grid, background, regions, j),
        regions[i].has_cell(r, c),
    ensures
        !regions[j].has_cell(r, c),
{
    let later = regions[j];
    let first = later.positions[0];
    let seen = seen_at(checker, grid, background, regions, j, point(first));
    if later.has_cell(r, c) {
        let walk = choose|walk: Seq<(int, int)>| #[trigger]
            is_walk(checker, grid, seen, later.value, walk) && walk[0] == point(first)
                && walk.last() == (r, c);
        assert(open_cell(checker, grid, seen, later.value, walk[walk.len() - 1]));
        assert(in_regions(regions, j, (r, c)));
        assert(seen[r][c]);
    }
}

/// What is seen with `n` regions grown does not depend on later regions.
pub proof fn lemma_seen_stable<E: EqualityChecker>(
    checker: &E,
    grid: Seq<Vec<u32>>,
    background: u32,
    regions: Seq<Region>,
    more: Seq<Region>,
    n: int,
    at: (int, int),
)
    requires
        0 <= n <= regions.len(),
        n <= more.len(),
        forall|j: int| 0 <= j < n ==> #[trigger] more[j] == regions[j],
    ensures
        seen_at(checker, grid, background, more, n, at) == seen_at(
            checker,
            grid,
            background,
            regions,
            n,
            at,
        ),
{
    let a = seen_at(checker, grid, background, more, n, at);
    let b = seen_at(checker, grid, background, regions, n, at);
    assert forall|r: int| 0 <= r < a.len() implies #[trigger] a[r] == b[r] by {
        assert forall|c: int| 0 <= c < a[r].len() implies #[trigger] a[r][c] == b[r][c] by {
            if in_regions(more, n, (r, c)) {
                let j = choose|j: int| 0 <= j < n && (#[trigger] more[j]).has_cell(r, c);
                assert(regions[j].has_cell(r, c));
            }
            if in_regions(regions, n, (r, c)) {
                let j = choose|j: int| 0 <= j < n && (#[trigger] regions[j]).has_cell(r, c);
                assert(more[j].has_cell(r, c));
            }
        }
        assert(a[r] =~= b[r]);
    }
    assert(a =~= b);
}

/// With one region more, or none, a cell lies in a region if it lay in one
/// before or lies in the new one.
proof fn lemma_one_more(regions: Seq<Region>, more: Seq<Region>, cell: (int, int))
    requires
        more.len() == regions.len() || more.len() == regions.len() + 1,
        forall|j: int| 0 <= j < regions.len() ==> #[trigger] more[j] == regions[j],
    ensures
        in_regions(more, more.len() as int, cell) <==> (in_regions(
            regions,
            regions.len() as int,
            cell,
        ) || (more.len() > regions.len() && more[regions.len() as int].has_cell(cell.0, cell.1))),
{
    let n = regions.len() as int;
    if in_regions(more, more.len() as int, cell) {
        let j = choose|j: int| 0 <= j < more.len() && (#[trigger] more[j]).has_cell(cell.0, cell.1);
        if j < n {
            assert(regions[j].has_cell(cell.0, cell.1));
        }
    }
    if in_regions(regions, n, cell) {
        let j = choose|j: int| 0 <= j < n && (#[trigger] regions[j]).has_cell(cell.0, cell.1);
        assert(more[j].has_cell(cell.0, cell.1));
    }
    if more.len() > n && more[n].has_cell(cell.0, cell.1) {
        assert(in_regions(more, more.len() as int, cell));
    }
}

/// One step of the scan: from the cell `at` to the next of its row. The
/// regions are as before, or one more that starts at `at`; the marks are as
/// before, with `at` marked where the unit holds it equal to the background
/// or the cells of the new region marked.
proof fn lemma_scan_next<E: EqualityChecker>(
    checker: &E,
    grid: Seq<Vec<u32>>,
    background: u32,
    regions: Seq<Region>,
    more: Seq<Region>,
    at: (int, int),
    marks: Seq<Vec<bool>>,
    after: Seq<Vec<bool>>,
)
    requires
        0 <= at.0 < grid.len(),
        0 <= at.1 < grid_width(grid),
        scan_marks(checker, grid, background, regions, at, marks),
        scan_regions(checker, grid, background, regions, at),
        scan_covered(checker, grid, background, regions, at),
        after.len() == marks.len(),
        forall|r: int| 0 <= r < marks.len() ==> (#[trigger] after[r]).len() == marks[r].len(),
        more.len() == regions.len() || more.len() == regions.len() + 1,
        forall|j: int| 0 <= j < regions.len() ==> #[trigger] more[j] == regions[j],
        forall|i: int| 0 <= i < more.len() ==> #[trigger] region_grown(checker, grid, background, more, i),
        more.len() > regions.len() ==> point(more[regions.len() as int].positions[0]) == at,
        // the cell itself
        after[at.0][at.1] == (marks[at.0][at.1] || is_background(
            checker,
            grid,
            background,
            at.0,
            at.1,
        ) || (more.len() > regions.len() && more[regions.len() as int].has_cell(
            at.0,
            at.1,
        ))),
        !is_background(checker, grid, background, at.0, at.1) && judged_equal(
            checker,
            grid[at.0][at.1],
            grid[at.0][at.1],
        ) ==> after[at.0][at.1],
        !marks[at.0][at.1] && is_background(
            checker,
            grid,
            background,
            at.0,
            at.1,
        ) ==> more.len() == regions.len(),
        // the other cells
        forall|r: int, c: int|
            0 <= r < marks.len() && 0 <= c < marks[r].len() && (r != at.0 || c != at.1)
                ==> #[trigger] after[r][c] == (marks[r][c] || (more.len() > regions.len()
                && more[regions.len() as int].has_cell(r, c))),
    ensures
        scan_marks(checker, grid, background, more, (at.0, at.1 + 1), after),
        scan_regions(checker, grid, background, more, (at.0, at.1 + 1)),
        scan_covered(checker, grid, background, more, (at.0, at.1 + 1)),
{
    let n = regions.len() as int;
    let next = (at.0, at.1 + 1);
    let before = seen_at(checker, grid, background, regions, n, at);
    let a = seen_of(after);
    let b = seen_at(checker, grid, background, more, more.len() as int, next);
    assert(seen_of(marks) == before);
    assert forall|r: int| 0 <= r < a.len() implies #[trigger] a[r] =~= b[r] by {
        assert(seen_of(marks)[r] == marks[r]@);
        assert(before[r].len() == grid_width(grid));
        assert forall|c: int| 0 <= c < a[r].len() implies #[trigger] a[r][c] == b[r][c] by {
            assert(marks[r][c] == before[r][c]);
            assert(after[r][c] == a[r][c]);
            assert(before[r][c] == (in_regions(regions, n, (r, c)) || (reads_before((r, c), at)
                && is_background(checker, grid, background, r, c))));
            assert(b[r][c] == (in_regions(more, more.len() as int, (r, c)) || (reads_before(
                (r, c),
                next,
            ) && is_background(checker, grid, background, r, c))));
            lemma_one_more(regions, more, (r, c));
            if r == at.0 && c == at.1 {
                assert(reads_before((r, c), next));
                assert(!reads_before((r, c), at));
            } else {
                assert(reads_before((r, c), next) == reads_before((r, c),
                    at,
                ));
            }
        }
    }
    assert(a =~= b);
    assert forall|i: int| 0 <= i < more.len() implies reads_before(
        point((#[trigger] more[i]).positions[0]),
        next,
    ) by {
        if i < n {
            assert(more[i] == regions[i]);
            assert(reads_before(point(regions[i].positions[0]), at));
        }
    }
    assert forall|i: int, j: int| 0 <= i < j < more.len() implies reads_before(
        point((#[trigger] more[i]).positions[0]),
        point((#[trigger] more[j]).positions[0]),
    ) by {
        assert(more[i] == regions[i]);
        assert(reads_before(point(regions[i].positions[0]), at));
        if j < n {
            assert(more[j] == regions[j]);
        }
    }
    assert forall|r: int, c: int|
        0 <= r < grid.len() && 0 <= c < grid_width(grid) && reads_before((r, c),
            next,
        ) && !is_background(checker, grid, background, r, c) && judged_equal(
            checker,
            grid[r][c],
            grid[r][c],
        ) implies #[trigger] in_regions(more, more.len() as int, (r, c)) by {
        lemma_one_more(regions, more, (r, c));
        if r == at.0 && c == at.1 {
            assert(seen_of(marks)[r] == marks[r]@);
            assert(after[r][c]);
            assert(a[r][c]);
            assert(a[r] == b[r]);
            assert(b[r][c]);
        } else {
            assert(reads_before((r, c), at));
            assert(in_regions(regions, n, (r, c)));
        }
    }
}

/// The end of a row: a scan that stands behind the last cell of row `r`
/// stands before the first cell of the next row.
proof fn lemma_scan_wrap<E: EqualityChecker>(
    checker: &E,
    grid: Seq<Vec<u32>>,
    background: u32,
    regions: Seq<Region>,
    r: int,
    marks: Seq<Vec<bool>>,
)
    requires
        0 <= r < grid.len(),
        scan_marks(checker, grid, background, regions, (r, grid_width(grid)), marks),
        scan_regions(checker, grid, background, regions, (r, grid_width(grid))),
        scan_covered(checker, grid, background, regions, (r, grid_width(grid))),
    ensures
        scan_marks(checker, grid, background, regions, (r + 1, 0int), marks),
        scan_regions(checker, grid, background, regions, (r + 1, 0int)),
        scan_covered(checker, grid, background, regions, (r + 1, 0int)),
{
    let w = grid_width(grid);
    let at = (r, w);
    let next = (r + 1, 0int);
    let a = seen_at(checker, grid, background, regions, regions.len() as int, at);
    let b = seen_at(checker, grid, background, regions, regions.len() as int, next);
    assert forall|x: int| 0 <= x < a.len() implies #[trigger] a[x] =~= b[x] by {
        assert forall|y: int| 0 <= y < a[x].len() implies #[trigger] a[x][y] == b[x][y] by {
            assert(reads_before((x, y), at) == reads_before((x, y),
                next,
            ));
        }
    }
    assert(a =~= b);
    assert forall|i: int| 0 <= i < regions.len() implies reads_before(
        point((#[trigger] regions[i]).positions[0]),
        next,
    ) by {
        assert(region_grown(checker, grid, background, regions, i));
        assert(reads_before(point(regions[i].positions[0]), at));
    }
    assert forall|x: int, y: int|
        0 <= x < grid.len() && 0 <= y < grid_width(grid) && reads_before((x, y),
            next,
        ) && !is_background(checker, grid, background, x, y) && judged_equal(
            checker,
            grid[x][y],
            grid[x][y],
        ) implies #[trigger] in_regions(regions, regions.len() as int, (x, y)) by {
        assert(reads_before((x, y), at));
    }
}

/// Marks for a grid, none set: as many rows as the grid, each of its width.
fn fresh_marks(h: usize, w: usize) -> (marks: Vec<Vec<bool>>)
    ensures
        marks.len() == h,
        forall|r: int| 0 <= r < h ==> (#[trigger] marks[r]).len() == w,
        forall|r: int, c: int| 0 <= r < h && 0 <= c < w ==> !#[trigger] marks[r][c],
{
    let mut marks: Vec<Vec<bool>> = Vec::new();
    let mut r: usize = 0;
    while r < h
        invariant
            0 <= r <= h,
            marks.len() == r,
            forall|a: int| 0 <= a < r ==> (#[trigger] marks[a]).len() == w,
            forall|a: int, b: int| 0 <= a < r && 0 <= b < w ==> !#[trigger] marks[a][b],
        decreases h - r,
    {
        let mut row: Vec<bool> = Vec::new();
        let mut c: usize = 0;
        while c < w
            invariant
                0 <= c <= w,
                row.len() == c,
                forall|b: int| 0 <= b < c ==> !#[trigger] row[b],
            decreases w - c,
        {
            row.push(false);
            c = c + 1;
        }
        marks.push(row);
        r = r + 1;
    }
    marks
}

/// The objects of a grid: the regions that a scan in reading order grows by
/// flood fill from every cell that is not seen yet and that the unit does not
/// hold equal to the background. A region that comes out without cells is
/// left out. Every row of the grid is at least as long as the first.
pub fn find_all_objects<E: EqualityChecker>(checker: &E, grid: &[Vec<u32>], background: u32) -> (objects:
    Vec<Region>)
    requires
        rows_reach(grid@),
    ensures
        forall|i: int|
            0 <= i < objects.len() ==> #[trigger] region_grown(
                checker,
                grid@,
                background,
                objects@,
                i,
            ),
        forall|i: int, j: int|
            0 <= i < j < objects.len() ==> reads_before(
                point((#[trigger] objects[i]).positions[0]),
                point((#[trigger] objects[j]).positions[0]),
            ),
        forall|r: int, c: int|
            0 <= r < grid.len() && 0 <= c < grid_width(grid@) && !is_background(
                checker,
                grid@,
                background,
                r,
                c,
            ) && judged_equal(checker, grid[r][c], grid[r][c]) ==> #[trigger] in_regions(
                objects@,
                objects.len() as int,
                (r, c),
            ),
{
    let h = grid.len();
    let w = if h > 0 {
        grid[0].len()
    } else {
        0
    };
    let mut visited = fresh_marks(h, w);
    let mut objects: Vec<Region> = Vec::new();
    let mut r: usize = 0;
    proof {
        let a = seen_of(visited@);
        let b = seen_at(checker, grid@, background, objects@, 0, (0int, 0int));
        assert forall|x: int| 0 <= x < a.len() implies #[trigger] a[x] =~= b[x] by {
            assert forall|y: int| 0 <= y < a[x].len() implies #[trigger] a[x][y] == b[x][y] by {
                assert(!visited@[x][y]);
            }
        }
        assert(a =~= b);
    }
    while r < h
        invariant
            0 <= r <= h,
            h == grid.len(),
            w == grid_width(grid@),
            rows_reach(grid@),
            scan_marks(checker, grid@, background, objects@, (r as int, 0int), visited@),
            scan_regions(checker, grid@, background, objects@, (r as int, 0int)),
            scan_covered(checker, grid@, background, objects@, (r as int, 0int)),
        decreases h - r,
    {
        let mut c: usize = 0;
        while c < w
            invariant
                0 <= r < h,
                0 <= c <= w,
                h == grid.len(),
                w == grid_width(grid@),
                rows_reach(grid@),
                scan_marks(checker, grid@, background, objects@, (r as int, c as int), visited@),
                scan_regions(checker, grid@, background, objects@, (r as int, c as int)),
                scan_covered(checker, grid@, background, objects@, (r as int, c as int)),
            decreases w - c,
        {
            let ghost regions = objects@;
            let ghost n = regions.len() as int;
            let ghost marks = visited@;
            let ghost seen = seen_at(checker, grid@, background, regions, n, (r as int, c as int));
            proof {
                assert(seen_of(marks) == seen);
                assert(seen_of(marks).len() == h);
                assert forall|a: int| 0 <= a < h implies (#[trigger] marks[a]).len() == w by {
                    assert(seen_of(marks)[a] == marks[a]@);
                    assert(seen[a].len() == w);
                }
                assert(seen_of(marks)[r as int] == marks[r as int]@);
                assert(seen[r as int][c as int] == marks[r as int][c as int]);
                
            }
            if visited[r][c] {
                proof {
                    lemma_scan_next(
                        checker,
                        grid@,
                        background,
                        regions,
                        regions,
                        (r as int, c as int),
                        marks,
                        marks,
                    );
                }
            } else if judge(checker, grid[r][c], background) {
                visited[r][c] = true;
                proof {
                    assert forall|a: int| 0 <= a < h && a != r implies (#[trigger] visited@[a])@
                        == marks[a]@ by {}
                    lemma_scan_next(
                        checker,
                        grid@,
                        background,
                        regions,
                        regions,
                        (r as int, c as int),
                        marks,
                        visited@,
                    );
                }
            } else {
                let region = find_connected_component(checker, grid, r, c, visited.as_mut_slice());
                proof {
                    assert(region.value == grid@[r as int][c as int]);
                    if judged_equal(checker, grid@[r as int][c as int], grid@[r as int][c as int]) {
                        assert(open_cell(
                            checker,
                            grid@,
                            seen,
                            region.value,
                            (r as int, c as int),
                        ));
                        lemma_reaches_self(
                            checker,
                            grid@,
                            seen,
                            region.value,
                            (r as int, c as int),
                        );
                        assert(region.has_cell(r as int, c as int));
                    }
                }
                if region.positions.len() > 0 {
                    let ghost grown = region;
                    objects.push(region);
                    proof {
                        let more = objects@;
                        assert(more[n] == grown);
                        assert forall|i: int| 0 <= i < more.len() implies #[trigger] region_grown(
                            checker,
                            grid@,
                            background,
                            more,
                            i,
                        ) by {
                            if i < n {
                                assert(more[i] == regions[i]);
                                assert(region_grown(checker, grid@, background, regions, i));
                                lemma_seen_stable(
                                    checker,
                                    grid@,
                                    background,
                                    regions,
                                    more,
                                    i,
                                    point(regions[i].positions[0]),
                                );
                            } else {
                                lemma_seen_stable(
                                    checker,
                                    grid@,
                                    background,
                                    regions,
                                    more,
                                    n,
                                    (r as int, c as int),
                                );
                            }
                        }
                        assert forall|i: int, j: int| 0 <= i < j < more.len() implies reads_before(
                            point((#[trigger] more[i]).positions[0]),
                            point((#[trigger] more[j]).positions[0]),
                        ) by {
                            assert(more[i] == regions[i]);
                            if j < n {
                                assert(more[j] == regions[j]);
                            }
                        }
                        lemma_scan_next(
                            checker,
                            grid@,
                            background,
                            regions,
                            more,
                            (r as int, c as int),
                            marks,
                            visited@,
                        );
                    }
                } else {
                    proof {
                        assert forall|a: int, b: int| !in_cells(region.positions@, (a, b)) by {}
                        lemma_scan_next(
                            checker,
                            grid@,
                            background,
                            regions,
                            regions,
                            (r as int, c as int),
                            marks,
                            visited@,
                        );
                    }
                }
            }
            c = c + 1;
        }
        proof {
            lemma_scan_wrap(checker, grid@, background, objects@, r as int, visited@);
        }
        r = r + 1;
    }
    proof {
        let regions = objects@;
        assert forall|a: int, b: int|
            0 <= a < grid.len() && 0 <= b < grid_width(grid@) && !is_background(
                checker,
                grid@,
                background,
                a,
                b,
            ) && judged_equal(checker, grid[a][b], grid[a][b]) implies #[trigger] in_regions(
            regions,
            regions.len() as int,
            (a, b),
        ) by {
            assert(reads_before((a, b), (r as int, 0int)));
        }
    }
    objects
}

} // verus!
