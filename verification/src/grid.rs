use vstd::prelude::*;
use std::ops::Add;
use vstd::std_specs::ops::AddSpec;

verus! {

/// The cell at `(row, col)` of a grid modelled as a sequence of rows, if
/// that position exists.
pub open spec fn cell_at<T>(cells: Seq<Seq<T>>, row: int, col: int) -> Option<T> {
    if 0 <= row < cells.len() && 0 <= col < cells[row].len() {
        Some(cells[row][col])
    } else {
        None
    }
}

/// The grid `cells` with the cell at `(row, col)` replaced by `value`; the
/// grid unchanged where that position does not exist.
pub open spec fn with_cell<T>(cells: Seq<Seq<T>>, row: int, col: int, value: T) -> Seq<Seq<T>> {
    if cell_at(cells, row, col) is Some {
        cells.update(row, cells[row].update(col, value))
    } else {
        cells
    }
}

/// A grid of `rows` rows of `cols` cells, each cell equal to `value`.
pub open spec fn filled<T>(rows: nat, cols: nat, value: T) -> Seq<Seq<T>> {
    Seq::new(rows, |_i: int| Seq::new(cols, |_j: int| value))
}

/// The smaller of two lengths.
pub open spec fn min_len(a: nat, b: nat) -> nat {
    if a <= b { a } else { b }
}

/// `sum` is the cell-by-cell sum of `a` and `b` over the positions that both
/// hold: as many rows as the shorter of the two, each row as long as the
/// shorter of the two rows it combines, and each cell the sum of the two
/// cells at its position (where `T`'s addition follows its specification).
pub open spec fn is_cellwise_sum<T: Add<Output = T>>(a: Seq<Seq<T>>, b: Seq<Seq<T>>, sum: Seq<Seq<T>>) -> bool {
    &&& sum.len() == min_len(a.len(), b.len())
    &&& forall|i: int| 0 <= i < sum.len() ==> #[trigger] sum[i].len() == min_len(a[i].len(), b[i].len())
    &&& forall|i: int, j: int|
        0 <= i < sum.len() && 0 <= j < sum[i].len() ==> (T::obeys_add_spec() ==> #[trigger] sum[i][j] == a[i][j].add_spec(b[i][j]))
}

/// The index after `i` along an axis of `len` positions, held at the last one.
pub open spec fn next_index(i: int, len: int) -> int {
    if i + 1 <= len - 1 { i + 1 } else { len - 1 }
}

/// The cell at `(row, col)`, or `fallback` where that cell does not exist.
pub open spec fn cell_or<T>(cells: Seq<Seq<T>>, row: int, col: int, fallback: T) -> T {
    match cell_at(cells, row, col) {
        Some(v) => v,
        None => fallback,
    }
}

/// Copy a run of cells into a vector of its own.
fn copy_cells<T: Copy>(cells: &[T]) -> (copy: Vec<T>)
    ensures
        copy@ == cells@,
{
    let mut copy: Vec<T> = Vec::new();
    let mut j: usize = 0;
    while j < cells.len()
        invariant
            j <= cells@.len(),
            copy@ == cells@.subrange(0, j as int),
        decreases cells@.len() - j,
    {
        copy.push(cells[j]);
        j = j + 1;
        assert(copy@ =~= cells@.subrange(0, j as int));
    }
    assert(cells@.subrange(0, cells@.len() as int) =~= cells@);
    copy
}

/// A high-resolution ternary field: a grid of cells.
///
/// `dimensions` records `(rows, cols)` as the grid was built; the cells are
/// held row by row. A grid built by `new` has exactly that shape; one built
/// by `from_values` takes its column count from the first row.
#[derive(Debug)]
pub struct MicrotritGrid<T> {
    /// Grid dimensions (rows, cols).
    pub dimensions: (usize, usize),
    data: Vec<Vec<T>>,
}

impl<T> View for MicrotritGrid<T> {
    type V = Seq<Seq<T>>;

    closed spec fn view(&self) -> Seq<Seq<T>> {
        self.data@.map_values(|row: Vec<T>| row@)
    }
}

impl<T> MicrotritGrid<T> {
    /// The recorded dimensions `(rows, cols)`.
    pub closed spec fn dims(&self) -> (usize, usize) {
        self.dimensions
    }
}

impl<T: Copy> MicrotritGrid<T> {
    /// Create a grid of `rows` by `cols` cells, each holding `default`.
    pub fn new(rows: usize, cols: usize, default: T) -> (grid: Self)
        ensures
            grid.dims() == (rows, cols),
            grid@ == filled(rows as nat, cols as nat, default),
    {
        let mut data: Vec<Vec<T>> = Vec::new();
        let mut i: usize = 0;
        while i < rows
            invariant
                i <= rows,
                data@.len() == i,
                forall|k: int| 0 <= k < i ==> #[trigger] data@[k]@ == Seq::new(cols as nat, |_j: int| default),
            decreases rows - i,
        {
            let mut row: Vec<T> = Vec::new();
            let mut j: usize = 0;
            while j < cols
                invariant
                    j <= cols,
                    row@.len() == j,
                    forall|m: int| 0 <= m < j ==> #[trigger] row@[m] == default,
                decreases cols - j,
            {
                row.push(default);
                j = j + 1;
            }
            assert(row@ =~= Seq::new(cols as nat, |_j: int| default));
            data.push(row);
            i = i + 1;
        }
        let grid = MicrotritGrid { dimensions: (rows, cols), data };
        assert(grid@ =~= filled(rows as nat, cols as nat, default));
        grid
    }

    /// Value at `(row, col)`, or `None` where that cell does not exist.
    pub fn get(&self, row: usize, col: usize) -> (cell: Option<T>)
        ensures
            cell == cell_at(self@, row as int, col as int),
    {
        if row < self.data.len() {
            let r = &self.data[row];
            if col < r.len() {
                return Some(r[col]);
            }
        }
        None
    }

    /// Set the value at `(row, col)`. Returns whether that cell exists; where
    /// it does not, the grid is left as it was.
    pub fn set(&mut self, row: usize, col: usize, value: T) -> (done: bool)
        ensures
            done == (cell_at(old(self)@, row as int, col as int) is Some),
            final(self)@ == with_cell(old(self)@, row as int, col as int, value),
            final(self).dims() == old(self).dims(),
    {
        if row < self.data.len() && col < self.data[row].len() {
            self.data[row].set(col, value);
            assert(self@ =~= with_cell(old(self)@, row as int, col as int, value));
            true
        } else {
            false
        }
    }

    /// Number of rows of cells the grid holds.
    pub fn row_count(&self) -> (n: usize)
        ensures
            n == self@.len(),
    {
        self.data.len()
    }

    /// The cells of row `row`, or `None` where the grid has no such row.
    pub fn row(&self, row: usize) -> (cells: Option<&[T]>)
        ensures
            cells is Some <==> row < self@.len(),
            cells matches Some(s) ==> s@ == self@[row as int],
    {
        if row < self.data.len() {
            Some(self.data[row].as_slice())
        } else {
            None
        }
    }

    /// Create a grid whose rows are the given rows of cells. The recorded
    /// dimensions are the number of rows and the length of the first row
    /// (zero where there is no row); later rows keep their own lengths.
    pub fn from_values(values: &[&[T]]) -> (grid: Self)
        ensures
            grid.dims() == (values@.len() as usize, if values@.len() > 0 { values@[0]@.len() as usize } else { 0usize }),
            grid@ == values@.map_values(|row: &[T]| row@),
    {
        let rows = values.len();
        let cols = if rows > 0 { values[0].len() } else { 0 };
        let mut data: Vec<Vec<T>> = Vec::new();
        let mut i: usize = 0;
        while i < rows
            invariant
                rows == values@.len(),
                i <= rows,
                data@.len() == i,
                forall|k: int| 0 <= k < i ==> #[trigger] data@[k]@ == values@[k]@,
            decreases rows - i,
        {
            let row = copy_cells(values[i]);
            data.push(row);
            i = i + 1;
        }
        let grid = MicrotritGrid { dimensions: (rows, cols), data };
        assert(grid@ =~= values@.map_values(|row: &[T]| row@));
        grid
    }

    /// Number of cells in the grid, by its recorded dimensions.
    pub fn cell_count(&self) -> (n: usize)
        requires
            self.dims().0 * self.dims().1 <= usize::MAX,
        ensures
            n == self.dims().0 * self.dims().1,
    {
        self.dimensions.0 * self.dimensions.1
    }

    /// Map each cell through a function; the shape and dimensions stay.
    pub fn map<F: Fn(T) -> T>(&self, f: F) -> (mapped: Self)
        requires
            forall|i: int, j: int|
                0 <= i < self@.len() && 0 <= j < self@[i].len() ==> f.requires((#[trigger] self@[i][j],)),
        ensures
            mapped.dims() == self.dims(),
            mapped@.len() == self@.len(),
            forall|i: int| 0 <= i < self@.len() ==> #[trigger] mapped@[i].len() == self@[i].len(),
            forall|i: int, j: int|
                0 <= i < self@.len() && 0 <= j < self@[i].len() ==> f.ensures((self@[i][j],), #[trigger] mapped@[i][j]),
    {
        let mut data: Vec<Vec<T>> = Vec::new();
        let mut i: usize = 0;
        while i < self.data.len()
            invariant
                i <= self@.len(),
                self@.len() == self.data@.len(),
                data@.len() == i,
                forall|i2: int, j: int|
                    0 <= i2 < self@.len() && 0 <= j < self@[i2].len() ==> f.requires((#[trigger] self@[i2][j],)),
                forall|k: int| 0 <= k < i ==> #[trigger] data@[k]@.len() == self@[k].len(),
                forall|k: int, j: int|
                    0 <= k < i && 0 <= j < self@[k].len() ==> f.ensures((self@[k][j],), #[trigger] data@[k]@[j]),
            decreases self@.len() - i,
        {
            let src = &self.data[i];
            assert(src@ == self@[i as int]);
            let mut row: Vec<T> = Vec::new();
            let mut j: usize = 0;
            while j < src.len()
                invariant
                    0 <= i < self@.len(),
                    src@ == self@[i as int],
                    j <= src@.len(),
                    row@.len() == j,
                    forall|j2: int| 0 <= j2 < src@.len() ==> f.requires((#[trigger] src@[j2],)),
                    forall|m: int| 0 <= m < j ==> f.ensures((src@[m],), #[trigger] row@[m]),
                decreases src@.len() - j,
            {
                let v = f(src[j]);
                row.push(v);
                j = j + 1;
            }
            data.push(row);
            i = i + 1;
        }
        MicrotritGrid { dimensions: self.dimensions, data }
    }

    /// Cell-by-cell sum of two grids. `None` where the recorded dimensions
    /// differ; otherwise the sum over the positions both grids hold.
    pub fn add_grid(&self, other: &Self) -> (sum: Option<Self>)
        where T: Add<Output = T>,
        requires
            forall|i: int, j: int|
                0 <= i < self@.len() && 0 <= i < other@.len() && 0 <= j < self@[i].len() && 0 <= j < other@[i].len()
                    ==> (#[trigger] self@[i][j]).add_req(#[trigger] other@[i][j]),
        ensures
            sum is None <==> self.dims() != other.dims(),
            sum matches Some(g) ==> g.dims() == self.dims() && is_cellwise_sum(self@, other@, g@),
            sum matches Some(g) ==> g@.len() <= self@.len() && g@.len() <= other@.len()
                && (g@.len() == self@.len() || g@.len() == other@.len()),
            sum matches Some(g) ==> forall|i: int| 0 <= i < g@.len() ==> {
                &&& #[trigger] g@[i].len() <= self@[i].len()
                &&& g@[i].len() <= other@[i].len()
                &&& (g@[i].len() == self@[i].len() || g@[i].len() == other@[i].len())
            },
    {
        if self.dimensions.0 != other.dimensions.0 || self.dimensions.1 != other.dimensions.1 {
            return None;
        }
        let n = if self.data.len() <= other.data.len() { self.data.len() } else { other.data.len() };
        let mut data: Vec<Vec<T>> = Vec::new();
        let mut i: usize = 0;
        while i < n
            invariant
                n == min_len(self@.len(), other@.len()),
                self@.len() == self.data@.len(),
                other@.len() == other.data@.len(),
                i <= n,
                data@.len() == i,
                forall|i2: int, j: int|
                    0 <= i2 < self@.len() && 0 <= i2 < other@.len() && 0 <= j < self@[i2].len() && 0 <= j < other@[i2].len()
                        ==> (#[trigger] self@[i2][j]).add_req(#[trigger] other@[i2][j]),
                forall|k: int| 0 <= k < i ==> #[trigger] data@[k]@.len() == min_len(self@[k].len(), other@[k].len()),
                forall|k: int, j: int|
                    0 <= k < i && 0 <= j < data@[k]@.len() ==> (T::obeys_add_spec() ==> #[trigger] data@[k]@[j] == self@[k][j].add_spec(other@[k][j])),
            decreases n - i,
        {
            let a = &self.data[i];
            let b = &other.data[i];
            assert(a@ == self@[i as int]);
            assert(b@ == other@[i as int]);
            let m = if a.len() <= b.len() { a.len() } else { b.len() };
            let mut row: Vec<T> = Vec::new();
            let mut j: usize = 0;
            while j < m
                invariant
                    0 <= i < self@.len(),
                    0 <= i < other@.len(),
                    a@ == self@[i as int],
                    b@ == other@[i as int],
                    m == min_len(a@.len(), b@.len()),
                    j <= m,
                    row@.len() == j,
                    forall|j2: int| 0 <= j2 < a@.len() && 0 <= j2 < b@.len() ==> (#[trigger] a@[j2]).add_req(#[trigger] b@[j2]),
                    forall|j2: int| 0 <= j2 < j ==> (T::obeys_add_spec() ==> #[trigger] row@[j2] == a@[j2].add_spec(b@[j2])),
                decreases m - j,
            {
                assert(a@[j as int].add_req(b@[j as int]));
                let v = a[j] + b[j];
                row.push(v);
                j = j + 1;
            }
            data.push(row);
            i = i + 1;
        }
        let g = MicrotritGrid { dimensions: self.dimensions, data };
        assert(g@.len() == n);
        Some(g)
    }

    /// The four cells that bilinear sampling blends around `(r0, c0)`:
    /// `(r0, c0)`, `(r0, c1)`, `(r1, c0)` and `(r1, c1)`, where `r1` and `c1`
    /// are the next row and column, held at the last ones the recorded
    /// dimensions allow. A cell that does not exist reads as `fallback`.
    pub fn sample_corners(&self, r0: usize, c0: usize, fallback: T) -> (corners: (T, T, T, T))
        requires
            self.dims().0 >= 1,
            self.dims().1 >= 1,
        ensures
            ({
                let r1 = next_index(r0 as int, self.dims().0 as int);
                let c1 = next_index(c0 as int, self.dims().1 as int);
                corners == (
                    cell_or(self@, r0 as int, c0 as int, fallback),
                    cell_or(self@, r0 as int, c1, fallback),
                    cell_or(self@, r1, c0 as int, fallback),
                    cell_or(self@, r1, c1, fallback),
                )
            }),
            r0 + 1 < self.dims().0 ==> next_index(r0 as int, self.dims().0 as int) == r0 + 1,
            c0 + 1 < self.dims().1 ==> next_index(c0 as int, self.dims().1 as int) == c0 + 1,
            r0 + 1 < self.dims().0 && c0 + 1 < self.dims().1
                && 0 <= r0 + 1 < self@.len() && 0 <= c0 + 1 < self@[r0 + 1].len()
                && 0 <= c0 + 1 < self@[r0 as int].len()
                ==> corners == (self@[r0 as int][c0 as int], self@[r0 as int][c0 + 1],
                    self@[r0 + 1][c0 as int], self@[r0 + 1][c0 + 1]),
    {
        let last_row = self.dimensions.0 - 1;
        let last_col = self.dimensions.1 - 1;
        let r1 = if r0 < last_row { r0 + 1 } else { last_row };
        let c1 = if c0 < last_col { c0 + 1 } else { last_col };
        let v00 = match self.get(r0, c0) { Some(v) => v, None => fallback };
        let v01 = match self.get(r0, c1) { Some(v) => v, None => fallback };
        let v10 = match self.get(r1, c0) { Some(v) => v, None => fallback };
        let v11 = match self.get(r1, c1) { Some(v) => v, None => fallback };
        (v00, v01, v10, v11)
    }
}

impl<T: Copy> Clone for MicrotritGrid<T> {
    fn clone(&self) -> (copy: Self)
        ensures
            copy.dims() == self.dims(),
            copy@ == self@,
    {
        let mut data: Vec<Vec<T>> = Vec::new();
        let mut i: usize = 0;
        while i < self.data.len()
            invariant
                i <= self.data@.len(),
                data@.len() == i,
                forall|k: int| 0 <= k < i ==> #[trigger] data@[k]@ == self.data@[k]@,
            decreases self.data@.len() - i,
        {
            let row = copy_cells(self.data[i].as_slice());
            data.push(row);
            i = i + 1;
        }
        let copy = MicrotritGrid { dimensions: self.dimensions, data };
        assert(copy@ =~= self@);
        copy
    }
}

/// A write followed by a read of the same cell gives back what was written,
/// where that cell exists; where it does not, the read finds nothing.
pub proof fn lemma_get_after_set<T>(cells: Seq<Seq<T>>, row: int, col: int, value: T)
    ensures
        cell_at(with_cell(cells, row, col, value), row, col) == if cell_at(cells, row, col) is Some {
            Some(value)
        } else {
            None::<T>
        },
{
}

/// A write leaves every other cell as it was.
pub proof fn lemma_set_leaves_others<T>(cells: Seq<Seq<T>>, row: int, col: int, value: T, r: int, c: int)
    requires
        r != row || c != col,
    ensures
        cell_at(with_cell(cells, row, col, value), r, c) == cell_at(cells, r, c),
{
}

/// A write keeps the shape of the grid: the number of rows and the length
/// of each row.
pub proof fn lemma_set_keeps_shape<T>(cells: Seq<Seq<T>>, row: int, col: int, value: T)
    ensures
        with_cell(cells, row, col, value).len() == cells.len(),
        forall|i: int| 0 <= i < cells.len() ==> #[trigger] with_cell(cells, row, col, value)[i].len() == cells[i].len(),
{
}

/// Of two writes to one cell, the later one wins.
pub proof fn lemma_set_twice<T>(cells: Seq<Seq<T>>, row: int, col: int, first: T, second: T)
    ensures
        with_cell(with_cell(cells, row, col, first), row, col, second) == with_cell(cells, row, col, second),
{
    if cell_at(cells, row, col) is Some {
        assert(with_cell(with_cell(cells, row, col, first), row, col, second)[row] =~= with_cell(cells, row, col, second)[row]);
        assert(with_cell(with_cell(cells, row, col, first), row, col, second) =~= with_cell(cells, row, col, second));
    }
}

/// A fresh grid reads its default value at every position inside its
/// dimensions and nothing outside them.
pub proof fn lemma_filled_reads<T>(rows: nat, cols: nat, value: T, row: int, col: int)
    ensures
        filled(rows, cols, value).len() == rows,
        forall|i: int| 0 <= i < rows ==> #[trigger] filled(rows, cols, value)[i].len() == cols,
        cell_at(filled(rows, cols, value), row, col) == if 0 <= row < rows && 0 <= col < cols {
            Some(value)
        } else {
            None::<T>
        },
{
}

/// The neighbour index that bilinear sampling uses stays on the axis:
/// for an index on an axis of at least one position, it lies on that axis
/// and is the index itself or the one after it.
pub proof fn lemma_next_index_on_axis(i: int, len: int)
    requires
        len >= 1,
        0 <= i < len,
    ensures
        0 <= next_index(i, len) < len,
        next_index(i, len) == i || next_index(i, len) == i + 1,
{
}

/// The cell read at a position is the cell stored there: a position inside
/// the rows and inside its row reads as `Some` of the value held there, and
/// any other position reads as `None`.
pub proof fn lemma_cell_at_reads_stored<T>(cells: Seq<Seq<T>>, row: int, col: int)
    ensures
        (0 <= row < cells.len() && 0 <= col < cells[row].len()) ==> cell_at(cells, row, col) == Some(cells[row][col]),
        !(0 <= row < cells.len() && 0 <= col < cells[row].len()) ==> cell_at(cells, row, col) is None,
{
}

/// Where a cell exists, reading it with a fallback gives the cell itself;
/// the fallback comes back only where no cell exists.
pub proof fn lemma_cell_or_prefers_cell<T>(cells: Seq<Seq<T>>, row: int, col: int, fallback: T)
    ensures
        0 <= row < cells.len() && 0 <= col < cells[row].len() ==> cell_or(cells, row, col, fallback) == cells[row][col],
        forall|v: T| cell_at(cells, row, col) == Some(v) ==> cell_or(cells, row, col, fallback) == v,
        cell_at(cells, row, col) is None ==> cell_or(cells, row, col, fallback) == fallback,
{
}

/// The neighbour index is the next index whenever the axis has one, and the
/// last index of the axis otherwise.
pub proof fn lemma_next_index_is_next(i: int, len: int)
    requires
        0 <= i,
        len >= 1,
    ensures
        i + 1 < len ==> next_index(i, len) == i + 1,
        i + 1 >= len ==> next_index(i, len) == len - 1,
{
}

/// The smaller of two lengths is at most either of them and is one of them.
pub proof fn lemma_min_len_is_minimum(a: nat, b: nat)
    ensures
        min_len(a, b) <= a,
        min_len(a, b) <= b,
        min_len(a, b) == a || min_len(a, b) == b,
        a == b ==> min_len(a, b) == a,
{
}

/// Adding two grids of one shape gives a grid of that same shape, holding
/// every position of both.
pub proof fn lemma_cellwise_sum_keeps_common_shape<T: Add<Output = T>>(a: Seq<Seq<T>>, b: Seq<Seq<T>>, sum: Seq<Seq<T>>)
    requires
        is_cellwise_sum(a, b, sum),
        a.len() == b.len(),
        forall|i: int| 0 <= i < a.len() ==> #[trigger] a[i].len() == b[i].len(),
    ensures
        sum.len() == a.len(),
        forall|i: int| 0 <= i < a.len() ==> #[trigger] sum[i].len() == a[i].len(),
        forall|i: int, j: int| 0 <= i < a.len() && 0 <= j < a[i].len() ==> cell_at(sum, i, j) is Some,
{
}

/// Each cell of a cell-by-cell sum is the sum of the two cells at its
/// position, wherever `T`'s addition follows its specification.
pub proof fn lemma_cellwise_sum_adds_cells<T: Add<Output = T>>(a: Seq<Seq<T>>, b: Seq<Seq<T>>, sum: Seq<Seq<T>>, i: int, j: int)
    requires
        is_cellwise_sum(a, b, sum),
        T::obeys_add_spec(),
        0 <= i < sum.len(),
        0 <= j < sum[i].len(),
    ensures
        0 <= i < a.len() && 0 <= i < b.len() && 0 <= j < a[i].len() && 0 <= j < b[i].len(),
        sum[i][j] == a[i][j].add_spec(b[i][j]),
{
}

} // verus!
