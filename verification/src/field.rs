//! The trail field: a rectangular grid of intensities that agents mark and
//! that fades and spreads with every tick.

use vstd::prelude::*;
use crate::fixed::{clamp, floor_div, ONE};

verus! {

/// The largest number of cells along either side of a field.
pub const MAX_EXTENT: usize = 32768;

/// The lowest intensity a cell can hold.
pub const MIN_INTENSITY: u8 = 0;

/// The highest intensity a cell can hold: that of a fresh deposit.
pub const MAX_INTENSITY: u8 = 255;

/// The mathematical model of a trail field: `height` rows of `width` cells,
/// stored row by row.
pub struct Grid {
    pub width: int,
    pub height: int,
    pub cells: Seq<u8>,
}

impl Grid {
    /// Both sides are within bounds and there is one intensity per cell.
    pub open spec fn wf(self) -> bool {
        &&& 1 <= self.width <= MAX_EXTENT
        &&& 1 <= self.height <= MAX_EXTENT
        &&& self.cells.len() == self.width * self.height
    }

    /// The grid of the given size with every cell at the lowest intensity.
    pub open spec fn blank(width: int, height: int) -> Grid {
        Grid { width, height, cells: Seq::new((width * height) as nat, |i: int| MIN_INTENSITY) }
    }

    /// The position of cell `(x, y)` in `cells`.
    pub open spec fn index(self, x: int, y: int) -> int {
        y * self.width + x
    }

    /// `(x, y)` names a cell of the grid.
    pub open spec fn contains(self, x: int, y: int) -> bool {
        0 <= x < self.width && 0 <= y < self.height
    }

    /// The intensity of cell `(x, y)`.
    pub open spec fn at(self, x: int, y: int) -> int {
        self.cells[self.index(x, y)] as int
    }

    /// The intensity of the cell nearest to `(x, y)`: a coordinate beyond an
    /// edge reads the border cell.
    pub open spec fn clamped_at(self, x: int, y: int) -> int {
        self.at(clamp(x, 0, self.width - 1), clamp(y, 0, self.height - 1))
    }

    /// The sum of the intensities of the 3×3 block centred on `(x, y)`.
    pub open spec fn neighborhood_sum(self, x: int, y: int) -> int {
        self.clamped_at(x - 1, y - 1) + self.clamped_at(x, y - 1) + self.clamped_at(x + 1, y - 1)
            + self.clamped_at(x - 1, y) + self.clamped_at(x, y) + self.clamped_at(x + 1, y)
            + self.clamped_at(x - 1, y + 1) + self.clamped_at(x, y + 1) + self.clamped_at(
            x + 1,
            y + 1,
        )
    }

    /// The unweighted mean of the 3×3 block centred on `(x, y)`, rounded down.
    pub open spec fn blur(self, x: int, y: int) -> int {
        self.neighborhood_sum(x, y) / 9
    }

    /// What cell `(x, y)` holds after one decay pass: the mean of its block
    /// less the evaporation, and never below the lowest intensity.
    pub open spec fn decayed_value(self, x: int, y: int, evaporation: int) -> int {
        let faded = self.blur(x, y) - evaporation;
        if faded < MIN_INTENSITY {
            MIN_INTENSITY as int
        } else {
            faded
        }
    }

    /// The grid after one decay pass, every cell computed from this grid.
    pub open spec fn decayed(self, evaporation: int) -> Grid {
        Grid {
            width: self.width,
            height: self.height,
            cells: Seq::new(
                self.cells.len(),
                |i: int| self.decayed_value(i % self.width, i / self.width, evaporation) as u8,
            ),
        }
    }

    /// The column of the cell that holds the fixed-point abscissa `x`.
    pub open spec fn column_of(self, x: int) -> int {
        clamp(x / (ONE as int), 0, self.width - 1)
    }

    /// The row of the cell that holds the fixed-point ordinate `y`.
    pub open spec fn row_of(self, y: int) -> int {
        clamp(y / (ONE as int), 0, self.height - 1)
    }

    /// The grid with cell `(x, y)` raised to the highest intensity.
    pub open spec fn marked(self, x: int, y: int) -> Grid {
        Grid {
            width: self.width,
            height: self.height,
            cells: self.cells.update(self.index(x, y), MAX_INTENSITY),
        }
    }

    /// The grid after a deposit at the fixed-point coordinate `(x, y)`.
    pub open spec fn deposited(self, x: int, y: int) -> Grid {
        self.marked(self.column_of(x), self.row_of(y))
    }

    /// What a sensor reads at the fixed-point coordinate `(x, y)`.
    pub open spec fn sampled(self, x: int, y: int) -> int {
        self.blur(self.column_of(x), self.row_of(y))
    }

    /// No cell is more intense than `bound`.
    pub open spec fn bounded_by(self, bound: int) -> bool {
        forall|i: int| 0 <= i < self.cells.len() ==> #[trigger] self.cells[i] <= bound
    }

    /// The highest intensity of any cell.
    pub open spec fn peak(self) -> int {
        peak_of(self.cells, self.cells.len() as int)
    }

    /// Every cell lies between the lowest and the highest intensity.
    pub open spec fn in_range(self) -> bool {
        forall|i: int|
            0 <= i < self.cells.len() ==> MIN_INTENSITY <= #[trigger] self.cells[i]
                <= MAX_INTENSITY
    }
}

/// A cell of a well-formed grid has its place within `cells`.
pub proof fn lemma_index_in_range(g: Grid, x: int, y: int)
    requires
        g.wf(),
        g.contains(x, y),
    ensures
        0 <= y * g.width <= g.index(x, y) < g.cells.len() <= 0x4000_0000,
        g.index(x, y) % g.width == x,
        g.index(x, y) / g.width == y,
{
    let w = g.width;
    let h = g.height;
    assert(0 <= y * w && y * w + x < w * h && w * h <= 0x4000_0000) by (nonlinear_arith)
        requires
            0 <= x < w <= 32768,
            0 <= y < h <= 32768,
    ;
    assert((y * w + x) % w == x && (y * w + x) / w == y) by (nonlinear_arith)
        requires
            0 <= x < w,
            0 <= y,
    ;
}

/// A place within `cells` is the place of exactly one cell.
pub proof fn lemma_cell_of_index(g: Grid, i: int)
    requires
        g.wf(),
        0 <= i < g.cells.len(),
    ensures
        g.contains(i % g.width, i / g.width),
        g.index(i % g.width, i / g.width) == i,
{
    let w = g.width;
    let h = g.height;
    assert(0 <= i % w < w && 0 <= i / w < h && (i / w) * w + i % w == i) by (nonlinear_arith)
        requires
            0 <= i < w * h,
            0 < w,
    ;
}

/// The mean of a block is no more intense than the most intense cell.
pub proof fn lemma_blur_bounded(g: Grid, x: int, y: int, bound: int)
    requires
        g.wf(),
        g.bounded_by(bound),
    ensures
        0 <= g.blur(x, y) <= 255,
        g.blur(x, y) <= bound,
{
    let x0 = clamp(x - 1, 0, g.width - 1);
    let x1 = clamp(x, 0, g.width - 1);
    let x2 = clamp(x + 1, 0, g.width - 1);
    let y0 = clamp(y - 1, 0, g.height - 1);
    let y1 = clamp(y, 0, g.height - 1);
    let y2 = clamp(y + 1, 0, g.height - 1);
    lemma_index_in_range(g, x0, y0);
    lemma_index_in_range(g, x1, y0);
    lemma_index_in_range(g, x2, y0);
    lemma_index_in_range(g, x0, y1);
    lemma_index_in_range(g, x1, y1);
    lemma_index_in_range(g, x2, y1);
    lemma_index_in_range(g, x0, y2);
    lemma_index_in_range(g, x1, y2);
    lemma_index_in_range(g, x2, y2);
}

/// Deposits do not add up: a second deposit on a cell changes nothing, and
/// the cell holds exactly the highest intensity.
pub proof fn lemma_deposit_idempotent(g: Grid, x: int, y: int)
    requires
        g.wf(),
    ensures
        g.deposited(x, y).wf(),
        g.deposited(x, y).at(g.column_of(x), g.row_of(y)) == MAX_INTENSITY,
        g.deposited(x, y).deposited(x, y) == g.deposited(x, y),
{
    lemma_index_in_range(g, g.column_of(x), g.row_of(y));
    assert(g.deposited(x, y).deposited(x, y).cells =~= g.deposited(x, y).cells);
}

/// The highest intensity among the first `n` of `cells`, and the lowest
/// intensity there is where `n` is zero.
pub open spec fn peak_of(cells: Seq<u8>, n: int) -> int
    decreases n,
{
    if n <= 0 {
        MIN_INTENSITY as int
    } else {
        let rest = peak_of(cells, n - 1);
        if cells[n - 1] > rest {
            cells[n - 1] as int
        } else {
            rest
        }
    }
}

/// The peak of the first `n` cells is the least bound on them.
pub proof fn lemma_peak_of(cells: Seq<u8>, n: int, bound: int)
    requires
        0 <= n <= cells.len(),
    ensures
        MIN_INTENSITY <= peak_of(cells, n) <= MAX_INTENSITY,
        forall|i: int| 0 <= i < n ==> #[trigger] cells[i] <= peak_of(cells, n),
        (MIN_INTENSITY <= bound && forall|i: int| 0 <= i < n ==> #[trigger] cells[i] <= bound)
            ==> peak_of(cells, n) <= bound,
    decreases n,
{
    if n > 0 {
        lemma_peak_of(cells, n - 1, bound);
    }
}

/// No cell of a grid exceeds the peak of the grid.
pub proof fn lemma_peak_bounds(g: Grid)
    ensures
        MIN_INTENSITY <= g.peak() <= MAX_INTENSITY,
        g.bounded_by(g.peak()),
{
    lemma_peak_of(g.cells, g.cells.len() as int, 0);
}

/// A decay pass cannot amplify the field: where no cell exceeds `bound`
/// before the pass, none exceeds `bound` less the evaporation after it, nor
/// the lowest intensity if that is more.
pub proof fn lemma_decay_bounded(g: Grid, evaporation: int, bound: int)
    requires
        g.wf(),
        0 <= evaporation,
        g.bounded_by(bound),
    ensures
        g.decayed(evaporation).wf(),
        g.decayed(evaporation).in_range(),
        g.decayed(evaporation).bounded_by(
            if bound - evaporation < MIN_INTENSITY {
                MIN_INTENSITY as int
            } else {
                bound - evaporation
            },
        ),
{
    let d = g.decayed(evaporation);
    assert forall|i: int| 0 <= i < d.cells.len() implies #[trigger] d.cells[i] <= (if bound
        - evaporation < 0 {
        0
    } else {
        bound - evaporation
    }) by {
        lemma_blur_bounded(g, i % g.width, i / g.width, bound);
    }
}

/// A decay pass lowers the peak of the field by the evaporation at least,
/// as far as the lowest intensity.  With a positive evaporation the peak
/// therefore falls strictly, or rests at the lowest intensity.
pub proof fn lemma_decay_lowers_peak(g: Grid, evaporation: int)
    requires
        g.wf(),
        0 <= evaporation,
    ensures
        g.decayed(evaporation).peak() <= (if g.peak() - evaporation < MIN_INTENSITY {
            MIN_INTENSITY as int
        } else {
            g.peak() - evaporation
        }),
        evaporation >= 1 ==> g.decayed(evaporation).peak() < g.peak() || g.decayed(
            evaporation,
        ).peak() == MIN_INTENSITY,
{
    lemma_peak_bounds(g);
    lemma_decay_bounded(g, evaporation, g.peak());
    let d = g.decayed(evaporation);
    let b = if g.peak() - evaporation < 0 {
        0
    } else {
        g.peak() - evaporation
    };
    lemma_peak_of(d.cells, d.cells.len() as int, b);
}

/// The field after `passes` decay passes with no deposit between them.
pub open spec fn decayed_repeatedly(g: Grid, evaporation: int, passes: nat) -> Grid
    decreases passes,
{
    if passes == 0 {
        g
    } else {
        decayed_repeatedly(g, evaporation, (passes - 1) as nat).decayed(evaporation)
    }
}

/// Without deposits the field fades: after `passes` decay passes its peak
/// is the former peak less `passes` times the evaporation at most, as far
/// as the lowest intensity.
pub proof fn lemma_repeated_decay_fades(g: Grid, evaporation: int, passes: nat)
    requires
        g.wf(),
        0 <= evaporation,
    ensures
        decayed_repeatedly(g, evaporation, passes).wf(),
        decayed_repeatedly(g, evaporation, passes).peak() <= (if g.peak() - passes * evaporation
            < MIN_INTENSITY {
            MIN_INTENSITY as int
        } else {
            g.peak() - passes * evaporation
        }),
    decreases passes,
{
    if passes > 0 {
        let before = (passes - 1) as nat;
        lemma_repeated_decay_fades(g, evaporation, before);
        let faded = decayed_repeatedly(g, evaporation, before);
        lemma_decay_bounded(faded, evaporation, 255);
        lemma_decay_lowers_peak(faded, evaporation);
        assert(passes * evaporation == before * evaporation + evaporation) by (nonlinear_arith)
            requires
                passes == before + 1,
        ;
        assert(0 <= before * evaporation) by (nonlinear_arith)
            requires
                0 <= before,
                0 <= evaporation,
        ;
    }
}

/// A rectangular grid of trail intensities.
pub struct TrailField {
    width: usize,
    height: usize,
    cells: Vec<u8>,
}

impl View for TrailField {
    type V = Grid;

    closed spec fn view(&self) -> Grid {
        Grid { width: self.width as int, height: self.height as int, cells: self.cells@ }
    }
}

impl TrailField {
    /// The field's sides are within bounds and it holds one intensity per
    /// cell.
    pub open spec fn wf(&self) -> bool {
        self@.wf()
    }

    /// A field of `width` by `height` cells, all at the lowest intensity.
    pub fn new(width: usize, height: usize) -> (field: TrailField)
        requires
            1 <= width <= MAX_EXTENT,
            1 <= height <= MAX_EXTENT,
        ensures
            field.wf(),
            field@ == Grid::blank(width as int, height as int),
    {
        assert(width * height <= 32768 * 32768) by (nonlinear_arith)
            requires
                width <= 32768,
                height <= 32768,
        ;
        let cells: Vec<u8> = vec![MIN_INTENSITY; width * height];
        let field = TrailField { width, height, cells };
        assert(field@.cells =~= Grid::blank(width as int, height as int).cells);
        field
    }

    /// The number of cells in a row.
    pub fn width(&self) -> (w: usize)
        ensures
            w == self@.width,
    {
        self.width
    }

    /// The number of rows.
    pub fn height(&self) -> (h: usize)
        ensures
            h == self@.height,
    {
        self.height
    }

    /// The intensities, row by row.
    pub fn cells(&self) -> (cells: &Vec<u8>)
        ensures
            cells@ == self@.cells,
    {
        &self.cells
    }

    /// The intensity of cell `(x, y)`.
    pub fn get(&self, x: usize, y: usize) -> (v: u8)
        requires
            self.wf(),
            self@.contains(x as int, y as int),
        ensures
            v == self@.at(x as int, y as int),
    {
        proof {
            lemma_index_in_range(self@, x as int, y as int);
        }
        self.cells[y * self.width + x]
    }

    /// The sum of three cells of row `y`.
    fn row_sum(&self, x0: usize, x1: usize, x2: usize, y: usize) -> (sum: u32)
        requires
            self.wf(),
            self@.contains(x0 as int, y as int),
            self@.contains(x1 as int, y as int),
            self@.contains(x2 as int, y as int),
        ensures
            sum == self@.at(x0 as int, y as int) + self@.at(x1 as int, y as int) + self@.at(
                x2 as int,
                y as int,
            ),
            sum <= 765,
    {
        self.get(x0, y) as u32 + self.get(x1, y) as u32 + self.get(x2, y) as u32
    }

    /// The cell that holds the fixed-point coordinate `(x, y)`, as column
    /// and row: the coordinate rounded down, and held within the grid.
    pub fn cell_of(&self, x: i64, y: i64) -> (cell: (usize, usize))
        requires
            self.wf(),
        ensures
            cell.0 == self@.column_of(x as int),
            cell.1 == self@.row_of(y as int),
            self@.contains(cell.0 as int, cell.1 as int),
    {
        let cx: i64 = floor_div(x, ONE);
        let cy: i64 = floor_div(y, ONE);
        let column: usize = if cx < 0 {
            0
        } else if cx >= self.width as i64 {
            self.width - 1
        } else {
            cx as usize
        };
        let row: usize = if cy < 0 {
            0
        } else if cy >= self.height as i64 {
            self.height - 1
        } else {
            cy as usize
        };
        (column, row)
    }

    /// The unweighted mean of the 3×3 block centred on cell `(x, y)`,
    /// rounded down.  Beyond an edge the block reads the border cells.
    pub fn neighborhood_average(&self, x: usize, y: usize) -> (mean: u8)
        requires
            self.wf(),
            self@.contains(x as int, y as int),
        ensures
            mean == self@.blur(x as int, y as int),
    {
        let x0: usize = if x == 0 {
            0
        } else {
            x - 1
        };
        let x2: usize = if x + 1 == self.width {
            x
        } else {
            x + 1
        };
        let y0: usize = if y == 0 {
            0
        } else {
            y - 1
        };
        let y2: usize = if y + 1 == self.height {
            y
        } else {
            y + 1
        };
        let top: u32 = self.row_sum(x0, x, x2, y0);
        let middle: u32 = self.row_sum(x0, x, x2, y);
        let bottom: u32 = self.row_sum(x0, x, x2, y2);
        assert(x0 == clamp(x - 1, 0, self@.width - 1) && x2 == clamp(x + 1, 0, self@.width - 1));
        assert(y0 == clamp(y - 1, 0, self@.height - 1) && y2 == clamp(y + 1, 0, self@.height - 1));
        assert(x == clamp(x as int, 0, self@.width - 1) && y == clamp(y as int, 0, self@.height - 1));
        assert(top + middle + bottom == self@.neighborhood_sum(x as int, y as int));
        ((top + middle + bottom) / 9) as u8
    }

    /// What a sensor reads at the fixed-point coordinate `(x, y)`: the mean
    /// of the 3×3 block centred on the cell that holds the coordinate.
    pub fn sample_neighborhood_average(&self, x: i64, y: i64) -> (mean: u8)
        requires
            self.wf(),
        ensures
            mean == self@.sampled(x as int, y as int),
    {
        let (column, row) = self.cell_of(x, y);
        self.neighborhood_average(column, row)
    }

    /// Raises the cell that holds the fixed-point coordinate `(x, y)` to the
    /// highest intensity, whatever it held before.
    pub fn deposit(&mut self, x: i64, y: i64)
        requires
            old(self).wf(),
        ensures
            final(self).wf(),
            final(self)@ == old(self)@.deposited(x as int, y as int),
            final(self)@.in_range(),
    {
        let (column, row) = self.cell_of(x, y);
        proof {
            lemma_index_in_range(self@, column as int, row as int);
        }
        let i: usize = row * self.width + column;
        self.cells[i] = MAX_INTENSITY;
    }

    /// One decay pass: every cell becomes the mean of its 3×3 block as it
    /// was before the pass, less `evaporation`, and never less than the
    /// lowest intensity.
    pub fn decay(&mut self, evaporation: u8)
        requires
            old(self).wf(),
        ensures
            final(self).wf(),
            final(self)@ == old(self)@.decayed(evaporation as int),
            final(self)@.in_range(),
    {
        let n: usize = self.cells.len();
        let mut next: Vec<u8> = Vec::with_capacity(n);
        let mut i: usize = 0;
        while i < n
            invariant
                self.wf(),
                n == self@.cells.len(),
                i <= n,
                next@.len() == i,
                forall|k: int|
                    0 <= k < i ==> next@[k] == #[trigger] self@.decayed(
                        evaporation as int,
                    ).cells[k],
            decreases n - i,
        {
            proof {
                lemma_cell_of_index(self@, i as int);
            }
            let x: usize = i % self.width;
            let y: usize = i / self.width;
            let mean: u8 = self.neighborhood_average(x, y);
            next.push(mean.saturating_sub(evaporation));
            i += 1;
        }
        proof {
            assert(next@ =~= self@.decayed(evaporation as int).cells);
        }
        self.cells = next;
    }
}

} // verus!
