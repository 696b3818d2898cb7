//! The total intensity of a field, and how a decay pass lowers it.

use vstd::prelude::*;
use crate::field::{
    decayed_repeatedly, lemma_blur_bounded, lemma_decay_bounded, lemma_index_in_range, Grid,
    MIN_INTENSITY,
};
use crate::fixed::clamp;

verus! {

/// The sum of `h(x, y)` over the first `w` values of `x`.
pub open spec fn row_sum(h: spec_fn(int, int) -> int, y: int, w: int) -> int
    decreases w,
{
    if w <= 0 {
        0
    } else {
        row_sum(h, y, w - 1) + h(w - 1, y)
    }
}

/// The sum of `h(x, y)` over the first `n` values of `y`.
pub open spec fn col_sum(h: spec_fn(int, int) -> int, x: int, n: int) -> int
    decreases n,
{
    if n <= 0 {
        0
    } else {
        col_sum(h, x, n - 1) + h(x, n - 1)
    }
}

/// The sum of `h` over a rectangle of `w` by `n`, taken row by row.
pub open spec fn by_rows(h: spec_fn(int, int) -> int, w: int, n: int) -> int
    decreases n,
{
    if n <= 0 {
        0
    } else {
        by_rows(h, w, n - 1) + row_sum(h, n - 1, w)
    }
}

/// The sum of `h` over a rectangle of `w` by `n`, taken column by column.
pub open spec fn by_cols(h: spec_fn(int, int) -> int, w: int, n: int) -> int
    decreases w,
{
    if w <= 0 {
        0
    } else {
        by_cols(h, w - 1, n) + col_sum(h, w - 1, n)
    }
}

impl Grid {
    /// The sum of the intensities of all cells.
    pub open spec fn total(self) -> int {
        by_rows(|x: int, y: int| self.at(x, y), self.width, self.height)
    }
}

proof fn lemma_by_cols_empty(h: spec_fn(int, int) -> int, w: int, n: int)
    requires
        n <= 0,
    ensures
        by_cols(h, w, n) == 0,
    decreases w,
{
    if w > 0 {
        lemma_by_cols_empty(h, w - 1, n);
    }
}

proof fn lemma_by_cols_step(h: spec_fn(int, int) -> int, w: int, n: int)
    requires
        n >= 1,
    ensures
        by_cols(h, w, n) == by_cols(h, w, n - 1) + row_sum(h, n - 1, w),
    decreases w,
{
    if w > 0 {
        lemma_by_cols_step(h, w - 1, n);
    }
}

/// A sum over a rectangle is the same by rows and by columns.
pub proof fn lemma_swap(h: spec_fn(int, int) -> int, w: int, n: int)
    ensures
        by_rows(h, w, n) == by_cols(h, w, n),
    decreases n,
{
    if n <= 0 {
        lemma_by_cols_empty(h, w, n);
    } else {
        lemma_swap(h, w, n - 1);
        lemma_by_cols_step(h, w, n);
    }
}

proof fn lemma_row_combine(
    a: spec_fn(int, int) -> int,
    b: spec_fn(int, int) -> int,
    s: spec_fn(int, int) -> int,
    ka: int,
    kb: int,
    y: int,
    w: int,
)
    requires
        forall|x: int| 0 <= x < w ==> #[trigger] s(x, y) == ka * a(x, y) + kb * b(x, y),
    ensures
        row_sum(s, y, w) == ka * row_sum(a, y, w) + kb * row_sum(b, y, w),
    decreases w,
{
    if w > 0 {
        lemma_row_combine(a, b, s, ka, kb, y, w - 1);
        let ra = row_sum(a, y, w - 1);
        let rb = row_sum(b, y, w - 1);
        let va = a(w - 1, y);
        let vb = b(w - 1, y);
        assert(ka * (ra + va) + kb * (rb + vb) == (ka * ra + kb * rb) + (ka * va + kb * vb))
            by (nonlinear_arith);
    }
}

/// Where `s` is `ka` times `a` plus `kb` times `b` at every point of a
/// rectangle, so are their sums over it.
pub proof fn lemma_rows_combine(
    a: spec_fn(int, int) -> int,
    b: spec_fn(int, int) -> int,
    s: spec_fn(int, int) -> int,
    ka: int,
    kb: int,
    w: int,
    n: int,
)
    requires
        forall|x: int, y: int|
            0 <= x < w && 0 <= y < n ==> #[trigger] s(x, y) == ka * a(x, y) + kb * b(x, y),
    ensures
        by_rows(s, w, n) == ka * by_rows(a, w, n) + kb * by_rows(b, w, n),
    decreases n,
{
    if n > 0 {
        lemma_rows_combine(a, b, s, ka, kb, w, n - 1);
        lemma_row_combine(a, b, s, ka, kb, n - 1, w);
        let ra = by_rows(a, w, n - 1);
        let rb = by_rows(b, w, n - 1);
        let va = row_sum(a, n - 1, w);
        let vb = row_sum(b, n - 1, w);
        assert(ka * (ra + va) + kb * (rb + vb) == (ka * ra + kb * rb) + (ka * va + kb * vb))
            by (nonlinear_arith);
    }
}

proof fn lemma_row_le(a: spec_fn(int, int) -> int, b: spec_fn(int, int) -> int, y: int, w: int)
    requires
        forall|x: int| 0 <= x < w ==> #[trigger] a(x, y) <= b(x, y),
    ensures
        row_sum(a, y, w) <= row_sum(b, y, w),
    decreases w,
{
    if w > 0 {
        lemma_row_le(a, b, y, w - 1);
        assert(a(w - 1, y) <= b(w - 1, y));
    }
}

/// Where `a` does not exceed `b` at any point of a rectangle, the sum of
/// `a` over it does not exceed that of `b`.
pub proof fn lemma_rows_le(
    a: spec_fn(int, int) -> int,
    b: spec_fn(int, int) -> int,
    w: int,
    n: int,
)
    requires
        forall|x: int, y: int| 0 <= x < w && 0 <= y < n ==> #[trigger] a(x, y) <= b(x, y),
    ensures
        by_rows(a, w, n) <= by_rows(b, w, n),
    decreases n,
{
    if n > 0 {
        lemma_rows_le(a, b, w, n - 1);
        assert forall|x: int| 0 <= x < w implies #[trigger] a(x, n - 1) <= b(x, n - 1) by {}
        lemma_row_le(a, b, n - 1, w);
    }
}

proof fn lemma_row_triple_prefix(
    f: spec_fn(int, int) -> int,
    t: spec_fn(int, int) -> int,
    y: int,
    w: int,
    m: int,
)
    requires
        1 <= m <= w,
        forall|x: int|
            0 <= x < w ==> #[trigger] t(x, y) == f(clamp(x - 1, 0, w - 1), y) + f(x, y) + f(
                clamp(x + 1, 0, w - 1),
                y,
            ),
    ensures
        row_sum(t, y, m) == 3 * row_sum(f, y, m) - f(m - 1, y) + f(clamp(m, 0, w - 1), y),
    decreases m,
{
    if m > 1 {
        lemma_row_triple_prefix(f, t, y, w, m - 1);
        assert(t(m - 1, y) == f(m - 2, y) + f(m - 1, y) + f(clamp(m, 0, w - 1), y));
    } else {
        assert(row_sum(t, y, 0) == 0);
        assert(row_sum(f, y, 0) == 0);
        assert(t(0, y) == f(0, y) + f(0, y) + f(clamp(1, 0, w - 1), y));
    }
}

proof fn lemma_col_triple_prefix(
    f: spec_fn(int, int) -> int,
    t: spec_fn(int, int) -> int,
    x: int,
    n: int,
    m: int,
)
    requires
        1 <= m <= n,
        forall|y: int|
            0 <= y < n ==> #[trigger] t(x, y) == f(x, clamp(y - 1, 0, n - 1)) + f(x, y) + f(
                x,
                clamp(y + 1, 0, n - 1),
            ),
    ensures
        col_sum(t, x, m) == 3 * col_sum(f, x, m) - f(x, m - 1) + f(x, clamp(m, 0, n - 1)),
    decreases m,
{
    if m > 1 {
        lemma_col_triple_prefix(f, t, x, n, m - 1);
        assert(t(x, m - 1) == f(x, m - 2) + f(x, m - 1) + f(x, clamp(m, 0, n - 1)));
    } else {
        assert(col_sum(t, x, 0) == 0);
        assert(col_sum(f, x, 0) == 0);
        assert(t(x, 0) == f(x, 0) + f(x, 0) + f(x, clamp(1, 0, n - 1)));
    }
}

/// Where every `t(x, y)` is the sum of `f` at `x` and at its two neighbours
/// along the row, the border standing in for a neighbour beyond it, the sum
/// of `t` over a rectangle is three times that of `f`.
pub proof fn lemma_rows_triple(
    f: spec_fn(int, int) -> int,
    t: spec_fn(int, int) -> int,
    w: int,
    n: int,
)
    requires
        1 <= w,
        forall|x: int, y: int|
            0 <= x < w && 0 <= y < n ==> #[trigger] t(x, y) == f(clamp(x - 1, 0, w - 1), y) + f(
                x,
                y,
            ) + f(clamp(x + 1, 0, w - 1), y),
    ensures
        by_rows(t, w, n) == 3 * by_rows(f, w, n),
    decreases n,
{
    if n > 0 {
        lemma_rows_triple(f, t, w, n - 1);
        assert forall|x: int| 0 <= x < w implies #[trigger] t(x, n - 1) == f(
            clamp(x - 1, 0, w - 1),
            n - 1,
        ) + f(x, n - 1) + f(clamp(x + 1, 0, w - 1), n - 1) by {}
        lemma_row_triple_prefix(f, t, n - 1, w, w);
    }
}

/// Where every `t(x, y)` is the sum of `f` at `y` and at its two neighbours
/// along the column, the border standing in for a neighbour beyond it, the
/// sum of `t` over a rectangle is three times that of `f`.
pub proof fn lemma_cols_triple(
    f: spec_fn(int, int) -> int,
    t: spec_fn(int, int) -> int,
    w: int,
    n: int,
)
    requires
        1 <= n,
        forall|x: int, y: int|
            0 <= x < w && 0 <= y < n ==> #[trigger] t(x, y) == f(x, clamp(y - 1, 0, n - 1)) + f(
                x,
                y,
            ) + f(x, clamp(y + 1, 0, n - 1)),
    ensures
        by_cols(t, w, n) == 3 * by_cols(f, w, n),
    decreases w,
{
    if w > 0 {
        lemma_cols_triple(f, t, w - 1, n);
        assert forall|y: int| 0 <= y < n implies #[trigger] t(w - 1, y) == f(
            w - 1,
            clamp(y - 1, 0, n - 1),
        ) + f(w - 1, y) + f(w - 1, clamp(y + 1, 0, n - 1)) by {}
        lemma_col_triple_prefix(f, t, w - 1, n, n);
    }
}

/// The 3×3 blocks of a grid together hold every cell nine times over: a
/// border cell makes up in the blocks at the border for the blocks it lacks
/// beyond it.
pub proof fn lemma_blocks_hold_nine_totals(g: Grid)
    requires
        g.wf(),
    ensures
        by_rows(|x: int, y: int| g.neighborhood_sum(x, y), g.width, g.height) == 9 * g.total(),
{
    let w = g.width;
    let n = g.height;
    let cell = |x: int, y: int| g.at(x, y);
    let triple = |x: int, y: int|
        g.at(clamp(x - 1, 0, w - 1), y) + g.at(x, y) + g.at(clamp(x + 1, 0, w - 1), y);
    let block = |x: int, y: int| g.neighborhood_sum(x, y);
    assert forall|x: int, y: int| 0 <= x < w && 0 <= y < n implies #[trigger] triple(x, y) == cell(
        clamp(x - 1, 0, w - 1),
        y,
    ) + cell(x, y) + cell(clamp(x + 1, 0, w - 1), y) by {}
    lemma_rows_triple(cell, triple, w, n);
    assert forall|x: int, y: int| 0 <= x < w && 0 <= y < n implies #[trigger] block(x, y)
        == triple(x, clamp(y - 1, 0, n - 1)) + triple(x, y) + triple(x, clamp(y + 1, 0, n - 1)) by {}
    lemma_cols_triple(triple, block, w, n);
    lemma_swap(block, w, n);
    lemma_swap(triple, w, n);
}

/// A decay pass does not raise the total intensity of the field.  With a
/// positive evaporation it lowers the total, unless no intensity is left
/// after the pass.
pub proof fn lemma_decay_lowers_total(g: Grid, evaporation: int)
    requires
        g.wf(),
        0 <= evaporation,
    ensures
        MIN_INTENSITY <= g.decayed(evaporation).total() <= g.total(),
        evaporation >= 1 ==> g.decayed(evaporation).total() < g.total() || g.decayed(
            evaporation,
        ).total() == MIN_INTENSITY,
{
    let w = g.width;
    let n = g.height;
    let d = g.decayed(evaporation);
    let after = |x: int, y: int| d.at(x, y);
    let lost = |x: int, y: int|
        if evaporation >= 1 && d.at(x, y) > 0 {
            1int
        } else {
            0int
        };
    let both = |x: int, y: int| 9 * after(x, y) + 9 * lost(x, y);
    let block = |x: int, y: int| g.neighborhood_sum(x, y);
    let nothing = |x: int, y: int| 0int;
    let most = |x: int, y: int| 255 * lost(x, y);
    assert forall|x: int, y: int| 0 <= x < w && 0 <= y < n implies {
        &&& #[trigger] after(x, y) == g.decayed_value(x, y, evaporation)
        &&& 0 <= after(x, y) <= 255
    } by {
        lemma_index_in_range(g, x, y);
    }
    assert forall|x: int, y: int| 0 <= x < w && 0 <= y < n implies #[trigger] both(x, y) <= block(
        x,
        y,
    ) by {
        assert(after(x, y) == g.decayed_value(x, y, evaporation));
        lemma_blur_bounded(g, x, y, 255);
    }
    lemma_rows_le(both, block, w, n);
    assert forall|x: int, y: int| 0 <= x < w && 0 <= y < n implies #[trigger] both(x, y) == 9
        * after(x, y) + 9 * lost(x, y) by {}
    lemma_rows_combine(after, lost, both, 9, 9, w, n);
    lemma_blocks_hold_nine_totals(g);
    assert forall|x: int, y: int| 0 <= x < w && 0 <= y < n implies #[trigger] nothing(x, y)
        <= lost(x, y) by {}
    lemma_rows_le(nothing, lost, w, n);
    assert forall|x: int, y: int| 0 <= x < w && 0 <= y < n implies #[trigger] nothing(x, y) == 0
        * after(x, y) + 0 * after(x, y) by {}
    lemma_rows_combine(after, after, nothing, 0, 0, w, n);
    assert forall|x: int, y: int| 0 <= x < w && 0 <= y < n implies #[trigger] nothing(x, y)
        <= after(x, y) by {
        assert(after(x, y) == g.decayed_value(x, y, evaporation));
    }
    lemma_rows_le(nothing, after, w, n);
    if evaporation >= 1 {
        assert forall|x: int, y: int| 0 <= x < w && 0 <= y < n implies #[trigger] after(x, y)
            <= most(x, y) by {
            assert(after(x, y) == g.decayed_value(x, y, evaporation));
        }
        lemma_rows_le(after, most, w, n);
        assert forall|x: int, y: int| 0 <= x < w && 0 <= y < n implies #[trigger] most(x, y)
            == 255 * lost(x, y) + 0 * lost(x, y) by {}
        lemma_rows_combine(lost, lost, most, 255, 0, w, n);
    }
}

/// Without deposits the field loses intensity: after any number of decay
/// passes its total is the former total at most, and with a positive
/// evaporation every pass has taken at least one unit from it, as far as
/// there was any.
pub proof fn lemma_repeated_decay_lowers_total(g: Grid, evaporation: int, passes: nat)
    requires
        g.wf(),
        0 <= evaporation,
    ensures
        decayed_repeatedly(g, evaporation, passes).wf(),
        decayed_repeatedly(g, evaporation, passes).total() <= g.total(),
        evaporation >= 1 ==> decayed_repeatedly(g, evaporation, passes).total() <= (if g.total()
            - passes < MIN_INTENSITY {
            MIN_INTENSITY as int
        } else {
            g.total() - passes
        }),
    decreases passes,
{
    if passes > 0 {
        let before = decayed_repeatedly(g, evaporation, (passes - 1) as nat);
        lemma_repeated_decay_lowers_total(g, evaporation, (passes - 1) as nat);
        lemma_decay_bounded(before, evaporation, 255);
        lemma_decay_lowers_total(before, evaporation);
    }
}

} // verus!
