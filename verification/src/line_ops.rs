//! What inserting and deleting lines, and scrolling, do to the rows of a
//! screen, stated row by row: which row's contents end up where, and which
//! rows come out blank.

use vstd::prelude::*;

use crate::grid::{shift_left, shift_right};
use crate::screen::{delete_lines_model, insert_lines_model, min_usize, scroll_down_model, scroll_up_model, shifted_rows, ScreenModel};
use crate::style::CellModel;

verus! {

/// A row of blanks in the current erase attributes.
pub open spec fn blank_row(m: ScreenModel) -> Seq<CellModel> {
    Seq::new(m.columns as nat, |j: int| m.blank())
}

proof fn lemma_row_index(k: int, j: int, c: int, lo_row: int, hi_row: int)
    requires
        c >= 1,
        0 <= j < c,
        lo_row <= k < hi_row,
    ensures
        lo_row * c <= k * c + j < hi_row * c,
{
    assert(lo_row * c <= k * c) by (nonlinear_arith)
        requires
            lo_row <= k,
            c >= 1,
    ;
    assert(k * c + c <= hi_row * c) by (nonlinear_arith)
        requires
            k + 1 <= hi_row,
            c >= 1,
    ;
}

proof fn lemma_mul_facts(a: int, b: int, c: int)
    ensures
        (a + b) * c == a * c + b * c,
        (a - b) * c == a * c - b * c,
{
    assert((a + b) * c == a * c + b * c) by (nonlinear_arith);
    assert((a - b) * c == a * c - b * c) by (nonlinear_arith);
}

/// The cells of row `k` of a grid `cells` with `c` columns, cell by cell.
proof fn lemma_row_cell(cells: Seq<CellModel>, rows: int, c: int, k: int, j: int)
    requires
        c >= 1,
        cells.len() == rows * c,
        0 <= k < rows,
        0 <= j < c,
    ensures
        0 <= k * c + j < cells.len(),
        cells.subrange(k * c, k * c + c).len() == c,
        cells.subrange(k * c, k * c + c)[j] == cells[k * c + j],
{
    lemma_row_index(k, j, c, 0, rows);
    lemma_row_index(k, c - 1, c, 0, rows);
    assert(0 <= k * c) by (nonlinear_arith)
        requires
            0 <= k,
            c >= 1,
    ;
}

/// Row `k` of a grid with `c` columns.
pub open spec fn row_of(cells: Seq<CellModel>, c: int, k: int) -> Seq<CellModel> {
    cells.subrange(k * c, k * c + c)
}

/// Moving the rows of `[top, bottom]` up by `n`.
proof fn lemma_rows_up(m: ScreenModel, top: int, bottom: int, n: usize)
    requires
        m.wf(),
        n > 0,
        0 <= top <= bottom < m.rows,
    ensures
        ({
            let r = shifted_rows(m, top as usize, bottom as usize, n, false);
            let c = m.columns as int;
            let gone = min_usize(n, (bottom - top + 1) as usize) as int;
            &&& r.len() == m.cells.len()
            &&& forall|k: int| top <= k && k + n <= bottom ==> #[trigger] row_of(r, c, k) == m.row_cells(k + n)
            &&& forall|k: int| bottom - gone < k <= bottom ==> #[trigger] row_of(r, c, k) == blank_row(m)
            &&& forall|k: int| 0 <= k < m.rows && (k < top || k > bottom) ==> #[trigger] row_of(r, c, k) == m.row_cells(k)
        }),
{
    let r = shifted_rows(m, top as usize, bottom as usize, n, false);
    let c = m.columns as int;
    let rows = m.rows as int;
    let gone = min_usize(n, (bottom - top + 1) as usize) as int;
    let lo = top * c;
    let hi = (bottom + 1) * c;
    let amt = gone * c;
    lemma_mul_facts(bottom + 1, gone, c);
    assert(0 <= amt && lo <= hi - amt) by (nonlinear_arith)
        requires
            amt == gone * c,
            lo == top * c,
            hi - amt == (bottom + 1 - gone) * c,
            0 <= gone <= bottom + 1 - top,
            c >= 1,
    ;
    assert(r == shift_left(m.cells, lo, hi, amt, m.blank()));
    assert forall|k: int| top <= k && k + n <= bottom implies #[trigger] row_of(r, c, k) == m.row_cells(k + n) by {
        assert(gone == n);
        lemma_mul_facts(k, gone, c);
        assert forall|j: int| 0 <= j < c implies #[trigger] row_of(r, c, k)[j] == m.row_cells(k + n)[j] by {
            lemma_row_cell(r, rows, c, k, j);
            lemma_row_cell(m.cells, rows, c, k + n, j);
            lemma_row_index(k, j, c, top, bottom + 1 - gone);
        }
        lemma_row_cell(r, rows, c, k, 0);
        lemma_row_cell(m.cells, rows, c, k + n, 0);
        assert(row_of(r, c, k) =~= m.row_cells(k + n));
    }
    assert forall|k: int| bottom - gone < k <= bottom implies #[trigger] row_of(r, c, k) == blank_row(m) by {
        assert forall|j: int| 0 <= j < c implies #[trigger] row_of(r, c, k)[j] == blank_row(m)[j] by {
            lemma_row_cell(r, rows, c, k, j);
            lemma_row_index(k, j, c, bottom + 1 - gone, bottom + 1);
        }
        lemma_row_cell(r, rows, c, k, 0);
        assert(row_of(r, c, k) =~= blank_row(m));
    }
    assert forall|k: int| 0 <= k < rows && (k < top || k > bottom) implies #[trigger] row_of(r, c, k) == m.row_cells(k) by {
        assert forall|j: int| 0 <= j < c implies #[trigger] row_of(r, c, k)[j] == m.row_cells(k)[j] by {
            lemma_row_cell(r, rows, c, k, j);
            lemma_row_cell(m.cells, rows, c, k, j);
            if k < top {
                lemma_row_index(k, j, c, 0, top);
            } else {
                lemma_row_index(k, j, c, bottom + 1, rows);
            }
        }
        lemma_row_cell(r, rows, c, k, 0);
        lemma_row_cell(m.cells, rows, c, k, 0);
        assert(row_of(r, c, k) =~= m.row_cells(k));
    }
}

/// Moving the rows of `[top, bottom]` down by `n`.
proof fn lemma_rows_down(m: ScreenModel, top: int, bottom: int, n: usize)
    requires
        m.wf(),
        n > 0,
        0 <= top <= bottom < m.rows,
    ensures
        ({
            let r = shifted_rows(m, top as usize, bottom as usize, n, true);
            let c = m.columns as int;
            let added = min_usize(n, (bottom - top + 1) as usize) as int;
            &&& r.len() == m.cells.len()
            &&& forall|k: int| top <= k && k + n <= bottom ==> #[trigger] row_of(r, c, k + n) == m.row_cells(k)
            &&& forall|k: int| top <= k < top + added ==> #[trigger] row_of(r, c, k) == blank_row(m)
            &&& forall|k: int| 0 <= k < m.rows && (k < top || k > bottom) ==> #[trigger] row_of(r, c, k) == m.row_cells(k)
        }),
{
    let r = shifted_rows(m, top as usize, bottom as usize, n, true);
    let c = m.columns as int;
    let rows = m.rows as int;
    let added = min_usize(n, (bottom - top + 1) as usize) as int;
    let lo = top * c;
    let hi = (bottom + 1) * c;
    let amt = added * c;
    lemma_mul_facts(top, added, c);
    lemma_mul_facts(bottom + 1, added, c);
    assert(0 <= amt && lo + amt <= hi) by (nonlinear_arith)
        requires
            amt == added * c,
            lo + amt == (top + added) * c,
            hi == (bottom + 1) * c,
            0 <= added <= bottom + 1 - top,
            c >= 1,
    ;
    assert(r == shift_right(m.cells, lo, hi, amt, m.blank()));
    assert forall|k: int| top <= k && k + n <= bottom implies #[trigger] row_of(r, c, k + n) == m.row_cells(k) by {
        assert(added == n);
        lemma_mul_facts(k, added, c);
        assert forall|j: int| 0 <= j < c implies #[trigger] row_of(r, c, k + n)[j] == m.row_cells(k)[j] by {
            lemma_row_cell(r, rows, c, k + n, j);
            lemma_row_cell(m.cells, rows, c, k, j);
            lemma_row_index(k + n, j, c, top + added, bottom + 1);
        }
        lemma_row_cell(r, rows, c, k + n, 0);
        lemma_row_cell(m.cells, rows, c, k, 0);
        assert(row_of(r, c, k + n) =~= m.row_cells(k));
    }
    assert forall|k: int| top <= k < top + added implies #[trigger] row_of(r, c, k) == blank_row(m) by {
        assert forall|j: int| 0 <= j < c implies #[trigger] row_of(r, c, k)[j] == blank_row(m)[j] by {
            lemma_row_cell(r, rows, c, k, j);
            lemma_row_index(k, j, c, top, top + added);
        }
        lemma_row_cell(r, rows, c, k, 0);
        assert(row_of(r, c, k) =~= blank_row(m));
    }
    assert forall|k: int| 0 <= k < rows && (k < top || k > bottom) implies #[trigger] row_of(r, c, k) == m.row_cells(k) by {
        assert forall|j: int| 0 <= j < c implies #[trigger] row_of(r, c, k)[j] == m.row_cells(k)[j] by {
            lemma_row_cell(r, rows, c, k, j);
            lemma_row_cell(m.cells, rows, c, k, j);
            if k < top {
                lemma_row_index(k, j, c, 0, top);
            } else {
                lemma_row_index(k, j, c, bottom + 1, rows);
            }
        }
        lemma_row_cell(r, rows, c, k, 0);
        lemma_row_cell(m.cells, rows, c, k, 0);
        assert(row_of(r, c, k) =~= m.row_cells(k));
    }
}

/// DL: deleting `n` lines at a cursor row inside the scrolling region pulls
/// every row below it up by `n` (row `k` now holds what row `k + n` held),
/// blanks the last `min(n, bottom - row + 1)` rows of the region, leaves the
/// rows outside `[row, bottom]` alone and puts the cursor in column zero.
pub proof fn delete_lines_pulls_rows_up(m: ScreenModel, n: usize)
    requires
        m.wf(),
        n > 0,
        m.scroll_region.top <= m.row <= m.scroll_region.bottom,
    ensures
        ({
            let r = delete_lines_model(m, n);
            let bottom = m.scroll_region.bottom as int;
            let gone = min_usize(n, (bottom - m.row + 1) as usize) as int;
            &&& r.row == m.row
            &&& r.column == 0
            &&& forall|k: int| m.row <= k && k + n <= bottom ==> #[trigger] r.row_cells(k) == m.row_cells(k + n)
            &&& forall|k: int| bottom - gone < k <= bottom ==> #[trigger] r.row_cells(k) == blank_row(m)
            &&& forall|k: int| 0 <= k < m.rows && (k < m.row || k > bottom) ==> #[trigger] r.row_cells(k) == m.row_cells(k)
        }),
{
    lemma_rows_up(m, m.row as int, m.scroll_region.bottom as int, n);
    let r = delete_lines_model(m, n);
    assert(forall|k: int| #[trigger] r.row_cells(k) == row_of(shifted_rows(m, m.row, m.scroll_region.bottom, n, false), m.columns as int, k));
}

/// IL: inserting `n` lines at a cursor row inside the scrolling region pushes
/// the rows from the cursor down by `n` (row `k + n` now holds what row `k`
/// held), blanks the first `min(n, bottom - row + 1)` rows from the cursor on,
/// leaves the rows outside `[row, bottom]` alone and puts the cursor in column zero.
pub proof fn insert_lines_pushes_rows_down(m: ScreenModel, n: usize)
    requires
        m.wf(),
        n > 0,
        m.scroll_region.top <= m.row <= m.scroll_region.bottom,
    ensures
        ({
            let r = insert_lines_model(m, n);
            let bottom = m.scroll_region.bottom as int;
            let added = min_usize(n, (bottom - m.row + 1) as usize) as int;
            &&& r.row == m.row
            &&& r.column == 0
            &&& forall|k: int| m.row <= k && k + n <= bottom ==> #[trigger] r.row_cells(k + n) == m.row_cells(k)
            &&& forall|k: int| m.row <= k < m.row + added ==> #[trigger] r.row_cells(k) == blank_row(m)
            &&& forall|k: int| 0 <= k < m.rows && (k < m.row || k > bottom) ==> #[trigger] r.row_cells(k) == m.row_cells(k)
        }),
{
    lemma_rows_down(m, m.row as int, m.scroll_region.bottom as int, n);
    let r = insert_lines_model(m, n);
    assert(forall|k: int| #[trigger] r.row_cells(k) == row_of(shifted_rows(m, m.row, m.scroll_region.bottom, n, true), m.columns as int, k));
}

/// SU: scrolling up by `n` moves every row of the scrolling region up by `n`
/// (row `k` now holds what row `k + n` held), blanks the last
/// `min(n, height)` rows of the region, leaves the other rows and the cursor alone.
pub proof fn scroll_up_moves_region_rows_up(m: ScreenModel, n: usize)
    requires
        m.wf(),
        n > 0,
    ensures
        ({
            let r = scroll_up_model(m, n);
            let top = m.scroll_region.top as int;
            let bottom = m.scroll_region.bottom as int;
            let gone = min_usize(n, (bottom - top + 1) as usize) as int;
            &&& r.row == m.row
            &&& r.column == m.column
            &&& forall|k: int| top <= k && k + n <= bottom ==> #[trigger] r.row_cells(k) == m.row_cells(k + n)
            &&& forall|k: int| bottom - gone < k <= bottom ==> #[trigger] r.row_cells(k) == blank_row(m)
            &&& forall|k: int| 0 <= k < m.rows && (k < top || k > bottom) ==> #[trigger] r.row_cells(k) == m.row_cells(k)
        }),
{
    lemma_rows_up(m, m.scroll_region.top as int, m.scroll_region.bottom as int, n);
    let r = scroll_up_model(m, n);
    assert(forall|k: int| #[trigger] r.row_cells(k) == row_of(shifted_rows(m, m.scroll_region.top, m.scroll_region.bottom, n, false), m.columns as int, k));
}

/// SD: scrolling down by `n` moves every row of the scrolling region down by
/// `n` (row `k + n` now holds what row `k` held), blanks the first
/// `min(n, height)` rows of the region, leaves the other rows and the cursor alone.
pub proof fn scroll_down_moves_region_rows_down(m: ScreenModel, n: usize)
    requires
        m.wf(),
        n > 0,
    ensures
        ({
            let r = scroll_down_model(m, n);
            let top = m.scroll_region.top as int;
            let bottom = m.scroll_region.bottom as int;
            let added = min_usize(n, (bottom - top + 1) as usize) as int;
            &&& r.row == m.row
            &&& r.column == m.column
            &&& forall|k: int| top <= k && k + n <= bottom ==> #[trigger] r.row_cells(k + n) == m.row_cells(k)
            &&& forall|k: int| top <= k < top + added ==> #[trigger] r.row_cells(k) == blank_row(m)
            &&& forall|k: int| 0 <= k < m.rows && (k < top || k > bottom) ==> #[trigger] r.row_cells(k) == m.row_cells(k)
        }),
{
    lemma_rows_down(m, m.scroll_region.top as int, m.scroll_region.bottom as int, n);
    let r = scroll_down_model(m, n);
    assert(forall|k: int| #[trigger] r.row_cells(k) == row_of(shifted_rows(m, m.scroll_region.top, m.scroll_region.bottom, n, true), m.columns as int, k));
}

} // verus!
