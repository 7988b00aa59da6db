//! Cell-vector primitives shared by the screen model: filling, clearing with
//! wide-glyph awareness, and in-row shifting. All moves transfer cells without copying.

use vstd::prelude::*;
use vstd::arithmetic::div_mod::lemma_fundamental_div_mod_converse;

use crate::style::{Cell, CellModel, Style, blank_cell};

verus! {

/// The mathematical contents of a cell vector.
pub open spec fn models(v: Seq<Cell>) -> Seq<CellModel> {
    v.map_values(|c: Cell| c@)
}

/// Replace the cells in `[lo, hi)` with `c`.
pub open spec fn fill(s: Seq<CellModel>, lo: int, hi: int, c: CellModel) -> Seq<CellModel> {
    Seq::new(s.len(), |i: int| if lo <= i < hi { c } else { s[i] })
}

/// A clear that starts on a wide glyph's continuation also clears its leader.
pub open spec fn clear_start(s: Seq<CellModel>, lo: int) -> int {
    if s[lo].width == 0 {
        lo - 1
    } else {
        lo
    }
}

/// A clear that ends on a wide glyph's leader also clears its continuation.
pub open spec fn clear_end(s: Seq<CellModel>, hi: int) -> int {
    if s[hi - 1].width == 2 {
        hi + 1
    } else {
        hi
    }
}

/// Blank `[lo, hi)` with `c`, widened so that no wide glyph is left half-cleared.
pub open spec fn clear_cells(s: Seq<CellModel>, lo: int, hi: int, c: CellModel) -> Seq<
    CellModel,
> {
    fill(s, clear_start(s, lo), clear_end(s, hi), c)
}

/// Move `[lo, hi - k)` right by `k` and blank the vacated `[lo, lo + k)`.
pub open spec fn shift_right(s: Seq<CellModel>, lo: int, hi: int, k: int, c: CellModel) -> Seq<
    CellModel,
> {
    Seq::new(
        s.len(),
        |i: int|
            if lo <= i < lo + k {
                c
            } else if lo + k <= i < hi {
                s[i - k]
            } else {
                s[i]
            },
    )
}

/// Move `[lo + k, hi)` left by `k` and blank the vacated `[hi - k, hi)`.
pub open spec fn shift_left(s: Seq<CellModel>, lo: int, hi: int, k: int, c: CellModel) -> Seq<
    CellModel,
> {
    Seq::new(
        s.len(),
        |i: int|
            if lo <= i < hi - k {
                s[i + k]
            } else if hi - k <= i < hi {
                c
            } else {
                s[i]
            },
    )
}

/// A wide leader at `i` is followed, in the same row, by its continuation.
pub open spec fn leader_ok(s: Seq<CellModel>, cols: int, i: int) -> bool {
    s[i].width == 2 ==> i + 1 < s.len() && (i + 1) % cols != 0 && s[i + 1].width == 0
}

/// A continuation at `i` is preceded, in the same row, by its leader.
pub open spec fn continuation_ok(s: Seq<CellModel>, cols: int, i: int) -> bool {
    s[i].width == 0 ==> i % cols != 0 && s[i - 1].width == 2
}

/// Every wide glyph occupies two adjacent cells of one row: a leader of width 2
/// followed by a continuation of width 0, and neither half occurs alone.
#[verifier::opaque]
pub open spec fn pairs_ok(s: Seq<CellModel>, cols: int) -> bool {
    forall|i: int| 0 <= i < s.len() ==> #[trigger] leader_ok(s, cols, i) && continuation_ok(s, cols, i)
}

pub proof fn lemma_pairs_at(s: Seq<CellModel>, cols: int, i: int)
    requires
        pairs_ok(s, cols),
        0 <= i < s.len(),
        cols > 0,
    ensures
        s[i].width == 2 ==> i + 1 < s.len() && (i + 1) % cols != 0 && s[i + 1].width == 0,
        s[i].width == 0 ==> i >= 1 && i % cols != 0 && s[i - 1].width == 2,
{
    reveal(pairs_ok);
    assert(leader_ok(s, cols, i));
    assert(continuation_ok(s, cols, i));
    if i == 0 {
        assert(0int % cols == 0) by {
            lemma_fundamental_div_mod_converse(0, cols, 0, 0);
        }
    }
}

/// Within the row that starts at `start`, the column of index `i` is `i - start`.
pub proof fn lemma_column_of(i: int, start: int, row: int, cols: int)
    requires
        cols > 0,
        start == row * cols,
        start <= i < start + cols,
    ensures
        i % cols == i - start,
{
    lemma_fundamental_div_mod_converse(i, cols, row, i - start);
}

/// The index just past a row is at column zero.
pub proof fn lemma_row_end(row: int, cols: int)
    requires
        cols > 0,
        row >= 0,
    ensures
        (row * cols + cols) % cols == 0,
{
    assert(row * cols + cols == (row + 1) * cols) by (nonlinear_arith);
    lemma_fundamental_div_mod_converse(row * cols + cols, cols, row + 1, 0);
}

/// Shifting an index by whole rows keeps its column.
pub proof fn lemma_column_shift(i: int, rows: int, cols: int)
    requires
        cols > 0,
    ensures
        (i + rows * cols) % cols == i % cols,
{
    let q = i / cols;
    let r = i % cols;
    assert(i == q * cols + r && 0 <= r < cols) by {
        vstd::arithmetic::div_mod::lemma_fundamental_div_mod(i, cols);
    }
    assert(i + rows * cols == (q + rows) * cols + r) by (nonlinear_arith)
        requires
            i == q * cols + r,
    ;
    lemma_fundamental_div_mod_converse(i + rows * cols, cols, q + rows, r);
}

/// Blanking a block whose ends split no wide glyph keeps the pairing.
pub proof fn lemma_fill_pairs(s: Seq<CellModel>, cols: int, lo: int, hi: int, c: CellModel)
    requires
        cols > 0,
        pairs_ok(s, cols),
        0 <= lo <= hi <= s.len(),
        c.width == 1,
        lo < hi && lo < s.len() ==> s[lo].width != 0,
        lo < hi && hi > 0 ==> s[hi - 1].width != 2,
    ensures
        pairs_ok(fill(s, lo, hi, c), cols),
{
    let t = fill(s, lo, hi, c);
    reveal(pairs_ok);
    assert forall|i: int| 0 <= i < t.len() implies #[trigger] leader_ok(t, cols, i)
        && continuation_ok(t, cols, i) by {
        lemma_pairs_at(s, cols, i);
        if lo < hi {
            if i + 1 < s.len() && i + 1 != lo && i + 1 < s.len() {
                lemma_pairs_at(s, cols, i + 1);
            }
            if i >= 1 {
                lemma_pairs_at(s, cols, i - 1);
            }
        }
    }
}

/// Clearing `[lo, hi)` with the widened bounds keeps the pairing and stays in bounds.
pub proof fn lemma_clear_pairs(s: Seq<CellModel>, cols: int, lo: int, hi: int, c: CellModel)
    requires
        cols > 0,
        pairs_ok(s, cols),
        0 <= lo < hi <= s.len(),
        c.width == 1,
    ensures
        0 <= clear_start(s, lo) <= lo,
        hi <= clear_end(s, hi) <= s.len(),
        pairs_ok(clear_cells(s, lo, hi, c), cols),
{
    lemma_pairs_at(s, cols, lo);
    lemma_pairs_at(s, cols, hi - 1);
    let a = clear_start(s, lo);
    let b = clear_end(s, hi);
    if a < lo {
        lemma_pairs_at(s, cols, lo - 1);
    }
    if b > hi {
        lemma_pairs_at(s, cols, hi);
    }
    lemma_fill_pairs(s, cols, a, b, c);
}

/// Shifting the right-hand part of one row keeps the pairing when the moved
/// block neither starts on a continuation nor ends on a leader.
pub proof fn lemma_shift_right_pairs(
    s: Seq<CellModel>,
    cols: int,
    row: int,
    lo: int,
    k: int,
    c: CellModel,
)
    requires
        cols > 0,
        pairs_ok(s, cols),
        0 <= row,
        row * cols <= lo,
        0 < k,
        lo + k <= row * cols + cols <= s.len(),
        c.width == 1,
        s[lo].width != 0,
        lo + k < row * cols + cols ==> s[row * cols + cols - k - 1].width != 2,
    ensures
        pairs_ok(shift_right(s, lo, row * cols + cols, k, c), cols),
{
    let hi = row * cols + cols;
    let t = shift_right(s, lo, hi, k, c);
    lemma_row_end(row, cols);
    lemma_pairs_at(s, cols, hi - 1);
    if hi < s.len() {
        lemma_pairs_at(s, cols, hi);
    }
    reveal(pairs_ok);
    assert forall|i: int| 0 <= i < t.len() implies #[trigger] leader_ok(t, cols, i)
        && continuation_ok(t, cols, i) by {
        lemma_pairs_at(s, cols, i);
        if lo + k <= i < hi {
            lemma_pairs_at(s, cols, i - k);
            lemma_column_of(i, row * cols, row, cols);
            if i + 1 < hi {
                lemma_column_of(i + 1, row * cols, row, cols);
            }
        }
        if i + 1 == lo {
            lemma_pairs_at(s, cols, lo);
        }
        if i >= 1 {
            lemma_pairs_at(s, cols, i - 1);
        }
        if i == hi - 1 {
            lemma_column_of(i, row * cols, row, cols);
        }
    }
}

/// Shifting the right-hand part of one row to the left keeps the pairing when
/// the moved block does not start on a continuation and the cell before it is
/// not a leader.
pub proof fn lemma_shift_left_pairs(
    s: Seq<CellModel>,
    cols: int,
    row: int,
    lo: int,
    k: int,
    c: CellModel,
)
    requires
        cols > 0,
        pairs_ok(s, cols),
        0 <= row,
        row * cols <= lo,
        0 < k,
        lo + k <= row * cols + cols <= s.len(),
        c.width == 1,
        lo + k < row * cols + cols ==> s[lo + k].width != 0,
        lo < s.len() ==> s[lo].width != 0,
    ensures
        pairs_ok(shift_left(s, lo, row * cols + cols, k, c), cols),
{
    let hi = row * cols + cols;
    let t = shift_left(s, lo, hi, k, c);
    lemma_row_end(row, cols);
    lemma_pairs_at(s, cols, hi - 1);
    if hi < s.len() {
        lemma_pairs_at(s, cols, hi);
    }
    reveal(pairs_ok);
    assert forall|i: int| 0 <= i < t.len() implies #[trigger] leader_ok(t, cols, i)
        && continuation_ok(t, cols, i) by {
        lemma_pairs_at(s, cols, i);
        lemma_pairs_at(s, cols, hi - 1);
        lemma_column_of(hi - 1, row * cols, row, cols);
        if lo <= i < hi - k {
            lemma_pairs_at(s, cols, i + k);
            lemma_column_of(i, row * cols, row, cols);
            if i + 1 < hi {
                lemma_column_of(i + 1, row * cols, row, cols);
            }
        }
        if i + 1 == lo {
            lemma_pairs_at(s, cols, lo);
        }
        if i >= 1 {
            lemma_pairs_at(s, cols, i - 1);
        }
    }
}


/// Moving whole rows within a row-aligned block keeps the pairing.
pub proof fn lemma_shift_rows_pairs(
    s: Seq<CellModel>,
    cols: int,
    top: int,
    bottom: int,
    m: int,
    down: bool,
    c: CellModel,
)
    requires
        cols > 0,
        pairs_ok(s, cols),
        0 <= top <= bottom,
        (bottom + 1) * cols <= s.len(),
        0 <= m <= bottom - top + 1,
        c.width == 1,
    ensures
        down ==> pairs_ok(shift_right(s, top * cols, (bottom + 1) * cols, m * cols, c), cols),
        !down ==> pairs_ok(shift_left(s, top * cols, (bottom + 1) * cols, m * cols, c), cols),
{
    let lo = top * cols;
    let hi = (bottom + 1) * cols;
    let k = m * cols;
    assert(lo + k <= hi && 0 <= k) by (nonlinear_arith)
        requires
            lo == top * cols,
            hi == (bottom + 1) * cols,
            k == m * cols,
            0 <= m <= bottom - top + 1,
            cols > 0,
    ;
    assert(lo % cols == 0) by {
        lemma_fundamental_div_mod_converse(lo, cols, top, 0);
    }
    assert(hi % cols == 0) by {
        lemma_fundamental_div_mod_converse(hi, cols, bottom + 1, 0);
    }
    assert((hi - k) % cols == 0) by {
        assert(hi - k == (bottom + 1 - m) * cols) by (nonlinear_arith)
            requires
                hi == (bottom + 1) * cols,
                k == m * cols,
        ;
        lemma_fundamental_div_mod_converse(hi - k, cols, bottom + 1 - m, 0);
    }
    assert((lo + k) % cols == 0) by {
        assert(lo + k == (top + m) * cols) by (nonlinear_arith)
            requires
                lo == top * cols,
                k == m * cols,
        ;
        lemma_fundamental_div_mod_converse(lo + k, cols, top + m, 0);
    }
    reveal(pairs_ok);
    if down {
        let t = shift_right(s, lo, hi, k, c);
        assert forall|i: int| 0 <= i < t.len() implies #[trigger] leader_ok(t, cols, i)
            && continuation_ok(t, cols, i) by {
            lemma_pairs_at(s, cols, i);
            if i >= 1 {
                lemma_pairs_at(s, cols, i - 1);
            }
            if i + 1 < s.len() {
                lemma_pairs_at(s, cols, i + 1);
            }
            if lo + k <= i < hi {
                lemma_pairs_at(s, cols, i - k);
                lemma_column_shift(i - k, m, cols);
                lemma_column_shift(i - k + 1, m, cols);
                if i - k >= 1 {
                    lemma_pairs_at(s, cols, i - k - 1);
                }
                if i - k + 1 < s.len() {
                    lemma_pairs_at(s, cols, i - k + 1);
                }
            }
        }
    } else {
        let t = shift_left(s, lo, hi, k, c);
        assert forall|i: int| 0 <= i < t.len() implies #[trigger] leader_ok(t, cols, i)
            && continuation_ok(t, cols, i) by {
            lemma_pairs_at(s, cols, i);
            if i >= 1 {
                lemma_pairs_at(s, cols, i - 1);
            }
            if i + 1 < s.len() {
                lemma_pairs_at(s, cols, i + 1);
            }
            if lo <= i < hi - k {
                lemma_pairs_at(s, cols, i + k);
                lemma_column_shift(i, m, cols);
                lemma_column_shift(i + 1, m, cols);
                if i + k >= 1 {
                    lemma_pairs_at(s, cols, i + k - 1);
                }
                if i + k + 1 < s.len() {
                    lemma_pairs_at(s, cols, i + k + 1);
                }
            }
        }
    }
}

/// Replacing a cell by one of the same width keeps the pairing.
pub proof fn lemma_same_width_update(s: Seq<CellModel>, cols: int, index: int, c: CellModel)
    requires
        cols > 0,
        pairs_ok(s, cols),
        0 <= index < s.len(),
        c.width == s[index].width,
    ensures
        pairs_ok(s.update(index, c), cols),
{
    let t = s.update(index, c);
    reveal(pairs_ok);
    assert forall|i: int| 0 <= i < t.len() implies #[trigger] leader_ok(t, cols, i)
        && continuation_ok(t, cols, i) by {
        lemma_pairs_at(s, cols, i);
    }
}

/// Filling a whole sequence with a one-column cell gives a valid pairing.
pub proof fn lemma_fill_all_pairs(s: Seq<CellModel>, cols: int, c: CellModel)
    requires
        cols > 0,
        c.width == 1,
    ensures
        pairs_ok(fill(s, 0, s.len() as int, c), cols),
{
    reveal(pairs_ok);
    let t = fill(s, 0, s.len() as int, c);
    assert forall|i: int| 0 <= i < t.len() implies #[trigger] leader_ok(t, cols, i)
        && continuation_ok(t, cols, i) by {}
}


/// The cell that a resized grid holds at row `r`, column `c`: the old cell when
/// it lies in the retained top-left overlap, else the destination's blank. A wide
/// leader clipped at the new right edge is replaced by the blank as well.
pub open spec fn overlap_cell(
    old: Seq<CellModel>,
    old_rows: int,
    old_cols: int,
    base: CellModel,
    cols: int,
    r: int,
    c: int,
) -> CellModel {
    if r < old_rows && c < old_cols && !(old[r * old_cols + c].width == 2 && c + 1 == cols) {
        old[r * old_cols + c]
    } else {
        base
    }
}

/// The row-major cells of a `rows` x `cols` grid that keeps the overlap of `old`.
pub open spec fn overlap(
    old: Seq<CellModel>,
    old_rows: int,
    old_cols: int,
    base: CellModel,
    rows: int,
    cols: int,
) -> Seq<CellModel> {
    Seq::new(
        (rows * cols) as nat,
        |i: int| overlap_cell(old, old_rows, old_cols, base, cols, i / cols, i % cols),
    )
}

/// Row and column of a row-major index.
pub proof fn lemma_coordinates(i: int, r: int, c: int, cols: int)
    requires
        cols > 0,
        0 <= c < cols,
        i == r * cols + c,
    ensures
        i / cols == r,
        i % cols == c,
{
    lemma_fundamental_div_mod_converse(i, cols, r, c);
}

/// A row-major index is recovered from its row and column.
pub proof fn lemma_decompose(i: int, cols: int)
    requires
        cols > 0,
        0 <= i,
    ensures
        i == (i / cols) * cols + i % cols,
        0 <= i % cols < cols,
        0 <= i / cols,
{
    vstd::arithmetic::div_mod::lemma_fundamental_div_mod(i, cols);
    assert(cols * (i / cols) == (i / cols) * cols) by (nonlinear_arith);
    vstd::arithmetic::div_mod::lemma_mod_pos_bound(i, cols);
    assert(0 <= i / cols) by {
        vstd::arithmetic::div_mod::lemma_div_pos_is_pos(i, cols);
    }
}

/// Keeping the overlap of a well-paired grid gives a well-paired grid.
pub proof fn lemma_overlap_pairs(
    old: Seq<CellModel>,
    old_rows: int,
    old_cols: int,
    base: CellModel,
    rows: int,
    cols: int,
)
    requires
        old_cols > 0,
        cols > 0,
        rows > 0,
        old_rows > 0,
        old.len() == old_rows * old_cols,
        pairs_ok(old, old_cols),
        base.width == 1,
    ensures
        pairs_ok(overlap(old, old_rows, old_cols, base, rows, cols), cols),
{
    let t = overlap(old, old_rows, old_cols, base, rows, cols);
    reveal(pairs_ok);
    assert forall|i: int| 0 <= i < t.len() implies #[trigger] leader_ok(t, cols, i)
        && continuation_ok(t, cols, i) by {
        lemma_decompose(i, cols);
        let r = i / cols;
        let c = i % cols;
        assert(r < rows) by (nonlinear_arith)
            requires
                i == r * cols + c,
                0 <= c,
                i < rows * cols,
                cols > 0,
        ;
        if r < old_rows && c < old_cols {
            let j = r * old_cols + c;
            assert(0 <= j < old.len()) by (nonlinear_arith)
                requires
                    j == r * old_cols + c,
                    0 <= r < old_rows,
                    0 <= c < old_cols,
                    old.len() == old_rows * old_cols,
            ;
            lemma_pairs_at(old, old_cols, j);
            lemma_coordinates(j, r, c, old_cols);
            if c + 1 < old_cols {
                lemma_coordinates(j + 1, r, c + 1, old_cols);
            } else {
                assert(j + 1 == (r + 1) * old_cols) by (nonlinear_arith)
                    requires
                        j == r * old_cols + c,
                        c + 1 == old_cols,
                ;
                lemma_coordinates(j + 1, r + 1, 0, old_cols);
            }
            if c + 1 < cols {
                lemma_coordinates(i + 1, r, c + 1, cols);
                assert(i + 1 < rows * cols) by (nonlinear_arith)
                    requires
                        i == r * cols + c,
                        c + 1 < cols,
                        0 <= r < rows,
                        cols > 0,
                ;
            }
            if c >= 1 {
                lemma_coordinates(i - 1, r, c - 1, cols);
                lemma_coordinates(j - 1, r, c - 1, old_cols);
            }
        }
    }
}

/// Move the overlap of `source` into a uniformly blank `target`.
pub fn move_overlap(
    source: &mut Vec<Cell>,
    old_rows: usize,
    old_cols: usize,
    target: &mut Vec<Cell>,
    rows: usize,
    cols: usize,
    Ghost(base): Ghost<CellModel>,
)
    requires
        old_cols > 0,
        cols > 0,
        old(source)@.len() == old_rows * old_cols,
        old(target)@.len() == rows * cols,
        forall|i: int| 0 <= i < old(target)@.len() ==> #[trigger] models(old(target)@)[i] == base,
    ensures
        models(final(target)@) == overlap(models(old(source)@), old_rows as int, old_cols as int, base, rows as int, cols as int),
{
    let ghost orig = models(source@);
    let ghost len = target@.len();
    let source_len = source.len();
    let target_len = target.len();
    let row_count = if rows < old_rows { rows } else { old_rows };
    let col_count = if cols < old_cols { cols } else { old_cols };
    let mut r: usize = 0;
    while r < row_count
        invariant
            old_cols > 0,
            cols > 0,
            source_len == old_rows * old_cols,
            target_len == rows * cols,
            orig.len() == source_len,
            row_count <= rows && row_count <= old_rows,
            col_count <= cols && col_count <= old_cols,
            row_count == rows || row_count == old_rows,
            col_count == cols || col_count == old_cols,
            r <= row_count,
            source@.len() == old_rows * old_cols,
            target@.len() == len,
            len == rows * cols,
            forall|j: int| r * old_cols <= j < source@.len() ==> #[trigger] models(source@)[j] == orig[j],
            forall|i: int| 0 <= i < len ==> #[trigger] models(target@)[i] == (if i / (cols as int) < r {
                overlap_cell(orig, old_rows as int, old_cols as int, base, cols as int, i / (cols as int), i % (cols as int))
            } else {
                base
            }),
        decreases row_count - r,
    {
        let mut c: usize = 0;
        proof {
            assert(r * old_cols + old_cols <= old_rows * old_cols) by (nonlinear_arith)
                requires r < old_rows, old_cols > 0;
            assert(r * cols + cols <= rows * cols) by (nonlinear_arith)
                requires r < rows, cols > 0;
        }
        while c < col_count
            invariant
                old_cols > 0,
                cols > 0,
                source_len == old_rows * old_cols,
                target_len == rows * cols,
                orig.len() == source_len,
                row_count <= rows && row_count <= old_rows,
                col_count <= cols && col_count <= old_cols,
                row_count == rows || row_count == old_rows,
                col_count == cols || col_count == old_cols,
                r < row_count,
                c <= col_count,
                r * old_cols + old_cols <= old_rows * old_cols,
                r * cols + cols <= rows * cols,
                source@.len() == old_rows * old_cols,
                target@.len() == len,
                len == rows * cols,
                forall|j: int| r * old_cols + c <= j < source@.len() ==> #[trigger] models(source@)[j] == orig[j],
                forall|i: int| 0 <= i < len ==> #[trigger] models(target@)[i] == (if i / (cols as int) < r
                    || (i / (cols as int) == r && i % (cols as int) < c) {
                    overlap_cell(orig, old_rows as int, old_cols as int, base, cols as int, i / (cols as int), i % (cols as int))
                } else {
                    base
                }),
            decreases col_count - c,
        {
            let j = r * old_cols + c;
            let i = r * cols + c;
            let ghost before = models(target@);
            let ghost before_source = models(source@);
            proof {
                lemma_coordinates(i as int, r as int, c as int, cols as int);
                lemma_coordinates(j as int, r as int, c as int, old_cols as int);
            }
            // A clipped wide leader is replaced by the destination's blank;
            // its continuation lies outside the retained overlap.
            let ghost expected = overlap_cell(orig, old_rows as int, old_cols as int, base, cols as int, r as int, c as int);
            assert(before_source[j as int] == orig[j as int]);
            assert(before[i as int] == base);
            if !(source[j].width == 2 && c + 1 == cols) {
                let mut moved = Cell::blank(crate::style::Style::default());
                std::mem::swap(&mut moved, &mut source[j]);
                assert(moved@ == orig[j as int]);
                target[i] = moved;
                assert(models(target@) =~= before.update(i as int, orig[j as int]));
                assert(expected == orig[j as int]);
            } else {
                assert(expected == base);
            }
            assert(models(target@)[i as int] == expected);
            proof {
                assert forall|k: int| 0 <= k < len implies #[trigger] models(target@)[k] == (if k / (cols as int) < r
                    || (k / (cols as int) == r && k % (cols as int) < c + 1) {
                    overlap_cell(orig, old_rows as int, old_cols as int, base, cols as int, k / (cols as int), k % (cols as int))
                } else {
                    base
                }) by {
                    lemma_decompose(k, cols as int);
                    if k != i {
                        assert(models(target@)[k] == before[k]);
                        if k / (cols as int) == r && k % (cols as int) == c {
                            assert(k == i);
                        }
                    }
                }
                assert forall|jj: int| r * old_cols + c + 1 <= jj < source@.len() implies #[trigger] models(source@)[jj] == orig[jj] by {
                    assert(models(source@)[jj] == before_source[jj]);
                }
            }
            c += 1;
        }
        proof {
            assert forall|k: int| 0 <= k < len implies #[trigger] models(target@)[k] == (if k / (cols as int) < r + 1 {
                overlap_cell(orig, old_rows as int, old_cols as int, base, cols as int, k / (cols as int), k % (cols as int))
            } else {
                base
            }) by {
                lemma_decompose(k, cols as int);
                if k / (cols as int) < r {
                } else if k / (cols as int) == r {
                    if k % (cols as int) >= c {
                        // Columns past the overlap keep the destination blank.
                        assert(k % (cols as int) >= old_cols);
                    }
                }
            }
            assert((r + 1) * old_cols == r * old_cols + old_cols) by (nonlinear_arith);
        }
        r += 1;
    }
    proof {
        assert forall|k: int| 0 <= k < len implies #[trigger] models(target@)[k] == overlap(orig, old_rows as int, old_cols as int, base, rows as int, cols as int)[k] by {
            lemma_decompose(k, cols as int);
            let kr = k / (cols as int);
            let kc = k % (cols as int);
            assert(kr < rows) by (nonlinear_arith)
                requires
                    k == kr * cols + kc,
                    0 <= kc,
                    k < rows * cols,
                    cols > 0,
            ;
            if kr >= r {
                assert(kr >= old_rows);
            }
        }
    }
    assert(models(target@) =~= overlap(orig, old_rows as int, old_cols as int, base, rows as int, cols as int));
}

/// Replace `[lo, hi)` with blanks in `style`.
pub fn fill_cells(cells: &mut Vec<Cell>, lo: usize, hi: usize, style: Style)
    requires
        lo <= hi <= old(cells)@.len(),
    ensures
        models(final(cells)@) == fill(models(old(cells)@), lo as int, hi as int, blank_cell(style)),
{
    let ghost orig = models(cells@);
    let mut i = lo;
    while i < hi
        invariant
            lo <= i <= hi <= cells@.len(),
            models(cells@) == fill(orig, lo as int, i as int, blank_cell(style)),
        decreases hi - i,
    {
        let ghost before = cells@;
        let blank = Cell::blank(style);
        cells[i] = blank;
        assert(cells@[i as int]@ == blank_cell(style));
        assert(models(cells@) =~= models(before).update(i as int, blank_cell(style)));
        assert(models(cells@) =~= fill(orig, lo as int, i + 1, blank_cell(style)));
        i += 1;
    }
}

/// Blank `[lo, hi)` without leaving half of a wide glyph behind.
pub fn clear_cells_exec(cells: &mut Vec<Cell>, lo: usize, hi: usize, style: Style, Ghost(cols): Ghost<int>)
    requires
        cols > 0,
        pairs_ok(models(old(cells)@), cols),
        lo < hi <= old(cells)@.len(),
    ensures
        models(final(cells)@) == clear_cells(models(old(cells)@), lo as int, hi as int, blank_cell(style)),
        pairs_ok(models(final(cells)@), cols),
{
    let ghost s = models(cells@);
    proof {
        lemma_clear_pairs(s, cols, lo as int, hi as int, blank_cell(style));
    }
    assert(s[lo as int].width == cells@[lo as int].width);
    assert(s[hi - 1].width == cells@[hi - 1].width);
    let start = if cells[lo].width == 0 { lo - 1 } else { lo };
    let n = cells.len();
    assert(s.len() == cells@.len());
    assert(clear_end(s, hi as int) <= s.len());
    let end = if cells[hi - 1].width == 2 { hi + 1 } else { hi };
    fill_cells(cells, start, end, style);
}

/// Move a cell to `to`, leaving a blank at `from`.
fn move_cell(cells: &mut Vec<Cell>, from: usize, to: usize, style: Style)
    requires
        from < old(cells)@.len(),
        to < old(cells)@.len(),
        from != to,
    ensures
        models(final(cells)@) == models(old(cells)@).update(to as int, old(cells)@[from as int]@).update(
            from as int,
            blank_cell(style),
        ),
{
    let mut moved = Cell::blank(style);
    std::mem::swap(&mut moved, &mut cells[from]);
    cells[to] = moved;
    assert(models(cells@) =~= models(old(cells)@).update(to as int, old(cells)@[from as int]@).update(
        from as int,
        blank_cell(style),
    ));
}

/// Move `[lo, hi - k)` right by `k` and blank `[lo, lo + k)`.
pub fn shift_cells_right(cells: &mut Vec<Cell>, lo: usize, hi: usize, k: usize, style: Style)
    requires
        lo + k <= hi <= old(cells)@.len(),
    ensures
        models(final(cells)@) == shift_right(models(old(cells)@), lo as int, hi as int, k as int, blank_cell(style)),
{
    let ghost orig = models(cells@);
    if k == 0 {
        assert(models(cells@) =~= shift_right(orig, lo as int, hi as int, k as int, blank_cell(style)));
        return;
    }
    let mut i = hi;
    while i > lo + k
        invariant
            k > 0,
            lo + k <= i <= hi <= cells@.len(),
            cells@.len() == orig.len(),
            forall|j: int| i <= j < hi ==> #[trigger] models(cells@)[j] == orig[j - k],
            forall|j: int| lo <= j < i - k ==> #[trigger] models(cells@)[j] == orig[j],
            forall|j: int| 0 <= j < orig.len() && !(lo <= j < hi) ==> #[trigger] models(cells@)[j] == orig[j],
        decreases i,
    {
        i -= 1;
        let ghost before = models(cells@);
        move_cell(cells, i - k, i, style);
        assert(models(cells@) == before.update(i as int, before[i - k]).update(i - k, blank_cell(style)));
        assert(models(cells@).len() == before.len());
        assert(cells@.len() == orig.len());
    }
    let ghost moved = models(cells@);
    fill_cells(cells, lo, lo + k, style);
    assert(models(cells@) =~= shift_right(orig, lo as int, hi as int, k as int, blank_cell(style))) by {
        assert forall|j: int| 0 <= j < orig.len() implies models(cells@)[j] == shift_right(orig, lo as int, hi as int, k as int, blank_cell(style))[j] by {
            if lo + k <= j < hi {
                assert(moved[j] == orig[j - k]);
            } else if !(lo <= j < hi) {
                assert(moved[j] == orig[j]);
            }
        }
    }
}

/// Move `[lo + k, hi)` left by `k` and blank `[hi - k, hi)`.
pub fn shift_cells_left(cells: &mut Vec<Cell>, lo: usize, hi: usize, k: usize, style: Style)
    requires
        lo + k <= hi <= old(cells)@.len(),
    ensures
        models(final(cells)@) == shift_left(models(old(cells)@), lo as int, hi as int, k as int, blank_cell(style)),
{
    let ghost orig = models(cells@);
    let mut i = lo;
    while i < hi - k
        invariant
            lo <= i <= hi - k,
            lo + k <= hi <= cells@.len(),
            cells@.len() == orig.len(),
            forall|j: int| lo <= j < i ==> #[trigger] models(cells@)[j] == orig[j + k],
            forall|j: int| i + k <= j < hi ==> #[trigger] models(cells@)[j] == orig[j],
            forall|j: int| 0 <= j < orig.len() && !(lo <= j < hi) ==> #[trigger] models(cells@)[j] == orig[j],
        decreases hi - i,
    {
        if k > 0 {
            let ghost before = models(cells@);
            move_cell(cells, i + k, i, style);
            assert(models(cells@) == before.update(i as int, before[i + k]).update(i + k, blank_cell(style)));
            assert(models(cells@).len() == before.len());
            assert(cells@.len() == orig.len());
        }
        i += 1;
    }
    let ghost moved = models(cells@);
    fill_cells(cells, hi - k, hi, style);
    assert(models(cells@) =~= shift_left(orig, lo as int, hi as int, k as int, blank_cell(style))) by {
        assert forall|j: int| 0 <= j < orig.len() implies models(cells@)[j] == shift_left(orig, lo as int, hi as int, k as int, blank_cell(style))[j] by {
            if lo <= j < hi - k {
                assert(moved[j] == orig[j + k]);
            } else if !(lo <= j < hi) {
                assert(moved[j] == orig[j]);
            }
        }
    }
}

/// A copy of a cell, combining marks included.
pub(crate) fn copy_cell(c: &Cell) -> (r: Cell)
    ensures
        r@ == c@,
{
    let mut combining: Vec<char> = Vec::new();
    let mut i: usize = 0;
    while i < c.combining.len()
        invariant
            i <= c.combining@.len(),
            combining@ == c.combining@.take(i as int),
        decreases c.combining@.len() - i,
    {
        combining.push(c.combining[i]);
        assert(c.combining@.take(i + 1) =~= c.combining@.take(i as int).push(c.combining@[i as int]));
        i += 1;
    }
    assert(c.combining@.take(i as int) =~= c.combining@);
    Cell { character: c.character, width: c.width, combining, style: c.style }
}

/// A copy of a run of cells.
pub(crate) fn copy_cells(cells: &[Cell]) -> (r: Vec<Cell>)
    ensures
        models(r@) == models(cells@),
{
    let mut out: Vec<Cell> = Vec::new();
    let mut i: usize = 0;
    while i < cells.len()
        invariant
            i <= cells@.len(),
            models(out@) == models(cells@).take(i as int),
        decreases cells@.len() - i,
    {
        let ghost before = out@;
        out.push(copy_cell(&cells[i]));
        assert(models(out@) =~= models(before).push(cells@[i as int]@));
        assert(models(cells@).take(i + 1) =~= models(cells@).take(i as int).push(cells@[i as int]@));
        i += 1;
    }
    assert(models(cells@).take(i as int) =~= models(cells@));
    out
}

} // verus!
