//! A resizable text grid, independent of PTY I/O and escape-sequence parsing.

use unicode_width::UnicodeWidthChar;
use vstd::prelude::*;

use crate::grid::{
    clear_cells, clear_cells_exec, fill, fill_cells, lemma_clear_pairs, lemma_fill_all_pairs,
    lemma_pairs_at, lemma_shift_left_pairs, lemma_shift_right_pairs, lemma_shift_rows_pairs,
    copy_cells, models, move_overlap, overlap, lemma_overlap_pairs, pairs_ok, shift_cells_left, shift_cells_right, shift_left, shift_right,
};
use crate::style::{Cell, CellModel, Style, blank_cell, plain_style};

verus! {

/// Inclusive erase range relative to the cursor.
#[derive(Debug, Clone, Copy, PartialEq, Eq, Structural)]
pub enum EraseMode {
    ToEnd,
    ToStart,
    All,
}

/// A DECSC snapshot: coordinates, attributes, delayed wrap and origin mode.
#[derive(Debug, Clone, Copy, PartialEq, Eq, Structural)]
pub struct SavedCursor {
    pub row: usize,
    pub column: usize,
    pub style: Style,
    pub wrap_pending: bool,
    pub origin_mode: bool,
}

/// Inclusive zero-based top and bottom rows of a scrolling region.
#[derive(Debug, Clone, Copy, PartialEq, Eq, Structural)]
pub struct Margins {
    pub top: usize,
    pub bottom: usize,
}

/// The cursor's shape, as DECSCUSR selects it.
#[derive(Debug, Clone, Copy, PartialEq, Eq, Structural)]
pub enum CursorShape {
    BlinkingBlock,
    SteadyBlock,
    BlinkingUnderline,
    SteadyUnderline,
    BlinkingBar,
    SteadyBar,
}

/// The DECSCUSR parameter that selects a shape.
pub open spec fn shape_code(shape: CursorShape) -> u8 {
    match shape {
        CursorShape::BlinkingBlock => 1,
        CursorShape::SteadyBlock => 2,
        CursorShape::BlinkingUnderline => 3,
        CursorShape::SteadyUnderline => 4,
        CursorShape::BlinkingBar => 5,
        CursorShape::SteadyBar => 6,
    }
}

impl CursorShape {
    pub fn code(self) -> (r: u8)
        ensures
            r == shape_code(self),
    {
        match self {
            CursorShape::BlinkingBlock => 1,
            CursorShape::SteadyBlock => 2,
            CursorShape::BlinkingUnderline => 3,
            CursorShape::SteadyUnderline => 4,
            CursorShape::BlinkingBar => 5,
            CursorShape::SteadyBar => 6,
        }
    }
}

/// Which mouse events the child asked to have reported.
#[derive(Debug, Clone, Copy, PartialEq, Eq, Structural)]
pub enum MouseTracking {
    Off,
    /// Presses and releases (mode 1000).
    Normal,
    /// Also motion while a button is held (mode 1002).
    ButtonEvent,
    /// All motion (mode 1003).
    AnyEvent,
}

/// The private mode number that enables a kind of mouse tracking.
pub open spec fn tracking_code(tracking: MouseTracking) -> u16 {
    match tracking {
        MouseTracking::Off => 0,
        MouseTracking::Normal => 1000,
        MouseTracking::ButtonEvent => 1002,
        MouseTracking::AnyEvent => 1003,
    }
}

impl MouseTracking {
    pub fn code(self) -> (r: u16)
        ensures
            r == tracking_code(self),
    {
        match self {
            MouseTracking::Off => 0,
            MouseTracking::Normal => 1000,
            MouseTracking::ButtonEvent => 1002,
            MouseTracking::AnyEvent => 1003,
        }
    }
}

/// Input and cursor modes the child selects, which the outer terminal mirrors.
#[derive(Debug, Clone, Copy, PartialEq, Eq, Structural)]
pub struct TerminalModes {
    pub cursor_shape: CursorShape,
    pub bracketed_paste: bool,
    pub application_cursor_keys: bool,
    pub application_keypad: bool,
    pub focus_reporting: bool,
    pub mouse_tracking: MouseTracking,
    pub sgr_mouse: bool,
}

pub open spec fn default_modes() -> TerminalModes {
    TerminalModes {
        cursor_shape: CursorShape::BlinkingBlock,
        bracketed_paste: false,
        application_cursor_keys: false,
        application_keypad: false,
        focus_reporting: false,
        mouse_tracking: MouseTracking::Off,
        sgr_mouse: false,
    }
}

/// Failures reported by the screen model.
#[derive(Debug, Clone, Copy, PartialEq, Eq, Structural)]
pub enum ScreenError {
    /// A dimension was zero or the cell count does not fit in memory addresses.
    InvalidDimensions,
    /// The grid storage could not be reserved.
    AllocationFailed,
    /// The text API received a byte outside printable ASCII, LF, CR and BS.
    UnsupportedInput,
}

/// Screen state with zero-based coordinates and per-grid vertical scrolling margins.
///
/// The text API accepts printable ASCII, LF, CR and BS. Cursor movement and
/// erasure are separate operations used by the parser. Grapheme-cluster shaping
/// and scrollback belong to later steps.
#[derive(Debug, Clone, PartialEq, Eq)]
pub struct Screen {
    rows: usize,
    columns: usize,
    cells: Vec<Cell>,
    inactive_cells: Vec<Cell>,
    saved_main_cursor: Option<SavedCursor>,
    saved_cursor: Option<SavedCursor>,
    inactive_saved_cursor: Option<SavedCursor>,
    cursor_visible: bool,
    insert_mode: bool,
    scroll_region: Margins,
    inactive_scroll_region: Margins,
    style: Style,
    row: usize,
    column: usize,
    wrap_pending: bool,
    origin_mode: bool,
    synchronized_output: bool,
}

/// The mathematical state of a screen.
#[verifier::ext_equal]
pub struct ScreenModel {
    pub rows: usize,
    pub columns: usize,
    pub cells: Seq<CellModel>,
    pub inactive_cells: Seq<CellModel>,
    pub saved_main_cursor: Option<SavedCursor>,
    pub saved_cursor: Option<SavedCursor>,
    pub inactive_saved_cursor: Option<SavedCursor>,
    pub cursor_visible: bool,
    pub insert_mode: bool,
    pub scroll_region: Margins,
    pub inactive_scroll_region: Margins,
    pub style: Style,
    pub row: usize,
    pub column: usize,
    pub wrap_pending: bool,
    pub origin_mode: bool,
    pub synchronized_output: bool,
}

impl View for Screen {
    type V = ScreenModel;

    closed spec fn view(&self) -> ScreenModel {
        ScreenModel {
            rows: self.rows,
            columns: self.columns,
            cells: models(self.cells@),
            inactive_cells: models(self.inactive_cells@),
            saved_main_cursor: self.saved_main_cursor,
            saved_cursor: self.saved_cursor,
            inactive_saved_cursor: self.inactive_saved_cursor,
            cursor_visible: self.cursor_visible,
            insert_mode: self.insert_mode,
            scroll_region: self.scroll_region,
            inactive_scroll_region: self.inactive_scroll_region,
            style: self.style,
            row: self.row,
            column: self.column,
            wrap_pending: self.wrap_pending,
            origin_mode: self.origin_mode,
            synchronized_output: self.synchronized_output,
        }
    }
}

/// Erasure and newly exposed rows use the active background, without copying
/// text decorations or inverse into the blank cells.
pub open spec fn erase_style(style: Style) -> Style {
    Style { background: style.background, ..plain_style() }
}

pub open spec fn min_usize(a: usize, b: usize) -> usize {
    if a < b {
        a
    } else {
        b
    }
}

pub open spec fn max_usize(a: usize, b: usize) -> usize {
    if a > b {
        a
    } else {
        b
    }
}

pub open spec fn sat_add(a: usize, b: usize) -> usize {
    if a + b > usize::MAX {
        usize::MAX
    } else {
        (a + b) as usize
    }
}

pub open spec fn sat_sub(a: usize, b: usize) -> usize {
    if a < b {
        0
    } else {
        (a - b) as usize
    }
}

pub open spec fn sat_mul(a: usize, b: usize) -> usize {
    if a * b > usize::MAX {
        usize::MAX
    } else {
        (a * b) as usize
    }
}

pub open spec fn clamp_usize(x: usize, lo: usize, hi: usize) -> usize {
    if x < lo {
        lo
    } else if x > hi {
        hi
    } else {
        x
    }
}

impl ScreenModel {
    /// The structural invariant: positive dimensions, both grids of exactly
    /// rows * columns cells, the cursor and both scrolling regions in bounds,
    /// and every wide glyph stored as a leader/continuation pair within a row.
    pub open spec fn wf(self) -> bool {
        &&& self.rows >= 1
        &&& self.columns >= 1
        &&& self.rows * self.columns <= usize::MAX
        &&& self.cells.len() == self.rows * self.columns
        &&& self.inactive_cells.len() == self.rows * self.columns
        &&& self.row < self.rows
        &&& self.column < self.columns
        &&& self.scroll_region.top <= self.scroll_region.bottom < self.rows
        &&& self.inactive_scroll_region.top <= self.inactive_scroll_region.bottom < self.rows
        &&& pairs_ok(self.cells, self.columns as int)
        &&& pairs_ok(self.inactive_cells, self.columns as int)
    }

    /// The cell written by erasure in the current attributes.
    pub open spec fn blank(self) -> CellModel {
        blank_cell(erase_style(self.style))
    }

    /// The first cell of the cursor row.
    pub open spec fn row_start(self) -> int {
        self.row * self.columns
    }

    /// The cursor cell.
    pub open spec fn cursor_index(self) -> int {
        self.row * self.columns + self.column
    }

    /// The cells of row `r`.
    pub open spec fn row_cells(self, r: int) -> Seq<CellModel> {
        self.cells.subrange(r * self.columns, r * self.columns + self.columns)
    }

    /// The topmost row the cursor may address.
    pub open spec fn origin_top(self) -> usize {
        if self.origin_mode {
            self.scroll_region.top
        } else {
            0
        }
    }
}

/// A freshly created blank screen.
pub open spec fn new_model(rows: usize, columns: usize) -> ScreenModel {
    ScreenModel {
        rows,
        columns,
        cells: Seq::new((rows * columns) as nat, |i: int| blank_cell(plain_style())),
        inactive_cells: Seq::new((rows * columns) as nat, |i: int| blank_cell(plain_style())),
        saved_main_cursor: None,
        saved_cursor: None,
        inactive_saved_cursor: None,
        cursor_visible: true,
        insert_mode: false,
        scroll_region: Margins { top: 0, bottom: (rows - 1) as usize },
        inactive_scroll_region: Margins { top: 0, bottom: (rows - 1) as usize },
        style: plain_style(),
        row: 0,
        column: 0,
        wrap_pending: false,
        origin_mode: false,
        synchronized_output: false,
    }
}

/// Whether the dimensions describe a representable, non-empty grid.
pub open spec fn valid_dimensions(rows: usize, columns: usize) -> bool {
    rows >= 1 && columns >= 1 && rows * columns <= usize::MAX
}

/// Explicit positioning in physical coordinates: clamped to the active bounds,
/// cancelling delayed wrap and never scrolling.
pub open spec fn move_to_model(m: ScreenModel, row: usize, column: usize) -> ScreenModel {
    ScreenModel {
        row: if m.origin_mode {
            clamp_usize(row, m.scroll_region.top, m.scroll_region.bottom)
        } else {
            min_usize(row, (m.rows - 1) as usize)
        },
        column: min_usize(column, (m.columns - 1) as usize),
        wrap_pending: false,
        ..m
    }
}

/// Positioning relative to the protocol origin.
pub open spec fn position_model(m: ScreenModel, row: usize, column: usize) -> ScreenModel {
    move_to_model(m, sat_add(m.origin_top(), row), column)
}

/// The next eight-column tab stop on the cursor row.
pub open spec fn tab_model(m: ScreenModel) -> ScreenModel {
    move_to_model(m, m.row, sat_mul(sat_add(m.column / 8, 1), 8))
}

pub open spec fn move_up_model(m: ScreenModel, count: usize) -> ScreenModel {
    let top = if m.row >= m.scroll_region.top {
        m.scroll_region.top
    } else {
        0
    };
    move_to_model(m, max_usize(sat_sub(m.row, count), top), m.column)
}

pub open spec fn move_down_model(m: ScreenModel, count: usize) -> ScreenModel {
    let bottom = if m.row <= m.scroll_region.bottom {
        m.scroll_region.bottom
    } else {
        (m.rows - 1) as usize
    };
    move_to_model(m, min_usize(sat_add(m.row, count), bottom), m.column)
}

pub open spec fn move_left_model(m: ScreenModel, count: usize) -> ScreenModel {
    move_to_model(m, m.row, sat_sub(m.column, count))
}

pub open spec fn move_right_model(m: ScreenModel, count: usize) -> ScreenModel {
    move_to_model(m, m.row, sat_add(m.column, count))
}

/// The DECSC snapshot of the current cursor state.
pub open spec fn cursor_snapshot(m: ScreenModel) -> SavedCursor {
    SavedCursor {
        row: m.row,
        column: m.column,
        style: m.style,
        wrap_pending: m.wrap_pending,
        origin_mode: m.origin_mode,
    }
}

/// Restore coordinates, attributes and delayed wrap from a snapshot. A changed
/// margin may clamp the row; delayed wrap survives only on the same cell.
pub open spec fn apply_saved_model(m: ScreenModel, saved: SavedCursor) -> ScreenModel {
    let moved = move_to_model(ScreenModel { origin_mode: saved.origin_mode, ..m }, saved.row, saved.column);
    ScreenModel {
        style: saved.style,
        wrap_pending: saved.wrap_pending && moved.row == saved.row && moved.column == saved.column,
        ..moved
    }
}

pub open spec fn restore_cursor_model(m: ScreenModel) -> ScreenModel {
    match m.saved_cursor {
        Some(saved) => apply_saved_model(m, saved),
        None => m,
    }
}

pub open spec fn set_origin_mode_model(m: ScreenModel, enabled: bool) -> ScreenModel {
    position_model(ScreenModel { origin_mode: enabled, ..m }, 0, 0)
}

pub open spec fn set_scroll_region_model(m: ScreenModel, top: usize, bottom: usize) -> ScreenModel {
    if bottom >= m.rows || top > bottom || (top == bottom && m.rows != 1) {
        m
    } else {
        position_model(ScreenModel { scroll_region: Margins { top, bottom }, ..m }, 0, 0)
    }
}


/// Blank `[lo, hi)` of the active grid in the erase attributes, widened over split glyphs.
pub open spec fn clear_model(m: ScreenModel, lo: int, hi: int) -> ScreenModel {
    ScreenModel { cells: clear_cells(m.cells, lo, hi, m.blank()), ..m }
}

/// The number of columns an insert, delete or erase of `count` affects.
pub open spec fn columns_affected(m: ScreenModel, count: usize) -> usize {
    min_usize(count, (m.columns - m.column) as usize)
}

/// ICH: open blank columns at the cursor, discarding what passes the right edge.
pub open spec fn insert_characters_model(m: ScreenModel, count: usize) -> ScreenModel {
    let n = columns_affected(m, count);
    if n == 0 {
        m
    } else {
        let start = m.cursor_index();
        let end = m.row_start() + m.columns;
        let c1 = if m.cells[start].width == 0 {
            clear_cells(m.cells, start, start + 1, m.blank())
        } else {
            m.cells
        };
        let retained = end - n;
        let c2 = if retained > start && c1[retained - 1].width == 2 {
            clear_cells(c1, retained - 1, retained, m.blank())
        } else {
            c1
        };
        ScreenModel { cells: shift_right(c2, start, end, n as int, m.blank()), wrap_pending: false, ..m }
    }
}

/// DCH: delete columns at the cursor and shift the rest of the row left.
pub open spec fn delete_characters_model(m: ScreenModel, count: usize) -> ScreenModel {
    let n = columns_affected(m, count);
    if n == 0 {
        m
    } else {
        let start = m.cursor_index();
        let end = m.row_start() + m.columns;
        let c1 = clear_cells(m.cells, start, start + n, m.blank());
        ScreenModel { cells: shift_left(c1, start, end, n as int, m.blank()), wrap_pending: false, ..m }
    }
}

/// ECH: blank columns at the cursor without shifting.
pub open spec fn erase_characters_model(m: ScreenModel, count: usize) -> ScreenModel {
    let n = columns_affected(m, count);
    if n == 0 {
        m
    } else {
        ScreenModel { wrap_pending: false, ..clear_model(m, m.cursor_index(), m.cursor_index() + n) }
    }
}

/// EL: blank part or all of the cursor row, including the cursor cell.
pub open spec fn erase_line_model(m: ScreenModel, mode: EraseMode) -> ScreenModel {
    let start = m.row_start();
    let cursor = m.cursor_index();
    let end = start + m.columns;
    let cleared = match mode {
        EraseMode::ToEnd => clear_model(m, cursor, end),
        EraseMode::ToStart => clear_model(m, start, cursor + 1),
        EraseMode::All => clear_model(m, start, end),
    };
    ScreenModel { wrap_pending: false, ..cleared }
}

/// ED: blank part or all of the grid, including the cursor cell, without homing.
pub open spec fn erase_display_model(m: ScreenModel, mode: EraseMode) -> ScreenModel {
    let cursor = m.cursor_index();
    let cleared = match mode {
        EraseMode::ToEnd => clear_model(m, cursor, m.cells.len() as int),
        EraseMode::ToStart => clear_model(m, 0, cursor + 1),
        EraseMode::All => clear_model(m, 0, m.cells.len() as int),
    };
    ScreenModel { wrap_pending: false, ..cleared }
}

/// Move whole rows of `[top, bottom]` by `count` rows (clamped to the block),
/// filling exposed rows with blanks.
pub open spec fn shifted_rows(m: ScreenModel, top: usize, bottom: usize, count: usize, down: bool) -> Seq<
    CellModel,
> {
    let amount = min_usize(count, (bottom - top + 1) as usize) * m.columns;
    let start = top * m.columns;
    let end = (bottom + 1) * m.columns;
    if down {
        shift_right(m.cells, start, end, amount, m.blank())
    } else {
        shift_left(m.cells, start, end, amount, m.blank())
    }
}

/// SU: scroll the region up, keeping the cursor coordinates.
pub open spec fn scroll_up_model(m: ScreenModel, count: usize) -> ScreenModel {
    if count != 0 {
        ScreenModel {
            cells: shifted_rows(m, m.scroll_region.top, m.scroll_region.bottom, count, false),
            wrap_pending: false,
            ..m
        }
    } else {
        m
    }
}

/// SD: scroll the region down, keeping the cursor coordinates.
pub open spec fn scroll_down_model(m: ScreenModel, count: usize) -> ScreenModel {
    if count != 0 {
        ScreenModel {
            cells: shifted_rows(m, m.scroll_region.top, m.scroll_region.bottom, count, true),
            wrap_pending: false,
            ..m
        }
    } else {
        m
    }
}

/// LF/IND: keep the column and scroll only at the bottom margin.
pub open spec fn line_feed_model(m: ScreenModel) -> ScreenModel {
    let m1 = ScreenModel { wrap_pending: false, ..m };
    if m1.row == m1.scroll_region.bottom {
        scroll_up_model(m1, 1)
    } else {
        ScreenModel { row: min_usize((m1.row + 1) as usize, (m1.rows - 1) as usize), ..m1 }
    }
}

/// RI: keep the column and scroll downward only at the top margin.
pub open spec fn reverse_index_model(m: ScreenModel) -> ScreenModel {
    let m1 = ScreenModel { wrap_pending: false, ..m };
    if m1.row == m1.scroll_region.top {
        scroll_down_model(m1, 1)
    } else {
        ScreenModel { row: sat_sub(m1.row, 1), ..m1 }
    }
}

/// IL: insert blank rows at the cursor through the bottom margin and return to column zero.
pub open spec fn insert_lines_model(m: ScreenModel, count: usize) -> ScreenModel {
    if count == 0 || m.row < m.scroll_region.top || m.row > m.scroll_region.bottom {
        m
    } else {
        move_to_model(
            ScreenModel { cells: shifted_rows(m, m.row, m.scroll_region.bottom, count, true), ..m },
            m.row,
            0,
        )
    }
}

/// DL: delete rows at the cursor, filling from the bottom margin.
pub open spec fn delete_lines_model(m: ScreenModel, count: usize) -> ScreenModel {
    if count == 0 || m.row < m.scroll_region.top || m.row > m.scroll_region.bottom {
        m
    } else {
        move_to_model(
            ScreenModel { cells: shifted_rows(m, m.row, m.scroll_region.bottom, count, false), ..m },
            m.row,
            0,
        )
    }
}


/// The glyph actually stored for a scalar of width `w`: the model holds one- and
/// two-column glyphs; anything wider, or too wide for the screen, becomes U+FFFD.
pub open spec fn glyph(c: char, w: usize, columns: usize) -> (char, usize) {
    if w > 2 || w > columns {
        ('\u{fffd}', 1)
    } else {
        (c, w)
    }
}

/// Attach a zero-width scalar to the glyph before the cursor (or under a pending
/// wrap), keeping at most 16 suffix scalars per glyph.
pub open spec fn combine_model(m: ScreenModel, c: char) -> ScreenModel {
    if !m.wrap_pending && m.column == 0 {
        m
    } else {
        let column = if m.wrap_pending {
            m.column
        } else {
            (m.column - 1) as usize
        };
        let index = m.row_start() + column;
        let target = if m.cells[index].width == 0 {
            index - 1
        } else {
            index
        };
        let cell = m.cells[target];
        if cell.combining.len() < 16 {
            ScreenModel {
                cells: m.cells.update(target, CellModel { combining: cell.combining.push(c), ..cell }),
                ..m
            }
        } else {
            m
        }
    }
}

/// Before a glyph of width `w`: a pending wrap, or a glyph that does not fit,
/// moves to the start of the next line (clearing the unused tail of this row).
pub open spec fn wrap_for_glyph(m: ScreenModel, w: usize) -> ScreenModel {
    if m.wrap_pending || m.column + w > m.columns {
        let cleared = if !m.wrap_pending {
            clear_model(m, m.cursor_index(), m.row_start() + m.columns)
        } else {
            m
        };
        ScreenModel { wrap_pending: false, ..line_feed_model(ScreenModel { column: 0, ..cleared }) }
    } else {
        m
    }
}

/// The leader cell of a glyph.
pub open spec fn glyph_cell(c: char, w: usize, style: Style) -> CellModel {
    CellModel { character: c, width: w as u8, combining: Seq::empty(), style }
}

/// The continuation cell of a wide glyph.
pub open spec fn continuation_cell(style: Style) -> CellModel {
    CellModel { character: ' ', width: 0, combining: Seq::empty(), style }
}

/// Store a glyph at the cursor and advance; reaching the right edge leaves the
/// cursor on the last column with wrapping pending.
pub open spec fn put_glyph_model(m: ScreenModel, c: char, w: usize) -> ScreenModel {
    let idx = m.cursor_index();
    let cleared = clear_cells(m.cells, idx, idx + w, m.blank());
    let leader = cleared.update(idx, glyph_cell(c, w, m.style));
    let cells = if w == 2 {
        leader.update(idx + 1, continuation_cell(m.style))
    } else {
        leader
    };
    if m.column + w == m.columns {
        ScreenModel { cells, column: (m.columns - 1) as usize, wrap_pending: true, ..m }
    } else {
        ScreenModel { cells, column: (m.column + w) as usize, ..m }
    }
}

/// Write one decoded scalar using non-CJK Unicode character widths.
/// Controls are ignored; zero-width scalars join the preceding glyph.
pub open spec fn print_model(m: ScreenModel, c: char) -> ScreenModel {
    if is_control_char(c) {
        m
    } else {
        match unicode_char_width(c) {
            None => m,
            Some(w) => if w == 0 {
                combine_model(m, c)
            } else {
                let stored = glyph(c, w, m.columns);
                let wrapped = wrap_for_glyph(m, stored.1);
                let opened = if wrapped.insert_mode {
                    insert_characters_model(wrapped, stored.1)
                } else {
                    wrapped
                };
                put_glyph_model(opened, stored.0, stored.1)
            },
        }
    }
}

/// The bytes accepted by the ASCII text API: printable ASCII, LF, CR and BS.
pub open spec fn is_screen_ascii(b: u8) -> bool {
    (0x20 <= b <= 0x7e) || b == 10 || b == 13 || b == 8
}

/// One byte of the ASCII text API.
pub open spec fn ascii_step(m: ScreenModel, b: u8) -> ScreenModel {
    if b == 10 {
        line_feed_model(ScreenModel { wrap_pending: false, ..m })
    } else if b == 13 {
        ScreenModel { wrap_pending: false, column: 0, ..m }
    } else if b == 8 {
        ScreenModel { wrap_pending: false, column: sat_sub(m.column, 1), ..m }
    } else {
        print_model(m, b as char)
    }
}

/// The state after applying the bytes in order.
pub open spec fn write_ascii_model(m: ScreenModel, bytes: Seq<u8>) -> ScreenModel
    decreases bytes.len(),
{
    if bytes.len() == 0 {
        m
    } else {
        ascii_step(write_ascii_model(m, bytes.drop_last()), bytes.last())
    }
}

/// Feeding a byte stream in two chunks produces the same screen as feeding it whole.
pub proof fn lemma_write_ascii_chunks(m: ScreenModel, a: Seq<u8>, b: Seq<u8>)
    ensures
        write_ascii_model(write_ascii_model(m, a), b) == write_ascii_model(m, a + b),
    decreases b.len(),
{
    if b.len() == 0 {
        assert(a + b =~= a);
    } else {
        lemma_write_ascii_chunks(m, a, b.drop_last());
        assert((a + b).drop_last() =~= a + b.drop_last());
        assert((a + b).last() == b.last());
    }
}

/// Enter a cleared alternate grid, keeping coordinates and style; repeated entry is a no-op.
pub open spec fn enter_alternate_model(m: ScreenModel) -> ScreenModel {
    if m.saved_main_cursor.is_some() {
        m
    } else {
        ScreenModel {
            saved_main_cursor: Some(cursor_snapshot(m)),
            cells: fill(m.inactive_cells, 0, m.inactive_cells.len() as int, m.blank()),
            inactive_cells: m.cells,
            scroll_region: m.inactive_scroll_region,
            inactive_scroll_region: m.scroll_region,
            saved_cursor: m.inactive_saved_cursor,
            inactive_saved_cursor: m.saved_cursor,
            wrap_pending: false,
            ..m
        }
    }
}

/// Return to the main grid and its saved coordinates, style and delayed wrap; the
/// alternate grid is released to default blanks. A no-op on the main screen.
pub open spec fn leave_alternate_model(m: ScreenModel) -> ScreenModel {
    match m.saved_main_cursor {
        None => m,
        Some(saved) => apply_saved_model(
            ScreenModel {
                saved_main_cursor: None,
                cells: m.inactive_cells,
                inactive_cells: fill(m.cells, 0, m.cells.len() as int, blank_cell(plain_style())),
                scroll_region: m.inactive_scroll_region,
                inactive_scroll_region: Margins { top: 0, bottom: (m.rows - 1) as usize },
                saved_cursor: m.inactive_saved_cursor,
                inactive_saved_cursor: None,
                ..m
            },
            saved,
        ),
    }
}

/// Entering the alternate screen and leaving it again gives back the main
/// screen as it was: its cells, scrolling region, saved cursor, and the cursor
/// with its style, delayed wrap and origin mode. (In origin mode the cursor is
/// taken to lie inside the scrolling region, as every operation leaves it.)
pub proof fn alternate_screen_round_trip(m: ScreenModel)
    requires
        m.wf(),
        m.saved_main_cursor is None,
        m.origin_mode ==> m.scroll_region.top <= m.row <= m.scroll_region.bottom,
    ensures
        ({
            let r = leave_alternate_model(enter_alternate_model(m));
            &&& r.cells == m.cells
            &&& r.scroll_region == m.scroll_region
            &&& r.saved_cursor == m.saved_cursor
            &&& r.saved_main_cursor is None
            &&& r.row == m.row
            &&& r.column == m.column
            &&& r.style == m.style
            &&& r.wrap_pending == m.wrap_pending
            &&& r.origin_mode == m.origin_mode
        }),
{
}

/// Restoring the cursor right after saving it changes nothing. (In origin mode
/// the cursor is taken to lie inside the scrolling region.)
pub proof fn restore_after_save_changes_nothing(m: ScreenModel)
    requires
        m.wf(),
        m.origin_mode ==> m.scroll_region.top <= m.row <= m.scroll_region.bottom,
    ensures
        restore_cursor_model(ScreenModel { saved_cursor: Some(cursor_snapshot(m)), ..m })
            == (ScreenModel { saved_cursor: Some(cursor_snapshot(m)), ..m }),
{
    let saved = ScreenModel { saved_cursor: Some(cursor_snapshot(m)), ..m };
    assert(restore_cursor_model(saved) =~= saved);
}

/// Writing a glyph into a cleared block keeps the wide-glyph pairing.
proof fn lemma_put_glyph_pairs(m: ScreenModel, c: char, w: usize)
    requires
        m.wf(),
        1 <= w <= 2,
        m.column + w <= m.columns,
    ensures
        put_glyph_model(m, c, w).wf(),
{
    lemma_cursor_bounds(m);
    let cols = m.columns as int;
    let idx = m.cursor_index();
    let s = m.cells;
    lemma_clear_pairs(s, cols, idx, idx + w, m.blank());
    let cleared = clear_cells(s, idx, idx + w, m.blank());
    lemma_pairs_at(s, cols, idx);
    lemma_pairs_at(s, cols, idx + w - 1);
    if idx >= 1 {
        lemma_pairs_at(s, cols, idx - 1);
    }
    if idx + w < s.len() {
        lemma_pairs_at(s, cols, idx + w);
    }
    let t = put_glyph_model(m, c, w).cells;
    crate::grid::lemma_column_of(idx, m.row_start(), m.row as int, cols);
    if idx + 1 < m.row_start() + cols {
        crate::grid::lemma_column_of(idx + 1, m.row_start(), m.row as int, cols);
    }
    reveal(pairs_ok);
    assert forall|i: int| 0 <= i < t.len() implies #[trigger] crate::grid::leader_ok(t, cols, i)
        && crate::grid::continuation_ok(t, cols, i) by {
        lemma_pairs_at(cleared, cols, i);
        if i >= 1 {
            lemma_pairs_at(cleared, cols, i - 1);
        }
        if i + 1 < t.len() {
            lemma_pairs_at(cleared, cols, i + 1);
        }
    }
    assert(pairs_ok(t, cols));
}


/// A saved cursor clamped into new dimensions, with delayed wrap cancelled.
pub open spec fn clamp_saved(saved: SavedCursor, rows: usize, columns: usize) -> SavedCursor {
    SavedCursor {
        row: min_usize(saved.row, (rows - 1) as usize),
        column: min_usize(saved.column, (columns - 1) as usize),
        wrap_pending: false,
        ..saved
    }
}

pub open spec fn clamp_saved_option(saved: Option<SavedCursor>, rows: usize, columns: usize) -> Option<
    SavedCursor,
> {
    match saved {
        Some(saved) => Some(clamp_saved(saved, rows, columns)),
        None => None,
    }
}

/// The blank that fills new cells of the inactive grid: the main grid's saved
/// background while the alternate screen is active, else a default blank.
pub open spec fn inactive_blank(m: ScreenModel) -> CellModel {
    match m.saved_main_cursor {
        Some(saved) => blank_cell(erase_style(saved.style)),
        None => blank_cell(plain_style()),
    }
}

/// Resize both grids, keeping the top-left overlap without reflow. New cells
/// use each grid's writing background; the regions become full height, the
/// cursor and saved cursors are clamped and every delayed wrap is cancelled.
pub open spec fn resize_model(m: ScreenModel, rows: usize, columns: usize) -> ScreenModel {
    ScreenModel {
        rows,
        columns,
        cells: overlap(m.cells, m.rows as int, m.columns as int, m.blank(), rows as int, columns as int),
        inactive_cells: overlap(
            m.inactive_cells,
            m.rows as int,
            m.columns as int,
            inactive_blank(m),
            rows as int,
            columns as int,
        ),
        saved_main_cursor: clamp_saved_option(m.saved_main_cursor, rows, columns),
        saved_cursor: clamp_saved_option(m.saved_cursor, rows, columns),
        inactive_saved_cursor: clamp_saved_option(m.inactive_saved_cursor, rows, columns),
        cursor_visible: m.cursor_visible,
        insert_mode: m.insert_mode,
        scroll_region: Margins { top: 0, bottom: (rows - 1) as usize },
        inactive_scroll_region: Margins { top: 0, bottom: (rows - 1) as usize },
        style: m.style,
        row: min_usize(m.row, (rows - 1) as usize),
        column: min_usize(m.column, (columns - 1) as usize),
        wrap_pending: false,
        origin_mode: m.origin_mode,
        synchronized_output: m.synchronized_output,
    }
}

/// Index arithmetic of a well-formed screen.
pub proof fn lemma_cursor_bounds(m: ScreenModel)
    requires
        m.wf(),
    ensures
        0 <= m.row_start(),
        m.row_start() + m.columns <= m.cells.len(),
        m.cursor_index() < m.row_start() + m.columns,
        m.row_start() <= m.cursor_index(),
{
    assert(m.row * m.columns + m.columns <= m.rows * m.columns) by (nonlinear_arith)
        requires
            m.row < m.rows,
            m.columns >= 1,
    ;
    assert(0 <= m.row * m.columns) by (nonlinear_arith);
}

/// Row blocks of a well-formed screen fit in its grid.
pub proof fn lemma_rows_bounds(m: ScreenModel, top: int, bottom: int)
    requires
        m.wf(),
        0 <= top <= bottom < m.rows,
    ensures
        0 <= top * m.columns,
        top * m.columns + m.columns <= (bottom + 1) * m.columns,
        (bottom + 1) * m.columns <= m.cells.len(),
        (bottom + 1) * m.columns == bottom * m.columns + m.columns,
{
    assert((bottom + 1) * m.columns <= m.rows * m.columns) by (nonlinear_arith)
        requires
            bottom < m.rows,
            m.columns >= 1,
    ;
    assert(top * m.columns + m.columns <= (bottom + 1) * m.columns) by (nonlinear_arith)
        requires
            top <= bottom,
            m.columns >= 1,
    ;
    assert(0 <= top * m.columns) by (nonlinear_arith)
        requires
            0 <= top,
            m.columns >= 1,
    ;
    assert((bottom + 1) * m.columns == bottom * m.columns + m.columns) by (nonlinear_arith);
}

/// The character width reported by the `unicode_width` crate.
pub uninterp spec fn unicode_char_width(c: char) -> Option<usize>;

/// Display width from `unicode_width::UnicodeWidthChar::width` (non-CJK tables).
/// The crate's source returns `None` exactly for the C0 controls and for
/// U+007F..U+009F, and `Some(1)` for printable ASCII; other widths come from its
/// Unicode tables and are only named here.
#[verifier::external_body]
pub(crate) fn char_width(c: char) -> (width: Option<usize>)
    ensures
        width == unicode_char_width(c),
        ((c as u32) < 0x20 || (0x7f <= (c as u32) && (c as u32) < 0xa0)) <==> width is None,
        0x20 <= (c as u32) < 0x7f ==> width == Some(1usize),
{
    c.width()
}

/// `char::is_control`: the Unicode general category Cc, which is exactly
/// U+0000..=U+001F and U+007F..=U+009F.
pub open spec fn is_control_char(c: char) -> bool {
    (c as u32) <= 0x1f || (0x7f <= (c as u32) && (c as u32) <= 0x9f)
}

pub fn is_control(c: char) -> (r: bool)
    ensures
        r == is_control_char(c),
{
    let v = c as u32;
    v <= 0x1f || (0x7f <= v && v <= 0x9f)
}


/// A vector of `n` blank cells in the default style.
fn blank_cells(n: usize) -> (r: Result<Vec<Cell>, ScreenError>)
    ensures
        r matches Ok(v) ==> models(v@) == Seq::new(n as nat, |i: int| blank_cell(plain_style())),
        r matches Err(e) ==> e == ScreenError::AllocationFailed,
{
    let mut cells: Vec<Cell> = Vec::new();
    if cells.try_reserve(n).is_err() {
        return Err(ScreenError::AllocationFailed);
    }
    let mut i: usize = 0;
    while i < n
        invariant
            i <= n,
            models(cells@) == Seq::new(i as nat, |j: int| blank_cell(plain_style())),
        decreases n - i,
    {
        let ghost before = cells@;
        let cell = Cell::blank(Style::default());
        cells.push(cell);
        assert(models(cells@) =~= models(before).push(blank_cell(plain_style())));
        i += 1;
        assert(models(cells@) =~= Seq::new(i as nat, |j: int| blank_cell(plain_style())));
    }
    Ok(cells)
}

fn clamp_saved_cursor(saved: Option<SavedCursor>, rows: usize, columns: usize) -> (r: Option<SavedCursor>)
    requires
        rows >= 1,
        columns >= 1,
    ensures
        r == clamp_saved_option(saved, rows, columns),
{
    match saved {
        Some(saved) => Some(
            SavedCursor {
                row: if saved.row < rows - 1 {
                    saved.row
                } else {
                    rows - 1
                },
                column: if saved.column < columns - 1 {
                    saved.column
                } else {
                    columns - 1
                },
                wrap_pending: false,
                ..saved
            },
        ),
        None => None,
    }
}

impl Screen {
    /// The structural invariant of the model.
    pub open spec fn inv(&self) -> bool {
        self@.wf()
    }

    /// Create a blank screen with the cursor at the upper-left corner.
    pub fn new(rows: usize, columns: usize) -> (r: Result<Self, ScreenError>)
        ensures
            match r {
                Ok(screen) => valid_dimensions(rows, columns) && screen@ == new_model(rows, columns)
                    && screen.inv(),
                Err(e) => (e == ScreenError::InvalidDimensions && !valid_dimensions(rows, columns))
                    || (e == ScreenError::AllocationFailed && valid_dimensions(rows, columns)),
            },
    {
        let length = match rows.checked_mul(columns) {
            Some(length) => length,
            None => return Err(ScreenError::InvalidDimensions),
        };
        if length == 0 {
            assert(rows == 0 || columns == 0) by (nonlinear_arith)
                requires
                    length == rows * columns,
                    length == 0,
            ;
            return Err(ScreenError::InvalidDimensions);
        }
        assert(rows >= 1 && columns >= 1) by (nonlinear_arith)
            requires
                length == rows * columns,
                length != 0,
        ;
        // Reserve both grids at construction so mode switching cannot fail allocation.
        let cells = blank_cells(length)?;
        let inactive_cells = blank_cells(length)?;
        let screen = Screen {
            rows,
            columns,
            cells,
            inactive_cells,
            saved_main_cursor: None,
            saved_cursor: None,
            inactive_saved_cursor: None,
            cursor_visible: true,
            insert_mode: false,
            scroll_region: Margins { top: 0, bottom: rows - 1 },
            inactive_scroll_region: Margins { top: 0, bottom: rows - 1 },
            style: Style::default(),
            row: 0,
            column: 0,
            wrap_pending: false,
            origin_mode: false,
            synchronized_output: false,
        };
        proof {
            lemma_fill_all_pairs(screen@.cells, columns as int, blank_cell(plain_style()));
            assert(fill(screen@.cells, 0, screen@.cells.len() as int, blank_cell(plain_style())) =~= screen@.cells);
            assert(fill(screen@.inactive_cells, 0, screen@.cells.len() as int, blank_cell(plain_style())) =~= screen@.inactive_cells);
            lemma_fill_all_pairs(screen@.inactive_cells, columns as int, blank_cell(plain_style()));
        }
        assert(screen@ =~= new_model(rows, columns));
        Ok(screen)
    }

    /// An independent copy of the screen.
    pub fn duplicate(&self) -> (r: Screen)
        requires
            self.inv(),
        ensures
            r@ == self@,
            r.inv(),
    {
        let r = Screen {
            rows: self.rows,
            columns: self.columns,
            cells: copy_cells(self.cells.as_slice()),
            inactive_cells: copy_cells(self.inactive_cells.as_slice()),
            saved_main_cursor: self.saved_main_cursor,
            saved_cursor: self.saved_cursor,
            inactive_saved_cursor: self.inactive_saved_cursor,
            cursor_visible: self.cursor_visible,
            insert_mode: self.insert_mode,
            scroll_region: self.scroll_region,
            inactive_scroll_region: self.inactive_scroll_region,
            style: self.style,
            row: self.row,
            column: self.column,
            wrap_pending: self.wrap_pending,
            origin_mode: self.origin_mode,
            synchronized_output: self.synchronized_output,
        };
        assert(r@ =~= self@);
        r
    }

    pub fn is_alternate(&self) -> (r: bool)
        ensures
            r == self@.saved_main_cursor.is_some(),
    {
        self.saved_main_cursor.is_some()
    }

    pub fn cursor_visible(&self) -> (r: bool)
        ensures
            r == self@.cursor_visible,
    {
        self.cursor_visible
    }

    /// Visibility is a global terminal mode, independent of saved cursor state.
    pub fn set_cursor_visible(&mut self, visible: bool)
        requires
            old(self).inv(),
        ensures
            final(self)@ == (ScreenModel { cursor_visible: visible, ..old(self)@ }),
            final(self).inv(),
    {
        self.cursor_visible = visible;
        assert(self@ =~= (ScreenModel { cursor_visible: visible, ..old(self)@ }));
    }

    pub fn insert_mode(&self) -> (r: bool)
        ensures
            r == self@.insert_mode,
    {
        self.insert_mode
    }

    /// IRM is global, independent of cursor saves and screen switching.
    /// Changing it does not move the cursor or cancel pending wrap.
    pub fn set_insert_mode(&mut self, enabled: bool)
        requires
            old(self).inv(),
        ensures
            final(self)@ == (ScreenModel { insert_mode: enabled, ..old(self)@ }),
            final(self).inv(),
    {
        self.insert_mode = enabled;
        assert(self@ =~= (ScreenModel { insert_mode: enabled, ..old(self)@ }));
    }

    /// Whether the child is inside a synchronized-output (mode 2026) batch.
    pub fn synchronized_output(&self) -> (r: bool)
        ensures
            r == self@.synchronized_output,
    {
        self.synchronized_output
    }

    pub fn set_synchronized_output(&mut self, enabled: bool)
        requires
            old(self).inv(),
        ensures
            final(self)@ == (ScreenModel { synchronized_output: enabled, ..old(self)@ }),
            final(self).inv(),
    {
        self.synchronized_output = enabled;
        assert(self@ =~= (ScreenModel { synchronized_output: enabled, ..old(self)@ }));
    }

    /// Replace this grid's single DECSC slot; this is not a stack.
    pub fn save_cursor(&mut self)
        requires
            old(self).inv(),
        ensures
            final(self)@ == (ScreenModel { saved_cursor: Some(cursor_snapshot(old(self)@)), ..old(self)@ }),
            final(self).inv(),
    {
        self.saved_cursor = Some(
            SavedCursor {
                row: self.row,
                column: self.column,
                style: self.style,
                wrap_pending: self.wrap_pending,
                origin_mode: self.origin_mode,
            },
        );
        assert(self@ =~= (ScreenModel { saved_cursor: Some(cursor_snapshot(old(self)@)), ..old(self)@ }));
    }

    /// Restore this grid's saved coordinates, attributes and pending wrap.
    /// Without a prior save, leave the current state unchanged.
    pub fn restore_cursor(&mut self)
        requires
            old(self).inv(),
        ensures
            final(self)@ == restore_cursor_model(old(self)@),
            final(self).inv(),
    {
        if let Some(saved) = self.saved_cursor {
            self.apply_saved_cursor(saved);
        }
    }

    fn apply_saved_cursor(&mut self, saved: SavedCursor)
        requires
            old(self).inv(),
        ensures
            final(self)@ == apply_saved_model(old(self)@, saved),
            final(self).inv(),
    {
        self.origin_mode = saved.origin_mode;
        self.move_to(saved.row, saved.column);
        self.style = saved.style;
        // A changed margin can clamp the saved row. Do not restore delayed
        // wrapping to a different physical cell.
        self.wrap_pending = saved.wrap_pending && self.row == saved.row && self.column == saved.column;
        assert(self@ =~= apply_saved_model(old(self)@, saved));
    }

    pub fn origin_mode(&self) -> (r: bool)
        ensures
            r == self@.origin_mode,
    {
        self.origin_mode
    }

    /// DECOM changes the coordinate origin and homes, even when set repeatedly.
    pub fn set_origin_mode(&mut self, enabled: bool)
        requires
            old(self).inv(),
        ensures
            final(self)@ == set_origin_mode_model(old(self)@, enabled),
            final(self).inv(),
    {
        self.origin_mode = enabled;
        self.position(0, 0);
    }

    /// Address zero-based coordinates relative to the active protocol origin.
    pub fn position(&mut self, row: usize, column: usize)
        requires
            old(self).inv(),
        ensures
            final(self)@ == position_model(old(self)@, row, column),
            final(self).inv(),
    {
        let top = if self.origin_mode {
            self.scroll_region.top
        } else {
            0
        };
        self.move_to(top.saturating_add(row), column);
    }

    /// Address a row relative to the origin while retaining the current column.
    pub fn position_row(&mut self, row: usize)
        requires
            old(self).inv(),
        ensures
            final(self)@ == position_model(old(self)@, row, old(self)@.column),
            final(self).inv(),
    {
        let column = self.column;
        self.position(row, column);
    }

    pub fn dimensions(&self) -> (r: (usize, usize))
        ensures
            r == (self@.rows, self@.columns),
    {
        (self.rows, self.columns)
    }

    /// Return (row, column). A pending wrap keeps the cursor in the last column.
    pub fn cursor(&self) -> (r: (usize, usize))
        ensures
            r == (self@.row, self@.column),
    {
        (self.row, self.column)
    }

    pub fn wrap_pending(&self) -> (r: bool)
        ensures
            r == self@.wrap_pending,
    {
        self.wrap_pending
    }

    /// Attributes used for subsequent writes; existing cells are unaffected.
    pub fn style(&self) -> (r: Style)
        ensures
            r == self@.style,
    {
        self.style
    }

    /// Changing attributes leaves the cursor and pending wrap unchanged.
    pub fn set_style(&mut self, style: Style)
        requires
            old(self).inv(),
        ensures
            final(self)@ == (ScreenModel { style, ..old(self)@ }),
            final(self).inv(),
    {
        self.style = style;
        assert(self@ =~= (ScreenModel { style, ..old(self)@ }));
    }


    fn blank_style(&self) -> (r: Style)
        ensures
            r == erase_style(self@.style),
    {
        Style { background: self.style.background, ..Style::default() }
    }

    // Any write or erase touching half a wide glyph clears both halves.
    fn clear_range(&mut self, lo: usize, hi: usize)
        requires
            old(self).inv(),
            lo < hi <= old(self)@.cells.len(),
        ensures
            final(self)@ == clear_model(old(self)@, lo as int, hi as int),
            final(self).inv(),
    {
        let style = self.blank_style();
        let ghost columns = self.columns as int;
        clear_cells_exec(&mut self.cells, lo, hi, style, Ghost(columns));
        assert(self@ =~= clear_model(old(self)@, lo as int, hi as int));
    }

    /// Insert blank columns at the cursor, discarding content past the right edge.
    /// Coordinates stay unchanged; zero count is a no-op.
    pub fn insert_characters(&mut self, count: usize)
        requires
            old(self).inv(),
        ensures
            final(self)@ == insert_characters_model(old(self)@, count),
            final(self).inv(),
    {
        let ghost m = self@;
        proof {
            lemma_cursor_bounds(m);
        }
        let count = if count < self.columns - self.column {
            count
        } else {
            self.columns - self.column
        };
        if count == 0 {
            return;
        }
        let start = self.row * self.columns + self.column;
        let end = self.row * self.columns + self.columns;
        // Inserting inside a wide glyph splits it: clear both halves first.
        if self.cells[start].width == 0 {
            self.clear_range(start, start + 1);
        }
        let ghost c1 = self@.cells;
        // The last retained column cannot be the first half of a wide glyph.
        let retained_end = end - count;
        if retained_end > start && self.cells[retained_end - 1].width == 2 {
            self.clear_range(retained_end - 1, retained_end);
        }
        let ghost c2 = self@.cells;
        proof {
            if m.cells[start as int].width == 0 {
                lemma_clear_pairs(m.cells, m.columns as int, start as int, start + 1, m.blank());
            }
            assert(c2[start as int].width != 0);
            assert(retained_end > start ==> c2[retained_end - 1].width != 2);
            lemma_shift_right_pairs(c2, m.columns as int, m.row as int, start as int, count as int, m.blank());
        }
        let style = self.blank_style();
        shift_cells_right(&mut self.cells, start, end, count, style);
        self.wrap_pending = false;
        assert(self@ =~= insert_characters_model(m, count));
    }


    /// Delete columns at the cursor and shift the remainder left within this row.
    /// Split wide glyphs are blanked, but the shift still uses the requested columns.
    pub fn delete_characters(&mut self, count: usize)
        requires
            old(self).inv(),
        ensures
            final(self)@ == delete_characters_model(old(self)@, count),
            final(self).inv(),
    {
        let ghost m = self@;
        proof {
            lemma_cursor_bounds(m);
        }
        let count = if count < self.columns - self.column {
            count
        } else {
            self.columns - self.column
        };
        if count == 0 {
            return;
        }
        let start = self.row * self.columns + self.column;
        let end = self.row * self.columns + self.columns;
        self.clear_range(start, start + count);
        let ghost c1 = self@.cells;
        proof {
            lemma_clear_pairs(m.cells, m.columns as int, start as int, start + count, m.blank());
            lemma_pairs_at(m.cells, m.columns as int, start as int);
            lemma_pairs_at(m.cells, m.columns as int, start + count - 1);
            if start + count < end {
                lemma_pairs_at(m.cells, m.columns as int, start + count);
            }
            assert(c1[start as int].width != 0);
            assert(start + count < end ==> c1[start + count].width != 0);
            lemma_shift_left_pairs(c1, m.columns as int, m.row as int, start as int, count as int, m.blank());
        }
        let style = self.blank_style();
        shift_cells_left(&mut self.cells, start, end, count, style);
        self.wrap_pending = false;
        assert(self@ =~= delete_characters_model(m, count));
    }

    /// Blank columns without shifting text; touching half a wide glyph erases both.
    pub fn erase_characters(&mut self, count: usize)
        requires
            old(self).inv(),
        ensures
            final(self)@ == erase_characters_model(old(self)@, count),
            final(self).inv(),
    {
        let ghost m = self@;
        proof {
            lemma_cursor_bounds(m);
        }
        let count = if count < self.columns - self.column {
            count
        } else {
            self.columns - self.column
        };
        if count == 0 {
            return;
        }
        let start = self.row * self.columns + self.column;
        self.clear_range(start, start + count);
        self.wrap_pending = false;
        assert(self@ =~= erase_characters_model(m, count));
    }

    /// Blank part or all of the current row, including the cursor cell.
    /// Cursor coordinates stay unchanged; delayed wrapping is cancelled.
    pub fn erase_line(&mut self, mode: EraseMode)
        requires
            old(self).inv(),
        ensures
            final(self)@ == erase_line_model(old(self)@, mode),
            final(self).inv(),
    {
        let ghost m = self@;
        proof {
            lemma_cursor_bounds(m);
        }
        let start = self.row * self.columns;
        let cursor = start + self.column;
        let end = start + self.columns;
        match mode {
            EraseMode::ToEnd => self.clear_range(cursor, end),
            EraseMode::ToStart => self.clear_range(start, cursor + 1),
            EraseMode::All => self.clear_range(start, end),
        }
        self.wrap_pending = false;
        assert(self@ =~= erase_line_model(m, mode));
    }

    /// Blank part or all of the grid, including the cursor cell, without homing.
    /// This model has no saved lines, so only the visible grid is affected.
    pub fn erase_display(&mut self, mode: EraseMode)
        requires
            old(self).inv(),
        ensures
            final(self)@ == erase_display_model(old(self)@, mode),
            final(self).inv(),
    {
        let ghost m = self@;
        proof {
            lemma_cursor_bounds(m);
        }
        let cursor = self.row * self.columns + self.column;
        let len = self.cells.len();
        match mode {
            EraseMode::ToEnd => self.clear_range(cursor, len),
            EraseMode::ToStart => self.clear_range(0, cursor + 1),
            EraseMode::All => self.clear_range(0, len),
        }
        self.wrap_pending = false;
        assert(self@ =~= erase_display_model(m, mode));
    }

    // Clamp before multiplication. Moving whole rows preserves wide-cell pairs
    // and moves combining suffix allocations without cloning or allocating.
    fn shift_rows(&mut self, top: usize, bottom: usize, count: usize, down: bool)
        requires
            old(self).inv(),
            top <= bottom < old(self)@.rows,
        ensures
            final(self)@ == (ScreenModel { cells: shifted_rows(old(self)@, top, bottom, count, down), ..old(self)@ }),
            final(self).inv(),
    {
        let ghost m = self@;
        proof {
            lemma_rows_bounds(m, top as int, bottom as int);
        }
        let rows = if count < bottom - top + 1 {
            count
        } else {
            bottom - top + 1
        };
        proof {
            assert(rows * m.columns <= (bottom - top + 1) * m.columns) by (nonlinear_arith)
                requires
                    rows <= bottom - top + 1,
                    m.columns >= 1,
            ;
            assert((bottom + 1) * m.columns - top * m.columns == (bottom - top + 1) * m.columns) by (nonlinear_arith);
            lemma_shift_rows_pairs(m.cells, m.columns as int, top as int, bottom as int, rows as int, down, m.blank());
        }
        let amount = rows * self.columns;
        let start = top * self.columns;
        let end = (bottom + 1) * self.columns;
        let style = self.blank_style();
        if down {
            shift_cells_right(&mut self.cells, start, end, amount, style);
        } else {
            shift_cells_left(&mut self.cells, start, end, amount, style);
        }
        assert(self@ =~= (ScreenModel { cells: shifted_rows(m, top, bottom, count, down), ..m }));
    }

    /// Scroll the entire region upward, retaining cursor coordinates.
    pub fn scroll_up(&mut self, count: usize)
        requires
            old(self).inv(),
        ensures
            final(self)@ == scroll_up_model(old(self)@, count),
            final(self).inv(),
    {
        if count != 0 {
            let top = self.scroll_region.top;
            let bottom = self.scroll_region.bottom;
            self.shift_rows(top, bottom, count, false);
            self.wrap_pending = false;
            assert(self@ =~= scroll_up_model(old(self)@, count));
        }
    }

    /// Scroll the entire region downward, retaining cursor coordinates.
    pub fn scroll_down(&mut self, count: usize)
        requires
            old(self).inv(),
        ensures
            final(self)@ == scroll_down_model(old(self)@, count),
            final(self).inv(),
    {
        if count != 0 {
            let top = self.scroll_region.top;
            let bottom = self.scroll_region.bottom;
            self.shift_rows(top, bottom, count, true);
            self.wrap_pending = false;
            assert(self@ =~= scroll_down_model(old(self)@, count));
        }
    }

    /// LF/IND: preserve the column and scroll only when at the bottom margin.
    /// Outside the region, move toward the physical bottom without scrolling.
    pub fn line_feed(&mut self)
        requires
            old(self).inv(),
        ensures
            final(self)@ == line_feed_model(old(self)@),
            final(self).inv(),
    {
        self.wrap_pending = false;
        assert(self@ =~= (ScreenModel { wrap_pending: false, ..old(self)@ }));
        if self.row == self.scroll_region.bottom {
            self.scroll_up(1);
        } else {
            self.row = if self.row + 1 < self.rows - 1 {
                self.row + 1
            } else {
                self.rows - 1
            };
            assert(self@ =~= line_feed_model(old(self)@));
        }
    }

    /// RI: preserve the column and scroll downward only at the top margin.
    pub fn reverse_index(&mut self)
        requires
            old(self).inv(),
        ensures
            final(self)@ == reverse_index_model(old(self)@),
            final(self).inv(),
    {
        self.wrap_pending = false;
        assert(self@ =~= (ScreenModel { wrap_pending: false, ..old(self)@ }));
        if self.row == self.scroll_region.top {
            self.scroll_down(1);
        } else {
            self.row = self.row.saturating_sub(1);
            assert(self@ =~= reverse_index_model(old(self)@));
        }
    }

    /// Insert blank rows at the cursor through the bottom margin.
    /// Outside the region (or for zero count), leave all state unchanged.
    pub fn insert_lines(&mut self, count: usize)
        requires
            old(self).inv(),
        ensures
            final(self)@ == insert_lines_model(old(self)@, count),
            final(self).inv(),
    {
        if count == 0 || self.row < self.scroll_region.top || self.row > self.scroll_region.bottom {
            return;
        }
        let row = self.row;
        let bottom = self.scroll_region.bottom;
        self.shift_rows(row, bottom, count, true);
        self.move_to(row, 0);
    }

    /// Delete rows at the cursor, filling from the bottom with blank rows.
    pub fn delete_lines(&mut self, count: usize)
        requires
            old(self).inv(),
        ensures
            final(self)@ == delete_lines_model(old(self)@, count),
            final(self).inv(),
    {
        if count == 0 || self.row < self.scroll_region.top || self.row > self.scroll_region.bottom {
            return;
        }
        let row = self.row;
        let bottom = self.scroll_region.bottom;
        self.shift_rows(row, bottom, count, false);
        self.move_to(row, 0);
    }


    /// Borrow a row, including its trailing blank cells.
    pub fn row(&self, row: usize) -> (r: Option<&[Cell]>)
        requires
            self.inv(),
        ensures
            match r {
                Some(cells) => row < self@.rows && models(cells@) == self@.row_cells(row as int),
                None => row >= self@.rows,
            },
    {
        if row >= self.rows {
            return None;
        }
        proof {
            lemma_rows_bounds(self@, row as int, row as int);
        }
        let start = row * self.columns;
        let cells = self.cells.as_slice();
        let slice = &cells[start..start + self.columns];
        assert(models(slice@) =~= self@.row_cells(row as int));
        Some(slice)
    }

    /// Apply printable ASCII and LF/CR/BS. Unsupported bytes reject the entire
    /// input before mutation; this is a model API, not a terminal byte parser.
    #[verifier::rlimit(40)]
    pub fn write_ascii(&mut self, bytes: &[u8]) -> (r: Result<(), ScreenError>)
        requires
            old(self).inv(),
        ensures
            final(self).inv(),
            match r {
                Ok(()) => (forall|i: int| 0 <= i < bytes@.len() ==> is_screen_ascii(#[trigger] bytes@[i]))
                    && final(self)@ == write_ascii_model(old(self)@, bytes@),
                Err(e) => e == ScreenError::UnsupportedInput && (exists|i: int|
                    0 <= i < bytes@.len() && !is_screen_ascii(#[trigger] bytes@[i]))
                    && final(self)@ == old(self)@,
            },
    {
        let mut k: usize = 0;
        while k < bytes.len()
            invariant
                k <= bytes@.len(),
                self@ == old(self)@,
                self.inv(),
                forall|i: int| 0 <= i < k ==> is_screen_ascii(#[trigger] bytes@[i]),
            decreases bytes@.len() - k,
        {
            let byte = bytes[k];
            if !((0x20 <= byte && byte <= 0x7e) || byte == 10 || byte == 13 || byte == 8) {
                assert(!is_screen_ascii(bytes@[k as int]));
                return Err(ScreenError::UnsupportedInput);
            }
            k += 1;
        }
        let ghost start = self@;
        let mut i: usize = 0;
        while i < bytes.len()
            invariant
                i <= bytes@.len(),
                self.inv(),
                self@ == write_ascii_model(start, bytes@.take(i as int)),
            decreases bytes@.len() - i,
        {
            let byte = bytes[i];
            let ghost before = self@;
            if byte == 10 {
                // LF moves vertically; CR is what returns to the left edge.
                self.wrap_pending = false;
                assert(self@ =~= (ScreenModel { wrap_pending: false, ..before }));
                self.line_feed();
            } else if byte == 13 {
                self.wrap_pending = false;
                self.column = 0;
                assert(self@ =~= ascii_step(before, byte));
            } else if byte == 8 {
                // BS moves left without erasing or crossing a row boundary.
                self.wrap_pending = false;
                self.column = self.column.saturating_sub(1);
                assert(self@ =~= ascii_step(before, byte));
            } else {
                self.print(byte as char);
            }
            assert(bytes@.take(i + 1).drop_last() =~= bytes@.take(i as int));
            i += 1;
        }
        assert(bytes@.take(bytes@.len() as int) =~= bytes@);
        Ok(())
    }

    /// Write one decoded scalar using non-CJK Unicode character widths.
    /// Controls are ignored. This does not implement grapheme-cluster shaping.
    pub fn print(&mut self, character: char)
        requires
            old(self).inv(),
        ensures
            final(self)@ == print_model(old(self)@, character),
            final(self).inv(),
    {
        if is_control(character) {
            return;
        }
        let width = match char_width(character) {
            Some(width) => width,
            None => return,
        };
        if width == 0 {
            self.combine(character);
        } else {
            // The model supports one- and two-column scalars. A one-column screen
            // cannot hold a wide glyph; use a visible replacement instead.
            let (glyph_char, width) = if width > 2 || width > self.columns {
                ('\u{fffd}', 1usize)
            } else {
                (character, width)
            };
            self.wrap_before_glyph(width);
            if self.insert_mode {
                self.insert_characters(width);
            }
            self.put_glyph(glyph_char, width);
        }
    }

    fn combine(&mut self, character: char)
        requires
            old(self).inv(),
        ensures
            final(self)@ == combine_model(old(self)@, character),
            final(self).inv(),
    {
        let ghost m = self@;
        proof {
            lemma_cursor_bounds(m);
        }
        let column = if self.wrap_pending {
            self.column
        } else if self.column > 0 {
            self.column - 1
        } else {
            return;
        };
        let mut index = self.row * self.columns + column;
        proof {
            lemma_pairs_at(m.cells, m.columns as int, index as int);
        }
        if self.cells[index].width == 0 {
            index -= 1;
        }
        if self.cells[index].combining.len() < 16 {
            self.cells[index].combining.push(character);
            proof {
                let t = self@.cells;
                assert(t =~= m.cells.update(index as int, CellModel { combining: m.cells[index as int].combining.push(character), ..m.cells[index as int] }));
                crate::grid::lemma_same_width_update(m.cells, m.columns as int, index as int,
                    CellModel { combining: m.cells[index as int].combining.push(character), ..m.cells[index as int] });
            }
        }
        assert(self@ =~= combine_model(m, character));
    }

    fn wrap_before_glyph(&mut self, width: usize)
        requires
            old(self).inv(),
            1 <= width <= old(self)@.columns,
        ensures
            final(self)@ == wrap_for_glyph(old(self)@, width),
            final(self).inv(),
            final(self)@.column + width <= final(self)@.columns,
    {
        let ghost m = self@;
        if self.wrap_pending || width > self.columns - self.column {
            if !self.wrap_pending {
                proof {
                    lemma_cursor_bounds(m);
                }
                let start = self.row * self.columns + self.column;
                let end = self.row * self.columns + self.columns;
                self.clear_range(start, end);
            }
            self.column = 0;
            self.line_feed();
            self.wrap_pending = false;
        }
        assert(self@ =~= wrap_for_glyph(m, width));
    }

    fn put_glyph(&mut self, glyph_char: char, width: usize)
        requires
            old(self).inv(),
            1 <= width <= 2,
            old(self)@.column + width <= old(self)@.columns,
        ensures
            final(self)@ == put_glyph_model(old(self)@, glyph_char, width),
            final(self).inv(),
    {
        let ghost m2 = self@;
        proof {
            lemma_cursor_bounds(m2);
            lemma_put_glyph_pairs(m2, glyph_char, width);
        }
        let index = self.row * self.columns + self.column;
        self.clear_range(index, index + width);
        let style = self.style;
        self.cells[index] = Cell { character: glyph_char, width: width as u8, combining: Vec::new(), style };
        if width == 2 {
            self.cells[index + 1] = Cell { character: ' ', width: 0, combining: Vec::new(), style };
        }
        if self.column + width == self.columns {
            self.column = self.columns - 1;
            self.wrap_pending = true;
        } else {
            self.column = self.column + width;
        }
        assert(self@.cells =~= put_glyph_model(m2, glyph_char, width).cells);
        assert(self@ =~= put_glyph_model(m2, glyph_char, width));
    }

    /// Enter a cleared alternate grid while retaining the current coordinates and style.
    /// Repeated entry is a no-op: this is a mode, not a stack of nested screens.
    pub fn enter_alternate(&mut self)
        requires
            old(self).inv(),
        ensures
            final(self)@ == enter_alternate_model(old(self)@),
            final(self).inv(),
    {
        if self.is_alternate() {
            return;
        }
        let ghost m = self@;
        self.saved_main_cursor = Some(
            SavedCursor {
                row: self.row,
                column: self.column,
                style: self.style,
                wrap_pending: self.wrap_pending,
                origin_mode: self.origin_mode,
            },
        );
        std::mem::swap(&mut self.cells, &mut self.inactive_cells);
        std::mem::swap(&mut self.scroll_region, &mut self.inactive_scroll_region);
        std::mem::swap(&mut self.saved_cursor, &mut self.inactive_saved_cursor);
        let style = self.blank_style();
        let len = self.cells.len();
        fill_cells(&mut self.cells, 0, len, style);
        self.wrap_pending = false;
        proof {
            lemma_fill_all_pairs(m.inactive_cells, m.columns as int, m.blank());
        }
        assert(self@ =~= enter_alternate_model(m));
    }

    /// Restore main cells, coordinates, writing style and delayed wrap.
    /// A reset while already on the main screen is a no-op.
    pub fn leave_alternate(&mut self)
        requires
            old(self).inv(),
        ensures
            final(self)@ == leave_alternate_model(old(self)@),
            final(self).inv(),
    {
        let ghost m = self@;
        let saved = match self.saved_main_cursor {
            Some(saved) => saved,
            None => return,
        };
        self.saved_main_cursor = None;
        std::mem::swap(&mut self.cells, &mut self.inactive_cells);
        std::mem::swap(&mut self.scroll_region, &mut self.inactive_scroll_region);
        std::mem::swap(&mut self.saved_cursor, &mut self.inactive_saved_cursor);
        // Release discarded combining suffixes; the next visit starts blank.
        let len = self.inactive_cells.len();
        fill_cells(&mut self.inactive_cells, 0, len, Style::default());
        self.inactive_saved_cursor = None;
        self.inactive_scroll_region = Margins { top: 0, bottom: self.rows - 1 };
        proof {
            lemma_fill_all_pairs(m.cells, m.columns as int, blank_cell(plain_style()));
        }
        assert(self@ =~= (ScreenModel {
            saved_main_cursor: None,
            cells: m.inactive_cells,
            inactive_cells: fill(m.cells, 0, m.cells.len() as int, blank_cell(plain_style())),
            scroll_region: m.inactive_scroll_region,
            inactive_scroll_region: Margins { top: 0, bottom: (m.rows - 1) as usize },
            saved_cursor: m.inactive_saved_cursor,
            inactive_saved_cursor: None,
            ..m
        }));
        self.apply_saved_cursor(saved);
    }


    /// Resize both grids, preserving the top-left overlap without text reflow.
    /// New cells use each grid's writing background; clipped content is discarded.
    /// Invalid dimensions or allocation failure leave the entire model unchanged.
    /// An unchanged size is a no-op; changed sizes cancel current and saved wrap
    /// and reset both grids to full-height scrolling regions.
    pub fn resize(&mut self, rows: usize, columns: usize) -> (r: Result<(), ScreenError>)
        requires
            old(self).inv(),
        ensures
            final(self).inv(),
            old(self)@.rows == rows && old(self)@.columns == columns ==> r is Ok && final(self)@ == old(self)@,
            match r {
                Ok(()) => if old(self)@.rows == rows && old(self)@.columns == columns {
                    final(self)@ == old(self)@
                } else {
                    valid_dimensions(rows, columns) && final(self)@ == resize_model(old(self)@, rows, columns)
                },
                Err(e) => final(self)@ == old(self)@ && ((e == ScreenError::InvalidDimensions
                    && !valid_dimensions(rows, columns)) || (e == ScreenError::AllocationFailed
                    && valid_dimensions(rows, columns))),
            },
    {
        if self.rows == rows && self.columns == columns {
            return Ok(());
        }
        let ghost m = self@;
        // Allocate both destinations before taking any content out of the old grids.
        // Cell suffixes are moved, not cloned, so copying the overlap cannot allocate.
        let mut resized = Screen::new(rows, columns)?;
        assert(resized.cells@.len() == rows * columns && resized.inactive_cells@.len() == rows * columns) by {
            assert(models(resized.cells@).len() == resized.cells@.len());
            assert(models(resized.inactive_cells@).len() == resized.inactive_cells@.len());
        }
        resized.cursor_visible = self.cursor_visible;
        resized.insert_mode = self.insert_mode;
        resized.origin_mode = self.origin_mode;
        resized.synchronized_output = self.synchronized_output;
        resized.saved_cursor = clamp_saved_cursor(self.saved_cursor, rows, columns);
        resized.inactive_saved_cursor = clamp_saved_cursor(self.inactive_saved_cursor, rows, columns);
        resized.style = self.style;
        let blank = self.blank_style();
        let len = resized.cells.len();
        fill_cells(&mut resized.cells, 0, len, blank);
        resized.row = if self.row < rows - 1 {
            self.row
        } else {
            rows - 1
        };
        resized.column = if self.column < columns - 1 {
            self.column
        } else {
            columns - 1
        };
        let mut inactive_style = Style::default();
        if let Some(saved) = self.saved_main_cursor {
            resized.saved_main_cursor = clamp_saved_cursor(Some(saved), rows, columns);
            inactive_style = Style { background: saved.style.background, ..Style::default() };
            fill_cells(&mut resized.inactive_cells, 0, len, inactive_style);
        }
        proof {
            assert(blank_cell(inactive_style) == inactive_blank(m));
            assert forall|i: int| 0 <= i < len implies #[trigger] models(resized.inactive_cells@)[i] == inactive_blank(m) by {}
            assert forall|i: int| 0 <= i < len implies #[trigger] models(resized.cells@)[i] == m.blank() by {}
        }
        let old_rows = self.rows;
        let old_columns = self.columns;
        assert(models(resized.cells@).len() == resized.cells@.len());
        assert(models(resized.inactive_cells@).len() == resized.inactive_cells@.len());
        assert(models(self.cells@).len() == self.cells@.len());
        assert(models(self.inactive_cells@).len() == self.inactive_cells@.len());
        move_overlap(&mut self.cells, old_rows, old_columns, &mut resized.cells, rows, columns, Ghost(m.blank()));
        move_overlap(
            &mut self.inactive_cells,
            old_rows,
            old_columns,
            &mut resized.inactive_cells,
            rows,
            columns,
            Ghost(inactive_blank(m)),
        );
        proof {
            lemma_overlap_pairs(m.cells, m.rows as int, m.columns as int, m.blank(), rows as int, columns as int);
            lemma_overlap_pairs(m.inactive_cells, m.rows as int, m.columns as int, inactive_blank(m), rows as int, columns as int);
        }
        *self = resized;
        assert(self@ =~= resize_model(m, rows, columns));
        Ok(())
    }

    /// Position in physical zero-based coordinates, clamped to the active bounds.
    /// Explicit movement cancels delayed wrapping and never scrolls.
    pub fn move_to(&mut self, row: usize, column: usize)
        requires
            old(self).inv(),
        ensures
            final(self)@ == move_to_model(old(self)@, row, column),
            final(self).inv(),
    {
        self.row = if self.origin_mode {
            if row < self.scroll_region.top {
                self.scroll_region.top
            } else if row > self.scroll_region.bottom {
                self.scroll_region.bottom
            } else {
                row
            }
        } else if row < self.rows - 1 {
            row
        } else {
            self.rows - 1
        };
        self.column = if column < self.columns - 1 {
            column
        } else {
            self.columns - 1
        };
        self.wrap_pending = false;
        assert(self@ =~= move_to_model(old(self)@, row, column));
    }

    /// Advance to the next conventional eight-column tab stop without erasing.
    pub fn tab(&mut self)
        requires
            old(self).inv(),
        ensures
            final(self)@ == tab_model(old(self)@),
            final(self).inv(),
    {
        let stops = (self.column / 8).saturating_add(1);
        let next = match stops.checked_mul(8) {
            Some(next) => next,
            None => usize::MAX,
        };
        let row = self.row;
        self.move_to(row, next);
    }

    pub fn move_up(&mut self, count: usize)
        requires
            old(self).inv(),
        ensures
            final(self)@ == move_up_model(old(self)@, count),
            final(self).inv(),
    {
        let top = if self.row >= self.scroll_region.top {
            self.scroll_region.top
        } else {
            0
        };
        let up = self.row.saturating_sub(count);
        let target = if up > top {
            up
        } else {
            top
        };
        let column = self.column;
        self.move_to(target, column);
    }

    pub fn move_down(&mut self, count: usize)
        requires
            old(self).inv(),
        ensures
            final(self)@ == move_down_model(old(self)@, count),
            final(self).inv(),
    {
        let bottom = if self.row <= self.scroll_region.bottom {
            self.scroll_region.bottom
        } else {
            self.rows - 1
        };
        let down = self.row.saturating_add(count);
        let target = if down < bottom {
            down
        } else {
            bottom
        };
        let column = self.column;
        self.move_to(target, column);
    }

    pub fn move_left(&mut self, count: usize)
        requires
            old(self).inv(),
        ensures
            final(self)@ == move_left_model(old(self)@, count),
            final(self).inv(),
    {
        let row = self.row;
        let column = self.column.saturating_sub(count);
        self.move_to(row, column);
    }

    pub fn move_right(&mut self, count: usize)
        requires
            old(self).inv(),
        ensures
            final(self)@ == move_right_model(old(self)@, count),
            final(self).inv(),
    {
        let row = self.row;
        let column = self.column.saturating_add(count);
        self.move_to(row, column);
    }

    /// Inclusive zero-based top and bottom rows for the active grid.
    pub fn scroll_region(&self) -> (r: (usize, usize))
        ensures
            r == (self@.scroll_region.top, self@.scroll_region.bottom),
    {
        (self.scroll_region.top, self.scroll_region.bottom)
    }

    /// Set valid vertical margins and home the cursor at the active origin.
    /// Reversed, single-row or out-of-bounds regions leave all state unchanged,
    /// except that a one-row screen accepts its full-height region.
    pub fn set_scroll_region(&mut self, top: usize, bottom: usize)
        requires
            old(self).inv(),
        ensures
            final(self)@ == set_scroll_region_model(old(self)@, top, bottom),
            final(self).inv(),
    {
        if bottom >= self.rows || top > bottom || (top == bottom && self.rows != 1) {
            return;
        }
        self.scroll_region = Margins { top, bottom };
        self.position(0, 0);
    }
}

} // verus!
