//! Full-frame and changed-row ANSI output for a screen. The frame is built as
//! bytes; writing it out, and repainting after lost output, is the caller's.
use vstd::prelude::*;
use vstd::utf8::{encode_scalar, encode_utf8};
use crate::graphics::push_range;
use crate::grid::{copy_cells, models};
use crate::parser::{decimal, push_decimal};
use crate::screen::{CursorShape, MouseTracking, Screen, ScreenModel, TerminalModes, shape_code, tracking_code};
use crate::style::{Cell, CellModel, Color, Style, plain_style};

verus! {

/// The UTF-8 bytes of one character.
pub fn push_scalar(out: &mut Vec<u8>, c: char)
    ensures
        final(out)@ == old(out)@ + encode_scalar(c as u32),
{
    let v = c as u32;
    if v <= 0x7f {
        out.push((v & 0x7F) as u8);
    } else if v <= 0x7ff {
        out.push(0xC0 | ((v >> 6) & 0x1F) as u8);
        out.push(0x80 | (v & 0x3F) as u8);
    } else if v <= 0xffff {
        out.push(0xE0 | ((v >> 12) & 0x0F) as u8);
        out.push(0x80 | ((v >> 6) & 0x3F) as u8);
        out.push(0x80 | (v & 0x3F) as u8);
    } else {
        out.push(0xF0 | ((v >> 18) & 0x7) as u8);
        out.push(0x80 | ((v >> 12) & 0x3F) as u8);
        out.push(0x80 | ((v >> 6) & 0x3F) as u8);
        out.push(0x80 | (v & 0x3F) as u8);
    }
    assert(final(out)@ =~= old(out)@ + encode_scalar(c as u32)) by {
        assert(v == c as u32);
    }
}

/// `ESC [`.
pub open spec fn csi() -> Seq<u8> {
    seq![0x1bu8, 0x5b]
}

/// `;selector;5;index` or `;selector;2;r;g;b`; nothing for the default color,
/// which the leading reset already selects.
pub open spec fn color_bytes(color: Color, selector: u8) -> Seq<u8> {
    match color {
        Color::Default => Seq::empty(),
        Color::Indexed(index) => seq![0x3bu8] + decimal(selector as nat) + seq![0x3bu8, 0x35, 0x3b] + decimal(
            index as nat,
        ),
        Color::Rgb(red, green, blue) => seq![0x3bu8] + decimal(selector as nat) + seq![0x3bu8, 0x32, 0x3b]
            + decimal(red as nat) + seq![0x3bu8] + decimal(green as nat) + seq![0x3bu8] + decimal(blue as nat),
    }
}

pub open spec fn flag_bytes(enabled: bool, code: u8) -> Seq<u8> {
    if enabled {
        seq![0x3bu8, code]
    } else {
        Seq::empty()
    }
}

/// The SGR codes of a style's attributes, in code order.
pub open spec fn attribute_bytes(style: Style) -> Seq<u8> {
    flag_bytes(style.bold, 0x31) + flag_bytes(style.dim, 0x32) + flag_bytes(style.italic, 0x33) + flag_bytes(
        style.underline,
        0x34,
    ) + flag_bytes(style.blink, 0x35) + flag_bytes(style.inverse, 0x37) + flag_bytes(style.hidden, 0x38)
        + flag_bytes(style.strikethrough, 0x39)
}

/// SGR for a style, starting from a reset so no attribute of the previous cell leaks.
pub open spec fn style_bytes(style: Style) -> Seq<u8> {
    seq![0x1bu8, 0x5b, 0x30] + attribute_bytes(style) + color_bytes(style.foreground, 38) + color_bytes(
        style.background,
        48,
    ) + seq![0x6du8]
}

fn push_color(out: &mut Vec<u8>, color: Color, selector: u8)
    ensures
        final(out)@ == old(out)@ + color_bytes(color, selector),
{
    let ghost before = out@;
    match color {
        Color::Default => {
            assert(out@ =~= before + color_bytes(color, selector));
        },
        Color::Indexed(index) => {
            out.push(0x3b);
            push_decimal(out, selector as usize);
            out.push(0x3b);
            out.push(0x35);
            out.push(0x3b);
            push_decimal(out, index as usize);
            assert(out@ =~= before + color_bytes(color, selector));
        },
        Color::Rgb(red, green, blue) => {
            out.push(0x3b);
            push_decimal(out, selector as usize);
            out.push(0x3b);
            out.push(0x32);
            out.push(0x3b);
            push_decimal(out, red as usize);
            out.push(0x3b);
            push_decimal(out, green as usize);
            out.push(0x3b);
            push_decimal(out, blue as usize);
            assert(out@ =~= before + color_bytes(color, selector));
        },
    }
}

fn push_flag(out: &mut Vec<u8>, enabled: bool, code: u8)
    ensures
        final(out)@ == old(out)@ + flag_bytes(enabled, code),
{
    if enabled {
        out.push(0x3b);
        out.push(code);
    }
    assert(out@ =~= old(out)@ + flag_bytes(enabled, code));
}

proof fn lemma_append(a: Seq<u8>, p: Seq<u8>, q: Seq<u8>)
    ensures
        (a + p) + q == a + (p + q),
{
    vstd::seq_lib::lemma_concat_associative(a, p, q);
}

fn push_attributes(out: &mut Vec<u8>, style: Style)
    ensures
        final(out)@ == old(out)@ + attribute_bytes(style),
{
    let ghost b0 = out@;
    push_flag(out, style.bold, 0x31);
    let ghost p = flag_bytes(style.bold, 0x31);
    push_flag(out, style.dim, 0x32);
    proof {
        lemma_append(b0, p, flag_bytes(style.dim, 0x32));
    }
    let ghost p = p + flag_bytes(style.dim, 0x32);
    push_flag(out, style.italic, 0x33);
    proof {
        lemma_append(b0, p, flag_bytes(style.italic, 0x33));
    }
    let ghost p = p + flag_bytes(style.italic, 0x33);
    push_flag(out, style.underline, 0x34);
    proof {
        lemma_append(b0, p, flag_bytes(style.underline, 0x34));
    }
    let ghost p = p + flag_bytes(style.underline, 0x34);
    push_flag(out, style.blink, 0x35);
    proof {
        lemma_append(b0, p, flag_bytes(style.blink, 0x35));
    }
    let ghost p = p + flag_bytes(style.blink, 0x35);
    push_flag(out, style.inverse, 0x37);
    proof {
        lemma_append(b0, p, flag_bytes(style.inverse, 0x37));
    }
    let ghost p = p + flag_bytes(style.inverse, 0x37);
    push_flag(out, style.hidden, 0x38);
    proof {
        lemma_append(b0, p, flag_bytes(style.hidden, 0x38));
    }
    let ghost p = p + flag_bytes(style.hidden, 0x38);
    push_flag(out, style.strikethrough, 0x39);
    proof {
        lemma_append(b0, p, flag_bytes(style.strikethrough, 0x39));
    }
}

fn push_style(out: &mut Vec<u8>, style: Style)
    ensures
        final(out)@ == old(out)@ + style_bytes(style),
{
    let ghost before = out@;
    out.push(0x1b);
    out.push(0x5b);
    out.push(0x30);
    assert(out@ =~= before + seq![0x1bu8, 0x5b, 0x30]);
    push_attributes(out, style);
    let ghost a = seq![0x1bu8, 0x5b, 0x30] + attribute_bytes(style);
    assert(out@ =~= before + a);
    push_color(out, style.foreground, 38);
    let ghost b = a + color_bytes(style.foreground, 38);
    assert(out@ =~= before + b);
    push_color(out, style.background, 48);
    let ghost c = b + color_bytes(style.background, 48);
    assert(out@ =~= before + c);
    out.push(0x6d);
    assert(out@ =~= before + style_bytes(style));
}

/// The cells of a row from the front, with the style the output is in: a
/// wide glyph's trailing placeholder writes nothing, and the style is
/// written only where it changes.
pub open spec fn cells_out(cells: Seq<CellModel>, style: Style) -> (Seq<u8>, Style)
    decreases cells.len(),
{
    if cells.len() == 0 {
        (Seq::empty(), style)
    } else {
        let c = cells[0];
        let (head, next) = if c.width == 0 {
            (Seq::<u8>::empty(), style)
        } else {
            (
                (if c.style != style {
                    style_bytes(c.style)
                } else {
                    Seq::empty()
                }) + encode_utf8(seq![c.character] + c.combining),
                c.style,
            )
        };
        let (rest, last) = cells_out(cells.drop_first(), next);
        (head + rest, last)
    }
}

/// The rows from `k` on; a row equal to its previous rendering is skipped.
/// Each row written starts with an explicit cursor position, which never scrolls.
pub open spec fn rows_out(m: ScreenModel, previous: Option<Seq<Seq<CellModel>>>, k: int, style: Style) -> (
    Seq<u8>,
    Style,
)
    decreases m.rows - k,
{
    if k < 0 || k >= m.rows {
        (Seq::empty(), style)
    } else {
        let cells = m.row_cells(k);
        let unchanged = match previous {
            Some(p) => p[k] == cells,
            None => false,
        };
        let (head, next) = if unchanged {
            (Seq::<u8>::empty(), style)
        } else {
            let (b, s) = cells_out(cells, style);
            (csi() + decimal((k + 1) as nat) + seq![0x3bu8, 0x31, 0x48] + b, s)
        };
        let (rest, last) = rows_out(m, previous, k + 1, next);
        (head + rest, last)
    }
}

pub open spec fn mode_bytes(enabled: bool, on: Seq<u8>, off: Seq<u8>) -> Seq<u8> {
    if enabled {
        on
    } else {
        off
    }
}

/// `ESC [ ? code h` or `... l`.
pub open spec fn private_mode(code: nat, enabled: bool) -> Seq<u8> {
    csi() + seq![0x3fu8] + decimal(code) + seq![if enabled { 0x68u8 } else { 0x6cu8 }]
}

/// The mouse modes, cleared first so the new mode is the only one, with the
/// encoding set before tracking so the first report uses it.
pub open spec fn mouse_bytes(modes: TerminalModes) -> Seq<u8> {
    private_mode(1000, false) + private_mode(1002, false) + private_mode(1003, false) + private_mode(
        1006,
        modes.sgr_mouse,
    ) + if modes.mouse_tracking != MouseTracking::Off {
        private_mode(tracking_code(modes.mouse_tracking) as nat, true)
    } else {
        Seq::empty()
    }
}

/// The start of a frame: the cursor hidden and attributes reset, then the
/// input and cursor modes the outer terminal must mirror (focus and mouse
/// reporting only where they may have changed).
pub open spec fn header_bytes(modes: TerminalModes, synchronize_focus: bool, synchronize_mouse: bool) -> Seq<u8> {
    private_mode(25, false) + seq![0x1bu8, 0x5b, 0x30, 0x6d] + private_mode(2004, modes.bracketed_paste) + private_mode(
        1,
        modes.application_cursor_keys,
    ) + mode_bytes(modes.application_keypad, seq![0x1bu8, 0x3d], seq![0x1bu8, 0x3e]) + (csi() + decimal(
        shape_code(modes.cursor_shape) as nat,
    ) + seq![0x20u8, 0x71]) + (if synchronize_focus {
        private_mode(1004, modes.focus_reporting)
    } else {
        Seq::empty()
    }) + (if synchronize_mouse {
        mouse_bytes(modes)
    } else {
        Seq::empty()
    })
}

/// The end of a frame: attributes reset, the cursor at its place and shown if visible.
pub open spec fn footer_bytes(m: ScreenModel) -> Seq<u8> {
    seq![0x1bu8, 0x5b, 0x30, 0x6d] + (csi() + decimal((m.row + 1) as nat) + seq![0x3bu8] + decimal(
        (m.column + 1) as nat,
    ) + seq![0x48u8]) + private_mode(25, m.cursor_visible)
}

/// A frame: the header, the rows that changed, the footer.
pub open spec fn frame_spec(
    m: ScreenModel,
    modes: TerminalModes,
    synchronize_focus: bool,
    synchronize_mouse: bool,
    previous: Option<Seq<Seq<CellModel>>>,
) -> Seq<u8> {
    header_bytes(modes, synchronize_focus, synchronize_mouse) + rows_out(m, previous, 0, plain_style()).0
        + footer_bytes(m)
}

fn push_private_mode(out: &mut Vec<u8>, code: usize, enabled: bool)
    ensures
        final(out)@ == old(out)@ + private_mode(code as nat, enabled),
{
    let ghost before = out@;
    out.push(0x1b);
    out.push(0x5b);
    out.push(0x3f);
    push_decimal(out, code);
    out.push(if enabled {
        0x68
    } else {
        0x6c
    });
    assert(out@ =~= before + private_mode(code as nat, enabled));
}

fn push_cells(out: &mut Vec<u8>, cells: &[Cell], style: Style) -> (r: Style)
    ensures
        final(out)@ == old(out)@ + cells_out(models(cells@), style).0,
        r == cells_out(models(cells@), style).1,
{
    let ghost all = models(cells@);
    let ghost base = out@;
    let mut current = style;
    let mut i: usize = 0;
    assert(all.skip(0) =~= all);
    assert(out@ + cells_out(all, style).0 =~= base + cells_out(all, style).0);
    while i < cells.len()
        invariant
            i <= cells@.len(),
            all == models(cells@),
            out@ + cells_out(all.skip(i as int), current).0 == base + cells_out(all, style).0,
            cells_out(all.skip(i as int), current).1 == cells_out(all, style).1,
        decreases cells@.len() - i,
    {
        let cell = &cells[i];
        let ghost rest = all.skip(i as int);
        assert(rest[0] == cell@);
        assert(rest.drop_first() =~= all.skip(i + 1));
        let ghost prev = out@;
        let ghost head: Seq<u8> = if cell.width == 0 {
            Seq::empty()
        } else {
            (if cell.style != current {
                style_bytes(cell.style)
            } else {
                Seq::empty()
            }) + encode_utf8(seq![cell.character] + cell@.combining)
        };
        if cell.width != 0 {
            if cell.style != current {
                push_style(out, cell.style);
                current = cell.style;
            }
            let ghost mid = out@;
            push_scalar(out, cell.character);
            let mut k: usize = 0;
            while k < cell.combining.len()
                invariant
                    k <= cell.combining@.len(),
                    out@ == mid + encode_scalar(cell.character as u32) + encode_utf8(cell.combining@.take(k as int)),
                decreases cell.combining@.len() - k,
            {
                let ghost before_k = out@;
                push_scalar(out, cell.combining[k]);
                proof {
                    lemma_encode_push(cell.combining@.take(k as int), cell.combining@[k as int]);
                    assert(cell.combining@.take(k + 1) =~= cell.combining@.take(k as int).push(
                        cell.combining@[k as int],
                    ));
                }
                k += 1;
            }
            proof {
                assert(cell.combining@.take(k as int) =~= cell.combining@);
                let word = seq![cell.character] + cell@.combining;
                assert(word[0] == cell.character);
                assert(word.drop_first() =~= cell.combining@);
                assert(encode_utf8(word) == encode_scalar(cell.character as u32) + encode_utf8(word.drop_first()));
            }
            assert(out@ =~= prev + head);
        } else {
            assert(out@ =~= prev + head);
        }
        i += 1;
    }
    assert(all.skip(i as int) =~= Seq::<CellModel>::empty());
    assert(out@ =~= base + cells_out(all, style).0);
    current
}

proof fn lemma_encode_push(s: Seq<char>, c: char)
    ensures
        encode_utf8(s.push(c)) == encode_utf8(s) + encode_scalar(c as u32),
    decreases s.len(),
{
    if s.len() == 0 {
        assert(s.push(c).drop_first() =~= Seq::<char>::empty());
        assert(encode_utf8(s.push(c)) =~= encode_scalar(c as u32) + encode_utf8(Seq::<char>::empty()));
    } else {
        assert(s.push(c).drop_first() =~= s.drop_first().push(c));
        lemma_encode_push(s.drop_first(), c);
        assert(encode_utf8(s.push(c)) =~= encode_scalar(s[0] as u32) + encode_utf8(s.drop_first().push(c)));
    }
}

/// Whether two cells hold the same character, width, combining marks and style.
fn same_cell(a: &Cell, b: &Cell) -> (r: bool)
    ensures
        r == (a@ == b@),
{
    if a.character != b.character || a.width != b.width || a.style != b.style || a.combining.len()
        != b.combining.len() {
        return false;
    }
    let mut i: usize = 0;
    while i < a.combining.len()
        invariant
            i <= a.combining@.len(),
            a.combining@.len() == b.combining@.len(),
            forall|j: int| 0 <= j < i ==> a.combining@[j] == b.combining@[j],
        decreases a.combining@.len() - i,
    {
        if a.combining[i] != b.combining[i] {
            return false;
        }
        i += 1;
    }
    assert(a.combining@ =~= b.combining@);
    true
}

fn same_row(a: &[Cell], b: &[Cell]) -> (r: bool)
    ensures
        r == (models(a@) == models(b@)),
{
    if a.len() != b.len() {
        assert(models(a@).len() != models(b@).len());
        return false;
    }
    let mut i: usize = 0;
    while i < a.len()
        invariant
            i <= a@.len(),
            a@.len() == b@.len(),
            forall|j: int| 0 <= j < i ==> a@[j]@ == b@[j]@,
        decreases a@.len() - i,
    {
        if !same_cell(&a[i], &b[i]) {
            assert(models(a@)[i as int] != models(b@)[i as int]);
            return false;
        }
        i += 1;
    }
    assert(models(a@) =~= models(b@));
    true
}

pub open spec fn rows_view(rows: Seq<Vec<Cell>>) -> Seq<Seq<CellModel>> {
    rows.map_values(|r: Vec<Cell>| models(r@))
}

fn push_mouse(out: &mut Vec<u8>, modes: TerminalModes)
    ensures
        final(out)@ == old(out)@ + mouse_bytes(modes),
{
    let ghost b0 = out@;
    push_private_mode(out, 1000, false);
    push_private_mode(out, 1002, false);
    assert(out@ =~= b0 + (private_mode(1000, false) + private_mode(1002, false)));
    push_private_mode(out, 1003, false);
    let ghost p3 = private_mode(1000, false) + private_mode(1002, false) + private_mode(1003, false);
    assert(out@ =~= b0 + p3);
    push_private_mode(out, 1006, modes.sgr_mouse);
    let ghost p4 = p3 + private_mode(1006, modes.sgr_mouse);
    assert(out@ =~= b0 + p4);
    if modes.mouse_tracking != MouseTracking::Off {
        push_private_mode(out, modes.mouse_tracking.code() as usize, true);
    }
    assert(out@ =~= b0 + mouse_bytes(modes));
}

#[verifier::rlimit(40)]
fn push_header(out: &mut Vec<u8>, modes: TerminalModes, synchronize_focus: bool, synchronize_mouse: bool)
    ensures
        final(out)@ == old(out)@ + header_bytes(modes, synchronize_focus, synchronize_mouse),
{
    let ghost b0 = out@;
    push_private_mode(out, 25, false);
    let ghost b1 = out@;
    out.push(0x1b);
    out.push(0x5b);
    out.push(0x30);
    out.push(0x6d);
    assert(out@ =~= b1 + seq![0x1bu8, 0x5b, 0x30, 0x6d]);
    proof {
        lemma_append(b0, private_mode(25, false), seq![0x1bu8, 0x5b, 0x30, 0x6d]);
    }
    let ghost p = private_mode(25, false) + seq![0x1bu8, 0x5b, 0x30, 0x6d];
    push_private_mode(out, 2004, modes.bracketed_paste);
    proof {
        lemma_append(b0, p, private_mode(2004, modes.bracketed_paste));
    }
    let ghost p = p + private_mode(2004, modes.bracketed_paste);
    push_private_mode(out, 1, modes.application_cursor_keys);
    proof {
        lemma_append(b0, p, private_mode(1, modes.application_cursor_keys));
    }
    let ghost p = p + private_mode(1, modes.application_cursor_keys);
    let ghost b4 = out@;
    out.push(0x1b);
    out.push(if modes.application_keypad {
        0x3d
    } else {
        0x3e
    });
    let ghost keypad = mode_bytes(modes.application_keypad, seq![0x1bu8, 0x3d], seq![0x1bu8, 0x3e]);
    assert(out@ =~= b4 + keypad);
    proof {
        lemma_append(b0, p, keypad);
    }
    let ghost p = p + keypad;
    let ghost b5 = out@;
    out.push(0x1b);
    out.push(0x5b);
    push_decimal(out, modes.cursor_shape.code() as usize);
    out.push(0x20);
    out.push(0x71);
    let ghost shape = csi() + decimal(shape_code(modes.cursor_shape) as nat) + seq![0x20u8, 0x71];
    assert(out@ =~= b5 + shape);
    proof {
        lemma_append(b0, p, shape);
    }
    let ghost p = p + shape;
    if synchronize_focus {
        push_private_mode(out, 1004, modes.focus_reporting);
    }
    let ghost focus = if synchronize_focus {
        private_mode(1004, modes.focus_reporting)
    } else {
        Seq::empty()
    };
    assert(out@ == (b0 + p) + focus) by {
        if !synchronize_focus {
            assert((b0 + p) + focus =~= b0 + p);
        }
    }
    proof {
        lemma_append(b0, p, focus);
    }
    let ghost p = p + focus;
    if synchronize_mouse {
        push_mouse(out, modes);
    }
    let ghost mouse = if synchronize_mouse {
        mouse_bytes(modes)
    } else {
        Seq::empty()
    };
    assert(out@ == (b0 + p) + mouse) by {
        if !synchronize_mouse {
            assert((b0 + p) + mouse =~= b0 + p);
        }
    }
    proof {
        lemma_append(b0, p, mouse);
    }
}

fn push_footer(out: &mut Vec<u8>, screen: &Screen)
    requires
        screen.inv(),
    ensures
        final(out)@ == old(out)@ + footer_bytes(screen@),
{
    let ghost b0 = out@;
    let (row, column) = screen.cursor();
    proof {
        crate::screen::lemma_cursor_bounds(screen@);
    }
    out.push(0x1b);
    out.push(0x5b);
    out.push(0x30);
    out.push(0x6d);
    let ghost b1 = out@;
    out.push(0x1b);
    out.push(0x5b);
    push_decimal(out, row + 1);
    out.push(0x3b);
    push_decimal(out, column + 1);
    out.push(0x48);
    let ghost cup = csi() + decimal((row + 1) as nat) + seq![0x3bu8] + decimal((column + 1) as nat) + seq![0x48u8];
    assert(out@ =~= b1 + cup);
    assert(out@ =~= b0 + (seq![0x1bu8, 0x5b, 0x30, 0x6d] + cup));
    push_private_mode(out, 25, screen.cursor_visible());
    assert(out@ =~= b0 + footer_bytes(screen@));
}

fn render_frame(
    screen: &Screen,
    modes: TerminalModes,
    synchronize_focus: bool,
    synchronize_mouse: bool,
    previous: Option<&Vec<Vec<Cell>>>,
) -> (r: Vec<u8>)
    requires
        screen.inv(),
        match previous {
            Some(p) => p@.len() == screen@.rows,
            None => true,
        },
    ensures
        r@ == frame_spec(
            screen@,
            modes,
            synchronize_focus,
            synchronize_mouse,
            match previous {
                Some(p) => Some(rows_view(p@)),
                None => None,
            },
        ),
{
    let ghost m = screen@;
    let ghost prev: Option<Seq<Seq<CellModel>>> = match previous {
        Some(p) => Some(rows_view(p@)),
        None => None,
    };
    let mut out: Vec<u8> = Vec::new();
    push_header(&mut out, modes, synchronize_focus, synchronize_mouse);
    assert(out@ =~= header_bytes(modes, synchronize_focus, synchronize_mouse));
    let ghost header = out@;
    let (rows, _) = screen.dimensions();
    let mut style = Style::default();
    let mut k: usize = 0;
    assert(out@ + rows_out(m, prev, 0, plain_style()).0 =~= header + rows_out(m, prev, 0, plain_style()).0);
    while k < rows
        invariant
            rows == m.rows,
            screen@ == m,
            screen.inv(),
            k <= rows,
            prev == (match previous {
                Some(p) => Some(rows_view(p@)),
                None => None,
            }),
            match previous {
                Some(p) => p@.len() == rows,
                None => true,
            },
            out@ + rows_out(m, prev, k as int, style).0 == header + rows_out(m, prev, 0, plain_style()).0,
        decreases rows - k,
    {
        let cells = match screen.row(k) {
            Some(cells) => cells,
            None => {
                return out;
            },
        };
        let unchanged = match previous {
            Some(p) => same_row(p[k].as_slice(), cells),
            None => false,
        };
        let ghost before = out@;
        if !unchanged {
            out.push(0x1b);
            out.push(0x5b);
            push_decimal(&mut out, k + 1);
            out.push(0x3b);
            out.push(0x31);
            out.push(0x48);
            style = push_cells(&mut out, cells, style);
        }
        proof {
            if let Some(p) = previous {
                assert(rows_view(p@)[k as int] == models(p@[k as int]@));
            }
        }
        k += 1;
    }
    let ghost body = out@;
    push_footer(&mut out, screen);
    assert(out@ =~= frame_spec(m, modes, synchronize_focus, synchronize_mouse, prev));
    out
}

/// A full frame: every row, and every mode.
pub fn render(screen: &Screen, modes: TerminalModes) -> (r: Vec<u8>)
    requires
        screen.inv(),
    ensures
        r@ == frame_spec(screen@, modes, true, true, None),
{
    render_frame(screen, modes, true, true, None)
}

/// What a renderer remembers of the frame it produced last.
pub struct RendererModel {
    pub focus_reporting: Option<bool>,
    pub mouse: Option<(MouseTracking, bool)>,
    pub dimensions: Option<(usize, usize)>,
    pub rows: Seq<Seq<CellModel>>,
}

/// The rows of a screen, top to bottom.
pub open spec fn screen_rows(m: ScreenModel) -> Seq<Seq<CellModel>> {
    Seq::new(m.rows as nat, |k: int| m.row_cells(k))
}

proof fn lemma_unchanged_rows(m: ScreenModel, k: int, style: Style)
    requires
        0 <= k,
    ensures
        rows_out(m, Some(screen_rows(m)), k, style) == (Seq::<u8>::empty(), style),
    decreases m.rows - k,
{
    if k < m.rows {
        assert(screen_rows(m)[k] == m.row_cells(k));
        lemma_unchanged_rows(m, k + 1, style);
        assert(Seq::<u8>::empty() + Seq::<u8>::empty() =~= Seq::<u8>::empty());
    }
}

/// A frame for a screen that has not changed since the previous frame, with
/// the modes the renderer last sent, repaints no row: it holds the fixed mode
/// header and the cursor footer only.
pub proof fn unchanged_screen_repaints_no_row(previous: RendererModel, m: ScreenModel, modes: TerminalModes)
    requires
        previous.dimensions == Some((m.rows, m.columns)),
        previous.rows == screen_rows(m),
        previous.focus_reporting == Some(modes.focus_reporting),
        previous.mouse == Some((modes.mouse_tracking, modes.sgr_mouse)),
    ensures
        frame_spec(
            m,
            modes,
            previous.focus_reporting != Some(modes.focus_reporting),
            previous.mouse != Some((modes.mouse_tracking, modes.sgr_mouse)),
            if previous.dimensions == Some((m.rows, m.columns)) {
                Some(previous.rows)
            } else {
                None
            },
        ) == header_bytes(modes, false, false) + footer_bytes(m),
{
    lemma_unchanged_rows(m, 0, plain_style());
    assert(header_bytes(modes, false, false) + Seq::<u8>::empty() =~= header_bytes(modes, false, false));
}

/// Changed-row rendering for an ordered output stream. Every frame must reach
/// the terminal whole before the next; after losing or discarding output,
/// call `invalidate` (or start a new renderer) so the next frame repaints all.
pub struct Renderer {
    focus_reporting: Option<bool>,
    mouse: Option<(MouseTracking, bool)>,
    dimensions: Option<(usize, usize)>,
    rows: Vec<Vec<Cell>>,
}

impl View for Renderer {
    type V = RendererModel;

    closed spec fn view(&self) -> RendererModel {
        RendererModel {
            focus_reporting: self.focus_reporting,
            mouse: self.mouse,
            dimensions: self.dimensions,
            rows: rows_view(self.rows@),
        }
    }
}

impl Renderer {
    /// The cached rows match the remembered dimensions.
    pub closed spec fn inv(&self) -> bool {
        match self.dimensions {
            Some((rows, _)) => self.rows@.len() == rows,
            None => true,
        }
    }

    pub fn new() -> (r: Self)
        ensures
            r.inv(),
            r@.focus_reporting is None,
            r@.mouse is None,
            r@.dimensions is None,
    {
        Renderer { focus_reporting: None, mouse: None, dimensions: None, rows: Vec::new() }
    }

    /// Forces the next frame to repaint everything, after outside damage or discarded output.
    pub fn invalidate(&mut self)
        requires
            old(self).inv(),
        ensures
            final(self).inv(),
            final(self)@ == (RendererModel { dimensions: None, focus_reporting: None, mouse: None, ..old(self)@ }),
    {
        self.dimensions = None;
        self.focus_reporting = None;
        self.mouse = None;
    }

    /// The next frame: only rows that changed since the last one, and focus and
    /// mouse modes only when they changed; everything after a size change.
    pub fn render(&mut self, screen: &Screen, modes: TerminalModes) -> (r: Vec<u8>)
        requires
            old(self).inv(),
            screen.inv(),
        ensures
            final(self).inv(),
            r@ == frame_spec(
                screen@,
                modes,
                old(self)@.focus_reporting != Some(modes.focus_reporting),
                old(self)@.mouse != Some((modes.mouse_tracking, modes.sgr_mouse)),
                if old(self)@.dimensions == Some((screen@.rows, screen@.columns)) {
                    Some(old(self)@.rows)
                } else {
                    None
                },
            ),
            final(self)@ == (RendererModel {
                focus_reporting: Some(modes.focus_reporting),
                mouse: Some((modes.mouse_tracking, modes.sgr_mouse)),
                dimensions: Some((screen@.rows, screen@.columns)),
                rows: screen_rows(screen@),
            }),
    {
        let synchronize_focus = match self.focus_reporting {
            Some(f) => f != modes.focus_reporting,
            None => true,
        };
        let synchronize_mouse = match self.mouse {
            Some((tracking, sgr)) => !(tracking == modes.mouse_tracking && sgr == modes.sgr_mouse),
            None => true,
        };
        let dimensions = screen.dimensions();
        let same_size = match self.dimensions {
            Some((rows, columns)) => rows == dimensions.0 && columns == dimensions.1,
            None => false,
        };
        let frame = if same_size {
            render_frame(screen, modes, synchronize_focus, synchronize_mouse, Some(&self.rows))
        } else {
            render_frame(screen, modes, synchronize_focus, synchronize_mouse, None)
        };
        let mut rows: Vec<Vec<Cell>> = Vec::new();
        let mut k: usize = 0;
        while k < dimensions.0
            invariant
                dimensions == (screen@.rows, screen@.columns),
                screen.inv(),
                k <= dimensions.0,
                rows_view(rows@) == screen_rows(screen@).take(k as int),
            decreases dimensions.0 - k,
        {
            let cells = screen.row(k).unwrap();
            let ghost before = rows@;
            rows.push(copy_cells(cells));
            assert(rows_view(rows@) =~= rows_view(before).push(screen@.row_cells(k as int)));
            assert(screen_rows(screen@).take(k + 1) =~= screen_rows(screen@).take(k as int).push(
                screen@.row_cells(k as int),
            ));
            k += 1;
        }
        assert(screen_rows(screen@).take(k as int) =~= screen_rows(screen@));
        self.rows = rows;
        self.dimensions = Some(dimensions);
        self.mouse = Some((modes.mouse_tracking, modes.sgr_mouse));
        self.focus_reporting = Some(modes.focus_reporting);
        frame
    }
}

impl Default for Renderer {
    fn default() -> (r: Self)
        ensures
            r.inv(),
            r@.focus_reporting is None,
            r@.mouse is None,
            r@.dimensions is None,
    {
        Renderer::new()
    }
}

} // verus!
