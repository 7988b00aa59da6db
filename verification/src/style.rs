//! Stored text attributes. The renderer emits symbolic palette/default colors.

use vstd::prelude::*;

verus! {

#[derive(Debug, Clone, Copy, PartialEq, Eq, Structural)]
pub enum Color {
    Default,
    Indexed(u8),
    Rgb(u8, u8, u8),
}

impl Default for Color {
    fn default() -> (color: Self)
        ensures
            color == Color::Default,
    {
        Color::Default
    }
}

#[derive(Debug, Clone, Copy, PartialEq, Eq, Structural)]
pub struct Style {
    pub foreground: Color,
    pub background: Color,
    pub bold: bool,
    pub dim: bool,
    pub italic: bool,
    pub underline: bool,
    pub blink: bool,
    pub inverse: bool,
    pub hidden: bool,
    pub strikethrough: bool,
}

/// The default style: default colors and no attributes.
pub open spec fn plain_style() -> Style {
    Style {
        foreground: Color::Default,
        background: Color::Default,
        bold: false,
        dim: false,
        italic: false,
        underline: false,
        blink: false,
        inverse: false,
        hidden: false,
        strikethrough: false,
    }
}

impl Default for Style {
    fn default() -> (style: Self)
        ensures
            style == plain_style(),
    {
        Style {
            foreground: Color::Default,
            background: Color::Default,
            bold: false,
            dim: false,
            italic: false,
            underline: false,
            blink: false,
            inverse: false,
            hidden: false,
            strikethrough: false,
        }
    }
}

/// A stored character with its width and zero-width suffix. The style is a snapshot:
/// subsequent SGR commands cannot restyle existing text.
#[derive(Debug, Clone, PartialEq, Eq)]
pub struct Cell {
    pub character: char,
    /// 1 for ordinary cells, 2 for a wide leader, 0 for its trailing placeholder.
    pub width: u8,
    /// At most 16 zero-width scalars; only leaders carry suffixes.
    pub combining: Vec<char>,
    pub style: Style,
}

/// The mathematical content of a cell.
pub struct CellModel {
    pub character: char,
    pub width: u8,
    pub combining: Seq<char>,
    pub style: Style,
}

impl View for Cell {
    type V = CellModel;

    open spec fn view(&self) -> CellModel {
        CellModel {
            character: self.character,
            width: self.width,
            combining: self.combining@,
            style: self.style,
        }
    }
}

/// A blank one-column space with the given style and no suffix.
pub open spec fn blank_cell(style: Style) -> CellModel {
    CellModel { character: ' ', width: 1, combining: Seq::empty(), style }
}

impl Cell {
    /// A blank cell in the given style.
    pub fn blank(style: Style) -> (cell: Cell)
        ensures
            cell@ == blank_cell(style),
    {
        Cell { character: ' ', width: 1, combining: Vec::new(), style }
    }
}

impl Default for Cell {
    fn default() -> (cell: Self)
        ensures
            cell@ == blank_cell(plain_style()),
    {
        Cell::blank(Style::default())
    }
}

/// The value of one SGR parameter: empty parameters mean zero.
pub open spec fn param_code(p: Option<usize>) -> usize {
    match p {
        Some(v) => v,
        None => 0,
    }
}

/// The parameter at `index`, if present and not empty.
pub open spec fn param_at(params: Seq<Option<usize>>, index: int) -> Option<usize> {
    if 0 <= index < params.len() {
        params[index]
    } else {
        None
    }
}

/// An 8-bit color component at `index`, if present and in range.
pub open spec fn component_at(params: Seq<Option<usize>>, index: int) -> Option<u8> {
    match param_at(params, index) {
        Some(v) => if v <= 255 {
            Some(v as u8)
        } else {
            None
        },
        None => None,
    }
}

/// The extended color introduced at `i` (38, 48 or 58) and the number of
/// parameters it consumes after the introducer, or None when malformed.
pub open spec fn extended_color(params: Seq<Option<usize>>, i: int) -> Option<(Color, int)> {
    match param_at(params, i + 1) {
        Some(5) => match component_at(params, i + 2) {
            Some(index) => Some((Color::Indexed(index), 2)),
            None => None,
        },
        Some(2) => match (
            component_at(params, i + 2),
            component_at(params, i + 3),
            component_at(params, i + 4),
        ) {
            (Some(r), Some(g), Some(b)) => Some((Color::Rgb(r, g, b), 4)),
            _ => None,
        },
        _ => None,
    }
}

/// The effect of one simple (non-extended) SGR code.
pub open spec fn apply_simple_code(s: Style, code: usize) -> Style {
    if code == 0 {
        plain_style()
    } else if code == 1 {
        Style { bold: true, ..s }
    } else if code == 2 {
        Style { dim: true, ..s }
    } else if code == 3 {
        Style { italic: true, ..s }
    } else if code == 4 {
        Style { underline: true, ..s }
    } else if code == 5 {
        Style { blink: true, ..s }
    } else if code == 7 {
        Style { inverse: true, ..s }
    } else if code == 8 {
        Style { hidden: true, ..s }
    } else if code == 9 {
        Style { strikethrough: true, ..s }
    } else if code == 22 {
        Style { bold: false, dim: false, ..s }
    } else if code == 23 {
        Style { italic: false, ..s }
    } else if code == 24 {
        Style { underline: false, ..s }
    } else if code == 25 {
        Style { blink: false, ..s }
    } else if code == 27 {
        Style { inverse: false, ..s }
    } else if code == 28 {
        Style { hidden: false, ..s }
    } else if code == 29 {
        Style { strikethrough: false, ..s }
    } else if 30 <= code <= 37 {
        Style { foreground: Color::Indexed((code - 30) as u8), ..s }
    } else if 40 <= code <= 47 {
        Style { background: Color::Indexed((code - 40) as u8), ..s }
    } else if 90 <= code <= 97 {
        Style { foreground: Color::Indexed((code - 90 + 8) as u8), ..s }
    } else if 100 <= code <= 107 {
        Style { background: Color::Indexed((code - 100 + 8) as u8), ..s }
    } else if code == 39 {
        Style { foreground: Color::Default, ..s }
    } else if code == 49 {
        Style { background: Color::Default, ..s }
    } else {
        s
    }
}

/// Whether a code introduces an extended color (foreground, background, underline).
pub open spec fn is_extended_code(code: usize) -> bool {
    code == 38 || code == 48 || code == 58
}

/// Apply an extended color to the attribute that its introducer names.
/// Underline color (58) is consumed but not stored.
pub open spec fn apply_extended(s: Style, code: usize, color: Color) -> Style {
    if code == 38 {
        Style { foreground: color, ..s }
    } else if code == 48 {
        Style { background: color, ..s }
    } else {
        s
    }
}

/// The result of applying the SGR parameters from index `i` on, atomically:
/// a malformed extended color rejects the whole command.
pub open spec fn sgr_from(s: Style, params: Seq<Option<usize>>, i: int) -> Option<Style>
    decreases params.len() - i,
{
    if i < 0 || i >= params.len() {
        Some(s)
    } else {
        let code = param_code(params[i]);
        if is_extended_code(code) {
            match extended_color(params, i) {
                Some((color, consumed)) => sgr_from(
                    apply_extended(s, code, color),
                    params,
                    i + consumed + 1,
                ),
                None => None,
            }
        } else {
            sgr_from(apply_simple_code(s, code), params, i + 1)
        }
    }
}

/// The style that a whole SGR command produces from `s`, or None when it is rejected.
pub open spec fn sgr_spec(s: Style, params: Seq<Option<usize>>) -> Option<Style> {
    sgr_from(s, params, 0)
}

fn param_at_exec(params: &[Option<usize>], index: usize) -> (r: Option<usize>)
    ensures
        r == param_at(params@, index as int),
{
    if index < params.len() {
        params[index]
    } else {
        None
    }
}

fn component_at_exec(params: &[Option<usize>], i: usize, offset: usize) -> (r: Option<u8>)
    ensures
        r == component_at(params@, i + offset),
{
    if i >= params.len() || offset >= params.len() - i {
        return None;
    }
    match param_at_exec(params, i + offset) {
        Some(v) => if v <= 255 {
            Some(v as u8)
        } else {
            None
        },
        None => None,
    }
}

fn simple_code(s: Style, code: usize) -> (r: Style)
    ensures
        r == apply_simple_code(s, code),
{
    let mut s = s;
    match code {
        0 => s = Style::default(),
        1 => s.bold = true,
        2 => s.dim = true,
        3 => s.italic = true,
        4 => s.underline = true,
        5 => s.blink = true,
        7 => s.inverse = true,
        8 => s.hidden = true,
        9 => s.strikethrough = true,
        22 => {
            s.bold = false;
            s.dim = false;
        },
        23 => s.italic = false,
        24 => s.underline = false,
        25 => s.blink = false,
        27 => s.inverse = false,
        28 => s.hidden = false,
        29 => s.strikethrough = false,
        39 => s.foreground = Color::Default,
        49 => s.background = Color::Default,
        _ => {
            if 30 <= code && code <= 37 {
                s.foreground = Color::Indexed((code - 30) as u8);
            } else if 40 <= code && code <= 47 {
                s.background = Color::Indexed((code - 40) as u8);
            } else if 90 <= code && code <= 97 {
                s.foreground = Color::Indexed((code - 90 + 8) as u8);
            } else if 100 <= code && code <= 107 {
                s.background = Color::Indexed((code - 100 + 8) as u8);
            }
        },
    }
    s
}

impl Style {
    /// Apply semicolon SGR parameters atomically. Empty parameters mean reset.
    /// Unknown simple codes are ignored; malformed extended colors reject the
    /// command so their components cannot be mistaken for unrelated attributes.
    pub fn sgr(self, params: &[Option<usize>]) -> (r: Option<Self>)
        ensures
            r == sgr_spec(self, params@),
    {
        let mut style = self;
        let mut i: usize = 0;
        while i < params.len()
            invariant
                i <= params.len(),
                sgr_spec(self, params@) == sgr_from(style, params@, i as int),
            decreases params.len() - i,
        {
            let code = match params[i] {
                Some(v) => v,
                None => 0,
            };
            if code == 38 || code == 48 || code == 58 {
                let color;
                let consumed: usize;
                match param_at_exec(params, i + 1) {
                    Some(5) => {
                        match component_at_exec(params, i, 2) {
                            Some(index) => {
                                color = Color::Indexed(index);
                                consumed = 2;
                            },
                            None => return None,
                        }
                    },
                    Some(2) => {
                        let r = component_at_exec(params, i, 2);
                        let g = component_at_exec(params, i, 3);
                        let b = component_at_exec(params, i, 4);
                        match (r, g, b) {
                            (Some(r), Some(g), Some(b)) => {
                                color = Color::Rgb(r, g, b);
                                consumed = 4;
                            },
                            _ => return None,
                        }
                    },
                    _ => return None,
                }
                if code == 38 {
                    style.foreground = color;
                } else if code == 48 {
                    style.background = color;
                }
                if consumed + 1 >= params.len() - i {
                    i = params.len();
                } else {
                    i = i + consumed + 1;
                }
            } else {
                style = simple_code(style, code);
                i = i + 1;
            }
        }
        Some(style)
    }
}

} // verus!
