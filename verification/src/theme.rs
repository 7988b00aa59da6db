//! Interface colours: two presets, and user overrides given as `#RRGGBB`.

use vstd::prelude::*;

use crate::app::same_text;
use crate::config::{quote, quoted};
use crate::text::push_str;

verus! {

pub type Rgb = (u8, u8, u8);

#[derive(Clone, Copy, Debug, PartialEq, Eq)]
pub struct Theme {
    pub badge_text: Rgb,
    pub background: Rgb,
    pub surface: Rgb,
    pub surface_highlight: Rgb,
    pub border: Rgb,
    pub muted: Rgb,
    pub foreground: Rgb,
    pub error: Rgb,
    pub accent: Rgb,
    pub orange: Rgb,
    pub warning: Rgb,
    pub blue: Rgb,
    pub secondary: Rgb,
    pub key: Rgb,
    pub purple: Rgb,
    pub teal: Rgb,
}

/// The dark preset.
pub open spec fn mocha() -> Theme {
    Theme {
        badge_text: (17, 17, 27),
        background: (30, 30, 46),
        surface: (49, 50, 68),
        surface_highlight: (69, 71, 90),
        border: (108, 112, 134),
        muted: (166, 173, 200),
        foreground: (205, 214, 244),
        error: (243, 139, 168),
        accent: (166, 227, 161),
        orange: (250, 179, 135),
        warning: (249, 226, 175),
        blue: (137, 180, 250),
        secondary: (180, 190, 254),
        key: (245, 194, 231),
        purple: (203, 166, 247),
        teal: (148, 226, 213),
    }
}

/// The light preset.
pub open spec fn light() -> Theme {
    Theme {
        badge_text: (255, 255, 255),
        background: (245, 246, 250),
        surface: (226, 230, 239),
        surface_highlight: (195, 202, 216),
        border: (103, 112, 132),
        muted: (85, 94, 114),
        foreground: (36, 43, 59),
        error: (174, 37, 58),
        accent: (24, 110, 74),
        orange: (165, 72, 17),
        warning: (135, 94, 0),
        blue: (38, 88, 174),
        secondary: (86, 73, 170),
        key: (163, 46, 119),
        purple: (113, 55, 170),
        teal: (16, 108, 117),
    }
}

impl Default for Theme {
    fn default() -> (r: Self)
        ensures
            r == mocha(),
    {
        Theme {
            badge_text: (17, 17, 27),
            background: (30, 30, 46),
            surface: (49, 50, 68),
            surface_highlight: (69, 71, 90),
            border: (108, 112, 134),
            muted: (166, 173, 200),
            foreground: (205, 214, 244),
            error: (243, 139, 168),
            accent: (166, 227, 161),
            orange: (250, 179, 135),
            warning: (249, 226, 175),
            blue: (137, 180, 250),
            secondary: (180, 190, 254),
            key: (245, 194, 231),
            purple: (203, 166, 247),
            teal: (148, 226, 213),
        }
    }
}

fn light_theme() -> (r: Theme)
    ensures
        r == light(),
{
    Theme {
        badge_text: (255, 255, 255),
        background: (245, 246, 250),
        surface: (226, 230, 239),
        surface_highlight: (195, 202, 216),
        border: (103, 112, 132),
        muted: (85, 94, 114),
        foreground: (36, 43, 59),
        error: (174, 37, 58),
        accent: (24, 110, 74),
        orange: (165, 72, 17),
        warning: (135, 94, 0),
        blue: (38, 88, 174),
        secondary: (86, 73, 170),
        key: (163, 46, 119),
        purple: (113, 55, 170),
        teal: (16, 108, 117),
    }
}

#[derive(Clone, Copy, Debug, PartialEq, Eq, Structural)]
pub enum Preset {
    Mocha,
    Light,
}

impl Default for Preset {
    fn default() -> (r: Self)
        ensures
            r == Preset::Mocha,
    {
        Preset::Mocha
    }
}

/// A theme as configured: a preset and colour overrides, by colour name in
/// the order of their names.
pub struct ThemeConfig {
    pub preset: Preset,
    pub colors: Vec<(String, String)>,
}

impl Default for ThemeConfig {
    fn default() -> (r: Self)
        ensures
            r.preset == Preset::Mocha,
            r.colors@.len() == 0,
    {
        ThemeConfig { preset: Preset::Mocha, colors: Vec::new() }
    }
}

/// The field position of the colour with this name.
pub open spec fn color_slot_spec(name: Seq<char>) -> Option<int> {
    if name == "badge_text"@ {
        Some(0)
    } else if name == "background"@ {
        Some(1)
    } else if name == "surface"@ {
        Some(2)
    } else if name == "surface_highlight"@ {
        Some(3)
    } else if name == "border"@ {
        Some(4)
    } else if name == "muted"@ {
        Some(5)
    } else if name == "foreground"@ {
        Some(6)
    } else if name == "error"@ {
        Some(7)
    } else if name == "accent"@ {
        Some(8)
    } else if name == "orange"@ {
        Some(9)
    } else if name == "warning"@ {
        Some(10)
    } else if name == "blue"@ {
        Some(11)
    } else if name == "secondary"@ {
        Some(12)
    } else if name == "key"@ {
        Some(13)
    } else if name == "purple"@ {
        Some(14)
    } else if name == "teal"@ {
        Some(15)
    } else {
        None
    }
}

/// The theme with the colour in field position `slot` replaced.
pub open spec fn with_color(t: Theme, slot: int, c: Rgb) -> Theme {
    if slot == 0 {
        Theme { badge_text: c, ..t }
    } else if slot == 1 {
        Theme { background: c, ..t }
    } else if slot == 2 {
        Theme { surface: c, ..t }
    } else if slot == 3 {
        Theme { surface_highlight: c, ..t }
    } else if slot == 4 {
        Theme { border: c, ..t }
    } else if slot == 5 {
        Theme { muted: c, ..t }
    } else if slot == 6 {
        Theme { foreground: c, ..t }
    } else if slot == 7 {
        Theme { error: c, ..t }
    } else if slot == 8 {
        Theme { accent: c, ..t }
    } else if slot == 9 {
        Theme { orange: c, ..t }
    } else if slot == 10 {
        Theme { warning: c, ..t }
    } else if slot == 11 {
        Theme { blue: c, ..t }
    } else if slot == 12 {
        Theme { secondary: c, ..t }
    } else if slot == 13 {
        Theme { key: c, ..t }
    } else if slot == 14 {
        Theme { purple: c, ..t }
    } else {
        Theme { teal: c, ..t }
    }
}

/// The value of an ASCII hexadecimal digit.
pub open spec fn hex_value(c: char) -> Option<u8> {
    if '0' <= c <= '9' {
        Some((c as u32 - 0x30) as u8)
    } else if 'a' <= c <= 'f' {
        Some((c as u32 - 0x61 + 10) as u8)
    } else if 'A' <= c <= 'F' {
        Some((c as u32 - 0x41 + 10) as u8)
    } else {
        None
    }
}

pub open spec fn hex_pair(hi: char, lo: char) -> u8 {
    (hex_value(hi)->0 * 16 + hex_value(lo)->0) as u8
}

/// `#RRGGBB` with six hexadecimal digits in either case.
pub open spec fn parse_color_spec(v: Seq<char>) -> Option<Rgb> {
    if v.len() == 7 && v[0] == '#' && forall|i: int| 1 <= i < 7 ==> (#[trigger] hex_value(v[i])) is Some {
        Some((hex_pair(v[1], v[2]), hex_pair(v[3], v[4]), hex_pair(v[5], v[6])))
    } else {
        None
    }
}

/// Apply the overrides in order; the first unknown name or malformed colour is the error.
pub open spec fn apply_colors(t: Theme, colors: Seq<(Seq<char>, Seq<char>)>) -> Result<Theme, Seq<char>>
    decreases colors.len(),
{
    if colors.len() == 0 {
        Ok(t)
    } else {
        let (name, value) = colors[0];
        match color_slot_spec(name) {
            None => Err(quoted("unknown theme color '"@, name, "'"@)),
            Some(slot) => match parse_color_spec(value) {
                None => Err(quoted("theme color '"@, name, "' must be #RRGGBB, got '"@) + value + "'"@),
                Some(c) => apply_colors(with_color(t, slot, c), colors.drop_first()),
            },
        }
    }
}

pub open spec fn color_entries(v: Seq<(String, String)>) -> Seq<(Seq<char>, Seq<char>)> {
    v.map_values(|e: (String, String)| (e.0@, e.1@))
}

pub open spec fn resolve_spec(preset: Preset, colors: Seq<(Seq<char>, Seq<char>)>) -> Result<Theme, Seq<char>> {
    apply_colors(
        match preset {
            Preset::Mocha => mocha(),
            Preset::Light => light(),
        },
        colors,
    )
}

fn hex_digit(c: char) -> (r: Option<u8>)
    ensures
        r == hex_value(c),
{
    if '0' <= c && c <= '9' {
        Some((c as u32 - 0x30) as u8)
    } else if 'a' <= c && c <= 'f' {
        Some((c as u32 - 0x61 + 10) as u8)
    } else if 'A' <= c && c <= 'F' {
        Some((c as u32 - 0x41 + 10) as u8)
    } else {
        None
    }
}

/// A colour written `#RRGGBB`.
pub fn parse_color(value: &str) -> (r: Option<Rgb>)
    ensures
        r == parse_color_spec(value@),
{
    if value.unicode_len() != 7 || value.get_char(0) != '#' {
        return None;
    }
    let mut digits: Vec<u8> = Vec::new();
    let mut i: usize = 1;
    while i < 7
        invariant
            1 <= i <= 7,
            value@.len() == 7,
            digits@.len() == i - 1,
            forall|k: int| 1 <= k < i ==> (#[trigger] hex_value(value@[k])) is Some && digits@[k - 1]
                == hex_value(value@[k])->0,
        decreases 7 - i,
    {
        match hex_digit(value.get_char(i)) {
            Some(d) => digits.push(d),
            None => {
                return None;
            },
        }
        i += 1;
    }
    Some((digits[0] * 16 + digits[1], digits[2] * 16 + digits[3], digits[4] * 16 + digits[5]))
}

fn color_slot(name: &str) -> (r: Option<usize>)
    ensures
        match r {
            Some(i) => color_slot_spec(name@) == Some(i as int) && i < 16,
            None => color_slot_spec(name@) is None,
        },
{
    if same_text(name, "badge_text") {
        Some(0)
    } else if same_text(name, "background") {
        Some(1)
    } else if same_text(name, "surface") {
        Some(2)
    } else if same_text(name, "surface_highlight") {
        Some(3)
    } else if same_text(name, "border") {
        Some(4)
    } else if same_text(name, "muted") {
        Some(5)
    } else if same_text(name, "foreground") {
        Some(6)
    } else if same_text(name, "error") {
        Some(7)
    } else if same_text(name, "accent") {
        Some(8)
    } else if same_text(name, "orange") {
        Some(9)
    } else if same_text(name, "warning") {
        Some(10)
    } else if same_text(name, "blue") {
        Some(11)
    } else if same_text(name, "secondary") {
        Some(12)
    } else if same_text(name, "key") {
        Some(13)
    } else if same_text(name, "purple") {
        Some(14)
    } else if same_text(name, "teal") {
        Some(15)
    } else {
        None
    }
}

fn set_color(t: Theme, slot: usize, c: Rgb) -> (r: Theme)
    requires
        slot < 16,
    ensures
        r == with_color(t, slot as int, c),
{
    let mut r = t;
    if slot == 0 {
        r.badge_text = c;
    } else if slot == 1 {
        r.background = c;
    } else if slot == 2 {
        r.surface = c;
    } else if slot == 3 {
        r.surface_highlight = c;
    } else if slot == 4 {
        r.border = c;
    } else if slot == 5 {
        r.muted = c;
    } else if slot == 6 {
        r.foreground = c;
    } else if slot == 7 {
        r.error = c;
    } else if slot == 8 {
        r.accent = c;
    } else if slot == 9 {
        r.orange = c;
    } else if slot == 10 {
        r.warning = c;
    } else if slot == 11 {
        r.blue = c;
    } else if slot == 12 {
        r.secondary = c;
    } else if slot == 13 {
        r.key = c;
    } else if slot == 14 {
        r.purple = c;
    } else {
        r.teal = c;
    }
    r
}

impl ThemeConfig {
    /// The preset with the overrides applied.
    pub fn resolve(self) -> (r: Result<Theme, String>)
        ensures
            match r {
                Ok(t) => resolve_spec(self.preset, color_entries(self.colors@)) == Ok::<Theme, Seq<char>>(t),
                Err(e) => resolve_spec(self.preset, color_entries(self.colors@)) == Err::<Theme, Seq<char>>(e@),
            },
    {
        let mut theme = match self.preset {
            Preset::Mocha => Theme::default(),
            Preset::Light => light_theme(),
        };
        let ghost all = color_entries(self.colors@);
        assert(all.skip(0) =~= all);
        let mut i: usize = 0;
        while i < self.colors.len()
            invariant
                i <= self.colors@.len(),
                all == color_entries(self.colors@),
                apply_colors(theme, all.skip(i as int)) == resolve_spec(self.preset, all),
            decreases self.colors@.len() - i,
        {
            let name = self.colors[i].0.as_str();
            let value = self.colors[i].1.as_str();
            assert(all.skip(i as int)[0] == (name@, value@));
            assert(all.skip(i as int).drop_first() =~= all.skip(i + 1));
            let slot = match color_slot(name) {
                Some(s) => s,
                None => {
                    return Err(quote("unknown theme color '", name, "'"));
                },
            };
            match parse_color(value) {
                Some(c) => {
                    theme = set_color(theme, slot, c);
                },
                None => {
                    let mut message = quote("theme color '", name, "' must be #RRGGBB, got '");
                    push_str(&mut message, value);
                    push_str(&mut message, "'");
                    return Err(message);
                },
            }
            i += 1;
        }
        assert(all.skip(i as int) =~= Seq::<(Seq<char>, Seq<char>)>::empty());
        Ok(theme)
    }
}

} // verus!
