//! Incremental UTF-8/CSI parsing for the screen model.

use vstd::prelude::*;

use crate::screen::{
    EraseMode, Screen, ScreenModel, ascii_step, delete_characters_model, delete_lines_model,
    enter_alternate_model, erase_characters_model, erase_display_model, erase_line_model,
    insert_characters_model, insert_lines_model, leave_alternate_model, line_feed_model,
    move_down_model, move_left_model, move_right_model, move_to_model, move_up_model,
    position_model, print_model, restore_cursor_model, reverse_index_model, scroll_down_model,
    scroll_up_model, set_origin_mode_model, set_scroll_region_model, cursor_snapshot,
    sat_sub, tab_model, lemma_cursor_bounds,
};
use crate::style::{Style, sgr_spec};
use crate::utf8::{Utf8Prefix, classify_utf8, utf8_prefix};
use crate::screen::{is_screen_ascii, write_ascii_model};

verus! {

/// Number of parameters kept for one control sequence.
pub const MAX_PARAMETERS: usize = 32;

/// The most reply bytes one input byte can produce: two decimal coordinates
/// plus CSI, separator and final byte of a cursor position report.
pub const MAX_REPLY_BYTES: usize = 4 + 2 * (usize::BITS as usize / 3 + 1);

/// The lexical state between bytes.
#[derive(Debug, Clone, Copy, PartialEq, Eq, Structural)]
pub enum State {
    Ground,
    Escape,
    EscapeIntermediate,
    DesignateCharacterSet { g1: bool },
    Csi,
    /// OSC, DCS, SOS, PM or APC payload, which is skipped until its terminator.
    ControlString { osc: bool, escape: bool },
}

/// Keep at most 32 parameters for combined SGR commands. Invalid or overflowing
/// parameters poison the whole command; input is consumed until its final byte.
#[derive(Debug)]
pub struct Parameters {
    values: [Option<usize>; 32],
    index: usize,
    /// True when this value continues the preceding parameter after a colon.
    subparameter: [bool; 32],
    invalid: bool,
    private: bool,
    soft_reset: bool,
    cursor_shape: bool,
}

/// The contents of a parameter list.
pub struct ParametersModel {
    pub values: Seq<Option<usize>>,
    pub index: usize,
    pub subparameter: Seq<bool>,
    pub invalid: bool,
    pub private: bool,
    pub soft_reset: bool,
    pub cursor_shape: bool,
}

impl View for Parameters {
    type V = ParametersModel;

    closed spec fn view(&self) -> ParametersModel {
        ParametersModel {
            values: self.values@,
            index: self.index,
            subparameter: self.subparameter@,
            invalid: self.invalid,
            private: self.private,
            soft_reset: self.soft_reset,
            cursor_shape: self.cursor_shape,
        }
    }
}

impl ParametersModel {
    pub open spec fn wf(self) -> bool {
        &&& self.values.len() == 32
        &&& self.subparameter.len() == 32
        &&& self.index < 32
    }

    /// Whether any parameter was introduced by a colon.
    pub open spec fn has_subparameter(self) -> bool {
        exists|i: int| 0 <= i < 32 && self.subparameter[i]
    }

    /// The parameter at `i`, where an empty parameter counts as zero.
    pub open spec fn value_or_zero(self, i: int) -> usize {
        match self.values[i] {
            Some(v) => v,
            None => 0,
        }
    }
}

/// An empty parameter list.
pub open spec fn empty_parameters() -> ParametersModel {
    ParametersModel {
        values: Seq::new(32, |i: int| None),
        index: 0,
        subparameter: Seq::new(32, |i: int| false),
        invalid: false,
        private: false,
        soft_reset: false,
        cursor_shape: false,
    }
}

impl Parameters {
    /// An empty parameter list.
    pub fn new() -> (r: Self)
        ensures
            r@ == empty_parameters(),
    {
        let r = Parameters {
            values: [None; 32],
            index: 0,
            subparameter: [false; 32],
            invalid: false,
            private: false,
            soft_reset: false,
            cursor_shape: false,
        };
        assert(r@.values =~= empty_parameters().values);
        assert(r@.subparameter =~= empty_parameters().subparameter);
        r
    }

    /// Whether the command has been rejected.
    pub fn is_invalid(&self) -> (r: bool)
        ensures
            r == self@.invalid,
    {
        self.invalid
    }

    /// Take a parameter or intermediate byte of a control sequence.
    pub fn push_byte(&mut self, byte: u8)
        requires
            old(self)@.wf(),
        ensures
            final(self)@ == parameter_byte(old(self)@, byte),
            final(self)@.wf(),
    {
        if self.soft_reset || self.cursor_shape {
            self.invalid = true;
        } else if byte == 0x20 && !self.private && self.index == 0 {
            self.cursor_shape = true;
        } else if byte == 0x21 && !self.private && self.index == 0 && self.values[0].is_none() {
            self.soft_reset = true;
        } else if 0x30 <= byte && byte <= 0x39 {
            let current = match self.values[self.index] {
                Some(v) => v,
                None => 0,
            };
            let value = match current.checked_mul(10) {
                Some(n) => n.checked_add((byte - 0x30) as usize),
                None => None,
            };
            match value {
                Some(value) => {
                    self.values[self.index] = Some(value);
                },
                None => {
                    self.invalid = true;
                },
            }
        } else if byte == 0x3f && !self.private && self.index == 0 && self.values[0].is_none() {
            self.private = true;
        } else if (byte == 0x3b || byte == 0x3a) && self.index + 1 < 32 {
            self.index += 1;
            self.subparameter[self.index] = byte == 0x3a;
        } else {
            // Other prefixes, intermediates and extra parameters are outside
            // this deliberately small subset.
            self.invalid = true;
        }
        assert(self@.values =~= parameter_byte(old(self)@, byte).values);
        assert(self@.subparameter =~= parameter_byte(old(self)@, byte).subparameter);
    }

    /// Whether any parameter was introduced by a colon.
    pub fn has_subparameter(&self) -> (r: bool)
        requires
            self@.wf(),
        ensures
            r == self@.has_subparameter(),
    {
        let mut i: usize = 0;
        while i < 32
            invariant
                i <= 32,
                self@.wf(),
                forall|j: int| 0 <= j < i ==> !self@.subparameter[j],
            decreases 32 - i,
        {
            if self.subparameter[i] {
                return true;
            }
            i += 1;
        }
        false
    }

    /// The style an SGR command with these parameters produces, or None
    /// when a malformed group rejects the whole command.
    pub fn sgr(&self, initial: Style) -> (r: Option<Style>)
        requires
            self@.wf(),
        ensures
            r == parameters_sgr(self@, initial),
    {
        let len = self.index + 1;
        let ghost values = self@.values;
        let ghost sub = self@.subparameter;
        let mut style = initial;
        let mut start: usize = 0;
        while start < len
            invariant
                self@.wf(),
                len == self.index + 1,
                values == self@.values,
                sub == self@.subparameter,
                start <= len,
                parameters_sgr(self@, initial) == sgr_groups(values, sub, len as int, start as int, style),
            decreases len - start,
        {
            let mut end = start + 1;
            if end < len && self.subparameter[end] {
                while end < len && self.subparameter[end]
                    invariant
                        self@.wf(),
                        len == self.index + 1,
                        sub == self@.subparameter,
                        start + 1 <= end <= len,
                        subgroup_end(sub, len as int, start + 1) == subgroup_end(sub, len as int, end as int),
                    decreases len - end,
                {
                    end += 1;
                }
                let group = &self.values[start..end];
                assert(group@ == values.subrange(start as int, end as int));
                let code = group[0];
                if code == Some(38usize) || code == Some(48usize) || code == Some(58usize) {
                    // Kitty omits the color-space slot; accept an empty or zero
                    // slot too. Keep group boundaries so components never become SGR codes.
                    let n = group.len();
                    let next = if n == 3 && group[1] == Some(5usize) && group[2].is_some() {
                        style.sgr(group)
                    } else if n == 5 && group[1] == Some(2usize) && group[2].is_some() && group[3].is_some()
                        && group[4].is_some() {
                        style.sgr(group)
                    } else if n == 6 && group[1] == Some(2usize) && (group[2].is_none() || group[2]
                        == Some(0usize)) && group[3].is_some() && group[4].is_some() && group[5].is_some() {
                        let normalized = [group[0], Some(2usize), group[3], group[4], group[5]];
                        assert(normalized@ =~= seq![group@[0], Some(2usize), group@[3], group@[4], group@[5]]);
                        style.sgr(&normalized)
                    } else {
                        None
                    };
                    match next {
                        Some(next) => {
                            style = next;
                        },
                        None => {
                            return None;
                        },
                    }
                }
                // Unsupported subparameter groups (for example 4:3) are ignored
                // as a unit, without treating their values as separate attributes.
            } else {
                while end < len && !(end + 1 < len && self.subparameter[end + 1])
                    invariant
                        self@.wf(),
                        len == self.index + 1,
                        sub == self@.subparameter,
                        start + 1 <= end <= len,
                        plain_end(sub, len as int, start + 1) == plain_end(sub, len as int, end as int),
                    decreases len - end,
                {
                    end += 1;
                }
                let group = &self.values[start..end];
                assert(group@ == values.subrange(start as int, end as int));
                match style.sgr(group) {
                    Some(next) => {
                        style = next;
                    },
                    None => {
                        return None;
                    },
                }
            }
            start = end;
        }
        Some(style)
    }
}

/// Retain one parser per output stream and feed chunks in order into its Screen.
/// Incomplete sequences survive calls. Storage is constant even for hostile input.
/// Invalid UTF-8 is replaced; unsupported commands are ignored. This is not a full VT parser.
#[derive(Debug)]
pub struct Parser {
    state: State,
    parameters: Parameters,
    utf8: [u8; 4],
    utf8_len: usize,
}

/// The state of a parser between bytes.
pub struct ParserModel {
    pub state: State,
    pub parameters: ParametersModel,
    /// The buffered prefix of an incomplete UTF-8 scalar.
    pub utf8: Seq<u8>,
}

impl View for Parser {
    type V = ParserModel;

    closed spec fn view(&self) -> ParserModel {
        ParserModel {
            state: self.state,
            parameters: self.parameters@,
            utf8: self.utf8@.subrange(0, self.utf8_len as int),
        }
    }
}

impl ParserModel {
    /// A parser holds at most three buffered bytes, always an incomplete scalar.
    pub open spec fn wf(self) -> bool {
        &&& self.parameters.wf()
        &&& self.utf8.len() < 4
        &&& self.utf8.len() > 0 ==> utf8_prefix(self.utf8) == Utf8Prefix::Incomplete
    }
}

/// A freshly created parser.
pub open spec fn initial_parser() -> ParserModel {
    ParserModel { state: State::Ground, parameters: empty_parameters(), utf8: Seq::empty() }
}

/// The effect of one byte: the new parser and screen, the reply bytes, and the
/// bytes to process again before the rest of the input (after invalid UTF-8).
pub struct Step {
    pub parser: ParserModel,
    pub screen: ScreenModel,
    pub replies: Seq<u8>,
    pub requeue: Seq<u8>,
}

pub open spec fn quiet(parser: ParserModel, screen: ScreenModel) -> Step {
    Step { parser, screen, replies: Seq::empty(), requeue: Seq::empty() }
}

pub open spec fn with_state(p: ParserModel, state: State) -> ParserModel {
    ParserModel { state, ..p }
}

/// Decode one more byte of UTF-8 text.
pub open spec fn text_step(p: ParserModel, s: ScreenModel, b: u8) -> Step {
    let buffer = p.utf8.push(b);
    let emptied = ParserModel { utf8: Seq::empty(), ..p };
    match utf8_prefix(buffer) {
        Utf8Prefix::Complete(c) => quiet(emptied, print_model(s, c)),
        Utf8Prefix::Incomplete => quiet(ParserModel { utf8: buffer, ..p }, s),
        Utf8Prefix::Invalid(n) => Step {
            parser: emptied,
            screen: print_model(s, '\u{fffd}'),
            replies: Seq::empty(),
            // Reprocess bytes after the invalid prefix: an ESC or ASCII
            // character here must retain its ordinary meaning.
            requeue: buffer.subrange(n as int, buffer.len() as int),
        },
    }
}

/// The byte is a parameter byte (0x30..=0x3f) or intermediate (0x20..=0x2f) of a CSI.
pub open spec fn parameter_byte(params: ParametersModel, b: u8) -> ParametersModel {
    if params.soft_reset || params.cursor_shape {
        ParametersModel { invalid: true, ..params }
    } else if b == 0x20 && !params.private && params.index == 0 {
        ParametersModel { cursor_shape: true, ..params }
    } else if b == 0x21 && !params.private && params.index == 0 && params.values[0] is None {
        ParametersModel { soft_reset: true, ..params }
    } else if 0x30 <= b <= 0x39 {
        let value = params.value_or_zero(params.index as int) * 10 + (b - 0x30);
        if value <= usize::MAX {
            ParametersModel { values: params.values.update(params.index as int, Some(value as usize)), ..params }
        } else {
            ParametersModel { invalid: true, ..params }
        }
    } else if b == 0x3f && !params.private && params.index == 0 && params.values[0] is None {
        ParametersModel { private: true, ..params }
    } else if (b == 0x3b || b == 0x3a) && params.index + 1 < 32 {
        ParametersModel {
            index: (params.index + 1) as usize,
            subparameter: params.subparameter.update(params.index + 1, b == 0x3a),
            ..params
        }
    } else {
        ParametersModel { invalid: true, ..params }
    }
}

/// The end of a run of colon subparameters starting at `e`.
pub open spec fn subgroup_end(sub: Seq<bool>, len: int, e: int) -> int
    decreases len - e,
{
    if e < len && sub[e] {
        subgroup_end(sub, len, e + 1)
    } else {
        e
    }
}

/// The end of a run of plain parameters: it stops before a parameter that
/// starts a colon group.
pub open spec fn plain_end(sub: Seq<bool>, len: int, e: int) -> int
    decreases len - e,
{
    if e < len && !(e + 1 < len && sub[e + 1]) {
        plain_end(sub, len, e + 1)
    } else {
        e
    }
}

pub proof fn lemma_subgroup_end(sub: Seq<bool>, len: int, e: int)
    requires
        e <= len,
    ensures
        e <= subgroup_end(sub, len, e) <= len,
    decreases len - e,
{
    if e < len && sub[e] {
        lemma_subgroup_end(sub, len, e + 1);
    }
}

pub proof fn lemma_plain_end(sub: Seq<bool>, len: int, e: int)
    requires
        e <= len,
    ensures
        e <= plain_end(sub, len, e) <= len,
    decreases len - e,
{
    if e < len && !(e + 1 < len && sub[e + 1]) {
        lemma_plain_end(sub, len, e + 1);
    }
}

/// A colon group for an extended color in the forms the SGR code accepts.
/// Kitty omits the color-space slot; an empty or zero slot is dropped too.
pub open spec fn normalized_group(g: Seq<Option<usize>>) -> Option<Seq<Option<usize>>> {
    if g.len() == 3 && g[1] == Some(5usize) && g[2] is Some {
        Some(g)
    } else if g.len() == 5 && g[1] == Some(2usize) && g[2] is Some && g[3] is Some && g[4] is Some {
        Some(g)
    } else if g.len() == 6 && g[1] == Some(2usize) && (g[2] is None || g[2] == Some(0usize)) && g[3] is Some
        && g[4] is Some && g[5] is Some {
        Some(seq![g[0], Some(2usize), g[3], g[4], g[5]])
    } else {
        None
    }
}

/// Apply the parameter groups from `start` on; a malformed group rejects the command.
pub open spec fn sgr_groups(values: Seq<Option<usize>>, sub: Seq<bool>, len: int, start: int, style: Style) -> Option<
    Style,
>
    decreases len - start,
{
    if start < 0 || start >= len {
        Some(style)
    } else if start + 1 < len && sub[start + 1] {
        let end = subgroup_end(sub, len, start + 1);
        proof {
            lemma_subgroup_end(sub, len, start + 1);
        }
        let group = values.subrange(start, end);
        let code = group[0];
        let next = if code == Some(38usize) || code == Some(48usize) || code == Some(58usize) {
            match normalized_group(group) {
                Some(color) => sgr_spec(style, color),
                None => None,
            }
        } else {
            // Unsupported subparameter groups (for example 4:3) are ignored as a unit.
            Some(style)
        };
        match next {
            Some(next) => sgr_groups(values, sub, len, end, next),
            None => None,
        }
    } else {
        let end = plain_end(sub, len, start + 1);
        proof {
            lemma_plain_end(sub, len, start + 1);
        }
        match sgr_spec(style, values.subrange(start, end)) {
            Some(next) => sgr_groups(values, sub, len, end, next),
            None => None,
        }
    }
}

/// The style an SGR command produces, or None when it is rejected.
pub open spec fn parameters_sgr(params: ParametersModel, style: Style) -> Option<Style> {
    sgr_groups(params.values, params.subparameter, params.index + 1, 0, style)
}

/// Apply DEC private modes in order: origin (6), cursor visibility (25) and
/// the alternate screen (1049). Other private modes are not modelled.
pub open spec fn private_modes(s: ScreenModel, modes: Seq<Option<usize>>, enable: bool) -> ScreenModel
    decreases modes.len(),
{
    if modes.len() == 0 {
        s
    } else {
        let before = private_modes(s, modes.drop_last(), enable);
        let mode = modes.last();
        if mode == Some(6usize) {
            set_origin_mode_model(before, enable)
        } else if mode == Some(25usize) {
            ScreenModel { cursor_visible: enable, ..before }
        } else if mode == Some(1049usize) {
            if enable {
                enter_alternate_model(before)
            } else {
                leave_alternate_model(before)
            }
        } else {
            before
        }
    }
}

/// ANSI modes in order: only insert mode (4) is modelled.
pub open spec fn ansi_modes(s: ScreenModel, modes: Seq<Option<usize>>, enable: bool) -> ScreenModel
    decreases modes.len(),
{
    if modes.len() == 0 {
        s
    } else {
        let before = ansi_modes(s, modes.drop_last(), enable);
        if modes.last() == Some(4usize) {
            ScreenModel { insert_mode: enable, ..before }
        } else {
            before
        }
    }
}

/// The decimal digits of `n`.
pub open spec fn decimal(n: nat) -> Seq<u8>
    decreases n,
{
    if n < 10 {
        seq![(48 + n) as u8]
    } else {
        decimal(n / 10).push((48 + n % 10) as u8)
    }
}

/// CPR: the cursor position, one-based and relative to the origin.
pub open spec fn cursor_report(s: ScreenModel) -> Seq<u8> {
    let row = if s.origin_mode {
        sat_sub(s.row, s.scroll_region.top)
    } else {
        s.row
    };
    seq![0x1bu8, 0x5bu8] + decimal((row + 1) as nat) + seq![0x3bu8] + decimal((s.column + 1) as nat) + seq![
        0x52u8,
    ]
}

pub open spec fn max1(v: usize) -> usize {
    if v < 1 {
        1
    } else {
        v
    }
}

/// The screen operation and replies of a complete control sequence.
pub open spec fn dispatch(s: ScreenModel, params: ParametersModel, command: u8) -> (ScreenModel, Seq<u8>) {
    let first = params.value_or_zero(0);
    let second = params.value_or_zero(1);
    if params.cursor_shape || params.soft_reset {
        // Cursor shapes and soft reset are not modelled by this screen.
        (s, Seq::empty())
    } else if params.private {
        if !params.has_subparameter() && (command == 0x68 || command == 0x6c) {
            (private_modes(s, params.values.subrange(0, params.index + 1), command == 0x68), Seq::empty())
        } else {
            (s, Seq::empty())
        }
    } else if command == 0x6d {
        match parameters_sgr(params, s.style) {
            Some(style) => (ScreenModel { style, ..s }, Seq::empty()),
            None => (s, Seq::empty()),
        }
    } else if params.has_subparameter() {
        (s, Seq::empty())
    } else if command == 0x68 || command == 0x6c {
        (ansi_modes(s, params.values.subrange(0, params.index + 1), command == 0x68), Seq::empty())
    } else if command == 0x72 {
        if params.index <= 1 {
            let bottom = if second == 0 {
                s.rows
            } else {
                second
            };
            (set_scroll_region_model(s, (max1(first) - 1) as usize, (bottom - 1) as usize), Seq::empty())
        } else {
            (s, Seq::empty())
        }
    } else if command == 0x48 || command == 0x66 {
        // CUP/HVP are one-based; omitted and zero coordinates mean one.
        if params.index > 1 {
            (s, Seq::empty())
        } else {
            (position_model(s, sat_sub(first, 1), sat_sub(second, 1)), Seq::empty())
        }
    } else if params.index != 0 {
        (s, Seq::empty())
    } else if command == 0x6e {
        if first == 5 {
            (s, seq![0x1bu8, 0x5bu8, 0x30u8, 0x6eu8])
        } else if first == 6 {
            (s, cursor_report(s))
        } else {
            (s, Seq::empty())
        }
    } else {
        (dispatch_simple(s, command, first), Seq::empty())
    }
}

/// CUP and HVP (`CSI r ; c H`, `CSI r ; c f`) position the cursor one-based,
/// an omitted or zero coordinate meaning 1, and reply nothing; with more than
/// two parameters they leave the screen as it is.
pub proof fn cursor_position_is_one_based(s: ScreenModel, params: ParametersModel, command: u8)
    requires
        command == 0x48 || command == 0x66,
        !params.private,
        !params.soft_reset,
        !params.cursor_shape,
        !params.has_subparameter(),
    ensures
        dispatch(s, params, command) == if params.index <= 1 {
            (
                position_model(s, sat_sub(params.value_or_zero(0), 1), sat_sub(params.value_or_zero(1), 1)),
                Seq::<u8>::empty(),
            )
        } else {
            (s, Seq::<u8>::empty())
        },
{
}

/// Commands with one optional count or mode parameter.
pub open spec fn dispatch_simple(s: ScreenModel, command: u8, first: usize) -> ScreenModel {
    if command == 0x41 {
        move_up_model(s, max1(first))
    } else if command == 0x42 {
        move_down_model(s, max1(first))
    } else if command == 0x43 {
        move_right_model(s, max1(first))
    } else if command == 0x44 {
        move_left_model(s, max1(first))
    } else if command == 0x47 || command == 0x60 {
        move_to_model(s, s.row, sat_sub(first, 1))
    } else if command == 0x64 {
        position_model(s, sat_sub(first, 1), s.column)
    } else if command == 0x45 {
        let moved = move_down_model(s, max1(first));
        move_to_model(moved, moved.row, 0)
    } else if command == 0x46 {
        let moved = move_up_model(s, max1(first));
        move_to_model(moved, moved.row, 0)
    } else if command == 0x40 {
        insert_characters_model(s, max1(first))
    } else if command == 0x50 {
        delete_characters_model(s, max1(first))
    } else if command == 0x58 {
        erase_characters_model(s, max1(first))
    } else if command == 0x4c {
        insert_lines_model(s, max1(first))
    } else if command == 0x4d {
        delete_lines_model(s, max1(first))
    } else if command == 0x53 {
        scroll_up_model(s, max1(first))
    } else if command == 0x54 {
        scroll_down_model(s, max1(first))
    } else if command == 0x4a || command == 0x4b {
        let mode = if first == 0 {
            Some(EraseMode::ToEnd)
        } else if first == 1 {
            Some(EraseMode::ToStart)
        } else if first == 2 {
            Some(EraseMode::All)
        } else {
            None
        };
        match mode {
            Some(mode) => if command == 0x4a {
                erase_display_model(s, mode)
            } else {
                erase_line_model(s, mode)
            },
            None => s,
        }
    } else {
        // Tab stops (I, Z, g) and other commands are not modelled.
        s
    }
}

/// A byte after ESC.
pub open spec fn escape_step(p: ParserModel, s: ScreenModel, b: u8) -> Step {
    if b == 0x3d || b == 0x3e {
        quiet(with_state(p, State::Ground), s)
    } else if b == 0x63 {
        // RIS: the parser starts over; screen reset is not modelled.
        quiet(initial_parser(), s)
    } else if b == 0x28 || b == 0x29 {
        quiet(with_state(p, State::DesignateCharacterSet { g1: b == 0x29 }), s)
    } else if b == 0x48 {
        quiet(with_state(p, State::Ground), s)
    } else if b == 0x44 || b == 0x45 {
        let fed = line_feed_model(s);
        let s2 = if b == 0x45 {
            move_to_model(fed, fed.row, 0)
        } else {
            fed
        };
        quiet(with_state(p, State::Ground), s2)
    } else if b == 0x4d {
        quiet(with_state(p, State::Ground), reverse_index_model(s))
    } else if b == 0x37 {
        quiet(with_state(p, State::Ground), ScreenModel { saved_cursor: Some(cursor_snapshot(s)), ..s })
    } else if b == 0x38 {
        quiet(with_state(p, State::Ground), restore_cursor_model(s))
    } else if b == 0x5b {
        quiet(ParserModel { state: State::Csi, parameters: empty_parameters(), ..p }, s)
    } else if b == 0x5d || b == 0x50 || b == 0x58 || b == 0x5e || b == 0x5f {
        quiet(with_state(p, State::ControlString { osc: b == 0x5d, escape: false }), s)
    } else if 0x20 <= b <= 0x2f {
        quiet(with_state(p, State::EscapeIntermediate), s)
    } else {
        quiet(with_state(p, State::Ground), s)
    }
}

/// A byte inside a control sequence.
pub open spec fn csi_step(p: ParserModel, s: ScreenModel, b: u8) -> Step {
    if 0x40 <= b <= 0x7e {
        if !p.parameters.invalid {
            let (s2, replies) = dispatch(s, p.parameters, b);
            Step { parser: with_state(p, State::Ground), screen: s2, replies, requeue: Seq::empty() }
        } else {
            quiet(with_state(p, State::Ground), s)
        }
    } else if p.parameters.invalid {
        quiet(p, s)
    } else {
        quiet(ParserModel { parameters: parameter_byte(p.parameters, b), ..p }, s)
    }
}

/// The effect of one input byte.
#[verifier::opaque]
pub open spec fn step(p: ParserModel, s: ScreenModel, b: u8) -> Step {
    if p.utf8.len() != 0 {
        text_step(p, s, b)
    } else if b == 0x18 || b == 0x1a {
        // CAN and SUB cancel any incomplete sequence, including strings.
        quiet(with_state(p, State::Ground), s)
    } else if p.state is ControlString {
        // OSC accepts BEL or ST (ESC backslash); other strings require ST.
        let osc = p.state->osc;
        let escape = p.state->escape;
        if (osc && b == 7) || (escape && b == 0x5c) {
            quiet(with_state(p, State::Ground), s)
        } else {
            quiet(with_state(p, State::ControlString { osc, escape: b == 0x1b }), s)
        }
    } else if b == 0x1b {
        quiet(with_state(p, State::Escape), s)
    } else if b == 0x0e || b == 0x0f {
        // Character-set shifts are not modelled.
        quiet(p, s)
    } else if b == 9 {
        quiet(p, tab_model(s))
    } else if b == 8 || b == 10 || b == 13 {
        // Supported C0 controls execute inside ESC/CSI without ending the sequence.
        quiet(p, ascii_step(s, b))
    } else if b < 0x20 || b == 0x7f {
        quiet(p, s)
    } else {
        match p.state {
            State::Ground => if b < 0x80 {
                quiet(p, print_model(s, b as char))
            } else {
                text_step(p, s, b)
            },
            State::Escape => escape_step(p, s, b),
            State::DesignateCharacterSet { .. } | State::EscapeIntermediate => if 0x20 <= b <= 0x2f {
                quiet(with_state(p, State::EscapeIntermediate), s)
            } else {
                quiet(with_state(p, State::Ground), s)
            },
            State::Csi => csi_step(p, s, b),
            State::ControlString { .. } => quiet(p, s),
        }
    }
}

/// The result of feeding a byte sequence.
pub struct Fed {
    pub parser: ParserModel,
    pub screen: ScreenModel,
    pub replies: Seq<u8>,
}

/// A step never lengthens the pending input: the requeued and buffered bytes
/// together are at most the buffered bytes plus the byte consumed, and only a
/// step that requeues nothing keeps that total.
pub proof fn lemma_step_measure(p: ParserModel, s: ScreenModel, b: u8)
    ensures
        ({
            let st = step(p, s, b);
            &&& st.requeue.len() + st.parser.utf8.len() <= p.utf8.len() + 1
            &&& st.requeue.len() + st.parser.utf8.len() == p.utf8.len() + 1 ==> st.requeue.len() == 0
        }),
{
    reveal(step);
}

/// Feeding a non-empty queue takes its first byte, then the requeued bytes
/// before the rest.
pub proof fn lemma_feed_first(p: ParserModel, s: ScreenModel, queue: Seq<u8>)
    requires
        queue.len() > 0,
    ensures
        ({
            let st = step(p, s, queue[0]);
            let rest = feed(st.parser, st.screen, st.requeue + queue.drop_first());
            feed(p, s, queue) == Fed { parser: rest.parser, screen: rest.screen, replies: st.replies + rest.replies }
        }),
{
}

/// Process a queue of bytes in order; requeued bytes go first.
pub open spec fn feed(p: ParserModel, s: ScreenModel, queue: Seq<u8>) -> Fed
    decreases queue.len() + p.utf8.len(), queue.len(),
{
    if queue.len() == 0 {
        Fed { parser: p, screen: s, replies: Seq::empty() }
    } else {
        let st = step(p, s, queue[0]);
        proof {
            lemma_step_measure(p, s, queue[0]);
        }
        let rest = feed(st.parser, st.screen, st.requeue + queue.drop_first());
        Fed { parser: rest.parser, screen: rest.screen, replies: st.replies + rest.replies }
    }
}

/// Append the decimal digits of `n`.
pub(crate) fn push_decimal(out: &mut Vec<u8>, n: usize)
    ensures
        final(out)@ == old(out)@ + decimal(n as nat),
    decreases n,
{
    if n >= 10 {
        push_decimal(out, n / 10);
    }
    out.push((48 + n % 10) as u8);
    proof {
        if n >= 10 {
            assert(decimal(n as nat) == decimal((n / 10) as nat).push((48 + n % 10) as u8));
        }
    }
    assert(final(out)@ =~= old(out)@ + decimal(n as nat));
}

/// Apply the listed DEC private modes in order.
fn apply_private_modes(screen: &mut Screen, parameters: &Parameters, enable: bool)
    requires
        old(screen).inv(),
        parameters@.wf(),
    ensures
        final(screen).inv(),
        final(screen)@ == private_modes(
            old(screen)@,
            parameters@.values.subrange(0, parameters@.index + 1),
            enable,
        ),
{
    let ghost start = screen@;
    let mut k: usize = 0;
    while k <= parameters.index
        invariant
            parameters@.wf(),
            k <= parameters@.index + 1,
            screen.inv(),
            screen@ == private_modes(start, parameters@.values.subrange(0, k as int), enable),
        decreases parameters@.index + 1 - k,
    {
        let mode = parameters.values[k];
        let ghost before = screen@;
        if mode == Some(6usize) {
            screen.set_origin_mode(enable);
        } else if mode == Some(25usize) {
            screen.set_cursor_visible(enable);
        } else if mode == Some(1049usize) {
            if enable {
                screen.enter_alternate();
            } else {
                screen.leave_alternate();
            }
        }
        proof {
            let next = parameters@.values.subrange(0, k + 1);
            assert(next.drop_last() =~= parameters@.values.subrange(0, k as int));
            assert(next.last() == mode);
        }
        k += 1;
    }
}

/// Apply the listed ANSI modes in order.
fn apply_ansi_modes(screen: &mut Screen, parameters: &Parameters, enable: bool)
    requires
        old(screen).inv(),
        parameters@.wf(),
    ensures
        final(screen).inv(),
        final(screen)@ == ansi_modes(old(screen)@, parameters@.values.subrange(0, parameters@.index + 1), enable),
{
    let ghost start = screen@;
    let mut k: usize = 0;
    while k <= parameters.index
        invariant
            parameters@.wf(),
            k <= parameters@.index + 1,
            screen.inv(),
            screen@ == ansi_modes(start, parameters@.values.subrange(0, k as int), enable),
        decreases parameters@.index + 1 - k,
    {
        let mode = parameters.values[k];
        if mode == Some(4usize) {
            screen.set_insert_mode(enable);
        }
        proof {
            let next = parameters@.values.subrange(0, k + 1);
            assert(next.drop_last() =~= parameters@.values.subrange(0, k as int));
            assert(next.last() == mode);
        }
        k += 1;
    }
}

/// Commands with one optional count or mode parameter.
fn apply_simple(screen: &mut Screen, command: u8, first: usize)
    requires
        old(screen).inv(),
    ensures
        final(screen).inv(),
        final(screen)@ == dispatch_simple(old(screen)@, command, first),
{
    let count = if first < 1 {
        1
    } else {
        first
    };
    if command == 0x41 {
        screen.move_up(count);
    } else if command == 0x42 {
        screen.move_down(count);
    } else if command == 0x43 {
        screen.move_right(count);
    } else if command == 0x44 {
        screen.move_left(count);
    } else if command == 0x47 || command == 0x60 {
        let row = screen.cursor().0;
        screen.move_to(row, first.saturating_sub(1));
    } else if command == 0x64 {
        screen.position_row(first.saturating_sub(1));
    } else if command == 0x45 {
        screen.move_down(count);
        let row = screen.cursor().0;
        screen.move_to(row, 0);
    } else if command == 0x46 {
        screen.move_up(count);
        let row = screen.cursor().0;
        screen.move_to(row, 0);
    } else if command == 0x40 {
        screen.insert_characters(count);
    } else if command == 0x50 {
        screen.delete_characters(count);
    } else if command == 0x58 {
        screen.erase_characters(count);
    } else if command == 0x4c {
        screen.insert_lines(count);
    } else if command == 0x4d {
        screen.delete_lines(count);
    } else if command == 0x53 {
        screen.scroll_up(count);
    } else if command == 0x54 {
        screen.scroll_down(count);
    } else if command == 0x4a || command == 0x4b {
        let mode = if first == 0 {
            Some(EraseMode::ToEnd)
        } else if first == 1 {
            Some(EraseMode::ToStart)
        } else if first == 2 {
            Some(EraseMode::All)
        } else {
            None
        };
        if let Some(mode) = mode {
            if command == 0x4a {
                screen.erase_display(mode);
            } else {
                screen.erase_line(mode);
            }
        }
    }
}

/// Execute a complete control sequence, appending any reply.
fn apply_dispatch(screen: &mut Screen, parameters: &Parameters, command: u8, replies: &mut Vec<u8>)
    requires
        old(screen).inv(),
        parameters@.wf(),
    ensures
        final(screen).inv(),
        final(screen)@ == dispatch(old(screen)@, parameters@, command).0,
        final(replies)@ == old(replies)@ + dispatch(old(screen)@, parameters@, command).1,
{
    let first = match parameters.values[0] {
        Some(v) => v,
        None => 0,
    };
    let second = match parameters.values[1] {
        Some(v) => v,
        None => 0,
    };
    if parameters.cursor_shape || parameters.soft_reset {
        assert(replies@ =~= old(replies)@ + Seq::<u8>::empty());
        return;
    }
    if parameters.private {
        if !parameters.has_subparameter() && (command == 0x68 || command == 0x6c) {
            apply_private_modes(screen, parameters, command == 0x68);
        }
        assert(replies@ =~= old(replies)@ + Seq::<u8>::empty());
        return;
    }
    if command == 0x6d {
        if let Some(style) = parameters.sgr(screen.style()) {
            screen.set_style(style);
        }
        assert(replies@ =~= old(replies)@ + Seq::<u8>::empty());
        return;
    }
    if parameters.has_subparameter() {
        assert(replies@ =~= old(replies)@ + Seq::<u8>::empty());
        return;
    }
    assert(replies@ =~= old(replies)@ + Seq::<u8>::empty());
    if command == 0x68 || command == 0x6c {
        apply_ansi_modes(screen, parameters, command == 0x68);
    } else if command == 0x72 {
        if parameters.index <= 1 {
            let bottom = if second == 0 {
                screen.dimensions().0
            } else {
                second
            };
            let top = if first < 1 {
                1
            } else {
                first
            };
            screen.set_scroll_region(top - 1, bottom - 1);
        }
    } else if command == 0x48 || command == 0x66 {
        // CUP/HVP are one-based; omitted and zero coordinates mean one.
        if parameters.index <= 1 {
            screen.position(first.saturating_sub(1), second.saturating_sub(1));
        }
    } else if parameters.index != 0 {
    } else if command == 0x6e {
        if first == 5 {
            replies.push(0x1b);
            replies.push(0x5b);
            replies.push(0x30);
            replies.push(0x6e);
            assert(replies@ =~= old(replies)@ + seq![0x1bu8, 0x5bu8, 0x30u8, 0x6eu8]);
        } else if first == 6 {
            let (row, column) = screen.cursor();
            let row = if screen.origin_mode() {
                row.saturating_sub(screen.scroll_region().0)
            } else {
                row
            };
            proof {
                lemma_cursor_bounds(screen@);
            }
            replies.push(0x1b);
            replies.push(0x5b);
            push_decimal(replies, row + 1);
            replies.push(0x3b);
            push_decimal(replies, column + 1);
            replies.push(0x52);
            assert(replies@ =~= old(replies)@ + cursor_report(old(screen)@));
        }
    } else {
        apply_simple(screen, command, first);
    }
}

/// Feeding a stream in two chunks leaves the parser and screen as feeding it
/// whole does, and produces the same replies in the same order: incomplete
/// sequences survive between calls.
pub proof fn chunked_input_parses_like_whole_input(p: ParserModel, s: ScreenModel, a: Seq<u8>, b: Seq<u8>)
    ensures
        ({
            let first = feed(p, s, a);
            let second = feed(first.parser, first.screen, b);
            let whole = feed(p, s, a + b);
            &&& whole.parser == second.parser
            &&& whole.screen == second.screen
            &&& whole.replies == first.replies + second.replies
        }),
    decreases a.len() + p.utf8.len(), a.len(),
{
    if a.len() == 0 {
        assert(a + b =~= b);
        assert(feed(p, s, a).replies + feed(p, s, b).replies =~= feed(p, s, b).replies);
    } else {
        lemma_step_measure(p, s, a[0]);
        let st = step(p, s, a[0]);
        let rest = st.requeue + a.drop_first();
        chunked_input_parses_like_whole_input(st.parser, st.screen, rest, b);
        lemma_feed_first(p, s, a);
        lemma_feed_first(p, s, a + b);
        assert((a + b)[0] == a[0]);
        assert(st.requeue + (a + b).drop_first() =~= rest + b);
        let first = feed(p, s, a);
        let tail = feed(st.parser, st.screen, rest);
        let second = feed(first.parser, first.screen, b);
        assert(first.replies + second.replies =~= st.replies + (tail.replies + second.replies));
    }
}

/// Two parsers in the same state, holding the same UTF-8 prefix and, inside a
/// control sequence, the same parameters: what else they hold is never read again.
pub open spec fn same_behaviour(p: ParserModel, q: ParserModel) -> bool {
    &&& p.state == q.state
    &&& p.utf8 == q.utf8
    &&& p.state is Csi ==> p.parameters == q.parameters
}

proof fn lemma_step_alike(p: ParserModel, q: ParserModel, s: ScreenModel, b: u8)
    requires
        same_behaviour(p, q),
    ensures
        step(p, s, b).screen == step(q, s, b).screen,
        step(p, s, b).replies == step(q, s, b).replies,
        step(p, s, b).requeue == step(q, s, b).requeue,
        same_behaviour(step(p, s, b).parser, step(q, s, b).parser),
{
    reveal(step);
}

proof fn lemma_feed_alike(p: ParserModel, q: ParserModel, s: ScreenModel, queue: Seq<u8>)
    requires
        same_behaviour(p, q),
    ensures
        feed(p, s, queue).screen == feed(q, s, queue).screen,
        feed(p, s, queue).replies == feed(q, s, queue).replies,
        same_behaviour(feed(p, s, queue).parser, feed(q, s, queue).parser),
    decreases queue.len() + p.utf8.len(), queue.len(),
{
    if queue.len() > 0 {
        lemma_step_alike(p, q, s, queue[0]);
        lemma_step_measure(p, s, queue[0]);
        let sp = step(p, s, queue[0]);
        let sq = step(q, s, queue[0]);
        lemma_feed_alike(sp.parser, sq.parser, sp.screen, sp.requeue + queue.drop_first());
    }
}

/// CAN or SUB, outside an incomplete UTF-8 character, cancels whatever
/// sequence or string was in progress without touching the screen or replying,
/// and from then on the parser treats any input exactly as a new parser does.
pub proof fn cancel_acts_as_a_new_parser(p: ParserModel, s: ScreenModel, b: u8, later: ScreenModel, rest: Seq<u8>)
    requires
        p.utf8.len() == 0,
        b == 0x18 || b == 0x1a,
    ensures
        step(p, s, b).screen == s,
        step(p, s, b).replies == Seq::<u8>::empty(),
        feed(step(p, s, b).parser, later, rest).screen == feed(initial_parser(), later, rest).screen,
        feed(step(p, s, b).parser, later, rest).replies == feed(initial_parser(), later, rest).replies,
{
    assert(step(p, s, b) == quiet(with_state(p, State::Ground), s)) by {
        reveal(step);
    }
    assert(p.utf8 =~= Seq::<u8>::empty());
    lemma_feed_alike(step(p, s, b).parser, initial_parser(), later, rest);
}

pub open spec fn pow10(d: nat) -> nat
    decreases d,
{
    if d == 0 {
        1
    } else {
        10 * pow10((d - 1) as nat)
    }
}

proof fn lemma_decimal_len(n: nat, d: nat)
    requires
        d >= 1,
        n < pow10(d),
    ensures
        decimal(n).len() <= d,
    decreases d,
{
    if n >= 10 {
        let e = (d - 1) as nat;
        assert(pow10(d) == 10 * pow10(e));
        if d == 1 {
            assert(pow10(0) == 1);
        }
        assert(n / 10 < pow10(e)) by (nonlinear_arith)
            requires
                n < 10 * pow10(e),
        ;
        lemma_decimal_len(n / 10, e);
    }
}

/// A one-based coordinate has at most `usize::BITS / 3 + 1` decimal digits.
proof fn lemma_coordinate_digits(n: nat)
    requires
        1 <= n <= usize::MAX as nat + 1,
    ensures
        decimal(n).len() <= usize::BITS as nat / 3 + 1,
{
    vstd::layout::unsigned_int_max_values();
    if usize::BITS == 64 {
        vstd::arithmetic::power2::lemma2_to64();
        vstd::arithmetic::power2::lemma2_to64_rest();
        reveal_with_fuel(pow10, 21);
        assert(pow10(20) == 100_000_000_000_000_000_000);
        lemma_decimal_len(n, 20);
    } else {
        assert(usize::BITS == 32);
        vstd::arithmetic::power2::lemma2_to64();
        reveal_with_fuel(pow10, 11);
        assert(pow10(10) == 10_000_000_000);
        lemma_decimal_len(n, 10);
    }
}

proof fn lemma_dispatch_replies(s: ScreenModel, params: ParametersModel, command: u8)
    ensures
        dispatch(s, params, command).1.len() <= MAX_REPLY_BYTES,
{
    let row = if s.origin_mode {
        sat_sub(s.row, s.scroll_region.top)
    } else {
        s.row
    };
    lemma_coordinate_digits((row + 1) as nat);
    lemma_coordinate_digits((s.column + 1) as nat);
    assert(usize::BITS == 32 || usize::BITS == 64);
}

proof fn lemma_step_replies(p: ParserModel, s: ScreenModel, b: u8)
    ensures
        step(p, s, b).replies.len() <= MAX_REPLY_BYTES,
        step(p, s, b).replies.len() > 0 ==> p.utf8.len() == 0 && step(p, s, b).requeue.len() == 0
            && step(p, s, b).parser.utf8.len() == 0,
{
    lemma_dispatch_replies(s, p.parameters, b);
    reveal(step);
}

/// However the input is cut into chunks, each byte handed to the parser (and
/// each byte of an incomplete UTF-8 character it still holds) produces at most
/// `MAX_REPLY_BYTES` reply bytes.
pub proof fn replies_are_bounded_per_input_byte(p: ParserModel, s: ScreenModel, bytes: Seq<u8>)
    ensures
        feed(p, s, bytes).replies.len() <= MAX_REPLY_BYTES * (bytes.len() + p.utf8.len()),
    decreases bytes.len() + p.utf8.len(), bytes.len(),
{
    if bytes.len() > 0 {
        let st = step(p, s, bytes[0]);
        lemma_step_measure(p, s, bytes[0]);
        lemma_step_replies(p, s, bytes[0]);
        let rest = st.requeue + bytes.drop_first();
        replies_are_bounded_per_input_byte(st.parser, st.screen, rest);
        let total = MAX_REPLY_BYTES as int;
        let before = bytes.len() + p.utf8.len();
        let after = rest.len() + st.parser.utf8.len();
        if st.replies.len() > 0 {
            assert(after + 1 == before);
        } else {
            assert(after <= before);
        }
        assert(st.replies.len() + total * after <= total * before) by (nonlinear_arith)
            requires
                total >= 0,
                st.replies.len() <= total,
                st.replies.len() > 0 ==> after + 1 == before,
                st.replies.len() == 0 ==> after <= before,
        ;
    }
}

/// What ending a stream does: an incomplete UTF-8 prefix is replaced and any
/// unfinished control sequence is discarded.
pub open spec fn finish_model(p: ParserModel, s: ScreenModel) -> (ParserModel, ScreenModel) {
    (
        ParserModel { state: State::Ground, utf8: Seq::empty(), ..p },
        if p.utf8.len() != 0 {
            print_model(s, '\u{fffd}')
        } else {
            s
        },
    )
}

impl Parser {
    /// The parser's structural invariant: at most three buffered bytes, which
    /// always form an incomplete scalar.
    pub closed spec fn inv(&self) -> bool {
        &&& self.utf8_len < 4
        &&& self@.wf()
    }

    pub fn new() -> (r: Self)
        ensures
            r@ == initial_parser(),
            r.inv(),
    {
        let r = Parser { state: State::Ground, parameters: Parameters::new(), utf8: [0u8; 4], utf8_len: 0 };
        assert(r@.utf8 =~= Seq::<u8>::empty());
        r
    }

    /// Decode one more byte of UTF-8 text.
    fn text_byte(&mut self, screen: &mut Screen, byte: u8, requeue: &mut Vec<u8>)
        requires
            old(self).inv(),
            old(screen).inv(),
        ensures
            final(self).inv(),
            final(screen).inv(),
            final(self)@ == text_step(old(self)@, old(screen)@, byte).parser,
            final(screen)@ == text_step(old(self)@, old(screen)@, byte).screen,
            final(requeue)@ == old(requeue)@ + text_step(old(self)@, old(screen)@, byte).requeue,
            text_step(old(self)@, old(screen)@, byte).replies.len() == 0,
    {
        let ghost p = self@;
        let len = self.utf8_len;
        self.utf8[len] = byte;
        self.utf8_len = len + 1;
        let ghost buffer = p.utf8.push(byte);
        assert(self.utf8@.subrange(0, len + 1) =~= buffer);
        let decoded = classify_utf8(&self.utf8[0..len + 1]);
        match decoded {
            Utf8Prefix::Complete(c) => {
                self.utf8_len = 0;
                screen.print(c);
                assert(self@.utf8 =~= Seq::<u8>::empty());
                assert(self@ =~= text_step(p, old(screen)@, byte).parser);
                assert(requeue@ =~= old(requeue)@ + Seq::<u8>::empty());
            },
            Utf8Prefix::Incomplete => {
                assert(self@ =~= text_step(p, old(screen)@, byte).parser);
                assert(requeue@ =~= old(requeue)@ + Seq::<u8>::empty());
            },
            Utf8Prefix::Invalid(n) => {
                let pending = self.utf8;
                self.utf8_len = 0;
                screen.print('\u{fffd}');
                // Reprocess bytes after the invalid prefix: an ESC or ASCII
                // character here must retain its ordinary meaning.
                let mut k = n;
                while k < len + 1
                    invariant
                        n <= k <= len + 1,
                        len + 1 <= 4,
                        pending@.subrange(0, len + 1) == buffer,
                        requeue@ == old(requeue)@ + buffer.subrange(n as int, k as int),
                    decreases len + 1 - k,
                {
                    requeue.push(pending[k]);
                    assert(buffer.subrange(n as int, k + 1) =~= buffer.subrange(n as int, k as int).push(
                        pending@[k as int],
                    ));
                    k += 1;
                }
                assert(self@.utf8 =~= Seq::<u8>::empty());
                assert(self@ =~= text_step(p, old(screen)@, byte).parser);
            },
        }
    }

    /// Take one input byte.
    fn step_byte(&mut self, screen: &mut Screen, byte: u8, replies: &mut Vec<u8>, requeue: &mut Vec<u8>)
        requires
            old(self).inv(),
            old(screen).inv(),
        ensures
            final(self).inv(),
            final(screen).inv(),
            final(self)@ == step(old(self)@, old(screen)@, byte).parser,
            final(screen)@ == step(old(self)@, old(screen)@, byte).screen,
            final(replies)@ == old(replies)@ + step(old(self)@, old(screen)@, byte).replies,
            final(requeue)@ == old(requeue)@ + step(old(self)@, old(screen)@, byte).requeue,
    {
        let ghost p = self@;
        let ghost st = step(p, old(screen)@, byte);
        proof {
            reveal(step);
        }
        if self.utf8_len != 0 {
            self.text_byte(screen, byte, requeue);
            assert(replies@ =~= old(replies)@ + st.replies);
            return;
        }
        assert(self@.utf8.len() == 0);
        if byte == 0x18 || byte == 0x1a {
            // CAN and SUB cancel any incomplete sequence, including strings.
            self.state = State::Ground;
        } else if let State::ControlString { osc, escape } = self.state {
            // OSC accepts BEL or ST (ESC backslash); other strings require ST.
            // String payload is never buffered or rendered, embedded controls included.
            self.state = if (osc && byte == 7) || (escape && byte == 0x5c) {
                State::Ground
            } else {
                State::ControlString { osc, escape: byte == 0x1b }
            };
        } else if byte == 0x1b {
            self.state = State::Escape;
        } else if byte == 0x0e || byte == 0x0f {
        } else if byte == 9 {
            screen.tab();
        } else if byte == 8 || byte == 10 || byte == 13 {
            // Supported C0 controls execute inside ESC/CSI without ending the sequence.
            let control = [byte];
            proof {
                assert(control@ =~= seq![byte]);
                assert(seq![byte].drop_last() =~= Seq::<u8>::empty());
                assert(is_screen_ascii(control@[0]));
            }
            let written = screen.write_ascii(&control);
            match written {
                Ok(()) => {
                    assert(write_ascii_model(old(screen)@, Seq::<u8>::empty()) == old(screen)@);
                    assert(seq![byte].last() == byte);
                    assert(write_ascii_model(old(screen)@, seq![byte]) == ascii_step(
                        write_ascii_model(old(screen)@, seq![byte].drop_last()),
                        seq![byte].last(),
                    ));
                },
                Err(_) => {
                    assert(false);
                },
            }
        } else if byte < 0x20 || byte == 0x7f {
        } else {
            match self.state {
                State::Ground => {
                    if byte < 0x80 {
                        screen.print(byte as char);
                    } else {
                        self.text_byte(screen, byte, requeue);
                    }
                },
                State::Escape => {
                    self.escape_byte(screen, byte);
                },
                State::DesignateCharacterSet { .. } | State::EscapeIntermediate => {
                    self.state = if 0x20 <= byte && byte <= 0x2f {
                        State::EscapeIntermediate
                    } else {
                        State::Ground
                    };
                },
                State::Csi => {
                    if 0x40 <= byte && byte <= 0x7e {
                        if !self.parameters.is_invalid() {
                            apply_dispatch(screen, &self.parameters, byte, replies);
                        }
                        self.state = State::Ground;
                    } else if !self.parameters.is_invalid() {
                        self.parameters.push_byte(byte);
                    }
                },
                State::ControlString { .. } => {},
            }
        }
        assert(self@ =~= st.parser);
        assert(replies@ =~= old(replies)@ + st.replies);
        assert(requeue@ =~= old(requeue)@ + st.requeue);
    }

    /// A byte after ESC.
    fn escape_byte(&mut self, screen: &mut Screen, byte: u8)
        requires
            old(self).inv(),
            old(self)@.utf8.len() == 0,
            old(screen).inv(),
        ensures
            final(self).inv(),
            final(screen).inv(),
            final(self)@ == escape_step(old(self)@, old(screen)@, byte).parser,
            final(screen)@ == escape_step(old(self)@, old(screen)@, byte).screen,
    {
        if byte == 0x3d || byte == 0x3e {
            self.state = State::Ground;
        } else if byte == 0x63 {
            *self = Parser::new();
        } else if byte == 0x28 || byte == 0x29 {
            self.state = State::DesignateCharacterSet { g1: byte == 0x29 };
        } else if byte == 0x48 {
            self.state = State::Ground;
        } else if byte == 0x44 || byte == 0x45 {
            screen.line_feed();
            if byte == 0x45 {
                let row = screen.cursor().0;
                screen.move_to(row, 0);
            }
            self.state = State::Ground;
        } else if byte == 0x4d {
            screen.reverse_index();
            self.state = State::Ground;
        } else if byte == 0x37 {
            screen.save_cursor();
            self.state = State::Ground;
        } else if byte == 0x38 {
            screen.restore_cursor();
            self.state = State::Ground;
        } else if byte == 0x5b {
            self.parameters = Parameters::new();
            self.state = State::Csi;
        } else if byte == 0x5d || byte == 0x50 || byte == 0x58 || byte == 0x5e || byte == 0x5f {
            self.state = State::ControlString { osc: byte == 0x5d, escape: false };
        } else if 0x20 <= byte && byte <= 0x2f {
            self.state = State::EscapeIntermediate;
        } else {
            self.state = State::Ground;
        }
        assert(self@ =~= escape_step(old(self)@, old(screen)@, byte).parser);
    }

    /// Parse for display only, discarding terminal replies.
    pub fn advance(&mut self, screen: &mut Screen, bytes: &[u8])
        requires
            old(self).inv(),
            old(screen).inv(),
        ensures
            final(self).inv(),
            final(screen).inv(),
            final(self)@ == feed(old(self)@, old(screen)@, bytes@).parser,
            final(screen)@ == feed(old(self)@, old(screen)@, bytes@).screen,
    {
        let mut replies: Vec<u8> = Vec::new();
        self.advance_with_replies(screen, bytes, &mut replies);
    }

    /// Append replies in stream order to `replies`, which the caller must
    /// deliver or consume.
    pub fn advance_with_replies(&mut self, screen: &mut Screen, bytes: &[u8], replies: &mut Vec<u8>)
        requires
            old(self).inv(),
            old(screen).inv(),
        ensures
            final(self).inv(),
            final(screen).inv(),
            final(self)@ == feed(old(self)@, old(screen)@, bytes@).parser,
            final(screen)@ == feed(old(self)@, old(screen)@, bytes@).screen,
            final(replies)@ == old(replies)@ + feed(old(self)@, old(screen)@, bytes@).replies,
    {
        let ghost total = feed(self@, screen@, bytes@);
        let ghost r0 = replies@;
        let mut pending: Vec<u8> = Vec::new();
        let mut i: usize = 0;
        assert(pending@ + bytes@.skip(0) =~= bytes@);
        while pending.len() > 0 || i < bytes.len()
            invariant
                self.inv(),
                screen.inv(),
                i <= bytes@.len(),
                feed(self@, screen@, pending@ + bytes@.skip(i as int)).parser == total.parser,
                feed(self@, screen@, pending@ + bytes@.skip(i as int)).screen == total.screen,
                r0 + total.replies == replies@ + feed(self@, screen@, pending@ + bytes@.skip(i as int)).replies,
            decreases pending@.len() + (bytes@.len() - i) + self@.utf8.len(), pending@.len() + (bytes@.len() - i),
        {
            let ghost queue = pending@ + bytes@.skip(i as int);
            let ghost p = self@;
            let ghost s = screen@;
            let ghost before = replies@;
            let byte = if pending.len() > 0 {
                pending.remove(0)
            } else {
                let b = bytes[i];
                i += 1;
                b
            };
            assert(byte == queue[0]);
            assert(pending@ + bytes@.skip(i as int) =~= queue.drop_first());
            let mut requeue: Vec<u8> = Vec::new();
            self.step_byte(screen, byte, replies, &mut requeue);
            proof {
                lemma_step_measure(p, s, byte);
                lemma_feed_first(p, s, queue);
                let st = step(p, s, byte);
                let rest = feed(st.parser, st.screen, st.requeue + queue.drop_first());
                assert(requeue@ =~= st.requeue);
                assert(r0 + total.replies =~= replies@ + rest.replies);
            }
            let ghost rest_queue = queue.drop_first();
            let ghost requeued = requeue@;
            let ghost remaining = pending@;
            assert(remaining + bytes@.skip(i as int) == rest_queue);
            requeue.append(&mut pending);
            pending = requeue;
            assert(pending@ + bytes@.skip(i as int) =~= requeued + rest_queue);
        }
        assert(pending@ + bytes@.skip(i as int) =~= Seq::<u8>::empty());
        assert(replies@ =~= r0 + total.replies);
    }

    /// End a stream, replacing an incomplete UTF-8 prefix and discarding unfinished
    /// control sequences. Do not call between chunks of the same stream.
    pub fn finish(&mut self, screen: &mut Screen)
        requires
            old(self).inv(),
            old(screen).inv(),
        ensures
            final(self).inv(),
            final(screen).inv(),
            (final(self)@, final(screen)@) == finish_model(old(self)@, old(screen)@),
    {
        if self.utf8_len != 0 {
            screen.print('\u{fffd}');
        }
        self.utf8_len = 0;
        self.state = State::Ground;
        assert(self@.utf8 =~= Seq::<u8>::empty());
        assert(self@ =~= finish_model(old(self)@, old(screen)@).0);
    }
}

} // verus!
