//! The window bar on the bottom row, drawn on a copy of the child's screen.

use vstd::prelude::*;

use crate::config::decimal_text;
use crate::parser::{decimal, push_decimal};
use crate::rename::{display_width, print_all};
use crate::screen::{
    EraseMode, Screen, ScreenError, ScreenModel, char_width, erase_line_model, is_control, is_control_char,
    position_model, resize_model, restore_cursor_model, cursor_snapshot, set_origin_mode_model, valid_dimensions,
};
use crate::style::{Color, Style, plain_style};
use crate::text::{ascii_text, push_char, push_str};

verus! {

/// The rows left to panes below the bar: one less than the terminal's, at least one.
pub fn pane_rows(outer_rows: u16) -> (r: u16)
    ensures
        r == if outer_rows <= 1 {
            1
        } else {
            outer_rows - 1
        },
{
    if outer_rows <= 1 {
        1
    } else {
        outer_rows - 1
    }
}

pub open spec fn bar_style_spec(active: bool) -> Style {
    Style {
        foreground: Color::Indexed(if active { 15u8 } else { 7u8 }),
        background: Color::Indexed(if active { 4u8 } else { 8u8 }),
        bold: active,
        ..plain_style()
    }
}

/// White on blue and bold for the active window, grey on dark grey otherwise.
pub fn bar_style(active: bool) -> (r: Style)
    ensures
        r == bar_style_spec(active),
{
    Style {
        foreground: Color::Indexed(if active { 15 } else { 7 }),
        background: Color::Indexed(if active { 4 } else { 8 }),
        bold: active,
        dim: false,
        italic: false,
        underline: false,
        blink: false,
        inverse: false,
        hidden: false,
        strikethrough: false,
    }
}

/// The characters of `text` that fit in `room` columns: control characters
/// are dropped, zero-width ones are dropped until something is kept, and the
/// first character that does not fit ends the text.
pub open spec fn clip(text: Seq<char>, room: int, started: bool) -> Seq<char>
    decreases text.len(),
{
    if text.len() == 0 {
        Seq::empty()
    } else {
        let c = text[0];
        let size = display_width(c);
        if is_control_char(c) {
            clip(text.drop_first(), room, started)
        } else if size > room {
            Seq::empty()
        } else if size == 0 && !started {
            clip(text.drop_first(), room, started)
        } else {
            seq![c] + clip(text.drop_first(), room - size, true)
        }
    }
}

/// The columns `text` takes.
pub open spec fn text_width(text: Seq<char>) -> int
    decreases text.len(),
{
    if text.len() == 0 {
        0
    } else {
        display_width(text[0]) + text_width(text.drop_first())
    }
}

proof fn lemma_clip_fits(text: Seq<char>, room: int, started: bool)
    requires
        room >= 0,
    ensures
        0 <= text_width(clip(text, room, started)) <= room,
    decreases text.len(),
{
    if text.len() > 0 {
        let c = text[0];
        let size = display_width(c);
        if is_control_char(c) || (size <= room && size == 0 && !started) {
            lemma_clip_fits(text.drop_first(), room, started);
        } else if size <= room {
            lemma_clip_fits(text.drop_first(), room - size, true);
            let rest = clip(text.drop_first(), room - size, true);
            assert((seq![c] + rest).drop_first() =~= rest);
        }
    }
}

/// A window's label: ` 2:name `, with `*` before the number of the active one.
pub open spec fn label_text(index: int, active: int, name: Seq<char>) -> Seq<char> {
    " "@ + (if index == active {
        "*"@
    } else {
        ""@
    }) + decimal_text((index + 1) as nat) + ":"@ + name + " "@
}

pub open spec fn labels_of(names: Seq<Seq<char>>, active: int) -> Seq<Seq<char>> {
    Seq::new(names.len(), |i: int| clip(label_text(i, active, names[i]), 24, false))
}

/// The columns labels `s` to `a` take together.
pub open spec fn window_width(labels: Seq<Seq<char>>, s: int, a: int) -> int
    decreases a - s + 1,
{
    if s > a {
        0
    } else {
        text_width(labels[s]) + window_width(labels, s + 1, a)
    }
}

/// The first label shown: labels before the active one are dropped until the
/// ones up to the active label fit.
pub open spec fn first_shown(labels: Seq<Seq<char>>, active: int, columns: int, s: int) -> int
    decreases active - s,
{
    if s < active && window_width(labels, s, active) > columns {
        first_shown(labels, active, columns, s + 1)
    } else {
        s
    }
}

/// The labels from `index` on, each in its style, as far as `remaining` columns go.
pub open spec fn print_labels(m: ScreenModel, labels: Seq<Seq<char>>, index: int, active: int, remaining: int) -> ScreenModel
    decreases labels.len() - index,
{
    if index < 0 || index >= labels.len() {
        m
    } else {
        let styled = ScreenModel { style: bar_style_spec(index == active), ..m };
        let shown = clip(labels[index], remaining, false);
        let printed = print_all(styled, shown);
        let left = remaining - text_width(shown);
        if left <= 0 {
            printed
        } else {
            print_labels(printed, labels, index + 1, active, left)
        }
    }
}

/// The bottom row made ready for the bar: absolute positioning, replacing
/// characters, the bar style, the cursor at its start and the row cleared.
pub open spec fn prepared_row(m: ScreenModel, style: Style) -> ScreenModel {
    let reset = ScreenModel { style, ..ScreenModel { insert_mode: false, ..set_origin_mode_model(m, false) } };
    erase_line_model(position_model(reset, (m.rows - 1) as usize, 0), EraseMode::All)
}

/// The bar drawn over the bottom row of `sized`, with the cursor put back.
pub open spec fn bar_spec(sized: ScreenModel, names: Seq<Seq<char>>, active: int) -> ScreenModel {
    let saved = ScreenModel { saved_cursor: Some(cursor_snapshot(sized)), ..sized };
    let labels = labels_of(names, active);
    let start = first_shown(labels, active, sized.columns as int, 0);
    restore_cursor_model(print_labels(prepared_row(saved, bar_style_spec(false)), labels, start, active, sized.columns as int))
}

/// The child's screen grown to `outer_rows` rows, as resizing leaves it.
pub open spec fn sized_for(child: ScreenModel, outer_rows: usize) -> ScreenModel {
    if child.rows == outer_rows {
        child
    } else {
        resize_model(child, outer_rows, child.columns)
    }
}

pub fn prepare_row(screen: &mut Screen, style: Style)
    requires
        old(screen).inv(),
    ensures
        final(screen).inv(),
        final(screen)@ == prepared_row(old(screen)@, style),
{
    let (rows, _) = screen.dimensions();
    screen.set_origin_mode(false);
    screen.set_insert_mode(false);
    screen.set_style(style);
    screen.position(rows - 1, 0);
    screen.erase_line(EraseMode::All);
}

fn width_of(c: char) -> (r: usize)
    ensures
        r == display_width(c),
{
    match char_width(c) {
        Some(w) => w,
        None => 0,
    }
}

/// The part of `text` that fits in `width` columns.
pub fn clipped(text: &str, width: usize) -> (r: String)
    ensures
        r@ == clip(text@, width as int, false),
{
    let mut result = String::new();
    let mut used: usize = 0;
    let n = text.unicode_len();
    let mut i: usize = 0;
    proof {
        lemma_clip_fits(text@, width as int, false);
    }
    assert(text@.skip(0) =~= text@);
    assert(result@ =~= Seq::<char>::empty());
    while i < n
        invariant
            n == text@.len(),
            i <= n,
            used <= width,
            result@ + clip(text@.skip(i as int), width - used, result@.len() > 0) == clip(text@, width as int, false),
        decreases n - i,
    {
        let c = text.get_char(i);
        let ghost rest = text@.skip(i as int);
        assert(rest[0] == c);
        assert(rest.drop_first() =~= text@.skip(i + 1));
        if is_control(c) {
            i += 1;
            continue;
        }
        let size = width_of(c);
        if size > width - used {
            assert(clip(rest, width - used, result@.len() > 0) =~= Seq::<char>::empty());
            assert(result@ + Seq::<char>::empty() =~= result@);
            return result;
        }
        if size == 0 && result.unicode_len() == 0 {
            i += 1;
            continue;
        }
        let ghost before = result@;
        push_char(&mut result, c);
        used += size;
        assert(before + (seq![c] + clip(text@.skip(i + 1), width - used, true)) =~= result@ + clip(
            text@.skip(i + 1),
            width - used,
            true,
        ));
        i += 1;
    }
    assert(text@.skip(n as int) =~= Seq::<char>::empty());
    assert(result@ + Seq::<char>::empty() =~= result@);
    result
}

fn label_for(index: usize, active: usize, name: &str) -> (r: String)
    requires
        index < usize::MAX,
    ensures
        r@ == clip(label_text(index as int, active as int, name@), 24, false),
{
    proof {
        reveal_strlit(" ");
        reveal_strlit("*");
        reveal_strlit("");
        reveal_strlit(":");
    }
    let mut text = String::new();
    push_char(&mut text, ' ');
    if index == active {
        push_char(&mut text, '*');
    }
    let mut digits: Vec<u8> = Vec::new();
    push_decimal(&mut digits, index + 1);
    assert(digits@ =~= decimal((index + 1) as nat));
    let number = ascii_text(&digits);
    push_str(&mut text, number.as_str());
    push_char(&mut text, ':');
    push_str(&mut text, name);
    push_char(&mut text, ' ');
    assert(text@ =~= label_text(index as int, active as int, name@));
    clipped(text.as_str(), 24)
}

fn width_of_text(text: &str, bound: usize) -> (r: usize)
    requires
        text_width(text@) <= bound,
    ensures
        r == text_width(text@),
{
    let n = text.unicode_len();
    let mut total: usize = 0;
    let mut i: usize = n;
    while i > 0
        invariant
            n == text@.len(),
            i <= n,
            total == text_width(text@.skip(i as int)),
            text_width(text@) <= bound,
            total <= bound,
        decreases i,
    {
        i -= 1;
        assert(text@.skip(i as int).drop_first() =~= text@.skip(i + 1));
        proof {
            lemma_suffix_width(text@, i as int);
        }
        total = total + width_of(text.get_char(i));
    }
    assert(text@.skip(0) =~= text@);
    total
}

proof fn lemma_suffix_width(text: Seq<char>, i: int)
    requires
        0 <= i <= text.len(),
    ensures
        0 <= text_width(text.skip(i)) <= text_width(text),
    decreases i,
{
    lemma_width_nonnegative(text.skip(i));
    if i > 0 {
        lemma_suffix_width(text, i - 1);
        assert(text.skip(i - 1).drop_first() =~= text.skip(i));
        assert(text_width(text.skip(i - 1)) == display_width(text.skip(i - 1)[0]) + text_width(text.skip(i)));
    } else {
        assert(text.skip(0) =~= text);
    }
}

proof fn lemma_width_nonnegative(text: Seq<char>)
    ensures
        text_width(text) >= 0,
    decreases text.len(),
{
    if text.len() > 0 {
        lemma_width_nonnegative(text.drop_first());
    }
}

proof fn lemma_window_width_nonnegative(labels: Seq<Seq<char>>, s: int, a: int)
    requires
        0 <= s,
        a < labels.len(),
    ensures
        window_width(labels, s, a) >= 0,
    decreases a - s + 1,
{
    if s <= a {
        lemma_width_nonnegative(labels[s]);
        lemma_window_width_nonnegative(labels, s + 1, a);
    }
}

/// Whether labels `s` to `a` together take more than `columns` columns.
fn wider_than(widths: &Vec<usize>, s: usize, a: usize, columns: usize, Ghost(labels): Ghost<Seq<Seq<char>>>) -> (r: bool)
    requires
        s <= a < widths@.len(),
        widths@.len() == labels.len(),
        forall|k: int| 0 <= k < widths@.len() ==> widths@[k] == text_width(#[trigger] labels[k]),
    ensures
        r == (window_width(labels, s as int, a as int) > columns),
{
    let mut acc: usize = 0;
    let mut k: usize = s;
    assert(a < widths.len());
    while k <= a
        invariant
            s <= k <= a + 1,
            a < widths@.len(),
            widths@.len() <= usize::MAX,
            widths@.len() == labels.len(),
            forall|j: int| 0 <= j < widths@.len() ==> widths@[j] == text_width(#[trigger] labels[j]),
            acc <= columns,
            acc + window_width(labels, k as int, a as int) == window_width(labels, s as int, a as int),
        decreases a + 1 - k,
    {
        if widths[k] > columns - acc {
            proof {
                lemma_window_width_nonnegative(labels, k + 1, a as int);
            }
            return true;
        }
        acc = acc + widths[k];
        assert(k < widths@.len());
        k += 1;
    }
    false
}

/// A copy of `child` one row taller with the window bar on that row: every
/// window's label, the active one highlighted and always shown, as many as
/// fit. The child's screen is left as it is.
pub fn compose(child: &Screen, outer_rows: u16, names: &[String], active: usize) -> (r: Result<Screen, ScreenError>)
    requires
        child.inv(),
        active == 0 || active < names@.len(),
    ensures
        match r {
            Ok(s) => s.inv() && if outer_rows <= 1 {
                s@ == child@
            } else {
                &&& (child@.rows == outer_rows || valid_dimensions(outer_rows as usize, child@.columns))
                &&& s@ == bar_spec(
                    sized_for(child@, outer_rows as usize),
                    names@.map_values(|n: String| n@),
                    active as int,
                )
            },
            Err(e) => outer_rows > 1 && ((e == ScreenError::InvalidDimensions && !valid_dimensions(
                outer_rows as usize,
                child@.columns,
            )) || (e == ScreenError::AllocationFailed && valid_dimensions(outer_rows as usize, child@.columns))),
        },
{
    let mut screen = child.duplicate();
    if outer_rows <= 1 {
        return Ok(screen);
    }
    let (_, columns) = screen.dimensions();
    match screen.resize(outer_rows as usize, columns) {
        Ok(()) => {},
        Err(e) => {
            return Err(e);
        },
    }
    let ghost sized = screen@;
    let ghost views = names@.map_values(|n: String| n@);
    screen.save_cursor();
    prepare_row(&mut screen, bar_style(false));
    let mut labels: Vec<String> = Vec::new();
    let mut widths: Vec<usize> = Vec::new();
    let ghost all = labels_of(views, active as int);
    let mut i: usize = 0;
    while i < names.len()
        invariant
            i <= names@.len(),
            views == names@.map_values(|n: String| n@),
            all == labels_of(views, active as int),
            labels@.len() == i,
            widths@.len() == i,
            forall|k: int| 0 <= k < i ==> (#[trigger] labels@[k])@ == all[k],
            forall|k: int| 0 <= k < i ==> widths@[k] == text_width(#[trigger] all[k]),
        decreases names@.len() - i,
    {
        let label = label_for(i, active, names[i].as_str());
        proof {
            lemma_clip_fits(label_text(i as int, active as int, views[i as int]), 24, false);
        }
        let w = width_of_text(label.as_str(), 24);
        labels.push(label);
        widths.push(w);
        i += 1;
    }
    let ghost label_views = labels@.map_values(|l: String| l@);
    assert(label_views =~= all);
    let mut start: usize = 0;
    while start < active && wider_than(&widths, start, active, columns, Ghost(all))
        invariant
            start <= active,
            active == 0 || active < names@.len(),
            widths@.len() == names@.len(),
            all.len() == names@.len(),
            forall|k: int| 0 <= k < widths@.len() ==> widths@[k] == text_width(#[trigger] all[k]),
            first_shown(all, active as int, columns as int, 0) == first_shown(all, active as int, columns as int, start as int),
        decreases active - start,
    {
        start += 1;
    }
    let ghost prepared = screen@;
    let ghost target = print_labels(prepared, all, start as int, active as int, columns as int);
    let mut remaining = columns;
    let mut index = start;
    while index < labels.len() && remaining > 0
        invariant
            labels@.len() == all.len(),
            forall|k: int| 0 <= k < labels@.len() ==> (#[trigger] labels@[k])@ == all[k],
            screen.inv(),
            remaining == 0 ==> screen@ == target,
            remaining > 0 ==> print_labels(screen@, all, index as int, active as int, remaining as int) == target,
        decreases labels@.len() - index,
    {
        screen.set_style(bar_style(index == active));
        let shown = clipped(labels[index].as_str(), remaining);
        proof {
            lemma_clip_fits(all[index as int], remaining as int, false);
        }
        let n = shown.unicode_len();
        let ghost styled = screen@;
        let mut k: usize = 0;
        let ghost printed = shown@;
        assert(printed.skip(0) =~= printed);
        while k < n
            invariant
                n == printed.len(),
                printed == shown@,
                k <= n,
                screen.inv(),
                print_all(screen@, printed.skip(k as int)) == print_all(styled, printed),
            decreases n - k,
        {
            let c = shown.get_char(k);
            assert(printed.skip(k as int)[0] == c);
            assert(printed.skip(k as int).drop_first() =~= printed.skip(k + 1));
            screen.print(c);
            k += 1;
        }
        assert(printed.skip(n as int) =~= Seq::<char>::empty());
        let used = width_of_text(shown.as_str(), remaining);
        remaining = remaining - used;
        index += 1;
    }
    screen.restore_cursor();
    Ok(screen)
}

} // verus!
