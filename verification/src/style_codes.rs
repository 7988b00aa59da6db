//! The SGR sequence the renderer writes for a style, read the way a terminal
//! reads it: as a list of SGR codes whose effect is exactly that style.

use vstd::prelude::*;

use crate::parser::decimal;
use crate::render::style_bytes;
use crate::style::{apply_extended, apply_simple_code, plain_style, sgr_spec, sgr_from, Color, Style};

verus! {

/// `;code` for each code, in order.
#[verifier::opaque]
pub open spec fn code_tail(codes: Seq<usize>) -> Seq<u8>
    decreases codes.len(),
{
    if codes.len() == 0 {
        Seq::empty()
    } else {
        seq![0x3bu8] + decimal(codes[0] as nat) + code_tail(codes.drop_first())
    }
}

/// `ESC [ c0 ; c1 ; … m`: an SGR command with these codes.
pub open spec fn sgr_command(codes: Seq<usize>) -> Seq<u8> {
    seq![0x1bu8, 0x5bu8] + decimal(codes[0] as nat) + code_tail(codes.drop_first()) + seq![0x6du8]
}

/// The codes as parsed parameters.
pub open spec fn as_params(codes: Seq<usize>) -> Seq<Option<usize>> {
    codes.map_values(|c: usize| Some(c))
}

proof fn lemma_tail_append(a: Seq<usize>, b: Seq<usize>)
    ensures
        code_tail(a + b) == code_tail(a) + code_tail(b),
    decreases a.len(),
{
    reveal(code_tail);
    if a.len() == 0 {
        assert(a + b =~= b);
        assert(code_tail(a) + code_tail(b) =~= code_tail(b));
    } else {
        assert((a + b).drop_first() =~= a.drop_first() + b);
        assert((a + b)[0] == a[0]);
        lemma_tail_append(a.drop_first(), b);
        assert(code_tail(a + b) =~= code_tail(a) + code_tail(b));
    }
}

pub open spec fn flag_code(on: bool, code: usize) -> Seq<usize> {
    if on {
        seq![code]
    } else {
        Seq::empty()
    }
}

pub open spec fn attribute_codes(s: Style) -> Seq<usize> {
    flag_code(s.bold, 1) + flag_code(s.dim, 2) + flag_code(s.italic, 3) + flag_code(s.underline, 4) + flag_code(
        s.blink,
        5,
    ) + flag_code(s.inverse, 7) + flag_code(s.hidden, 8) + flag_code(s.strikethrough, 9)
}

/// The codes that select a color: none for the default, `sel;5;i` for a palette
/// entry, `sel;2;r;g;b` for true color.
pub open spec fn color_codes(c: Color, selector: usize) -> Seq<usize> {
    match c {
        Color::Default => Seq::empty(),
        Color::Indexed(i) => seq![selector, 5, i as usize],
        Color::Rgb(r, g, b) => seq![selector, 2, r as usize, g as usize, b as usize],
    }
}

/// A reset, the attributes, the foreground (38) and the background (48).
pub open spec fn style_code_list(s: Style) -> Seq<usize> {
    seq![0usize] + style_tail_codes(s)
}

/// Everything after the reset.
pub open spec fn style_tail_codes(s: Style) -> Seq<usize> {
    attribute_codes(s) + color_codes(s.foreground, 38) + color_codes(s.background, 48)
}

proof fn lemma_cons(x: usize, r: Seq<usize>)
    ensures
        (seq![x] + r).drop_first() == r,
        (seq![x] + r)[0] == x,
        (seq![x] + r).len() == r.len() + 1,
{
    assert((seq![x] + r).drop_first() =~= r);
}

proof fn lemma_tail_one(c: usize)
    ensures
        code_tail(seq![c]) == seq![0x3bu8] + decimal(c as nat),
{
    reveal(code_tail);
    assert(seq![c].drop_first() =~= Seq::<usize>::empty());
    assert(code_tail(Seq::<usize>::empty()) == Seq::<u8>::empty());
    assert(seq![c][0] == c);
    assert(code_tail(seq![c]) =~= seq![0x3bu8] + decimal(c as nat));
}

proof fn lemma_flag_text(on: bool, code: usize, digit: u8)
    requires
        1 <= code <= 9,
        digit == 48 + code,
    ensures
        code_tail(flag_code(on, code)) == (if on { seq![0x3bu8, digit] } else { Seq::<u8>::empty() }),
{
    if on {
        lemma_tail_one(code);
        assert(decimal(code as nat) == seq![digit]);
        assert(seq![0x3bu8] + seq![digit] =~= seq![0x3bu8, digit]);
    } else {
        assert(code_tail(Seq::<usize>::empty()) == Seq::<u8>::empty()) by {
            reveal(code_tail);
        }
    }
}

proof fn lemma_attribute_text(s: Style)
    ensures
        code_tail(attribute_codes(s)) == crate::render::attribute_bytes(s),
{
    let p0 = flag_code(s.bold, 1);
    let p1 = flag_code(s.dim, 2);
    let p2 = flag_code(s.italic, 3);
    let p3 = flag_code(s.underline, 4);
    let p4 = flag_code(s.blink, 5);
    let p5 = flag_code(s.inverse, 7);
    let p6 = flag_code(s.hidden, 8);
    let p7 = flag_code(s.strikethrough, 9);
    lemma_tail_append(p0, p1);
    lemma_tail_append(p0 + p1, p2);
    lemma_tail_append(p0 + p1 + p2, p3);
    lemma_tail_append(p0 + p1 + p2 + p3, p4);
    lemma_tail_append(p0 + p1 + p2 + p3 + p4, p5);
    lemma_tail_append(p0 + p1 + p2 + p3 + p4 + p5, p6);
    lemma_tail_append(p0 + p1 + p2 + p3 + p4 + p5 + p6, p7);
    lemma_flag_text(s.bold, 1, 0x31);
    lemma_flag_text(s.dim, 2, 0x32);
    lemma_flag_text(s.italic, 3, 0x33);
    lemma_flag_text(s.underline, 4, 0x34);
    lemma_flag_text(s.blink, 5, 0x35);
    lemma_flag_text(s.inverse, 7, 0x37);
    lemma_flag_text(s.hidden, 8, 0x38);
    lemma_flag_text(s.strikethrough, 9, 0x39);
}

proof fn lemma_color_text(c: Color, selector: usize)
    requires
        selector < 256,
    ensures
        code_tail(color_codes(c, selector)) == crate::render::color_bytes(c, selector as u8),
{
    lemma_tail_one(5);
    lemma_tail_one(2);
    assert(decimal(5) == seq![0x35u8]);
    assert(decimal(2) == seq![0x32u8]);
    lemma_tail_one(selector);
    match c {
        Color::Default => {
            assert(code_tail(Seq::<usize>::empty()) == Seq::<u8>::empty()) by {
            reveal(code_tail);
        }
        },
        Color::Indexed(i) => {
            lemma_tail_one(i as usize);
            lemma_tail_append(seq![selector], seq![5usize]);
            lemma_tail_append(seq![selector] + seq![5usize], seq![i as usize]);
            assert(seq![selector] + seq![5usize] + seq![i as usize] =~= color_codes(c, selector));
            assert(code_tail(color_codes(c, selector)) =~= crate::render::color_bytes(c, selector as u8));
        },
        Color::Rgb(r, g, b) => {
            lemma_tail_one(r as usize);
            lemma_tail_one(g as usize);
            lemma_tail_one(b as usize);
            lemma_tail_append(seq![selector], seq![2usize]);
            lemma_tail_append(seq![selector] + seq![2usize], seq![r as usize]);
            lemma_tail_append(seq![selector] + seq![2usize] + seq![r as usize], seq![g as usize]);
            lemma_tail_append(seq![selector] + seq![2usize] + seq![r as usize] + seq![g as usize], seq![b as usize]);
            assert(seq![selector] + seq![2usize] + seq![r as usize] + seq![g as usize] + seq![b as usize] =~= color_codes(
                c,
                selector,
            ));
            assert(code_tail(color_codes(c, selector)) =~= crate::render::color_bytes(c, selector as u8));
        },
    }
}

/// The bytes of the code list are the bytes the renderer writes.
proof fn lemma_codes_text(s: Style)
    ensures
        sgr_command(style_code_list(s)) == style_bytes(s),
{
    let a = attribute_codes(s);
    let f = color_codes(s.foreground, 38);
    let g = color_codes(s.background, 48);
    let codes = style_code_list(s);
    let ta = crate::render::attribute_bytes(s);
    let tf = crate::render::color_bytes(s.foreground, 38);
    let tg = crate::render::color_bytes(s.background, 48);
    assert(code_tail(a + f + g) == ta + tf + tg) by {
        lemma_tail_append(a + f, g);
        lemma_tail_append(a, f);
        lemma_attribute_text(s);
        lemma_color_text(s.foreground, 38);
        lemma_color_text(s.background, 48);
    }
    lemma_cons(0, a + f + g);
    assert(decimal(0) == seq![0x30u8]);
    assert(sgr_command(codes) == seq![0x1bu8, 0x5bu8] + seq![0x30u8] + (ta + tf + tg) + seq![0x6du8]);
    assert(style_bytes(s) == seq![0x1bu8, 0x5b, 0x30] + ta + tf + tg + seq![0x6du8]);
    assert(seq![0x1bu8, 0x5bu8] + seq![0x30u8] + (ta + tf + tg) + seq![0x6du8] =~= seq![0x1bu8, 0x5b, 0x30] + ta + tf
        + tg + seq![0x6du8]);
}

/// Applying the simple codes `a` in order.
pub open spec fn apply_all(u: Style, a: Seq<usize>) -> Style
    decreases a.len(),
{
    if a.len() == 0 {
        u
    } else {
        apply_all(apply_simple_code(u, a[0]), a.drop_first())
    }
}

proof fn lemma_apply_all_append(u: Style, a: Seq<usize>, b: Seq<usize>)
    ensures
        apply_all(u, a + b) == apply_all(apply_all(u, a), b),
    decreases a.len(),
{
    if a.len() == 0 {
        assert(a + b =~= b);
    } else {
        assert((a + b).drop_first() =~= a.drop_first() + b);
        assert((a + b)[0] == a[0]);
        lemma_apply_all_append(apply_simple_code(u, a[0]), a.drop_first(), b);
    }
}

/// A run of simple codes at `i` is applied one after another.
proof fn lemma_simple_run(u: Style, p: Seq<Option<usize>>, i: int, a: Seq<usize>)
    requires
        codes_at(p, i, a),
        simple_codes(a),
    ensures
        sgr_from(u, p, i) == sgr_from(apply_all(u, a), p, i + a.len()),
    decreases a.len(),
{
    if a.len() > 0 {
        assert(p[i + 0] == Some(a[0]));
        assert(1 <= a[0] <= 9);
        let rest = a.drop_first();
        assert forall|k: int| 0 <= k < rest.len() implies p[i + 1 + k] == Some(#[trigger] rest[k]) by {
            assert(p[i + (k + 1)] == Some(a[k + 1]));
        }
        assert(codes_at(p, i + 1, rest));
        assert forall|k: int| 0 <= k < rest.len() implies 1 <= #[trigger] rest[k] <= 9 by {
            assert(1 <= a[k + 1] <= 9);
        }
        lemma_simple_run(apply_simple_code(u, a[0]), p, i + 1, rest);
    }
}

proof fn lemma_flag_apply(u: Style, on: bool, code: usize)
    ensures
        apply_all(u, flag_code(on, code)) == if on {
            apply_simple_code(u, code)
        } else {
            u
        },
{
    if on {
        assert(seq![code].drop_first() =~= Seq::<usize>::empty());
        assert(seq![code][0] == code);
        assert(apply_all(apply_simple_code(u, code), Seq::<usize>::empty()) == apply_simple_code(u, code));
    } else {
        assert(apply_all(u, Seq::<usize>::empty()) == u);
    }
}

/// A color's codes at `i` set the color that their introducer names.
proof fn lemma_color_run(u: Style, p: Seq<Option<usize>>, i: int, c: Color, selector: usize)
    requires
        selector == 38 || selector == 48,
        codes_at(p, i, color_codes(c, selector)),
    ensures
        sgr_from(u, p, i) == sgr_from(
            match c {
                Color::Default => u,
                _ => apply_extended(u, selector, c),
            },
            p,
            i + color_codes(c, selector).len(),
        ),
{
    match c {
        Color::Default => {},
        Color::Indexed(x) => {
            assert(p[i + 0] == Some(selector));
            assert(p[i + 1] == Some(5usize));
            assert(p[i + 2] == Some(x as usize));
        },
        Color::Rgb(r, g, b) => {
            assert(p[i + 0] == Some(selector));
            assert(p[i + 1] == Some(2usize));
            assert(p[i + 2] == Some(r as usize));
            assert(p[i + 3] == Some(g as usize));
            assert(p[i + 4] == Some(b as usize));
        },
    }
}

proof fn lemma_attributes_apply(s: Style)
    ensures
        apply_all(plain_style(), attribute_codes(s)) == (Style { foreground: Color::Default, background: Color::Default, ..s }),
{
    let u0 = plain_style();
    let l1 = flag_code(s.bold, 1);
    let l2 = l1 + flag_code(s.dim, 2);
    let l3 = l2 + flag_code(s.italic, 3);
    let l4 = l3 + flag_code(s.underline, 4);
    let l5 = l4 + flag_code(s.blink, 5);
    let l6 = l5 + flag_code(s.inverse, 7);
    let l7 = l6 + flag_code(s.hidden, 8);
    lemma_apply_all_append(u0, l1, flag_code(s.dim, 2));
    lemma_apply_all_append(u0, l2, flag_code(s.italic, 3));
    lemma_apply_all_append(u0, l3, flag_code(s.underline, 4));
    lemma_apply_all_append(u0, l4, flag_code(s.blink, 5));
    lemma_apply_all_append(u0, l5, flag_code(s.inverse, 7));
    lemma_apply_all_append(u0, l6, flag_code(s.hidden, 8));
    lemma_apply_all_append(u0, l7, flag_code(s.strikethrough, 9));
    lemma_flag_apply(u0, s.bold, 1);
    lemma_flag_apply(apply_all(u0, l1), s.dim, 2);
    lemma_flag_apply(apply_all(u0, l2), s.italic, 3);
    lemma_flag_apply(apply_all(u0, l3), s.underline, 4);
    lemma_flag_apply(apply_all(u0, l4), s.blink, 5);
    lemma_flag_apply(apply_all(u0, l5), s.inverse, 7);
    lemma_flag_apply(apply_all(u0, l6), s.hidden, 8);
    lemma_flag_apply(apply_all(u0, l7), s.strikethrough, 9);
}

/// Every code lies in [1, 9].
pub open spec fn simple_codes(c: Seq<usize>) -> bool {
    forall|k: int| 0 <= k < c.len() ==> 1 <= #[trigger] c[k] <= 9
}

proof fn lemma_simple_append(x: Seq<usize>, y: Seq<usize>)
    requires
        simple_codes(x),
        simple_codes(y),
    ensures
        simple_codes(x + y),
{
    assert forall|k: int| 0 <= k < (x + y).len() implies 1 <= #[trigger] (x + y)[k] <= 9 by {
        if k < x.len() {
            assert((x + y)[k] == x[k]);
        } else {
            assert((x + y)[k] == y[k - x.len()]);
        }
    }
}

proof fn lemma_flag_simple(on: bool, code: usize)
    requires
        1 <= code <= 9,
    ensures
        simple_codes(flag_code(on, code)),
{
}

proof fn lemma_attribute_codes_simple(s: Style)
    ensures
        simple_codes(attribute_codes(s)),
{
    let l1 = flag_code(s.bold, 1);
    let l2 = l1 + flag_code(s.dim, 2);
    let l3 = l2 + flag_code(s.italic, 3);
    let l4 = l3 + flag_code(s.underline, 4);
    let l5 = l4 + flag_code(s.blink, 5);
    let l6 = l5 + flag_code(s.inverse, 7);
    let l7 = l6 + flag_code(s.hidden, 8);
    lemma_flag_simple(s.bold, 1);
    lemma_flag_simple(s.dim, 2);
    lemma_flag_simple(s.italic, 3);
    lemma_flag_simple(s.underline, 4);
    lemma_flag_simple(s.blink, 5);
    lemma_flag_simple(s.inverse, 7);
    lemma_flag_simple(s.hidden, 8);
    lemma_flag_simple(s.strikethrough, 9);
    lemma_simple_append(l1, flag_code(s.dim, 2));
    lemma_simple_append(l2, flag_code(s.italic, 3));
    lemma_simple_append(l3, flag_code(s.underline, 4));
    lemma_simple_append(l4, flag_code(s.blink, 5));
    lemma_simple_append(l5, flag_code(s.inverse, 7));
    lemma_simple_append(l6, flag_code(s.hidden, 8));
    lemma_simple_append(l7, flag_code(s.strikethrough, 9));
}

/// The parameters at `i` onward are the codes `c`.
pub open spec fn codes_at(p: Seq<Option<usize>>, i: int, c: Seq<usize>) -> bool {
    &&& 0 <= i
    &&& i + c.len() <= p.len()
    &&& forall|k: int| 0 <= k < c.len() ==> p[i + k] == Some(#[trigger] c[k])
}

proof fn lemma_codes_split(p: Seq<Option<usize>>, i: int, c: Seq<usize>, d: Seq<usize>)
    requires
        codes_at(p, i, c + d),
    ensures
        codes_at(p, i, c),
        codes_at(p, i + c.len(), d),
{
    assert forall|k: int| 0 <= k < c.len() implies p[i + k] == Some(#[trigger] c[k]) by {
        assert((c + d)[k] == c[k]);
    }
    assert forall|k: int| 0 <= k < d.len() implies p[i + c.len() + k] == Some(#[trigger] d[k]) by {
        assert((c + d)[c.len() + k] == d[k]);
        assert(p[i + (c.len() + k)] == Some((c + d)[c.len() + k]));
    }
}

/// Whatever style a terminal is in, the codes read back as exactly the style.
proof fn lemma_codes_meaning(t: Style, s: Style)
    ensures
        sgr_spec(t, as_params(style_code_list(s))) == Some(s),
{
    let a = attribute_codes(s);
    let f = color_codes(s.foreground, 38);
    let g = color_codes(s.background, 48);
    let rest = style_tail_codes(s);
    let codes = style_code_list(s);
    let p = as_params(codes);
    lemma_cons(0, rest);
    assert(p.len() == codes.len());
    assert(p[0] == Some(0usize));
    assert(codes_at(p, 1, rest)) by {
        assert forall|k: int| 0 <= k < rest.len() implies p[1 + k] == Some(#[trigger] rest[k]) by {
            assert(codes[1 + k] == rest[k]);
        }
    }
    lemma_codes_split(p, 1, a + f, g);
    lemma_codes_split(p, 1, a, f);
    let u0 = plain_style();
    assert(sgr_from(t, p, 0) == sgr_from(u0, p, 1));
    lemma_attribute_codes_simple(s);
    lemma_simple_run(u0, p, 1, a);
    lemma_attributes_apply(s);
    let u1 = apply_all(u0, a);
    let j: int = 1 + a.len() as int;
    lemma_color_run(u1, p, j, s.foreground, 38);
    let u2 = match s.foreground {
        Color::Default => u1,
        _ => apply_extended(u1, 38, s.foreground),
    };
    let j2: int = j + f.len();
    lemma_color_run(u2, p, j2, s.background, 48);
    let u3 = match s.background {
        Color::Default => u2,
        _ => apply_extended(u2, 48, s.background),
    };
    assert(u3 == s);
    assert(j2 + g.len() == p.len());
    assert(sgr_from(u3, p, j2 + g.len() as int) == Some(u3));
}

/// The SGR sequence written for a style is an SGR command whose codes, read
/// by a terminal in any prior style, produce exactly that style: its
/// attributes, its foreground (selected with 38) and its background (with 48).
pub proof fn written_style_reads_back_as_itself(s: Style, prior: Style)
    ensures
        exists|codes: Seq<usize>|
            codes.len() > 0 && #[trigger] sgr_command(codes) == style_bytes(s) && sgr_spec(prior, as_params(codes))
                == Some(s),
{
    lemma_codes_text(s);
    lemma_codes_meaning(prior, s);
    let codes = style_code_list(s);
    assert(codes.len() > 0);
}

} // verus!
