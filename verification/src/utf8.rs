//! Incremental UTF-8 decoding of one scalar at a time, with the replacement
//! policy of maximal invalid subsequences: decoding resumes right after the
//! longest prefix that could still have begun a well-formed scalar.

use vstd::prelude::*;
use vstd::utf8::{codepoint_width_2, codepoint_width_3, codepoint_width_4};

verus! {

/// The outcome of decoding a buffered prefix.
#[derive(Debug, Clone, Copy, PartialEq, Eq, Structural)]
pub enum Utf8Prefix {
    /// The buffer holds exactly one well-formed scalar.
    Complete(char),
    /// The buffer is a proper prefix of some well-formed scalar.
    Incomplete,
    /// The first `n` bytes cannot begin a well-formed scalar.
    Invalid(usize),
}

/// Encoded length announced by a leading byte, or 0 when it cannot lead.
pub open spec fn utf8_width(lead: u8) -> int {
    if lead < 0x80 {
        1
    } else if 0xc2 <= lead <= 0xdf {
        2
    } else if 0xe0 <= lead <= 0xef {
        3
    } else if 0xf0 <= lead <= 0xf4 {
        4
    } else {
        0
    }
}

/// Whether `b` may follow at `position` after `lead`. The second byte is
/// restricted so that overlong forms, surrogates and values above U+10FFFF are
/// rejected as early as possible.
pub open spec fn continuation_allowed(lead: u8, position: int, b: u8) -> bool {
    if position == 1 {
        if lead == 0xe0 {
            0xa0 <= b <= 0xbf
        } else if lead == 0xed {
            0x80 <= b <= 0x9f
        } else if lead == 0xf0 {
            0x90 <= b <= 0xbf
        } else if lead == 0xf4 {
            0x80 <= b <= 0x8f
        } else {
            0x80 <= b <= 0xbf
        }
    } else {
        0x80 <= b <= 0xbf
    }
}

/// The scalar value of a complete, well-formed encoding.
pub open spec fn decoded_value(p: Seq<u8>) -> u32 {
    let w = utf8_width(p[0]);
    if w == 1 {
        p[0] as u32
    } else if w == 2 {
        codepoint_width_2(p[0], p[1])
    } else if w == 3 {
        codepoint_width_3(p[0], p[1], p[2])
    } else {
        codepoint_width_4(p[0], p[1], p[2], p[3])
    }
}

/// Classify a non-empty buffered prefix of at most four bytes.
pub open spec fn utf8_prefix(p: Seq<u8>) -> Utf8Prefix {
    let w = utf8_width(p[0]);
    if w == 0 {
        Utf8Prefix::Invalid(1)
    } else if p.len() > 1 && w > 1 && !continuation_allowed(p[0], 1, p[1]) {
        Utf8Prefix::Invalid(1)
    } else if p.len() > 2 && w > 2 && !continuation_allowed(p[0], 2, p[2]) {
        Utf8Prefix::Invalid(2)
    } else if p.len() > 3 && w > 3 && !continuation_allowed(p[0], 3, p[3]) {
        Utf8Prefix::Invalid(3)
    } else if p.len() >= w {
        Utf8Prefix::Complete(decoded_value(p) as char)
    } else {
        Utf8Prefix::Incomplete
    }
}

/// A Unicode scalar value: at most U+10FFFF and not a surrogate.
pub open spec fn is_scalar_value(v: u32) -> bool {
    v <= 0x10ffff && !(0xd800 <= v <= 0xdfff)
}

/// `char::from_u32`, which the standard library documents as returning the
/// character with that scalar value for exactly the valid scalar values.
#[verifier::external_body]
pub(crate) fn scalar_to_char(v: u32) -> (c: char)
    requires
        is_scalar_value(v),
    ensures
        c as u32 == v,
{
    match char::from_u32(v) {
        Some(c) => c,
        None => '\u{fffd}',
    }
}

/// Classify a buffered prefix; see `utf8_prefix`.
pub fn classify_utf8(p: &[u8]) -> (r: Utf8Prefix)
    requires
        1 <= p@.len() <= 4,
    ensures
        r == utf8_prefix(p@),
{
    let lead = p[0];
    let width: usize = if lead < 0x80 {
        1
    } else if 0xc2 <= lead && lead <= 0xdf {
        2
    } else if 0xe0 <= lead && lead <= 0xef {
        3
    } else if 0xf0 <= lead && lead <= 0xf4 {
        4
    } else {
        0
    };
    if width == 0 {
        return Utf8Prefix::Invalid(1);
    }
    let mut k: usize = 1;
    while k < p.len() && k < width
        invariant
            1 <= k <= 4,
            width == utf8_width(lead),
            lead == p@[0],
            1 <= p@.len() <= 4,
            forall|j: int| 1 <= j < k ==> #[trigger] continuation_allowed(lead, j, p@[j]),
        decreases 4 - k,
    {
        let b = p[k];
        let allowed = if k == 1 {
            if lead == 0xe0 {
                0xa0 <= b && b <= 0xbf
            } else if lead == 0xed {
                0x80 <= b && b <= 0x9f
            } else if lead == 0xf0 {
                0x90 <= b && b <= 0xbf
            } else if lead == 0xf4 {
                0x80 <= b && b <= 0x8f
            } else {
                0x80 <= b && b <= 0xbf
            }
        } else {
            0x80 <= b && b <= 0xbf
        };
        if !allowed {
            return Utf8Prefix::Invalid(k);
        }
        k += 1;
    }
    if p.len() < width {
        return Utf8Prefix::Incomplete;
    }
    let value: u32 = if width == 1 {
        lead as u32
    } else if width == 2 {
        (((lead & 0x1f) as u32) << 6) | ((p[1] & 0x3f) as u32)
    } else if width == 3 {
        (((lead & 0x0f) as u32) << 12) | (((p[1] & 0x3f) as u32) << 6) | ((p[2] & 0x3f) as u32)
    } else {
        (((lead & 0x07) as u32) << 18) | (((p[1] & 0x3f) as u32) << 12) | (((p[2] & 0x3f) as u32) << 6)
            | ((p[3] & 0x3f) as u32)
    };
    assert(value == decoded_value(p@));
    proof {
        lemma_scalar(p@, width as int, value);
    }
    Utf8Prefix::Complete(scalar_to_char(value))
}

/// Every complete encoding accepted by `utf8_prefix` decodes to a scalar value.
proof fn lemma_scalar(p: Seq<u8>, width: int, value: u32)
    requires
        1 <= width <= 4,
        p.len() >= 1,
        width == utf8_width(p[0]),
        p.len() >= width,
        forall|j: int| 1 <= j < width ==> #[trigger] continuation_allowed(p[0], j, p[j]),
        value == decoded_value(p),
    ensures
        is_scalar_value(value),
{
    let b0 = p[0];
    if width == 1 {
        assert(value == b0 as u32);
    } else if width == 2 {
        let b1 = p[1];
        assert(continuation_allowed(b0, 1, b1));
        assert(((((b0 & 0x1f) as u32) << 6) | ((b1 & 0x3f) as u32)) <= 0x7ff) by (bit_vector);
    } else if width == 3 {
        let b1 = p[1];
        let b2 = p[2];
        assert(continuation_allowed(b0, 1, b1));
        assert(continuation_allowed(b0, 2, b2));
        let v = (((b0 & 0x0f) as u32) << 12) | (((b1 & 0x3f) as u32) << 6) | ((b2 & 0x3f) as u32);
        assert(v <= 0xffff && (b0 == 0xed ==> v < 0xd800) && (b0 != 0xed ==> !(0xd800 <= v <= 0xdfff))) by (bit_vector)
            requires
                v == (((b0 & 0x0f) as u32) << 12) | (((b1 & 0x3f) as u32) << 6) | ((b2 & 0x3f) as u32),
                0xe0 <= b0 <= 0xef,
                0x80 <= b1 <= 0xbf,
                b0 == 0xed ==> b1 <= 0x9f,
        ;
    } else {
        let b1 = p[1];
        let b2 = p[2];
        let b3 = p[3];
        assert(continuation_allowed(b0, 1, b1));
        let v = (((b0 & 0x07) as u32) << 18) | (((b1 & 0x3f) as u32) << 12) | (((b2 & 0x3f) as u32) << 6)
            | ((b3 & 0x3f) as u32);
        assert(0x10000 <= v <= 0x10ffff) by (bit_vector)
            requires
                v == (((b0 & 0x07) as u32) << 18) | (((b1 & 0x3f) as u32) << 12) | (((b2 & 0x3f) as u32)
                    << 6) | ((b3 & 0x3f) as u32),
                0xf0 <= b0 <= 0xf4,
                0x80 <= b1 <= 0xbf,
                b0 == 0xf0 ==> b1 >= 0x90,
                b0 == 0xf4 ==> b1 <= 0x8f,
        ;
    }
}

} // verus!
