//! What the cursor keys decode to: each arrow's CSI sequence is named after
//! its direction, whatever parameters (modifiers) it carries.

use vstd::prelude::*;

use crate::input::{index_final, is_final_byte, key_spec};
use vstd::utf8::{pop_first_scalar, valid_utf8};

verus! {

/// Every byte is ASCII.
proof fn lemma_ascii_is_utf8(p: Seq<u8>)
    requires
        forall|i: int| 0 <= i < p.len() ==> #[trigger] p[i] < 0x80,
    ensures
        valid_utf8(p),
    decreases p.len(),
{
    if p.len() > 0 {
        let b = p[0];
        assert(b & 0x7f <= 0x7f) by (bit_vector);
        assert(pop_first_scalar(p) =~= p.drop_first());
        lemma_ascii_is_utf8(p.drop_first());
    }
}

proof fn lemma_final_at(b: Seq<u8>, i: int, k: int)
    requires
        0 <= i <= k < b.len(),
        forall|j: int| i <= j < k ==> !is_final_byte(#[trigger] b[j]),
        is_final_byte(b[k]),
    ensures
        index_final(b, i) == Some(k),
    decreases k - i,
{
    if i < k {
        lemma_final_at(b, i + 1, k);
    }
}

/// The CSI sequence `ESC [ params final`.
pub open spec fn csi(params: Seq<u8>, last: u8) -> Seq<u8> {
    seq![0x1bu8, 0x5bu8] + params + seq![last]
}

/// Parameter bytes: digits, `:`, `;`, `<`, `=`, `>` and `?`.
pub open spec fn parameter_bytes(params: Seq<u8>) -> bool {
    forall|i: int| 0 <= i < params.len() ==> 0x30 <= #[trigger] params[i] <= 0x3f
}

/// The arrow keys are named by their direction: `ESC [ … A` is up, `B` down,
/// `C` right and `D` left, with any parameters, and the whole sequence is one key.
pub proof fn arrow_keys_are_named_by_direction(params: Seq<u8>)
    requires
        parameter_bytes(params),
    ensures
        key_spec(csi(params, 0x41)).0 == "up"@,
        key_spec(csi(params, 0x42)).0 == "down"@,
        key_spec(csi(params, 0x43)).0 == "right"@,
        key_spec(csi(params, 0x44)).0 == "left"@,
        key_spec(csi(params, 0x43)).3 == params.len() + 3,
        key_spec(csi(params, 0x44)).3 == params.len() + 3,
        key_spec(csi(params, 0x48)).0 == "home"@,
        key_spec(csi(params, 0x46)).0 == "end"@,
{
    lemma_ascii_is_utf8(params);
    lemma_csi_shape(params, 0x48);
    lemma_csi_shape(params, 0x46);
    lemma_csi_shape(params, 0x41);
    lemma_csi_shape(params, 0x42);
    lemma_csi_shape(params, 0x43);
    lemma_csi_shape(params, 0x44);
}

/// The editing keys in their `ESC [ n ~` form: 5 is page up, 6 page down, 3 delete.
pub proof fn editing_keys_are_named()
    ensures
        key_spec(csi(seq![0x35u8], 0x7e)).0 == "pageup"@,
        key_spec(csi(seq![0x36u8], 0x7e)).0 == "pagedown"@,
        key_spec(csi(seq![0x33u8], 0x7e)).0 == "delete"@,
{
    lemma_ascii_is_utf8(seq![0x35u8]);
    lemma_ascii_is_utf8(seq![0x36u8]);
    lemma_ascii_is_utf8(seq![0x33u8]);
    lemma_csi_shape(seq![0x35u8], 0x7e);
    lemma_csi_shape(seq![0x36u8], 0x7e);
    lemma_csi_shape(seq![0x33u8], 0x7e);
}

proof fn lemma_csi_shape(params: Seq<u8>, f: u8)
    requires
        parameter_bytes(params),
        is_final_byte(f),
    ensures
        ({
            let b = csi(params, f);
            &&& b[0] == 0x1b
            &&& b[1] == 0x5b
            &&& b.len() == params.len() + 3
            &&& b.last() == f
            &&& index_final(b, 2) == Some(b.len() - 1)
            &&& b.take(b.len() as int) == b
            &&& b.subrange(2, b.len() - 1) == params
        }),
{
    let b = csi(params, f);
    assert forall|j: int| 2 <= j < b.len() - 1 implies !is_final_byte(#[trigger] b[j]) by {
        assert(b[j] == params[j - 2]);
    }
    lemma_final_at(b, 2, b.len() - 1);
    assert(b.take(b.len() as int) =~= b);
    assert(b.subrange(2, b.len() - 1) =~= params);
}

} // verus!
