//! Retained Kitty graphics uploads and Unicode-placeholder placements, kept so
//! that a client that reattaches can be sent them again.
use vstd::prelude::*;
use crate::input::{parse_unsigned, parse_unsigned_exec, starts_with};

verus! {

/// Retained protocol data is bounded independently of the parser's command limit.
pub const MAX_RETAINED_BYTES: usize = 64 * 1024 * 1024;

pub const MAX_RETAINED_COMMANDS: usize = 16 * 1024;

/// `ESC _ G`, the 7-bit introducer of a graphics command.
pub open spec fn apc_g() -> Seq<u8> {
    seq![0x1bu8, 0x5f, 0x47]
}

/// `APC G` written with the 8-bit C1 control.
pub open spec fn c1_apc_g() -> Seq<u8> {
    seq![0x9fu8, 0x47]
}

/// `ESC \`, the 7-bit string terminator.
pub open spec fn st() -> Seq<u8> {
    seq![0x1bu8, 0x5c]
}

pub open spec fn ends_with(s: Seq<u8>, suffix: Seq<u8>) -> bool {
    suffix.len() <= s.len() && s.skip(s.len() - suffix.len()) == suffix
}

/// Position of the first `b` in `s`, or its length when there is none.
pub open spec fn index_of(s: Seq<u8>, b: u8) -> nat
    decreases s.len(),
{
    if s.len() == 0 {
        0
    } else if s[0] == b {
        0
    } else {
        1 + index_of(s.drop_first(), b)
    }
}

proof fn lemma_index_of(s: Seq<u8>, b: u8, i: int)
    requires
        0 <= i <= s.len(),
        forall|j: int| 0 <= j < i ==> s[j] != b,
        i == s.len() || s[i] == b,
    ensures
        index_of(s, b) == i,
    decreases i,
{
    if i > 0 {
        assert forall|j: int| 0 <= j < i - 1 implies s.drop_first()[j] != b by {
            assert(s[j + 1] != b);
        }
        lemma_index_of(s.drop_first(), b, i - 1);
    }
}

/// The first `b` in `s[lo..hi]`, or `hi`.
fn find_byte(s: &[u8], lo: usize, hi: usize, b: u8) -> (r: usize)
    requires
        lo <= hi <= s@.len(),
    ensures
        lo <= r <= hi,
        r == lo + index_of(s@.subrange(lo as int, hi as int), b),
{
    let mut i = lo;
    while i < hi && s[i] != b
        invariant
            lo <= i <= hi <= s@.len(),
            forall|j: int| lo <= j < i ==> s@[j] != b,
        decreases hi - i,
    {
        i += 1;
    }
    proof {
        lemma_index_of(s@.subrange(lo as int, hi as int), b, i - lo);
    }
    i
}

/// The command's body: what stands between its introducer and its terminator.
pub open spec fn body_of(cmd: Seq<u8>) -> Option<Seq<u8>> {
    let rest = if starts_with(cmd, apc_g()) {
        Some(cmd.skip(3))
    } else if starts_with(cmd, c1_apc_g()) {
        Some(cmd.skip(2))
    } else {
        None
    };
    match rest {
        None => None,
        Some(b) => Some(
            if ends_with(b, st()) {
                b.take(b.len() - 2)
            } else if ends_with(b, seq![0x9cu8]) {
                b.take(b.len() - 1)
            } else {
                b
            },
        ),
    }
}

/// The control data: the body up to its first `;`.
pub open spec fn control_of(body: Seq<u8>) -> Seq<u8> {
    body.take(index_of(body, 0x3b) as int)
}

/// The value of the first comma-separated field of `control` written `key=value`.
pub open spec fn field_value(control: Seq<u8>, key: u8) -> Option<Seq<u8>>
    decreases control.len(),
{
    let i = index_of(control, 0x2c);
    let f = control.take(i as int);
    if f.len() >= 2 && f[0] == key && f[1] == 0x3d {
        Some(f.skip(2))
    } else if i >= control.len() {
        None
    } else {
        field_value(control.skip(i + 1 as int), key)
    }
}

pub open spec fn is_byte(v: Seq<u8>, b: u8) -> bool {
    v.len() == 1 && v[0] == b
}

/// Whether field `key` is the single byte `want`, an absent field reading as `default`.
pub open spec fn field_or_is(control: Seq<u8>, key: u8, default: u8, want: u8) -> bool {
    match field_value(control, key) {
        Some(v) => is_byte(v, want),
        None => default == want,
    }
}

/// A field read as a decimal `u32`.
pub open spec fn number(control: Seq<u8>, key: u8) -> Option<u32> {
    match field_value(control, key) {
        Some(v) => match parse_unsigned(v, 0xffff_ffff) {
            Some(n) => Some(n as u32),
            None => None,
        },
        None => None,
    }
}

proof fn lemma_index_of_bound(s: Seq<u8>, b: u8)
    ensures
        index_of(s, b) <= s.len(),
        index_of(s, b) < s.len() ==> s[index_of(s, b) as int] == b,
    decreases s.len(),
{
    if s.len() > 0 && s[0] != b {
        lemma_index_of_bound(s.drop_first(), b);
    }
}

/// Finds the field `key` in `cmd[lo..hi]` and returns where its value lies.
fn find_field(cmd: &[u8], lo: usize, hi: usize, key: u8) -> (r: Option<(usize, usize)>)
    requires
        lo <= hi <= cmd@.len(),
    ensures
        match r {
            Some((a, b)) => a <= b <= hi && field_value(cmd@.subrange(lo as int, hi as int), key) == Some(
                cmd@.subrange(a as int, b as int),
            ),
            None => field_value(cmd@.subrange(lo as int, hi as int), key) is None,
        },
{
    let mut pos = lo;
    loop
        invariant
            lo <= pos <= hi <= cmd@.len(),
            field_value(cmd@.subrange(pos as int, hi as int), key) == field_value(
                cmd@.subrange(lo as int, hi as int),
                key,
            ),
        decreases hi - pos,
    {
        let ghost s = cmd@.subrange(pos as int, hi as int);
        let stop = find_byte(cmd, pos, hi, 0x2c);
        proof {
            lemma_index_of_bound(s, 0x2c);
            assert(s.take(stop - pos) =~= cmd@.subrange(pos as int, stop as int));
        }
        if stop - pos >= 2 && cmd[pos] == key && cmd[pos + 1] == 0x3d {
            assert(s.take(stop - pos).skip(2) =~= cmd@.subrange(pos + 2, stop as int));
            return Some((pos + 2, stop));
        }
        if stop >= hi {
            return None;
        }
        assert(s.skip(stop - pos + 1) =~= cmd@.subrange(stop + 1, hi as int));
        pos = stop + 1;
    }
}

/// The fields of the control data without any `q=` field, each behind a comma.
pub open spec fn quiet_fields(s: Seq<u8>) -> Seq<u8>
    decreases s.len(),
{
    let i = index_of(s, 0x2c);
    let f = s.take(i as int);
    let kept = if f.len() > 0 && !(f.len() >= 2 && f[0] == 0x71 && f[1] == 0x3d) {
        seq![0x2cu8] + f
    } else {
        Seq::empty()
    };
    if i >= s.len() {
        kept
    } else {
        kept + quiet_fields(s.skip(i + 1 as int))
    }
}

/// A graphics command that may stand in `quiet`: it carries more than its introducer.
pub open spec fn quietable(cmd: Seq<u8>) -> bool {
    (starts_with(cmd, apc_g()) && cmd.len() > 3) || (starts_with(cmd, c1_apc_g()) && cmd.len() > 2)
}

/// Where the control data of a command ends: at its first `;`, else before its terminator.
pub open spec fn control_end(cmd: Seq<u8>) -> int {
    let start: int = if starts_with(cmd, apc_g()) {
        3
    } else {
        2
    };
    let semi = index_of(cmd.skip(start), 0x3b);
    if semi < cmd.len() - start {
        start + semi
    } else {
        cmd.len() - if ends_with(cmd, st()) {
            2int
        } else {
            1int
        }
    }
}

/// The command rewritten to ask the terminal for no reply (`q=2`), always
/// with the 7-bit introducer and terminator.
pub open spec fn quiet_spec(cmd: Seq<u8>) -> Seq<u8> {
    let start: int = if starts_with(cmd, apc_g()) {
        3
    } else {
        2
    };
    let end = control_end(cmd);
    let rest = cmd.skip(end);
    apc_g() + seq![0x71u8, 0x3d, 0x32] + quiet_fields(cmd.subrange(start, end)) + if ends_with(
        cmd,
        seq![0x9cu8],
    ) {
        rest.drop_last() + st()
    } else {
        rest
    }
}

fn has_apc_g(cmd: &[u8]) -> (r: bool)
    ensures
        r == starts_with(cmd@, apc_g()),
{
    let r = cmd.len() >= 3 && cmd[0] == 0x1b && cmd[1] == 0x5f && cmd[2] == 0x47;
    assert(r ==> cmd@.take(3) =~= apc_g());
    r
}

fn has_c1_apc_g(cmd: &[u8]) -> (r: bool)
    ensures
        r == starts_with(cmd@, c1_apc_g()),
{
    let r = cmd.len() >= 2 && cmd[0] == 0x9f && cmd[1] == 0x47;
    assert(r ==> cmd@.take(2) =~= c1_apc_g());
    r
}

fn has_st(cmd: &[u8], lo: usize) -> (r: bool)
    requires
        lo <= cmd@.len(),
    ensures
        r == ends_with(cmd@.skip(lo as int), st()),
{
    let n = cmd.len();
    let r = n - lo >= 2 && cmd[n - 2] == 0x1b && cmd[n - 1] == 0x5c;
    let ghost b = cmd@.skip(lo as int);
    assert(r ==> b.skip(b.len() - 2) =~= st());
    assert(b.len() >= 2 && b.skip(b.len() - 2) == st() ==> b.skip(b.len() - 2)[0] == b[b.len() - 2]);
    r
}

fn has_c1_st(cmd: &[u8], lo: usize) -> (r: bool)
    requires
        lo <= cmd@.len(),
    ensures
        r == ends_with(cmd@.skip(lo as int), seq![0x9cu8]),
{
    let n = cmd.len();
    let r = n - lo >= 1 && cmd[n - 1] == 0x9c;
    let ghost b = cmd@.skip(lo as int);
    assert(r ==> b.skip(b.len() - 1) =~= seq![0x9cu8]);
    assert(b.len() >= 1 && b.skip(b.len() - 1) == seq![0x9cu8] ==> b.skip(b.len() - 1)[0] == b[b.len() - 1]);
    r
}

pub(crate) fn push_range(out: &mut Vec<u8>, s: &[u8], lo: usize, hi: usize)
    requires
        lo <= hi <= s@.len(),
    ensures
        final(out)@ == old(out)@ + s@.subrange(lo as int, hi as int),
{
    let mut i = lo;
    while i < hi
        invariant
            lo <= i <= hi <= s@.len(),
            out@ == old(out)@ + s@.subrange(lo as int, i as int),
        decreases hi - i,
    {
        out.push(s[i]);
        assert(s@.subrange(lo as int, i + 1) =~= s@.subrange(lo as int, i as int).push(s@[i as int]));
        i += 1;
    }
}

/// Rewrites a graphics command so that the terminal sends no reply to it.
fn quiet(cmd: &[u8]) -> (r: Vec<u8>)
    requires
        quietable(cmd@),
    ensures
        r@ == quiet_spec(cmd@),
{
    let start: usize = if has_apc_g(cmd) {
        3
    } else {
        2
    };
    let semi = find_byte(cmd, start, cmd.len(), 0x3b);
    proof {
        assert(cmd@.skip(start as int) =~= cmd@.subrange(start as int, cmd@.len() as int));
    }
    let with_st = has_st(cmd, 0);
    let with_c1_st = has_c1_st(cmd, 0);
    proof {
        assert(cmd@.skip(0) =~= cmd@);
    }
    let end = if semi < cmd.len() {
        semi
    } else if with_st {
        assert(cmd@[cmd@.len() - 2] == 0x1b);
        cmd.len() - 2
    } else {
        cmd.len() - 1
    };
    assert(end == control_end(cmd@));
    let mut result: Vec<u8> = vec![0x1b, 0x5f, 0x47, 0x71, 0x3d, 0x32];
    let ghost head = result@;
    assert(head =~= apc_g() + seq![0x71u8, 0x3d, 0x32]);
    let mut pos = start;
    loop
        invariant_except_break
            result@ + quiet_fields(cmd@.subrange(pos as int, end as int)) == head + quiet_fields(
                cmd@.subrange(start as int, end as int),
            ),
        invariant
            start <= pos <= end <= cmd@.len(),
        ensures
            result@ == head + quiet_fields(cmd@.subrange(start as int, end as int)),
        decreases end - pos,
    {
        let ghost s = cmd@.subrange(pos as int, end as int);
        let stop = find_byte(cmd, pos, end, 0x2c);
        let ghost before = result@;
        proof {
            lemma_index_of_bound(s, 0x2c);
            assert(s.take(stop - pos) =~= cmd@.subrange(pos as int, stop as int));
        }
        if stop > pos && !(stop - pos >= 2 && cmd[pos] == 0x71 && cmd[pos + 1] == 0x3d) {
            result.push(0x2c);
            push_range(&mut result, cmd, pos, stop);
            assert(result@ =~= before + (seq![0x2cu8] + cmd@.subrange(pos as int, stop as int)));
        } else {
            assert(result@ =~= before + Seq::<u8>::empty());
        }
        if stop >= end {
            assert(result@ =~= before + quiet_fields(s));
            break;
        }
        proof {
            assert(s.skip(stop - pos + 1) =~= cmd@.subrange(stop + 1, end as int));
        }
        assert(before + quiet_fields(s) =~= result@ + quiet_fields(cmd@.subrange(stop + 1, end as int)));
        pos = stop + 1;
    }
    if with_c1_st {
        push_range(&mut result, cmd, end, cmd.len() - 1);
        result.push(0x1b);
        result.push(0x5c);
        assert(cmd@.subrange(end as int, cmd@.len() - 1) =~= cmd@.skip(end as int).drop_last());
    } else {
        push_range(&mut result, cmd, end, cmd.len());
        assert(cmd@.subrange(end as int, cmd@.len() as int) =~= cmd@.skip(end as int));
    }
    proof {
        assert(cmd@.subrange(end as int, cmd@.len() - 1) + st() =~= cmd@.skip(end as int).drop_last() + st());
    }
    result
}

// ---------------------------------------------------------------------------
// Sequences of entries ordered by a `u32` key.

pub open spec fn key_seq<V>(s: Seq<(u32, V)>) -> Seq<u32> {
    s.map_values(|p: (u32, V)| p.0)
}

/// Where key `k` stands, or would be inserted, among keys in ascending order:
/// the length of the run of smaller keys at the front.
pub open spec fn slot(keys: Seq<u32>, k: u32) -> nat
    decreases keys.len(),
{
    if keys.len() == 0 || keys[0] >= k {
        0
    } else {
        1 + slot(keys.drop_first(), k)
    }
}

pub open spec fn has_key<V>(s: Seq<(u32, V)>, k: u32) -> bool {
    let i = slot(key_seq(s), k);
    i < s.len() && s[i as int].0 == k
}

pub open spec fn value_of<V>(s: Seq<(u32, V)>, k: u32) -> V {
    s[slot(key_seq(s), k) as int].1
}

/// `s` with the entry for `k` set to `v`: replaced where present, else inserted in order.
pub open spec fn put<V>(s: Seq<(u32, V)>, k: u32, v: V) -> Seq<(u32, V)> {
    let i = slot(key_seq(s), k) as int;
    if has_key(s, k) {
        s.update(i, (k, v))
    } else {
        s.insert(i, (k, v))
    }
}

/// `s` without its entry for `k`.
pub open spec fn without<V>(s: Seq<(u32, V)>, k: u32) -> Seq<(u32, V)> {
    if has_key(s, k) {
        s.remove(slot(key_seq(s), k) as int)
    } else {
        s
    }
}

pub open spec fn increasing(keys: Seq<u32>) -> bool {
    forall|i: int, j: int| 0 <= i < j < keys.len() ==> keys[i] < keys[j]
}

proof fn lemma_slot(keys: Seq<u32>, k: u32, i: int)
    requires
        0 <= i <= keys.len(),
        forall|j: int| 0 <= j < i ==> keys[j] < k,
        i == keys.len() || keys[i] >= k,
    ensures
        slot(keys, k) == i,
    decreases i,
{
    if i > 0 {
        assert forall|j: int| 0 <= j < i - 1 implies keys.drop_first()[j] < k by {
            assert(keys[j + 1] < k);
        }
        lemma_slot(keys.drop_first(), k, i - 1);
    }
}

proof fn lemma_slot_bound(keys: Seq<u32>, k: u32)
    ensures
        slot(keys, k) <= keys.len(),
        forall|j: int| 0 <= j < slot(keys, k) ==> keys[j] < k,
        slot(keys, k) < keys.len() ==> keys[slot(keys, k) as int] >= k,
    decreases keys.len(),
{
    if keys.len() > 0 && keys[0] < k {
        let t = keys.drop_first();
        lemma_slot_bound(t, k);
        assert forall|j: int| 0 <= j < slot(keys, k) implies keys[j] < k by {
            if j > 0 {
                assert(keys[j] == t[j - 1]);
            }
        }
    }
}

/// The position of key `k` in `v`, or where it would be inserted.
fn find_slot<T>(v: &Vec<(u32, T)>, k: u32) -> (r: usize)
    ensures
        r == slot(key_seq(v@), k),
        r <= v@.len(),
{
    let mut i: usize = 0;
    while i < v.len() && v[i].0 < k
        invariant
            i <= v@.len(),
            forall|j: int| 0 <= j < i ==> v@[j].0 < k,
        decreases v@.len() - i,
    {
        i += 1;
    }
    proof {
        lemma_slot(key_seq(v@), k, i as int);
    }
    i
}

// ---------------------------------------------------------------------------
// The retained state.

/// What is retained of one image: its upload commands, whether the upload is
/// complete, and its virtual placements by placement id.
pub struct ImageModel {
    pub upload: Seq<Seq<u8>>,
    pub complete: bool,
    pub placements: Seq<(u32, Seq<u8>)>,
}

/// The images by image id, and the image whose chunked upload is in progress.
pub struct GraphicsModel {
    pub images: Seq<(u32, ImageModel)>,
    pub uploading: Option<u32>,
}

pub open spec fn fresh_image() -> ImageModel {
    ImageModel { upload: Seq::empty(), complete: false, placements: Seq::empty() }
}

pub open spec fn empty_cache() -> GraphicsModel {
    GraphicsModel { images: Seq::empty(), uploading: None }
}

/// The commands an image contributes: its upload, then its placements.
pub open spec fn image_commands(img: ImageModel) -> Seq<Seq<u8>> {
    img.upload + img.placements.map_values(|p: (u32, Seq<u8>)| p.1)
}

pub open spec fn lengths(s: Seq<Seq<u8>>) -> nat
    decreases s.len(),
{
    if s.len() == 0 {
        0
    } else {
        lengths(s.drop_last()) + s.last().len()
    }
}

pub open spec fn total_bytes(images: Seq<(u32, ImageModel)>) -> nat
    decreases images.len(),
{
    if images.len() == 0 {
        0
    } else {
        total_bytes(images.drop_last()) + lengths(image_commands(images.last().1))
    }
}

pub open spec fn total_commands(images: Seq<(u32, ImageModel)>) -> nat
    decreases images.len(),
{
    if images.len() == 0 {
        0
    } else {
        total_commands(images.drop_last()) + image_commands(images.last().1).len()
    }
}

/// Whether the retained data has grown past its bounds.
pub open spec fn over_limit(m: GraphicsModel) -> bool {
    total_bytes(m.images) > MAX_RETAINED_BYTES || total_commands(m.images) > MAX_RETAINED_COMMANDS
}

/// Everything is dropped once the retained data grows past its bounds.
pub open spec fn limited(m: GraphicsModel) -> GraphicsModel {
    if over_limit(m) {
        empty_cache()
    } else {
        m
    }
}

/// The images after dropping placements of image `id`: placement `placement`,
/// or all of them; with `drop_empty` the image goes too once it has none left.
pub open spec fn delete_in(
    images: Seq<(u32, ImageModel)>,
    id: u32,
    placement: Option<u32>,
    drop_empty: bool,
) -> Seq<(u32, ImageModel)> {
    if has_key(images, id) {
        let img = value_of(images, id);
        let kept = ImageModel {
            placements: match placement {
                Some(p) => without(img.placements, p),
                None => Seq::empty(),
            },
            ..img
        };
        if drop_empty && kept.placements.len() == 0 {
            without(images, id)
        } else {
            put(images, id, kept)
        }
    } else {
        images
    }
}

pub open spec fn without_placements(images: Seq<(u32, ImageModel)>) -> Seq<(u32, ImageModel)> {
    images.map_values(|e: (u32, ImageModel)| (e.0, ImageModel { placements: Seq::empty(), ..e.1 }))
}

/// A delete command (`a=d`): `d=a` drops every placement, `d=A` everything;
/// `d=i` drops one placement of an image (all of them without `p=`), `d=I`
/// also drops the image once it has no placement left.
pub open spec fn delete_spec(m: GraphicsModel, control: Seq<u8>) -> GraphicsModel {
    let id = number(control, 0x69);
    let placement = number(control, 0x70);
    if field_or_is(control, 0x64, 0x61, 0x41) {
        empty_cache()
    } else if field_or_is(control, 0x64, 0x61, 0x61) {
        GraphicsModel { images: without_placements(m.images), ..m }
    } else if field_or_is(control, 0x64, 0x61, 0x69) || field_or_is(control, 0x64, 0x61, 0x49) {
        match id {
            None => m,
            Some(id) => {
                let images = delete_in(m.images, id, placement, field_or_is(control, 0x64, 0x61, 0x49));
                GraphicsModel {
                    images,
                    uploading: if !has_key(images, id) && m.uploading == Some(id) {
                        None
                    } else {
                        m.uploading
                    },
                }
            },
        }
    } else {
        m
    }
}

/// A placement (`a=p`): only virtual placements (`U=1`) of a known image are
/// kept, as they do not depend on the cursor; a later one with the same
/// placement id replaces the earlier.
pub open spec fn place_spec(m: GraphicsModel, control: Seq<u8>, cmd: Seq<u8>) -> GraphicsModel {
    match number(control, 0x69) {
        Some(id) => if field_or_is(control, 0x55, 0x30, 0x31) && has_key(m.images, id) {
            let img = value_of(m.images, id);
            let p = match number(control, 0x70) {
                Some(p) => p,
                None => 0,
            };
            GraphicsModel {
                images: put(m.images, id, ImageModel { placements: put(img.placements, p, quiet_spec(cmd)), ..img }),
                ..m
            }
        } else {
            m
        },
        None => m,
    }
}

/// Whether a transmission medium stays readable: direct data (`t=d`, the
/// default) and files (`t=f`). Shared memory and temporary files are consumed
/// by the terminal that reads them.
pub open spec fn reusable_medium(control: Seq<u8>) -> bool {
    field_or_is(control, 0x74, 0x64, 0x64) || field_or_is(control, 0x74, 0x64, 0x66)
}

/// A transmission (`a=t`): a new upload replaces the image's retained data;
/// a chunk (`m=1` on the one before) continues the upload in progress.
pub open spec fn transmit_spec(m: GraphicsModel, control: Seq<u8>, cmd: Seq<u8>) -> GraphicsModel {
    let target = match m.uploading {
        Some(c) => Some(c),
        None => number(control, 0x69),
    };
    match target {
        None => GraphicsModel { uploading: None, ..m },
        Some(t) => if t == 0 {
            GraphicsModel { uploading: None, ..m }
        } else if m.uploading is None && !reusable_medium(control) {
            GraphicsModel { images: without(m.images, t), uploading: None }
        } else {
            let images = if m.uploading is None {
                put(m.images, t, fresh_image())
            } else {
                m.images
            };
            if has_key(images, t) {
                let img = value_of(images, t);
                let complete = !field_or_is(control, 0x6d, 0x30, 0x31);
                limited(
                    GraphicsModel {
                        images: put(
                            images,
                            t,
                            ImageModel { upload: img.upload.push(quiet_spec(cmd)), complete, ..img },
                        ),
                        uploading: if complete {
                            None
                        } else {
                            Some(t)
                        },
                    },
                )
            } else {
                limited(GraphicsModel { images, uploading: None })
            }
        },
    }
}

/// What recording one command does to the retained state. Anything that is
/// not a graphics command leaves it as it is.
pub open spec fn record_spec(m: GraphicsModel, cmd: Seq<u8>) -> GraphicsModel {
    match body_of(cmd) {
        None => m,
        Some(body) => {
            let control = control_of(body);
            if field_or_is(control, 0x61, 0x74, 0x64) {
                delete_spec(m, control)
            } else if field_or_is(control, 0x61, 0x74, 0x70) {
                limited(place_spec(m, control, cmd))
            } else if field_or_is(control, 0x61, 0x74, 0x74) {
                transmit_spec(m, control, cmd)
            } else {
                limited(m)
            }
        },
    }
}

/// The commands of the images whose upload is (or is not) complete, by image id.
pub open spec fn replay_part(images: Seq<(u32, ImageModel)>, complete: bool) -> Seq<Seq<u8>>
    decreases images.len(),
{
    if images.len() == 0 {
        Seq::empty()
    } else {
        replay_part(images.drop_last(), complete) + if images.last().1.complete == complete {
            image_commands(images.last().1)
        } else {
            Seq::empty()
        }
    }
}

/// Complete images first, so that an interrupted upload comes last.
pub open spec fn replay_spec(m: GraphicsModel) -> Seq<Seq<u8>> {
    replay_part(m.images, true) + replay_part(m.images, false)
}

pub open spec fn saturated(n: nat) -> usize {
    if n > usize::MAX {
        usize::MAX
    } else {
        n as usize
    }
}

pub open spec fn bytes_model(v: Seq<Vec<u8>>) -> Seq<Seq<u8>> {
    v.map_values(|c: Vec<u8>| c@)
}

pub open spec fn placements_model(v: Seq<(u32, Vec<u8>)>) -> Seq<(u32, Seq<u8>)> {
    v.map_values(|p: (u32, Vec<u8>)| (p.0, p.1@))
}

struct Image {
    upload: Vec<Vec<u8>>,
    complete: bool,
    placements: Vec<(u32, Vec<u8>)>,
}

impl Image {
    spec fn model(&self) -> ImageModel {
        ImageModel {
            upload: bytes_model(self.upload@),
            complete: self.complete,
            placements: placements_model(self.placements@),
        }
    }
}

spec fn images_model(v: Seq<(u32, Image)>) -> Seq<(u32, ImageModel)> {
    v.map_values(|p: (u32, Image)| (p.0, p.1.model()))
}

/// Kitty graphics commands retained for a client that reattaches: complete
/// and in-progress uploads by image id, and their virtual placements.
pub struct GraphicsCache {
    images: Vec<(u32, Image)>,
    uploading: Option<u32>,
    bytes: usize,
    commands: usize,
}

impl View for GraphicsCache {
    type V = GraphicsModel;

    closed spec fn view(&self) -> GraphicsModel {
        GraphicsModel { images: images_model(self.images@), uploading: self.uploading }
    }
}

proof fn lemma_lengths_concat(a: Seq<Seq<u8>>, b: Seq<Seq<u8>>)
    ensures
        lengths(a + b) == lengths(a) + lengths(b),
    decreases b.len(),
{
    if b.len() > 0 {
        assert((a + b).drop_last() =~= a + b.drop_last());
        lemma_lengths_concat(a, b.drop_last());
    } else {
        assert(a + b =~= a);
    }
}

proof fn lemma_totals_update(images: Seq<(u32, ImageModel)>, i: int, x: (u32, ImageModel))
    requires
        0 <= i < images.len(),
    ensures
        total_bytes(images.update(i, x)) + lengths(image_commands(images[i].1)) == total_bytes(images) + lengths(
            image_commands(x.1),
        ),
        total_commands(images.update(i, x)) + image_commands(images[i].1).len() == total_commands(images)
            + image_commands(x.1).len(),
    decreases images.len(),
{
    if i < images.len() - 1 {
        assert(images.update(i, x).drop_last() =~= images.drop_last().update(i, x));
        lemma_totals_update(images.drop_last(), i, x);
    } else {
        assert(images.update(i, x).drop_last() =~= images.drop_last());
    }
}

proof fn lemma_totals_step(images: Seq<(u32, ImageModel)>, i: int)
    requires
        0 <= i < images.len(),
    ensures
        total_bytes(images.take(i + 1)) == total_bytes(images.take(i)) + lengths(image_commands(images[i].1)),
        total_commands(images.take(i + 1)) == total_commands(images.take(i)) + image_commands(images[i].1).len(),
{
    assert(images.take(i + 1).drop_last() =~= images.take(i));
}

proof fn lemma_lengths_step(s: Seq<Seq<u8>>, j: int)
    requires
        0 <= j < s.len(),
    ensures
        lengths(s.take(j + 1)) == lengths(s.take(j)) + s[j].len(),
{
    assert(s.take(j + 1).drop_last() =~= s.take(j));
}

impl GraphicsCache {
    /// The byte and command counts agree with what is retained.
    pub closed spec fn wf(&self) -> bool {
        &&& self.bytes == saturated(total_bytes(self@.images))
        &&& self.commands == saturated(total_commands(self@.images))
    }

    pub fn new() -> (r: Self)
        ensures
            r.wf(),
            r@ == empty_cache(),
    {
        let r = GraphicsCache { images: Vec::new(), uploading: None, bytes: 0, commands: 0 };
        assert(r@.images =~= Seq::<(u32, ImageModel)>::empty());
        r
    }

    /// Recomputes the byte and command counts from what is retained.
    fn recount(&mut self)
        ensures
            final(self)@ == old(self)@,
            final(self).wf(),
    {
        let ghost model = self@.images;
        let mut bytes: usize = 0;
        let mut commands: usize = 0;
        let mut i: usize = 0;
        while i < self.images.len()
            invariant
                i <= self.images@.len(),
                model == images_model(self.images@),
                bytes == saturated(total_bytes(model.take(i as int))),
                commands == saturated(total_commands(model.take(i as int))),
            decreases self.images@.len() - i,
        {
            let img = &self.images[i].1;
            let ghost cmds = image_commands(model[i as int].1);
            let ghost base_b = total_bytes(model.take(i as int));
            let ghost base_c = total_commands(model.take(i as int));
            assert(model[i as int].1 == img.model());
            let mut j: usize = 0;
            while j < img.upload.len()
                invariant
                    j <= img.upload@.len(),
                    cmds == image_commands(img.model()),
                    bytes == saturated(base_b + lengths(cmds.take(j as int))),
                    commands == saturated((base_c + j) as nat),
                decreases img.upload@.len() - j,
            {
                proof {
                    lemma_lengths_step(cmds, j as int);
                }
                assert(cmds[j as int] == img.upload@[j as int]@);
                bytes = bytes.saturating_add(img.upload[j].len());
                commands = commands.saturating_add(1);
                j += 1;
            }
            let ulen = img.upload.len();
            let mut k: usize = 0;
            while k < img.placements.len()
                invariant
                    k <= img.placements@.len(),
                    ulen == img.upload@.len(),
                    cmds == image_commands(img.model()),
                    bytes == saturated(base_b + lengths(cmds.take(ulen + k))),
                    commands == saturated((base_c + ulen + k) as nat),
                decreases img.placements@.len() - k,
            {
                proof {
                    lemma_lengths_step(cmds, ulen + k);
                }
                assert(cmds[ulen + k] == img.placements@[k as int].1@);
                bytes = bytes.saturating_add(img.placements[k].1.len());
                commands = commands.saturating_add(1);
                k += 1;
            }
            proof {
                assert(cmds.take(cmds.len() as int) =~= cmds);
                lemma_totals_step(model, i as int);
            }
            i += 1;
        }
        assert(model.take(model.len() as int) =~= model);
        self.bytes = bytes;
        self.commands = commands;
    }
}

/// Where the body of a graphics command lies, or `None` for any other sequence.
fn body_range(cmd: &[u8]) -> (r: Option<(usize, usize)>)
    ensures
        match r {
            Some((lo, hi)) => lo <= hi <= cmd@.len() && body_of(cmd@) == Some(cmd@.subrange(lo as int, hi as int))
                && lo == (if starts_with(cmd@, apc_g()) { 3int } else { 2int }),
            None => body_of(cmd@) is None,
        },
{
    let lo: usize = if has_apc_g(cmd) {
        3
    } else if has_c1_apc_g(cmd) {
        2
    } else {
        return None;
    };
    let ghost b = cmd@.skip(lo as int);
    if has_st(cmd, lo) {
        assert(b.take(b.len() - 2) =~= cmd@.subrange(lo as int, cmd@.len() - 2));
        Some((lo, cmd.len() - 2))
    } else if has_c1_st(cmd, lo) {
        assert(b.take(b.len() - 1) =~= cmd@.subrange(lo as int, cmd@.len() - 1));
        Some((lo, cmd.len() - 1))
    } else {
        assert(b =~= cmd@.subrange(lo as int, cmd@.len() as int));
        Some((lo, cmd.len()))
    }
}

/// Whether a field value found by `find_field` is the single byte `want`,
/// an absent field reading as `default`.
fn value_is(cmd: &[u8], v: Option<(usize, usize)>, default: u8, want: u8) -> (r: bool)
    requires
        match v {
            Some((a, b)) => a <= b <= cmd@.len(),
            None => true,
        },
    ensures
        r == match v {
            Some((a, b)) => is_byte(cmd@.subrange(a as int, b as int), want),
            None => default == want,
        },
{
    match v {
        Some((a, b)) => b - a == 1 && cmd[a] == want,
        None => default == want,
    }
}

/// The field `key` of the control data `cmd[lo..hi]` read as a `u32`.
fn read_number(cmd: &[u8], lo: usize, hi: usize, key: u8) -> (r: Option<u32>)
    requires
        lo <= hi <= cmd@.len(),
    ensures
        r == number(cmd@.subrange(lo as int, hi as int), key),
{
    match find_field(cmd, lo, hi, key) {
        None => None,
        Some((a, b)) => parse_unsigned_exec(cmd, a, b, 0xffff_ffff),
    }
}

proof fn lemma_image_push(img: ImageModel, q: Seq<u8>, complete: bool)
    ensures
        lengths(image_commands(ImageModel { upload: img.upload.push(q), complete, ..img })) == lengths(
            image_commands(img),
        ) + q.len(),
        image_commands(ImageModel { upload: img.upload.push(q), complete, ..img }).len() == image_commands(
            img,
        ).len() + 1,
{
    let grown = ImageModel { upload: img.upload.push(q), complete, ..img };
    let pv = img.placements.map_values(|p: (u32, Seq<u8>)| p.1);
    assert(image_commands(grown) =~= img.upload.push(q) + pv);
    assert(image_commands(img) =~= img.upload + pv);
    lemma_lengths_concat(img.upload, pv);
    lemma_lengths_concat(img.upload.push(q), pv);
    assert(img.upload.push(q).drop_last() =~= img.upload);
}

/// Sets the entry for `k` in an ordered placement list.
fn put_placement(v: &mut Vec<(u32, Vec<u8>)>, k: u32, x: Vec<u8>)
    ensures
        placements_model(final(v)@) == put(placements_model(old(v)@), k, x@),
{
    let ghost before = v@;
    let s = find_slot(v, k);
    proof {
        assert(key_seq(placements_model(before)) =~= key_seq(before));
    }
    if s < v.len() && v[s].0 == k {
        v.remove(s);
        v.insert(s, (k, x));
        assert(placements_model(v@) =~= placements_model(before).update(s as int, (k, x@)));
    } else {
        v.insert(s, (k, x));
        assert(placements_model(v@) =~= placements_model(before).insert(s as int, (k, x@)));
    }
}

impl Image {
    fn fresh() -> (r: Image)
        ensures
            r.model() == fresh_image(),
    {
        let r = Image { upload: Vec::new(), complete: false, placements: Vec::new() };
        assert(r.model().upload =~= Seq::<Seq<u8>>::empty());
        assert(r.model().placements =~= Seq::<(u32, Seq<u8>)>::empty());
        r
    }
}

impl GraphicsCache {
    /// Drops everything once the retained data has grown past its bounds.
    fn enforce_limit(&mut self)
        requires
            old(self).wf(),
        ensures
            final(self).wf(),
            final(self)@ == limited(old(self)@),
    {
        if self.bytes > MAX_RETAINED_BYTES || self.commands > MAX_RETAINED_COMMANDS {
            *self = GraphicsCache::new();
        }
    }

    fn put_image(&mut self, k: u32, img: Image)
        ensures
            final(self)@.images == put(old(self)@.images, k, img.model()),
            final(self).uploading == old(self).uploading,
    {
        let ghost before = self.images@;
        let s = find_slot(&self.images, k);
        proof {
            assert(key_seq(images_model(before)) =~= key_seq(before));
        }
        if s < self.images.len() && self.images[s].0 == k {
            self.images.remove(s);
            self.images.insert(s, (k, img));
            assert(images_model(self.images@) =~= images_model(before).update(s as int, (k, img.model())));
        } else {
            self.images.insert(s, (k, img));
            assert(images_model(self.images@) =~= images_model(before).insert(s as int, (k, img.model())));
        }
    }

    fn remove_image(&mut self, k: u32)
        ensures
            final(self)@.images == without(old(self)@.images, k),
            final(self).uploading == old(self).uploading,
    {
        let ghost before = self.images@;
        let s = find_slot(&self.images, k);
        proof {
            assert(key_seq(images_model(before)) =~= key_seq(before));
        }
        if s < self.images.len() && self.images[s].0 == k {
            self.images.remove(s);
            assert(images_model(self.images@) =~= images_model(before).remove(s as int));
        }
    }

    fn holds_image(&self, k: u32) -> (r: bool)
        ensures
            r == has_key(self@.images, k),
    {
        let s = find_slot(&self.images, k);
        proof {
            assert(key_seq(images_model(self.images@)) =~= key_seq(self.images@));
        }
        s < self.images.len() && self.images[s].0 == k
    }

    fn clear_placements(&mut self)
        ensures
            final(self)@.images == without_placements(old(self)@.images),
            final(self).uploading == old(self).uploading,
    {
        let ghost om = self@.images;
        let mut i: usize = 0;
        while i < self.images.len()
            invariant
                i <= self.images@.len(),
                self.images@.len() == om.len(),
                self.uploading == old(self).uploading,
                forall|j: int|
                    0 <= j < i ==> #[trigger] images_model(self.images@)[j] == (
                        om[j].0,
                        ImageModel { placements: Seq::empty(), ..om[j].1 },
                    ),
                forall|j: int| i <= j < om.len() ==> #[trigger] images_model(self.images@)[j] == om[j],
            decreases om.len() - i,
        {
            let ghost prev = self.images@;
            assert(images_model(prev)[i as int] == om[i as int]);
            let (k, mut img) = self.images.remove(i);
            img.placements = Vec::new();
            assert(placements_model(img.placements@) =~= Seq::<(u32, Seq<u8>)>::empty());
            self.images.insert(i, (k, img));
            assert(self.images@ =~= prev.update(i as int, (k, img)));
            assert(img.model() == ImageModel { placements: Seq::empty(), ..om[i as int].1 });
            assert forall|j: int| 0 <= j < om.len() && j != i implies #[trigger] images_model(self.images@)[j]
                == images_model(prev)[j] by {}
            i += 1;
        }
        assert(images_model(self.images@) =~= without_placements(om));
    }

    fn delete_placements(&mut self, id: u32, placement: Option<u32>, drop_empty: bool)
        ensures
            final(self)@.images == delete_in(old(self)@.images, id, placement, drop_empty),
            final(self).uploading == old(self).uploading,
    {
        let ghost before = self.images@;
        let ghost om = images_model(before);
        let s = find_slot(&self.images, id);
        proof {
            assert(key_seq(om) =~= key_seq(before));
        }
        if s < self.images.len() && self.images[s].0 == id {
            let (k, mut img) = self.images.remove(s);
            let ghost pv = img.placements@;
            match placement {
                Some(p) => {
                    let t = find_slot(&img.placements, p);
                    proof {
                        assert(key_seq(placements_model(pv)) =~= key_seq(pv));
                    }
                    if t < img.placements.len() && img.placements[t].0 == p {
                        img.placements.remove(t);
                        assert(placements_model(img.placements@) =~= placements_model(pv).remove(t as int));
                    }
                },
                None => {
                    img.placements = Vec::new();
                    assert(placements_model(img.placements@) =~= Seq::<(u32, Seq<u8>)>::empty());
                },
            }
            if !(drop_empty && img.placements.len() == 0) {
                self.images.insert(s, (k, img));
                assert(images_model(self.images@) =~= om.update(s as int, (id, img.model())));
            } else {
                assert(images_model(self.images@) =~= om.remove(s as int));
            }
        }
    }

    fn delete(&mut self, cmd: &[u8], lo: usize, semi: usize, id: Option<u32>, placement: Option<u32>)
        requires
            old(self).wf(),
            lo <= semi <= cmd@.len(),
            id == number(cmd@.subrange(lo as int, semi as int), 0x69),
            placement == number(cmd@.subrange(lo as int, semi as int), 0x70),
        ensures
            final(self).wf(),
            final(self)@ == delete_spec(old(self)@, cmd@.subrange(lo as int, semi as int)),
    {
        let deletion = find_field(cmd, lo, semi, 0x64);
        if value_is(cmd, deletion, 0x61, 0x41) {
            *self = GraphicsCache::new();
            return;
        }
        if value_is(cmd, deletion, 0x61, 0x61) {
            self.clear_placements();
        } else if value_is(cmd, deletion, 0x61, 0x69) || value_is(cmd, deletion, 0x61, 0x49) {
            if let Some(id) = id {
                let drop_empty = value_is(cmd, deletion, 0x61, 0x49);
                self.delete_placements(id, placement, drop_empty);
                if self.uploading == Some(id) && !self.holds_image(id) {
                    self.uploading = None;
                }
            }
        }
        self.recount();
    }

    fn place(&mut self, cmd: &[u8], lo: usize, semi: usize, id: Option<u32>, placement: Option<u32>)
        requires
            old(self).wf(),
            lo <= semi <= cmd@.len(),
            quietable(cmd@),
            id == number(cmd@.subrange(lo as int, semi as int), 0x69),
            placement == number(cmd@.subrange(lo as int, semi as int), 0x70),
        ensures
            final(self).wf(),
            final(self)@ == limited(place_spec(old(self)@, cmd@.subrange(lo as int, semi as int), cmd@)),
    {
        let ghost before = self.images@;
        let ghost om = images_model(before);
        if let Some(id) = id {
            let virtual_placement = find_field(cmd, lo, semi, 0x55);
            if value_is(cmd, virtual_placement, 0, 0x31) {
                let s = find_slot(&self.images, id);
                proof {
                    assert(key_seq(om) =~= key_seq(before));
                }
                if s < self.images.len() && self.images[s].0 == id {
                    let (k, mut img) = self.images.remove(s);
                    let p = match placement {
                        Some(p) => p,
                        None => 0,
                    };
                    let q = quiet(cmd);
                    put_placement(&mut img.placements, p, q);
                    self.images.insert(s, (k, img));
                    assert(images_model(self.images@) =~= om.update(s as int, (id, img.model())));
                }
            }
        }
        self.recount();
        self.enforce_limit();
    }

    fn transmit(&mut self, cmd: &[u8], lo: usize, semi: usize, id: Option<u32>)
        requires
            old(self).wf(),
            lo <= semi <= cmd@.len(),
            quietable(cmd@),
            id == number(cmd@.subrange(lo as int, semi as int), 0x69),
        ensures
            final(self).wf(),
            final(self)@ == transmit_spec(old(self)@, cmd@.subrange(lo as int, semi as int), cmd@),
    {
        let continuing = self.uploading;
        self.uploading = None;
        let target = match continuing {
            Some(c) => Some(c),
            None => id,
        };
        let t = match target {
            Some(t) => t,
            None => {
                return;
            },
        };
        if t == 0 {
            return;
        }
        if continuing.is_none() {
            let medium = find_field(cmd, lo, semi, 0x74);
            if !(medium.is_none() || value_is(cmd, medium, 0, 0x64) || value_is(cmd, medium, 0, 0x66)) {
                self.remove_image(t);
                self.recount();
                return;
            }
            self.put_image(t, Image::fresh());
            self.recount();
        }
        let ghost before = self.images@;
        let ghost om = images_model(before);
        let s = find_slot(&self.images, t);
        proof {
            assert(key_seq(om) =~= key_seq(before));
        }
        if s < self.images.len() && self.images[s].0 == t {
            let (k, mut img) = self.images.remove(s);
            let ghost old_img = img.model();
            let q = quiet(cmd);
            let qlen = q.len();
            img.upload.push(q);
            let more = find_field(cmd, lo, semi, 0x6d);
            img.complete = !value_is(cmd, more, 0, 0x31);
            assert(bytes_model(img.upload@) =~= old_img.upload.push(quiet_spec(cmd@)));
            if !img.complete {
                self.uploading = Some(t);
            }
            self.images.insert(s, (k, img));
            assert(images_model(self.images@) =~= om.update(s as int, (t, img.model())));
            proof {
                lemma_image_push(old_img, quiet_spec(cmd@), img.complete);
                lemma_totals_update(om, s as int, (t, img.model()));
            }
            self.bytes = self.bytes.saturating_add(qlen);
            self.commands = self.commands.saturating_add(1);
        }
        self.enforce_limit();
    }

    fn replay_into(&self, out: &mut Vec<Vec<u8>>, complete: bool)
        ensures
            bytes_model(final(out)@) == bytes_model(old(out)@) + replay_part(self@.images, complete),
    {
        let ghost model = self@.images;
        let ghost base = bytes_model(out@);
        let mut i: usize = 0;
        while i < self.images.len()
            invariant
                i <= self.images@.len(),
                model == images_model(self.images@),
                bytes_model(out@) == base + replay_part(model.take(i as int), complete),
            decreases self.images@.len() - i,
        {
            let img = &self.images[i].1;
            let ghost cmds = image_commands(img.model());
            let ghost start = bytes_model(out@);
            assert(model.take(i + 1).drop_last() =~= model.take(i as int));
            if img.complete == complete {
                let mut j: usize = 0;
                while j < img.upload.len()
                    invariant
                        j <= img.upload@.len(),
                        cmds == image_commands(img.model()),
                        bytes_model(out@) == start + cmds.take(j as int),
                    decreases img.upload@.len() - j,
                {
                    let mut copy: Vec<u8> = Vec::new();
                    push_range(&mut copy, img.upload[j].as_slice(), 0, img.upload[j].len());
                    let ghost prev = out@;
                    out.push(copy);
                    assert(copy@ =~= cmds[j as int]);
                    assert(bytes_model(out@) =~= bytes_model(prev).push(copy@));
                    assert(cmds.take(j + 1) =~= cmds.take(j as int).push(cmds[j as int]));
                    j += 1;
                }
                let ulen = img.upload.len();
                let mut k: usize = 0;
                while k < img.placements.len()
                    invariant
                        k <= img.placements@.len(),
                        ulen == img.upload@.len(),
                        cmds == image_commands(img.model()),
                        bytes_model(out@) == start + cmds.take(ulen + k),
                    decreases img.placements@.len() - k,
                {
                    let mut copy: Vec<u8> = Vec::new();
                    push_range(&mut copy, img.placements[k].1.as_slice(), 0, img.placements[k].1.len());
                    let ghost prev = out@;
                    out.push(copy);
                    assert(copy@ =~= cmds[ulen + k]);
                    assert(bytes_model(out@) =~= bytes_model(prev).push(copy@));
                    assert(cmds.take(ulen + k + 1) =~= cmds.take(ulen + k).push(cmds[ulen + k]));
                    k += 1;
                }
                assert(cmds.take(cmds.len() as int) =~= cmds);
                assert(model[i as int].1 == img.model());
            } else {
                assert(bytes_model(out@) =~= start + Seq::<Seq<u8>>::empty());
            }
            i += 1;
        }
        assert(model.take(model.len() as int) =~= model);
    }

    /// The retained commands in the order a reattaching client needs them:
    /// complete uploads first, each followed by its placements, by image id.
    pub fn replay(&self) -> (r: Vec<Vec<u8>>)
        ensures
            bytes_model(r@) == replay_spec(self@),
    {
        let mut out: Vec<Vec<u8>> = Vec::new();
        assert(bytes_model(out@) =~= Seq::<Seq<u8>>::empty());
        self.replay_into(&mut out, true);
        self.replay_into(&mut out, false);
        out
    }

    /// Retains what a reattaching client needs of one graphics command.
    /// A command that consists of its introducer alone ends any upload in
    /// progress; it cannot be rewritten as the continuation of an upload of a
    /// retained image, so it is not accepted there.
    pub fn record(&mut self, command: &[u8])
        requires
            old(self).wf(),
            bare_introducer(command@) ==> !continues_upload(old(self)@),
        ensures
            final(self).wf(),
            final(self)@ == record_spec(old(self)@, command@),
    {
        let (lo, hi) = match body_range(command) {
            Some(r) => r,
            None => {
                return;
            },
        };
        if (lo == 3 && command.len() == 3) || (lo == 2 && command.len() == 2) {
            proof {
                if lo == 3 {
                    assert(command@.take(3) =~= command@);
                } else {
                    assert(command@.take(2) =~= command@);
                }
                let body = command@.subrange(lo as int, hi as int);
                assert(body =~= Seq::<u8>::empty());
                assert(control_of(body) =~= Seq::<u8>::empty());
                assert(index_of(Seq::<u8>::empty(), 0x2c) == 0);
                assert(field_value(Seq::<u8>::empty(), 0x61) is None);
                assert(field_value(Seq::<u8>::empty(), 0x69) is None);
            }
            match self.uploading {
                None => {},
                Some(c) => {
                    self.uploading = None;
                    if c != 0 {
                        self.enforce_limit();
                    }
                },
            }
            return;
        }
        proof {
            if command@.len() == 3 {
                assert(command@.take(3) =~= command@);
            }
            if command@.len() == 2 {
                assert(command@.take(2) =~= command@);
            }
        }
        assert(quietable(command@));
        let semi = find_byte(command, lo, hi, 0x3b);
        assert(control_of(command@.subrange(lo as int, hi as int)) =~= command@.subrange(lo as int, semi as int));
        let action = find_field(command, lo, semi, 0x61);
        let id = read_number(command, lo, semi, 0x69);
        let placement = read_number(command, lo, semi, 0x70);
        if value_is(command, action, 0x74, 0x64) {
            self.delete(command, lo, semi, id, placement);
        } else if value_is(command, action, 0x74, 0x70) {
            self.place(command, lo, semi, id, placement);
        } else if value_is(command, action, 0x74, 0x74) {
            self.transmit(command, lo, semi, id);
        } else {
            self.enforce_limit();
        }
    }
}

/// A command that is its introducer alone, with no body and no terminator.
pub open spec fn bare_introducer(cmd: Seq<u8>) -> bool {
    cmd == apc_g() || cmd == c1_apc_g()
}

/// Whether the next transmission continues the upload of a retained image.
pub open spec fn continues_upload(m: GraphicsModel) -> bool {
    match m.uploading {
        Some(c) => c != 0 && has_key(m.images, c),
        None => false,
    }
}

/// Whether a graphics command transmits through shared memory (`t=s`): the
/// terminal reads and frees such an upload at once, so it is forwarded without delay.
pub open spec fn shared_memory_spec(cmd: Seq<u8>) -> bool {
    match body_of(cmd) {
        Some(body) => field_or_is(control_of(body), 0x74, 0x64, 0x73),
        None => false,
    }
}

pub fn kitty_graphics_uses_shared_memory(command: &[u8]) -> (r: bool)
    ensures
        r == shared_memory_spec(command@),
{
    match body_range(command) {
        None => false,
        Some((lo, hi)) => {
            let semi = find_byte(command, lo, hi, 0x3b);
            assert(control_of(command@.subrange(lo as int, hi as int)) =~= command@.subrange(lo as int, semi as int));
            let medium = find_field(command, lo, semi, 0x74);
            value_is(command, medium, 0x64, 0x73)
        },
    }
}

// ---------------------------------------------------------------------------
// Separating graphics commands from a child's output.

/// The parser's state: the bytes held back (a possible introducer, or a
/// command still waiting for its terminator), and how many UTF-8
/// continuation bytes the text expects next.
pub struct ParserModel {
    pub pending: Seq<u8>,
    pub utf8_left: nat,
}

/// How many continuation bytes follow a UTF-8 lead byte.
pub open spec fn utf8_lead_len(b: u8) -> nat {
    if 0xc0 <= b < 0xe0 {
        1
    } else if 0xe0 <= b < 0xf0 {
        2
    } else if 0xf0 <= b < 0xf8 {
        3
    } else {
        0
    }
}

/// A byte of text. `ESC` and the C1 control `APC` (0x9f) may begin a graphics
/// command and are held back, except that 0x9f inside a UTF-8 character is a
/// continuation byte.
pub open spec fn text_step(utf8_left: nat, b: u8) -> (ParserModel, Seq<u8>) {
    if utf8_left > 0 && 0x80 <= b < 0xc0 {
        (ParserModel { pending: Seq::empty(), utf8_left: (utf8_left - 1) as nat }, seq![b])
    } else if b == 0x1b || b == 0x9f {
        (ParserModel { pending: seq![b], utf8_left: 0 }, Seq::empty())
    } else {
        (ParserModel { pending: Seq::empty(), utf8_left: utf8_lead_len(b) }, seq![b])
    }
}

/// Whether the held bytes are an introducer still being read: `ESC`, `ESC _`, or `APC`.
pub open spec fn introducing(p: Seq<u8>) -> bool {
    p.len() == 1 || (p.len() == 2 && p[0] == 0x1b && p[1] == 0x5f)
}

/// One byte: the new state, the text it releases, and the commands it completes.
pub open spec fn parser_step(m: ParserModel, b: u8) -> (ParserModel, Seq<u8>, Seq<Seq<u8>>) {
    let p = m.pending;
    if p.len() == 0 {
        let (n, out) = text_step(m.utf8_left, b);
        (n, out, Seq::empty())
    } else if p.len() == 1 && p[0] == 0x1b && b == 0x5f {
        (ParserModel { pending: p.push(b), utf8_left: 0 }, Seq::empty(), Seq::empty())
    } else if introducing(p) && p.last() != 0x1b && b == 0x47 {
        (ParserModel { pending: p.push(b), utf8_left: 0 }, Seq::empty(), Seq::empty())
    } else if introducing(p) {
        let (n, out) = text_step(0, b);
        (n, p + out, Seq::empty())
    } else if b == 0x9c || (b == 0x5c && p.last() == 0x1b) {
        (ParserModel { pending: Seq::empty(), utf8_left: 0 }, Seq::empty(), seq![p.push(b)])
    } else {
        (ParserModel { pending: p.push(b), utf8_left: 0 }, Seq::empty(), Seq::empty())
    }
}

pub open spec fn parser_feed(m: ParserModel, bytes: Seq<u8>) -> (ParserModel, Seq<u8>, Seq<Seq<u8>>)
    decreases bytes.len(),
{
    if bytes.len() == 0 {
        (m, Seq::empty(), Seq::empty())
    } else {
        let (m1, out1, cmds1) = parser_feed(m, bytes.drop_last());
        let (m2, out2, cmds2) = parser_step(m1, bytes.last());
        (m2, out1 + out2, cmds1 + cmds2)
    }
}

/// What one call of the parser separates: text for the terminal emulator, in
/// order, and complete graphics commands, in order.
pub struct GraphicsOutput {
    pub terminal: Vec<u8>,
    pub commands: Vec<Vec<u8>>,
}

/// Separates Kitty graphics commands (`ESC _ G ... ESC \`, or with the C1
/// controls `APC G ... ST`) from a child's output, however the reads split them.
/// A command is passed on whole, however large; any other APC string stays text.
pub struct KittyGraphicsParser {
    pending: Vec<u8>,
    utf8_left: u8,
}

impl View for KittyGraphicsParser {
    type V = ParserModel;

    closed spec fn view(&self) -> ParserModel {
        ParserModel { pending: self.pending@, utf8_left: self.utf8_left as nat }
    }
}

impl KittyGraphicsParser {
    pub closed spec fn inv(&self) -> bool {
        self.utf8_left <= 3
    }

    pub fn new() -> (r: Self)
        ensures
            r.inv(),
            r@ == (ParserModel { pending: Seq::empty(), utf8_left: 0 }),
    {
        let r = KittyGraphicsParser { pending: Vec::new(), utf8_left: 0 };
        assert(r@.pending =~= Seq::<u8>::empty());
        r
    }

    fn text_byte(&mut self, b: u8, terminal: &mut Vec<u8>)
        requires
            old(self).inv(),
            old(self)@.pending.len() == 0 || introducing(old(self)@.pending),
        ensures
            final(self).inv(),
            final(self)@ == text_step(
                if old(self)@.pending.len() == 0 {
                    old(self)@.utf8_left
                } else {
                    0
                },
                b,
            ).0,
            final(terminal)@ == old(terminal)@ + text_step(
                if old(self)@.pending.len() == 0 {
                    old(self)@.utf8_left
                } else {
                    0
                },
                b,
            ).1,
    {
        let left = if self.pending.len() == 0 {
            self.utf8_left
        } else {
            0
        };
        self.pending = Vec::new();
        if left > 0 && 0x80 <= b && b < 0xc0 {
            self.utf8_left = left - 1;
            terminal.push(b);
        } else if b == 0x1b || b == 0x9f {
            self.pending.push(b);
            self.utf8_left = 0;
        } else {
            self.utf8_left = if 0xc0 <= b && b < 0xe0 {
                1
            } else if 0xe0 <= b && b < 0xf0 {
                2
            } else if 0xf0 <= b && b < 0xf8 {
                3
            } else {
                0
            };
            terminal.push(b);
        }
        assert(self@.pending =~= text_step(left as nat, b).0.pending);
        assert(terminal@ =~= old(terminal)@ + text_step(left as nat, b).1);
    }

    fn step(&mut self, b: u8, terminal: &mut Vec<u8>, commands: &mut Vec<Vec<u8>>)
        requires
            old(self).inv(),
        ensures
            final(self).inv(),
            final(self)@ == parser_step(old(self)@, b).0,
            final(terminal)@ == old(terminal)@ + parser_step(old(self)@, b).1,
            bytes_model(final(commands)@) == bytes_model(old(commands)@) + parser_step(old(self)@, b).2,
    {
        let ghost p = self.pending@;
        let n = self.pending.len();
        assert(bytes_model(commands@) =~= bytes_model(commands@) + Seq::<Seq<u8>>::empty());
        if n == 0 {
            self.text_byte(b, terminal);
        } else if n == 1 && self.pending[0] == 0x1b && b == 0x5f {
            self.pending.push(b);
            self.utf8_left = 0;
            assert(terminal@ =~= terminal@ + Seq::<u8>::empty());
        } else if (n == 1 || (n == 2 && self.pending[0] == 0x1b && self.pending[1] == 0x5f)) && self.pending[n - 1]
            != 0x1b && b == 0x47 {
            self.pending.push(b);
            self.utf8_left = 0;
            assert(terminal@ =~= terminal@ + Seq::<u8>::empty());
        } else if n == 1 || (n == 2 && self.pending[0] == 0x1b && self.pending[1] == 0x5f) {
            let mut i: usize = 0;
            while i < n
                invariant
                    n == p.len(),
                    self.pending@ == p,
                    i <= n,
                    terminal@ == old(terminal)@ + p.take(i as int),
                decreases n - i,
            {
                terminal.push(self.pending[i]);
                assert(p.take(i + 1) =~= p.take(i as int).push(p[i as int]));
                i += 1;
            }
            assert(p.take(n as int) =~= p);
            let ghost mid = terminal@;
            self.text_byte(b, terminal);
            assert(terminal@ =~= old(terminal)@ + (p + text_step(0, b).1));
        } else if b == 0x9c || (b == 0x5c && self.pending[n - 1] == 0x1b) {
            self.pending.push(b);
            let mut done: Vec<u8> = Vec::new();
            std::mem::swap(&mut done, &mut self.pending);
            let ghost before = commands@;
            commands.push(done);
            self.utf8_left = 0;
            assert(bytes_model(commands@) =~= bytes_model(before) + seq![p.push(b)]);
            assert(self@.pending =~= Seq::<u8>::empty());
            assert(terminal@ =~= terminal@ + Seq::<u8>::empty());
        } else {
            self.pending.push(b);
            self.utf8_left = 0;
            assert(terminal@ =~= terminal@ + Seq::<u8>::empty());
        }
    }

    /// Splits the next read of a child's output.
    pub fn process(&mut self, bytes: &[u8]) -> (r: GraphicsOutput)
        requires
            old(self).inv(),
        ensures
            final(self).inv(),
            (final(self)@, r.terminal@, bytes_model(r.commands@)) == parser_feed(old(self)@, bytes@),
    {
        let mut terminal: Vec<u8> = Vec::new();
        let mut commands: Vec<Vec<u8>> = Vec::new();
        let mut i: usize = 0;
        assert(bytes@.take(0) =~= Seq::<u8>::empty());
        assert(bytes_model(commands@) =~= Seq::<Seq<u8>>::empty());
        while i < bytes.len()
            invariant
                i <= bytes@.len(),
                self.inv(),
                (self@, terminal@, bytes_model(commands@)) == parser_feed(old(self)@, bytes@.take(i as int)),
            decreases bytes@.len() - i,
        {
            assert(bytes@.take(i + 1).drop_last() =~= bytes@.take(i as int));
            self.step(bytes[i], &mut terminal, &mut commands);
            i += 1;
        }
        assert(bytes@.take(bytes@.len() as int) =~= bytes@);
        GraphicsOutput { terminal, commands }
    }
}

impl Default for KittyGraphicsParser {
    fn default() -> (r: Self)
        ensures
            r.inv(),
            r@ == (ParserModel { pending: Seq::empty(), utf8_left: 0 }),
    {
        KittyGraphicsParser::new()
    }
}

/// Images by ascending id, each with its placements by ascending placement id.
pub open spec fn ordered(m: GraphicsModel) -> bool {
    &&& increasing(key_seq(m.images))
    &&& forall|i: int| 0 <= i < m.images.len() ==> increasing(key_seq(#[trigger] m.images[i].1.placements))
}

proof fn lemma_put_keys<V>(s: Seq<(u32, V)>, k: u32, v: V)
    requires
        increasing(key_seq(s)),
    ensures
        increasing(key_seq(put(s, k, v))),
        forall|j: int|
            0 <= j < put(s, k, v).len() ==> #[trigger] put(s, k, v)[j] == (k, v) || exists|i: int|
                0 <= i < s.len() && put(s, k, v)[j] == s[i],
{
    let keys = key_seq(s);
    let i = slot(keys, k) as int;
    lemma_slot_bound(keys, k);
    let r = put(s, k, v);
    if has_key(s, k) {
        assert(key_seq(r) =~= keys);
        assert forall|j: int| 0 <= j < r.len() implies #[trigger] r[j] == (k, v) || exists|l: int|
            0 <= l < s.len() && r[j] == s[l] by {
            if j != i {
                assert(r[j] == s[j]);
            }
        }
    } else {
        assert(key_seq(r) =~= keys.insert(i, k));
        assert forall|a: int, b: int| 0 <= a < b < key_seq(r).len() implies key_seq(r)[a] < key_seq(r)[b] by {
            if i < keys.len() {
                assert(keys[i] > k);
            }
            if a < i && b > i {
                assert(keys[a] < k);
            }
            if a == i && b > i {
                assert(keys[i] <= keys[b - 1]);
            }
        }
        assert forall|j: int| 0 <= j < r.len() implies #[trigger] r[j] == (k, v) || exists|l: int|
            0 <= l < s.len() && r[j] == s[l] by {
            if j < i {
                assert(r[j] == s[j]);
            } else if j > i {
                assert(r[j] == s[j - 1]);
            }
        }
    }
}

proof fn lemma_without_keys<V>(s: Seq<(u32, V)>, k: u32)
    requires
        increasing(key_seq(s)),
    ensures
        increasing(key_seq(without(s, k))),
        forall|j: int|
            0 <= j < without(s, k).len() ==> exists|i: int| 0 <= i < s.len() && #[trigger] without(s, k)[j] == s[i],
{
    let r = without(s, k);
    if has_key(s, k) {
        let i = slot(key_seq(s), k) as int;
        assert(key_seq(r) =~= key_seq(s).remove(i));
        assert forall|j: int| 0 <= j < r.len() implies exists|l: int| 0 <= l < s.len() && #[trigger] r[j] == s[l] by {
            if j < i {
                assert(r[j] == s[j]);
            } else {
                assert(r[j] == s[j + 1]);
            }
        }
    } else {
        assert forall|j: int| 0 <= j < r.len() implies exists|l: int| 0 <= l < s.len() && #[trigger] r[j] == s[l] by {
            assert(r[j] == s[j]);
        }
    }
}

proof fn lemma_put_image_ordered(images: Seq<(u32, ImageModel)>, k: u32, img: ImageModel)
    requires
        ordered(GraphicsModel { images, uploading: None }),
        increasing(key_seq(img.placements)),
    ensures
        ordered(GraphicsModel { images: put(images, k, img), uploading: None }),
{
    lemma_put_keys(images, k, img);
    let r = put(images, k, img);
    assert forall|j: int| 0 <= j < r.len() implies increasing(key_seq(#[trigger] r[j].1.placements)) by {
        if r[j] != (k, img) {
            let l = choose|l: int| 0 <= l < images.len() && r[j] == images[l];
            assert(increasing(key_seq(images[l].1.placements)));
        }
    }
}

proof fn lemma_without_image_ordered(images: Seq<(u32, ImageModel)>, k: u32)
    requires
        ordered(GraphicsModel { images, uploading: None }),
    ensures
        ordered(GraphicsModel { images: without(images, k), uploading: None }),
{
    lemma_without_keys(images, k);
    let r = without(images, k);
    assert forall|j: int| 0 <= j < r.len() implies increasing(key_seq(#[trigger] r[j].1.placements)) by {
        let l = choose|l: int| 0 <= l < images.len() && r[j] == images[l];
        assert(increasing(key_seq(images[l].1.placements)));
    }
}

proof fn lemma_value_ordered(images: Seq<(u32, ImageModel)>, k: u32)
    requires
        ordered(GraphicsModel { images, uploading: None }),
        has_key(images, k),
    ensures
        increasing(key_seq(value_of(images, k).placements)),
{
    let i = slot(key_seq(images), k) as int;
    assert(increasing(key_seq(images[i].1.placements)));
}

/// Recording a command keeps images ordered by id and each image's
/// placements ordered by placement id, so each id has at most one entry.
pub proof fn lemma_record_keeps_ids_ordered(m: GraphicsModel, cmd: Seq<u8>)
    requires
        ordered(m),
    ensures
        ordered(record_spec(m, cmd)),
{
    let e = Seq::<(u32, ImageModel)>::empty();
    assert(key_seq(e) =~= Seq::<u32>::empty());
    assert(ordered(empty_cache()));
    let plain = GraphicsModel { images: m.images, uploading: None };
    assert(ordered(plain));
    match body_of(cmd) {
        None => {},
        Some(body) => {
            let control = control_of(body);
            if field_or_is(control, 0x61, 0x74, 0x64) {
                let cleared = without_placements(m.images);
                assert(key_seq(cleared) =~= key_seq(m.images));
                assert forall|i: int| 0 <= i < cleared.len() implies increasing(
                    key_seq(#[trigger] cleared[i].1.placements),
                ) by {
                    assert(key_seq(cleared[i].1.placements) =~= Seq::<u32>::empty());
                }
                match number(control, 0x69) {
                    None => {},
                    Some(id) => {
                        if has_key(m.images, id) {
                            lemma_value_ordered(m.images, id);
                            let img = value_of(m.images, id);
                            match number(control, 0x70) {
                                Some(p) => lemma_without_keys(img.placements, p),
                                None => assert(key_seq(Seq::<(u32, Seq<u8>)>::empty()) =~= Seq::<u32>::empty()),
                            }
                            let kept = ImageModel {
                                placements: match number(control, 0x70) {
                                    Some(p) => without(img.placements, p),
                                    None => Seq::empty(),
                                },
                                ..img
                            };
                            lemma_put_image_ordered(m.images, id, kept);
                            lemma_without_image_ordered(m.images, id);
                        }
                    },
                }
            } else if field_or_is(control, 0x61, 0x74, 0x70) {
                match number(control, 0x69) {
                    Some(id) => if has_key(m.images, id) {
                        lemma_value_ordered(m.images, id);
                        let img = value_of(m.images, id);
                        let p = match number(control, 0x70) {
                            Some(p) => p,
                            None => 0,
                        };
                        lemma_put_keys(img.placements, p, quiet_spec(cmd));
                        lemma_put_image_ordered(
                            m.images,
                            id,
                            ImageModel { placements: put(img.placements, p, quiet_spec(cmd)), ..img },
                        );
                    },
                    None => {},
                }
            } else if field_or_is(control, 0x61, 0x74, 0x74) {
                let target = match m.uploading {
                    Some(c) => Some(c),
                    None => number(control, 0x69),
                };
                match target {
                    None => {},
                    Some(t) => {
                        lemma_without_image_ordered(m.images, t);
                        assert(key_seq(fresh_image().placements) =~= Seq::<u32>::empty());
                        lemma_put_image_ordered(m.images, t, fresh_image());
                        let images = if m.uploading is None {
                            put(m.images, t, fresh_image())
                        } else {
                            m.images
                        };
                        if has_key(images, t) {
                            lemma_value_ordered(images, t);
                            let img = value_of(images, t);
                            let complete = !field_or_is(control, 0x6d, 0x30, 0x31);
                            lemma_put_image_ordered(
                                images,
                                t,
                                ImageModel { upload: img.upload.push(quiet_spec(cmd)), complete, ..img },
                            );
                        }
                    },
                }
            }
        },
    }
}

impl Default for GraphicsCache {
    fn default() -> (r: Self)
        ensures
            r.wf(),
            r@ == empty_cache(),
    {
        GraphicsCache::new()
    }
}


proof fn lemma_totals_remove(images: Seq<(u32, ImageModel)>, i: int)
    requires
        0 <= i < images.len(),
    ensures
        total_bytes(images.remove(i)) + lengths(image_commands(images[i].1)) == total_bytes(images),
        total_commands(images.remove(i)) + image_commands(images[i].1).len() == total_commands(images),
    decreases images.len(),
{
    if i < images.len() - 1 {
        assert(images.remove(i).drop_last() =~= images.drop_last().remove(i));
        lemma_totals_remove(images.drop_last(), i);
    } else {
        assert(images.remove(i) =~= images.drop_last());
    }
}

proof fn lemma_lengths_remove(s: Seq<Seq<u8>>, k: int)
    requires
        0 <= k < s.len(),
    ensures
        lengths(s.remove(k)) + s[k].len() == lengths(s),
    decreases s.len(),
{
    if k < s.len() - 1 {
        assert(s.remove(k).drop_last() =~= s.drop_last().remove(k));
        lemma_lengths_remove(s.drop_last(), k);
    } else {
        assert(s.remove(k) =~= s.drop_last());
    }
}

pub open spec fn placement_commands(p: Seq<(u32, Seq<u8>)>) -> Seq<Seq<u8>> {
    p.map_values(|e: (u32, Seq<u8>)| e.1)
}

/// An image with the same upload and its placements cleared, or one of them
/// removed, retains no more than before.
proof fn lemma_fewer_placements(img: ImageModel, kept: ImageModel, placement: Option<u32>)
    requires
        kept.upload == img.upload,
        kept.placements == match placement {
            Some(p) => without(img.placements, p),
            None => Seq::empty(),
        },
    ensures
        lengths(image_commands(kept)) <= lengths(image_commands(img)),
        image_commands(kept).len() <= image_commands(img).len(),
{
    assert(image_commands(img) == img.upload + placement_commands(img.placements));
    assert(image_commands(kept) == img.upload + placement_commands(kept.placements));
    lemma_lengths_concat(img.upload, placement_commands(img.placements));
    lemma_lengths_concat(img.upload, placement_commands(kept.placements));
    match placement {
        None => {
            assert(placement_commands(kept.placements) =~= Seq::<Seq<u8>>::empty());
        },
        Some(p) => {
            if has_key(img.placements, p) {
                let k = slot(key_seq(img.placements), p) as int;
                assert(placement_commands(kept.placements) =~= placement_commands(img.placements).remove(k));
                lemma_lengths_remove(placement_commands(img.placements), k);
            }
        },
    }
}

proof fn lemma_cleared_smaller(images: Seq<(u32, ImageModel)>)
    ensures
        total_bytes(without_placements(images)) <= total_bytes(images),
        total_commands(without_placements(images)) <= total_commands(images),
    decreases images.len(),
{
    if images.len() > 0 {
        assert(without_placements(images).drop_last() =~= without_placements(images.drop_last()));
        lemma_cleared_smaller(images.drop_last());
        let img = images.last().1;
        lemma_fewer_placements(img, ImageModel { placements: Seq::empty(), ..img }, None);
    }
}

proof fn lemma_delete_in_smaller(images: Seq<(u32, ImageModel)>, id: u32, placement: Option<u32>, drop_empty: bool)
    ensures
        total_bytes(delete_in(images, id, placement, drop_empty)) <= total_bytes(images),
        total_commands(delete_in(images, id, placement, drop_empty)) <= total_commands(images),
{
    if has_key(images, id) {
        let i = slot(key_seq(images), id) as int;
        let img = value_of(images, id);
        let kept = ImageModel {
            placements: match placement {
                Some(p) => without(img.placements, p),
                None => Seq::empty(),
            },
            ..img
        };
        lemma_fewer_placements(img, kept, placement);
        if drop_empty && kept.placements.len() == 0 {
            lemma_totals_remove(images, i);
        } else {
            lemma_totals_update(images, i, (id, kept));
        }
    }
}

/// Starting within the bounds on retained bytes and commands, recording any
/// command stays within them: what grows is checked, and what shrinks cannot
/// cross them.
pub proof fn lemma_record_stays_within_limits(m: GraphicsModel, cmd: Seq<u8>)
    requires
        !over_limit(m),
    ensures
        !over_limit(record_spec(m, cmd)),
{
    assert(!over_limit(empty_cache()));
    match body_of(cmd) {
        None => {},
        Some(body) => {
            let control = control_of(body);
            if field_or_is(control, 0x61, 0x74, 0x64) {
                if field_or_is(control, 0x64, 0x61, 0x41) {
                } else if field_or_is(control, 0x64, 0x61, 0x61) {
                    lemma_cleared_smaller(m.images);
                } else if field_or_is(control, 0x64, 0x61, 0x69) || field_or_is(control, 0x64, 0x61, 0x49) {
                    match number(control, 0x69) {
                        None => {},
                        Some(id) => lemma_delete_in_smaller(
                            m.images,
                            id,
                            number(control, 0x70),
                            field_or_is(control, 0x64, 0x61, 0x49),
                        ),
                    }
                }
            } else if field_or_is(control, 0x61, 0x74, 0x74) {
                let target = match m.uploading {
                    Some(c) => Some(c),
                    None => number(control, 0x69),
                };
                match target {
                    None => {},
                    Some(t) => {
                        if t != 0 && m.uploading is None && !reusable_medium(control) && has_key(m.images, t) {
                            lemma_totals_remove(m.images, slot(key_seq(m.images), t) as int);
                        }
                    },
                }
            }
        },
    }
}

} // verus!
