//! Input for benchmarks: the bytes an image preview application sends.

use vstd::prelude::*;

use crate::graphics::push_range;
use crate::protocol::{base64, base64_bytes};

verus! {

/// Columns and rows the preview image covers.
pub const IMAGE_COLUMNS: usize = 80;

pub const IMAGE_ROWS: usize = 24;

/// Base64 bytes per Kitty graphics chunk.
pub const KITTY_CHUNK_BYTES: usize = 4096;

/// `source` repeated until it is `n` bytes long; an empty source counts as one zero byte.
pub open spec fn raster(source: Seq<u8>, n: nat) -> Seq<u8> {
    let s = if source.len() == 0 {
        seq![0u8]
    } else {
        source
    };
    Seq::new(n, |i: int| s[i % (s.len() as int)])
}

/// `ESC _ G a=T,f=100,q=2,i=42,s=80,v=24,m=`: the first chunk transmits and
/// places a PNG image of 80 by 24 cells under ID 42, quietly.
pub open spec fn first_chunk_head() -> Seq<u8> {
    seq![
        0x1bu8, 0x5f, 0x47, 0x61, 0x3d, 0x54, 0x2c, 0x66, 0x3d, 0x31, 0x30, 0x30, 0x2c, 0x71, 0x3d, 0x32,
        0x2c, 0x69, 0x3d, 0x34, 0x32, 0x2c, 0x73, 0x3d, 0x38, 0x30, 0x2c, 0x76, 0x3d, 0x32, 0x34, 0x2c,
        0x6d, 0x3d,
    ]
}

/// `ESC _ G m=`: a later chunk.
pub open spec fn later_chunk_head() -> Seq<u8> {
    seq![0x1bu8, 0x5f, 0x47, 0x6d, 0x3d]
}

/// A chunk's header: `m=1` when more chunks follow, `m=0` on the last, then `;`.
pub open spec fn chunk_head(first: bool, more: bool) -> Seq<u8> {
    (if first {
        first_chunk_head()
    } else {
        later_chunk_head()
    }) + seq![if more { 0x31u8 } else { 0x30u8 }, 0x3bu8]
}

/// The chunks of `e` from offset `start` on, each at most 4096 bytes and
/// closed by `ESC \`.
pub open spec fn chunks_from(e: Seq<u8>, start: int, first: bool) -> Seq<u8>
    decreases e.len() - start,
{
    if start < 0 || start >= e.len() {
        Seq::empty()
    } else {
        let end = if e.len() - start > 4096 {
            start + 4096
        } else {
            e.len() as int
        };
        chunk_head(first, end < e.len()) + e.subrange(start, end) + seq![0x1bu8, 0x5c] + chunks_from(e, end, false)
    }
}

/// `ESC [ H ESC [ 38;2;0;0;42 m`: home the cursor and select the foreground
/// colour that names image 42.
pub open spec fn placement_prefix() -> Seq<u8> {
    seq![0x1bu8, 0x5b, 0x48, 0x1b, 0x5b, 0x33, 0x38, 0x3b, 0x32, 0x3b, 0x30, 0x3b, 0x30, 0x3b, 0x34, 0x32, 0x6d]
}

/// One placeholder cell: U+10EEEE followed by two U+0305 diacritics, in UTF-8.
pub open spec fn placeholder_cell() -> Seq<u8> {
    seq![0xf4u8, 0x8e, 0xbb, 0xae, 0xcc, 0x85, 0xcc, 0x85]
}

pub open spec fn repeated(s: Seq<u8>, n: nat) -> Seq<u8>
    decreases n,
{
    if n == 0 {
        Seq::empty()
    } else {
        repeated(s, (n - 1) as nat) + s
    }
}

/// Rows `row` to 23 of placeholder cells, 80 to a row, separated by CR LF.
pub open spec fn placeholder_rows_from(row: nat) -> Seq<u8>
    decreases 24 - row,
{
    if row >= 24 {
        Seq::empty()
    } else {
        repeated(placeholder_cell(), 80) + (if row + 1 < 24 {
            seq![0x0du8, 0x0a]
        } else {
            Seq::empty()
        }) + placeholder_rows_from(row + 1)
    }
}

/// What a preview application sends for `source`: the image as `n` bytes of
/// raster, base64 in Kitty graphics chunks, then the placeholder cells that show it.
pub open spec fn preview_stream(source: Seq<u8>, n: nat) -> Seq<u8> {
    chunks_from(base64(raster(source, n)), 0, true) + placement_prefix() + placeholder_rows_from(0)
}

proof fn lemma_base64_len(x: Seq<u8>, y: Seq<u8>)
    requires
        x.len() == y.len(),
    ensures
        base64(x).len() == base64(y).len(),
    decreases x.len(),
{
    if x.len() >= 3 {
        lemma_base64_len(x.skip(3), y.skip(3));
    }
}

proof fn lemma_chunks_len(e: Seq<u8>, f: Seq<u8>, start: int, first: bool)
    requires
        e.len() == f.len(),
    ensures
        chunks_from(e, start, first).len() == chunks_from(f, start, first).len(),
    decreases e.len() - start,
{
    if 0 <= start < e.len() {
        let end = if e.len() - start > 4096 {
            start + 4096
        } else {
            e.len() as int
        };
        lemma_chunks_len(e, f, end, false);
    }
}

/// The stream's length depends only on the number of raster bytes asked for,
/// never on the source bytes they are cut from.
pub proof fn preview_length_ignores_the_source(a: Seq<u8>, b: Seq<u8>, n: nat)
    ensures
        preview_stream(a, n).len() == preview_stream(b, n).len(),
{
    lemma_base64_len(raster(a, n), raster(b, n));
    lemma_chunks_len(base64(raster(a, n)), base64(raster(b, n)), 0, true);
}

fn push_all(out: &mut Vec<u8>, bytes: &[u8])
    ensures
        final(out)@ == old(out)@ + bytes@,
{
    let mut i: usize = 0;
    while i < bytes.len()
        invariant
            i <= bytes@.len(),
            out@ == old(out)@ + bytes@.take(i as int),
        decreases bytes@.len() - i,
    {
        out.push(bytes[i]);
        assert(bytes@.take(i + 1) =~= bytes@.take(i as int).push(bytes[i as int]));
        i += 1;
    }
    assert(bytes@.take(bytes@.len() as int) =~= bytes@);
}

fn push_chunk_head(out: &mut Vec<u8>, first: bool, more: bool)
    ensures
        final(out)@ == old(out)@ + chunk_head(first, more),
{
    if first {
        let head: [u8; 34] = [
            0x1b, 0x5f, 0x47, 0x61, 0x3d, 0x54, 0x2c, 0x66, 0x3d, 0x31, 0x30, 0x30, 0x2c, 0x71, 0x3d, 0x32,
            0x2c, 0x69, 0x3d, 0x34, 0x32, 0x2c, 0x73, 0x3d, 0x38, 0x30, 0x2c, 0x76, 0x3d, 0x32, 0x34, 0x2c,
            0x6d, 0x3d,
        ];
        assert(head@ =~= first_chunk_head());
        push_all(out, &head);
    } else {
        let head: [u8; 5] = [0x1b, 0x5f, 0x47, 0x6d, 0x3d];
        assert(head@ =~= later_chunk_head());
        push_all(out, &head);
    }
    out.push(if more {
        0x31
    } else {
        0x30
    });
    out.push(0x3b);
}

fn push_repeated(out: &mut Vec<u8>, s: &[u8], n: usize)
    ensures
        final(out)@ == old(out)@ + repeated(s@, n as nat),
{
    let mut k: usize = 0;
    while k < n
        invariant
            k <= n,
            out@ == old(out)@ + repeated(s@, k as nat),
        decreases n - k,
    {
        push_all(out, s);
        assert(repeated(s@, (k + 1) as nat) == repeated(s@, k as nat) + s@);
        k += 1;
    }
}

/// The bytes a preview application sends after converting a file to a
/// Kitty-compatible image: `payload_bytes` bytes of raster repeated from
/// `source`, so every file costs the same amount of work.
pub fn image_preview_stream(source: &[u8], payload_bytes: usize) -> (r: Vec<u8>)
    ensures
        r@ == preview_stream(source@, payload_bytes as nat),
{
    let zero: [u8; 1] = [0];
    let s: &[u8] = if source.len() == 0 {
        &zero
    } else {
        source
    };
    proof {
        if source@.len() == 0 {
            assert(s@ =~= seq![0u8]);
        }
    }
    let mut rasterized: Vec<u8> = Vec::new();
    let mut i: usize = 0;
    while i < payload_bytes
        invariant
            i <= payload_bytes,
            s@.len() > 0,
            s@ == (if source@.len() == 0 { seq![0u8] } else { source@ }),
            rasterized@ == raster(source@, i as nat),
        decreases payload_bytes - i,
    {
        rasterized.push(s[i % s.len()]);
        assert(rasterized@ =~= raster(source@, (i + 1) as nat));
        i += 1;
    }
    let encoded = base64_bytes(rasterized.as_slice());
    let ghost e = encoded@;
    let mut stream: Vec<u8> = Vec::new();
    let mut start: usize = 0;
    let mut first = true;
    while start < encoded.len()
        invariant
            e == encoded@,
            start <= e.len(),
            first == (start == 0),
            stream@ + chunks_from(e, start as int, first) == chunks_from(e, 0, true),
        decreases e.len() - start,
    {
        let end = if encoded.len() - start > KITTY_CHUNK_BYTES {
            start + KITTY_CHUNK_BYTES
        } else {
            encoded.len()
        };
        let ghost before = stream@;
        push_chunk_head(&mut stream, first, end < encoded.len());
        push_range(&mut stream, encoded.as_slice(), start, end);
        stream.push(0x1b);
        stream.push(0x5c);
        assert(stream@ =~= before + chunk_head(first, end < e.len()) + e.subrange(start as int, end as int) + seq![
            0x1bu8,
            0x5c,
        ]);
        start = end;
        first = false;
    }
    let prefix: [u8; 17] = [0x1b, 0x5b, 0x48, 0x1b, 0x5b, 0x33, 0x38, 0x3b, 0x32, 0x3b, 0x30, 0x3b, 0x30, 0x3b, 0x34, 0x32, 0x6d];
    assert(prefix@ =~= placement_prefix());
    push_all(&mut stream, &prefix);
    let cell: [u8; 8] = [0xf4, 0x8e, 0xbb, 0xae, 0xcc, 0x85, 0xcc, 0x85];
    let cell_bytes: &[u8] = &cell;
    assert(cell_bytes@ =~= placeholder_cell());
    let ghost head = stream@;
    let mut row: usize = 0;
    while row < IMAGE_ROWS
        invariant
            row <= 24,
            cell_bytes@ == placeholder_cell(),
            stream@ + placeholder_rows_from(row as nat) == head + placeholder_rows_from(0),
        decreases 24 - row,
    {
        let ghost before = stream@;
        push_repeated(&mut stream, cell_bytes, IMAGE_COLUMNS);
        if row + 1 < IMAGE_ROWS {
            stream.push(0x0d);
            stream.push(0x0a);
        }
        assert(stream@ =~= before + repeated(placeholder_cell(), 80) + (if row + 1 < 24 {
            seq![0x0du8, 0x0a]
        } else {
            Seq::<u8>::empty()
        }));
        row += 1;
    }
    assert(stream@ =~= preview_stream(source@, payload_bytes as nat));
    stream
}

} // verus!
