//! Entry points for fuzzing harnesses. Each feeds arbitrary bytes through a
//! decoder in chunks whose size the first byte picks; that these functions
//! verify is the statement that no input makes the decoders fail.

use vstd::prelude::*;

use crate::graphics::{KittyGraphicsParser, kitty_graphics_uses_shared_memory};
use crate::input::{InputDecoder, MousePosition, decode_key, decode_sgr_mouse, sgr_mouse_at};

verus! {

/// The chunk length the harnesses use: one more than the first byte modulo 31.
pub open spec fn chunk_len_spec(data: Seq<u8>) -> int {
    if data.len() == 0 {
        1
    } else {
        (data[0] % 31) as int + 1
    }
}

fn chunk_len(data: &[u8]) -> (r: usize)
    ensures
        r == chunk_len_spec(data@),
        1 <= r <= 31,
{
    if data.len() == 0 {
        1
    } else {
        (data[0] % 31) as usize + 1
    }
}

fn append(out: &mut Vec<u8>, bytes: &Vec<u8>)
    ensures
        final(out)@ == old(out)@ + bytes@,
{
    let mut i: usize = 0;
    while i < bytes.len()
        invariant
            i <= bytes@.len(),
            out@ == old(out)@ + bytes@.take(i as int),
        decreases bytes@.len() - i,
    {
        out.push(bytes[i]);
        assert(bytes@.take(i + 1) =~= bytes@.take(i as int).push(bytes[i as int]));
        i += 1;
    }
    assert(bytes@.take(bytes@.len() as int) =~= bytes@);
}

/// Decode `data` as keyboard input in chunks, all at one instant (time 0), then as keys one after another,
/// then as a mouse report.
pub fn input(data: &[u8]) {
    let mut decoder = InputDecoder::new();
    let mut decoded: Vec<u8> = Vec::new();
    let size = chunk_len(data);
    let mut start: usize = 0;
    while start < data.len()
        invariant
            start <= data@.len(),
            1 <= size,
        decreases data@.len() - start,
    {
        let end = if data.len() - start > size {
            start + size
        } else {
            data.len()
        };
        let part = decoder.push(&data[start..end], 0);
        append(&mut decoded, &part);
        start = end;
    }
    let rest = decoder.flush();
    append(&mut decoded, &rest);

    let mut remaining: usize = 0;
    while remaining < decoded.len()
        invariant
            remaining <= decoded@.len(),
        decreases decoded@.len() - remaining,
    {
        let (_, consumed) = decode_key(&decoded.as_slice()[remaining..decoded.len()]);
        let left = decoded.len() - remaining;
        let step = if consumed == 0 {
            1
        } else if consumed > left {
            left
        } else {
            consumed
        };
        remaining = remaining + step;
    }
    let _ = decode_sgr_mouse(data);
    let column: u16 = if data.len() > 0 {
        data[0] as u16
    } else {
        0
    };
    let row: u16 = if data.len() > 1 {
        data[1] as u16
    } else {
        0
    };
    let _ = sgr_mouse_at(data, MousePosition { column, row });
}

/// Split `data` for Kitty graphics in chunks, then check each command it
/// found, and `data` itself, for shared-memory transmission.
pub fn kitty_graphics(data: &[u8]) {
    let mut parser = KittyGraphicsParser::new();
    let size = chunk_len(data);
    let mut start: usize = 0;
    while start < data.len()
        invariant
            start <= data@.len(),
            1 <= size,
            parser.inv(),
        decreases data@.len() - start,
    {
        let end = if data.len() - start > size {
            start + size
        } else {
            data.len()
        };
        let output = parser.process(&data[start..end]);
        let mut k: usize = 0;
        while k < output.commands.len()
            invariant
                k <= output.commands@.len(),
            decreases output.commands@.len() - k,
        {
            let _ = kitty_graphics_uses_shared_memory(output.commands[k].as_slice());
            k += 1;
        }
        start = end;
    }
    let empty: [u8; 0] = [];
    let _ = parser.process(&empty);
    let _ = kitty_graphics_uses_shared_memory(data);
}

} // verus!
