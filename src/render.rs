use crate::chunk::{Chunk, ChunkView};
use crate::chunk_type::all_ascii;
use vstd::prelude::*;

verus! {

/// The decimal digits of `n`, as ASCII.
pub open spec fn decimal(n: nat) -> Seq<u8>
    decreases n,
{
    if n < 10 {
        seq![(48 + n) as u8]
    } else {
        decimal(n / 10).push((48 + n % 10) as u8)
    }
}

/// The lowercase hexadecimal digit of `v`, below sixteen, as ASCII.
pub open spec fn hex_digit(v: int) -> u8 {
    if v < 10 {
        (48 + v) as u8
    } else {
        (87 + v) as u8
    }
}

/// Two hexadecimal digits for each byte of `d`, as ASCII.
pub open spec fn hex_text(d: Seq<u8>) -> Seq<u8>
    decreases d.len(),
{
    if d.len() == 0 {
        Seq::empty()
    } else {
        hex_text(d.drop_last()) + seq![
            hex_digit(d.last() as int / 16),
            hex_digit(d.last() as int % 16),
        ]
    }
}

/// One line for a chunk: type, length, CRC and data in hexadecimal.
pub open spec fn chunk_line(c: ChunkView) -> Seq<u8> {
    c.chunk_type@ + seq![32u8] + decimal(c.length as nat) + seq![32u8] + decimal(c.crc as nat)
        + seq![32u8] + hex_text(c.data) + seq![10u8]
}

/// The lines of a sequence of chunks, in order.
pub open spec fn chunk_lines(cs: Seq<ChunkView>) -> Seq<u8>
    decreases cs.len(),
{
    if cs.len() == 0 {
        Seq::empty()
    } else {
        chunk_lines(cs.drop_last()) + chunk_line(cs.last())
    }
}

/// Appends the decimal digits of `n`.
pub(crate) fn push_decimal(out: &mut Vec<u8>, n: u32)
    ensures
        final(out)@ == old(out)@ + decimal(n as nat),
        all_ascii(old(out)@) ==> all_ascii(final(out)@),
    decreases n,
{
    if n >= 10 {
        push_decimal(out, n / 10);
    }
    out.push((48 + n % 10) as u8);
    assert(final(out)@ =~= old(out)@ + decimal(n as nat));
}

fn hex_digit_of(v: u8) -> (r: u8)
    requires
        v < 16,
    ensures
        r == hex_digit(v as int),
        r < 128,
{
    if v < 10 {
        48 + v
    } else {
        87 + v
    }
}

/// Appends two hexadecimal digits for each byte of `d`.
pub(crate) fn push_hex(out: &mut Vec<u8>, d: &[u8])
    ensures
        final(out)@ == old(out)@ + hex_text(d@),
        all_ascii(old(out)@) ==> all_ascii(final(out)@),
{
    let mut i: usize = 0;
    while i < d.len()
        invariant
            0 <= i <= d@.len(),
            out@ == old(out)@ + hex_text(d@.take(i as int)),
            all_ascii(old(out)@) ==> all_ascii(out@),
        decreases d@.len() - i,
    {
        let b = d[i];
        let hi = hex_digit_of(b / 16);
        let lo = hex_digit_of(b % 16);
        assert(d@.take(i + 1).drop_last() =~= d@.take(i as int));
        out.push(hi);
        out.push(lo);
        assert(out@ =~= old(out)@ + hex_text(d@.take(i + 1)));
        i += 1;
    }
    assert(d@.take(i as int) =~= d@);
}

/// Appends the line of one chunk.
pub(crate) fn push_chunk_line(out: &mut Vec<u8>, c: &Chunk)
    requires
        c.wf(),
    ensures
        final(out)@ == old(out)@ + chunk_line(c@),
        all_ascii(old(out)@) ==> all_ascii(final(out)@),
{
    let t = c.chunk_type.bytes();
    out.extend_from_slice(t.as_slice());
    assert(all_ascii(old(out)@) ==> all_ascii(out@)) by {
        assert(forall|i: int| 0 <= i < 4 ==> crate::chunk_type::is_letter(#[trigger] t@[i] as int));
    }
    out.push(32u8);
    push_decimal(out, c.length);
    out.push(32u8);
    push_decimal(out, c.crc);
    out.push(32u8);
    push_hex(out, c.data.as_slice());
    out.push(10u8);
    assert(final(out)@ =~= old(out)@ + chunk_line(c@));
}

} // verus!
