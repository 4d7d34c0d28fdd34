//! Big-endian byte output, as the class-file format writes its integers.
use vstd::prelude::*;

verus! {

/// The two bytes of `w`, most significant first.
pub open spec fn be16(w: u16) -> Seq<u8> {
    seq![(w / 256) as u8, (w % 256) as u8]
}

/// The four bytes of `d`, most significant first.
pub open spec fn be32(d: u32) -> Seq<u8> {
    seq![
        (d / 0x100_0000) as u8,
        ((d / 0x1_0000) % 256) as u8,
        ((d / 256) % 256) as u8,
        (d % 256) as u8,
    ]
}

/// Appends one byte to `output`.
pub fn write_byte(output: &mut Vec<u8>, byte: u8)
    ensures
        final(output)@ == old(output)@.push(byte),
{
    output.push(byte);
}

/// Appends `word` to `output` in big-endian order.
pub fn write_word(output: &mut Vec<u8>, word: u16)
    ensures
        final(output)@ == old(output)@ + be16(word),
{
    let hi = (word >> 8) as u8;
    let lo = word as u8;
    assert(hi == (word / 256) as u8 && lo == (word % 256) as u8) by (bit_vector)
        requires
            hi == (word >> 8) as u8,
            lo == word as u8,
    ;
    write_byte(output, hi);
    write_byte(output, lo);
    assert(output@ =~= old(output)@ + be16(word));
}

/// Appends `word` to `output` in big-endian order.
pub fn write_dword(output: &mut Vec<u8>, word: u32)
    ensures
        final(output)@ == old(output)@ + be32(word),
{
    let b0 = (word >> 24) as u8;
    let b1 = (word >> 16) as u8;
    let b2 = (word >> 8) as u8;
    let b3 = word as u8;
    assert(b0 == (word / 0x100_0000) as u8 && b1 == ((word / 0x1_0000) % 256) as u8 && b2 == ((
    word / 256) % 256) as u8 && b3 == (word % 256) as u8) by (bit_vector)
        requires
            b0 == (word >> 24) as u8,
            b1 == (word >> 16) as u8,
            b2 == (word >> 8) as u8,
            b3 == word as u8,
    ;
    write_byte(output, b0);
    write_byte(output, b1);
    write_byte(output, b2);
    write_byte(output, b3);
    assert(output@ =~= old(output)@ + be32(word));
}

} // verus!
