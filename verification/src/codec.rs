//! Binary encodings shared by the wire protocol: the packed 2-byte
//! position code and decimal number parsing for CSI parameters.

use vstd::prelude::*;

verus! {

/// The value of a run of ASCII digits read as a decimal number.
pub open spec fn dec_value(s: Seq<u8>) -> int
    decreases s.len(),
{
    if s.len() == 0 {
        0
    } else {
        dec_value(s.drop_last()) * 10 + (s.last() - 0x30)
    }
}

/// Every byte of `s` is an ASCII digit.
pub open spec fn all_digits(s: Seq<u8>) -> bool {
    forall|i: int| 0 <= i < s.len() ==> 0x30 <= #[trigger] s[i] <= 0x39
}

/// Relies on `btoi::btou::<u16>`: parses an ASCII byte slice as an
/// unsigned decimal number, failing exactly on an empty slice, on any
/// non-digit byte, and on overflow of the target type.
#[verifier::external_body]
pub fn parse_dec_u16(s: &[u8]) -> (r: Option<u16>)
    ensures
        r == (if (s@.len() > 0 && all_digits(s@) && dec_value(s@) <= u16::MAX) {
            Some(dec_value(s@) as u16)
        } else {
            None::<u16>
        }),
{
    btoi::btou(s).ok()
}

/// The 2-byte position code: x fits in 9 bits, y in 7, so the pair packs
/// as `b0 = (y << 1) | (x >> 8)`, `b1 = x & 0xff`.
pub open spec fn spec_pos_to_bytes(x: u16, y: u16) -> (u8, u8) {
    ((((y << 1) | (x >> 8)) & 0xff) as u8, (x & 0xff) as u8)
}

/// Decoding of the 2-byte position code: `x = ((b0 & 1) << 8) | b1`,
/// `y = b0 >> 1`.
pub open spec fn spec_pos_from_bytes(b0: u8, b1: u8) -> (u16, u16) {
    ((((b0 & 1) as u16) << 8) | (b1 as u16), (b0 >> 1) as u16)
}

/// Extract an (x, y) position from the first two bytes of `pos`.
/// Since 0 <= x < 480 needs 9 bits but 0 <= y < 128 only 7, the pair
/// fits in two bytes with the extra x bit shuffled into the y byte.
pub fn pos_from_bytes(pos: &[u8]) -> (r: (u16, u16))
    requires
        pos@.len() >= 2,
    ensures
        r == spec_pos_from_bytes(pos@[0], pos@[1]),
        r.0 < 512,
        r.1 < 128,
{
    let b0 = pos[0];
    let b1 = pos[1];
    let x = (((b0 & 1) as u16) << 8) | (b1 as u16);
    let y = (b0 >> 1) as u16;
    proof {
        let bb0 = b0;
        let bb1 = b1;
        assert(((((bb0 & 1) as u16) << 8) | (bb1 as u16)) < 512 && ((bb0 >> 1) as u16) < 128)
            by (bit_vector);
    }
    (x, y)
}

/// Pack an (x, y) position into the two wire bytes.
pub fn pos_to_bytes(x: u16, y: u16) -> (r: (u8, u8))
    ensures
        r == spec_pos_to_bytes(x, y),
{
    ((((y << 1) | (x >> 8)) & 0xff) as u8, (x & 0xff) as u8)
}

/// The position code is a bijection on its valid domain: decoding the
/// encoding of any on-screen position gives the position back.
pub proof fn lemma_pos_codec_round_trip(x: u16, y: u16)
    requires
        x < 480,
        y < 128,
    ensures
        spec_pos_from_bytes(spec_pos_to_bytes(x, y).0, spec_pos_to_bytes(x, y).1) == (x, y),
{
    let b0 = spec_pos_to_bytes(x, y).0;
    let b1 = spec_pos_to_bytes(x, y).1;
    assert(x < 480 && y < 128 ==> {
        let c0 = (((y << 1) | (x >> 8)) & 0xff) as u8;
        let c1 = (x & 0xff) as u8;
        (((c0 & 1) as u16) << 8) | (c1 as u16) == x && (c0 >> 1) as u16 == y
    }) by (bit_vector);
}

/// Decoding is also injective: two byte pairs that decode to the same
/// position are the same pair, so every reply position has one encoding.
pub proof fn lemma_pos_codec_encode_decode(b0: u8, b1: u8)
    ensures
        spec_pos_to_bytes(
            spec_pos_from_bytes(b0, b1).0,
            spec_pos_from_bytes(b0, b1).1,
        ) == (b0, b1),
{
    assert({
        let x = (((b0 & 1) as u16) << 8) | (b1 as u16);
        let y = (b0 >> 1) as u16;
        (((y << 1) | (x >> 8)) & 0xff) as u8 == b0 && (x & 0xff) as u8 == b1
    }) by (bit_vector);
}

} // verus!
