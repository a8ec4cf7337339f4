use vstd::prelude::*;

verus! {

/// Bit `i` of the result is bit `7 - i` of the argument.
pub open spec fn reflect8(c: u8) -> u8 {
    ((c >> 7) & 1) | (((c >> 6) & 1) << 1) | (((c >> 5) & 1) << 2) | (((c >> 4) & 1) << 3)
        | (((c >> 3) & 1) << 4) | (((c >> 2) & 1) << 5) | (((c >> 1) & 1) << 6) | ((c & 1) << 7)
}

/// Bit `i` of the result is bit `15 - i` of the argument.
pub open spec fn reflect16(x: u16) -> u16 {
    ((x >> 15) & 1) | (((x >> 14) & 1) << 1) | (((x >> 13) & 1) << 2) | (((x >> 12) & 1) << 3)
        | (((x >> 11) & 1) << 4) | (((x >> 10) & 1) << 5) | (((x >> 9) & 1) << 6)
        | (((x >> 8) & 1) << 7) | (((x >> 7) & 1) << 8) | (((x >> 6) & 1) << 9)
        | (((x >> 5) & 1) << 10) | (((x >> 4) & 1) << 11) | (((x >> 3) & 1) << 12)
        | (((x >> 2) & 1) << 13) | (((x >> 1) & 1) << 14) | ((x & 1) << 15)
}

/// An input byte as the register consumes it: bit-reversed when `refin` is
/// set.
pub open spec fn in_byte(refin: bool, c: u8) -> u8 {
    if refin {
        reflect8(c)
    } else {
        c
    }
}

/// Reverses the order of the eight bits of `c`.
pub fn reverse8(c: u8) -> (r: u8)
    ensures
        r == reflect8(c),
{
    ((c >> 7) & 1) | (((c >> 6) & 1) << 1) | (((c >> 5) & 1) << 2) | (((c >> 4) & 1) << 3)
        | (((c >> 3) & 1) << 4) | (((c >> 2) & 1) << 5) | (((c >> 1) & 1) << 6) | ((c & 1) << 7)
}

/// Reverses the order of the sixteen bits of `x`.
pub fn reverse16(x: u16) -> (r: u16)
    ensures
        r == reflect16(x),
{
    ((x >> 15) & 1) | (((x >> 14) & 1) << 1) | (((x >> 13) & 1) << 2) | (((x >> 12) & 1) << 3)
        | (((x >> 11) & 1) << 4) | (((x >> 10) & 1) << 5) | (((x >> 9) & 1) << 6)
        | (((x >> 8) & 1) << 7) | (((x >> 7) & 1) << 8) | (((x >> 6) & 1) << 9)
        | (((x >> 5) & 1) << 10) | (((x >> 4) & 1) << 11) | (((x >> 3) & 1) << 12)
        | (((x >> 2) & 1) << 13) | (((x >> 1) & 1) << 14) | ((x & 1) << 15)
}

/// Distinct bytes stay distinct under bit reversal.
pub proof fn lemma_reflect8_injective(a: u8, b: u8)
    requires
        a != b,
    ensures
        reflect8(a) != reflect8(b),
{
    assert(a != b ==> reflect8(a) != reflect8(b)) by (bit_vector);
}

/// Distinct registers stay distinct under bit reversal.
pub proof fn lemma_reflect16_injective(a: u16, b: u16)
    requires
        a != b,
    ensures
        reflect16(a) != reflect16(b),
{
    assert(a != b ==> reflect16(a) != reflect16(b)) by (bit_vector);
}

} // verus!
