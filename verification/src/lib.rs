//! A parametrized cyclic redundancy check engine.
//!
//! A CRC configuration is a generator polynomial, an initial register value,
//! a final XOR mask and two bit-reflection flags. The crate offers the same
//! computation in two shapes: a one-shot fold over a whole buffer
//! ([`crc16::CRC16`], [`crc8::CRC8Impl`]) and a streaming engine that takes
//! one bit at a time and supports an append-and-check `verify` step
//! ([`CRC16`] and [`CRC8`], through the [`CRC`] trait).

use vstd::prelude::*;

pub mod bits;
pub mod crc16;
pub mod crc8;

use crate::bits::{in_byte, reverse16, reverse8};
use crate::crc16::{bit_step16, finish16, fold_byte16, fold_byte_bits16, fold_bytes16,
    lemma_fold_bytes16_append, lemma_fold_bytes16_singleton, lemma_fold_bytes16_snoc};
use crate::crc8::{bit_step8, finish8, fold_byte8, fold_byte_bits8, fold_bytes8,
    lemma_fold_bytes8_append, lemma_fold_bytes8_singleton, lemma_fold_bytes8_snoc};

verus! {

/// The streaming interface: a register bound to one configuration, fed one
/// bit or one buffer at a time, then consumed by `output` — or, for
/// message-integrity checking, inspected by `verify` after the previously
/// computed checksum has been pushed onto the stream.
pub trait CRC: Sized {
    type Output;

    /// The engine after one bit step.
    spec fn push_bit_spec(self, inc: u8) -> Self;

    /// The engine after folding a whole buffer.
    spec fn write_spec(self, bytes: Seq<u8>) -> Self;

    /// The checksum this engine would produce.
    spec fn output_spec(self) -> Self::Output;

    /// Whether an appended checksum has driven the register back to zero.
    spec fn verify_spec(self) -> bool;

    /// Folds exactly one bit into the register.
    fn push_bit(&mut self, inc: u8)
        requires
            inc < 2,
        ensures
            *final(self) == old(self).push_bit_spec(inc),
    ;

    /// Folds a whole buffer, byte by byte, most significant bit first.
    fn write(&mut self, bytes: &[u8])
        ensures
            *final(self) == old(self).write_spec(bytes@),
    ;

    /// Applies the output transform and consumes the register.
    fn output(self) -> (r: Self::Output)
        ensures
            r == self.output_spec(),
    ;

    /// True exactly when the register is zero: the finishing step of the
    /// append-and-check pattern.
    fn verify(self) -> (r: bool)
        ensures
            r == self.verify_spec(),
    ;
}

/// A streaming 16-bit CRC engine: one configuration and the running register.
#[derive(Clone, Copy, PartialEq, Eq, Structural)]
pub struct CRC16 {
    pub poly: u16,
    pub xorout: u16,
    pub refin: bool,
    pub refout: bool,
    pub reg: u16,
}

impl CRC16 {
    /// A fresh engine: the register starts at INIT.
    pub fn new(poly: u16, init: u16, xorout: u16, refin: bool, refout: bool) -> (r: Self)
        ensures
            r == (CRC16 { poly, xorout, refin, refout, reg: init }),
    {
        CRC16 { poly, xorout, refin, refout, reg: init }
    }
}

impl CRC for CRC16 {
    type Output = u16;

    open spec fn push_bit_spec(self, inc: u8) -> CRC16 {
        CRC16 { reg: bit_step16(self.poly, self.reg, inc), ..self }
    }

    open spec fn write_spec(self, bytes: Seq<u8>) -> CRC16 {
        CRC16 { reg: fold_bytes16(self.poly, self.refin, self.reg, bytes), ..self }
    }

    open spec fn output_spec(self) -> u16 {
        finish16(self.xorout, self.refout, self.reg)
    }

    open spec fn verify_spec(self) -> bool {
        self.reg == 0
    }

    fn push_bit(&mut self, inc: u8) {
        if (self.reg >> 15 == 1) != (inc & 1 == 1) {
            self.reg = (self.reg << 1) ^ self.poly;
        } else {
            self.reg = self.reg << 1;
        }
    }

    fn write(&mut self, bytes: &[u8]) {
        proof {
            assert(forall|x: u8| #[trigger] (x >> 7) < 2) by (bit_vector);
        }
        let mut i: usize = 0;
        while i < bytes.len()
            invariant
                i <= bytes.len(),
                forall|x: u8| #[trigger] (x >> 7) < 2,
                *self == old(self).write_spec(bytes@.take(i as int)),
            decreases bytes.len() - i,
        {
            let ghost prev = *self;
            let b = if self.refin {
                reverse8(bytes[i])
            } else {
                bytes[i]
            };
            self.push_bit(b >> 7);
            self.push_bit((b << 1) >> 7);
            self.push_bit((b << 2) >> 7);
            self.push_bit((b << 3) >> 7);
            self.push_bit((b << 4) >> 7);
            self.push_bit((b << 5) >> 7);
            self.push_bit((b << 6) >> 7);
            self.push_bit((b << 7) >> 7);
            proof {
                assert(self.reg == fold_byte16(prev.poly, prev.refin, prev.reg, bytes@[i as int]));
                lemma_fold_bytes16_snoc(
                    old(self).poly,
                    old(self).refin,
                    old(self).reg,
                    bytes@.take(i as int),
                    bytes@[i as int],
                );
                assert(bytes@.take(i as int).push(bytes@[i as int]) =~= bytes@.take(i + 1));
            }
            i = i + 1;
        }
        proof {
            assert(bytes@.take(bytes@.len() as int) =~= bytes@);
        }
    }

    fn output(self) -> (r: u16) {
        let crc = if self.refout {
            reverse16(self.reg)
        } else {
            self.reg
        };
        crc ^ self.xorout
    }

    fn verify(self) -> (r: bool) {
        self.reg == 0
    }
}

/// A streaming 8-bit CRC engine: one configuration and the running register.
#[derive(Clone, Copy, PartialEq, Eq, Structural)]
pub struct CRC8 {
    pub poly: u8,
    pub xorout: u8,
    pub refin: bool,
    pub refout: bool,
    pub reg: u8,
}

impl CRC8 {
    /// A fresh engine: the register starts at INIT.
    pub fn new(poly: u8, init: u8, xorout: u8, refin: bool, refout: bool) -> (r: Self)
        ensures
            r == (CRC8 { poly, xorout, refin, refout, reg: init }),
    {
        CRC8 { poly, xorout, refin, refout, reg: init }
    }
}

impl CRC for CRC8 {
    type Output = u8;

    open spec fn push_bit_spec(self, inc: u8) -> CRC8 {
        CRC8 { reg: bit_step8(self.poly, self.reg, inc), ..self }
    }

    open spec fn write_spec(self, bytes: Seq<u8>) -> CRC8 {
        CRC8 { reg: fold_bytes8(self.poly, self.refin, self.reg, bytes), ..self }
    }

    open spec fn output_spec(self) -> u8 {
        finish8(self.xorout, self.refout, self.reg)
    }

    open spec fn verify_spec(self) -> bool {
        self.reg == 0
    }

    fn push_bit(&mut self, inc: u8) {
        if (self.reg >> 7 == 1) != (inc & 1 == 1) {
            self.reg = (self.reg << 1) ^ self.poly;
        } else {
            self.reg = self.reg << 1;
        }
    }

    fn write(&mut self, bytes: &[u8]) {
        proof {
            assert(forall|x: u8| #[trigger] (x >> 7) < 2) by (bit_vector);
        }
        let mut i: usize = 0;
        while i < bytes.len()
            invariant
                i <= bytes.len(),
                forall|x: u8| #[trigger] (x >> 7) < 2,
                *self == old(self).write_spec(bytes@.take(i as int)),
            decreases bytes.len() - i,
        {
            let ghost prev = *self;
            let b = if self.refin {
                reverse8(bytes[i])
            } else {
                bytes[i]
            };
            self.push_bit(b >> 7);
            self.push_bit((b << 1) >> 7);
            self.push_bit((b << 2) >> 7);
            self.push_bit((b << 3) >> 7);
            self.push_bit((b << 4) >> 7);
            self.push_bit((b << 5) >> 7);
            self.push_bit((b << 6) >> 7);
            self.push_bit((b << 7) >> 7);
            proof {
                assert(self.reg == fold_byte8(prev.poly, prev.refin, prev.reg, bytes@[i as int]));
                lemma_fold_bytes8_snoc(
                    old(self).poly,
                    old(self).refin,
                    old(self).reg,
                    bytes@.take(i as int),
                    bytes@[i as int],
                );
                assert(bytes@.take(i as int).push(bytes@[i as int]) =~= bytes@.take(i + 1));
            }
            i = i + 1;
        }
        proof {
            assert(bytes@.take(bytes@.len() as int) =~= bytes@);
        }
    }

    fn output(self) -> (r: u8) {
        let crc = if self.refout {
            reverse8(self.reg)
        } else {
            self.reg
        };
        crc ^ self.xorout
    }

    fn verify(self) -> (r: bool) {
        self.reg == 0
    }
}

/// Equivalence law: for every configuration and every byte buffer, the
/// one-shot computation and the streaming engine started on the same
/// configuration produce the same checksum.
pub proof fn lemma_one_shot_matches_streaming16(c: crc16::CRC16, e: CRC16, s: Seq<u8>)
    requires
        e.poly == c.poly,
        e.xorout == c.xorout,
        e.refin == c.refin,
        e.refout == c.refout,
        e.reg == c.init,
    ensures
        e.write_spec(s).output_spec() == c.spec_calculate(s),
{
}

/// Bit/byte decomposition law: eight single-bit pushes, most significant bit
/// first, on the byte as the register consumes it (bit-reversed when REFIN is
/// set) yield the same engine as the one-shot byte fold, and as folding the
/// byte through the buffer interface.
pub proof fn lemma_bit_byte_decomposition16(e: CRC16, c: u8)
    ensures
        ({
            let d = in_byte(e.refin, c);
            let pushed = e.push_bit_spec(d >> 7)
                .push_bit_spec((d << 1) >> 7)
                .push_bit_spec((d << 2) >> 7)
                .push_bit_spec((d << 3) >> 7)
                .push_bit_spec((d << 4) >> 7)
                .push_bit_spec((d << 5) >> 7)
                .push_bit_spec((d << 6) >> 7)
                .push_bit_spec((d << 7) >> 7);
            pushed == (CRC16 { reg: fold_byte16(e.poly, e.refin, e.reg, c), ..e })
                && pushed == e.write_spec(seq![c])
        }),
{
    lemma_fold_bytes16_singleton(e.poly, e.refin, e.reg, c);
}

/// Append-verify law: for a direct configuration — REFIN and REFOUT unset,
/// XOROUT zero — pushing the computed checksum, big-endian, onto the original
/// message drives the register back to zero, so `verify` accepts the extended
/// stream. A reflected or masked configuration must use `output` and compare
/// externally.
pub proof fn lemma_append_verify16(e: CRC16, s: Seq<u8>)
    requires
        e.refin == false,
        e.refout == false,
        e.xorout == 0,
    ensures
        ({
            let cks = e.write_spec(s).output_spec();
            e.write_spec(s + seq![(cks >> 8) as u8, cks as u8]).verify_spec()
        }),
{
    let p = e.poly;
    let r = fold_bytes16(p, false, e.reg, s);
    let cks = e.write_spec(s).output_spec();
    assert(r ^ 0 == r) by (bit_vector);
    assert(cks == r);
    let tail = seq![(r >> 8) as u8, r as u8];
    lemma_fold_bytes16_append(p, false, e.reg, s, tail);
    assert(tail.drop_first() =~= seq![r as u8]);
    assert(fold_bytes16(p, false, r, tail) == fold_bytes16(
        p,
        false,
        fold_byte16(p, false, r, (r >> 8) as u8),
        seq![r as u8],
    ));
    lemma_fold_bytes16_singleton(p, false, fold_byte16(p, false, r, (r >> 8) as u8), r as u8);
    assert(fold_byte_bits16(p, r, (r >> 8) as u8) == (r << 8)) by (bit_vector);
    let r2 = fold_byte_bits16(p, r, (r >> 8) as u8);
    assert(fold_byte_bits16(p, r2, r as u8) == 0) by (bit_vector)
        requires
            r2 == (r << 8),
    ;
}

/// Equivalence law: for every configuration and every byte buffer, the
/// one-shot computation and the streaming engine started on the same
/// configuration produce the same checksum.
pub proof fn lemma_one_shot_matches_streaming8(c: crc8::CRC8Impl, e: CRC8, s: Seq<u8>)
    requires
        e.poly == c.poly,
        e.xorout == c.xorout,
        e.refin == c.refin,
        e.refout == c.refout,
        e.reg == c.init,
    ensures
        e.write_spec(s).output_spec() == c.spec_calculate(s),
{
}

/// Bit/byte decomposition law: eight single-bit pushes, most significant bit
/// first, on the byte as the register consumes it (bit-reversed when REFIN is
/// set) yield the same engine as the one-shot byte fold, and as folding the
/// byte through the buffer interface.
pub proof fn lemma_bit_byte_decomposition8(e: CRC8, c: u8)
    ensures
        ({
            let d = in_byte(e.refin, c);
            let pushed = e.push_bit_spec(d >> 7)
                .push_bit_spec((d << 1) >> 7)
                .push_bit_spec((d << 2) >> 7)
                .push_bit_spec((d << 3) >> 7)
                .push_bit_spec((d << 4) >> 7)
                .push_bit_spec((d << 5) >> 7)
                .push_bit_spec((d << 6) >> 7)
                .push_bit_spec((d << 7) >> 7);
            pushed == (CRC8 { reg: fold_byte8(e.poly, e.refin, e.reg, c), ..e })
                && pushed == e.write_spec(seq![c])
        }),
{
    lemma_fold_bytes8_singleton(e.poly, e.refin, e.reg, c);
}

/// Append-verify law: for a direct configuration — REFIN and REFOUT unset,
/// XOROUT zero — pushing the computed checksum onto the original message
/// drives the register back to zero, so `verify` accepts the extended
/// stream. A reflected or masked configuration must use `output` and compare
/// externally.
pub proof fn lemma_append_verify8(e: CRC8, s: Seq<u8>)
    requires
        e.refin == false,
        e.refout == false,
        e.xorout == 0,
    ensures
        ({
            let cks = e.write_spec(s).output_spec();
            e.write_spec(s + seq![cks]).verify_spec()
        }),
{
    let p = e.poly;
    let r = fold_bytes8(p, false, e.reg, s);
    let cks = e.write_spec(s).output_spec();
    assert(r ^ 0 == r) by (bit_vector);
    assert(cks == r);
    lemma_fold_bytes8_append(p, false, e.reg, s, seq![r]);
    lemma_fold_bytes8_singleton(p, false, r, r);
    assert(fold_byte_bits8(p, r, r) == 0) by (bit_vector);
}

} // verus!
