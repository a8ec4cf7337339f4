use vstd::prelude::*;

use crate::bits::{in_byte, lemma_reflect8_injective, reflect8, reverse8};

verus! {

/// One step of the 8-bit register update: the register's top bit, XORed with
/// the incoming bit, decides whether the generator polynomial is folded in
/// after the one-bit left shift.
pub open spec fn bit_step8(poly: u8, crc: u8, bit: u8) -> u8 {
    if ((crc >> 7) == 1) != ((bit & 1) == 1) {
        (crc << 1) ^ poly
    } else {
        crc << 1
    }
}

/// Folding one (already reflected, when REFIN asks for it) byte into the
/// register is eight bit steps, most significant bit first.
pub open spec fn fold_byte_bits8(poly: u8, crc: u8, c: u8) -> u8 {
    let r = bit_step8(poly, crc, c >> 7);
    let r = bit_step8(poly, r, (c << 1) >> 7);
    let r = bit_step8(poly, r, (c << 2) >> 7);
    let r = bit_step8(poly, r, (c << 3) >> 7);
    let r = bit_step8(poly, r, (c << 4) >> 7);
    let r = bit_step8(poly, r, (c << 5) >> 7);
    let r = bit_step8(poly, r, (c << 6) >> 7);
    let r = bit_step8(poly, r, (c << 7) >> 7);
    r
}

/// Folding one raw input byte: reflect it if `refin` asks for it, then run the
/// eight bit steps.
pub open spec fn fold_byte8(poly: u8, refin: bool, crc: u8, c: u8) -> u8 {
    fold_byte_bits8(poly, crc, in_byte(refin, c))
}

/// Folding a whole buffer: a left fold of `fold_byte8`, front to back.
pub open spec fn fold_bytes8(poly: u8, refin: bool, crc: u8, s: Seq<u8>) -> u8
    decreases s.len(),
{
    if s.len() == 0 {
        crc
    } else {
        fold_bytes8(poly, refin, fold_byte8(poly, refin, crc, s[0]), s.drop_first())
    }
}

/// The output transform: bit-reverse the register when `refout` is set, then
/// XOR the final mask in.
pub open spec fn finish8(xorout: u8, refout: bool, crc: u8) -> u8 {
    (if refout {
        reflect8(crc)
    } else {
        crc
    }) ^ xorout
}

/// The register contribution of one mixing byte: eight polynomial steps on a
/// register seeded with the byte itself. This is the value a table-driven
/// implementation would precompute.
pub open spec fn gen8(poly: u8, b: u8) -> u8 {
    let t = b;
    let t = if t >> 7 == 1 { (t << 1) ^ poly } else { t << 1 };
    let t = if t >> 7 == 1 { (t << 1) ^ poly } else { t << 1 };
    let t = if t >> 7 == 1 { (t << 1) ^ poly } else { t << 1 };
    let t = if t >> 7 == 1 { (t << 1) ^ poly } else { t << 1 };
    let t = if t >> 7 == 1 { (t << 1) ^ poly } else { t << 1 };
    let t = if t >> 7 == 1 { (t << 1) ^ poly } else { t << 1 };
    let t = if t >> 7 == 1 { (t << 1) ^ poly } else { t << 1 };
    let t = if t >> 7 == 1 { (t << 1) ^ poly } else { t << 1 };
    t
}

/// The byte-at-a-time fold equals the eight bit steps: mixing the incoming
/// byte with the whole register and diffusing that through the polynomial
/// gives the same register as consuming the byte bit by bit.
#[verifier::rlimit(100)]
pub proof fn lemma_fold_byte_table8(poly: u8, crc: u8, c: u8)
    ensures
        fold_byte_bits8(poly, crc, c) == gen8(poly, crc ^ c),
{
    assert(fold_byte_bits8(poly, crc, c) == gen8(poly, crc ^ c)) by (bit_vector);
}

/// An 8-bit CRC configuration: generator polynomial, initial register value,
/// final XOR mask and the two reflection flags. One value of this type stands
/// for one member of the CRC-8 family.
#[derive(Clone, Copy, PartialEq, Eq, Structural)]
pub struct CRC8Impl {
    pub poly: u8,
    pub init: u8,
    pub xorout: u8,
    pub refin: bool,
    pub refout: bool,
}

impl CRC8Impl {
    /// The checksum of a whole byte sequence under this configuration:
    /// fold every byte into a register that starts at INIT, then apply the
    /// output transform.
    pub open spec fn spec_calculate(self, s: Seq<u8>) -> u8 {
        finish8(self.xorout, self.refout, fold_bytes8(self.poly, self.refin, self.init, s))
    }

    pub fn new(poly: u8, init: u8, xorout: u8, refin: bool, refout: bool) -> (r: Self)
        ensures
            r == (CRC8Impl { poly, init, xorout, refin, refout }),
    {
        CRC8Impl { poly, init, xorout, refin, refout }
    }

    /// Diffuses one mixing byte through the polynomial: eight shift steps,
    /// each folding POLY in when the bit shifted out of the top was set.
    pub fn gen_byte(&self, b: u8) -> (r: u8)
        ensures
            r == gen8(self.poly, b),
    {
        let crc: u8 = b;
        let crc: u8 = if crc >> 7 == 1 { (crc << 1) ^ self.poly } else { crc << 1 };
        let crc: u8 = if crc >> 7 == 1 { (crc << 1) ^ self.poly } else { crc << 1 };
        let crc: u8 = if crc >> 7 == 1 { (crc << 1) ^ self.poly } else { crc << 1 };
        let crc: u8 = if crc >> 7 == 1 { (crc << 1) ^ self.poly } else { crc << 1 };
        let crc: u8 = if crc >> 7 == 1 { (crc << 1) ^ self.poly } else { crc << 1 };
        let crc: u8 = if crc >> 7 == 1 { (crc << 1) ^ self.poly } else { crc << 1 };
        let crc: u8 = if crc >> 7 == 1 { (crc << 1) ^ self.poly } else { crc << 1 };
        let crc: u8 = if crc >> 7 == 1 { (crc << 1) ^ self.poly } else { crc << 1 };
        crc
    }

    /// The starting register.
    pub fn init(&self) -> (r: u8)
        ensures
            r == self.init,
    {
        self.init
    }

    /// Folds one input byte into the register: reflect it when REFIN is set,
    /// mix it with the register and replace the register with the mixing
    /// byte's polynomial contribution.
    pub fn next(&self, crc: u8, c: u8) -> (r: u8)
        ensures
            r == fold_byte8(self.poly, self.refin, crc, c),
    {
        let d = if self.refin {
            reverse8(c)
        } else {
            c
        };
        let m = crc ^ d;
        let r = self.gen_byte(m);
        proof {
            lemma_fold_byte_table8(self.poly, crc, in_byte(self.refin, c));
        }
        r
    }

    /// The output transform: reflect the register when REFOUT is set, then
    /// XOR the final mask in.
    pub fn finish(&self, crc: u8) -> (r: u8)
        ensures
            r == finish8(self.xorout, self.refout, crc),
    {
        let crc = if self.refout {
            reverse8(crc)
        } else {
            crc
        };
        crc ^ self.xorout
    }

    /// The one-shot entry point: the checksum of `bytes` under this
    /// configuration.
    pub fn calculate(&self, bytes: &[u8]) -> (r: u8)
        ensures
            r == self.spec_calculate(bytes@),
    {
        let mut crc = self.init;
        let mut i: usize = 0;
        while i < bytes.len()
            invariant
                i <= bytes.len(),
                crc == fold_bytes8(self.poly, self.refin, self.init, bytes@.take(i as int)),
            decreases bytes.len() - i,
        {
            let folded = self.next(crc, bytes[i]);
            proof {
                lemma_fold_bytes8_snoc(
                    self.poly,
                    self.refin,
                    self.init,
                    bytes@.take(i as int),
                    bytes@[i as int],
                );
                assert(bytes@.take(i as int).push(bytes@[i as int]) =~= bytes@.take(i + 1));
            }
            crc = folded;
            i = i + 1;
        }
        proof {
            assert(bytes@.take(bytes@.len() as int) =~= bytes@);
        }
        self.finish(crc)
    }
}

/// Folding one more byte after a buffer continues the same left fold.
pub proof fn lemma_fold_bytes8_snoc(poly: u8, refin: bool, crc: u8, s: Seq<u8>, x: u8)
    ensures
        fold_bytes8(poly, refin, crc, s.push(x)) == fold_byte8(
            poly,
            refin,
            fold_bytes8(poly, refin, crc, s),
            x,
        ),
    decreases s.len(),
{
    if s.len() == 0 {
        assert(s.push(x)[0] == x);
        assert(s.push(x).drop_first() =~= Seq::<u8>::empty());
        assert(fold_bytes8(poly, refin, fold_byte8(poly, refin, crc, x), Seq::<u8>::empty())
            == fold_byte8(poly, refin, crc, x));
    } else {
        assert(s.push(x)[0] == s[0]);
        assert(s.push(x).drop_first() =~= s.drop_first().push(x));
        lemma_fold_bytes8_snoc(poly, refin, fold_byte8(poly, refin, crc, s[0]), s.drop_first(), x);
        assert(fold_bytes8(poly, refin, crc, s.push(x)) == fold_bytes8(
            poly,
            refin,
            fold_byte8(poly, refin, crc, s[0]),
            s.drop_first().push(x),
        ));
        assert(fold_bytes8(poly, refin, crc, s) == fold_bytes8(
            poly,
            refin,
            fold_byte8(poly, refin, crc, s[0]),
            s.drop_first(),
        ));
    }
}

/// Folding a concatenation folds the first part, then the second.
pub proof fn lemma_fold_bytes8_append(poly: u8, refin: bool, crc: u8, a: Seq<u8>, b: Seq<u8>)
    ensures
        fold_bytes8(poly, refin, crc, a + b) == fold_bytes8(
            poly,
            refin,
            fold_bytes8(poly, refin, crc, a),
            b,
        ),
    decreases a.len(),
{
    if a.len() == 0 {
        assert(a + b =~= b);
    } else {
        assert((a + b).drop_first() =~= a.drop_first() + b);
        lemma_fold_bytes8_append(poly, refin, fold_byte8(poly, refin, crc, a[0]), a.drop_first(), b);
    }
}

/// Folding a one-byte buffer is one byte fold.
pub proof fn lemma_fold_bytes8_singleton(poly: u8, refin: bool, crc: u8, x: u8)
    ensures
        fold_bytes8(poly, refin, crc, seq![x]) == fold_byte8(poly, refin, crc, x),
{
    assert(seq![x][0] == x);
    assert(seq![x].drop_first() =~= Seq::<u8>::empty());
    assert(fold_bytes8(poly, refin, fold_byte8(poly, refin, crc, x), Seq::<u8>::empty())
        == fold_byte8(poly, refin, crc, x));
}

/// A register difference survives folding the same byte, provided the
/// polynomial has its low bit set.
#[verifier::rlimit(100)]
proof fn lemma_fold_byte8_keeps_difference(poly: u8, r1: u8, r2: u8, c: u8)
    requires
        poly & 1 == 1,
        r1 != r2,
    ensures
        fold_byte_bits8(poly, r1, c) != fold_byte_bits8(poly, r2, c),
{
    assert((poly & 1 == 1 && r1 != r2) ==> fold_byte_bits8(poly, r1, c) != fold_byte_bits8(
        poly,
        r2,
        c,
    )) by (bit_vector);
}

/// Folding two distinct bytes from the same register ends in distinct
/// registers, provided the polynomial has its low bit set.
#[verifier::rlimit(100)]
proof fn lemma_fold_byte8_flip(poly: u8, crc: u8, c1: u8, c2: u8)
    requires
        poly & 1 == 1,
        c1 != c2,
    ensures
        fold_byte_bits8(poly, crc, c1) != fold_byte_bits8(poly, crc, c2),
{
    assert((poly & 1 == 1 && c1 != c2) ==> fold_byte_bits8(poly, crc, c1) != fold_byte_bits8(
        poly,
        crc,
        c2,
    )) by (bit_vector);
}

/// A register difference survives folding the same buffer, provided the
/// polynomial has its low bit set.
proof fn lemma_fold_bytes8_keeps_difference(poly: u8, refin: bool, r1: u8, r2: u8, s: Seq<u8>)
    requires
        poly & 1 == 1,
        r1 != r2,
    ensures
        fold_bytes8(poly, refin, r1, s) != fold_bytes8(poly, refin, r2, s),
    decreases s.len(),
{
    if s.len() == 0 {
    } else {
        lemma_fold_byte8_keeps_difference(poly, r1, r2, in_byte(refin, s[0]));
        lemma_fold_bytes8_keeps_difference(
            poly,
            refin,
            fold_byte8(poly, refin, r1, s[0]),
            fold_byte8(poly, refin, r2, s[0]),
            s.drop_first(),
        );
    }
}

/// Sensitivity law: flipping any single bit of the input changes the
/// checksum, for every configuration whose polynomial has its low bit set —
/// which every published configuration does.
pub proof fn lemma_single_bit_sensitivity8(c: CRC8Impl, s: Seq<u8>, k: int, j: u8)
    requires
        c.poly & 1 == 1,
        0 <= k < s.len(),
        j < 8,
    ensures
        c.spec_calculate(s) != c.spec_calculate(s.update(k, s[k] ^ (1u8 << j))),
{
    let p = c.poly;
    let ri = c.refin;
    let x1 = s[k];
    let x2 = s[k] ^ (1u8 << j);
    assert(x2 != x1) by (bit_vector)
        requires
            j < 8,
            x2 == x1 ^ (1u8 << j),
    ;
    let t = s.update(k, x2);
    let a = s.take(k);
    let z = s.skip(k + 1);
    assert(s =~= a + seq![x1] + z);
    assert(t =~= a + seq![x2] + z);
    lemma_fold_bytes8_append(p, ri, c.init, a + seq![x1], z);
    lemma_fold_bytes8_append(p, ri, c.init, a, seq![x1]);
    lemma_fold_bytes8_append(p, ri, c.init, a + seq![x2], z);
    lemma_fold_bytes8_append(p, ri, c.init, a, seq![x2]);
    let r0 = fold_bytes8(p, ri, c.init, a);
    lemma_fold_bytes8_singleton(p, ri, r0, x1);
    lemma_fold_bytes8_singleton(p, ri, r0, x2);
    let d1 = in_byte(ri, x1);
    let d2 = in_byte(ri, x2);
    if ri {
        lemma_reflect8_injective(x1, x2);
    }
    lemma_fold_byte8_flip(p, r0, d1, d2);
    lemma_fold_bytes8_keeps_difference(
        p,
        ri,
        fold_byte8(p, ri, r0, x1),
        fold_byte8(p, ri, r0, x2),
        z,
    );
    let f1 = fold_bytes8(p, ri, c.init, s);
    let f2 = fold_bytes8(p, ri, c.init, t);
    if c.refout {
        lemma_reflect8_injective(f1, f2);
    }
    let u1 = if c.refout { reflect8(f1) } else { f1 };
    let u2 = if c.refout { reflect8(f2) } else { f2 };
    let xo = c.xorout;
    assert(u1 ^ xo != u2 ^ xo) by (bit_vector)
        requires
            u1 != u2,
    ;
}

/// Empty-input law: with no bytes folded, the checksum is the output
/// transform applied to INIT.
pub proof fn lemma_empty_input8(c: CRC8Impl)
    ensures
        c.spec_calculate(Seq::<u8>::empty()) == finish8(c.xorout, c.refout, c.init),
{
}

/// Determinism: the checksum is a function of the configuration and the input
/// bytes alone.
pub proof fn lemma_deterministic8(c1: CRC8Impl, c2: CRC8Impl, s1: Seq<u8>, s2: Seq<u8>)
    requires
        c1 == c2,
        s1 == s2,
    ensures
        c1.spec_calculate(s1) == c2.spec_calculate(s2),
{
}

} // verus!
