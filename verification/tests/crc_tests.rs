use crc::crc16;
use crc::crc8::CRC8Impl;
use crc::{CRC, CRC16, CRC8};

const CHECK_INPUT: &[u8] = b"123456789";

fn xmodem16() -> crc16::CRC16 {
    crc16::CRC16::new(0x1021, 0x0000, 0x0000, false, false)
}

fn genibus16() -> crc16::CRC16 {
    crc16::CRC16::new(0x1021, 0xFFFF, 0xFFFF, false, false)
}

fn cdma2000_16() -> crc16::CRC16 {
    crc16::CRC16::new(0xC867, 0xFFFF, 0x0000, false, false)
}

fn plain8() -> CRC8Impl {
    CRC8Impl::new(0x07, 0x00, 0x00, false, false)
}

fn cdma2000_8() -> CRC8Impl {
    CRC8Impl::new(0x9B, 0xFF, 0x00, false, false)
}

fn darc8() -> CRC8Impl {
    CRC8Impl::new(0x39, 0x00, 0x00, true, true)
}

fn dvb_s2_8() -> CRC8Impl {
    CRC8Impl::new(0xD5, 0x00, 0x00, false, false)
}

#[test]
fn crc16_crc16_xmodem() {
    assert_eq!(xmodem16().calculate(CHECK_INPUT), 0x31C3);
}

#[test]
fn crc16_crc16_genibus() {
    assert_eq!(genibus16().calculate(CHECK_INPUT), 0xD64E);
}

#[test]
fn crc16_crc16_cdma2000() {
    assert_eq!(cdma2000_16().calculate(CHECK_INPUT), 0x4C06);
}

#[test]
fn check() {
    assert_eq!(plain8().calculate(CHECK_INPUT), 0xF4);
    assert_eq!(cdma2000_8().calculate(CHECK_INPUT), 0xDA);
    assert_eq!(darc8().calculate(CHECK_INPUT), 0x15);
    assert_eq!(dvb_s2_8().calculate(CHECK_INPUT), 0xBC)
}

#[test]
fn lib_crc16_xmodem() {
    let mut crc = CRC16::new(0x1021, 0x0000, 0x0000, false, false);
    crc.write(CHECK_INPUT);
    assert_eq!(crc.output(), 0x31C3);
}

#[test]
fn lib_crc16_genibus() {
    let mut crc = CRC16::new(0x1021, 0xFFFF, 0xFFFF, false, false);
    crc.write(CHECK_INPUT);
    assert_eq!(crc.output(), 0xD64E);
}

#[test]
fn lib_crc16_cdma2000() {
    let mut crc = CRC16::new(0xC867, 0xFFFF, 0x0000, false, false);
    crc.write(CHECK_INPUT);
    assert_eq!(crc.output(), 0x4C06);
}

#[test]
fn one_shot_matches_streaming() {
    let msg = b"the quick brown fox jumps over the lazy dog";
    for c in [
        xmodem16(),
        genibus16(),
        cdma2000_16(),
        crc16::CRC16::new(0x8005, 0x0000, 0x0000, true, true),
    ] {
        let mut e = CRC16::new(c.poly, c.init, c.xorout, c.refin, c.refout);
        e.write(msg);
        assert_eq!(e.output(), c.calculate(msg));
    }
}

#[test]
fn empty_input_is_finished_init() {
    for c in [xmodem16(), genibus16(), cdma2000_16()] {
        assert_eq!(c.calculate(&[]), c.finish(c.init()));
    }
    for c in [plain8(), cdma2000_8(), darc8(), dvb_s2_8()] {
        assert_eq!(c.calculate(&[]), c.finish(c.init()));
    }
    assert_eq!(xmodem16().calculate(&[]), 0x0000);
    assert_eq!(genibus16().calculate(&[]), 0x0000);
}

#[test]
fn byte_fold_decomposes_into_bit_pushes() {
    let c = cdma2000_16();
    let mut e = CRC16::new(c.poly, c.init, c.xorout, c.refin, c.refout);
    let byte: u8 = 0xA5;
    for k in 0..8 {
        e.push_bit((byte << k) >> 7);
    }
    assert_eq!(e.reg, c.next(c.init(), byte));

    let reflected = crc16::CRC16::new(0x8005, 0x0000, 0x0000, true, true);
    let mut e = CRC16::new(
        reflected.poly,
        reflected.init,
        reflected.xorout,
        reflected.refin,
        reflected.refout,
    );
    e.write(&[byte]);
    assert_eq!(e.reg, reflected.next(reflected.init(), byte));
}

#[test]
fn one_shot_matches_streaming_8() {
    let msg = b"the quick brown fox jumps over the lazy dog";
    for c in [plain8(), cdma2000_8(), darc8(), dvb_s2_8()] {
        let mut e = CRC8::new(c.poly, c.init, c.xorout, c.refin, c.refout);
        e.write(msg);
        assert_eq!(e.output(), c.calculate(msg));
    }
}

#[test]
fn byte_fold_decomposes_into_bit_pushes_8() {
    let c = cdma2000_8();
    let mut e = CRC8::new(c.poly, c.init, c.xorout, c.refin, c.refout);
    let byte: u8 = 0xA5;
    for k in 0..8 {
        e.push_bit((byte << k) >> 7);
    }
    assert_eq!(e.reg, c.next(c.init(), byte));

    let mut e = CRC8::new(0x39, 0x00, 0x00, true, true);
    e.write(&[byte]);
    assert_eq!(e.reg, darc8().next(darc8().init(), byte));
}

#[test]
fn append_verify_accepts_own_checksum_8() {
    let msg = b"some payload";
    for (poly, init) in [(0x07u8, 0x00u8), (0x9B, 0xFF), (0xD5, 0x00)] {
        let mut e = CRC8::new(poly, init, 0x00, false, false);
        e.write(msg);
        let cks = e.output();
        let mut f = CRC8::new(poly, init, 0x00, false, false);
        f.write(msg);
        f.write(&[cks]);
        assert!(f.verify());
    }
}

#[test]
fn append_verify_accepts_own_checksum() {
    let msg = b"some payload";
    for (poly, init) in [(0x1021u16, 0x0000u16), (0xC867, 0xFFFF)] {
        let mut e = CRC16::new(poly, init, 0x0000, false, false);
        e.write(msg);
        let cks = e.output();
        let mut f = CRC16::new(poly, init, 0x0000, false, false);
        f.write(msg);
        f.write(&[(cks >> 8) as u8, cks as u8]);
        assert!(f.verify());
    }
}

#[test]
fn append_verify_rejects_corrupt_message() {
    let msg = b"some payload";
    let mut e = CRC16::new(0x1021, 0x0000, 0x0000, false, false);
    e.write(msg);
    let cks = e.output();
    let mut corrupt = msg.to_vec();
    corrupt[3] ^= 0x10;
    let mut f = CRC16::new(0x1021, 0x0000, 0x0000, false, false);
    f.write(&corrupt);
    f.write(&[(cks >> 8) as u8, cks as u8]);
    assert!(!f.verify());
}

#[test]
fn repeated_runs_agree() {
    let msg = b"determinism";
    assert_eq!(genibus16().calculate(msg), genibus16().calculate(msg));
    assert_eq!(darc8().calculate(msg), darc8().calculate(msg));
}

#[test]
fn single_bit_flips_change_checksum_16() {
    let msg = [0x31u8, 0x42, 0x99];
    for c in [xmodem16(), genibus16(), cdma2000_16()] {
        let base = c.calculate(&msg);
        for k in 0..msg.len() {
            for j in 0..8 {
                let mut flipped = msg;
                flipped[k] ^= 1u8 << j;
                assert_ne!(c.calculate(&flipped), base);
            }
        }
    }
}

#[test]
fn single_bit_flips_change_checksum_8() {
    let msg = [0x31u8, 0x42, 0x99];
    for c in [plain8(), cdma2000_8(), darc8(), dvb_s2_8()] {
        let base = c.calculate(&msg);
        for k in 0..msg.len() {
            for j in 0..8 {
                let mut flipped = msg;
                flipped[k] ^= 1u8 << j;
                assert_ne!(c.calculate(&flipped), base);
            }
        }
    }
}

#[test]
fn gen_byte_of_zero_is_zero() {
    assert_eq!(xmodem16().gen_byte(0), 0);
    assert_eq!(plain8().gen_byte(0), 0);
}
