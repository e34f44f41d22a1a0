//! Wire primitives.
use cutile::bytecode::debug_writer::DebugAttrTable;
use cutile::bytecode::encoding::{EncodingReader, EncodingWriter};
use cutile::bytecode::enums::ALIGNMENT_BYTE;
use cutile::bytecode::f8::{f64_to_f8e4m3fn, f64_to_f8e5m2, f8e4m3fn_to_f64, f8e5m2_to_f64};
use cutile::bytecode::strings::StringManager;
use cutile::error::ReadError;
use cutile::ir::types::{ScalarType, Type};

#[test]
fn varint_zero() {
    let mut w = EncodingWriter::new();
    w.write_varint(0);
    assert_eq!(w.as_bytes(), &[0x00]);
}

#[test]
fn varint_small() {
    let mut w = EncodingWriter::new();
    w.write_varint(127);
    assert_eq!(w.as_bytes(), &[0x7F]);
}

#[test]
fn varint_multi_byte() {
    let mut w = EncodingWriter::new();
    w.write_varint(300);
    // 300 = 0b100101100 -> [0xAC, 0x02]
    assert_eq!(w.as_bytes(), &[0xAC, 0x02]);
}

#[test]
fn signed_varint_positive() {
    let mut w = EncodingWriter::new();
    w.write_signed_varint(1);
    // zigzag(1) = 2
    assert_eq!(w.as_bytes(), &[0x02]);
}

#[test]
fn signed_varint_negative() {
    let mut w = EncodingWriter::new();
    w.write_signed_varint(-1);
    // zigzag(-1) = 1
    assert_eq!(w.as_bytes(), &[0x01]);
}

#[test]
fn alignment_padding() {
    let mut w = EncodingWriter::new();
    w.write_byte(0x01); // pos=1
    w.align_to(4); // should pad 3 bytes
    assert_eq!(w.tell(), 4);
    assert_eq!(
        w.as_bytes(),
        &[0x01, ALIGNMENT_BYTE, ALIGNMENT_BYTE, ALIGNMENT_BYTE]
    );
}

#[test]
fn le_u32_roundtrip() {
    let mut w = EncodingWriter::new();
    w.write_le_u32(0xDEADBEEF);
    assert_eq!(w.as_bytes(), &[0xEF, 0xBE, 0xAD, 0xDE]);
}

#[test]
fn reader_rejects_truncated_input() {
    assert!(EncodingReader::new(&[]).read_varint().is_err());
    assert!(EncodingReader::new(&[0x80]).read_varint().is_err());
    assert!(EncodingReader::new(&[0x01]).read_le_u32().is_err());
}

fn to_e4m3(v: f64) -> u8 {
    f64_to_f8e4m3fn(v.to_bits())
}

fn to_e5m2(v: f64) -> u8 {
    f64_to_f8e5m2(v.to_bits())
}

fn from_e4m3(b: u8) -> f64 {
    f64::from_bits(f8e4m3fn_to_f64(b))
}

fn from_e5m2(b: u8) -> f64 {
    f64::from_bits(f8e5m2_to_f64(b))
}

#[test]
fn f8e4m3fn_rounds_normal_ties_to_even() {
    assert_eq!(to_e4m3(1.1875), 0x3A);
}

#[test]
fn f8e5m2_rounds_normal_ties_to_even() {
    assert_eq!(to_e5m2(1.375), 0x3E);
}

#[test]
fn f8e4m3fn_rounds_subnormal_tie_to_min_normal() {
    assert_eq!(to_e4m3(7.5 * 2f64.powi(-9)), 0x08);
}

#[test]
fn f8e5m2_rounds_subnormal_tie_to_min_normal() {
    assert_eq!(to_e5m2(3.5 * 2f64.powi(-16)), 0x04);
}

#[test]
fn f8e4m3fn_preserves_finite_all_ones_exponent_values() {
    assert_eq!(to_e4m3(256.0), 0x78);
    assert_eq!(to_e4m3(448.0), 0x7E);
    assert_eq!(to_e4m3(f64::INFINITY), 0x7E);
}

#[test]
fn f8_decode_roundtrips_finite_values() {
    for v in [
        -448.0, -256.0, -144.0, -1.0, -0.5, -0.0625, 0.0, 0.0625, 0.5, 1.0, 120.0, 144.0, 448.0,
    ] {
        let b = to_e4m3(v);
        assert_eq!(from_e4m3(b), v, "e4m3fn {v}");
    }
    assert!(from_e4m3(0x7F).is_nan());
    for v in [-57344.0, -1024.0, -1.0, -0.25, 0.0, 0.25, 1.0, 57344.0] {
        let b = to_e5m2(v);
        assert_eq!(from_e5m2(b), v, "e5m2 {v}");
    }
    assert!(from_e5m2(0x7E).is_nan());
    assert_eq!(from_e5m2(0x7C), f64::INFINITY);
}

#[test]
fn every_f8_byte_that_is_a_number_comes_back() {
    for b in 0..=255u8 {
        if !from_e4m3(b).is_nan() {
            assert_eq!(to_e4m3(from_e4m3(b)), b);
        }
        if !from_e5m2(b).is_nan() {
            assert_eq!(to_e5m2(from_e5m2(b)), b);
        }
        let sign = if b >= 128 { -1.0 } else { 1.0 };
        let (e, m) = ((b >> 3) & 0x0F, (b & 0x07) as f64);
        if e != 15 || m != 7.0 {
            let v = if e == 0 {
                sign * m / 8.0 * 2f64.powi(-6)
            } else {
                sign * (1.0 + m / 8.0) * 2f64.powi(e as i32 - 7)
            };
            assert_eq!(from_e4m3(b), v);
        }
    }
    assert_eq!(to_e5m2(f64::NAN), 0x7D);
    assert_eq!(to_e5m2(1.0e9), 0x7C);
    assert_eq!(to_e4m3(1.0e-30), 0);
}

#[test]
fn reader_roundtrips_writer() {
    let f32_ty = Type::Scalar(ScalarType::F32);
    let f16_ty = Type::Scalar(ScalarType::F16);
    let mut w = EncodingWriter::new();
    w.write_varint(300);
    w.write_signed_varint(-12345);
    w.write_le_u32(0xDEADBEEF);
    w.write_le_i64(-42);
    w.write_le_var_size_i32(&[1, -2, 3]);
    w.write_le_var_size_i64(&[]);
    w.write_ap_float(1.5f32.to_bits() as u64, &f32_ty);
    w.write_ap_float(half::f16::from_f64(-2.25).to_bits() as u64, &f16_ty);
    let bytes = w.into_bytes();

    let mut r = EncodingReader::new(&bytes);
    assert_eq!(r.read_varint().unwrap(), 300);
    assert_eq!(r.read_signed_varint().unwrap(), -12345);
    assert_eq!(r.read_le_u32().unwrap(), 0xDEADBEEF);
    assert_eq!(r.read_le_i64().unwrap(), -42);
    assert_eq!(r.read_le_var_size_i32().unwrap(), vec![1, -2, 3]);
    assert_eq!(r.read_le_var_size_i64().unwrap(), Vec::<i64>::new());
    assert_eq!(f32::from_bits(r.read_ap_float(&f32_ty).unwrap() as u32), 1.5);
    assert_eq!(
        half::f16::from_bits(r.read_ap_float(&f16_ty).unwrap() as u16).to_f64(),
        -2.25
    );
    assert_eq!(r.remaining(), 0);
}

#[test]
fn padding_is_checked() {
    let mut r = EncodingReader::new(&[1, ALIGNMENT_BYTE, ALIGNMENT_BYTE, ALIGNMENT_BYTE, 9]);
    assert_eq!(r.read_byte().unwrap(), 1);
    assert!(r.skip_padding(4).is_ok());
    assert_eq!(r.read_byte().unwrap(), 9);
    let mut r = EncodingReader::new(&[1, 0, 0, 0]);
    assert_eq!(r.read_byte().unwrap(), 1);
    assert_eq!(r.skip_padding(4), Err(ReadError::BadPadding(0)));
}

#[test]
fn a_varint_of_more_than_64_bits_is_refused() {
    let long = [0x80u8, 0x80, 0x80, 0x80, 0x80, 0x80, 0x80, 0x80, 0x80, 0x80, 0x01];
    assert!(EncodingReader::new(&long).read_varint().is_err());
    let mut w = EncodingWriter::new();
    w.write_varint(u64::MAX);
    let b = w.into_bytes();
    assert_eq!(EncodingReader::new(&b).read_varint(), Ok(u64::MAX));
}

#[test]
fn a_reader_that_runs_out_stays_where_it_is() {
    let data = [1u8, 2, 3];
    let mut r = EncodingReader::new(&data);
    assert!(r.read_le_u32().is_err());
    assert_eq!(r.pos(), 0);
    assert!(r.read_le_u64().is_err());
    assert!(r.read_le_i32().is_err());
    assert!(r.read_le_i64().is_err());
    assert!(r.read_bytes(4).is_err());
    assert_eq!(r.pos(), 0);
    assert_eq!(r.read_bytes(0).unwrap(), &[] as &[u8]);
    assert_eq!(r.read_bytes(2).unwrap(), &[1, 2]);
    assert!(r.read_le_u16().is_err());
    assert_eq!(r.pos(), 2);
    assert_eq!(r.read_byte().unwrap(), 3);
    assert!(r.read_byte().is_err());
    assert_eq!(r.pos(), 3);
}

#[test]
fn a_varint_that_fails_has_used_its_bytes() {
    let mut r = EncodingReader::new(&[0x80, 0x80]);
    assert!(r.read_varint().is_err());
    assert_eq!(r.pos(), 2);
    let mut r = EncodingReader::new(&[0xFF; 12]);
    assert!(r.read_varint().is_err());
    assert_eq!(r.pos(), 10);
}

#[test]
fn no_f8_value_is_nearer() {
    let mut values = vec![1.1875, 7.5 / 512.0, 256.0, 448.0, 1.0e-9, 0.0, 1.0e300, 3.3, 460.0];
    for b in 0..0x7Eu8 {
        values.push((from_e4m3(b) + from_e4m3(b + 1)) / 2.0);
        values.push(from_e4m3(b) * 1.01);
    }
    let negated: Vec<f64> = values.iter().map(|v| -v).collect();
    values.extend(negated);
    for v in values {
        let r = to_e4m3(v);
        assert_ne!(r & 0x7F, 0x7F);
        assert_eq!(r >= 128, v.is_sign_negative());
        let near = from_e4m3(r);
        for q in 0..=255u8 {
            if q & 0x7F == 0x7F {
                continue;
            }
            let other = from_e4m3(q);
            assert!((v - near).abs() <= (v - other).abs());
            if (v - near).abs() == (v - other).abs() && near != other {
                assert_eq!(r % 2, 0);
            }
        }
    }
    assert_eq!(to_e4m3(1.1875), 0x3A);
    assert_eq!(to_e4m3(7.5 / 512.0), 0x08);
    assert_eq!(to_e4m3(256.0), 0x78);
    assert_eq!(to_e4m3(448.0), 0x7E);
}

#[test]
fn large_values_become_infinite_in_e5m2() {
    assert_eq!(to_e5m2(57344.0), 0x7B);
    assert_eq!(to_e5m2(61439.0), 0x7B);
    assert_eq!(to_e5m2(61440.0), 0x7C);
    assert_eq!(to_e5m2(-61440.0), 0xFC);
}

#[test]
fn lines_and_columns_of_any_size_are_written() {
    let mut strings = StringManager::new();
    let mut t = DebugAttrTable::new();
    assert_eq!(t.lexical_block(1, 2, 1 << 40, 300), 1);
    assert_eq!(t.lexical_block(1, 2, 1 << 40, 300), 1);
    assert_eq!(t.lexical_block(1, 2, 0, 300), 2);
    assert_eq!(
        t.entries()[0],
        vec![3, 1, 2, 0x80, 0x80, 0x80, 0x80, 0x80, 0x20, 0xAC, 0x02]
    );
    assert_eq!(t.loc(&mut strings, 7, "f", u64::MAX, 1), 3);
    assert_eq!(t.entries()[2].len(), 1 + 1 + 1 + 10 + 1);
    assert_eq!(t.subprogram(&mut strings, 1, 1 << 33, "f", "g", 2, 1 << 33), 4);
    assert_eq!(t.entries()[3].len(), 1 + 1 + 5 + 1 + 1 + 1 + 5);
}
