use pfctl::error::PfError;
use pfctl::text::{decode_name, push_decimal, push_hexadecimal};
use pfctl::wire::{
    push_u128, push_u16, push_u32, push_u64, read_u128, read_u16, read_u32, read_u64,
};

#[test]
fn reads_are_big_endian() {
    let buf: Vec<u8> = (1..=20).collect();
    assert_eq!(read_u16(&buf, 0), Ok(0x0102));
    assert_eq!(read_u16(&buf, 18), Ok(0x1314));
    assert_eq!(read_u32(&buf, 1), Ok(0x0203_0405));
    assert_eq!(read_u64(&buf, 2), Ok(0x0304_0506_0708_090a));
    assert_eq!(read_u128(&buf, 4), Ok(0x0506_0708_090a_0b0c_0d0e_0f10_1112_1314));
}

#[test]
fn reads_past_the_end_are_truncated() {
    let buf: Vec<u8> = (1..=20).collect();
    assert_eq!(read_u16(&buf, 19), Err(PfError::TruncatedBuffer));
    assert_eq!(read_u16(&buf, usize::MAX), Err(PfError::TruncatedBuffer));
    assert_eq!(read_u32(&buf, 17), Err(PfError::TruncatedBuffer));
    assert_eq!(read_u32(&buf, 16), Ok(0x1112_1314));
    assert_eq!(read_u64(&buf, 13), Err(PfError::TruncatedBuffer));
    assert_eq!(read_u128(&buf, 5), Err(PfError::TruncatedBuffer));
    assert_eq!(read_u128(&[], 0), Err(PfError::TruncatedBuffer));
}

#[test]
fn writes_are_big_endian() {
    let mut out = vec![0xaa];
    push_u16(&mut out, 0x0102);
    push_u32(&mut out, 0x0304_0506);
    push_u64(&mut out, 0x0708_090a_0b0c_0d0e);
    assert_eq!(out, vec![0xaa, 1, 2, 3, 4, 5, 6, 7, 8, 9, 10, 11, 12, 13, 14]);
    let mut out = Vec::new();
    push_u128(&mut out, 1);
    assert_eq!(out, vec![0, 0, 0, 0, 0, 0, 0, 0, 0, 0, 0, 0, 0, 0, 0, 1]);
}

#[test]
fn written_values_read_back() {
    let mut out = Vec::new();
    push_u16(&mut out, u16::MAX);
    push_u32(&mut out, 0xdead_beef);
    push_u64(&mut out, u64::MAX - 1);
    push_u128(&mut out, u128::MAX / 3);
    assert_eq!(read_u16(&out, 0), Ok(u16::MAX));
    assert_eq!(read_u32(&out, 2), Ok(0xdead_beef));
    assert_eq!(read_u64(&out, 6), Ok(u64::MAX - 1));
    assert_eq!(read_u128(&out, 14), Ok(u128::MAX / 3));
}

#[test]
fn decimal_text() {
    let mut s = String::new();
    push_decimal(&mut s, 0);
    s.push(' ');
    push_decimal(&mut s, 9);
    s.push(' ');
    push_decimal(&mut s, 10);
    s.push(' ');
    push_decimal(&mut s, 54607);
    s.push(' ');
    push_decimal(&mut s, u64::MAX);
    assert_eq!(s, "0 9 10 54607 18446744073709551615");
}

#[test]
fn hexadecimal_text() {
    let mut s = String::new();
    push_hexadecimal(&mut s, 0);
    s.push(' ');
    push_hexadecimal(&mut s, 0xf);
    s.push(' ');
    push_hexadecimal(&mut s, 0x10);
    s.push(' ');
    push_hexadecimal(&mut s, 0xc5b3);
    s.push(' ');
    push_hexadecimal(&mut s, u64::MAX);
    assert_eq!(s, "0 f 10 c5b3 ffffffffffffffff");
}

#[test]
fn names_are_trimmed_of_padding() {
    assert_eq!(decode_name(b"en0\0\0\0\0\0\0\0\0\0\0\0\0\0"), "en0");
    assert_eq!(decode_name(b"lo0"), "lo0");
    assert_eq!(decode_name(b""), "");
    assert_eq!(decode_name(&[0, 0, 0]), "");
    assert_eq!(decode_name(&[b'a', 0, b'b', 0]), "a\0b");
    assert_eq!(decode_name(&[0xe9, 0]), "\u{e9}");
    assert_eq!(decode_name(b" x \0"), " x ");
}
