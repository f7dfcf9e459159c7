//! Big-endian (network order) integers inside byte buffers.
//!
//! Every multi-byte numeric field of a record is read and written through
//! this module, so the byte order is fixed in one place.

use crate::error::PfError;
use vstd::prelude::*;

verus! {

/// The number that the bytes of `s` spell in network byte order.
pub open spec fn be_value(s: Seq<u8>) -> nat
    decreases s.len(),
{
    if s.len() == 0 {
        0
    } else {
        be_value(s.drop_last()) * 256 + s.last() as nat
    }
}

/// `256` to the power `n`: one more than the largest value of `n` bytes.
pub open spec fn radix_pow(n: nat) -> nat
    decreases n,
{
    if n == 0 {
        1
    } else {
        256 * radix_pow((n - 1) as nat)
    }
}

/// The `n` bytes that spell `v` in network byte order (the low `n` bytes of
/// `v` where it does not fit).
pub open spec fn be_bytes(v: nat, n: nat) -> Seq<u8>
    decreases n,
{
    if n == 0 {
        Seq::empty()
    } else {
        be_bytes(v / 256, (n - 1) as nat).push((v % 256) as u8)
    }
}

/// The field of `width` bytes that starts at `offset` in `s`.
pub open spec fn field(s: Seq<u8>, offset: int, width: int) -> Seq<u8> {
    s.subrange(offset, offset + width)
}

/// The big-endian number held by the field of `width` bytes at `offset`.
pub open spec fn be_field(s: Seq<u8>, offset: int, width: int) -> nat {
    be_value(field(s, offset, width))
}

/// The powers of `256` at the widths of the integer types.
pub proof fn lemma_radix_pow_values()
    ensures
        radix_pow(0) == 1,
        radix_pow(1) == 0x100,
        radix_pow(2) == 0x1_0000,
        radix_pow(4) == 0x1_0000_0000,
        radix_pow(8) == 0x1_0000_0000_0000_0000,
        radix_pow(16) == 0x1_0000_0000_0000_0000_0000_0000_0000_0000,
{
    reveal_with_fuel(radix_pow, 17);
}

/// A value spelled by `n` bytes is below `256^n`.
pub proof fn lemma_be_value_bound(s: Seq<u8>)
    ensures
        be_value(s) < radix_pow(s.len()),
    decreases s.len(),
{
    if s.len() > 0 {
        lemma_be_value_bound(s.drop_last());
    }
}

/// Reading back what was written gives the value, as far as it fits.
pub proof fn lemma_be_value_of_bytes(v: nat, n: nat)
    requires
        v < radix_pow(n),
    ensures
        be_bytes(v, n).len() == n,
        be_value(be_bytes(v, n)) == v,
    decreases n,
{
    if n > 0 {
        let rest = be_bytes(v / 256, (n - 1) as nat);
        lemma_be_value_of_bytes(v / 256, (n - 1) as nat);
        assert(be_bytes(v, n).drop_last() =~= rest);
    }
}

/// Writing back what was read gives the same bytes.
pub proof fn lemma_be_bytes_of_value(s: Seq<u8>)
    ensures
        be_bytes(be_value(s), s.len()) == s,
    decreases s.len(),
{
    if s.len() > 0 {
        lemma_be_bytes_of_value(s.drop_last());
        assert(be_bytes(be_value(s), s.len()) =~= s);
    } else {
        assert(be_bytes(be_value(s), s.len()) =~= s);
    }
}

/// A value written on `n` bytes takes `n` bytes.
pub proof fn lemma_be_bytes_len(v: nat, n: nat)
    ensures
        be_bytes(v, n).len() == n,
    decreases n,
{
    if n > 0 {
        lemma_be_bytes_len(v / 256, (n - 1) as nat);
    }
}

/// The value of two runs of bytes laid end to end.
pub proof fn lemma_be_value_concat(a: Seq<u8>, b: Seq<u8>)
    ensures
        be_value(a + b) == be_value(a) * radix_pow(b.len()) + be_value(b),
    decreases b.len(),
{
    if b.len() == 0 {
        assert(a + b =~= a);
        assert(radix_pow(b.len()) == 1);
        assert(be_value(b) == 0);
    } else {
        lemma_be_value_concat(a, b.drop_last());
        assert((a + b).drop_last() =~= a + b.drop_last());
        assert((a + b).last() == b.last());
        let x = be_value(a);
        let p = radix_pow(b.drop_last().len());
        assert(radix_pow(b.len()) == 256 * p);
        assert(x * (256 * p) == (x * p) * 256) by (nonlinear_arith);
        assert(be_value(a + b) == be_value(a + b.drop_last()) * 256 + b.last() as nat);
        assert(be_value(b) == be_value(b.drop_last()) * 256 + b.last() as nat);
    }
}

/// The bytes of a value that is given as a high and a low part.
pub proof fn lemma_be_bytes_split(hi: nat, m: nat, lo: nat, n: nat)
    requires
        hi < radix_pow(m),
        lo < radix_pow(n),
    ensures
        be_bytes(hi * radix_pow(n) + lo, m + n) == be_bytes(hi, m) + be_bytes(lo, n),
{
    let joined = be_bytes(hi, m) + be_bytes(lo, n);
    lemma_be_value_of_bytes(hi, m);
    lemma_be_value_of_bytes(lo, n);
    lemma_be_value_concat(be_bytes(hi, m), be_bytes(lo, n));
    lemma_be_bytes_of_value(joined);
}

/// Reads the 16-bit big-endian field at `offset`.
pub(crate) fn u16_at(buf: &[u8], offset: usize) -> (r: u16)
    requires
        offset + 2 <= buf@.len(),
    ensures
        r as nat == be_field(buf@, offset as int, 2),
{
    let b0: u16 = buf[offset] as u16;
    let b1: u16 = buf[offset + 1] as u16;
    proof {
        let f = field(buf@, offset as int, 2);
        reveal_with_fuel(be_value, 3);
        assert(f.drop_last().drop_last().len() == 0);
        assert(f.last() == buf@[offset + 1]);
        assert(f.drop_last().last() == buf@[offset as int]);
    }
    b0 * 256 + b1
}

/// Reads the 32-bit big-endian field at `offset`.
pub(crate) fn u32_at(buf: &[u8], offset: usize) -> (r: u32)
    requires
        offset + 4 <= buf@.len(),
    ensures
        r as nat == be_field(buf@, offset as int, 4),
{
    let end: usize = buf.len();
    assert(offset + 4 <= end);
    let hi: u32 = u16_at(buf, offset) as u32;
    let lo: u32 = u16_at(buf, offset + 2) as u32;
    proof {
        lemma_be_value_concat(field(buf@, offset as int, 2), field(buf@, offset + 2, 2));
        assert(field(buf@, offset as int, 2) + field(buf@, offset + 2, 2) =~= field(
            buf@,
            offset as int,
            4,
        ));
        lemma_radix_pow_values();
    }
    hi * 0x1_0000 + lo
}

/// Reads the 64-bit big-endian field at `offset`.
pub(crate) fn u64_at(buf: &[u8], offset: usize) -> (r: u64)
    requires
        offset + 8 <= buf@.len(),
    ensures
        r as nat == be_field(buf@, offset as int, 8),
{
    let end: usize = buf.len();
    assert(offset + 8 <= end);
    let hi: u64 = u32_at(buf, offset) as u64;
    let lo: u64 = u32_at(buf, offset + 4) as u64;
    proof {
        lemma_be_value_concat(field(buf@, offset as int, 4), field(buf@, offset + 4, 4));
        assert(field(buf@, offset as int, 4) + field(buf@, offset + 4, 4) =~= field(
            buf@,
            offset as int,
            8,
        ));
        lemma_radix_pow_values();
    }
    hi * 0x1_0000_0000 + lo
}

/// Reads the 128-bit big-endian field at `offset`.
pub(crate) fn u128_at(buf: &[u8], offset: usize) -> (r: u128)
    requires
        offset + 16 <= buf@.len(),
    ensures
        r as nat == be_field(buf@, offset as int, 16),
{
    let end: usize = buf.len();
    assert(offset + 16 <= end);
    let hi: u128 = u64_at(buf, offset) as u128;
    let lo: u128 = u64_at(buf, offset + 8) as u128;
    proof {
        lemma_be_value_concat(field(buf@, offset as int, 8), field(buf@, offset + 8, 8));
        assert(field(buf@, offset as int, 8) + field(buf@, offset + 8, 8) =~= field(
            buf@,
            offset as int,
            16,
        ));
        lemma_radix_pow_values();
    }
    hi * 0x1_0000_0000_0000_0000 + lo
}

/// Appends `v` as two bytes in network order.
pub fn push_u16(out: &mut Vec<u8>, v: u16)
    ensures
        final(out)@ == old(out)@ + be_bytes(v as nat, 2),
{
    let hi: u8 = (v / 256) as u8;
    let lo: u8 = (v % 256) as u8;
    out.push(hi);
    out.push(lo);
    proof {
        reveal_with_fuel(be_bytes, 3);
        assert(final(out)@ =~= old(out)@ + be_bytes(v as nat, 2));
    }
}

/// Appends `v` as four bytes in network order.
pub fn push_u32(out: &mut Vec<u8>, v: u32)
    ensures
        final(out)@ == old(out)@ + be_bytes(v as nat, 4),
{
    let hi: u16 = (v / 0x1_0000) as u16;
    let lo: u16 = (v % 0x1_0000) as u16;
    push_u16(out, hi);
    push_u16(out, lo);
    proof {
        lemma_radix_pow_values();
        lemma_be_bytes_split(hi as nat, 2, lo as nat, 2);
        assert(final(out)@ =~= old(out)@ + be_bytes(v as nat, 4));
    }
}

/// Appends `v` as eight bytes in network order.
pub fn push_u64(out: &mut Vec<u8>, v: u64)
    ensures
        final(out)@ == old(out)@ + be_bytes(v as nat, 8),
{
    let hi: u32 = (v / 0x1_0000_0000) as u32;
    let lo: u32 = (v % 0x1_0000_0000) as u32;
    push_u32(out, hi);
    push_u32(out, lo);
    proof {
        lemma_radix_pow_values();
        lemma_be_bytes_split(hi as nat, 4, lo as nat, 4);
        assert(final(out)@ =~= old(out)@ + be_bytes(v as nat, 8));
    }
}

/// Appends `v` as sixteen bytes in network order.
pub fn push_u128(out: &mut Vec<u8>, v: u128)
    ensures
        final(out)@ == old(out)@ + be_bytes(v as nat, 16),
{
    let hi: u64 = (v / 0x1_0000_0000_0000_0000) as u64;
    let lo: u64 = (v % 0x1_0000_0000_0000_0000) as u64;
    push_u64(out, hi);
    push_u64(out, lo);
    proof {
        lemma_radix_pow_values();
        lemma_be_bytes_split(hi as nat, 8, lo as nat, 8);
        assert(final(out)@ =~= old(out)@ + be_bytes(v as nat, 16));
    }
}

/// Reads the 16-bit big-endian field at `offset`; a buffer that ends
/// before the field does is truncated.
pub fn read_u16(buf: &[u8], offset: usize) -> (r: Result<u16, PfError>)
    ensures
        offset + 2 <= buf@.len() ==> r.is_ok() && r.unwrap() as nat == be_field(
            buf@,
            offset as int,
            2,
        ),
        offset + 2 > buf@.len() ==> r == Err::<u16, PfError>(PfError::TruncatedBuffer),
{
    if buf.len() < 2 || offset > buf.len() - 2 {
        Err(PfError::TruncatedBuffer)
    } else {
        Ok(u16_at(buf, offset))
    }
}

/// Reads the 32-bit big-endian field at `offset`; a buffer that ends
/// before the field does is truncated.
pub fn read_u32(buf: &[u8], offset: usize) -> (r: Result<u32, PfError>)
    ensures
        offset + 4 <= buf@.len() ==> r.is_ok() && r.unwrap() as nat == be_field(
            buf@,
            offset as int,
            4,
        ),
        offset + 4 > buf@.len() ==> r == Err::<u32, PfError>(PfError::TruncatedBuffer),
{
    if buf.len() < 4 || offset > buf.len() - 4 {
        Err(PfError::TruncatedBuffer)
    } else {
        Ok(u32_at(buf, offset))
    }
}

/// Reads the 64-bit big-endian field at `offset`; a buffer that ends
/// before the field does is truncated.
pub fn read_u64(buf: &[u8], offset: usize) -> (r: Result<u64, PfError>)
    ensures
        offset + 8 <= buf@.len() ==> r.is_ok() && r.unwrap() as nat == be_field(
            buf@,
            offset as int,
            8,
        ),
        offset + 8 > buf@.len() ==> r == Err::<u64, PfError>(PfError::TruncatedBuffer),
{
    if buf.len() < 8 || offset > buf.len() - 8 {
        Err(PfError::TruncatedBuffer)
    } else {
        Ok(u64_at(buf, offset))
    }
}

/// Reads the 128-bit big-endian field at `offset`; a buffer that ends
/// before the field does is truncated.
pub fn read_u128(buf: &[u8], offset: usize) -> (r: Result<u128, PfError>)
    ensures
        offset + 16 <= buf@.len() ==> r.is_ok() && r.unwrap() as nat == be_field(
            buf@,
            offset as int,
            16,
        ),
        offset + 16 > buf@.len() ==> r == Err::<u128, PfError>(PfError::TruncatedBuffer),
{
    if buf.len() < 16 || offset > buf.len() - 16 {
        Err(PfError::TruncatedBuffer)
    } else {
        Ok(u128_at(buf, offset))
    }
}

} // verus!
