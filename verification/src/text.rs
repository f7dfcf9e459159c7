//! Numbers and addresses as text.

use crate::wire::{be_field, field, u16_at};
use vstd::prelude::*;
use vstd::slice::*;
use vstd::string::*;

verus! {

/// The character of one digit, `0` to `9` and then `a` to `f`.
pub open spec fn digit_char(d: nat) -> char {
    if d < 10 {
        (48 + d) as u8 as char
    } else {
        (87 + d) as u8 as char
    }
}

/// `n` in decimal, without leading zeros.
pub open spec fn decimal(n: nat) -> Seq<char>
    decreases n,
{
    if n < 10 {
        seq![digit_char(n)]
    } else {
        decimal(n / 10).push(digit_char(n % 10))
    }
}

/// `n` in lower-case hexadecimal, without leading zeros.
pub open spec fn hexadecimal(n: nat) -> Seq<char>
    decreases n,
{
    if n < 16 {
        seq![digit_char(n)]
    } else {
        hexadecimal(n / 16).push(digit_char(n % 16))
    }
}

/// The one-character text of a digit below sixteen.
pub(crate) fn digit_str(d: u8) -> (s: &'static str)
    requires
        d < 16,
    ensures
        s@ == seq![digit_char(d as nat)],
{
    let digits = "0123456789abcdef";
    proof {
        reveal_strlit("0123456789abcdef");
    }
    let s = digits.substring_ascii(d as usize, d as usize + 1);
    proof {
        assert(s@ =~= seq![digit_char(d as nat)]);
    }
    s
}

/// Appends `n` in decimal.
pub fn push_decimal(out: &mut String, n: u64)
    ensures
        final(out)@ == old(out)@ + decimal(n as nat),
    decreases n,
{
    if n >= 10 {
        push_decimal(out, n / 10);
    }
    out.append(digit_str((n % 10) as u8));
    proof {
        assert(final(out)@ =~= old(out)@ + decimal(n as nat));
    }
}

/// Appends `n` in lower-case hexadecimal.
pub fn push_hexadecimal(out: &mut String, n: u64)
    ensures
        final(out)@ == old(out)@ + hexadecimal(n as nat),
    decreases n,
{
    if n >= 16 {
        push_hexadecimal(out, n / 16);
    }
    out.append(digit_str((n % 16) as u8));
    proof {
        assert(final(out)@ =~= old(out)@ + hexadecimal(n as nat));
    }
}

/// Four octets in decimal, separated by dots.
pub open spec fn dotted_quad(octets: Seq<u8>) -> Seq<char>
    recommends
        octets.len() == 4,
{
    decimal(octets[0] as nat) + seq!['.'] + decimal(octets[1] as nat) + seq!['.'] + decimal(
        octets[2] as nat,
    ) + seq!['.'] + decimal(octets[3] as nat)
}

/// Appends the four octets at `offset` as a dotted quad.
pub(crate) fn push_dotted_quad(out: &mut String, bytes: &[u8], offset: usize)
    requires
        offset + 4 <= bytes@.len(),
    ensures
        final(out)@ == old(out)@ + dotted_quad(field(bytes@, offset as int, 4)),
{
    let end: usize = bytes.len();
    assert(offset + 4 <= end);
    proof {
        reveal_strlit(".");
        assert("."@ =~= seq!['.']);
    }
    push_decimal(out, bytes[offset] as u64);
    out.append(".");
    push_decimal(out, bytes[offset + 1] as u64);
    out.append(".");
    push_decimal(out, bytes[offset + 2] as u64);
    out.append(".");
    push_decimal(out, bytes[offset + 3] as u64);
    proof {
        assert(final(out)@ =~= old(out)@ + dotted_quad(field(bytes@, offset as int, 4)));
    }
}

/// The eight 16-bit groups of sixteen address bytes.
pub open spec fn groups_of(bytes: Seq<u8>) -> Seq<u16>
    recommends
        bytes.len() == 16,
{
    Seq::new(8, |i: int| be_field(bytes, 2 * i, 2) as u16)
}

/// The number of zero groups in a row that start at group `i`.
pub open spec fn zero_run(groups: Seq<u16>, i: int) -> nat
    decreases groups.len() - i,
{
    if 0 <= i < groups.len() && groups[i] == 0 {
        1 + zero_run(groups, i + 1)
    } else {
        0
    }
}

/// Among the groups before `n`, the first at which the longest run of zero
/// groups starts.
pub open spec fn longest_run_start(groups: Seq<u16>, n: nat) -> int
    decreases n,
{
    if n <= 1 {
        0
    } else {
        let before = longest_run_start(groups, (n - 1) as nat);
        if zero_run(groups, n - 1) > zero_run(groups, before) {
            n - 1
        } else {
            before
        }
    }
}

/// The groups from `from` up to `to` in hexadecimal, separated by colons.
pub open spec fn joined_groups(groups: Seq<u16>, from: int, to: int) -> Seq<char>
    decreases to - from,
{
    if from >= to {
        Seq::empty()
    } else if from + 1 == to {
        hexadecimal(groups[from] as nat)
    } else {
        joined_groups(groups, from, to - 1) + seq![':'] + hexadecimal(groups[to - 1] as nat)
    }
}

/// Whether the groups hold an IPv4 address mapped into IPv6.
pub open spec fn is_v4_mapped(groups: Seq<u16>) -> bool {
    &&& groups[0] == 0
    &&& groups[1] == 0
    &&& groups[2] == 0
    &&& groups[3] == 0
    &&& groups[4] == 0
    &&& groups[5] == 0xffff
}

/// The text of sixteen IPv6 address bytes. A mapped IPv4 address is written
/// as `::ffff:` and a dotted quad. Otherwise the groups are written in
/// hexadecimal with colons between them, and the longest run of two or more
/// zero groups, the first where several are as long, is replaced by `::`.
pub open spec fn ipv6_text(bytes: Seq<u8>) -> Seq<char>
    recommends
        bytes.len() == 16,
{
    let groups = groups_of(bytes);
    if is_v4_mapped(groups) {
        seq![':', ':', 'f', 'f', 'f', 'f', ':'] + dotted_quad(field(bytes, 12, 4))
    } else {
        let start = longest_run_start(groups, 8);
        let run = zero_run(groups, start);
        if run >= 2 {
            joined_groups(groups, 0, start) + seq![':', ':'] + joined_groups(
                groups,
                start + run,
                8,
            )
        } else {
            joined_groups(groups, 0, 8)
        }
    }
}

/// The run of zero groups found at `start`: a longest one, and the first of
/// the longest.
pub proof fn lemma_longest_run_start(groups: Seq<u16>, n: nat)
    requires
        1 <= n <= groups.len(),
    ensures
        0 <= longest_run_start(groups, n) < n,
        forall|j: int|
            0 <= j < n ==> #[trigger] zero_run(groups, j) <= zero_run(
                groups,
                longest_run_start(groups, n),
            ),
        forall|j: int|
            0 <= j < longest_run_start(groups, n) ==> #[trigger] zero_run(groups, j) < zero_run(
                groups,
                longest_run_start(groups, n),
            ),
    decreases n,
{
    if n > 1 {
        lemma_longest_run_start(groups, (n - 1) as nat);
    }
}

/// Reads the eight groups of the sixteen bytes at the start of `bytes`.
fn read_groups(bytes: &[u8]) -> (groups: Vec<u16>)
    requires
        bytes@.len() >= 16,
    ensures
        groups@ == groups_of(field(bytes@, 0, 16)),
{
    let mut groups: Vec<u16> = Vec::new();
    let mut i: usize = 0;
    while i < 8
        invariant
            i <= 8,
            bytes@.len() >= 16,
            groups@.len() == i,
            forall|k: int| 0 <= k < i ==> groups@[k] == groups_of(field(bytes@, 0, 16))[k],
        decreases 8 - i,
    {
        let g: u16 = u16_at(bytes, 2 * i);
        proof {
            assert(field(bytes@, 2 * i, 2) =~= field(field(bytes@, 0, 16), 2 * i, 2));
        }
        groups.push(g);
        i = i + 1;
    }
    proof {
        assert(groups@ =~= groups_of(field(bytes@, 0, 16)));
    }
    groups
}

/// Counts the zero groups in a row that start at group `i`.
fn count_zero_run(groups: &Vec<u16>, i: usize) -> (n: usize)
    requires
        i <= groups@.len(),
    ensures
        n == zero_run(groups@, i as int),
        i + n <= groups@.len(),
{
    let mut k: usize = i;
    while k < groups.len() && groups[k] == 0
        invariant
            i <= k <= groups@.len(),
            zero_run(groups@, i as int) == (k - i) + zero_run(groups@, k as int),
        decreases groups@.len() - k,
    {
        k = k + 1;
    }
    k - i
}

/// Appends the groups from `from` up to `to`, separated by colons.
fn push_joined_groups(out: &mut String, groups: &Vec<u16>, from: usize, to: usize)
    requires
        from <= to <= groups@.len(),
    ensures
        final(out)@ == old(out)@ + joined_groups(groups@, from as int, to as int),
{
    let mut k: usize = from;
    proof {
        assert(out@ =~= old(out)@ + joined_groups(groups@, from as int, k as int));
    }
    while k < to
        invariant
            from <= k <= to <= groups@.len(),
            out@ == old(out)@ + joined_groups(groups@, from as int, k as int),
        decreases to - k,
    {
        if k > from {
            out.append(":");
            proof {
                reveal_strlit(":");
                assert(":"@ =~= seq![':']);
            }
        }
        push_hexadecimal(out, groups[k] as u64);
        k = k + 1;
        proof {
            assert(out@ =~= old(out)@ + joined_groups(groups@, from as int, k as int));
        }
    }
}

/// Appends the text of the sixteen IPv6 address bytes at the start of
/// `bytes`.
pub(crate) fn push_ipv6_text(out: &mut String, bytes: &[u8])
    requires
        bytes@.len() >= 16,
    ensures
        final(out)@ == old(out)@ + ipv6_text(field(bytes@, 0, 16)),
{
    let groups = read_groups(bytes);
    let mapped = groups[0] == 0 && groups[1] == 0 && groups[2] == 0 && groups[3] == 0 && groups[4]
        == 0 && groups[5] == 0xffff;
    if mapped {
        out.append("::ffff:");
        proof {
            reveal_strlit("::ffff:");
            assert("::ffff:"@ =~= seq![':', ':', 'f', 'f', 'f', 'f', ':']);
            assert(field(bytes@, 12, 4) =~= field(field(bytes@, 0, 16), 12, 4));
        }
        push_dotted_quad(out, bytes, 12);
        proof {
            assert(final(out)@ =~= old(out)@ + ipv6_text(field(bytes@, 0, 16)));
        }
        return ;
    }
    let mut start: usize = 0;
    let mut run: usize = count_zero_run(&groups, 0);
    let mut j: usize = 1;
    while j < 8
        invariant
            1 <= j <= 8,
            groups@.len() == 8,
            start == longest_run_start(groups@, j as nat),
            run == zero_run(groups@, start as int),
            start < j,
            start + run <= 8,
        decreases 8 - j,
    {
        let here: usize = count_zero_run(&groups, j);
        if here > run {
            start = j;
            run = here;
        }
        j = j + 1;
    }
    if run >= 2 {
        push_joined_groups(out, &groups, 0, start);
        out.append("::");
        proof {
            reveal_strlit("::");
            assert("::"@ =~= seq![':', ':']);
        }
        push_joined_groups(out, &groups, start + run, 8);
    } else {
        push_joined_groups(out, &groups, 0, 8);
    }
    proof {
        assert(final(out)@ =~= old(out)@ + ipv6_text(field(bytes@, 0, 16)));
    }
}

/// `String::push` of the standard library: the string afterwards is the
/// string before with `c` added at its end.
#[verifier::external_body]
pub(crate) fn push_char(out: &mut String, c: char)
    ensures
        final(out)@ == old(out)@.push(c),
{
    out.push(c);
}

/// The bytes of `s` without the zero bytes at its end.
pub open spec fn trim_padding(s: Seq<u8>) -> Seq<u8>
    decreases s.len(),
{
    if s.len() > 0 && s.last() == 0 {
        trim_padding(s.drop_last())
    } else {
        s
    }
}

/// Each byte as the character with that code.
pub open spec fn byte_chars(s: Seq<u8>) -> Seq<char> {
    Seq::new(s.len(), |i: int| s[i] as char)
}

/// The name held by a fixed-size buffer that is padded with zero bytes.
pub open spec fn padded_name(s: Seq<u8>) -> Seq<char> {
    byte_chars(trim_padding(s))
}

/// What `trim_padding` keeps is a prefix that ends in a byte other than
/// zero, and all that it drops is zero.
pub proof fn lemma_trim_padding(s: Seq<u8>)
    ensures
        trim_padding(s).len() <= s.len(),
        trim_padding(s) == s.take(trim_padding(s).len() as int),
        trim_padding(s).len() > 0 ==> trim_padding(s).last() != 0,
        forall|i: int| trim_padding(s).len() <= i < s.len() ==> s[i] == 0,
    decreases s.len(),
{
    if s.len() > 0 && s.last() == 0 {
        lemma_trim_padding(s.drop_last());
        let t = trim_padding(s);
        assert(t =~= s.take(t.len() as int));
        assert forall|i: int| t.len() <= i < s.len() implies s[i] == 0 by {
            if i < s.len() - 1 {
                assert(s.drop_last()[i] == s[i]);
            }
        }
    } else {
        assert(s =~= s.take(s.len() as int));
    }
}

/// Decodes a name from a fixed-size buffer: the padding at the end is
/// dropped, the rest becomes text byte by byte.
pub fn decode_name(bytes: &[u8]) -> (name: String)
    ensures
        name@ == padded_name(bytes@),
{
    let mut end: usize = bytes.len();
    proof {
        assert(bytes@.take(end as int) =~= bytes@);
    }
    while end > 0 && bytes[end - 1] == 0
        invariant
            end <= bytes@.len(),
            trim_padding(bytes@) == trim_padding(bytes@.take(end as int)),
        decreases end,
    {
        proof {
            assert(bytes@.take(end as int).drop_last() =~= bytes@.take(end - 1));
        }
        end = end - 1;
    }
    proof {
        assert(trim_padding(bytes@) == bytes@.take(end as int));
    }
    let mut name = String::new();
    let mut i: usize = 0;
    while i < end
        invariant
            i <= end <= bytes@.len(),
            name@ == byte_chars(bytes@.take(i as int)),
        decreases end - i,
    {
        push_char(&mut name, bytes[i] as char);
        i = i + 1;
        proof {
            assert(name@ =~= byte_chars(bytes@.take(i as int)));
        }
    }
    name
}

/// Whether `c` is a decimal digit.
pub open spec fn is_decimal_digit(c: char) -> bool {
    '0' <= c <= '9'
}

/// The number that a string of decimal digits spells.
pub open spec fn decimal_value(s: Seq<char>) -> nat
    decreases s.len(),
{
    if s.len() == 0 {
        0
    } else {
        (decimal_value(s.drop_last()) * 10 + (s.last() as nat - 48)) as nat
    }
}

/// A number in decimal is one digit or more, nothing but digits, and
/// spells that number: no two numbers have the same text.
pub proof fn lemma_decimal(n: nat)
    ensures
        decimal(n).len() >= 1,
        forall|i: int| 0 <= i < decimal(n).len() ==> is_decimal_digit(#[trigger] decimal(n)[i]),
        decimal_value(decimal(n)) == n,
    decreases n,
{
    if n < 10 {
        assert(decimal(n).drop_last() =~= Seq::<char>::empty());
        assert(decimal_value(decimal(n).drop_last()) == 0);
    } else {
        lemma_decimal(n / 10);
        assert(decimal(n).drop_last() =~= decimal(n / 10));
    }
}

/// Two texts of digits, each followed by a dot and a rest, are the same
/// text only where the digits are the same and the rests are the same.
pub proof fn lemma_split_at_dot(
    digits1: Seq<char>,
    rest1: Seq<char>,
    digits2: Seq<char>,
    rest2: Seq<char>,
)
    requires
        forall|i: int| 0 <= i < digits1.len() ==> is_decimal_digit(#[trigger] digits1[i]),
        forall|i: int| 0 <= i < digits2.len() ==> is_decimal_digit(#[trigger] digits2[i]),
        digits1 + seq!['.'] + rest1 == digits2 + seq!['.'] + rest2,
    ensures
        digits1 == digits2,
        rest1 == rest2,
{
    let text1 = digits1 + seq!['.'] + rest1;
    let text2 = digits2 + seq!['.'] + rest2;
    if digits1.len() < digits2.len() {
        assert(text1[digits1.len() as int] == '.');
        assert(text2[digits1.len() as int] == digits2[digits1.len() as int]);
        assert(is_decimal_digit(digits2[digits1.len() as int]));
    }
    if digits2.len() < digits1.len() {
        assert(text2[digits2.len() as int] == '.');
        assert(text1[digits2.len() as int] == digits1[digits2.len() as int]);
        assert(is_decimal_digit(digits1[digits2.len() as int]));
    }
    assert(digits1 =~= text1.take(digits1.len() as int));
    assert(digits2 =~= text2.take(digits2.len() as int));
    assert(rest1 =~= text1.skip(digits1.len() as int + 1));
    assert(rest2 =~= text2.skip(digits2.len() as int + 1));
}

/// A dotted quad names its four octets: no two quads have the same text.
pub proof fn lemma_dotted_quad_injective(a: Seq<u8>, b: Seq<u8>)
    requires
        a.len() == 4,
        b.len() == 4,
        dotted_quad(a) == dotted_quad(b),
    ensures
        a == b,
{
    let dot = seq!['.'];
    lemma_decimal(a[0] as nat);
    lemma_decimal(a[1] as nat);
    lemma_decimal(a[2] as nat);
    lemma_decimal(a[3] as nat);
    lemma_decimal(b[0] as nat);
    lemma_decimal(b[1] as nat);
    lemma_decimal(b[2] as nat);
    lemma_decimal(b[3] as nat);
    let a3 = decimal(a[3] as nat);
    let b3 = decimal(b[3] as nat);
    let a2 = decimal(a[2] as nat) + dot + a3;
    let b2 = decimal(b[2] as nat) + dot + b3;
    let a1 = decimal(a[1] as nat) + dot + a2;
    let b1 = decimal(b[1] as nat) + dot + b2;
    assert(dotted_quad(a) =~= decimal(a[0] as nat) + dot + a1);
    assert(dotted_quad(b) =~= decimal(b[0] as nat) + dot + b1);
    lemma_split_at_dot(decimal(a[0] as nat), a1, decimal(b[0] as nat), b1);
    lemma_split_at_dot(decimal(a[1] as nat), a2, decimal(b[1] as nat), b2);
    lemma_split_at_dot(decimal(a[2] as nat), a3, decimal(b[2] as nat), b3);
    assert(a =~= b);
}

} // verus!
