//! Addresses, transport selectors and endpoints.
//!
//! In a record an address and a transport selector are unions: the bytes do
//! not say which variant they hold. The address family and the protocol
//! number of the owning record decide, so every decoder here takes that
//! discriminant as an argument.

use crate::error::PfError;
use crate::text::{
    decimal, dotted_quad, ipv6_text, lemma_dotted_quad_injective, push_decimal, push_dotted_quad,
    push_ipv6_text,
};
use crate::wire::{
    be_bytes, be_field, field, lemma_be_bytes_len, lemma_be_bytes_of_value, lemma_be_value_bound,
    lemma_be_value_of_bytes, lemma_radix_pow_values, push_u128, push_u16, push_u32, u128_at,
    u16_at, u32_at,
};
use vstd::slice::*;
use vstd::prelude::*;
use vstd::string::*;

verus! {

/// The family tag of IPv4 in a record.
pub const AF_INET: u8 = 2;

/// The family tag of IPv6 in a record.
pub const AF_INET6: u8 = 30;

/// The protocol number of GRE, whose selector is a call id.
pub const IPPROTO_GRE: u8 = 47;

/// The protocol number of ESP, whose selector is a security parameter index.
pub const IPPROTO_ESP: u8 = 50;

/// The size of an address union in a record.
pub const ADDR_LEN: usize = 16;

/// The size of a transport-selector union in a record.
pub const XPORT_LEN: usize = 4;

/// The size of an endpoint in a record: address, selector, four bytes of
/// padding.
pub const ENDPOINT_LEN: usize = 24;

/// An address family.
#[derive(Clone, Copy, Debug, PartialEq, Eq, Structural)]
pub enum AddrFamily {
    Ipv4,
    Ipv6,
}

impl AddrFamily {
    /// The family that a tag names, if it names one.
    pub open spec fn of_tag(tag: u8) -> Option<AddrFamily> {
        if tag == AF_INET {
            Some(AddrFamily::Ipv4)
        } else if tag == AF_INET6 {
            Some(AddrFamily::Ipv6)
        } else {
            None
        }
    }

    /// The tag of this family.
    pub open spec fn spec_tag(self) -> u8 {
        match self {
            AddrFamily::Ipv4 => AF_INET,
            AddrFamily::Ipv6 => AF_INET6,
        }
    }

    /// Decodes a family tag; any tag but the two known ones is rejected.
    pub fn from_tag(tag: u8) -> (r: Result<AddrFamily, PfError>)
        ensures
            r == match AddrFamily::of_tag(tag) {
                Some(f) => Ok::<AddrFamily, PfError>(f),
                None => Err(PfError::MalformedRecord),
            },
    {
        if tag == AF_INET {
            Ok(AddrFamily::Ipv4)
        } else if tag == AF_INET6 {
            Ok(AddrFamily::Ipv6)
        } else {
            Err(PfError::MalformedRecord)
        }
    }

    /// The tag of this family.
    pub fn tag(&self) -> (t: u8)
        ensures
            t == self.spec_tag(),
            AddrFamily::of_tag(t) == Some(*self),
    {
        match self {
            AddrFamily::Ipv4 => AF_INET,
            AddrFamily::Ipv6 => AF_INET6,
        }
    }
}

/// An address together with the family that says how to read it.
#[derive(Clone, Copy, Debug, PartialEq, Eq, Structural)]
pub enum Address {
    V4(u32),
    V6(u128),
}

/// `n` zero bytes.
pub open spec fn zeros(n: nat) -> Seq<u8> {
    Seq::new(n, |i: int| 0u8)
}

/// The address that the first sixteen bytes of `bytes` hold under the
/// family tag `tag`.
pub open spec fn spec_decode_address(bytes: Seq<u8>, tag: u8) -> Result<Address, PfError> {
    match AddrFamily::of_tag(tag) {
        None => Err(PfError::MalformedRecord),
        Some(family) => if bytes.len() < ADDR_LEN {
            Err(PfError::TruncatedBuffer)
        } else {
            match family {
                AddrFamily::Ipv4 => Ok(Address::V4(be_field(bytes, 0, 4) as u32)),
                AddrFamily::Ipv6 => Ok(Address::V6(be_field(bytes, 0, 16) as u128)),
            }
        },
    }
}

/// Decodes the address union at the start of `bytes` under the family tag
/// `tag`. Fails on a tag that names no family and on a window shorter than
/// the union.
pub fn decode_address(bytes: &[u8], tag: u8) -> (r: Result<Address, PfError>)
    ensures
        r == spec_decode_address(bytes@, tag),
{
    match AddrFamily::from_tag(tag) {
        Err(e) => Err(e),
        Ok(family) => {
            if bytes.len() < ADDR_LEN {
                Err(PfError::TruncatedBuffer)
            } else {
                match family {
                    AddrFamily::Ipv4 => Ok(Address::V4(u32_at(bytes, 0))),
                    AddrFamily::Ipv6 => Ok(Address::V6(u128_at(bytes, 0))),
                }
            }
        },
    }
}

impl Address {
    /// The family of this address.
    pub open spec fn spec_family(self) -> AddrFamily {
        match self {
            Address::V4(_) => AddrFamily::Ipv4,
            Address::V6(_) => AddrFamily::Ipv6,
        }
    }

    /// The sixteen bytes of the address union: an IPv4 address fills the
    /// first four and leaves the rest zero.
    pub open spec fn spec_bytes(self) -> Seq<u8> {
        match self {
            Address::V4(a) => be_bytes(a as nat, 4) + zeros(12),
            Address::V6(a) => be_bytes(a as nat, 16),
        }
    }

    /// The text of this address: dotted decimal for IPv4, the shortest
    /// colon-separated form for IPv6.
    pub open spec fn text(self) -> Seq<char> {
        match self {
            Address::V4(a) => dotted_quad(be_bytes(a as nat, 4)),
            Address::V6(a) => ipv6_text(be_bytes(a as nat, 16)),
        }
    }

    /// The family of this address.
    pub fn family(&self) -> (f: AddrFamily)
        ensures
            f == self.spec_family(),
    {
        match self {
            Address::V4(_) => AddrFamily::Ipv4,
            Address::V6(_) => AddrFamily::Ipv6,
        }
    }

    /// Encodes the address as the sixteen bytes of its union.
    pub fn encode(&self) -> (out: Vec<u8>)
        ensures
            out@ == self.spec_bytes(),
            out@.len() == ADDR_LEN,
    {
        let mut out: Vec<u8> = Vec::new();
        match self {
            Address::V4(a) => {
                push_u32(&mut out, *a);
                proof {
                    lemma_be_bytes_len(*a as nat, 4);
                }
                let mut i: usize = 0;
                while i < 12
                    invariant
                        i <= 12,
                        out@ == be_bytes(*a as nat, 4) + zeros(i as nat),
                    decreases 12 - i,
                {
                    out.push(0);
                    i = i + 1;
                    proof {
                        assert(out@ =~= be_bytes(*a as nat, 4) + zeros(i as nat));
                    }
                }
            },
            Address::V6(a) => {
                push_u128(&mut out, *a);
                proof {
                    lemma_be_bytes_len(*a as nat, 16);
                }
            },
        }
        out
    }

    /// The text of this address.
    pub fn to_text(&self) -> (s: String)
        ensures
            s@ == self.text(),
    {
        let bytes = self.encode();
        let mut s = String::new();
        match self {
            Address::V4(a) => {
                proof {
                    lemma_be_bytes_len(*a as nat, 4);
                    assert(field(bytes@, 0, 4) =~= be_bytes(*a as nat, 4));
                }
                push_dotted_quad(&mut s, bytes.as_slice(), 0);
            },
            Address::V6(a) => {
                proof {
                    assert(field(bytes@, 0, 16) =~= be_bytes(*a as nat, 16));
                }
                push_ipv6_text(&mut s, bytes.as_slice());
            },
        }
        s
    }
}

/// Decoding what was encoded gives the address back.
pub proof fn lemma_address_decode_encode(a: Address)
    ensures
        spec_decode_address(a.spec_bytes(), a.spec_family().spec_tag()) == Ok::<Address, PfError>(a),
{
    lemma_radix_pow_values();
    match a {
        Address::V4(v) => {
            lemma_be_value_of_bytes(v as nat, 4);
            assert(field(a.spec_bytes(), 0, 4) =~= be_bytes(v as nat, 4));
        },
        Address::V6(v) => {
            lemma_be_value_of_bytes(v as nat, 16);
            assert(field(a.spec_bytes(), 0, 16) =~= be_bytes(v as nat, 16));
        },
    }
}

/// Under a known family tag every window of sixteen bytes decodes, and the
/// text of the result is that of the bytes themselves: the first four as a
/// dotted quad, or all sixteen as colon-separated groups. Encoding the
/// result restores the bytes that the family reads.
pub proof fn lemma_address_text_of_bytes(bytes: Seq<u8>, tag: u8)
    requires
        bytes.len() >= ADDR_LEN,
        tag == AF_INET || tag == AF_INET6,
    ensures
        spec_decode_address(bytes, tag).is_ok(),
        tag == AF_INET ==> {
            let a = spec_decode_address(bytes, tag).unwrap();
            &&& a.text() == dotted_quad(field(bytes, 0, 4))
            &&& a.spec_bytes() == field(bytes, 0, 4) + zeros(12)
        },
        tag == AF_INET6 ==> {
            let a = spec_decode_address(bytes, tag).unwrap();
            &&& a.text() == ipv6_text(field(bytes, 0, 16))
            &&& a.spec_bytes() == field(bytes, 0, 16)
        },
{
    lemma_radix_pow_values();
    lemma_be_value_bound(field(bytes, 0, 4));
    lemma_be_value_bound(field(bytes, 0, 16));
    lemma_be_bytes_of_value(field(bytes, 0, 4));
    lemma_be_bytes_of_value(field(bytes, 0, 16));
}

/// The text of an IPv4 address names the address: two addresses with the
/// same text are the same address.
pub proof fn lemma_ipv4_text_injective(a: u32, b: u32)
    requires
        Address::V4(a).text() == Address::V4(b).text(),
    ensures
        a == b,
{
    lemma_radix_pow_values();
    lemma_be_value_of_bytes(a as nat, 4);
    lemma_be_value_of_bytes(b as nat, 4);
    lemma_dotted_quad_injective(be_bytes(a as nat, 4), be_bytes(b as nat, 4));
}

/// A tag outside the two families never decodes, whatever the bytes.
pub proof fn lemma_address_bad_family(bytes: Seq<u8>, tag: u8)
    requires
        tag != AF_INET,
        tag != AF_INET6,
    ensures
        spec_decode_address(bytes, tag) == Err::<Address, PfError>(PfError::MalformedRecord),
{
}

/// What identifies one side of a flow below the address; the protocol of
/// the owning record says which.
#[derive(Clone, Copy, Debug, PartialEq, Eq, Structural)]
pub enum TransportSelector {
    /// A port number (TCP, UDP), or the identifier that other protocols
    /// keep in its place.
    Port(u16),
    /// A GRE call id.
    CallId(u16),
    /// An ESP security parameter index.
    Spi(u32),
}

/// The selector that the first four bytes of `bytes` hold under `protocol`.
pub open spec fn spec_decode_xport(bytes: Seq<u8>, protocol: u8) -> Result<
    TransportSelector,
    PfError,
> {
    if bytes.len() < XPORT_LEN {
        Err(PfError::TruncatedBuffer)
    } else if protocol == IPPROTO_GRE {
        Ok(TransportSelector::CallId(be_field(bytes, 0, 2) as u16))
    } else if protocol == IPPROTO_ESP {
        Ok(TransportSelector::Spi(be_field(bytes, 0, 4) as u32))
    } else {
        Ok(TransportSelector::Port(be_field(bytes, 0, 2) as u16))
    }
}

/// Decodes the selector union at the start of `bytes` under the protocol
/// number `protocol`. Fails only on a window shorter than the union.
pub fn decode_xport(bytes: &[u8], protocol: u8) -> (r: Result<TransportSelector, PfError>)
    ensures
        r == spec_decode_xport(bytes@, protocol),
{
    if bytes.len() < XPORT_LEN {
        Err(PfError::TruncatedBuffer)
    } else if protocol == IPPROTO_GRE {
        Ok(TransportSelector::CallId(u16_at(bytes, 0)))
    } else if protocol == IPPROTO_ESP {
        Ok(TransportSelector::Spi(u32_at(bytes, 0)))
    } else {
        Ok(TransportSelector::Port(u16_at(bytes, 0)))
    }
}

impl TransportSelector {
    /// The number that the selector holds, whichever variant it is.
    pub open spec fn spec_number(self) -> u32 {
        match self {
            TransportSelector::Port(p) => p as u32,
            TransportSelector::CallId(c) => c as u32,
            TransportSelector::Spi(s) => s,
        }
    }

    /// Whether a record of `protocol` holds this variant.
    pub open spec fn fits(self, protocol: u8) -> bool {
        match self {
            TransportSelector::Port(_) => protocol != IPPROTO_GRE && protocol != IPPROTO_ESP,
            TransportSelector::CallId(_) => protocol == IPPROTO_GRE,
            TransportSelector::Spi(_) => protocol == IPPROTO_ESP,
        }
    }

    /// The four bytes of the selector union; a 16-bit variant leaves the
    /// last two zero.
    pub open spec fn spec_bytes(self) -> Seq<u8> {
        match self {
            TransportSelector::Port(p) => be_bytes(p as nat, 2) + zeros(2),
            TransportSelector::CallId(c) => be_bytes(c as nat, 2) + zeros(2),
            TransportSelector::Spi(s) => be_bytes(s as nat, 4),
        }
    }

    /// The selector as it is displayed: nothing where the number is zero
    /// (not applicable), else a colon and the number in decimal.
    pub open spec fn text(self) -> Seq<char> {
        if self.spec_number() == 0 {
            Seq::empty()
        } else {
            seq![':'] + decimal(self.spec_number() as nat)
        }
    }

    /// The number that the selector holds.
    pub fn number(&self) -> (n: u32)
        ensures
            n == self.spec_number(),
    {
        match self {
            TransportSelector::Port(p) => *p as u32,
            TransportSelector::CallId(c) => *c as u32,
            TransportSelector::Spi(s) => *s,
        }
    }

    /// Encodes the selector as the four bytes of its union.
    pub fn encode(&self) -> (out: Vec<u8>)
        ensures
            out@ == self.spec_bytes(),
            out@.len() == XPORT_LEN,
    {
        let mut out: Vec<u8> = Vec::new();
        match self {
            TransportSelector::Port(p) => {
                push_u16(&mut out, *p);
                out.push(0);
                out.push(0);
                proof {
                    lemma_be_bytes_len(*p as nat, 2);
                    assert(out@ =~= be_bytes(*p as nat, 2) + zeros(2));
                }
            },
            TransportSelector::CallId(c) => {
                push_u16(&mut out, *c);
                out.push(0);
                out.push(0);
                proof {
                    lemma_be_bytes_len(*c as nat, 2);
                    assert(out@ =~= be_bytes(*c as nat, 2) + zeros(2));
                }
            },
            TransportSelector::Spi(s) => {
                push_u32(&mut out, *s);
                proof {
                    lemma_be_bytes_len(*s as nat, 4);
                }
            },
        }
        out
    }

    /// Appends the selector as it is displayed.
    pub fn push_text(&self, out: &mut String)
        ensures
            final(out)@ == old(out)@ + self.text(),
    {
        let n: u32 = self.number();
        if n != 0 {
            out.append(":");
            push_decimal(out, n as u64);
            proof {
                reveal_strlit(":");
                assert(":"@ =~= seq![':']);
                assert(final(out)@ =~= old(out)@ + self.text());
            }
        } else {
            proof {
                assert(final(out)@ =~= old(out)@ + self.text());
            }
        }
    }
}

/// Decoding an encoded selector under a protocol that holds its variant
/// gives the selector back.
pub proof fn lemma_xport_decode_encode(x: TransportSelector, protocol: u8)
    requires
        x.fits(protocol),
    ensures
        spec_decode_xport(x.spec_bytes(), protocol) == Ok::<TransportSelector, PfError>(x),
{
    lemma_radix_pow_values();
    match x {
        TransportSelector::Port(p) => {
            lemma_be_value_of_bytes(p as nat, 2);
            assert(field(x.spec_bytes(), 0, 2) =~= be_bytes(p as nat, 2));
        },
        TransportSelector::CallId(c) => {
            lemma_be_value_of_bytes(c as nat, 2);
            assert(field(x.spec_bytes(), 0, 2) =~= be_bytes(c as nat, 2));
        },
        TransportSelector::Spi(s) => {
            lemma_be_value_of_bytes(s as nat, 4);
            assert(field(x.spec_bytes(), 0, 4) =~= be_bytes(s as nat, 4));
        },
    }
}

/// One side of a flow: an address, a transport selector, and the family
/// under which the address was read.
#[derive(Clone, Copy, Debug, PartialEq, Eq, Structural)]
pub struct Endpoint {
    pub addr: Address,
    pub xport: TransportSelector,
    pub family: AddrFamily,
}

/// The endpoint that the first twenty-four bytes of `bytes` hold under the
/// family tag `tag` and the protocol number `protocol`.
pub open spec fn spec_decode_endpoint(bytes: Seq<u8>, tag: u8, protocol: u8) -> Result<
    Endpoint,
    PfError,
> {
    if bytes.len() < ENDPOINT_LEN {
        Err(PfError::TruncatedBuffer)
    } else {
        match spec_decode_address(field(bytes, 0, 16), tag) {
            Err(e) => Err(e),
            Ok(addr) => match spec_decode_xport(field(bytes, 16, 4), protocol) {
                Err(e) => Err(e),
                Ok(xport) => Ok(Endpoint { addr, xport, family: addr.spec_family() }),
            },
        }
    }
}

/// Decodes an endpoint: address and selector are always read together,
/// each under its discriminant.
pub fn decode_endpoint(bytes: &[u8], tag: u8, protocol: u8) -> (r: Result<Endpoint, PfError>)
    ensures
        r == spec_decode_endpoint(bytes@, tag, protocol),
        r.is_ok() ==> r.unwrap().wf(),
        r.is_ok() <==> bytes@.len() >= ENDPOINT_LEN && (tag == AF_INET || tag == AF_INET6),
{
    if bytes.len() < ENDPOINT_LEN {
        return Err(PfError::TruncatedBuffer);
    }
    let addr_window = slice_subrange(bytes, 0, ADDR_LEN);
    let xport_window = slice_subrange(bytes, ADDR_LEN, ADDR_LEN + XPORT_LEN);
    match decode_address(addr_window, tag) {
        Err(e) => Err(e),
        Ok(addr) => match decode_xport(xport_window, protocol) {
            Err(e) => Err(e),
            Ok(xport) => Ok(Endpoint { addr, xport, family: addr.family() }),
        },
    }
}

impl Endpoint {
    /// The family field agrees with the variant of the address.
    pub open spec fn wf(self) -> bool {
        self.family == self.addr.spec_family()
    }

    /// The endpoint as it is displayed: the address, then the selector.
    pub open spec fn text(self) -> Seq<char> {
        self.addr.text() + self.xport.text()
    }

    /// Builds an endpoint; the family is that of the address.
    pub fn new(addr: Address, xport: TransportSelector) -> (e: Endpoint)
        ensures
            e == (Endpoint { addr, xport, family: addr.spec_family() }),
            e.wf(),
    {
        Endpoint { addr, xport, family: addr.family() }
    }

    /// Appends the endpoint as it is displayed.
    pub fn push_text(&self, out: &mut String)
        ensures
            final(out)@ == old(out)@ + self.text(),
    {
        let a = self.addr.to_text();
        out.append(a.as_str());
        self.xport.push_text(out);
        proof {
            assert(final(out)@ =~= old(out)@ + self.text());
        }
    }

    /// The endpoint as it is displayed.
    pub fn to_text(&self) -> (s: String)
        ensures
            s@ == self.text(),
    {
        let mut s = String::new();
        self.push_text(&mut s);
        proof {
            assert(s@ =~= self.text());
        }
        s
    }
}

} // verus!
