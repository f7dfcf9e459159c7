//! Filter rules and translation rules: their values, their builders, and
//! the fixed-size record under which a rule goes to the kernel.
//!
//! An encoded rule is `RULE_LEN` bytes:
//!
//! | offset | size | field |
//! |---|---|---|
//! | 0 | 1 | record kind: 1 filter, 2 translation |
//! | 1 | 1 | action |
//! | 2 | 1 | direction: 0 any, 1 in, 2 out |
//! | 3 | 1 | flag: `quick` of a filter rule, `pass` of a translation rule |
//! | 4 | 1 | address family tag, 0 for any |
//! | 5 | 1 | protocol number, 0 for any |
//! | 6 | 2 | zero |
//! | 8 | 16 | interface name, padded with zero bytes |
//! | 24 | 24 | source |
//! | 48 | 24 | destination |
//! | 72 | 24 | translation target, zero in a filter rule |
//!
//! and an endpoint in it is the sixteen address bytes, the prefix length,
//! a byte that is 1 for any address, the port operator (0 any, 1 one port,
//! 2 a range), a zero byte, and the two ports of the range in network
//! order.

use crate::addr::{zeros, AddrFamily, Address};
use crate::error::PfError;
use crate::state::{Direction, IFNAME_LEN};
use crate::wire::{be_bytes, lemma_be_bytes_len, push_u16};
use vstd::prelude::*;
use vstd::string::*;
use vstd::utf8::is_ascii_chars;

verus! {

/// The size of an encoded rule.
pub const RULE_LEN: usize = 96;

/// The size of an endpoint in an encoded rule.
pub const RULE_ENDPOINT_LEN: usize = 24;

/// The record kind of a filter rule.
pub const RULE_KIND_FILTER: u8 = 1;

/// The record kind of a translation rule.
pub const RULE_KIND_NAT: u8 = 2;

/// What a filter rule does with a packet that it matches.
#[derive(Clone, Copy, Debug, PartialEq, Eq, Structural)]
pub enum FilterAction {
    Pass,
    Drop,
}

/// What a translation rule does with a packet that it matches.
#[derive(Clone, Copy, Debug, PartialEq, Eq, Structural)]
pub enum NatRuleAction {
    /// Replaces the source by the translation target.
    Nat,
    /// Exempts the packet from translation.
    NoNat,
}

/// The protocol that a rule matches.
#[derive(Clone, Copy, Debug, PartialEq, Eq, Structural)]
pub enum Proto {
    Any,
    Icmp,
    Tcp,
    Udp,
    IcmpV6,
}

/// The addresses that a rule matches or translates to.
#[derive(Clone, Copy, Debug, PartialEq, Eq, Structural)]
pub enum Ip {
    Any,
    /// The network of `addr` with the first `prefix` bits fixed; a single
    /// host where the prefix is the whole address.
    Net { addr: Address, prefix: u8 },
}

/// The ports that a rule matches or translates to.
#[derive(Clone, Copy, Debug, PartialEq, Eq, Structural)]
pub enum Port {
    Any,
    One(u16),
    /// The ports from the first to the second, both included.
    Range(u16, u16),
}

/// One side of a rule: addresses and ports.
#[derive(Clone, Copy, Debug, PartialEq, Eq, Structural)]
pub struct RuleEndpoint {
    pub ip: Ip,
    pub port: Port,
}

impl FilterAction {
    /// The byte of this action in a record.
    pub open spec fn spec_code(self) -> u8 {
        match self {
            FilterAction::Pass => 0,
            FilterAction::Drop => 1,
        }
    }

    /// The byte of this action in a record.
    pub fn code(&self) -> (c: u8)
        ensures
            c == self.spec_code(),
    {
        match self {
            FilterAction::Pass => 0,
            FilterAction::Drop => 1,
        }
    }
}

impl NatRuleAction {
    /// The byte of this action in a record.
    pub open spec fn spec_code(self) -> u8 {
        match self {
            NatRuleAction::Nat => 0,
            NatRuleAction::NoNat => 1,
        }
    }

    /// The byte of this action in a record.
    pub fn code(&self) -> (c: u8)
        ensures
            c == self.spec_code(),
    {
        match self {
            NatRuleAction::Nat => 0,
            NatRuleAction::NoNat => 1,
        }
    }
}

impl Proto {
    /// The protocol number; zero stands for any protocol.
    pub open spec fn spec_number(self) -> u8 {
        match self {
            Proto::Any => 0,
            Proto::Icmp => 1,
            Proto::Tcp => 6,
            Proto::Udp => 17,
            Proto::IcmpV6 => 58,
        }
    }

    /// Whether the protocol has ports.
    pub open spec fn has_ports(self) -> bool {
        self == Proto::Tcp || self == Proto::Udp
    }

    /// The protocol number; zero stands for any protocol.
    pub fn number(&self) -> (n: u8)
        ensures
            n == self.spec_number(),
    {
        match self {
            Proto::Any => 0,
            Proto::Icmp => 1,
            Proto::Tcp => 6,
            Proto::Udp => 17,
            Proto::IcmpV6 => 58,
        }
    }
}

/// The number of bits of an address of `family`.
pub open spec fn address_bits(family: AddrFamily) -> u8 {
    match family {
        AddrFamily::Ipv4 => 32,
        AddrFamily::Ipv6 => 128,
    }
}

/// The byte of a direction in a record.
pub open spec fn direction_code(d: Direction) -> u8 {
    match d {
        Direction::Unknown => 0,
        Direction::In => 1,
        Direction::Out => 2,
    }
}

/// The family tag of a rule in a record; zero stands for any family.
pub open spec fn family_code(af: Option<AddrFamily>) -> u8 {
    match af {
        None => 0,
        Some(f) => f.spec_tag(),
    }
}

/// A flag as a byte.
pub open spec fn flag_code(b: bool) -> u8 {
    if b {
        1
    } else {
        0
    }
}

impl Ip {
    /// The single host `addr`.
    pub fn host(addr: Address) -> (ip: Ip)
        ensures
            ip == (Ip::Net { addr, prefix: address_bits(addr.spec_family()) }),
    {
        match addr {
            Address::V4(_) => Ip::Net { addr, prefix: 32 },
            Address::V6(_) => Ip::Net { addr, prefix: 128 },
        }
    }

    /// Whether a rule of family `af` may hold these addresses: a network
    /// is of the rule's family, and its prefix is no longer than an
    /// address.
    pub open spec fn valid(self, af: Option<AddrFamily>) -> bool {
        match self {
            Ip::Any => true,
            Ip::Net { addr, prefix } => af == Some(addr.spec_family()) && prefix <= address_bits(
                addr.spec_family(),
            ),
        }
    }

    /// The eighteen bytes of the addresses in a record.
    pub open spec fn spec_bytes(self) -> Seq<u8> {
        match self {
            Ip::Any => zeros(16) + seq![0u8, 1u8],
            Ip::Net { addr, prefix } => addr.spec_bytes() + seq![prefix, 0u8],
        }
    }

    /// Whether a rule of family `af` may hold these addresses.
    fn is_valid(&self, af: Option<AddrFamily>) -> (b: bool)
        ensures
            b == self.valid(af),
    {
        match self {
            Ip::Any => true,
            Ip::Net { addr, prefix } => {
                let family = addr.family();
                let bits: u8 = match family {
                    AddrFamily::Ipv4 => 32,
                    AddrFamily::Ipv6 => 128,
                };
                match af {
                    Some(f) => f == family && *prefix <= bits,
                    None => false,
                }
            },
        }
    }

    /// Appends the bytes of this part of a record.
    fn push_bytes(&self, out: &mut Vec<u8>)
        ensures
            final(out)@ == old(out)@ + self.spec_bytes(),
    {
        match self {
            Ip::Any => {
                let mut i: usize = 0;
                while i < 16
                    invariant
                        i <= 16,
                        out@ == old(out)@ + zeros(i as nat),
                    decreases 16 - i,
                {
                    out.push(0);
                    i = i + 1;
                    proof {
                        assert(out@ =~= old(out)@ + zeros(i as nat));
                    }
                }
                out.push(0);
                out.push(1);
            },
            Ip::Net { addr, prefix } => {
                let mut bytes = addr.encode();
                out.append(&mut bytes);
                out.push(*prefix);
                out.push(0);
            },
        }
        proof {
            assert(final(out)@ =~= old(out)@ + self.spec_bytes());
        }
    }
}

impl Port {
    /// Whether the ports make sense: a range does not run backwards.
    pub open spec fn valid(self) -> bool {
        match self {
            Port::Range(lo, hi) => lo <= hi,
            _ => true,
        }
    }

    /// The six bytes of the ports in a record.
    pub open spec fn spec_bytes(self) -> Seq<u8> {
        match self {
            Port::Any => seq![0u8, 0u8] + be_bytes(0, 2) + be_bytes(0, 2),
            Port::One(p) => seq![1u8, 0u8] + be_bytes(p as nat, 2) + be_bytes(p as nat, 2),
            Port::Range(lo, hi) => seq![2u8, 0u8] + be_bytes(lo as nat, 2) + be_bytes(hi as nat, 2),
        }
    }

    /// Whether the ports make sense.
    fn is_valid(&self) -> (b: bool)
        ensures
            b == self.valid(),
    {
        match self {
            Port::Range(lo, hi) => *lo <= *hi,
            _ => true,
        }
    }

    /// Appends the bytes of this part of a record.
    fn push_bytes(&self, out: &mut Vec<u8>)
        ensures
            final(out)@ == old(out)@ + self.spec_bytes(),
    {
        let (op, lo, hi): (u8, u16, u16) = match self {
            Port::Any => (0, 0, 0),
            Port::One(p) => (1, *p, *p),
            Port::Range(lo, hi) => (2, *lo, *hi),
        };
        out.push(op);
        out.push(0);
        push_u16(out, lo);
        push_u16(out, hi);
        proof {
            assert(final(out)@ =~= old(out)@ + self.spec_bytes());
        }
    }
}

impl RuleEndpoint {
    /// Any address, any port.
    pub open spec fn spec_any() -> RuleEndpoint {
        RuleEndpoint { ip: Ip::Any, port: Port::Any }
    }

    /// Whether a rule of family `af` and protocol `proto` may hold this
    /// endpoint: ports are named only for a protocol that has them.
    pub open spec fn valid(self, af: Option<AddrFamily>, proto: Proto) -> bool {
        &&& self.ip.valid(af)
        &&& self.port.valid()
        &&& self.port != Port::Any ==> proto.has_ports()
    }

    /// The twenty-four bytes of the endpoint in a record.
    pub open spec fn spec_bytes(self) -> Seq<u8> {
        self.ip.spec_bytes() + self.port.spec_bytes()
    }

    /// An endpoint of these addresses and ports.
    pub fn new(ip: Ip, port: Port) -> (e: RuleEndpoint)
        ensures
            e == (RuleEndpoint { ip, port }),
    {
        RuleEndpoint { ip, port }
    }

    /// Any address, any port.
    pub fn any() -> (e: RuleEndpoint)
        ensures
            e == RuleEndpoint::spec_any(),
    {
        RuleEndpoint { ip: Ip::Any, port: Port::Any }
    }

    /// Whether a rule of family `af` and protocol `proto` may hold this
    /// endpoint.
    fn is_valid(&self, af: Option<AddrFamily>, proto: Proto) -> (b: bool)
        ensures
            b == self.valid(af, proto),
    {
        let ports_ok = match self.port {
            Port::Any => true,
            _ => proto == Proto::Tcp || proto == Proto::Udp,
        };
        self.ip.is_valid(af) && self.port.is_valid() && ports_ok
    }

    /// Appends the bytes of this part of a record.
    fn push_bytes(&self, out: &mut Vec<u8>)
        ensures
            final(out)@ == old(out)@ + self.spec_bytes(),
    {
        self.ip.push_bytes(out);
        self.port.push_bytes(out);
        proof {
            assert(final(out)@ =~= old(out)@ + self.spec_bytes());
        }
    }
}

/// An endpoint in a record has its fixed size.
pub proof fn lemma_endpoint_len(e: RuleEndpoint)
    ensures
        e.spec_bytes().len() == RULE_ENDPOINT_LEN,
{
    lemma_be_bytes_len(0, 2);
    match e.port {
        Port::One(p) => {
            lemma_be_bytes_len(p as nat, 2);
        },
        Port::Range(lo, hi) => {
            lemma_be_bytes_len(lo as nat, 2);
            lemma_be_bytes_len(hi as nat, 2);
        },
        _ => {},
    }
    match e.ip {
        Ip::Net { addr, prefix } => {
            match addr {
                Address::V4(a) => {
                    lemma_be_bytes_len(a as nat, 4);
                },
                Address::V6(a) => {
                    lemma_be_bytes_len(a as nat, 16);
                },
            }
        },
        _ => {},
    }
}

/// Whether `name` can stand in a record as an interface name: it leaves
/// room for a zero byte after it, and each of its characters is ASCII and
/// not the zero character. The empty name stands for any interface.
pub open spec fn name_valid(name: Seq<char>) -> bool {
    &&& name.len() < IFNAME_LEN
    &&& forall|i: int| 0 <= i < name.len() ==> '\0' < #[trigger] name[i] <= '\u{7f}'
}

/// The bytes of an ASCII name, one for each character.
pub open spec fn name_bytes(name: Seq<char>) -> Seq<u8> {
    Seq::new(name.len(), |i: int| name[i] as u8)
}

/// The bytes of an interface name, if the name is valid.
fn encode_name(name: &String) -> (r: Option<Vec<u8>>)
    ensures
        name_valid(name@) ==> r.is_some() && r.unwrap()@ == name_bytes(name@),
        !name_valid(name@) ==> r.is_none(),
{
    let text = name.as_str();
    if !text.is_ascii() {
        return None;
    }
    let bytes = text.as_bytes_vec();
    proof {
        is_ascii_spec_bytes(text);
        assert(bytes@ =~= name_bytes(name@));
    }
    if bytes.len() >= IFNAME_LEN {
        return None;
    }
    let mut i: usize = 0;
    while i < bytes.len()
        invariant
            i <= bytes@.len(),
            bytes@ == name_bytes(name@),
            is_ascii_chars(name@),
            forall|k: int| 0 <= k < i ==> '\0' < #[trigger] name@[k] <= '\u{7f}',
        decreases bytes@.len() - i,
    {
        if bytes[i] == 0 {
            proof {
                assert(name@[i as int] as u8 == 0);
                assert('\0' <= name@[i as int] <= '\u{7f}');
            }
            return None;
        }
        proof {
            assert(name@[i as int] as u8 != 0);
            assert('\0' <= name@[i as int] <= '\u{7f}');
        }
        i = i + 1;
    }
    Some(bytes)
}

/// A name in a buffer of `IFNAME_LEN` bytes: the bytes of the name and
/// zero bytes after them.
pub open spec fn padded_bytes(name: Seq<u8>) -> Seq<u8>
    recommends
        name.len() <= IFNAME_LEN,
{
    name + zeros((IFNAME_LEN - name.len()) as nat)
}

/// The first eight bytes of a record.
pub open spec fn header_bytes(kind: u8, action: u8, direction: u8, flag: u8, af: u8, proto: u8) -> Seq<
    u8,
> {
    seq![kind, action, direction, flag, af, proto, 0u8, 0u8]
}

/// A filter rule.
#[derive(Clone, Debug, PartialEq, Eq)]
pub struct Rule {
    pub action: FilterAction,
    pub direction: Direction,
    /// Whether a match ends the evaluation of the ruleset.
    pub quick: bool,
    /// The family of the packets that the rule matches; `None` for any.
    pub af: Option<AddrFamily>,
    pub proto: Proto,
    /// The interface that the rule is bound to; empty for any.
    pub interface: String,
    pub from: RuleEndpoint,
    pub to: RuleEndpoint,
}

/// A translation rule.
#[derive(Clone, Debug, PartialEq, Eq)]
pub struct NatRule {
    pub action: NatRuleAction,
    /// The family of the packets that the rule matches; `None` for any.
    pub af: Option<AddrFamily>,
    pub proto: Proto,
    /// The interface that the rule is bound to; empty for any.
    pub interface: String,
    pub from: RuleEndpoint,
    pub to: RuleEndpoint,
    /// What replaces the source.
    pub nat_to: RuleEndpoint,
    /// Whether translated packets pass without being filtered.
    pub pass: bool,
}

/// What a filter rule holds, as a mathematical value.
pub struct RuleView {
    pub action: FilterAction,
    pub direction: Direction,
    pub quick: bool,
    pub af: Option<AddrFamily>,
    pub proto: Proto,
    pub interface: Seq<char>,
    pub from: RuleEndpoint,
    pub to: RuleEndpoint,
}

/// What a translation rule holds, as a mathematical value.
pub struct NatRuleView {
    pub action: NatRuleAction,
    pub af: Option<AddrFamily>,
    pub proto: Proto,
    pub interface: Seq<char>,
    pub from: RuleEndpoint,
    pub to: RuleEndpoint,
    pub nat_to: RuleEndpoint,
    pub pass: bool,
}

impl View for Rule {
    type V = RuleView;

    open spec fn view(&self) -> RuleView {
        RuleView {
            action: self.action,
            direction: self.direction,
            quick: self.quick,
            af: self.af,
            proto: self.proto,
            interface: self.interface@,
            from: self.from,
            to: self.to,
        }
    }
}

impl View for NatRule {
    type V = NatRuleView;

    open spec fn view(&self) -> NatRuleView {
        NatRuleView {
            action: self.action,
            af: self.af,
            proto: self.proto,
            interface: self.interface@,
            from: self.from,
            to: self.to,
            nat_to: self.nat_to,
            pass: self.pass,
        }
    }
}

impl RuleView {
    /// Whether the rule can be encoded: the interface name is valid, and
    /// both endpoints fit the family and the protocol of the rule.
    pub open spec fn valid(self) -> bool {
        &&& name_valid(self.interface)
        &&& self.from.valid(self.af, self.proto)
        &&& self.to.valid(self.af, self.proto)
    }

    /// The record of the rule.
    pub open spec fn bytes(self) -> Seq<u8> {
        header_bytes(
            RULE_KIND_FILTER,
            self.action.spec_code(),
            direction_code(self.direction),
            flag_code(self.quick),
            family_code(self.af),
            self.proto.spec_number(),
        ) + padded_bytes(name_bytes(self.interface)) + self.from.spec_bytes()
            + self.to.spec_bytes() + zeros(RULE_ENDPOINT_LEN as nat)
    }
}

impl NatRuleView {
    /// Whether the rule can be encoded: as for a filter rule, and a rule
    /// that translates names the addresses that it translates to.
    pub open spec fn valid(self) -> bool {
        &&& name_valid(self.interface)
        &&& self.from.valid(self.af, self.proto)
        &&& self.to.valid(self.af, self.proto)
        &&& self.nat_to.valid(self.af, self.proto)
        &&& self.action == NatRuleAction::Nat ==> self.nat_to.ip != Ip::Any
    }

    /// The record of the rule.
    pub open spec fn bytes(self) -> Seq<u8> {
        header_bytes(
            RULE_KIND_NAT,
            self.action.spec_code(),
            0,
            flag_code(self.pass),
            family_code(self.af),
            self.proto.spec_number(),
        ) + padded_bytes(name_bytes(self.interface)) + self.from.spec_bytes()
            + self.to.spec_bytes() + self.nat_to.spec_bytes()
    }
}

/// The record of a valid filter rule has the size of an encoded rule.
pub proof fn lemma_rule_len(rule: RuleView)
    requires
        rule.valid(),
    ensures
        rule.bytes().len() == RULE_LEN,
{
    lemma_endpoint_len(rule.from);
    lemma_endpoint_len(rule.to);
}

/// The record of a valid translation rule has the size of an encoded
/// rule.
pub proof fn lemma_nat_rule_len(rule: NatRuleView)
    requires
        rule.valid(),
    ensures
        rule.bytes().len() == RULE_LEN,
{
    lemma_endpoint_len(rule.from);
    lemma_endpoint_len(rule.to);
    lemma_endpoint_len(rule.nat_to);
}

/// Appends the header of a record.
fn push_header(out: &mut Vec<u8>, kind: u8, action: u8, direction: u8, flag: bool, af: Option<
    AddrFamily,
>, proto: Proto)
    ensures
        final(out)@ == old(out)@ + header_bytes(
            kind,
            action,
            direction,
            flag_code(flag),
            family_code(af),
            proto.spec_number(),
        ),
{
    out.push(kind);
    out.push(action);
    out.push(direction);
    out.push(if flag {
        1
    } else {
        0
    });
    out.push(
        match af {
            None => 0,
            Some(f) => f.tag(),
        },
    );
    out.push(proto.number());
    out.push(0);
    out.push(0);
    proof {
        assert(final(out)@ =~= old(out)@ + header_bytes(
            kind,
            action,
            direction,
            flag_code(flag),
            family_code(af),
            proto.spec_number(),
        ));
    }
}

/// Appends a name and the zero bytes that pad it.
fn push_padded(out: &mut Vec<u8>, name: &Vec<u8>)
    requires
        name@.len() <= IFNAME_LEN,
    ensures
        final(out)@ == old(out)@ + padded_bytes(name@),
{
    let mut i: usize = 0;
    while i < name.len()
        invariant
            i <= name@.len(),
            out@ == old(out)@ + name@.take(i as int),
        decreases name@.len() - i,
    {
        out.push(name[i]);
        i = i + 1;
        proof {
            assert(out@ =~= old(out)@ + name@.take(i as int));
        }
    }
    proof {
        assert(name@.take(name@.len() as int) =~= name@);
    }
    let mut k: usize = name.len();
    while k < IFNAME_LEN
        invariant
            name@.len() <= k <= IFNAME_LEN,
            out@ == old(out)@ + name@ + zeros((k - name@.len()) as nat),
        decreases IFNAME_LEN - k,
    {
        out.push(0);
        k = k + 1;
        proof {
            assert(out@ =~= old(out)@ + name@ + zeros((k - name@.len()) as nat));
        }
    }
    proof {
        assert(final(out)@ =~= old(out)@ + padded_bytes(name@));
    }
}

/// Appends the zero bytes that stand for the translation target of a
/// filter rule.
fn push_no_target(out: &mut Vec<u8>)
    ensures
        final(out)@ == old(out)@ + zeros(RULE_ENDPOINT_LEN as nat),
{
    let mut i: usize = 0;
    while i < RULE_ENDPOINT_LEN
        invariant
            i <= RULE_ENDPOINT_LEN,
            out@ == old(out)@ + zeros(i as nat),
        decreases RULE_ENDPOINT_LEN - i,
    {
        out.push(0);
        i = i + 1;
        proof {
            assert(out@ =~= old(out)@ + zeros(i as nat));
        }
    }
}

/// The byte of a direction in a record.
fn direction_byte(d: Direction) -> (c: u8)
    ensures
        c == direction_code(d),
{
    match d {
        Direction::Unknown => 0,
        Direction::In => 1,
        Direction::Out => 2,
    }
}

/// Encodes a filter rule as its record. A rule that is not valid is
/// refused as malformed.
pub fn encode_rule(rule: &Rule) -> (r: Result<Vec<u8>, PfError>)
    ensures
        rule@.valid() ==> r.is_ok() && r.unwrap()@ == rule@.bytes() && r.unwrap()@.len()
            == RULE_LEN,
        !rule@.valid() ==> r == Err::<Vec<u8>, PfError>(PfError::MalformedRecord),
{
    let name = match encode_name(&rule.interface) {
        Some(bytes) => bytes,
        None => {
            return Err(PfError::MalformedRecord);
        },
    };
    if !rule.from.is_valid(rule.af, rule.proto) || !rule.to.is_valid(rule.af, rule.proto) {
        return Err(PfError::MalformedRecord);
    }
    let mut out: Vec<u8> = Vec::new();
    push_header(
        &mut out,
        RULE_KIND_FILTER,
        rule.action.code(),
        direction_byte(rule.direction),
        rule.quick,
        rule.af,
        rule.proto,
    );
    push_padded(&mut out, &name);
    rule.from.push_bytes(&mut out);
    rule.to.push_bytes(&mut out);
    push_no_target(&mut out);
    proof {
        assert(out@ =~= rule@.bytes());
        lemma_rule_len(rule@);
    }
    Ok(out)
}

/// Encodes a translation rule as its record. A rule that is not valid is
/// refused as malformed.
pub fn encode_nat_rule(rule: &NatRule) -> (r: Result<Vec<u8>, PfError>)
    ensures
        rule@.valid() ==> r.is_ok() && r.unwrap()@ == rule@.bytes() && r.unwrap()@.len()
            == RULE_LEN,
        !rule@.valid() ==> r == Err::<Vec<u8>, PfError>(PfError::MalformedRecord),
{
    let name = match encode_name(&rule.interface) {
        Some(bytes) => bytes,
        None => {
            return Err(PfError::MalformedRecord);
        },
    };
    let target_named = match rule.action {
        NatRuleAction::Nat => rule.nat_to.ip != Ip::Any,
        NatRuleAction::NoNat => true,
    };
    if !rule.from.is_valid(rule.af, rule.proto) || !rule.to.is_valid(rule.af, rule.proto)
        || !rule.nat_to.is_valid(rule.af, rule.proto) || !target_named {
        return Err(PfError::MalformedRecord);
    }
    let mut out: Vec<u8> = Vec::new();
    push_header(
        &mut out,
        RULE_KIND_NAT,
        rule.action.code(),
        0,
        rule.pass,
        rule.af,
        rule.proto,
    );
    push_padded(&mut out, &name);
    rule.from.push_bytes(&mut out);
    rule.to.push_bytes(&mut out);
    rule.nat_to.push_bytes(&mut out);
    proof {
        assert(out@ =~= rule@.bytes());
        lemma_nat_rule_len(rule@);
    }
    Ok(out)
}

impl Rule {
    /// Whether the rule can be encoded.
    pub fn is_valid(&self) -> (b: bool)
        ensures
            b == self@.valid(),
    {
        encode_name(&self.interface).is_some() && self.from.is_valid(self.af, self.proto)
            && self.to.is_valid(self.af, self.proto)
    }
}

impl NatRule {
    /// Whether the rule can be encoded.
    pub fn is_valid(&self) -> (b: bool)
        ensures
            b == self@.valid(),
    {
        let target_named = match self.action {
            NatRuleAction::Nat => self.nat_to.ip != Ip::Any,
            NatRuleAction::NoNat => true,
        };
        encode_name(&self.interface).is_some() && self.from.is_valid(self.af, self.proto)
            && self.to.is_valid(self.af, self.proto) && self.nat_to.is_valid(self.af, self.proto)
            && target_named
    }
}

/// The filter rule that a builder starts from: it passes every packet, in
/// either direction, on any interface.
pub open spec fn default_rule() -> RuleView {
    RuleView {
        action: FilterAction::Pass,
        direction: Direction::Unknown,
        quick: false,
        af: None,
        proto: Proto::Any,
        interface: Seq::empty(),
        from: RuleEndpoint::spec_any(),
        to: RuleEndpoint::spec_any(),
    }
}

/// The translation rule that a builder starts from: it matches every
/// packet on any interface and has no translation target yet.
pub open spec fn default_nat_rule() -> NatRuleView {
    NatRuleView {
        action: NatRuleAction::Nat,
        af: None,
        proto: Proto::Any,
        interface: Seq::empty(),
        from: RuleEndpoint::spec_any(),
        to: RuleEndpoint::spec_any(),
        nat_to: RuleEndpoint::spec_any(),
        pass: false,
    }
}

/// Builds a filter rule field by field.
#[derive(Clone, Debug)]
pub struct RuleBuilder {
    pub rule: Rule,
}

/// Builds a translation rule field by field.
#[derive(Clone, Debug)]
pub struct NatRuleBuilder {
    pub rule: NatRule,
}

impl View for RuleBuilder {
    type V = RuleView;

    open spec fn view(&self) -> RuleView {
        self.rule@
    }
}

impl View for NatRuleBuilder {
    type V = NatRuleView;

    open spec fn view(&self) -> NatRuleView {
        self.rule@
    }
}

impl Default for RuleBuilder {
    /// A builder that starts from the rule that matches everything.
    fn default() -> (b: RuleBuilder)
        ensures
            b@ == default_rule(),
    {
        RuleBuilder {
            rule: Rule {
                action: FilterAction::Pass,
                direction: Direction::Unknown,
                quick: false,
                af: None,
                proto: Proto::Any,
                interface: String::new(),
                from: RuleEndpoint::any(),
                to: RuleEndpoint::any(),
            },
        }
    }
}

impl Default for NatRuleBuilder {
    /// A builder that starts from the rule that matches everything.
    fn default() -> (b: NatRuleBuilder)
        ensures
            b@ == default_nat_rule(),
    {
        NatRuleBuilder {
            rule: NatRule {
                action: NatRuleAction::Nat,
                af: None,
                proto: Proto::Any,
                interface: String::new(),
                from: RuleEndpoint::any(),
                to: RuleEndpoint::any(),
                nat_to: RuleEndpoint::any(),
                pass: false,
            },
        }
    }
}

impl RuleBuilder {
    /// Sets what the rule does with a packet that it matches.
    pub fn action(self, action: FilterAction) -> (b: RuleBuilder)
        ensures
            b@ == (RuleView { action, ..self@ }),
    {
        let mut b = self;
        b.rule.action = action;
        b
    }

    /// Sets the direction that the rule matches.
    pub fn direction(self, direction: Direction) -> (b: RuleBuilder)
        ensures
            b@ == (RuleView { direction, ..self@ }),
    {
        let mut b = self;
        b.rule.direction = direction;
        b
    }

    /// Sets whether a match ends the evaluation of the ruleset.
    pub fn quick(self, quick: bool) -> (b: RuleBuilder)
        ensures
            b@ == (RuleView { quick, ..self@ }),
    {
        let mut b = self;
        b.rule.quick = quick;
        b
    }

    /// Sets the address family.
    pub fn af(self, af: AddrFamily) -> (b: RuleBuilder)
        ensures
            b@ == (RuleView { af: Some(af), ..self@ }),
    {
        let mut b = self;
        b.rule.af = Some(af);
        b
    }

    /// Sets the protocol.
    pub fn proto(self, proto: Proto) -> (b: RuleBuilder)
        ensures
            b@ == (RuleView { proto, ..self@ }),
    {
        let mut b = self;
        b.rule.proto = proto;
        b
    }

    /// Binds the rule to an interface.
    pub fn interface(self, name: &str) -> (b: RuleBuilder)
        ensures
            b@ == (RuleView { interface: name@, ..self@ }),
    {
        let mut b = self;
        b.rule.interface = String::from_str(name);
        b
    }

    /// Sets the source that the rule matches.
    pub fn from(self, from: RuleEndpoint) -> (b: RuleBuilder)
        ensures
            b@ == (RuleView { from, ..self@ }),
    {
        let mut b = self;
        b.rule.from = from;
        b
    }

    /// Sets the destination that the rule matches.
    pub fn to(self, to: RuleEndpoint) -> (b: RuleBuilder)
        ensures
            b@ == (RuleView { to, ..self@ }),
    {
        let mut b = self;
        b.rule.to = to;
        b
    }

    /// The rule, if it is valid; else it is refused as malformed.
    pub fn build(self) -> (r: Result<Rule, PfError>)
        ensures
            self@.valid() ==> r.is_ok() && r.unwrap()@ == self@,
            !self@.valid() ==> r == Err::<Rule, PfError>(PfError::MalformedRecord),
    {
        if self.rule.is_valid() {
            Ok(self.rule)
        } else {
            Err(PfError::MalformedRecord)
        }
    }
}

impl NatRuleBuilder {
    /// Sets what the rule does with a packet that it matches.
    pub fn action(self, action: NatRuleAction) -> (b: NatRuleBuilder)
        ensures
            b@ == (NatRuleView { action, ..self@ }),
    {
        let mut b = self;
        b.rule.action = action;
        b
    }

    /// Sets the address family.
    pub fn af(self, af: AddrFamily) -> (b: NatRuleBuilder)
        ensures
            b@ == (NatRuleView { af: Some(af), ..self@ }),
    {
        let mut b = self;
        b.rule.af = Some(af);
        b
    }

    /// Sets the protocol.
    pub fn proto(self, proto: Proto) -> (b: NatRuleBuilder)
        ensures
            b@ == (NatRuleView { proto, ..self@ }),
    {
        let mut b = self;
        b.rule.proto = proto;
        b
    }

    /// Binds the rule to an interface.
    pub fn interface(self, name: &str) -> (b: NatRuleBuilder)
        ensures
            b@ == (NatRuleView { interface: name@, ..self@ }),
    {
        let mut b = self;
        b.rule.interface = String::from_str(name);
        b
    }

    /// Sets the source that the rule matches.
    pub fn from(self, from: RuleEndpoint) -> (b: NatRuleBuilder)
        ensures
            b@ == (NatRuleView { from, ..self@ }),
    {
        let mut b = self;
        b.rule.from = from;
        b
    }

    /// Sets the destination that the rule matches.
    pub fn to(self, to: RuleEndpoint) -> (b: NatRuleBuilder)
        ensures
            b@ == (NatRuleView { to, ..self@ }),
    {
        let mut b = self;
        b.rule.to = to;
        b
    }

    /// Sets what replaces the source.
    pub fn nat_to(self, nat_to: RuleEndpoint) -> (b: NatRuleBuilder)
        ensures
            b@ == (NatRuleView { nat_to, ..self@ }),
    {
        let mut b = self;
        b.rule.nat_to = nat_to;
        b
    }

    /// Sets whether translated packets pass without being filtered.
    pub fn pass(self, pass: bool) -> (b: NatRuleBuilder)
        ensures
            b@ == (NatRuleView { pass, ..self@ }),
    {
        let mut b = self;
        b.rule.pass = pass;
        b
    }

    /// The rule, if it is valid; else it is refused as malformed.
    pub fn build(self) -> (r: Result<NatRule, PfError>)
        ensures
            self@.valid() ==> r.is_ok() && r.unwrap()@ == self@,
            !self@.valid() ==> r == Err::<NatRule, PfError>(PfError::MalformedRecord),
    {
        if self.rule.is_valid() {
            Ok(self.rule)
        } else {
            Err(PfError::MalformedRecord)
        }
    }
}

} // verus!
