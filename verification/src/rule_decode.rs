//! Reading a rule back from its record.
//!
//! Decoding is the inverse of encoding: every valid rule comes back from
//! its record as it went in. A record decodes only to a valid rule; the
//! zero bytes that a record reserves, and the fields that a variant does
//! not use, are not looked at.

use crate::addr::{
    decode_address, lemma_address_decode_encode, spec_decode_address, zeros, AddrFamily, Address,
    AF_INET, AF_INET6,
};
use crate::error::PfError;
use crate::rule::{
    name_bytes, name_valid, padded_bytes, FilterAction, Ip, NatRule, NatRuleAction, NatRuleView,
    Port, Proto, Rule, RuleEndpoint, RuleView, RULE_ENDPOINT_LEN, RULE_KIND_FILTER, RULE_KIND_NAT,
    RULE_LEN,
};
use crate::state::{Direction, IFNAME_LEN};
use crate::text::{byte_chars, decode_name, lemma_trim_padding, padded_name, trim_padding};
use crate::wire::{
    be_bytes, be_field, field, lemma_be_bytes_len, lemma_be_value_of_bytes, lemma_radix_pow_values,
    u16_at,
};
use vstd::prelude::*;
use vstd::slice::*;

verus! {

/// Offset of the interface name in a record.
pub const RULE_OFF_IFNAME: usize = 8;

/// Offset of the source in a record.
pub const RULE_OFF_FROM: usize = 24;

/// Offset of the destination in a record.
pub const RULE_OFF_TO: usize = 48;

/// Offset of the translation target in a record.
pub const RULE_OFF_TARGET: usize = 72;

/// A rule of either kind, as a record holds one.
#[derive(Clone, Debug, PartialEq, Eq)]
pub enum AnyRule {
    Filter(Rule),
    Nat(NatRule),
}

/// What a rule of either kind holds, as a mathematical value.
pub enum AnyRuleView {
    Filter(RuleView),
    Nat(NatRuleView),
}

impl View for AnyRule {
    type V = AnyRuleView;

    open spec fn view(&self) -> AnyRuleView {
        match self {
            AnyRule::Filter(rule) => AnyRuleView::Filter(rule@),
            AnyRule::Nat(rule) => AnyRuleView::Nat(rule@),
        }
    }
}

impl AnyRuleView {
    /// Whether the rule can be encoded.
    pub open spec fn valid(self) -> bool {
        match self {
            AnyRuleView::Filter(rule) => rule.valid(),
            AnyRuleView::Nat(rule) => rule.valid(),
        }
    }

    /// The record of the rule.
    pub open spec fn bytes(self) -> Seq<u8> {
        match self {
            AnyRuleView::Filter(rule) => rule.bytes(),
            AnyRuleView::Nat(rule) => rule.bytes(),
        }
    }
}

/// The action of a filter rule with this byte.
pub open spec fn filter_action_of(code: u8) -> Option<FilterAction> {
    if code == 0 {
        Some(FilterAction::Pass)
    } else if code == 1 {
        Some(FilterAction::Drop)
    } else {
        None
    }
}

/// The action of a translation rule with this byte.
pub open spec fn nat_action_of(code: u8) -> Option<NatRuleAction> {
    if code == 0 {
        Some(NatRuleAction::Nat)
    } else if code == 1 {
        Some(NatRuleAction::NoNat)
    } else {
        None
    }
}

/// The direction of a rule with this byte.
pub open spec fn rule_direction_of(code: u8) -> Option<Direction> {
    if code == 0 {
        Some(Direction::Unknown)
    } else if code == 1 {
        Some(Direction::In)
    } else if code == 2 {
        Some(Direction::Out)
    } else {
        None
    }
}

/// The flag with this byte.
pub open spec fn flag_of(code: u8) -> Option<bool> {
    if code == 0 {
        Some(false)
    } else if code == 1 {
        Some(true)
    } else {
        None
    }
}

/// The family of a rule with this tag; zero stands for any family.
pub open spec fn family_of(code: u8) -> Option<Option<AddrFamily>> {
    if code == 0 {
        Some(None)
    } else if code == AF_INET {
        Some(Some(AddrFamily::Ipv4))
    } else if code == AF_INET6 {
        Some(Some(AddrFamily::Ipv6))
    } else {
        None
    }
}

/// The protocol of a rule with this number; zero stands for any protocol.
pub open spec fn proto_of(code: u8) -> Option<Proto> {
    if code == 0 {
        Some(Proto::Any)
    } else if code == 1 {
        Some(Proto::Icmp)
    } else if code == 6 {
        Some(Proto::Tcp)
    } else if code == 17 {
        Some(Proto::Udp)
    } else if code == 58 {
        Some(Proto::IcmpV6)
    } else {
        None
    }
}

/// The interface name in a name buffer, if the buffer holds a valid one.
pub open spec fn spec_decode_rule_name(window: Seq<u8>) -> Option<Seq<char>> {
    if name_valid(padded_name(window)) {
        Some(padded_name(window))
    } else {
        None
    }
}

/// The addresses in the eighteen bytes `window`, read under the family of
/// the rule.
pub open spec fn spec_decode_ip(window: Seq<u8>, af: Option<AddrFamily>) -> Option<Ip> {
    if window[17] == 1 {
        Some(Ip::Any)
    } else if window[17] == 0 {
        match af {
            None => None,
            Some(family) => match spec_decode_address(field(window, 0, 16), family.spec_tag()) {
                Ok(addr) => Some(Ip::Net { addr, prefix: window[16] }),
                Err(_) => None,
            },
        }
    } else {
        None
    }
}

/// The ports in the six bytes `window`.
pub open spec fn spec_decode_port(window: Seq<u8>) -> Option<Port> {
    if window[0] == 0 {
        Some(Port::Any)
    } else if window[0] == 1 {
        Some(Port::One(be_field(window, 2, 2) as u16))
    } else if window[0] == 2 {
        Some(Port::Range(be_field(window, 2, 2) as u16, be_field(window, 4, 2) as u16))
    } else {
        None
    }
}

/// The endpoint in the twenty-four bytes `window`.
pub open spec fn spec_decode_rule_endpoint(window: Seq<u8>, af: Option<AddrFamily>) -> Option<
    RuleEndpoint,
> {
    match (spec_decode_ip(field(window, 0, 18), af), spec_decode_port(field(window, 18, 6))) {
        (Some(ip), Some(port)) => Some(RuleEndpoint { ip, port }),
        _ => None,
    }
}

/// The rule whose fields a whole record holds, valid or not; nothing where
/// a byte of the record names no variant.
pub open spec fn spec_rule_fields(bytes: Seq<u8>) -> Option<AnyRuleView> {
    match (
        family_of(bytes[4]),
        proto_of(bytes[5]),
        flag_of(bytes[3]),
        spec_decode_rule_name(field(bytes, RULE_OFF_IFNAME as int, IFNAME_LEN as int)),
    ) {
        (Some(af), Some(proto), Some(flag), Some(interface)) => match (
            spec_decode_rule_endpoint(
                field(bytes, RULE_OFF_FROM as int, RULE_ENDPOINT_LEN as int),
                af,
            ),
            spec_decode_rule_endpoint(field(bytes, RULE_OFF_TO as int, RULE_ENDPOINT_LEN as int), af),
        ) {
            (Some(from), Some(to)) => if bytes[0] == RULE_KIND_FILTER {
                match (filter_action_of(bytes[1]), rule_direction_of(bytes[2])) {
                    (Some(action), Some(direction)) => Some(
                        AnyRuleView::Filter(
                            RuleView {
                                action,
                                direction,
                                quick: flag,
                                af,
                                proto,
                                interface,
                                from,
                                to,
                            },
                        ),
                    ),
                    _ => None,
                }
            } else if bytes[0] == RULE_KIND_NAT {
                match (
                    nat_action_of(bytes[1]),
                    spec_decode_rule_endpoint(
                        field(bytes, RULE_OFF_TARGET as int, RULE_ENDPOINT_LEN as int),
                        af,
                    ),
                ) {
                    (Some(action), Some(nat_to)) => Some(
                        AnyRuleView::Nat(
                            NatRuleView {
                                action,
                                af,
                                proto,
                                interface,
                                from,
                                to,
                                nat_to,
                                pass: flag,
                            },
                        ),
                    ),
                    _ => None,
                }
            } else {
                None
            },
            _ => None,
        },
        _ => None,
    }
}

/// The rule that the first `RULE_LEN` bytes of `bytes` hold: truncated
/// where fewer bytes are there, malformed where a byte names no variant or
/// the rule that the fields make is not valid.
pub open spec fn spec_decode_rule(bytes: Seq<u8>) -> Result<AnyRuleView, PfError> {
    if bytes.len() < RULE_LEN {
        Err(PfError::TruncatedBuffer)
    } else {
        match spec_rule_fields(bytes) {
            Some(rule) => if rule.valid() {
                Ok(rule)
            } else {
                Err(PfError::MalformedRecord)
            },
            None => Err(PfError::MalformedRecord),
        }
    }
}

/// Decodes the interface name in a name buffer.
fn decode_rule_name(window: &[u8]) -> (r: Option<String>)
    ensures
        match r {
            Some(name) => spec_decode_rule_name(window@) == Some(name@),
            None => spec_decode_rule_name(window@).is_none(),
        },
{
    let name = decode_name(window);
    let ghost kept = trim_padding(window@);
    proof {
        lemma_trim_padding(window@);
    }
    let mut end: usize = window.len();
    while end > 0 && window[end - 1] == 0
        invariant
            kept.len() <= end <= window@.len(),
            kept == trim_padding(window@),
            kept == window@.take(kept.len() as int),
            kept.len() > 0 ==> kept.last() != 0,
        decreases end,
    {
        proof {
            if end == kept.len() {
                assert(kept.last() == window@[end - 1]);
            }
        }
        end = end - 1;
    }
    proof {
        if end > kept.len() {
            assert(window@[end - 1] == 0);
        }
        assert(end == kept.len());
    }
    if end >= IFNAME_LEN {
        return None;
    }
    let mut i: usize = 0;
    while i < end
        invariant
            i <= end,
            end == kept.len(),
            end <= window@.len(),
            kept == trim_padding(window@),
            kept == window@.take(kept.len() as int),
            name@ == byte_chars(kept),
            forall|k: int| 0 <= k < i ==> '\0' < #[trigger] name@[k] <= '\u{7f}',
        decreases end - i,
    {
        let b: u8 = window[i];
        proof {
            assert(kept[i as int] == b);
            assert(name@[i as int] == b as char);
        }
        if b == 0 || b > 0x7f {
            proof {
                assert(!('\0' < name@[i as int] <= '\u{7f}'));
                assert(padded_name(window@) == name@);
            }
            return None;
        }
        i = i + 1;
    }
    Some(name)
}

/// Decodes the ports of an endpoint.
fn decode_port(window: &[u8]) -> (r: Option<Port>)
    requires
        window@.len() == 6,
    ensures
        r == spec_decode_port(window@),
{
    let op: u8 = window[0];
    if op == 0 {
        Some(Port::Any)
    } else if op == 1 {
        Some(Port::One(u16_at(window, 2)))
    } else if op == 2 {
        Some(Port::Range(u16_at(window, 2), u16_at(window, 4)))
    } else {
        None
    }
}

/// Decodes the addresses of an endpoint under the family of the rule.
fn decode_ip(window: &[u8], af: Option<AddrFamily>) -> (r: Option<Ip>)
    requires
        window@.len() == 18,
    ensures
        r == spec_decode_ip(window@, af),
{
    let any: u8 = window[17];
    if any == 1 {
        Some(Ip::Any)
    } else if any == 0 {
        match af {
            None => None,
            Some(family) => match decode_address(slice_subrange(window, 0, 16), family.tag()) {
                Ok(addr) => Some(Ip::Net { addr, prefix: window[16] }),
                Err(_) => None,
            },
        }
    } else {
        None
    }
}

/// Decodes the endpoint at `offset` of a whole record.
fn decode_rule_endpoint(bytes: &[u8], offset: usize, af: Option<AddrFamily>) -> (r: Option<
    RuleEndpoint,
>)
    requires
        offset + RULE_ENDPOINT_LEN <= bytes@.len(),
    ensures
        r == spec_decode_rule_endpoint(
            field(bytes@, offset as int, RULE_ENDPOINT_LEN as int),
            af,
        ),
{
    let end: usize = bytes.len();
    assert(offset + RULE_ENDPOINT_LEN <= end);
    let ghost window = field(bytes@, offset as int, RULE_ENDPOINT_LEN as int);
    let ip_window = slice_subrange(bytes, offset, offset + 18);
    let port_window = slice_subrange(bytes, offset + 18, offset + 24);
    proof {
        assert(ip_window@ =~= field(window, 0, 18));
        assert(port_window@ =~= field(window, 18, 6));
    }
    match (decode_ip(ip_window, af), decode_port(port_window)) {
        (Some(ip), Some(port)) => Some(RuleEndpoint { ip, port }),
        _ => None,
    }
}

/// Decodes a rule from the start of `bytes`.
///
/// Fails with `TruncatedBuffer` where fewer than `RULE_LEN` bytes are
/// there, and with `MalformedRecord` where a byte names no variant or the
/// rule that the fields make is not valid.
pub fn decode_rule(bytes: &[u8]) -> (r: Result<AnyRule, PfError>)
    ensures
        match r {
            Ok(rule) => spec_decode_rule(bytes@) == Ok::<AnyRuleView, PfError>(rule@),
            Err(e) => spec_decode_rule(bytes@) == Err::<AnyRuleView, PfError>(e),
        },
{
    if bytes.len() < RULE_LEN {
        return Err(PfError::TruncatedBuffer);
    }
    let af: Option<AddrFamily> = match bytes[4] {
        0 => None,
        2 => Some(AddrFamily::Ipv4),
        30 => Some(AddrFamily::Ipv6),
        _ => {
            return Err(PfError::MalformedRecord);
        },
    };
    let proto = match bytes[5] {
        0 => Proto::Any,
        1 => Proto::Icmp,
        6 => Proto::Tcp,
        17 => Proto::Udp,
        58 => Proto::IcmpV6,
        _ => {
            return Err(PfError::MalformedRecord);
        },
    };
    let flag = match bytes[3] {
        0 => false,
        1 => true,
        _ => {
            return Err(PfError::MalformedRecord);
        },
    };
    let interface = match decode_rule_name(
        slice_subrange(bytes, RULE_OFF_IFNAME, RULE_OFF_IFNAME + IFNAME_LEN),
    ) {
        Some(name) => name,
        None => {
            return Err(PfError::MalformedRecord);
        },
    };
    let from = match decode_rule_endpoint(bytes, RULE_OFF_FROM, af) {
        Some(e) => e,
        None => {
            return Err(PfError::MalformedRecord);
        },
    };
    let to = match decode_rule_endpoint(bytes, RULE_OFF_TO, af) {
        Some(e) => e,
        None => {
            return Err(PfError::MalformedRecord);
        },
    };
    let kind: u8 = bytes[0];
    if kind == RULE_KIND_FILTER {
        let action = match bytes[1] {
            0 => FilterAction::Pass,
            1 => FilterAction::Drop,
            _ => {
                return Err(PfError::MalformedRecord);
            },
        };
        let direction = match bytes[2] {
            0 => Direction::Unknown,
            1 => Direction::In,
            2 => Direction::Out,
            _ => {
                return Err(PfError::MalformedRecord);
            },
        };
        let rule = Rule { action, direction, quick: flag, af, proto, interface, from, to };
        if rule.is_valid() {
            Ok(AnyRule::Filter(rule))
        } else {
            Err(PfError::MalformedRecord)
        }
    } else if kind == RULE_KIND_NAT {
        let action = match bytes[1] {
            0 => NatRuleAction::Nat,
            1 => NatRuleAction::NoNat,
            _ => {
                return Err(PfError::MalformedRecord);
            },
        };
        let nat_to = match decode_rule_endpoint(bytes, RULE_OFF_TARGET, af) {
            Some(e) => e,
            None => {
                return Err(PfError::MalformedRecord);
            },
        };
        let rule = NatRule { action, af, proto, interface, from, to, nat_to, pass: flag };
        if rule.is_valid() {
            Ok(AnyRule::Nat(rule))
        } else {
            Err(PfError::MalformedRecord)
        }
    } else {
        Err(PfError::MalformedRecord)
    }
}

/// A record decodes to valid rules only.
pub proof fn lemma_decoded_rule_is_valid(bytes: Seq<u8>)
    ensures
        spec_decode_rule(bytes).is_ok() ==> spec_decode_rule(bytes).unwrap().valid(),
{
}

/// Trimming a padded name gives the name back, where the name does not
/// itself end in a zero byte.
pub proof fn lemma_trim_of_padding(name: Seq<u8>, k: nat)
    requires
        name.len() == 0 || name.last() != 0,
    ensures
        trim_padding(name + zeros(k)) == name,
    decreases k,
{
    let padded = name + zeros(k);
    if k > 0 {
        assert(padded.last() == 0);
        assert(padded.drop_last() =~= name + zeros((k - 1) as nat));
        lemma_trim_of_padding(name, (k - 1) as nat);
    } else {
        assert(padded =~= name);
    }
}

/// A valid interface name comes back from its buffer.
pub proof fn lemma_name_round_trip(name: Seq<char>)
    requires
        name_valid(name),
    ensures
        padded_bytes(name_bytes(name)).len() == IFNAME_LEN,
        spec_decode_rule_name(padded_bytes(name_bytes(name))) == Some(name),
{
    let raw = name_bytes(name);
    if raw.len() > 0 {
        assert('\0' < name[name.len() - 1] <= '\u{7f}');
        assert(raw.last() != 0);
    }
    lemma_trim_of_padding(raw, (IFNAME_LEN - raw.len()) as nat);
    assert forall|i: int| 0 <= i < name.len() implies byte_chars(raw)[i] == name[i] by {
        assert('\0' < name[i] <= '\u{7f}');
    }
    assert(byte_chars(raw) =~= name);
}

/// Ports come back from their bytes.
pub proof fn lemma_port_round_trip(port: Port)
    ensures
        port.spec_bytes().len() == 6,
        spec_decode_port(port.spec_bytes()) == Some(port),
{
    lemma_radix_pow_values();
    let bytes = port.spec_bytes();
    match port {
        Port::Any => {
            lemma_be_bytes_len(0, 2);
        },
        Port::One(p) => {
            lemma_be_value_of_bytes(p as nat, 2);
            assert(field(bytes, 2, 2) =~= be_bytes(p as nat, 2));
        },
        Port::Range(lo, hi) => {
            lemma_be_value_of_bytes(lo as nat, 2);
            lemma_be_value_of_bytes(hi as nat, 2);
            assert(field(bytes, 2, 2) =~= be_bytes(lo as nat, 2));
            assert(field(bytes, 4, 2) =~= be_bytes(hi as nat, 2));
        },
    }
}

/// Addresses that a rule of family `af` may hold come back from their
/// bytes under that family.
pub proof fn lemma_ip_round_trip(ip: Ip, af: Option<AddrFamily>)
    requires
        ip.valid(af),
    ensures
        ip.spec_bytes().len() == 18,
        spec_decode_ip(ip.spec_bytes(), af) == Some(ip),
{
    let bytes = ip.spec_bytes();
    match ip {
        Ip::Any => {},
        Ip::Net { addr, prefix } => {
            lemma_address_decode_encode(addr);
            match addr {
                Address::V4(a) => {
                    lemma_be_bytes_len(a as nat, 4);
                },
                Address::V6(a) => {
                    lemma_be_bytes_len(a as nat, 16);
                },
            }
            assert(field(bytes, 0, 16) =~= addr.spec_bytes());
        },
    }
}

/// An endpoint that a rule of family `af` may hold comes back from its
/// bytes under that family.
pub proof fn lemma_endpoint_round_trip(e: RuleEndpoint, af: Option<AddrFamily>)
    requires
        e.ip.valid(af),
    ensures
        e.spec_bytes().len() == RULE_ENDPOINT_LEN,
        spec_decode_rule_endpoint(e.spec_bytes(), af) == Some(e),
{
    lemma_ip_round_trip(e.ip, af);
    lemma_port_round_trip(e.port);
    assert(field(e.spec_bytes(), 0, 18) =~= e.ip.spec_bytes());
    assert(field(e.spec_bytes(), 18, 6) =~= e.port.spec_bytes());
}

/// Every valid filter rule comes back from its record as it went in.
pub proof fn lemma_rule_round_trip(rule: RuleView)
    requires
        rule.valid(),
    ensures
        spec_decode_rule(rule.bytes()) == Ok::<AnyRuleView, PfError>(AnyRuleView::Filter(rule)),
{
    let bytes = rule.bytes();
    let name = padded_bytes(name_bytes(rule.interface));
    lemma_name_round_trip(rule.interface);
    lemma_endpoint_round_trip(rule.from, rule.af);
    lemma_endpoint_round_trip(rule.to, rule.af);
    assert(field(bytes, RULE_OFF_IFNAME as int, IFNAME_LEN as int) =~= name);
    assert(field(bytes, RULE_OFF_FROM as int, RULE_ENDPOINT_LEN as int) =~= rule.from.spec_bytes());
    assert(field(bytes, RULE_OFF_TO as int, RULE_ENDPOINT_LEN as int) =~= rule.to.spec_bytes());
    let fields = spec_rule_fields(bytes);
    assert(fields is Some);
    assert(fields.unwrap() is Filter);
    assert(fields.unwrap()->Filter_0.interface =~= rule.interface);
}

/// Every valid translation rule comes back from its record as it went in.
pub proof fn lemma_nat_rule_round_trip(rule: NatRuleView)
    requires
        rule.valid(),
    ensures
        spec_decode_rule(rule.bytes()) == Ok::<AnyRuleView, PfError>(AnyRuleView::Nat(rule)),
{
    let bytes = rule.bytes();
    let name = padded_bytes(name_bytes(rule.interface));
    lemma_name_round_trip(rule.interface);
    lemma_endpoint_round_trip(rule.from, rule.af);
    lemma_endpoint_round_trip(rule.to, rule.af);
    lemma_endpoint_round_trip(rule.nat_to, rule.af);
    assert(field(bytes, RULE_OFF_IFNAME as int, IFNAME_LEN as int) =~= name);
    assert(field(bytes, RULE_OFF_FROM as int, RULE_ENDPOINT_LEN as int) =~= rule.from.spec_bytes());
    assert(field(bytes, RULE_OFF_TO as int, RULE_ENDPOINT_LEN as int) =~= rule.to.spec_bytes());
    assert(field(bytes, RULE_OFF_TARGET as int, RULE_ENDPOINT_LEN as int)
        =~= rule.nat_to.spec_bytes());
    let fields = spec_rule_fields(bytes);
    assert(fields is Some);
    assert(fields.unwrap() is Nat);
    assert(fields.unwrap()->Nat_0.interface =~= rule.interface);
}

} // verus!
