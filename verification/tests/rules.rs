use pfctl::addr::{AddrFamily, Address};
use pfctl::error::PfError;
use pfctl::rule::{
    encode_nat_rule, encode_rule, FilterAction, Ip, NatRule, NatRuleAction, NatRuleBuilder, Port,
    Proto, Rule, RuleBuilder, RuleEndpoint, RULE_LEN,
};
use pfctl::rule_decode::{decode_rule, AnyRule};
use pfctl::state::Direction;

fn tethering_rule() -> NatRule {
    NatRuleBuilder::default()
        .action(NatRuleAction::Nat)
        .af(AddrFamily::Ipv4)
        .interface("bridge100")
        .proto(Proto::Tcp)
        .from(RuleEndpoint::new(
            Ip::Net { addr: Address::V4(0xac14_0a00), prefix: 24 },
            Port::Any,
        ))
        .to(RuleEndpoint::new(Ip::Any, Port::Any))
        .nat_to(RuleEndpoint::new(Ip::host(Address::V4(0xc612_0001)), Port::Any))
        .pass(true)
        .build()
        .unwrap()
}

#[test]
fn builder_sets_every_field_of_a_nat_rule() {
    let rule = tethering_rule();
    assert_eq!(
        rule,
        NatRule {
            action: NatRuleAction::Nat,
            af: Some(AddrFamily::Ipv4),
            proto: Proto::Tcp,
            interface: String::from("bridge100"),
            from: RuleEndpoint {
                ip: Ip::Net { addr: Address::V4(0xac14_0a00), prefix: 24 },
                port: Port::Any,
            },
            to: RuleEndpoint { ip: Ip::Any, port: Port::Any },
            nat_to: RuleEndpoint {
                ip: Ip::Net { addr: Address::V4(0xc612_0001), prefix: 32 },
                port: Port::Any,
            },
            pass: true,
        }
    );
}

#[test]
fn nat_rule_encodes_to_its_record() {
    let bytes = encode_nat_rule(&tethering_rule()).unwrap();
    let mut expected = vec![2u8, 0, 0, 1, 2, 6, 0, 0];
    expected.extend_from_slice(b"bridge100\0\0\0\0\0\0\0");
    expected.extend_from_slice(&[172, 20, 10, 0]);
    expected.extend_from_slice(&[0; 12]);
    expected.extend_from_slice(&[24, 0, 0, 0, 0, 0, 0, 0]);
    expected.extend_from_slice(&[0; 16]);
    expected.extend_from_slice(&[0, 1, 0, 0, 0, 0, 0, 0]);
    expected.extend_from_slice(&[198, 18, 0, 1]);
    expected.extend_from_slice(&[0; 12]);
    expected.extend_from_slice(&[32, 0, 0, 0, 0, 0, 0, 0]);
    assert_eq!(expected.len(), RULE_LEN);
    assert_eq!(bytes, expected);
}

#[test]
fn filter_rule_encodes_to_its_record() {
    let rule = RuleBuilder::default()
        .action(FilterAction::Drop)
        .direction(Direction::In)
        .quick(true)
        .af(AddrFamily::Ipv6)
        .proto(Proto::Udp)
        .interface("en0")
        .from(RuleEndpoint::new(Ip::Any, Port::Range(1024, 65535)))
        .to(RuleEndpoint::new(Ip::host(Address::V6(1)), Port::One(53)))
        .build()
        .unwrap();
    let bytes = encode_rule(&rule).unwrap();
    let mut expected = vec![1u8, 1, 1, 1, 30, 17, 0, 0];
    expected.extend_from_slice(b"en0\0\0\0\0\0\0\0\0\0\0\0\0\0");
    expected.extend_from_slice(&[0; 16]);
    expected.extend_from_slice(&[0, 1, 2, 0, 0x04, 0x00, 0xff, 0xff]);
    expected.extend_from_slice(&[0, 0, 0, 0, 0, 0, 0, 0, 0, 0, 0, 0, 0, 0, 0, 1]);
    expected.extend_from_slice(&[128, 0, 1, 0, 0, 53, 0, 53]);
    expected.extend_from_slice(&[0; 24]);
    assert_eq!(expected.len(), RULE_LEN);
    assert_eq!(bytes, expected);
}

#[test]
fn default_rules_match_everything() {
    let rule = RuleBuilder::default().build().unwrap();
    assert_eq!(
        rule,
        Rule {
            action: FilterAction::Pass,
            direction: Direction::Unknown,
            quick: false,
            af: None,
            proto: Proto::Any,
            interface: String::new(),
            from: RuleEndpoint::any(),
            to: RuleEndpoint::any(),
        }
    );
    let bytes = encode_rule(&rule).unwrap();
    assert_eq!(bytes.len(), RULE_LEN);
    assert_eq!(&bytes[..8], &[1, 0, 0, 0, 0, 0, 0, 0]);
    assert_eq!(bytes[41], 1);
    assert_eq!(bytes[65], 1);
}

#[test]
fn translating_rule_needs_a_target() {
    assert_eq!(NatRuleBuilder::default().build(), Err(PfError::MalformedRecord));
    let exempt = NatRuleBuilder::default().action(NatRuleAction::NoNat).build().unwrap();
    let bytes = encode_nat_rule(&exempt).unwrap();
    assert_eq!(&bytes[..8], &[2, 1, 0, 0, 0, 0, 0, 0]);
}

#[test]
fn address_of_another_family_is_malformed() {
    let b = RuleBuilder::default()
        .af(AddrFamily::Ipv6)
        .from(RuleEndpoint::new(Ip::host(Address::V4(1)), Port::Any));
    assert_eq!(b.build(), Err(PfError::MalformedRecord));
    let no_family = RuleBuilder::default().to(RuleEndpoint::new(Ip::host(Address::V4(1)), Port::Any));
    assert_eq!(no_family.build(), Err(PfError::MalformedRecord));
}

#[test]
fn prefix_longer_than_the_address_is_malformed() {
    let ok = RuleBuilder::default()
        .af(AddrFamily::Ipv4)
        .from(RuleEndpoint::new(Ip::Net { addr: Address::V4(0), prefix: 32 }, Port::Any));
    assert!(ok.build().is_ok());
    let bad = RuleBuilder::default()
        .af(AddrFamily::Ipv4)
        .from(RuleEndpoint::new(Ip::Net { addr: Address::V4(0), prefix: 33 }, Port::Any));
    assert_eq!(bad.build(), Err(PfError::MalformedRecord));
    let bad6 = RuleBuilder::default()
        .af(AddrFamily::Ipv6)
        .from(RuleEndpoint::new(Ip::Net { addr: Address::V6(0), prefix: 129 }, Port::Any));
    assert_eq!(bad6.build(), Err(PfError::MalformedRecord));
}

#[test]
fn ports_need_a_protocol_that_has_them() {
    let bad = RuleBuilder::default().to(RuleEndpoint::new(Ip::Any, Port::One(80)));
    assert_eq!(bad.build(), Err(PfError::MalformedRecord));
    let icmp = RuleBuilder::default()
        .proto(Proto::Icmp)
        .to(RuleEndpoint::new(Ip::Any, Port::One(80)));
    assert_eq!(icmp.build(), Err(PfError::MalformedRecord));
    let ok = RuleBuilder::default().proto(Proto::Tcp).to(RuleEndpoint::new(Ip::Any, Port::One(80)));
    assert!(ok.build().is_ok());
}

#[test]
fn backward_port_range_is_malformed() {
    let bad = RuleBuilder::default()
        .proto(Proto::Udp)
        .from(RuleEndpoint::new(Ip::Any, Port::Range(10, 9)));
    assert_eq!(bad.build(), Err(PfError::MalformedRecord));
    let ok = RuleBuilder::default()
        .proto(Proto::Udp)
        .from(RuleEndpoint::new(Ip::Any, Port::Range(9, 9)));
    assert!(ok.build().is_ok());
}

#[test]
fn interface_name_must_leave_room_for_padding() {
    let ok = RuleBuilder::default().interface("123456789012345");
    assert!(ok.build().is_ok());
    let bad = RuleBuilder::default().interface("1234567890123456");
    assert_eq!(bad.build(), Err(PfError::MalformedRecord));
}

#[test]
fn encoding_refuses_what_the_builder_refuses() {
    let mut rule = tethering_rule();
    rule.af = Some(AddrFamily::Ipv6);
    assert!(!rule.is_valid());
    assert_eq!(encode_nat_rule(&rule), Err(PfError::MalformedRecord));
    let mut rule = RuleBuilder::default().build().unwrap();
    rule.interface = String::from("an-interface-name-that-is-too-long");
    assert!(!rule.is_valid());
    assert_eq!(encode_rule(&rule), Err(PfError::MalformedRecord));
}

#[test]
fn codes_of_actions_and_protocols() {
    assert_eq!(FilterAction::Pass.code(), 0);
    assert_eq!(FilterAction::Drop.code(), 1);
    assert_eq!(NatRuleAction::Nat.code(), 0);
    assert_eq!(NatRuleAction::NoNat.code(), 1);
    assert_eq!(Proto::Any.number(), 0);
    assert_eq!(Proto::Icmp.number(), 1);
    assert_eq!(Proto::Tcp.number(), 6);
    assert_eq!(Proto::Udp.number(), 17);
    assert_eq!(Proto::IcmpV6.number(), 58);
    assert_eq!(Ip::host(Address::V6(9)), Ip::Net { addr: Address::V6(9), prefix: 128 });
}

#[test]
fn interface_name_must_be_plain_ascii() {
    assert_eq!(RuleBuilder::default().interface("caf\u{e9}0").build(), Err(PfError::MalformedRecord));
    assert_eq!(RuleBuilder::default().interface("en\u{0}0").build(), Err(PfError::MalformedRecord));
    assert_eq!(RuleBuilder::default().interface("en0\u{0}").build(), Err(PfError::MalformedRecord));
    assert!(RuleBuilder::default().interface("utun_3.1-a").build().is_ok());
    assert!(RuleBuilder::default().interface("\u{7f}").build().is_ok());
    assert_eq!(RuleBuilder::default().interface("\u{80}").build(), Err(PfError::MalformedRecord));
}

fn sample_rules() -> Vec<Rule> {
    vec![
        RuleBuilder::default().build().unwrap(),
        RuleBuilder::default()
            .action(FilterAction::Drop)
            .direction(Direction::In)
            .quick(true)
            .af(AddrFamily::Ipv6)
            .proto(Proto::Udp)
            .interface("en0")
            .from(RuleEndpoint::new(Ip::Any, Port::Range(1024, 65535)))
            .to(RuleEndpoint::new(Ip::host(Address::V6(u128::MAX - 5)), Port::One(53)))
            .build()
            .unwrap(),
        RuleBuilder::default()
            .direction(Direction::Out)
            .af(AddrFamily::Ipv4)
            .proto(Proto::Icmp)
            .interface("123456789012345")
            .from(RuleEndpoint::new(Ip::Net { addr: Address::V4(0x0a00_0000), prefix: 8 }, Port::Any))
            .to(RuleEndpoint::new(Ip::Net { addr: Address::V4(0), prefix: 0 }, Port::Any))
            .build()
            .unwrap(),
        RuleBuilder::default()
            .af(AddrFamily::Ipv4)
            .proto(Proto::Tcp)
            .to(RuleEndpoint::new(Ip::host(Address::V4(u32::MAX)), Port::Range(0, 0)))
            .build()
            .unwrap(),
    ]
}

#[test]
fn filter_rules_come_back_from_their_records() {
    for rule in sample_rules() {
        let bytes = encode_rule(&rule).unwrap();
        assert_eq!(decode_rule(&bytes), Ok(AnyRule::Filter(rule)));
    }
}

#[test]
fn nat_rules_come_back_from_their_records() {
    let nat = tethering_rule();
    let bytes = encode_nat_rule(&nat).unwrap();
    assert_eq!(decode_rule(&bytes), Ok(AnyRule::Nat(nat)));
    let exempt = NatRuleBuilder::default()
        .action(NatRuleAction::NoNat)
        .af(AddrFamily::Ipv6)
        .proto(Proto::IcmpV6)
        .from(RuleEndpoint::new(Ip::Net { addr: Address::V6(1 << 100), prefix: 64 }, Port::Any))
        .build()
        .unwrap();
    let bytes = encode_nat_rule(&exempt).unwrap();
    assert_eq!(decode_rule(&bytes), Ok(AnyRule::Nat(exempt)));
}

#[test]
fn record_with_bytes_after_it_decodes_the_same() {
    let nat = tethering_rule();
    let mut bytes = encode_nat_rule(&nat).unwrap();
    bytes.extend_from_slice(&[0xff; 7]);
    assert_eq!(decode_rule(&bytes), Ok(AnyRule::Nat(nat)));
}

#[test]
fn short_rule_record_is_truncated() {
    let bytes = encode_nat_rule(&tethering_rule()).unwrap();
    assert_eq!(decode_rule(&bytes[..RULE_LEN - 1]), Err(PfError::TruncatedBuffer));
    assert_eq!(decode_rule(&[]), Err(PfError::TruncatedBuffer));
}

#[test]
fn rule_record_with_an_unknown_code_is_malformed() {
    let good = encode_nat_rule(&tethering_rule()).unwrap();
    assert!(decode_rule(&good).is_ok());
    let cases: [(usize, u8); 10] = [
        (0, 0),
        (0, 3),
        (1, 2),
        (3, 2),
        (4, 10),
        (5, 7),
        (41, 2),
        (42, 3),
        (65, 9),
        (89, 1),
    ];
    for (offset, value) in cases {
        let mut bytes = good.clone();
        bytes[offset] = value;
        assert_eq!(decode_rule(&bytes), Err(PfError::MalformedRecord), "offset {}", offset);
    }
    let mut filter = encode_rule(&RuleBuilder::default().build().unwrap()).unwrap();
    filter[2] = 3;
    assert_eq!(decode_rule(&filter), Err(PfError::MalformedRecord));
}

#[test]
fn rule_record_that_makes_no_valid_rule_is_malformed() {
    let good = encode_nat_rule(&tethering_rule()).unwrap();
    let mut long_prefix = good.clone();
    long_prefix[40] = 33;
    assert_eq!(decode_rule(&long_prefix), Err(PfError::MalformedRecord));
    let mut unpadded_name = good.clone();
    unpadded_name[8..24].copy_from_slice(b"0123456789abcdef");
    assert_eq!(decode_rule(&unpadded_name), Err(PfError::MalformedRecord));
    let mut high_byte = good.clone();
    high_byte[8] = 0x80;
    assert_eq!(decode_rule(&high_byte), Err(PfError::MalformedRecord));
    let mut inner_zero = good.clone();
    inner_zero[9] = 0;
    assert_eq!(decode_rule(&inner_zero), Err(PfError::MalformedRecord));
    let mut backward = good.clone();
    backward[42] = 2;
    backward[44..46].copy_from_slice(&9u16.to_be_bytes());
    backward[46..48].copy_from_slice(&8u16.to_be_bytes());
    assert_eq!(decode_rule(&backward), Err(PfError::MalformedRecord));
    let mut no_family = good.clone();
    no_family[4] = 0;
    assert_eq!(decode_rule(&no_family), Err(PfError::MalformedRecord));
}

#[test]
fn address_in_a_rule_is_read_under_the_family_of_the_rule() {
    let mut bytes = encode_nat_rule(&tethering_rule()).unwrap();
    bytes[4] = 30;
    bytes[40] = 24;
    bytes[88] = 32;
    match decode_rule(&bytes).unwrap() {
        AnyRule::Nat(rule) => {
            assert_eq!(rule.af, Some(AddrFamily::Ipv6));
            assert_eq!(
                rule.from.ip,
                Ip::Net { addr: Address::V6(0xac14_0a00u128 << 96), prefix: 24 }
            );
        }
        other => panic!("unexpected {:?}", other),
    }
}
