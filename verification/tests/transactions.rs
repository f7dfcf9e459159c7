use pfctl::addr::{AddrFamily, Address};
use pfctl::channel::{
    anchor_outcome, decode_ticket, encode_ticket, open_failure, reply_from_status, RequestKind,
    RulesetKind, Ticket, EACCES, EBUSY, EEXIST, EINVAL, EPERM,
};
use pfctl::error::PfError;
use pfctl::memory::MemoryChannel;
use pfctl::rule::{
    encode_nat_rule, Ip, NatRule, NatRuleAction, NatRuleBuilder, Port, Proto, RuleBuilder,
    RuleEndpoint, RULE_LEN,
};
use pfctl::rule_decode::{decode_rule, AnyRule};
use pfctl::state::{decode_state_entry, decode_state_table, STATE_LEN};
use pfctl::transaction::{Action, Awaiting, Transaction, TxState};

const ANCHOR: &str = "tethering_nat";

fn tethering_rule() -> NatRule {
    NatRuleBuilder::default()
        .action(NatRuleAction::Nat)
        .af(AddrFamily::Ipv4)
        .interface("bridge100")
        .proto(Proto::Tcp)
        .from(RuleEndpoint::new(
            Ip::Net { addr: Address::V4(0xac14_0a00), prefix: 24 },
            Port::Any,
        ))
        .to(RuleEndpoint::new(Ip::Any, Port::Any))
        .nat_to(RuleEndpoint::new(Ip::host(Address::V4(0xc612_0001)), Port::Any))
        .pass(true)
        .build()
        .unwrap()
}

fn rule(tag: u8) -> Vec<u8> {
    vec![tag; RULE_LEN]
}

fn tx(rules: Vec<Vec<u8>>) -> Transaction {
    Transaction::new(String::from(ANCHOR), RulesetKind::Nat, rules)
}

fn ok() -> Result<Vec<u8>, PfError> {
    Ok(Vec::new())
}

#[test]
fn transaction_walks_from_idle_to_committed() {
    let mut t = tx(vec![rule(1), rule(2)]);
    assert_eq!(t.state(), TxState::Idle);
    assert_eq!(t.ticket(), Err(PfError::InvalidTicket));
    assert_eq!(
        t.start(),
        Action::Send(RequestKind::BeginTransaction {
            anchor: String::from(ANCHOR),
            kind: RulesetKind::Nat
        })
    );
    assert_eq!(t.state(), TxState::Idle);
    assert_eq!(
        t.on_reply(Ok(vec![0, 0, 0, 42])),
        Action::Send(RequestKind::AddRule { ticket: Ticket { id: 42 }, rule: rule(1) })
    );
    assert_eq!(t.state(), TxState::TicketAcquired);
    assert_eq!(t.ticket(), Ok(Ticket { id: 42 }));
    assert_eq!(t.staged(), 0);
    assert_eq!(
        t.on_reply(ok()),
        Action::Send(RequestKind::AddRule { ticket: Ticket { id: 42 }, rule: rule(2) })
    );
    assert_eq!(t.state(), TxState::RuleStaged);
    assert_eq!(t.staged(), 1);
    assert_eq!(t.on_reply(ok()), Action::Send(RequestKind::Commit { ticket: Ticket { id: 42 } }));
    assert_eq!(t.state(), TxState::RuleStaged);
    assert_eq!(t.staged(), 2);
    assert_eq!(t.on_reply(ok()), Action::Committed(2));
    assert_eq!(t.state(), TxState::Committed);
}

#[test]
fn transaction_without_rules_commits_the_empty_set() {
    let mut t = tx(vec![]);
    t.start();
    assert_eq!(
        t.on_reply(Ok(vec![0, 0, 0, 5])),
        Action::Send(RequestKind::Commit { ticket: Ticket { id: 5 } })
    );
    assert_eq!(t.state(), TxState::TicketAcquired);
    assert_eq!(t.on_reply(ok()), Action::Committed(0));
}

#[test]
fn ticket_fails_after_commit() {
    let mut t = tx(vec![]);
    t.start();
    t.on_reply(Ok(vec![0, 0, 0, 5]));
    t.on_reply(ok());
    assert_eq!(t.state(), TxState::Committed);
    assert_eq!(t.ticket(), Err(PfError::InvalidTicket));
    assert_eq!(t.start(), Action::Failed(PfError::InvalidTicket));
    assert_eq!(t.on_reply(ok()), Action::Failed(PfError::InvalidTicket));
    assert_eq!(t.on_reply(Ok(vec![0, 0, 0, 9])), Action::Failed(PfError::InvalidTicket));
    assert_eq!(t.abort(), Action::Failed(PfError::InvalidTicket));
    assert_eq!(t.state(), TxState::Committed);
    assert_eq!(t.awaiting, Awaiting::Nothing);
}

#[test]
fn ticket_fails_after_abort() {
    let mut t = tx(vec![rule(1)]);
    t.start();
    t.on_reply(Ok(vec![0, 0, 0, 5]));
    assert_eq!(t.abort(), Action::Send(RequestKind::Abort { ticket: Ticket { id: 5 } }));
    assert_eq!(t.on_reply(ok()), Action::Aborted);
    assert_eq!(t.state(), TxState::Aborted);
    assert_eq!(t.ticket(), Err(PfError::InvalidTicket));
    assert_eq!(t.start(), Action::Failed(PfError::InvalidTicket));
    assert_eq!(t.on_reply(ok()), Action::Failed(PfError::InvalidTicket));
    assert_eq!(t.abort(), Action::Failed(PfError::InvalidTicket));
    assert_eq!(t.state(), TxState::Aborted);
}

#[test]
fn refused_ticket_ends_the_transaction() {
    let mut t = tx(vec![rule(1)]);
    t.start();
    assert_eq!(
        t.on_reply(Err(PfError::KernelRejected(EBUSY))),
        Action::Failed(PfError::KernelRejected(EBUSY))
    );
    assert_eq!(t.state(), TxState::Aborted);
    assert_eq!(t.ticket(), Err(PfError::InvalidTicket));
}

#[test]
fn reply_too_short_for_a_ticket_ends_the_transaction() {
    let mut t = tx(vec![rule(1)]);
    t.start();
    assert_eq!(t.on_reply(Ok(vec![0, 0, 1])), Action::Failed(PfError::TruncatedBuffer));
    assert_eq!(t.state(), TxState::Aborted);
}

#[test]
fn refused_rule_leads_to_abort_and_keeps_the_code() {
    let mut t = tx(vec![rule(1), rule(2)]);
    t.start();
    t.on_reply(Ok(vec![0, 0, 0, 5]));
    t.on_reply(ok());
    assert_eq!(
        t.on_reply(Err(PfError::KernelRejected(EINVAL))),
        Action::Send(RequestKind::Abort { ticket: Ticket { id: 5 } })
    );
    assert_eq!(t.state(), TxState::RuleStaged);
    assert_eq!(t.ticket(), Ok(Ticket { id: 5 }));
    assert_eq!(t.on_reply(ok()), Action::Failed(PfError::KernelRejected(EINVAL)));
    assert_eq!(t.state(), TxState::Aborted);
}

#[test]
fn refused_commit_leads_to_abort_and_is_not_retried() {
    let mut t = tx(vec![rule(1)]);
    t.start();
    t.on_reply(Ok(vec![0, 0, 0, 5]));
    t.on_reply(ok());
    assert_eq!(
        t.on_reply(Err(PfError::KernelRejected(EBUSY))),
        Action::Send(RequestKind::Abort { ticket: Ticket { id: 5 } })
    );
    assert_eq!(
        t.on_reply(Err(PfError::KernelRejected(EINVAL))),
        Action::Failed(PfError::KernelRejected(EBUSY))
    );
    assert_eq!(t.state(), TxState::Aborted);
}

#[test]
fn abort_before_any_ticket_needs_no_request() {
    let mut t = tx(vec![rule(1)]);
    assert_eq!(t.abort(), Action::Aborted);
    assert_eq!(t.state(), TxState::Aborted);
    let mut t = tx(vec![rule(1)]);
    t.start();
    assert_eq!(t.abort(), Action::Aborted);
    assert_eq!(t.on_reply(Ok(vec![0, 0, 0, 5])), Action::Failed(PfError::InvalidTicket));
}

#[test]
fn starting_twice_is_refused() {
    let mut t = tx(vec![]);
    t.start();
    assert_eq!(t.start(), Action::Failed(PfError::InvalidTicket));
    assert_eq!(t.state(), TxState::Idle);
    assert_eq!(t.awaiting, Awaiting::Ticket);
}

#[test]
fn reply_before_start_is_refused() {
    let mut t = tx(vec![]);
    assert_eq!(t.on_reply(Ok(vec![0, 0, 0, 5])), Action::Failed(PfError::InvalidTicket));
    assert_eq!(t.state(), TxState::Idle);
}

#[test]
fn anchor_creation_twice_succeeds_and_creates_one_anchor() {
    let mut c = MemoryChannel::new();
    assert!(!c.has_anchor(ANCHOR, RulesetKind::Nat));
    assert_eq!(c.try_add_anchor(ANCHOR, RulesetKind::Nat), Ok(()));
    assert_eq!(c.try_add_anchor(ANCHOR, RulesetKind::Nat), Ok(()));
    assert!(c.has_anchor(ANCHOR, RulesetKind::Nat));
    assert_eq!(c.rulesets.len(), 1);
    let same = c
        .rulesets
        .iter()
        .filter(|r| r.anchor == ANCHOR && r.kind == RulesetKind::Nat)
        .count();
    assert_eq!(same, 1);
}

#[test]
fn channel_reports_an_existing_anchor_and_the_manager_absorbs_it() {
    let mut c = MemoryChannel::new();
    let add = || RequestKind::AddAnchor { name: String::from(ANCHOR), kind: RulesetKind::Filter };
    assert_eq!(c.request(add()), Ok(vec![]));
    let second = c.request(add());
    assert_eq!(second, Err(PfError::KernelRejected(EEXIST)));
    assert_eq!(anchor_outcome(second), Ok(()));
    assert_eq!(anchor_outcome(Ok(vec![])), Ok(()));
    assert_eq!(
        anchor_outcome(Err(PfError::KernelRejected(EINVAL))),
        Err(PfError::KernelRejected(EINVAL))
    );
    assert_eq!(anchor_outcome(Err(PfError::PermissionDenied)), Err(PfError::PermissionDenied));
}

#[test]
fn anchors_of_different_kinds_are_different() {
    let mut c = MemoryChannel::new();
    c.try_add_anchor(ANCHOR, RulesetKind::Nat).unwrap();
    assert!(!c.has_anchor(ANCHOR, RulesetKind::Filter));
    c.try_add_anchor(ANCHOR, RulesetKind::Filter).unwrap();
    c.try_add_anchor("other", RulesetKind::Nat).unwrap();
    assert_eq!(c.rulesets.len(), 3);
}

#[test]
fn committed_transaction_puts_exactly_its_rules_in_force() {
    let mut c = MemoryChannel::new();
    let rules = vec![rule(1), rule(2), rule(3)];
    let mut t = tx(rules.clone());
    assert_eq!(c.run(&mut t), Action::Committed(3));
    assert_eq!(t.state(), TxState::Committed);
    assert_eq!(c.rule_count(ANCHOR, RulesetKind::Nat), 3);
    assert_eq!(c.rules(ANCHOR, RulesetKind::Nat), rules);
    assert_eq!(c.run(&mut t), Action::Failed(PfError::InvalidTicket));
    assert_eq!(c.rules(ANCHOR, RulesetKind::Nat), rules);
}

#[test]
fn commit_replaces_the_rules_that_were_in_force() {
    let mut c = MemoryChannel::new();
    assert_eq!(c.install(ANCHOR, RulesetKind::Nat, vec![rule(1), rule(2)]), Ok(2));
    assert_eq!(c.install(ANCHOR, RulesetKind::Nat, vec![rule(9)]), Ok(1));
    assert_eq!(c.rules(ANCHOR, RulesetKind::Nat), vec![rule(9)]);
}

#[test]
fn rejected_transaction_leaves_the_rules_unchanged() {
    let mut c = MemoryChannel::new();
    c.install(ANCHOR, RulesetKind::Nat, vec![rule(1), rule(2)]).unwrap();
    let mut t = tx(vec![rule(3), vec![0u8; RULE_LEN - 1], rule(4)]);
    assert_eq!(c.run(&mut t), Action::Failed(PfError::KernelRejected(EINVAL)));
    assert_eq!(t.state(), TxState::Aborted);
    assert_eq!(t.ticket(), Err(PfError::InvalidTicket));
    assert_eq!(c.rule_count(ANCHOR, RulesetKind::Nat), 2);
    assert_eq!(c.rules(ANCHOR, RulesetKind::Nat), vec![rule(1), rule(2)]);
    assert!(c.rulesets.iter().all(|r| r.pending.is_empty() && r.open.is_none()));
}

#[test]
fn staged_rules_are_not_in_force_before_commit() {
    let mut c = MemoryChannel::new();
    c.install(ANCHOR, RulesetKind::Nat, vec![rule(1)]).unwrap();
    let mut t = tx(vec![rule(7), rule(8)]);
    let mut action = t.start();
    let mut sent = 0;
    while let Action::Send(request) = action {
        if let RequestKind::Commit { .. } = request {
            break;
        }
        assert_eq!(c.rules(ANCHOR, RulesetKind::Nat), vec![rule(1)]);
        action = t.on_reply(c.request(request));
        sent += 1;
    }
    assert_eq!(sent, 3);
    assert_eq!(c.rules(ANCHOR, RulesetKind::Nat), vec![rule(1)]);
    let ticket = t.ticket().unwrap();
    assert_eq!(t.on_reply(c.request(RequestKind::Commit { ticket })), Action::Committed(2));
    assert_eq!(c.rules(ANCHOR, RulesetKind::Nat), vec![rule(7), rule(8)]);
}

#[test]
fn commit_on_a_changed_ruleset_is_rejected_and_surfaces() {
    let mut c = MemoryChannel::new();
    c.install(ANCHOR, RulesetKind::Nat, vec![rule(1)]).unwrap();
    let mut first = tx(vec![rule(2)]);
    let begin = match first.start() {
        Action::Send(r) => r,
        other => panic!("unexpected {:?}", other),
    };
    let add = match first.on_reply(c.request(begin)) {
        Action::Send(r) => r,
        other => panic!("unexpected {:?}", other),
    };
    let commit = match first.on_reply(c.request(add)) {
        Action::Send(r) => r,
        other => panic!("unexpected {:?}", other),
    };
    assert_eq!(c.install(ANCHOR, RulesetKind::Nat, vec![rule(5), rule(6)]), Ok(2));
    let refused = c.request(commit);
    assert_eq!(refused, Err(PfError::KernelRejected(EBUSY)));
    let abort = match first.on_reply(refused) {
        Action::Send(r) => r,
        other => panic!("unexpected {:?}", other),
    };
    assert_eq!(abort, RequestKind::Abort { ticket: first.ticket });
    assert_eq!(first.on_reply(c.request(abort)), Action::Failed(PfError::KernelRejected(EBUSY)));
    assert_eq!(first.state(), TxState::Aborted);
    assert_eq!(c.rules(ANCHOR, RulesetKind::Nat), vec![rule(5), rule(6)]);
}

#[test]
fn explicit_abort_discards_the_pending_set() {
    let mut c = MemoryChannel::new();
    c.install(ANCHOR, RulesetKind::Nat, vec![rule(1)]).unwrap();
    let mut t = tx(vec![rule(2), rule(3)]);
    let mut action = t.start();
    for _ in 0..2 {
        action = match action {
            Action::Send(r) => t.on_reply(c.request(r)),
            other => panic!("unexpected {:?}", other),
        };
    }
    assert_eq!(t.staged(), 1);
    assert!(matches!(action, Action::Send(RequestKind::AddRule { .. })));
    let abort = match t.abort() {
        Action::Send(r) => r,
        other => panic!("unexpected {:?}", other),
    };
    assert_eq!(t.on_reply(c.request(abort)), Action::Aborted);
    assert_eq!(c.rules(ANCHOR, RulesetKind::Nat), vec![rule(1)]);
    assert!(c.rulesets.iter().all(|r| r.pending.is_empty() && r.open.is_none()));
}

#[test]
fn nat_rule_is_installed_and_flushed() {
    let mut c = MemoryChannel::new();
    let nat = tethering_rule();
    assert_eq!(c.try_add_anchor(ANCHOR, RulesetKind::Nat), Ok(()));
    assert_eq!(c.add_nat_rule(ANCHOR, &nat), Ok(()));
    assert_eq!(c.rule_count(ANCHOR, RulesetKind::Nat), 1);
    assert_eq!(c.rules(ANCHOR, RulesetKind::Nat), vec![encode_nat_rule(&nat).unwrap()]);
    assert_eq!(c.flush_rules(ANCHOR, RulesetKind::Nat), Ok(()));
    assert_eq!(c.rule_count(ANCHOR, RulesetKind::Nat), 0);
    assert_eq!(c.rules(ANCHOR, RulesetKind::Nat), Vec::<Vec<u8>>::new());
    assert!(c.has_anchor(ANCHOR, RulesetKind::Nat));
    let table = c.request(RequestKind::GetStates).unwrap();
    assert_eq!(decode_state_table(&table), Ok(vec![]));
}

#[test]
fn nat_rule_is_installed_by_an_explicit_transaction() {
    let mut c = MemoryChannel::new();
    let bytes = encode_nat_rule(&tethering_rule()).unwrap();
    let mut t = tx(vec![bytes.clone()]);
    assert_eq!(c.run(&mut t), Action::Committed(1));
    assert_eq!(c.rules(ANCHOR, RulesetKind::Nat), vec![bytes]);
    assert_eq!(c.flush_rules(ANCHOR, RulesetKind::Nat), Ok(()));
    assert_eq!(c.rule_count(ANCHOR, RulesetKind::Nat), 0);
}

#[test]
fn flush_leaves_other_kinds_and_anchors_untouched() {
    let mut c = MemoryChannel::new();
    let filter = RuleBuilder::default().build().unwrap();
    c.add_nat_rule(ANCHOR, &tethering_rule()).unwrap();
    c.add_filter_rule(ANCHOR, &filter).unwrap();
    c.add_nat_rule("other", &tethering_rule()).unwrap();
    assert_eq!(c.flush_rules(ANCHOR, RulesetKind::Nat), Ok(()));
    assert_eq!(c.rule_count(ANCHOR, RulesetKind::Nat), 0);
    assert_eq!(c.rule_count(ANCHOR, RulesetKind::Filter), 1);
    assert_eq!(c.rule_count("other", RulesetKind::Nat), 1);
    assert_eq!(c.flush_rules("missing", RulesetKind::Nat), Ok(()));
    assert!(!c.has_anchor("missing", RulesetKind::Nat));
}

#[test]
fn malformed_rule_is_refused_before_anything_is_sent() {
    let mut c = MemoryChannel::new();
    let mut bad = tethering_rule();
    bad.af = None;
    assert_eq!(c.add_nat_rule(ANCHOR, &bad), Err(PfError::MalformedRecord));
    assert!(c.rulesets.is_empty());
    assert_eq!(c.next_ticket, 1);
}

#[test]
fn tickets_are_fresh_and_a_stale_one_is_refused() {
    let mut c = MemoryChannel::new();
    let begin = || RequestKind::BeginTransaction {
        anchor: String::from(ANCHOR),
        kind: RulesetKind::Filter,
    };
    let first = decode_ticket(&c.request(begin()).unwrap()).unwrap();
    let second = decode_ticket(&c.request(begin()).unwrap()).unwrap();
    assert_eq!(first, Ticket { id: 1 });
    assert_eq!(second, Ticket { id: 2 });
    assert_eq!(
        c.request(RequestKind::AddRule { ticket: first, rule: rule(1) }),
        Err(PfError::KernelRejected(EBUSY))
    );
    assert_eq!(
        c.request(RequestKind::Commit { ticket: first }),
        Err(PfError::KernelRejected(EBUSY))
    );
    assert_eq!(c.request(RequestKind::Abort { ticket: first }), Ok(vec![]));
    assert_eq!(c.request(RequestKind::AddRule { ticket: second, rule: rule(1) }), Ok(vec![]));
    assert_eq!(c.request(RequestKind::Commit { ticket: second }), Ok(vec![]));
    assert_eq!(
        c.request(RequestKind::Commit { ticket: second }),
        Err(PfError::KernelRejected(EBUSY))
    );
    assert_eq!(c.rule_count(ANCHOR, RulesetKind::Filter), 1);
}

#[test]
fn channel_out_of_tickets_refuses_to_begin() {
    let mut c = MemoryChannel::new();
    c.install(ANCHOR, RulesetKind::Nat, vec![rule(1)]).unwrap();
    c.next_ticket = u32::MAX;
    assert_eq!(
        c.install(ANCHOR, RulesetKind::Nat, vec![rule(2)]),
        Err(PfError::KernelRejected(EBUSY))
    );
    assert_eq!(c.rules(ANCHOR, RulesetKind::Nat), vec![rule(1)]);
}

#[test]
fn ticket_round_trips_through_a_reply() {
    assert_eq!(encode_ticket(Ticket { id: 0x0102_0304 }), vec![1, 2, 3, 4]);
    assert_eq!(decode_ticket(&[1, 2, 3, 4, 9]), Ok(Ticket { id: 0x0102_0304 }));
    assert_eq!(decode_ticket(&[1, 2, 3]), Err(PfError::TruncatedBuffer));
}

#[test]
fn open_failures_tell_privilege_from_absence() {
    assert_eq!(open_failure(EACCES), PfError::PermissionDenied);
    assert_eq!(open_failure(EPERM), PfError::PermissionDenied);
    assert_eq!(open_failure(2), PfError::DeviceUnavailable);
    assert_eq!(open_failure(0), PfError::DeviceUnavailable);
    assert_eq!(open_failure(-1), PfError::DeviceUnavailable);
}

#[test]
fn status_zero_is_success_and_any_other_keeps_its_code() {
    assert_eq!(reply_from_status(0, vec![1, 2]), Ok(vec![1, 2]));
    assert_eq!(reply_from_status(16, vec![1, 2]), Err(PfError::KernelRejected(16)));
    assert_eq!(reply_from_status(-1, vec![]), Err(PfError::KernelRejected(-1)));
}

fn flow(lan_port: u16, src_state: u8) -> Vec<u8> {
    let mut r = vec![0u8; STATE_LEN];
    r[8..11].copy_from_slice(b"ALL");
    r[24..28].copy_from_slice(&[120, 204, 94, 42]);
    r[40..42].copy_from_slice(&lan_port.to_be_bytes());
    r[48..52].copy_from_slice(&[120, 204, 94, 42]);
    r[64..66].copy_from_slice(&lan_port.to_be_bytes());
    r[72..76].copy_from_slice(&[172, 20, 10, 2]);
    r[88..90].copy_from_slice(&54607u16.to_be_bytes());
    r[96..100].copy_from_slice(&[172, 20, 10, 2]);
    r[112..114].copy_from_slice(&54607u16.to_be_bytes());
    r[144] = src_state;
    r[176] = 2;
    r[282] = 2;
    r[283] = 2;
    r[284] = 6;
    r[285] = 1;
    r
}

#[test]
fn channel_reports_the_flows_that_it_tracks() {
    let mut c = MemoryChannel::new();
    assert_eq!(c.get_states(), Ok(vec![]));
    assert_eq!(c.track(flow(17832, 2)), Ok(()));
    assert_eq!(c.track(flow(17833, 77)), Ok(()));
    assert_eq!(c.track(flow(17834, 4)), Ok(()));
    let states = c.get_states().unwrap();
    assert_eq!(states.len(), 3);
    assert_eq!(
        states[0].as_ref().unwrap().format(),
        "ALL tcp 120.204.94.42:17832 <- 172.20.10.2:54607 ESTABLISHED:ESTABLISHED"
    );
    assert_eq!(states[1], Err(PfError::UnknownTimeoutState));
    assert_eq!(states[2], decode_state_entry(&flow(17834, 4)));
    assert_eq!(
        states[2].as_ref().unwrap().format(),
        "ALL tcp 120.204.94.42:17834 <- 172.20.10.2:54607 FIN_WAIT:ESTABLISHED"
    );
}

#[test]
fn channel_refuses_a_record_of_the_wrong_size() {
    let mut c = MemoryChannel::new();
    assert_eq!(c.track(vec![0u8; STATE_LEN - 1]), Err(PfError::MalformedRecord));
    assert_eq!(c.track(vec![0u8; STATE_LEN + 1]), Err(PfError::MalformedRecord));
    assert_eq!(c.track(Vec::new()), Err(PfError::MalformedRecord));
    assert!(c.states.is_empty());
}

#[test]
fn truncated_reply_to_get_states_is_reported() {
    let mut c = MemoryChannel::new();
    c.track(flow(1, 2)).unwrap();
    c.track(flow(2, 2)).unwrap();
    let mut table = c.request(RequestKind::GetStates).unwrap();
    table.truncate(4 + STATE_LEN + 100);
    assert_eq!(decode_state_table(&table), Err(PfError::TruncatedBuffer));
}

#[test]
fn rules_do_not_disturb_the_tracked_flows() {
    let mut c = MemoryChannel::new();
    c.track(flow(1, 2)).unwrap();
    c.add_nat_rule(ANCHOR, &tethering_rule()).unwrap();
    c.flush_rules(ANCHOR, RulesetKind::Nat).unwrap();
    assert_eq!(c.get_states().unwrap().len(), 1);
    assert_eq!(c.rule_count(ANCHOR, RulesetKind::Nat), 0);
}

#[test]
fn rules_in_force_can_be_listed_and_read_back() {
    let mut c = MemoryChannel::new();
    let nat = tethering_rule();
    c.add_nat_rule(ANCHOR, &nat).unwrap();
    let listed: Vec<_> =
        c.rules(ANCHOR, RulesetKind::Nat).iter().map(|bytes| decode_rule(bytes)).collect();
    assert_eq!(listed, vec![Ok(AnyRule::Nat(nat))]);
    c.flush_rules(ANCHOR, RulesetKind::Nat).unwrap();
    assert!(c.rules(ANCHOR, RulesetKind::Nat).is_empty());
}
