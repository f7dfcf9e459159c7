//! A channel that keeps its rulesets in memory.
//!
//! It answers requests as the transaction protocol lays them down: a
//! ticket belongs to one ruleset of one anchor, staged rules wait in a
//! pending set, a commit puts the pending set in the place of the active
//! ruleset at once, an abort discards it. It lets callers be exercised
//! without a privileged device, and it is the model against which the
//! guarantees of the protocol are stated.

use crate::channel::{
    anchor_outcome, copy_bytes, encode_ticket, reply_view, spec_anchor_outcome,
    spec_decode_ticket, RequestKind, RequestView, RulesetKind, Ticket, EBUSY, EEXIST, EINVAL,
};
use crate::error::PfError;
use crate::rule::{encode_nat_rule, encode_rule, NatRule, Rule, RULE_LEN};
use crate::state::{
    decode_state_table, encode_state_table, lemma_state_table_round_trip, records_view,
    spec_decode_state_entry, table_bytes, table_view, whole_records, StateEntry, STATE_LEN,
};
use crate::transaction::{
    lemma_sends_request_out, Action, ActionView, Awaiting, Transaction, TxState, TxView,
};
use crate::wire::{
    be_bytes, field, lemma_be_bytes_len, lemma_be_value_of_bytes, lemma_radix_pow_values,
};
use vstd::prelude::*;
use vstd::string::*;

verus! {

/// One ruleset: the rules of one kind under one anchor.
#[derive(Debug)]
pub struct Ruleset {
    pub anchor: String,
    pub kind: RulesetKind,
    /// The rules in force.
    pub active: Vec<Vec<u8>>,
    /// The rules staged by the open transaction.
    pub pending: Vec<Vec<u8>>,
    /// The ticket of the open transaction, if one is open.
    pub open: Option<Ticket>,
}

/// What a list of encoded rules holds, as a mathematical value.
pub open spec fn rules_view(rules: Seq<Vec<u8>>) -> Seq<Seq<u8>> {
    Seq::new(rules.len(), |i: int| rules[i]@)
}

/// What a ruleset holds, as a mathematical value.
pub struct RulesetView {
    pub anchor: Seq<char>,
    pub kind: RulesetKind,
    pub active: Seq<Seq<u8>>,
    pub pending: Seq<Seq<u8>>,
    pub open: Option<Ticket>,
}

impl View for Ruleset {
    type V = RulesetView;

    open spec fn view(&self) -> RulesetView {
        RulesetView {
            anchor: self.anchor@,
            kind: self.kind,
            active: rules_view(self.active@),
            pending: rules_view(self.pending@),
            open: self.open,
        }
    }
}

/// The channel: its rulesets, and the number of the next ticket.
#[derive(Debug)]
pub struct MemoryChannel {
    pub rulesets: Vec<Ruleset>,
    pub next_ticket: u32,
    /// The raw records of the flows that the channel reports.
    pub states: Vec<Vec<u8>>,
}

/// What the channel holds, as a mathematical value.
pub struct ChannelView {
    pub rulesets: Seq<RulesetView>,
    pub next_ticket: u32,
    pub states: Seq<Seq<u8>>,
}

impl View for MemoryChannel {
    type V = ChannelView;

    open spec fn view(&self) -> ChannelView {
        ChannelView {
            rulesets: Seq::new(self.rulesets@.len(), |i: int| self.rulesets@[i]@),
            next_ticket: self.next_ticket,
            states: records_view(self.states@),
        }
    }
}

/// Whether `r` is the ruleset of kind `kind` under `anchor`.
pub open spec fn is_ruleset(r: RulesetView, anchor: Seq<char>, kind: RulesetKind) -> bool {
    r.anchor == anchor && r.kind == kind
}

/// The index of the first ruleset of kind `kind` under `anchor`; the
/// length of `rs` where there is none.
pub open spec fn find(rs: Seq<RulesetView>, anchor: Seq<char>, kind: RulesetKind) -> int
    decreases rs.len(),
{
    if rs.len() == 0 {
        0
    } else {
        let before = find(rs.drop_last(), anchor, kind);
        if before < rs.len() - 1 {
            before
        } else if is_ruleset(rs.last(), anchor, kind) {
            rs.len() - 1
        } else {
            rs.len() as int
        }
    }
}

/// The index of the first ruleset whose open transaction has `ticket`; the
/// length of `rs` where there is none.
pub open spec fn find_ticket(rs: Seq<RulesetView>, ticket: Ticket) -> int
    decreases rs.len(),
{
    if rs.len() == 0 {
        0
    } else {
        let before = find_ticket(rs.drop_last(), ticket);
        if before < rs.len() - 1 {
            before
        } else if rs.last().open == Some(ticket) {
            rs.len() - 1
        } else {
            rs.len() as int
        }
    }
}

/// How many rulesets of kind `kind` under `anchor` there are.
pub open spec fn anchor_count(rs: Seq<RulesetView>, anchor: Seq<char>, kind: RulesetKind) -> nat
    decreases rs.len(),
{
    if rs.len() == 0 {
        0
    } else {
        anchor_count(rs.drop_last(), anchor, kind) + if is_ruleset(rs.last(), anchor, kind) {
            1nat
        } else {
            0nat
        }
    }
}

/// The rules in force of kind `kind` under `anchor`; none where there is
/// no such ruleset.
pub open spec fn active_rules(rs: Seq<RulesetView>, anchor: Seq<char>, kind: RulesetKind) -> Seq<
    Seq<u8>,
> {
    let i = find(rs, anchor, kind);
    if i < rs.len() {
        rs[i].active
    } else {
        Seq::empty()
    }
}

/// A ruleset with nothing in force and no transaction open.
pub open spec fn empty_ruleset(anchor: Seq<char>, kind: RulesetKind) -> RulesetView {
    RulesetView { anchor, kind, active: Seq::empty(), pending: Seq::empty(), open: None }
}

impl ChannelView {
    /// What holds of every channel that this module made: no anchor has
    /// two rulesets of one kind, no ticket is open twice, every open
    /// ticket was issued, and the state records are whole and few enough
    /// to be counted in a table.
    pub open spec fn wf(self) -> bool {
        &&& forall|i: int, j: int|
            0 <= i < j < self.rulesets.len() ==> !is_ruleset(
                #[trigger] self.rulesets[i],
                (#[trigger] self.rulesets[j]).anchor,
                self.rulesets[j].kind,
            )
        &&& forall|i: int, j: int|
            0 <= i < j < self.rulesets.len() && (#[trigger] self.rulesets[i]).open.is_some()
                ==> self.rulesets[i].open != (#[trigger] self.rulesets[j]).open
        &&& forall|i: int|
            0 <= i < self.rulesets.len() && (#[trigger] self.rulesets[i]).open.is_some()
                ==> self.rulesets[i].open.unwrap().id < self.next_ticket
        &&& whole_records(self.states)
        &&& self.states.len() <= u32::MAX
    }

    /// The rules in force of kind `kind` under `anchor`.
    pub open spec fn rules(self, anchor: Seq<char>, kind: RulesetKind) -> Seq<Seq<u8>> {
        active_rules(self.rulesets, anchor, kind)
    }

    /// Whether there is a ruleset of kind `kind` under `anchor`.
    pub open spec fn has_anchor(self, anchor: Seq<char>, kind: RulesetKind) -> bool {
        find(self.rulesets, anchor, kind) < self.rulesets.len()
    }

    /// The channel with ruleset `i` replaced by `r`.
    pub open spec fn with_ruleset(self, i: int, r: RulesetView) -> ChannelView {
        ChannelView { rulesets: self.rulesets.update(i, r), ..self }
    }

    /// The channel after `AddAnchor`, and the reply: an anchor that is
    /// there already is refused with `EEXIST` and nothing changes.
    pub open spec fn add_anchor(self, name: Seq<char>, kind: RulesetKind) -> (
        ChannelView,
        Result<Seq<u8>, PfError>,
    ) {
        if self.has_anchor(name, kind) {
            (self, Err(PfError::KernelRejected(EEXIST)))
        } else {
            (
                ChannelView { rulesets: self.rulesets.push(empty_ruleset(name, kind)), ..self },
                Ok(Seq::empty()),
            )
        }
    }

    /// The channel after `BeginTransaction`, and the reply: the ruleset,
    /// made if it was not there, has a fresh ticket and an empty pending
    /// set; a transaction that was open on it has lost its ticket. When
    /// the tickets have run out the request is refused with `EBUSY`.
    pub open spec fn begin(self, anchor: Seq<char>, kind: RulesetKind) -> (
        ChannelView,
        Result<Seq<u8>, PfError>,
    ) {
        if self.next_ticket == u32::MAX {
            (self, Err(PfError::KernelRejected(EBUSY)))
        } else {
            let ticket = Ticket { id: self.next_ticket };
            let i = find(self.rulesets, anchor, kind);
            let rulesets = if i < self.rulesets.len() {
                self.rulesets.update(
                    i,
                    RulesetView { pending: Seq::empty(), open: Some(ticket), ..self.rulesets[i] },
                )
            } else {
                self.rulesets.push(
                    RulesetView { open: Some(ticket), ..empty_ruleset(anchor, kind) },
                )
            };
            (
                ChannelView { rulesets, next_ticket: (self.next_ticket + 1) as u32, ..self },
                Ok(be_bytes(ticket.id as nat, 4)),
            )
        }
    }

    /// The channel after `AddRule`, and the reply: a ticket that is not
    /// open is refused with `EBUSY`, a rule of the wrong size with
    /// `EINVAL`; else the rule joins the pending set. The rules in force
    /// stay as they are in every case.
    pub open spec fn add_rule(self, ticket: Ticket, rule: Seq<u8>) -> (
        ChannelView,
        Result<Seq<u8>, PfError>,
    ) {
        let i = find_ticket(self.rulesets, ticket);
        if i >= self.rulesets.len() {
            (self, Err(PfError::KernelRejected(EBUSY)))
        } else if rule.len() != RULE_LEN {
            (self, Err(PfError::KernelRejected(EINVAL)))
        } else {
            (
                self.with_ruleset(
                    i,
                    RulesetView { pending: self.rulesets[i].pending.push(rule), ..self.rulesets[i] },
                ),
                Ok(Seq::empty()),
            )
        }
    }

    /// The channel after `Commit`, and the reply: a ticket that is not
    /// open is refused with `EBUSY`; else the pending set takes the place
    /// of the rules in force and the ticket is closed.
    pub open spec fn commit(self, ticket: Ticket) -> (ChannelView, Result<Seq<u8>, PfError>) {
        let i = find_ticket(self.rulesets, ticket);
        if i >= self.rulesets.len() {
            (self, Err(PfError::KernelRejected(EBUSY)))
        } else {
            (
                self.with_ruleset(
                    i,
                    RulesetView {
                        active: self.rulesets[i].pending,
                        pending: Seq::empty(),
                        open: None,
                        ..self.rulesets[i]
                    },
                ),
                Ok(Seq::empty()),
            )
        }
    }

    /// The channel after `Abort`, and the reply: the pending set of the
    /// ticket is discarded and the ticket closed. An abort is always
    /// acknowledged, also for a ticket that is not open.
    pub open spec fn abort(self, ticket: Ticket) -> (ChannelView, Result<Seq<u8>, PfError>) {
        let i = find_ticket(self.rulesets, ticket);
        if i >= self.rulesets.len() {
            (self, Ok(Seq::empty()))
        } else {
            (
                self.with_ruleset(
                    i,
                    RulesetView { pending: Seq::empty(), open: None, ..self.rulesets[i] },
                ),
                Ok(Seq::empty()),
            )
        }
    }

    /// The channel after `Flush`, and the reply: the ruleset of that kind
    /// under that anchor is emptied, as by a transaction that commits no
    /// rule. Rulesets of other kinds and of other anchors stay as they
    /// are.
    pub open spec fn flush(self, anchor: Seq<char>, kind: RulesetKind) -> (
        ChannelView,
        Result<Seq<u8>, PfError>,
    ) {
        let i = find(self.rulesets, anchor, kind);
        if i >= self.rulesets.len() {
            (self, Ok(Seq::empty()))
        } else {
            (self.with_ruleset(i, empty_ruleset(anchor, kind)), Ok(Seq::empty()))
        }
    }

    /// The channel after a request, and the reply. `GetStates` is answered
    /// with the table of the records that the channel holds.
    pub open spec fn respond(self, request: RequestView) -> (ChannelView, Result<Seq<u8>, PfError>) {
        match request {
            RequestView::GetStates => (self, Ok(table_bytes(self.states))),
            RequestView::BeginTransaction { anchor, kind } => self.begin(anchor, kind),
            RequestView::AddRule { ticket, rule } => self.add_rule(ticket, rule),
            RequestView::Commit { ticket } => self.commit(ticket),
            RequestView::Abort { ticket } => self.abort(ticket),
            RequestView::Flush { anchor, kind } => self.flush(anchor, kind),
            RequestView::AddAnchor { name, kind } => self.add_anchor(name, kind),
        }
    }
}

/// What `find` finds: the first ruleset of that anchor and kind, and the
/// length only where there is none.
pub proof fn lemma_find(rs: Seq<RulesetView>, anchor: Seq<char>, kind: RulesetKind)
    ensures
        0 <= find(rs, anchor, kind) <= rs.len(),
        find(rs, anchor, kind) < rs.len() ==> is_ruleset(rs[find(rs, anchor, kind)], anchor, kind),
        forall|j: int| 0 <= j < find(rs, anchor, kind) ==> !is_ruleset(#[trigger] rs[j], anchor, kind),
    decreases rs.len(),
{
    if rs.len() > 0 {
        lemma_find(rs.drop_last(), anchor, kind);
        let before = find(rs.drop_last(), anchor, kind);
        assert forall|j: int| 0 <= j < find(rs, anchor, kind) implies !is_ruleset(
            #[trigger] rs[j],
            anchor,
            kind,
        ) by {
            if j < rs.len() - 1 {
                assert(rs.drop_last()[j] == rs[j]);
            }
        }
        if before < rs.len() - 1 {
            assert(rs.drop_last()[before] == rs[before]);
        }
    }
}

/// What `find_ticket` finds: the first ruleset on which that ticket is
/// open, and the length only where there is none.
pub proof fn lemma_find_ticket(rs: Seq<RulesetView>, ticket: Ticket)
    ensures
        0 <= find_ticket(rs, ticket) <= rs.len(),
        find_ticket(rs, ticket) < rs.len() ==> rs[find_ticket(rs, ticket)].open == Some(ticket),
        forall|j: int| 0 <= j < find_ticket(rs, ticket) ==> (#[trigger] rs[j]).open != Some(ticket),
    decreases rs.len(),
{
    if rs.len() > 0 {
        lemma_find_ticket(rs.drop_last(), ticket);
        let before = find_ticket(rs.drop_last(), ticket);
        assert forall|j: int| 0 <= j < find_ticket(rs, ticket) implies (#[trigger] rs[j]).open
            != Some(ticket) by {
            if j < rs.len() - 1 {
                assert(rs.drop_last()[j] == rs[j]);
            }
        }
        if before < rs.len() - 1 {
            assert(rs.drop_last()[before] == rs[before]);
        }
    }
}

/// Where a ruleset of that anchor and kind stands at `i` and none stands
/// before it, `find` gives `i`.
pub proof fn lemma_find_is(rs: Seq<RulesetView>, anchor: Seq<char>, kind: RulesetKind, i: int)
    requires
        0 <= i <= rs.len(),
        i < rs.len() ==> is_ruleset(rs[i], anchor, kind),
        forall|j: int| 0 <= j < i ==> !is_ruleset(#[trigger] rs[j], anchor, kind),
    ensures
        find(rs, anchor, kind) == i,
{
    lemma_find(rs, anchor, kind);
    let f = find(rs, anchor, kind);
    if f < i {
        assert(!is_ruleset(rs[f], anchor, kind));
    }
}

/// Where `ticket` is open at `i` and nowhere before it, `find_ticket`
/// gives `i`.
pub proof fn lemma_find_ticket_is(rs: Seq<RulesetView>, ticket: Ticket, i: int)
    requires
        0 <= i <= rs.len(),
        i < rs.len() ==> rs[i].open == Some(ticket),
        forall|j: int| 0 <= j < i ==> (#[trigger] rs[j]).open != Some(ticket),
    ensures
        find_ticket(rs, ticket) == i,
{
    lemma_find_ticket(rs, ticket);
    let f = find_ticket(rs, ticket);
    if f < i {
        assert(rs[f].open != Some(ticket));
    }
}

/// Whether two rulesets are of the same anchor and kind.
pub open spec fn same_key(a: RulesetView, b: RulesetView) -> bool {
    a.anchor == b.anchor && a.kind == b.kind
}

/// Replacing a ruleset by one of the same anchor and kind moves no
/// ruleset: every anchor and kind is found where it was.
pub proof fn lemma_find_after_update(
    rs: Seq<RulesetView>,
    i: int,
    r: RulesetView,
    anchor: Seq<char>,
    kind: RulesetKind,
)
    requires
        0 <= i < rs.len(),
        same_key(r, rs[i]),
    ensures
        find(rs.update(i, r), anchor, kind) == find(rs, anchor, kind),
{
    lemma_find(rs, anchor, kind);
    let f = find(rs, anchor, kind);
    let rs2 = rs.update(i, r);
    assert forall|j: int| 0 <= j < f implies !is_ruleset(#[trigger] rs2[j], anchor, kind) by {
        assert(!is_ruleset(rs[j], anchor, kind));
    }
    lemma_find_is(rs2, anchor, kind, f);
}

/// Adding a ruleset at the end moves no ruleset that was there; the new
/// one is found at the end if its anchor and kind were not there before.
pub proof fn lemma_find_after_push(
    rs: Seq<RulesetView>,
    r: RulesetView,
    anchor: Seq<char>,
    kind: RulesetKind,
)
    ensures
        find(rs, anchor, kind) < rs.len() ==> find(rs.push(r), anchor, kind) == find(
            rs,
            anchor,
            kind,
        ),
        find(rs, anchor, kind) == rs.len() ==> find(rs.push(r), anchor, kind) == if is_ruleset(
            r,
            anchor,
            kind,
        ) {
            rs.len() as int
        } else {
            rs.len() as int + 1
        },
{
    lemma_find(rs, anchor, kind);
    assert(rs.push(r).drop_last() =~= rs);
}

/// Replacing a ruleset by one with the same ticket state moves no ticket.
pub proof fn lemma_find_ticket_after_update(
    rs: Seq<RulesetView>,
    i: int,
    r: RulesetView,
    ticket: Ticket,
)
    requires
        0 <= i < rs.len(),
        r.open == rs[i].open,
    ensures
        find_ticket(rs.update(i, r), ticket) == find_ticket(rs, ticket),
{
    lemma_find_ticket(rs, ticket);
    let f = find_ticket(rs, ticket);
    let rs2 = rs.update(i, r);
    assert forall|j: int| 0 <= j < f implies (#[trigger] rs2[j]).open != Some(ticket) by {
        assert(rs[j].open != Some(ticket));
    }
    lemma_find_ticket_is(rs2, ticket, f);
}

/// Whether the same rules are in force in `a` and in `b`, under every
/// anchor and for every kind.
pub open spec fn same_rules(a: ChannelView, b: ChannelView) -> bool {
    forall|anchor: Seq<char>, kind: RulesetKind| #[trigger]
        a.rules(anchor, kind) == b.rules(anchor, kind)
}

/// Whether the same rules are in force in `a` and in `b` everywhere but
/// in the ruleset of kind `kind` under `anchor`.
pub open spec fn same_rules_elsewhere(
    a: ChannelView,
    b: ChannelView,
    anchor: Seq<char>,
    kind: RulesetKind,
) -> bool {
    forall|other: Seq<char>, k: RulesetKind|
        other != anchor || k != kind ==> #[trigger] a.rules(other, k) == b.rules(other, k)
}

/// Replacing ruleset `i` changes the rules in force of that ruleset only,
/// to those of the replacement.
pub proof fn lemma_rules_after_update(c: ChannelView, i: int, r: RulesetView)
    requires
        c.wf(),
        0 <= i < c.rulesets.len(),
        same_key(r, c.rulesets[i]),
    ensures
        c.with_ruleset(i, r).rules(r.anchor, r.kind) == r.active,
        same_rules_elsewhere(c.with_ruleset(i, r), c, r.anchor, r.kind),
        r.active == c.rulesets[i].active ==> same_rules(c.with_ruleset(i, r), c),
{
    let c2 = c.with_ruleset(i, r);
    lemma_find(c.rulesets, r.anchor, r.kind);
    lemma_find_after_update(c.rulesets, i, r, r.anchor, r.kind);
    let f = find(c.rulesets, r.anchor, r.kind);
    if f < i {
        assert(is_ruleset(c.rulesets[f], c.rulesets[i].anchor, c.rulesets[i].kind));
    }
    assert(f == i);
    assert forall|other: Seq<char>, k: RulesetKind| other != r.anchor || k != r.kind implies #[trigger] c2.rules(
        other,
        k,
    ) == c.rules(other, k) by {
        lemma_find(c.rulesets, other, k);
        lemma_find_after_update(c.rulesets, i, r, other, k);
    }
    if r.active == c.rulesets[i].active {
        assert forall|other: Seq<char>, k: RulesetKind| #[trigger]
            c2.rules(other, k) == c.rules(other, k) by {
            lemma_find(c.rulesets, other, k);
            lemma_find_after_update(c.rulesets, i, r, other, k);
        }
    }
}

/// Adding a ruleset with no rule in force changes no rules in force.
pub proof fn lemma_rules_after_push(c: ChannelView, r: RulesetView)
    requires
        r.active == Seq::<Seq<u8>>::empty(),
    ensures
        same_rules(ChannelView { rulesets: c.rulesets.push(r), ..c }, c),
{
    let c2 = ChannelView { rulesets: c.rulesets.push(r), ..c };
    assert forall|other: Seq<char>, k: RulesetKind| #[trigger]
        c2.rules(other, k) == c.rules(other, k) by {
        lemma_find(c.rulesets, other, k);
        lemma_find_after_push(c.rulesets, r, other, k);
    }
}

/// Under the invariant of the channel an anchor has one ruleset of a kind
/// or none.
pub proof fn lemma_anchor_count(rs: Seq<RulesetView>, anchor: Seq<char>, kind: RulesetKind)
    requires
        forall|i: int, j: int|
            0 <= i < j < rs.len() ==> !is_ruleset(
                #[trigger] rs[i],
                (#[trigger] rs[j]).anchor,
                rs[j].kind,
            ),
    ensures
        anchor_count(rs, anchor, kind) == if find(rs, anchor, kind) < rs.len() {
            1nat
        } else {
            0nat
        },
    decreases rs.len(),
{
    if rs.len() > 0 {
        let front = rs.drop_last();
        assert forall|i: int, j: int| 0 <= i < j < front.len() implies !is_ruleset(
            #[trigger] front[i],
            (#[trigger] front[j]).anchor,
            front[j].kind,
        ) by {
            assert(front[i] == rs[i] && front[j] == rs[j]);
        }
        lemma_anchor_count(front, anchor, kind);
        lemma_find(front, anchor, kind);
        let f = find(front, anchor, kind);
        if f < front.len() && is_ruleset(rs.last(), anchor, kind) {
            assert(front[f] == rs[f]);
            assert(is_ruleset(rs[f], rs[rs.len() - 1].anchor, rs[rs.len() - 1].kind));
        }
    }
}

/// Creating an anchor is idempotent: asked twice for the same name and
/// kind, the channel's reply means success both times, there is exactly
/// one such anchor afterwards, the second request changes nothing, and
/// no rules in force change at all.
pub proof fn lemma_anchor_creation_idempotent(c: ChannelView, name: Seq<char>, kind: RulesetKind)
    requires
        c.wf(),
    ensures
        ({
            let (first, reply1) = c.add_anchor(name, kind);
            let (second, reply2) = first.add_anchor(name, kind);
            &&& spec_anchor_outcome(reply1) == Ok::<(), PfError>(())
            &&& spec_anchor_outcome(reply2) == Ok::<(), PfError>(())
            &&& second == first
            &&& second.wf()
            &&& anchor_count(second.rulesets, name, kind) == 1
            &&& same_rules(second, c)
        }),
{
    let (first, reply1) = c.add_anchor(name, kind);
    lemma_add_anchor_wf(c, name, kind);
    lemma_find(c.rulesets, name, kind);
    lemma_find_after_push(c.rulesets, empty_ruleset(name, kind), name, kind);
    lemma_anchor_count(first.rulesets, name, kind);
    if !c.has_anchor(name, kind) {
        lemma_rules_after_push(c, empty_ruleset(name, kind));
    }
}

/// Flushing empties the ruleset of that kind under that anchor and leaves
/// the rules of every other kind and every other anchor in force.
pub proof fn lemma_flush_touches_one_ruleset(c: ChannelView, anchor: Seq<char>, kind: RulesetKind)
    requires
        c.wf(),
    ensures
        c.flush(anchor, kind).1 == Ok::<Seq<u8>, PfError>(Seq::empty()),
        c.flush(anchor, kind).0.rules(anchor, kind) == Seq::<Seq<u8>>::empty(),
        same_rules_elsewhere(c.flush(anchor, kind).0, c, anchor, kind),
        c.flush(anchor, kind).0.wf(),
{
    lemma_find(c.rulesets, anchor, kind);
    let i = find(c.rulesets, anchor, kind);
    if i < c.rulesets.len() {
        lemma_rules_after_update(c, i, empty_ruleset(anchor, kind));
    }
}

/// Flushing is a transaction that commits no rule: where a ticket is
/// left, the same rules are in force after a flush as after a begin and
/// the commit of its ticket with nothing staged.
pub proof fn lemma_flush_is_empty_commit(c: ChannelView, anchor: Seq<char>, kind: RulesetKind)
    requires
        c.wf(),
        c.next_ticket != u32::MAX,
    ensures
        ({
            let ticket = Ticket { id: c.next_ticket };
            let begun = c.begin(anchor, kind).0;
            &&& begun.commit(ticket).1.is_ok()
            &&& same_rules(c.flush(anchor, kind).0, begun.commit(ticket).0)
        }),
{
    let ticket = Ticket { id: c.next_ticket };
    let begun = c.begin(anchor, kind).0;
    let flushed = c.flush(anchor, kind).0;
    lemma_begin_wf(c, anchor, kind);
    lemma_flush_touches_one_ruleset(c, anchor, kind);
    lemma_only_commit_changes_rules(c, RequestView::BeginTransaction { anchor, kind });
    lemma_find(c.rulesets, anchor, kind);
    let i = find(c.rulesets, anchor, kind);
    assert forall|j: int| 0 <= j < i && j < begun.rulesets.len() implies (
    #[trigger] begun.rulesets[j]).open != Some(ticket) by {
        assert(begun.rulesets[j] == c.rulesets[j]);
        if c.rulesets[j].open.is_some() {
            assert(c.rulesets[j].open.unwrap().id < c.next_ticket);
        }
    }
    lemma_find_ticket_is(begun.rulesets, ticket, i);
    lemma_commit_is_atomic(begun, ticket);
    let done = begun.commit(ticket).0;
    assert forall|a: Seq<char>, k: RulesetKind| #[trigger]
        flushed.rules(a, k) == done.rules(a, k) by {
        if a == anchor && k == kind {
            assert(done.rules(a, k) =~= Seq::<Seq<u8>>::empty());
        } else {
            assert(flushed.rules(a, k) == c.rules(a, k));
            assert(begun.rules(a, k) == c.rules(a, k));
            assert(done.rules(a, k) == begun.rules(a, k));
        }
    }
}

/// Only a commit changes rules in force: after any other request but a
/// flush, and after a commit that is refused, the same rules are in force
/// as before.
pub proof fn lemma_only_commit_changes_rules(c: ChannelView, request: RequestView)
    requires
        c.wf(),
        !(request is Flush),
        request is Commit ==> c.respond(request).1.is_err(),
    ensures
        same_rules(c.respond(request).0, c),
{
    match request {
        RequestView::BeginTransaction { anchor, kind } => {
            lemma_find(c.rulesets, anchor, kind);
            let i = find(c.rulesets, anchor, kind);
            if c.next_ticket != u32::MAX {
                let ticket = Ticket { id: c.next_ticket };
                if i < c.rulesets.len() {
                    let r = RulesetView {
                        pending: Seq::empty(),
                        open: Some(ticket),
                        ..c.rulesets[i]
                    };
                    lemma_rules_after_update(c, i, r);
                    let mid = c.with_ruleset(i, r);
                    assert forall|a: Seq<char>, k: RulesetKind| #[trigger]
                        c.respond(request).0.rules(a, k) == mid.rules(a, k) by {}
                } else {
                    let r = RulesetView { open: Some(ticket), ..empty_ruleset(anchor, kind) };
                    lemma_rules_after_push(c, r);
                    let mid = ChannelView { rulesets: c.rulesets.push(r), ..c };
                    assert forall|a: Seq<char>, k: RulesetKind| #[trigger]
                        c.respond(request).0.rules(a, k) == mid.rules(a, k) by {}
                }
            }
        },
        RequestView::AddRule { ticket, rule } => {
            lemma_find_ticket(c.rulesets, ticket);
            let i = find_ticket(c.rulesets, ticket);
            if i < c.rulesets.len() && rule.len() == RULE_LEN {
                lemma_rules_after_update(
                    c,
                    i,
                    RulesetView { pending: c.rulesets[i].pending.push(rule), ..c.rulesets[i] },
                );
            }
        },
        RequestView::Abort { ticket } => {
            lemma_find_ticket(c.rulesets, ticket);
            let i = find_ticket(c.rulesets, ticket);
            if i < c.rulesets.len() {
                lemma_rules_after_update(
                    c,
                    i,
                    RulesetView { pending: Seq::empty(), open: None, ..c.rulesets[i] },
                );
            }
        },
        RequestView::AddAnchor { name, kind } => {
            if !c.has_anchor(name, kind) {
                lemma_rules_after_push(c, empty_ruleset(name, kind));
            }
        },
        _ => {},
    }
}

/// A commit that is accepted puts the pending set of its ticket in force
/// in the ruleset of that ticket, whole, and changes no other ruleset.
pub proof fn lemma_commit_is_atomic(c: ChannelView, ticket: Ticket)
    requires
        c.wf(),
        c.commit(ticket).1.is_ok(),
    ensures
        ({
            let i = find_ticket(c.rulesets, ticket);
            let r = c.rulesets[i];
            &&& 0 <= i < c.rulesets.len()
            &&& r.open == Some(ticket)
            &&& c.commit(ticket).0.rules(r.anchor, r.kind) == r.pending
            &&& same_rules_elsewhere(c.commit(ticket).0, c, r.anchor, r.kind)
        }),
{
    lemma_find_ticket(c.rulesets, ticket);
    let i = find_ticket(c.rulesets, ticket);
    let r = c.rulesets[i];
    lemma_rules_after_update(
        c,
        i,
        RulesetView { active: r.pending, pending: Seq::empty(), open: None, ..r },
    );
}

/// Begin keeps the channel well-formed.
pub proof fn lemma_begin_wf(c: ChannelView, anchor: Seq<char>, kind: RulesetKind)
    requires
        c.wf(),
    ensures
        c.begin(anchor, kind).0.wf(),
{
    lemma_find(c.rulesets, anchor, kind);
}

/// AddAnchor keeps the channel well-formed.
pub proof fn lemma_add_anchor_wf(c: ChannelView, name: Seq<char>, kind: RulesetKind)
    requires
        c.wf(),
    ensures
        c.add_anchor(name, kind).0.wf(),
{
    lemma_find(c.rulesets, name, kind);
}

/// Every request keeps the channel well-formed.
pub proof fn lemma_respond_wf(c: ChannelView, request: RequestView)
    requires
        c.wf(),
    ensures
        c.respond(request).0.wf(),
{
    match request {
        RequestView::GetStates => {},
        RequestView::BeginTransaction { anchor, kind } => {
            lemma_begin_wf(c, anchor, kind);
        },
        RequestView::AddRule { ticket, rule } => {
            lemma_find_ticket(c.rulesets, ticket);
        },
        RequestView::Commit { ticket } => {
            lemma_find_ticket(c.rulesets, ticket);
        },
        RequestView::Abort { ticket } => {
            lemma_find_ticket(c.rulesets, ticket);
        },
        RequestView::Flush { anchor, kind } => {
            lemma_find(c.rulesets, anchor, kind);
        },
        RequestView::AddAnchor { name, kind } => {
            lemma_add_anchor_wf(c, name, kind);
        },
    }
}

/// Whether every rule has the size of an encoded rule.
pub open spec fn all_valid(rules: Seq<Seq<u8>>) -> bool {
    forall|k: int| 0 <= k < rules.len() ==> (#[trigger] rules[k]).len() == RULE_LEN
}

/// What installing `rules` as the ruleset of kind `kind` under `anchor`
/// does to a channel, in one transaction. `before` and `after` are the
/// channel before and after, `action` the answer that ended the
/// transaction.
///
/// The transaction commits if and only if a ticket is left and every rule
/// has the size of an encoded rule. Then exactly its rules are in force in
/// its ruleset, in their order, and every other ruleset is as it was. Else
/// it fails, with `EBUSY` where no ticket is left and with `EINVAL`
/// otherwise, and every ruleset is as it was.
pub open spec fn installed(
    before: ChannelView,
    after: ChannelView,
    anchor: Seq<char>,
    kind: RulesetKind,
    rules: Seq<Seq<u8>>,
    action: ActionView,
) -> bool {
    if before.next_ticket != u32::MAX && all_valid(rules) {
        &&& action == ActionView::Committed(rules.len())
        &&& after.rules(anchor, kind) == rules
        &&& same_rules_elsewhere(after, before, anchor, kind)
    } else {
        &&& action == ActionView::Failed(
            PfError::KernelRejected(
                if before.next_ticket == u32::MAX {
                    EBUSY
                } else {
                    EINVAL
                },
            ),
        )
        &&& same_rules(after, before)
    }
}

/// What holds between a channel and the one transaction that runs on it,
/// from the first request to the last reply. `before` is the channel and
/// `began` the transaction when the run began.
pub open spec fn running(before: ChannelView, began: TxView, c: ChannelView, tx: TxView) -> bool {
    &&& c.wf()
    &&& tx.wf()
    &&& tx.anchor == began.anchor
    &&& tx.kind == began.kind
    &&& tx.rules == began.rules
    &&& tx.awaiting != Awaiting::Nothing
    &&& same_rules(c, before)
    &&& forall|k: int| 0 <= k < tx.staged ==> (#[trigger] tx.rules[k]).len() == RULE_LEN
    &&& tx.awaiting == Awaiting::Ticket ==> c == before
    &&& tx.awaiting != Awaiting::Ticket ==> before.next_ticket != u32::MAX
    &&& tx.awaiting == Awaiting::AbortAck ==> tx.failure == Some(PfError::KernelRejected(EINVAL))
        && !all_valid(tx.rules)
    &&& tx.live() ==> {
        let i = find_ticket(c.rulesets, tx.ticket);
        &&& 0 <= i < c.rulesets.len()
        &&& is_ruleset(c.rulesets[i], tx.anchor, tx.kind)
        &&& c.rulesets[i].pending == tx.rules.take(tx.staged as int)
    }
}

/// One round of a run: the channel answers the request that is out and
/// the transaction reads the reply. Either the run goes on as before, or
/// it has ended as `installed` says.
pub proof fn lemma_run_step(before: ChannelView, began: TxView, c: ChannelView, tx: TxView)
    requires
        running(before, began, c, tx),
    ensures
        ({
            let (c2, reply) = c.respond(tx.request_out().unwrap());
            let (tx2, action) = tx.on_reply(reply);
            &&& c2.wf()
            &&& tx2.wf()
            &&& tx2.rules == began.rules
            &&& action is Send ==> running(before, began, c2, tx2)
            &&& !(action is Send) ==> installed(
                before,
                c2,
                began.anchor,
                began.kind,
                began.rules,
                action,
            ) && tx2.finished()
        }),
{
    let request = tx.request_out().unwrap();
    let (c2, reply) = c.respond(request);
    let (tx2, action) = tx.on_reply(reply);
    lemma_respond_wf(c, request);
    lemma_sends_request_out(tx, reply);
    match tx.awaiting {
        Awaiting::Nothing => {},
        Awaiting::Ticket => {
            lemma_only_commit_changes_rules(c, request);
            if c.next_ticket != u32::MAX {
                let ticket = Ticket { id: c.next_ticket };
                lemma_radix_pow_values();
                lemma_be_bytes_len(ticket.id as nat, 4);
                lemma_be_value_of_bytes(ticket.id as nat, 4);
                assert(field(be_bytes(ticket.id as nat, 4), 0, 4) =~= be_bytes(ticket.id as nat, 4));
                assert(spec_decode_ticket(reply.unwrap()) == Ok::<Ticket, PfError>(ticket));
                lemma_find(c.rulesets, tx.anchor, tx.kind);
                let i = find(c.rulesets, tx.anchor, tx.kind);
                assert forall|j: int| 0 <= j < i && j < c2.rulesets.len() implies (
                #[trigger] c2.rulesets[j]).open != Some(ticket) by {
                    assert(c2.rulesets[j] == c.rulesets[j]);
                    if c.rulesets[j].open.is_some() {
                        assert(c.rulesets[j].open.unwrap().id < c.next_ticket);
                    }
                }
                lemma_find_ticket_is(c2.rulesets, ticket, i);
                assert(c2.rulesets[i].pending =~= tx.rules.take(0));
            }
        },
        Awaiting::RuleAck => {
            lemma_only_commit_changes_rules(c, request);
            let i = find_ticket(c.rulesets, tx.ticket);
            let rule = tx.rules[tx.staged as int];
            if rule.len() == RULE_LEN {
                let r = RulesetView { pending: c.rulesets[i].pending.push(rule), ..c.rulesets[i] };
                lemma_find_ticket_after_update(c.rulesets, i, r, tx.ticket);
                assert(r.pending =~= tx.rules.take(tx.staged as int + 1));
            }
        },
        Awaiting::CommitAck => {
            lemma_find_ticket(c.rulesets, tx.ticket);
            lemma_commit_is_atomic(c, tx.ticket);
            assert(tx.rules.take(tx.staged as int) =~= tx.rules);
            assert forall|other: Seq<char>, k: RulesetKind|
                other != tx.anchor || k != tx.kind implies #[trigger] c2.rules(other, k)
                == before.rules(other, k) by {
                assert(c2.rules(other, k) == c.rules(other, k));
                assert(c.rules(other, k) == before.rules(other, k));
            }
        },
        Awaiting::AbortAck => {
            lemma_only_commit_changes_rules(c, request);
        },
    }
    if !(action is Send) && tx.awaiting != Awaiting::CommitAck {
        assert forall|a: Seq<char>, k: RulesetKind| #[trigger]
            c2.rules(a, k) == before.rules(a, k) by {
            assert(c2.rules(a, k) == c.rules(a, k));
            assert(c.rules(a, k) == before.rules(a, k));
        }
    }
    if action is Send {
        assert forall|a: Seq<char>, k: RulesetKind| #[trigger]
            c2.rules(a, k) == before.rules(a, k) by {
            assert(c2.rules(a, k) == c.rules(a, k));
            assert(c.rules(a, k) == before.rules(a, k));
        }
    }
}

/// A copy of a list of encoded rules.
pub fn copy_rules(rules: &Vec<Vec<u8>>) -> (out: Vec<Vec<u8>>)
    ensures
        rules_view(out@) == rules_view(rules@),
{
    let mut out: Vec<Vec<u8>> = Vec::new();
    let mut i: usize = 0;
    while i < rules.len()
        invariant
            i <= rules@.len(),
            out@.len() == i,
            forall|k: int| 0 <= k < i ==> (#[trigger] out@[k])@ == rules@[k]@,
        decreases rules@.len() - i,
    {
        out.push(copy_bytes(&rules[i]));
        i = i + 1;
    }
    proof {
        assert(rules_view(out@) =~= rules_view(rules@));
    }
    out
}

impl MemoryChannel {
    /// A channel without any ruleset.
    pub fn new() -> (c: MemoryChannel)
        ensures
            c@.rulesets.len() == 0,
            c@.next_ticket == 1,
            c@.states.len() == 0,
            c@.wf(),
    {
        MemoryChannel { rulesets: Vec::new(), next_ticket: 1, states: Vec::new() }
    }

    /// The index of the ruleset of kind `kind` under `anchor`; the number
    /// of rulesets where there is none.
    fn position(&self, anchor: &String, kind: RulesetKind) -> (i: usize)
        ensures
            i == find(self@.rulesets, anchor@, kind),
            i <= self.rulesets@.len(),
    {
        let mut i: usize = 0;
        while i < self.rulesets.len()
            invariant
                i <= self.rulesets@.len(),
                forall|j: int| 0 <= j < i ==> !is_ruleset(#[trigger] self@.rulesets[j], anchor@, kind),
            decreases self.rulesets@.len() - i,
        {
            if self.rulesets[i].anchor == *anchor && self.rulesets[i].kind == kind {
                proof {
                    lemma_find_is(self@.rulesets, anchor@, kind, i as int);
                }
                return i;
            }
            i = i + 1;
        }
        proof {
            lemma_find_is(self@.rulesets, anchor@, kind, i as int);
        }
        i
    }

    /// The index of the ruleset on which `ticket` is open; the number of
    /// rulesets where there is none.
    fn ticket_position(&self, ticket: Ticket) -> (i: usize)
        ensures
            i == find_ticket(self@.rulesets, ticket),
            i <= self.rulesets@.len(),
    {
        let mut i: usize = 0;
        while i < self.rulesets.len()
            invariant
                i <= self.rulesets@.len(),
                forall|j: int| 0 <= j < i ==> (#[trigger] self@.rulesets[j]).open != Some(ticket),
            decreases self.rulesets@.len() - i,
        {
            let here = match self.rulesets[i].open {
                Some(t) => t.id == ticket.id,
                None => false,
            };
            if here {
                proof {
                    lemma_find_ticket_is(self@.rulesets, ticket, i as int);
                }
                return i;
            }
            i = i + 1;
        }
        proof {
            lemma_find_ticket_is(self@.rulesets, ticket, i as int);
        }
        i
    }

    /// Puts `r` in the place of ruleset `i` and hands out the ruleset that
    /// was there.
    fn exchange(&mut self, i: usize, r: Ruleset) -> (was: Ruleset)
        requires
            i < old(self).rulesets@.len(),
        ensures
            was == old(self).rulesets@[i as int],
            final(self).rulesets@ == old(self).rulesets@.update(i as int, r),
            final(self).next_ticket == old(self).next_ticket,
            final(self)@ == old(self)@.with_ruleset(i as int, r@),
    {
        self.rulesets.push(r);
        let was = self.rulesets.swap_remove(i);
        proof {
            assert(self.rulesets@ =~= old(self).rulesets@.update(i as int, r));
            assert(self@.rulesets =~= old(self)@.rulesets.update(i as int, r@));
        }
        was
    }

    /// Revises ruleset `i`: its rules in force stay or give way to the
    /// pending set, a rule may join the pending set or the pending set is
    /// emptied, and the ticket is set.
    fn revise(&mut self, i: usize, promote: bool, stage: Option<Vec<u8>>, open: Option<Ticket>)
        requires
            i < old(self).rulesets@.len(),
            promote ==> stage is None,
        ensures
            final(self)@ == old(self)@.with_ruleset(
                i as int,
                RulesetView {
                    active: if promote {
                        old(self)@.rulesets[i as int].pending
                    } else {
                        old(self)@.rulesets[i as int].active
                    },
                    pending: match stage {
                        Some(rule) => old(self)@.rulesets[i as int].pending.push(rule@),
                        None => Seq::empty(),
                    },
                    open,
                    ..old(self)@.rulesets[i as int]
                },
            ),
    {
        let kind = self.rulesets[i].kind;
        let blank = Ruleset {
            anchor: String::new(),
            kind,
            active: Vec::new(),
            pending: Vec::new(),
            open: None,
        };
        let was = self.exchange(i, blank);
        let Ruleset { anchor, kind, active, pending, open: _ } = was;
        let ghost staged = rules_view(pending@);
        let (active, pending) = match stage {
            Some(rule) => {
                let mut pending = pending;
                pending.push(rule);
                proof {
                    assert(rules_view(pending@) =~= staged.push(rule@));
                }
                (active, pending)
            },
            None => {
                let empty: Vec<Vec<u8>> = Vec::new();
                proof {
                    assert(rules_view(empty@) =~= Seq::<Seq<u8>>::empty());
                }
                if promote {
                    (pending, empty)
                } else {
                    (active, empty)
                }
            },
        };
        let now = Ruleset { anchor, kind, active, pending, open };
        let _ = self.exchange(i, now);
        proof {
            assert(final(self)@.rulesets =~= old(self)@.rulesets.update(i as int, now@));
        }
    }

    /// Adds an empty ruleset of kind `kind` under `anchor`, with `open` as
    /// its ticket.
    fn append(&mut self, anchor: String, kind: RulesetKind, open: Option<Ticket>)
        ensures
            final(self)@ == (ChannelView {
                rulesets: old(self)@.rulesets.push(
                    RulesetView { open, ..empty_ruleset(anchor@, kind) },
                ),
                ..old(self)@
            }),
    {
        let fresh = Ruleset { anchor, kind, active: Vec::new(), pending: Vec::new(), open };
        proof {
            assert(rules_view(fresh.active@) =~= Seq::<Seq<u8>>::empty());
            assert(rules_view(fresh.pending@) =~= Seq::<Seq<u8>>::empty());
        }
        self.rulesets.push(fresh);
        proof {
            assert(final(self)@.rulesets =~= old(self)@.rulesets.push(fresh@));
        }
    }

    /// Opens a transaction.
    fn begin(&mut self, anchor: String, kind: RulesetKind) -> (reply: Result<Vec<u8>, PfError>)
        ensures
            (final(self)@, reply_view(reply)) == old(self)@.begin(anchor@, kind),
    {
        if self.next_ticket == u32::MAX {
            return Err(PfError::KernelRejected(EBUSY));
        }
        let ticket = Ticket { id: self.next_ticket };
        let i = self.position(&anchor, kind);
        if i < self.rulesets.len() {
            self.revise(i, false, None, Some(ticket));
        } else {
            self.append(anchor, kind, Some(ticket));
        }
        self.next_ticket = self.next_ticket + 1;
        Ok(encode_ticket(ticket))
    }

    /// Stages a rule.
    fn add_rule(&mut self, ticket: Ticket, rule: Vec<u8>) -> (reply: Result<Vec<u8>, PfError>)
        ensures
            (final(self)@, reply_view(reply)) == old(self)@.add_rule(ticket, rule@),
    {
        let i = self.ticket_position(ticket);
        if i >= self.rulesets.len() {
            Err(PfError::KernelRejected(EBUSY))
        } else if rule.len() != RULE_LEN {
            Err(PfError::KernelRejected(EINVAL))
        } else {
            proof {
                lemma_find_ticket(self@.rulesets, ticket);
            }
            self.revise(i, false, Some(rule), Some(ticket));
            Ok(Vec::new())
        }
    }

    /// Commits the pending set of a ticket.
    fn commit(&mut self, ticket: Ticket) -> (reply: Result<Vec<u8>, PfError>)
        ensures
            (final(self)@, reply_view(reply)) == old(self)@.commit(ticket),
    {
        let i = self.ticket_position(ticket);
        if i >= self.rulesets.len() {
            Err(PfError::KernelRejected(EBUSY))
        } else {
            self.revise(i, true, None, None);
            Ok(Vec::new())
        }
    }

    /// Discards the pending set of a ticket.
    fn abort(&mut self, ticket: Ticket) -> (reply: Result<Vec<u8>, PfError>)
        ensures
            (final(self)@, reply_view(reply)) == old(self)@.abort(ticket),
    {
        let i = self.ticket_position(ticket);
        if i < self.rulesets.len() {
            self.revise(i, false, None, None);
        }
        Ok(Vec::new())
    }

    /// Empties a ruleset.
    fn flush(&mut self, anchor: String, kind: RulesetKind) -> (reply: Result<Vec<u8>, PfError>)
        ensures
            (final(self)@, reply_view(reply)) == old(self)@.flush(anchor@, kind),
    {
        let i = self.position(&anchor, kind);
        if i < self.rulesets.len() {
            let fresh = Ruleset {
                anchor,
                kind,
                active: Vec::new(),
                pending: Vec::new(),
                open: None,
            };
            proof {
                assert(rules_view(fresh.active@) =~= Seq::<Seq<u8>>::empty());
                assert(rules_view(fresh.pending@) =~= Seq::<Seq<u8>>::empty());
            }
            let _ = self.exchange(i, fresh);
        }
        Ok(Vec::new())
    }

    /// Creates an anchor.
    fn add_anchor(&mut self, name: String, kind: RulesetKind) -> (reply: Result<Vec<u8>, PfError>)
        ensures
            (final(self)@, reply_view(reply)) == old(self)@.add_anchor(name@, kind),
    {
        let i = self.position(&name, kind);
        if i < self.rulesets.len() {
            Err(PfError::KernelRejected(EEXIST))
        } else {
            self.append(name, kind, None);
            Ok(Vec::new())
        }
    }

    /// Answers one request.
    pub fn request(&mut self, request: RequestKind) -> (reply: Result<Vec<u8>, PfError>)
        requires
            old(self)@.wf(),
        ensures
            (final(self)@, reply_view(reply)) == old(self)@.respond(request@),
            final(self)@.wf(),
    {
        proof {
            lemma_respond_wf(self@, request@);
        }
        match request {
            RequestKind::GetStates => Ok(encode_state_table(&self.states)),
            RequestKind::BeginTransaction { anchor, kind } => self.begin(anchor, kind),
            RequestKind::AddRule { ticket, rule } => self.add_rule(ticket, rule),
            RequestKind::Commit { ticket } => self.commit(ticket),
            RequestKind::Abort { ticket } => self.abort(ticket),
            RequestKind::Flush { anchor, kind } => self.flush(anchor, kind),
            RequestKind::AddAnchor { name, kind } => self.add_anchor(name, kind),
        }
    }

    /// Runs a transaction to its end: performs each request that the
    /// transaction asks for and hands it each reply. A transaction that
    /// has begun before, or is over, is answered with `InvalidTicket` and
    /// nothing is sent.
    pub fn run(&mut self, tx: &mut Transaction) -> (action: Action)
        requires
            old(self)@.wf(),
            old(tx)@.wf(),
        ensures
            final(self)@.wf(),
            final(tx)@.wf(),
            final(tx)@.rules == old(tx)@.rules,
            old(tx)@.fresh() ==> final(tx)@.finished() && installed(
                old(self)@,
                final(self)@,
                old(tx)@.anchor,
                old(tx)@.kind,
                old(tx)@.rules,
                action@,
            ),
            !old(tx)@.fresh() ==> action == Action::Failed(PfError::InvalidTicket) && final(self)@
                == old(self)@ && final(tx)@ == old(tx)@,
    {
        let ghost before = self@;
        let ghost began = tx@;
        let mut request = match tx.start() {
            Action::Send(first) => first,
            other => {
                return other;
            },
        };
        loop
            invariant
                before == old(self)@,
                began == old(tx)@,
                began.fresh(),
                running(before, began, self@, tx@),
                Some(request@) == tx@.request_out(),
            decreases tx@.steps_left(),
        {
            let ghost c = self@;
            let ghost t = tx@;
            proof {
                lemma_run_step(before, began, c, t);
            }
            let reply = self.request(request);
            let ghost answer = reply_view(reply);
            proof {
                assert((self@, answer) == c.respond(t.request_out().unwrap()));
                lemma_sends_request_out(t, answer);
            }
            let action = tx.on_reply(reply);
            proof {
                assert((tx@, action@) == t.on_reply(answer));
            }
            match action {
                Action::Send(next) => {
                    request = next;
                },
                other => {
                    return other;
                },
            }
        }
    }

    /// Puts `rules` in force as the ruleset of kind `kind` under `anchor`,
    /// in one transaction, and says how many rules are in force there
    /// afterwards.
    pub fn install(&mut self, anchor: &str, kind: RulesetKind, rules: Vec<Vec<u8>>) -> (r: Result<
        usize,
        PfError,
    >)
        requires
            old(self)@.wf(),
        ensures
            final(self)@.wf(),
            installed(
                old(self)@,
                final(self)@,
                anchor@,
                kind,
                rules_view(rules@),
                match r {
                    Ok(n) => ActionView::Committed(n as nat),
                    Err(e) => ActionView::Failed(e),
                },
            ),
    {
        let mut tx = Transaction::new(String::from_str(anchor), kind, rules);
        proof {
            assert(tx@.rules =~= rules_view(rules@));
        }
        match self.run(&mut tx) {
            Action::Committed(n) => Ok(n),
            Action::Failed(e) => Err(e),
            _ => Err(PfError::InvalidTicket),
        }
    }

    /// Puts the one encoded rule `bytes` in force.
    fn install_one(&mut self, anchor: &str, kind: RulesetKind, bytes: Vec<u8>) -> (r: Result<
        (),
        PfError,
    >)
        requires
            old(self)@.wf(),
            bytes@.len() == RULE_LEN,
        ensures
            final(self)@.wf(),
            old(self)@.next_ticket != u32::MAX ==> {
                &&& r == Ok::<(), PfError>(())
                &&& final(self)@.rules(anchor@, kind) == seq![bytes@]
                &&& same_rules_elsewhere(final(self)@, old(self)@, anchor@, kind)
            },
            old(self)@.next_ticket == u32::MAX ==> {
                &&& r == Err::<(), PfError>(PfError::KernelRejected(EBUSY))
                &&& same_rules(final(self)@, old(self)@)
            },
    {
        let mut rules: Vec<Vec<u8>> = Vec::new();
        rules.push(bytes);
        proof {
            assert(rules_view(rules@) =~= seq![bytes@]);
            assert(all_valid(rules_view(rules@)));
        }
        match self.install(anchor, kind, rules) {
            Ok(_) => Ok(()),
            Err(e) => Err(e),
        }
    }

    /// Puts the translation rule `rule` in force as the translation
    /// ruleset under `anchor`, in one transaction. A rule that is not
    /// valid is refused as malformed before anything is sent.
    pub fn add_nat_rule(&mut self, anchor: &str, rule: &NatRule) -> (r: Result<(), PfError>)
        requires
            old(self)@.wf(),
        ensures
            final(self)@.wf(),
            !rule@.valid() ==> r == Err::<(), PfError>(PfError::MalformedRecord) && final(self)@
                == old(self)@,
            rule@.valid() && old(self)@.next_ticket != u32::MAX ==> {
                &&& r == Ok::<(), PfError>(())
                &&& final(self)@.rules(anchor@, RulesetKind::Nat) == seq![rule@.bytes()]
                &&& same_rules_elsewhere(final(self)@, old(self)@, anchor@, RulesetKind::Nat)
            },
            rule@.valid() && old(self)@.next_ticket == u32::MAX ==> {
                &&& r == Err::<(), PfError>(PfError::KernelRejected(EBUSY))
                &&& same_rules(final(self)@, old(self)@)
            },
    {
        match encode_nat_rule(rule) {
            Err(e) => Err(e),
            Ok(bytes) => self.install_one(anchor, RulesetKind::Nat, bytes),
        }
    }

    /// Puts the filter rule `rule` in force as the filter ruleset under
    /// `anchor`, in one transaction. A rule that is not valid is refused
    /// as malformed before anything is sent.
    pub fn add_filter_rule(&mut self, anchor: &str, rule: &Rule) -> (r: Result<(), PfError>)
        requires
            old(self)@.wf(),
        ensures
            final(self)@.wf(),
            !rule@.valid() ==> r == Err::<(), PfError>(PfError::MalformedRecord) && final(self)@
                == old(self)@,
            rule@.valid() && old(self)@.next_ticket != u32::MAX ==> {
                &&& r == Ok::<(), PfError>(())
                &&& final(self)@.rules(anchor@, RulesetKind::Filter) == seq![rule@.bytes()]
                &&& same_rules_elsewhere(final(self)@, old(self)@, anchor@, RulesetKind::Filter)
            },
            rule@.valid() && old(self)@.next_ticket == u32::MAX ==> {
                &&& r == Err::<(), PfError>(PfError::KernelRejected(EBUSY))
                &&& same_rules(final(self)@, old(self)@)
            },
    {
        match encode_rule(rule) {
            Err(e) => Err(e),
            Ok(bytes) => self.install_one(anchor, RulesetKind::Filter, bytes),
        }
    }

    /// Creates the anchor `name` for rules of kind `kind`. An anchor that
    /// is there already is success, and nothing changes.
    pub fn try_add_anchor(&mut self, name: &str, kind: RulesetKind) -> (r: Result<(), PfError>)
        requires
            old(self)@.wf(),
        ensures
            r == Ok::<(), PfError>(()),
            final(self)@ == old(self)@.add_anchor(name@, kind).0,
            final(self)@.wf(),
            final(self)@.has_anchor(name@, kind),
            anchor_count(final(self)@.rulesets, name@, kind) == 1,
            same_rules(final(self)@, old(self)@),
            old(self)@.has_anchor(name@, kind) ==> final(self)@ == old(self)@,
    {
        proof {
            lemma_anchor_creation_idempotent(self@, name@, kind);
            lemma_find(self@.rulesets, name@, kind);
            lemma_find_after_push(self@.rulesets, empty_ruleset(name@, kind), name@, kind);
            lemma_only_commit_changes_rules(
                self@,
                RequestView::AddAnchor { name: name@, kind },
            );
        }
        let reply = self.request(RequestKind::AddAnchor { name: String::from_str(name), kind });
        proof {
            lemma_anchor_count(self@.rulesets, name@, kind);
        }
        anchor_outcome(reply)
    }

    /// Clears the rules of kind `kind` under `anchor`. The rules of other
    /// kinds under that anchor, and those of other anchors, stay in force.
    pub fn flush_rules(&mut self, anchor: &str, kind: RulesetKind) -> (r: Result<(), PfError>)
        requires
            old(self)@.wf(),
        ensures
            r == Ok::<(), PfError>(()),
            final(self)@ == old(self)@.flush(anchor@, kind).0,
            final(self)@.wf(),
            final(self)@.rules(anchor@, kind) == Seq::<Seq<u8>>::empty(),
            same_rules_elsewhere(final(self)@, old(self)@, anchor@, kind),
    {
        proof {
            lemma_flush_touches_one_ruleset(self@, anchor@, kind);
        }
        match self.request(RequestKind::Flush { anchor: String::from_str(anchor), kind }) {
            Ok(_) => Ok(()),
            Err(e) => Err(e),
        }
    }

    /// Adds the raw record of a flow to those that the channel reports. A
    /// record that has not the size of a state record is refused as
    /// malformed, and so is one more than a table can count.
    pub fn track(&mut self, record: Vec<u8>) -> (r: Result<(), PfError>)
        requires
            old(self)@.wf(),
        ensures
            final(self)@.wf(),
            record@.len() == STATE_LEN && old(self)@.states.len() < u32::MAX ==> r == Ok::<
                (),
                PfError,
            >(()) && final(self)@ == (ChannelView {
                states: old(self)@.states.push(record@),
                ..old(self)@
            }),
            !(record@.len() == STATE_LEN && old(self)@.states.len() < u32::MAX) ==> r == Err::<
                (),
                PfError,
            >(PfError::MalformedRecord) && final(self)@ == old(self)@,
    {
        if record.len() != STATE_LEN || self.states.len() >= 0xffff_ffff {
            return Err(PfError::MalformedRecord);
        }
        self.states.push(record);
        proof {
            assert(final(self)@.states =~= old(self)@.states.push(record@));
        }
        Ok(())
    }

    /// The table of tracked flows: one outcome for each record that the
    /// channel holds, in order. A record that does not decode is reported
    /// in its place.
    pub fn get_states(&mut self) -> (r: Result<Vec<Result<StateEntry, PfError>>, PfError>)
        requires
            old(self)@.wf(),
        ensures
            final(self)@ == old(self)@,
            r.is_ok(),
            table_view(r.unwrap()@) == Seq::new(
                old(self)@.states.len(),
                |i: int| spec_decode_state_entry(old(self)@.states[i]),
            ),
    {
        proof {
            lemma_state_table_round_trip(self@.states);
        }
        match self.request(RequestKind::GetStates) {
            Ok(table) => decode_state_table(table.as_slice()),
            Err(e) => Err(e),
        }
    }

    /// Whether there is a ruleset of kind `kind` under `anchor`.
    pub fn has_anchor(&self, anchor: &str, kind: RulesetKind) -> (b: bool)
        ensures
            b == self@.has_anchor(anchor@, kind),
    {
        let name = String::from_str(anchor);
        self.position(&name, kind) < self.rulesets.len()
    }

    /// How many rules of kind `kind` are in force under `anchor`.
    pub fn rule_count(&self, anchor: &str, kind: RulesetKind) -> (n: usize)
        ensures
            n == self@.rules(anchor@, kind).len(),
    {
        let name = String::from_str(anchor);
        let i = self.position(&name, kind);
        if i < self.rulesets.len() {
            self.rulesets[i].active.len()
        } else {
            0
        }
    }

    /// The rules of kind `kind` in force under `anchor`, in order.
    pub fn rules(&self, anchor: &str, kind: RulesetKind) -> (out: Vec<Vec<u8>>)
        ensures
            rules_view(out@) == self@.rules(anchor@, kind),
    {
        let name = String::from_str(anchor);
        let i = self.position(&name, kind);
        if i < self.rulesets.len() {
            copy_rules(&self.rulesets[i].active)
        } else {
            let out: Vec<Vec<u8>> = Vec::new();
            proof {
                assert(rules_view(out@) =~= Seq::<Seq<u8>>::empty());
            }
            out
        }
    }
}

} // verus!
