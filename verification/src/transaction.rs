//! The transaction that replaces one ruleset of an anchor.
//!
//! A transaction goes from `Idle` over `TicketAcquired` and `RuleStaged`
//! to `Committed` or `Aborted`. It decides which request comes next and
//! reads each reply; performing the request is the caller's part. The
//! caller hands every reply to `on_reply` and acts on what comes back until
//! the transaction is finished.
//!
//! The validity of the ticket is tracked here as well as in the kernel: a
//! transaction that is finished answers every further use with
//! `InvalidTicket`, whatever the kernel would have said.

use crate::channel::{
    copy_bytes, decode_ticket, reply_view, spec_decode_ticket, RequestKind, RequestView,
    RulesetKind, Ticket,
};
use crate::error::PfError;
use vstd::prelude::*;

verus! {

/// Where a transaction stands.
#[derive(Clone, Copy, Debug, PartialEq, Eq, Structural)]
pub enum TxState {
    /// No ticket yet.
    Idle,
    /// The kernel issued a ticket; nothing is staged.
    TicketAcquired,
    /// At least one rule is in the pending set.
    RuleStaged,
    /// The pending set became the active ruleset.
    Committed,
    /// The pending set was discarded; the active ruleset is as it was.
    Aborted,
}

/// The reply that a transaction waits for.
#[derive(Clone, Copy, Debug, PartialEq, Eq, Structural)]
pub enum Awaiting {
    /// No request is out.
    Nothing,
    /// The reply to `BeginTransaction`.
    Ticket,
    /// The reply to `AddRule`.
    RuleAck,
    /// The reply to `Commit`.
    CommitAck,
    /// The reply to `Abort`.
    AbortAck,
}

/// What the caller does next.
#[derive(Clone, Debug, PartialEq, Eq)]
pub enum Action {
    /// Perform this request and hand its reply to `on_reply`.
    Send(RequestKind),
    /// Finished: the ruleset now holds this many rules, the staged ones.
    Committed(usize),
    /// Finished by the caller's abort: the ruleset is as it was.
    Aborted,
    /// Finished with a failure: the ruleset is as it was.
    Failed(PfError),
}

/// What an action holds, as a mathematical value.
pub enum ActionView {
    Send(RequestView),
    Committed(nat),
    Aborted,
    Failed(PfError),
}

impl View for Action {
    type V = ActionView;

    open spec fn view(&self) -> ActionView {
        match self {
            Action::Send(request) => ActionView::Send(request@),
            Action::Committed(n) => ActionView::Committed(*n as nat),
            Action::Aborted => ActionView::Aborted,
            Action::Failed(e) => ActionView::Failed(*e),
        }
    }
}

/// One transaction on the ruleset of kind `kind` under `anchor`, with the
/// encoded rules that it is to install, in order.
#[derive(Debug)]
pub struct Transaction {
    pub anchor: String,
    pub kind: RulesetKind,
    pub rules: Vec<Vec<u8>>,
    pub state: TxState,
    pub awaiting: Awaiting,
    pub ticket: Ticket,
    pub staged: usize,
    pub failure: Option<PfError>,
}

/// What a transaction holds, as a mathematical value.
pub struct TxView {
    pub anchor: Seq<char>,
    pub kind: RulesetKind,
    pub rules: Seq<Seq<u8>>,
    pub state: TxState,
    pub awaiting: Awaiting,
    pub ticket: Ticket,
    pub staged: nat,
    pub failure: Option<PfError>,
}

impl View for Transaction {
    type V = TxView;

    open spec fn view(&self) -> TxView {
        TxView {
            anchor: self.anchor@,
            kind: self.kind,
            rules: Seq::new(self.rules@.len(), |i: int| self.rules@[i]@),
            state: self.state,
            awaiting: self.awaiting,
            ticket: self.ticket,
            staged: self.staged as nat,
            failure: self.failure,
        }
    }
}

impl TxView {
    /// Whether the ticket is good: issued, and neither committed nor
    /// aborted.
    pub open spec fn live(self) -> bool {
        self.state == TxState::TicketAcquired || self.state == TxState::RuleStaged
    }

    /// Whether the transaction has not begun.
    pub open spec fn fresh(self) -> bool {
        self.state == TxState::Idle && self.awaiting == Awaiting::Nothing
    }

    /// Whether the transaction is over.
    pub open spec fn finished(self) -> bool {
        self.state == TxState::Committed || self.state == TxState::Aborted
    }

    /// What holds of every transaction that this module made.
    pub open spec fn wf(self) -> bool {
        &&& self.staged <= self.rules.len()
        &&& self.state == TxState::Idle ==> self.staged == 0 && (self.awaiting == Awaiting::Nothing
            || self.awaiting == Awaiting::Ticket)
        &&& self.state == TxState::TicketAcquired ==> self.staged == 0
        &&& self.state == TxState::RuleStaged ==> self.staged >= 1
        &&& self.state == TxState::Committed ==> self.staged == self.rules.len()
        &&& self.live() ==> self.awaiting != Awaiting::Nothing && self.awaiting != Awaiting::Ticket
        &&& self.finished() ==> self.awaiting == Awaiting::Nothing
        &&& self.awaiting == Awaiting::RuleAck ==> self.staged < self.rules.len()
        &&& self.awaiting == Awaiting::CommitAck ==> self.staged == self.rules.len()
    }

    /// An upper bound on the replies that the transaction still takes.
    pub open spec fn steps_left(self) -> nat {
        match self.awaiting {
            Awaiting::Nothing => 0,
            Awaiting::Ticket => (self.rules.len() + 3) as nat,
            Awaiting::RuleAck => (self.rules.len() - self.staged + 2) as nat,
            Awaiting::CommitAck => 2,
            Awaiting::AbortAck => 1,
        }
    }

    /// The request that is out, if one is.
    pub open spec fn request_out(self) -> Option<RequestView> {
        match self.awaiting {
            Awaiting::Nothing => None,
            Awaiting::Ticket => Some(
                RequestView::BeginTransaction { anchor: self.anchor, kind: self.kind },
            ),
            Awaiting::RuleAck => Some(
                RequestView::AddRule { ticket: self.ticket, rule: self.rules[self.staged as int] },
            ),
            Awaiting::CommitAck => Some(RequestView::Commit { ticket: self.ticket }),
            Awaiting::AbortAck => Some(RequestView::Abort { ticket: self.ticket }),
        }
    }

    /// The transaction with the request for a ticket out, and that
    /// request. A transaction that was started before, or is over, is left
    /// as it is and answers `InvalidTicket`.
    pub open spec fn start(self) -> (TxView, ActionView) {
        if self.fresh() {
            (
                TxView { awaiting: Awaiting::Ticket, ..self },
                ActionView::Send(
                    RequestView::BeginTransaction { anchor: self.anchor, kind: self.kind },
                ),
            )
        } else {
            (self, ActionView::Failed(PfError::InvalidTicket))
        }
    }

    /// With a good ticket in hand: the next rule to stage, or the commit
    /// when all are staged.
    pub open spec fn proceed(self) -> (TxView, ActionView) {
        if self.staged < self.rules.len() {
            (
                TxView { awaiting: Awaiting::RuleAck, ..self },
                ActionView::Send(
                    RequestView::AddRule { ticket: self.ticket, rule: self.rules[self.staged as int] },
                ),
            )
        } else {
            (
                TxView { awaiting: Awaiting::CommitAck, ..self },
                ActionView::Send(RequestView::Commit { ticket: self.ticket }),
            )
        }
    }

    /// After a refusal with a good ticket in hand: the failure is kept and
    /// the pending set is given up.
    pub open spec fn give_up(self, e: PfError) -> (TxView, ActionView) {
        (
            TxView { awaiting: Awaiting::AbortAck, failure: Some(e), ..self },
            ActionView::Send(RequestView::Abort { ticket: self.ticket }),
        )
    }

    /// The transaction after a reply, and what the caller does next.
    ///
    /// - No request out (not started, or over): `InvalidTicket`, nothing
    ///   changes.
    /// - Waiting for the ticket: a reply that holds one makes the ticket
    ///   good and leads to the first rule, or to the commit where there is
    ///   no rule; a refusal or a reply too short for a ticket ends the
    ///   transaction as aborted, with that failure.
    /// - Waiting for a rule to be accepted: success counts the rule as
    ///   staged and leads on; a refusal leads to the abort.
    /// - Waiting for the commit: success ends the transaction as
    ///   committed; a refusal leads to the abort.
    /// - Waiting for the abort: any reply ends the transaction as aborted,
    ///   with the failure that led to the abort, if there was one.
    pub open spec fn on_reply(self, reply: Result<Seq<u8>, PfError>) -> (TxView, ActionView) {
        match self.awaiting {
            Awaiting::Nothing => (self, ActionView::Failed(PfError::InvalidTicket)),
            Awaiting::Ticket => match reply {
                Ok(bytes) => match spec_decode_ticket(bytes) {
                    Ok(ticket) => (TxView { state: TxState::TicketAcquired, ticket, ..self }).proceed(),
                    Err(e) => (
                        TxView { state: TxState::Aborted, awaiting: Awaiting::Nothing, ..self },
                        ActionView::Failed(e),
                    ),
                },
                Err(e) => (
                    TxView { state: TxState::Aborted, awaiting: Awaiting::Nothing, ..self },
                    ActionView::Failed(e),
                ),
            },
            Awaiting::RuleAck => match reply {
                Ok(_) => (TxView {
                    state: TxState::RuleStaged,
                    staged: self.staged + 1,
                    ..self
                }).proceed(),
                Err(e) => self.give_up(e),
            },
            Awaiting::CommitAck => match reply {
                Ok(_) => (
                    TxView { state: TxState::Committed, awaiting: Awaiting::Nothing, ..self },
                    ActionView::Committed(self.staged),
                ),
                Err(e) => self.give_up(e),
            },
            Awaiting::AbortAck => (
                TxView { state: TxState::Aborted, awaiting: Awaiting::Nothing, ..self },
                match self.failure {
                    Some(e) => ActionView::Failed(e),
                    None => ActionView::Aborted,
                },
            ),
        }
    }

    /// The transaction after the caller asks to abort, and what the caller
    /// does next: with a good ticket the abort request; before any ticket
    /// nothing is pending, so the transaction ends at once; when it is over
    /// already, `InvalidTicket`.
    pub open spec fn abort(self) -> (TxView, ActionView) {
        if self.live() {
            (
                TxView { awaiting: Awaiting::AbortAck, ..self },
                ActionView::Send(RequestView::Abort { ticket: self.ticket }),
            )
        } else if self.state == TxState::Idle {
            (
                TxView { state: TxState::Aborted, awaiting: Awaiting::Nothing, ..self },
                ActionView::Aborted,
            )
        } else {
            (self, ActionView::Failed(PfError::InvalidTicket))
        }
    }
}

impl Transaction {
    /// A transaction that has not begun: it will install `rules`, in order,
    /// as the ruleset of kind `kind` under `anchor`.
    pub fn new(anchor: String, kind: RulesetKind, rules: Vec<Vec<u8>>) -> (tx: Transaction)
        ensures
            tx.anchor == anchor,
            tx.kind == kind,
            tx.rules == rules,
            tx.state == TxState::Idle,
            tx.awaiting == Awaiting::Nothing,
            tx.ticket == (Ticket { id: 0 }),
            tx.staged == 0,
            tx.failure == None::<PfError>,
            tx@.fresh(),
            tx@.wf(),
    {
        Transaction {
            anchor,
            kind,
            rules,
            state: TxState::Idle,
            awaiting: Awaiting::Nothing,
            ticket: Ticket { id: 0 },
            staged: 0,
            failure: None,
        }
    }

    /// Where the transaction stands.
    pub fn state(&self) -> (s: TxState)
        ensures
            s == self.state,
    {
        self.state
    }

    /// How many rules are in the pending set.
    pub fn staged(&self) -> (n: usize)
        ensures
            n == self.staged,
    {
        self.staged
    }

    /// The ticket, as long as it is good. Before the kernel issued it, and
    /// after commit or abort, this is `InvalidTicket`.
    pub fn ticket(&self) -> (r: Result<Ticket, PfError>)
        ensures
            r == if self@.live() {
                Ok::<Ticket, PfError>(self.ticket)
            } else {
                Err::<Ticket, PfError>(PfError::InvalidTicket)
            },
    {
        match self.state {
            TxState::TicketAcquired | TxState::RuleStaged => Ok(self.ticket),
            _ => Err(PfError::InvalidTicket),
        }
    }

    /// Begins the transaction: the first request is the one for a ticket.
    pub fn start(&mut self) -> (action: Action)
        requires
            old(self)@.wf(),
        ensures
            (final(self)@, action@) == old(self)@.start(),
            final(self)@.wf(),
    {
        if self.state == TxState::Idle && self.awaiting == Awaiting::Nothing {
            self.awaiting = Awaiting::Ticket;
            let request = RequestKind::BeginTransaction {
                anchor: self.anchor.clone(),
                kind: self.kind,
            };
            proof {
                assert(final(self)@.rules =~= old(self)@.rules);
            }
            Action::Send(request)
        } else {
            Action::Failed(PfError::InvalidTicket)
        }
    }

    /// With a good ticket in hand, the next request.
    fn proceed(&mut self) -> (action: Action)
        requires
            old(self)@.staged <= old(self)@.rules.len(),
        ensures
            (final(self)@, action@) == old(self)@.proceed(),
    {
        if self.staged < self.rules.len() {
            self.awaiting = Awaiting::RuleAck;
            let rule = copy_bytes(&self.rules[self.staged]);
            proof {
                assert(final(self)@.rules =~= old(self)@.rules);
            }
            Action::Send(RequestKind::AddRule { ticket: self.ticket, rule })
        } else {
            self.awaiting = Awaiting::CommitAck;
            proof {
                assert(final(self)@.rules =~= old(self)@.rules);
            }
            Action::Send(RequestKind::Commit { ticket: self.ticket })
        }
    }

    /// After a refusal with a good ticket in hand, the abort.
    fn give_up(&mut self, e: PfError) -> (action: Action)
        ensures
            (final(self)@, action@) == old(self)@.give_up(e),
    {
        self.awaiting = Awaiting::AbortAck;
        self.failure = Some(e);
        proof {
            assert(final(self)@.rules =~= old(self)@.rules);
        }
        Action::Send(RequestKind::Abort { ticket: self.ticket })
    }

    /// Ends the transaction as aborted.
    fn end_aborted(&mut self)
        ensures
            final(self)@ == (TxView {
                state: TxState::Aborted,
                awaiting: Awaiting::Nothing,
                ..old(self)@
            }),
    {
        self.state = TxState::Aborted;
        self.awaiting = Awaiting::Nothing;
        proof {
            assert(final(self)@.rules =~= old(self)@.rules);
        }
    }

    /// Takes the reply to the request that is out and says what comes
    /// next. While the answer is `Send`, the transaction goes on; every
    /// other answer ends it.
    pub fn on_reply(&mut self, reply: Result<Vec<u8>, PfError>) -> (action: Action)
        requires
            old(self)@.wf(),
        ensures
            (final(self)@, action@) == old(self)@.on_reply(reply_view(reply)),
            final(self)@.wf(),
            action is Send ==> final(self)@.steps_left() < old(self)@.steps_left(),
            !(action is Send) ==> final(self)@.awaiting == Awaiting::Nothing,
            old(self)@.finished() ==> action == Action::Failed(PfError::InvalidTicket)
                && final(self)@ == old(self)@,
    {
        match self.awaiting {
            Awaiting::Nothing => Action::Failed(PfError::InvalidTicket),
            Awaiting::Ticket => {
                let decoded = match reply {
                    Ok(bytes) => decode_ticket(bytes.as_slice()),
                    Err(e) => Err(e),
                };
                match decoded {
                    Ok(ticket) => {
                        self.state = TxState::TicketAcquired;
                        self.ticket = ticket;
                        proof {
                            assert(self@.rules =~= old(self)@.rules);
                        }
                        self.proceed()
                    },
                    Err(e) => {
                        self.end_aborted();
                        Action::Failed(e)
                    },
                }
            },
            Awaiting::RuleAck => match reply {
                Ok(_) => {
                    let total: usize = self.rules.len();
                    assert(self.staged < total);
                    self.state = TxState::RuleStaged;
                    self.staged = self.staged + 1;
                    proof {
                        assert(self@.rules =~= old(self)@.rules);
                    }
                    self.proceed()
                },
                Err(e) => self.give_up(e),
            },
            Awaiting::CommitAck => match reply {
                Ok(_) => {
                    self.state = TxState::Committed;
                    self.awaiting = Awaiting::Nothing;
                    proof {
                        assert(final(self)@.rules =~= old(self)@.rules);
                    }
                    Action::Committed(self.staged)
                },
                Err(e) => self.give_up(e),
            },
            Awaiting::AbortAck => {
                self.end_aborted();
                match self.failure {
                    Some(e) => Action::Failed(e),
                    None => Action::Aborted,
                }
            },
        }
    }

    /// Aborts at the caller's wish, in place of the request that would
    /// have come next.
    pub fn abort(&mut self) -> (action: Action)
        requires
            old(self)@.wf(),
        ensures
            (final(self)@, action@) == old(self)@.abort(),
            final(self)@.wf(),
            old(self)@.finished() ==> action == Action::Failed(PfError::InvalidTicket)
                && final(self)@ == old(self)@,
    {
        match self.state {
            TxState::TicketAcquired | TxState::RuleStaged => {
                self.awaiting = Awaiting::AbortAck;
                proof {
                    assert(final(self)@.rules =~= old(self)@.rules);
                }
                Action::Send(RequestKind::Abort { ticket: self.ticket })
            },
            TxState::Idle => {
                self.end_aborted();
                Action::Aborted
            },
            _ => Action::Failed(PfError::InvalidTicket),
        }
    }
}

/// Once a transaction is committed or aborted, every use of it answers
/// `InvalidTicket` and changes nothing: starting it, a reply, an abort.
pub proof fn lemma_finished_transaction_is_invalid(tx: TxView, reply: Result<Seq<u8>, PfError>)
    requires
        tx.wf(),
        tx.finished(),
    ensures
        !tx.live(),
        tx.start() == (tx, ActionView::Failed(PfError::InvalidTicket)),
        tx.on_reply(reply) == (tx, ActionView::Failed(PfError::InvalidTicket)),
        tx.abort() == (tx, ActionView::Failed(PfError::InvalidTicket)),
{
}

/// Every reply keeps a transaction well-formed and moves it along its
/// path: from `Idle` only to `TicketAcquired` or `Aborted`, from a good
/// ticket only onwards, and never out of `Committed` or `Aborted`.
pub proof fn lemma_transitions(tx: TxView, reply: Result<Seq<u8>, PfError>)
    requires
        tx.wf(),
    ensures
        tx.on_reply(reply).0.wf(),
        tx.state == TxState::Idle ==> tx.on_reply(reply).0.state == TxState::Idle
            || tx.on_reply(reply).0.state == TxState::TicketAcquired || tx.on_reply(
            reply,
        ).0.state == TxState::Aborted,
        tx.live() ==> tx.on_reply(reply).0.state != TxState::Idle,
        tx.live() ==> tx.on_reply(reply).0.staged >= tx.staged,
        tx.finished() ==> tx.on_reply(reply).0 == tx,
        tx.on_reply(reply).0.state == TxState::Committed ==> tx.on_reply(reply).0.staged
            == tx.rules.len(),
        tx.on_reply(reply).0.rules == tx.rules,
        tx.on_reply(reply).0.anchor == tx.anchor,
        tx.on_reply(reply).0.kind == tx.kind,
{
}

/// The request that the caller is told to send is the one that the
/// transaction then waits on, and after a reply the caller is told to send
/// exactly as long as a request is out.
pub proof fn lemma_sends_request_out(tx: TxView, reply: Result<Seq<u8>, PfError>)
    requires
        tx.wf(),
    ensures
        tx.start().1 is Send ==> tx.start().1 == ActionView::Send(
            tx.start().0.request_out().unwrap(),
        ),
        tx.on_reply(reply).1 is Send <==> tx.on_reply(reply).0.request_out().is_some(),
        tx.on_reply(reply).1 is Send ==> tx.on_reply(reply).1 == ActionView::Send(
            tx.on_reply(reply).0.request_out().unwrap(),
        ),
{
}

} // verus!
