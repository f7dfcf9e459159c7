//! The requests that go over the control channel, and what its replies
//! mean.
//!
//! The channel itself is the operating system's: opening the device and
//! issuing a request block the caller and belong to the program around the
//! library. Here are the values that cross it. One request is in flight at
//! a time; nothing is retried.

use crate::error::PfError;
use crate::wire::{
    be_bytes, be_field, field, lemma_be_bytes_len, lemma_be_value_of_bytes, lemma_radix_pow_values,
    push_u32, u32_at,
};
use vstd::prelude::*;

verus! {

/// The code with which the kernel refuses what is not permitted.
pub const EPERM: i32 = 1;

/// The code with which the kernel refuses access.
pub const EACCES: i32 = 13;

/// The code with which the kernel refuses a stale ticket.
pub const EBUSY: i32 = 16;

/// The code with which the kernel refuses to create what is there already.
pub const EEXIST: i32 = 17;

/// The code with which the kernel refuses a request that it cannot read.
pub const EINVAL: i32 = 22;

/// The size of a ticket in a reply.
pub const TICKET_LEN: usize = 4;

/// The category of rules that an anchor or a transaction addresses.
#[derive(Clone, Copy, Debug, PartialEq, Eq, Structural)]
pub enum RulesetKind {
    Filter,
    Nat,
    Redirect,
    Scrub,
}

/// The token of one transaction. The kernel issues it for one anchor and
/// one kind of ruleset; it is good for one staging sequence.
#[derive(Clone, Copy, Debug, PartialEq, Eq, Structural)]
pub struct Ticket {
    pub id: u32,
}

/// A request to the kernel.
#[derive(Clone, Debug, PartialEq, Eq)]
pub enum RequestKind {
    /// Asks for the table of tracked flows.
    GetStates,
    /// Opens a transaction on one ruleset of an anchor; the reply holds
    /// the ticket.
    BeginTransaction { anchor: String, kind: RulesetKind },
    /// Adds an encoded rule to the pending set of a transaction.
    AddRule { ticket: Ticket, rule: Vec<u8> },
    /// Replaces the active ruleset by the pending set, all at once.
    Commit { ticket: Ticket },
    /// Discards the pending set.
    Abort { ticket: Ticket },
    /// Clears one ruleset of an anchor.
    Flush { anchor: String, kind: RulesetKind },
    /// Creates an anchor.
    AddAnchor { name: String, kind: RulesetKind },
}

/// What a request holds, as a mathematical value.
pub enum RequestView {
    GetStates,
    BeginTransaction { anchor: Seq<char>, kind: RulesetKind },
    AddRule { ticket: Ticket, rule: Seq<u8> },
    Commit { ticket: Ticket },
    Abort { ticket: Ticket },
    Flush { anchor: Seq<char>, kind: RulesetKind },
    AddAnchor { name: Seq<char>, kind: RulesetKind },
}

impl View for RequestKind {
    type V = RequestView;

    open spec fn view(&self) -> RequestView {
        match self {
            RequestKind::GetStates => RequestView::GetStates,
            RequestKind::BeginTransaction { anchor, kind } => RequestView::BeginTransaction {
                anchor: anchor@,
                kind: *kind,
            },
            RequestKind::AddRule { ticket, rule } => RequestView::AddRule {
                ticket: *ticket,
                rule: rule@,
            },
            RequestKind::Commit { ticket } => RequestView::Commit { ticket: *ticket },
            RequestKind::Abort { ticket } => RequestView::Abort { ticket: *ticket },
            RequestKind::Flush { anchor, kind } => RequestView::Flush {
                anchor: anchor@,
                kind: *kind,
            },
            RequestKind::AddAnchor { name, kind } => RequestView::AddAnchor {
                name: name@,
                kind: *kind,
            },
        }
    }
}

/// What a reply holds, as a mathematical value.
pub open spec fn reply_view(reply: Result<Vec<u8>, PfError>) -> Result<Seq<u8>, PfError> {
    match reply {
        Ok(bytes) => Ok(bytes@),
        Err(e) => Err(e),
    }
}

/// Why the channel could not be opened, from the code that the operating
/// system gave: a lack of privilege is told apart from every other cause.
pub fn open_failure(code: i32) -> (e: PfError)
    ensures
        e == if code == EACCES || code == EPERM {
            PfError::PermissionDenied
        } else {
            PfError::DeviceUnavailable
        },
{
    if code == EACCES || code == EPERM {
        PfError::PermissionDenied
    } else {
        PfError::DeviceUnavailable
    }
}

/// The reply to a request, from the status that the kernel returned and
/// the bytes that it filled in: status zero is success, every other status
/// is a refusal that keeps the raw code.
pub fn reply_from_status(status: i32, payload: Vec<u8>) -> (r: Result<Vec<u8>, PfError>)
    ensures
        r == if status == 0 {
            Ok::<Vec<u8>, PfError>(payload)
        } else {
            Err::<Vec<u8>, PfError>(PfError::KernelRejected(status))
        },
{
    if status == 0 {
        Ok(payload)
    } else {
        Err(PfError::KernelRejected(status))
    }
}

/// The ticket that the first four bytes of a reply hold.
pub open spec fn spec_decode_ticket(bytes: Seq<u8>) -> Result<Ticket, PfError> {
    if bytes.len() < TICKET_LEN {
        Err(PfError::TruncatedBuffer)
    } else {
        Ok(Ticket { id: be_field(bytes, 0, 4) as u32 })
    }
}

/// Decodes the ticket in the reply to `BeginTransaction`.
pub fn decode_ticket(bytes: &[u8]) -> (r: Result<Ticket, PfError>)
    ensures
        r == spec_decode_ticket(bytes@),
{
    if bytes.len() < TICKET_LEN {
        Err(PfError::TruncatedBuffer)
    } else {
        Ok(Ticket { id: u32_at(bytes, 0) })
    }
}

/// Encodes a ticket as a reply holds it.
pub fn encode_ticket(ticket: Ticket) -> (out: Vec<u8>)
    ensures
        out@ == be_bytes(ticket.id as nat, 4),
        spec_decode_ticket(out@) == Ok::<Ticket, PfError>(ticket),
{
    let mut out: Vec<u8> = Vec::new();
    push_u32(&mut out, ticket.id);
    proof {
        lemma_radix_pow_values();
        lemma_be_bytes_len(ticket.id as nat, 4);
        lemma_be_value_of_bytes(ticket.id as nat, 4);
        assert(out@ =~= be_bytes(ticket.id as nat, 4));
        assert(field(out@, 0, 4) =~= out@);
    }
    out
}

/// What the reply to `AddAnchor` means to the caller: creation is
/// idempotent, so the refusal that says "already exists" is success. Every
/// other refusal stays a failure.
pub open spec fn spec_anchor_outcome(reply: Result<Seq<u8>, PfError>) -> Result<(), PfError> {
    match reply {
        Ok(_) => Ok(()),
        Err(e) => if e == PfError::KernelRejected(EEXIST) {
            Ok(())
        } else {
            Err(e)
        },
    }
}

/// Reads the reply to `AddAnchor`.
pub fn anchor_outcome(reply: Result<Vec<u8>, PfError>) -> (r: Result<(), PfError>)
    ensures
        r == spec_anchor_outcome(reply_view(reply)),
{
    match reply {
        Ok(_) => Ok(()),
        Err(e) => {
            if e == PfError::KernelRejected(EEXIST) {
                Ok(())
            } else {
                Err(e)
            }
        },
    }
}

/// A copy of `bytes`.
pub fn copy_bytes(bytes: &Vec<u8>) -> (out: Vec<u8>)
    ensures
        out@ == bytes@,
{
    let mut out: Vec<u8> = Vec::new();
    let mut i: usize = 0;
    while i < bytes.len()
        invariant
            i <= bytes@.len(),
            out@ == bytes@.take(i as int),
        decreases bytes@.len() - i,
    {
        out.push(bytes[i]);
        i = i + 1;
        proof {
            assert(out@ =~= bytes@.take(i as int));
        }
    }
    proof {
        assert(bytes@.take(bytes@.len() as int) =~= bytes@);
    }
    out
}

} // verus!
