//! The failures that the library reports.

use vstd::prelude::*;

verus! {

/// Why an operation failed. Nothing is retried inside the library: every
/// failure reaches the caller as one of these values.
#[derive(Clone, Copy, Debug, PartialEq, Eq, Structural)]
pub enum PfError {
    /// The control channel cannot be opened.
    DeviceUnavailable,
    /// The process lacks the privilege to open the control channel.
    PermissionDenied,
    /// The kernel refused a request; the raw code is kept.
    KernelRejected(i32),
    /// A transaction token was used before it was granted or after its
    /// transaction ended.
    InvalidTicket,
    /// A buffer is shorter than the records it is said to hold, or its
    /// length disagrees with the declared record count.
    TruncatedBuffer,
    /// A record holds a tag that selects no variant.
    MalformedRecord,
    /// A timeout-state byte lies outside the known states.
    UnknownTimeoutState,
}

impl PfError {
    /// The words that describe this failure.
    pub open spec fn message(self) -> Seq<char> {
        match self {
            PfError::DeviceUnavailable => "packet filter device unavailable"@,
            PfError::PermissionDenied => "permission denied"@,
            PfError::KernelRejected(_) => "request rejected by the kernel"@,
            PfError::InvalidTicket => "invalid transaction ticket"@,
            PfError::TruncatedBuffer => "truncated buffer"@,
            PfError::MalformedRecord => "malformed record"@,
            PfError::UnknownTimeoutState => "unknown timeout state"@,
        }
    }

    /// A description of the failure for display.
    pub fn as_str(&self) -> (s: &'static str)
        ensures
            s@ == self.message(),
    {
        match self {
            PfError::DeviceUnavailable => "packet filter device unavailable",
            PfError::PermissionDenied => "permission denied",
            PfError::KernelRejected(_) => "request rejected by the kernel",
            PfError::InvalidTicket => "invalid transaction ticket",
            PfError::TruncatedBuffer => "truncated buffer",
            PfError::MalformedRecord => "malformed record",
            PfError::UnknownTimeoutState => "unknown timeout state",
        }
    }

    /// The raw kernel code, where the kernel refused the request.
    pub fn kernel_code(&self) -> (code: Option<i32>)
        ensures
            code == match *self {
                PfError::KernelRejected(c) => Some(c),
                _ => None,
            },
    {
        match self {
            PfError::KernelRejected(c) => Some(*c),
            _ => None,
        }
    }
}

} // verus!
