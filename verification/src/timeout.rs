//! The timeout states of one side of a tracked flow.

use crate::error::PfError;
use vstd::prelude::*;

verus! {

/// The number of timeout states; the valid codes are those below it.
pub const TIMEOUT_STATE_COUNT: u8 = 29;

/// The lifecycle phase of one side of a flow, as the kernel numbers them.
#[derive(Clone, Copy, Debug, PartialEq, Eq, Structural)]
pub enum TimeoutState {
    TcpFirstPacket,
    TcpOpening,
    TcpEstablished,
    TcpClosing,
    TcpFinWait,
    TcpClosed,
    UdpFirstPacket,
    UdpSingle,
    UdpMultiple,
    IcmpFirstPacket,
    IcmpErrorReply,
    Grev1FirstPacket,
    Grev1Initiating,
    Grev1Established,
    EspFirstPacket,
    EspInitiating,
    EspEstablished,
    OtherFirstPacket,
    OtherSingle,
    OtherMultiple,
    Frag,
    Interval,
    AdaptiveStart,
    AdaptiveEnd,
    SrcNode,
    TsDiff,
    Max,
    Purge,
    Unlinked,
}

impl TimeoutState {
    /// The state with the wire code `code`, if there is one.
    pub open spec fn of_code(code: u8) -> Option<TimeoutState> {
        if code == 0 {
            Some(TimeoutState::TcpFirstPacket)
        } else if code == 1 {
            Some(TimeoutState::TcpOpening)
        } else if code == 2 {
            Some(TimeoutState::TcpEstablished)
        } else if code == 3 {
            Some(TimeoutState::TcpClosing)
        } else if code == 4 {
            Some(TimeoutState::TcpFinWait)
        } else if code == 5 {
            Some(TimeoutState::TcpClosed)
        } else if code == 6 {
            Some(TimeoutState::UdpFirstPacket)
        } else if code == 7 {
            Some(TimeoutState::UdpSingle)
        } else if code == 8 {
            Some(TimeoutState::UdpMultiple)
        } else if code == 9 {
            Some(TimeoutState::IcmpFirstPacket)
        } else if code == 10 {
            Some(TimeoutState::IcmpErrorReply)
        } else if code == 11 {
            Some(TimeoutState::Grev1FirstPacket)
        } else if code == 12 {
            Some(TimeoutState::Grev1Initiating)
        } else if code == 13 {
            Some(TimeoutState::Grev1Established)
        } else if code == 14 {
            Some(TimeoutState::EspFirstPacket)
        } else if code == 15 {
            Some(TimeoutState::EspInitiating)
        } else if code == 16 {
            Some(TimeoutState::EspEstablished)
        } else if code == 17 {
            Some(TimeoutState::OtherFirstPacket)
        } else if code == 18 {
            Some(TimeoutState::OtherSingle)
        } else if code == 19 {
            Some(TimeoutState::OtherMultiple)
        } else if code == 20 {
            Some(TimeoutState::Frag)
        } else if code == 21 {
            Some(TimeoutState::Interval)
        } else if code == 22 {
            Some(TimeoutState::AdaptiveStart)
        } else if code == 23 {
            Some(TimeoutState::AdaptiveEnd)
        } else if code == 24 {
            Some(TimeoutState::SrcNode)
        } else if code == 25 {
            Some(TimeoutState::TsDiff)
        } else if code == 26 {
            Some(TimeoutState::Max)
        } else if code == 27 {
            Some(TimeoutState::Purge)
        } else if code == 28 {
            Some(TimeoutState::Unlinked)
        } else {
            None
        }
    }

    /// The wire code of this state.
    pub open spec fn spec_code(self) -> u8 {
        match self {
            TimeoutState::TcpFirstPacket => 0,
            TimeoutState::TcpOpening => 1,
            TimeoutState::TcpEstablished => 2,
            TimeoutState::TcpClosing => 3,
            TimeoutState::TcpFinWait => 4,
            TimeoutState::TcpClosed => 5,
            TimeoutState::UdpFirstPacket => 6,
            TimeoutState::UdpSingle => 7,
            TimeoutState::UdpMultiple => 8,
            TimeoutState::IcmpFirstPacket => 9,
            TimeoutState::IcmpErrorReply => 10,
            TimeoutState::Grev1FirstPacket => 11,
            TimeoutState::Grev1Initiating => 12,
            TimeoutState::Grev1Established => 13,
            TimeoutState::EspFirstPacket => 14,
            TimeoutState::EspInitiating => 15,
            TimeoutState::EspEstablished => 16,
            TimeoutState::OtherFirstPacket => 17,
            TimeoutState::OtherSingle => 18,
            TimeoutState::OtherMultiple => 19,
            TimeoutState::Frag => 20,
            TimeoutState::Interval => 21,
            TimeoutState::AdaptiveStart => 22,
            TimeoutState::AdaptiveEnd => 23,
            TimeoutState::SrcNode => 24,
            TimeoutState::TsDiff => 25,
            TimeoutState::Max => 26,
            TimeoutState::Purge => 27,
            TimeoutState::Unlinked => 28,
        }
    }

    /// The label under which this state is displayed.
    pub open spec fn label(self) -> Seq<char> {
        match self {
            TimeoutState::TcpFirstPacket => "FIRST_PACKET"@,
            TimeoutState::TcpOpening => "OPENING"@,
            TimeoutState::TcpEstablished => "ESTABLISHED"@,
            TimeoutState::TcpClosing => "CLOSING"@,
            TimeoutState::TcpFinWait => "FIN_WAIT"@,
            TimeoutState::TcpClosed => "CLOSED"@,
            TimeoutState::UdpFirstPacket => "FIRST_PACKET"@,
            TimeoutState::UdpSingle => "SINGLE"@,
            TimeoutState::UdpMultiple => "MULTIPLE"@,
            TimeoutState::IcmpFirstPacket => "FIRST_PACKET"@,
            TimeoutState::IcmpErrorReply => "ERROR_REPLY"@,
            TimeoutState::Grev1FirstPacket => "FIRST_PACKET"@,
            TimeoutState::Grev1Initiating => "INITIATING"@,
            TimeoutState::Grev1Established => "ESTABLISHED"@,
            TimeoutState::EspFirstPacket => "FIRST_PACKET"@,
            TimeoutState::EspInitiating => "INITIATING"@,
            TimeoutState::EspEstablished => "ESTABLISHED"@,
            TimeoutState::OtherFirstPacket => "FIRST_PACKET"@,
            TimeoutState::OtherSingle => "SINGLE"@,
            TimeoutState::OtherMultiple => "MULTIPLE"@,
            TimeoutState::Frag => "FRAG"@,
            TimeoutState::Interval => "INTERVAL"@,
            TimeoutState::AdaptiveStart => "ADAPTIVE_START"@,
            TimeoutState::AdaptiveEnd => "ADAPTIVE_END"@,
            TimeoutState::SrcNode => "SRC_NODE"@,
            TimeoutState::TsDiff => "TS_DIFF"@,
            TimeoutState::Max => "MAX"@,
            TimeoutState::Purge => "PURGE"@,
            TimeoutState::Unlinked => "UNLINKED"@,
        }
    }

    /// Decodes a state byte. A byte outside the known states is an error,
    /// never a guessed state.
    pub fn from_u8(code: u8) -> (r: Result<TimeoutState, PfError>)
        ensures
            r == match TimeoutState::of_code(code) {
                Some(s) => Ok::<TimeoutState, PfError>(s),
                None => Err(PfError::UnknownTimeoutState),
            },
            r.is_ok() <==> code < TIMEOUT_STATE_COUNT,
            r.is_ok() ==> r.unwrap().spec_code() == code,
    {
        match code {
            0 => Ok(TimeoutState::TcpFirstPacket),
            1 => Ok(TimeoutState::TcpOpening),
            2 => Ok(TimeoutState::TcpEstablished),
            3 => Ok(TimeoutState::TcpClosing),
            4 => Ok(TimeoutState::TcpFinWait),
            5 => Ok(TimeoutState::TcpClosed),
            6 => Ok(TimeoutState::UdpFirstPacket),
            7 => Ok(TimeoutState::UdpSingle),
            8 => Ok(TimeoutState::UdpMultiple),
            9 => Ok(TimeoutState::IcmpFirstPacket),
            10 => Ok(TimeoutState::IcmpErrorReply),
            11 => Ok(TimeoutState::Grev1FirstPacket),
            12 => Ok(TimeoutState::Grev1Initiating),
            13 => Ok(TimeoutState::Grev1Established),
            14 => Ok(TimeoutState::EspFirstPacket),
            15 => Ok(TimeoutState::EspInitiating),
            16 => Ok(TimeoutState::EspEstablished),
            17 => Ok(TimeoutState::OtherFirstPacket),
            18 => Ok(TimeoutState::OtherSingle),
            19 => Ok(TimeoutState::OtherMultiple),
            20 => Ok(TimeoutState::Frag),
            21 => Ok(TimeoutState::Interval),
            22 => Ok(TimeoutState::AdaptiveStart),
            23 => Ok(TimeoutState::AdaptiveEnd),
            24 => Ok(TimeoutState::SrcNode),
            25 => Ok(TimeoutState::TsDiff),
            26 => Ok(TimeoutState::Max),
            27 => Ok(TimeoutState::Purge),
            28 => Ok(TimeoutState::Unlinked),
            _ => Err(PfError::UnknownTimeoutState),
        }
    }

    /// The wire code of this state.
    pub fn code(&self) -> (c: u8)
        ensures
            c == self.spec_code(),
            c < TIMEOUT_STATE_COUNT,
            TimeoutState::of_code(c) == Some(*self),
    {
        match self {
            TimeoutState::TcpFirstPacket => 0,
            TimeoutState::TcpOpening => 1,
            TimeoutState::TcpEstablished => 2,
            TimeoutState::TcpClosing => 3,
            TimeoutState::TcpFinWait => 4,
            TimeoutState::TcpClosed => 5,
            TimeoutState::UdpFirstPacket => 6,
            TimeoutState::UdpSingle => 7,
            TimeoutState::UdpMultiple => 8,
            TimeoutState::IcmpFirstPacket => 9,
            TimeoutState::IcmpErrorReply => 10,
            TimeoutState::Grev1FirstPacket => 11,
            TimeoutState::Grev1Initiating => 12,
            TimeoutState::Grev1Established => 13,
            TimeoutState::EspFirstPacket => 14,
            TimeoutState::EspInitiating => 15,
            TimeoutState::EspEstablished => 16,
            TimeoutState::OtherFirstPacket => 17,
            TimeoutState::OtherSingle => 18,
            TimeoutState::OtherMultiple => 19,
            TimeoutState::Frag => 20,
            TimeoutState::Interval => 21,
            TimeoutState::AdaptiveStart => 22,
            TimeoutState::AdaptiveEnd => 23,
            TimeoutState::SrcNode => 24,
            TimeoutState::TsDiff => 25,
            TimeoutState::Max => 26,
            TimeoutState::Purge => 27,
            TimeoutState::Unlinked => 28,
        }
    }

    /// The label under which this state is displayed.
    pub fn as_str(&self) -> (s: &'static str)
        ensures
            s@ == self.label(),
    {
        match self {
            TimeoutState::TcpFirstPacket => "FIRST_PACKET",
            TimeoutState::TcpOpening => "OPENING",
            TimeoutState::TcpEstablished => "ESTABLISHED",
            TimeoutState::TcpClosing => "CLOSING",
            TimeoutState::TcpFinWait => "FIN_WAIT",
            TimeoutState::TcpClosed => "CLOSED",
            TimeoutState::UdpFirstPacket => "FIRST_PACKET",
            TimeoutState::UdpSingle => "SINGLE",
            TimeoutState::UdpMultiple => "MULTIPLE",
            TimeoutState::IcmpFirstPacket => "FIRST_PACKET",
            TimeoutState::IcmpErrorReply => "ERROR_REPLY",
            TimeoutState::Grev1FirstPacket => "FIRST_PACKET",
            TimeoutState::Grev1Initiating => "INITIATING",
            TimeoutState::Grev1Established => "ESTABLISHED",
            TimeoutState::EspFirstPacket => "FIRST_PACKET",
            TimeoutState::EspInitiating => "INITIATING",
            TimeoutState::EspEstablished => "ESTABLISHED",
            TimeoutState::OtherFirstPacket => "FIRST_PACKET",
            TimeoutState::OtherSingle => "SINGLE",
            TimeoutState::OtherMultiple => "MULTIPLE",
            TimeoutState::Frag => "FRAG",
            TimeoutState::Interval => "INTERVAL",
            TimeoutState::AdaptiveStart => "ADAPTIVE_START",
            TimeoutState::AdaptiveEnd => "ADAPTIVE_END",
            TimeoutState::SrcNode => "SRC_NODE",
            TimeoutState::TsDiff => "TS_DIFF",
            TimeoutState::Max => "MAX",
            TimeoutState::Purge => "PURGE",
            TimeoutState::Unlinked => "UNLINKED",
        }
    }
}

/// Every code below the count names a state, that state has the code, and
/// no other byte names one.
pub proof fn lemma_timeout_state_codes(code: u8)
    ensures
        code < TIMEOUT_STATE_COUNT <==> TimeoutState::of_code(code).is_some(),
        TimeoutState::of_code(code).is_some() ==> TimeoutState::of_code(code).unwrap().spec_code()
            == code,
{
}

} // verus!
