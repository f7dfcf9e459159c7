use pfctl::error::PfError;
use pfctl::timeout::{TimeoutState, TIMEOUT_STATE_COUNT};

const LABELS: [&str; 29] = [
    "FIRST_PACKET",
    "OPENING",
    "ESTABLISHED",
    "CLOSING",
    "FIN_WAIT",
    "CLOSED",
    "FIRST_PACKET",
    "SINGLE",
    "MULTIPLE",
    "FIRST_PACKET",
    "ERROR_REPLY",
    "FIRST_PACKET",
    "INITIATING",
    "ESTABLISHED",
    "FIRST_PACKET",
    "INITIATING",
    "ESTABLISHED",
    "FIRST_PACKET",
    "SINGLE",
    "MULTIPLE",
    "FRAG",
    "INTERVAL",
    "ADAPTIVE_START",
    "ADAPTIVE_END",
    "SRC_NODE",
    "TS_DIFF",
    "MAX",
    "PURGE",
    "UNLINKED",
];

#[test]
fn every_code_up_to_28_decodes_to_its_label() {
    assert_eq!(TIMEOUT_STATE_COUNT, 29);
    for code in 0..=28u8 {
        let state = TimeoutState::from_u8(code).unwrap();
        assert_eq!(state.as_str(), LABELS[code as usize]);
        assert_eq!(state.code(), code);
    }
}

#[test]
fn every_code_from_29_up_fails() {
    for code in 29..=255u8 {
        assert_eq!(TimeoutState::from_u8(code), Err(PfError::UnknownTimeoutState));
    }
}

#[test]
fn named_states_have_their_codes() {
    assert_eq!(TimeoutState::from_u8(0), Ok(TimeoutState::TcpFirstPacket));
    assert_eq!(TimeoutState::from_u8(2), Ok(TimeoutState::TcpEstablished));
    assert_eq!(TimeoutState::from_u8(7), Ok(TimeoutState::UdpSingle));
    assert_eq!(TimeoutState::from_u8(10), Ok(TimeoutState::IcmpErrorReply));
    assert_eq!(TimeoutState::from_u8(20), Ok(TimeoutState::Frag));
    assert_eq!(TimeoutState::from_u8(28), Ok(TimeoutState::Unlinked));
    assert_eq!(TimeoutState::Purge.code(), 27);
}

#[test]
fn errors_describe_themselves() {
    assert_eq!(PfError::UnknownTimeoutState.as_str(), "unknown timeout state");
    assert_eq!(PfError::TruncatedBuffer.as_str(), "truncated buffer");
    assert_eq!(PfError::MalformedRecord.as_str(), "malformed record");
    assert_eq!(PfError::InvalidTicket.as_str(), "invalid transaction ticket");
    assert_eq!(PfError::PermissionDenied.as_str(), "permission denied");
    assert_eq!(PfError::DeviceUnavailable.as_str(), "packet filter device unavailable");
    assert_eq!(PfError::KernelRejected(16).as_str(), "request rejected by the kernel");
    assert_eq!(PfError::KernelRejected(16).kernel_code(), Some(16));
    assert_eq!(PfError::InvalidTicket.kernel_code(), None);
}
