//! Connection-tracking records: their layout, their decoding, and the line
//! under which an entry is displayed.

use crate::addr::{
    decode_endpoint, spec_decode_endpoint, Endpoint, AF_INET, AF_INET6, ENDPOINT_LEN,
};
use crate::error::PfError;
use crate::text::{decode_name, padded_name, push_char};
use crate::timeout::{TimeoutState, TIMEOUT_STATE_COUNT};
use crate::wire::{
    be_bytes, be_field, field, lemma_be_bytes_len, lemma_be_value_of_bytes, lemma_radix_pow_values,
    push_u32, u32_at, u64_at,
};
use vstd::prelude::*;
use vstd::slice::*;
use vstd::string::*;

verus! {

/// The size of one state record. The record is packed: its fields follow
/// one another without gaps.
pub const STATE_LEN: usize = 297;

/// The size of the count that precedes the records of a state table.
pub const TABLE_HEADER_LEN: usize = 4;

/// Offset of the 64-bit identifier.
pub const OFF_ID: usize = 0;

/// Offset of the interface name.
pub const OFF_IFNAME: usize = 8;

/// The size of the interface name buffer.
pub const IFNAME_LEN: usize = 16;

/// Offset of the endpoint on the LAN side.
pub const OFF_LAN: usize = 24;

/// Offset of the endpoint on the gateway (translated) side.
pub const OFF_GWY: usize = 48;

/// Offset of the external endpoint as the LAN side sees it.
pub const OFF_EXT_LAN: usize = 72;

/// Offset of the external endpoint as the gateway side sees it.
pub const OFF_EXT_GWY: usize = 96;

/// Offset of the state byte of the source peer.
pub const OFF_SRC_STATE: usize = 144;

/// Offset of the state byte of the destination peer.
pub const OFF_DST_STATE: usize = 176;

/// Offset of the number of the filter rule that owns the state.
pub const OFF_RULE: usize = 216;

/// Offset of the number of the anchor that owns the state.
pub const OFF_ANCHOR: usize = 220;

/// Offset of the number of the translation rule that owns the state.
pub const OFF_NAT_RULE: usize = 224;

/// Offset of the creation time.
pub const OFF_CREATION: usize = 228;

/// Offset of the expiry time.
pub const OFF_EXPIRE: usize = 236;

/// Offset of the four 32-bit packet counters.
pub const OFF_PACKETS: usize = 244;

/// Offset of the four 32-bit byte counters.
pub const OFF_BYTES: usize = 260;

/// Offset of the family tag of the LAN side.
pub const OFF_AF_LAN: usize = 282;

/// Offset of the family tag of the gateway side.
pub const OFF_AF_GWY: usize = 283;

/// Offset of the protocol number.
pub const OFF_PROTO: usize = 284;

/// Offset of the direction code.
pub const OFF_DIRECTION: usize = 285;

/// The direction in which the first packet of a flow crossed the
/// interface.
#[derive(Clone, Copy, Debug, PartialEq, Eq, Structural)]
pub enum Direction {
    /// Neither in nor out: the direction is not known.
    Unknown,
    In,
    Out,
}

impl Direction {
    /// The direction that a code names: `1` is in, `2` is out, every other
    /// code is unknown.
    pub open spec fn of_code(code: u8) -> Direction {
        if code == 1 {
            Direction::In
        } else if code == 2 {
            Direction::Out
        } else {
            Direction::Unknown
        }
    }

    /// The arrow under which the direction is displayed.
    pub open spec fn arrow(self) -> Seq<char> {
        match self {
            Direction::In => "<-"@,
            Direction::Out => "->"@,
            Direction::Unknown => "--"@,
        }
    }

    /// Decodes a direction code.
    pub fn from_u8(code: u8) -> (d: Direction)
        ensures
            d == Direction::of_code(code),
    {
        if code == 1 {
            Direction::In
        } else if code == 2 {
            Direction::Out
        } else {
            Direction::Unknown
        }
    }

    /// The arrow under which the direction is displayed.
    pub fn as_str(&self) -> (s: &'static str)
        ensures
            s@ == self.arrow(),
    {
        match self {
            Direction::In => "<-",
            Direction::Out => "->",
            Direction::Unknown => "--",
        }
    }
}

/// The arrow of a raw direction code.
pub fn direction(dir: u8) -> (s: &'static str)
    ensures
        s@ == Direction::of_code(dir).arrow(),
{
    Direction::from_u8(dir).as_str()
}

/// The name under which a protocol number is displayed.
pub open spec fn protocol_label(protocol_number: u8) -> Seq<char> {
    if protocol_number == 1 {
        "icmp"@
    } else if protocol_number == 2 {
        "igmp"@
    } else if protocol_number == 6 {
        "tcp"@
    } else if protocol_number == 17 {
        "udp"@
    } else if protocol_number == 47 {
        "gre"@
    } else if protocol_number == 50 {
        "esp"@
    } else if protocol_number == 51 {
        "ah"@
    } else if protocol_number == 58 {
        "icmpv6"@
    } else if protocol_number == 89 {
        "ospf"@
    } else if protocol_number == 132 {
        "sctp"@
    } else {
        "unknown"@
    }
}

/// The name under which a protocol number is displayed; a number that the
/// table does not hold is displayed as `unknown`.
pub fn protocol_name(protocol_number: u8) -> (s: &'static str)
    ensures
        s@ == protocol_label(protocol_number),
{
    match protocol_number {
        1 => "icmp",
        2 => "igmp",
        6 => "tcp",
        17 => "udp",
        47 => "gre",
        50 => "esp",
        51 => "ah",
        58 => "icmpv6",
        89 => "ospf",
        132 => "sctp",
        _ => "unknown",
    }
}

/// A snapshot of one tracked flow. The library only reads such entries;
/// the kernel creates, changes and removes them.
#[derive(Clone, Debug, PartialEq, Eq)]
pub struct StateEntry {
    /// The identifier of the state.
    pub id: u64,
    /// The interface that the state is bound to.
    pub ifname: String,
    /// The protocol number of the flow.
    pub proto: u8,
    /// The direction of the flow.
    pub direction: Direction,
    /// The endpoint on the LAN side.
    pub lan: Endpoint,
    /// The endpoint on the gateway (translated) side.
    pub gwy: Endpoint,
    /// The external endpoint as the LAN side sees it.
    pub ext_lan: Endpoint,
    /// The external endpoint as the gateway side sees it.
    pub ext_gwy: Endpoint,
    /// The timeout state of the source side.
    pub src_state: TimeoutState,
    /// The timeout state of the destination side.
    pub dst_state: TimeoutState,
    /// The packets counted for the flow, both ways together.
    pub packets: u64,
    /// The bytes counted for the flow, both ways together.
    pub bytes: u64,
    /// When the state was created.
    pub creation: u64,
    /// When the state expires.
    pub expire: u64,
    /// The number of the filter rule that owns the state: a key, not a
    /// reference.
    pub rule: u32,
    /// The number of the anchor that owns the state.
    pub anchor: u32,
    /// The number of the translation rule that owns the state.
    pub nat_rule: u32,
}

/// What a `StateEntry` holds, as a mathematical value.
pub struct StateRecord {
    pub id: u64,
    pub ifname: Seq<char>,
    pub proto: u8,
    pub direction: Direction,
    pub lan: Endpoint,
    pub gwy: Endpoint,
    pub ext_lan: Endpoint,
    pub ext_gwy: Endpoint,
    pub src_state: TimeoutState,
    pub dst_state: TimeoutState,
    pub packets: u64,
    pub bytes: u64,
    pub creation: u64,
    pub expire: u64,
    pub rule: u32,
    pub anchor: u32,
    pub nat_rule: u32,
}

impl View for StateEntry {
    type V = StateRecord;

    open spec fn view(&self) -> StateRecord {
        StateRecord {
            id: self.id,
            ifname: self.ifname@,
            proto: self.proto,
            direction: self.direction,
            lan: self.lan,
            gwy: self.gwy,
            ext_lan: self.ext_lan,
            ext_gwy: self.ext_gwy,
            src_state: self.src_state,
            dst_state: self.dst_state,
            packets: self.packets,
            bytes: self.bytes,
            creation: self.creation,
            expire: self.expire,
            rule: self.rule,
            anchor: self.anchor,
            nat_rule: self.nat_rule,
        }
    }
}

/// The sum of the four 32-bit counters that start at `offset`.
pub open spec fn counter_sum(bytes: Seq<u8>, offset: int) -> nat {
    be_field(bytes, offset, 4) + be_field(bytes, offset + 4, 4) + be_field(bytes, offset + 8, 4)
        + be_field(bytes, offset + 12, 4)
}

/// Whether a family tag names a family.
pub open spec fn known_family(tag: u8) -> bool {
    tag == AF_INET || tag == AF_INET6
}

/// The entry that the first `STATE_LEN` bytes of `bytes` hold.
///
/// The family tag of the LAN side reads the two LAN-side endpoints, that of
/// the gateway side the two gateway-side endpoints; the protocol number
/// reads every transport selector.
pub open spec fn spec_decode_state_entry(bytes: Seq<u8>) -> Result<StateRecord, PfError> {
    if bytes.len() < STATE_LEN {
        Err(PfError::TruncatedBuffer)
    } else if !known_family(bytes[OFF_AF_LAN as int]) || !known_family(bytes[OFF_AF_GWY as int]) {
        Err(PfError::MalformedRecord)
    } else if bytes[OFF_SRC_STATE as int] >= TIMEOUT_STATE_COUNT || bytes[OFF_DST_STATE as int]
        >= TIMEOUT_STATE_COUNT {
        Err(PfError::UnknownTimeoutState)
    } else {
        let proto = bytes[OFF_PROTO as int];
        let af_lan = bytes[OFF_AF_LAN as int];
        let af_gwy = bytes[OFF_AF_GWY as int];
        Ok(
            StateRecord {
                id: be_field(bytes, OFF_ID as int, 8) as u64,
                ifname: padded_name(field(bytes, OFF_IFNAME as int, IFNAME_LEN as int)),
                proto,
                direction: Direction::of_code(bytes[OFF_DIRECTION as int]),
                lan: spec_decode_endpoint(
                    field(bytes, OFF_LAN as int, ENDPOINT_LEN as int),
                    af_lan,
                    proto,
                ).unwrap(),
                gwy: spec_decode_endpoint(
                    field(bytes, OFF_GWY as int, ENDPOINT_LEN as int),
                    af_gwy,
                    proto,
                ).unwrap(),
                ext_lan: spec_decode_endpoint(
                    field(bytes, OFF_EXT_LAN as int, ENDPOINT_LEN as int),
                    af_lan,
                    proto,
                ).unwrap(),
                ext_gwy: spec_decode_endpoint(
                    field(bytes, OFF_EXT_GWY as int, ENDPOINT_LEN as int),
                    af_gwy,
                    proto,
                ).unwrap(),
                src_state: TimeoutState::of_code(bytes[OFF_SRC_STATE as int]).unwrap(),
                dst_state: TimeoutState::of_code(bytes[OFF_DST_STATE as int]).unwrap(),
                packets: counter_sum(bytes, OFF_PACKETS as int) as u64,
                bytes: counter_sum(bytes, OFF_BYTES as int) as u64,
                creation: be_field(bytes, OFF_CREATION as int, 8) as u64,
                expire: be_field(bytes, OFF_EXPIRE as int, 8) as u64,
                rule: be_field(bytes, OFF_RULE as int, 4) as u32,
                anchor: be_field(bytes, OFF_ANCHOR as int, 4) as u32,
                nat_rule: be_field(bytes, OFF_NAT_RULE as int, 4) as u32,
            },
        )
    }
}

/// What a decoding result holds, as a mathematical value.
pub open spec fn outcome_view(r: Result<StateEntry, PfError>) -> Result<StateRecord, PfError> {
    match r {
        Ok(entry) => Ok(entry@),
        Err(e) => Err(e),
    }
}

/// Adds up the four 32-bit counters that start at `offset`.
fn read_counter_sum(bytes: &[u8], offset: usize) -> (sum: u64)
    requires
        offset + 16 <= bytes@.len(),
    ensures
        sum == counter_sum(bytes@, offset as int),
{
    let end: usize = bytes.len();
    assert(offset + 16 <= end);
    let a: u64 = u32_at(bytes, offset) as u64;
    let b: u64 = u32_at(bytes, offset + 4) as u64;
    let c: u64 = u32_at(bytes, offset + 8) as u64;
    let d: u64 = u32_at(bytes, offset + 12) as u64;
    a + b + c + d
}

/// Decodes the endpoint at `offset` of a full record.
fn read_endpoint(bytes: &[u8], offset: usize, tag: u8, protocol: u8) -> (r: Result<
    Endpoint,
    PfError,
>)
    requires
        offset + ENDPOINT_LEN <= bytes@.len(),
    ensures
        r == spec_decode_endpoint(field(bytes@, offset as int, ENDPOINT_LEN as int), tag, protocol),
        r.is_ok() <==> known_family(tag),
        r.is_err() ==> r == Err::<Endpoint, PfError>(PfError::MalformedRecord),
{
    let end: usize = bytes.len();
    assert(offset + ENDPOINT_LEN <= end);
    let window = slice_subrange(bytes, offset, offset + ENDPOINT_LEN);
    decode_endpoint(window, tag, protocol)
}

/// Decodes one state record from the start of `bytes`.
///
/// Fails with `TruncatedBuffer` where fewer than `STATE_LEN` bytes are
/// there; else with `MalformedRecord` where a family tag names no family;
/// else with `UnknownTimeoutState` where a state byte is out of range.
/// Every numeric field is read in network byte order.
pub fn decode_state_entry(bytes: &[u8]) -> (r: Result<StateEntry, PfError>)
    ensures
        outcome_view(r) == spec_decode_state_entry(bytes@),
        r.is_ok() ==> r.unwrap().lan.wf() && r.unwrap().gwy.wf() && r.unwrap().ext_lan.wf()
            && r.unwrap().ext_gwy.wf(),
{
    if bytes.len() < STATE_LEN {
        return Err(PfError::TruncatedBuffer);
    }
    let proto: u8 = bytes[OFF_PROTO];
    let af_lan: u8 = bytes[OFF_AF_LAN];
    let af_gwy: u8 = bytes[OFF_AF_GWY];
    let lan = match read_endpoint(bytes, OFF_LAN, af_lan, proto) {
        Ok(e) => e,
        Err(e) => {
            return Err(e);
        },
    };
    let gwy = match read_endpoint(bytes, OFF_GWY, af_gwy, proto) {
        Ok(e) => e,
        Err(e) => {
            return Err(e);
        },
    };
    let ext_lan = match read_endpoint(bytes, OFF_EXT_LAN, af_lan, proto) {
        Ok(e) => e,
        Err(e) => {
            return Err(e);
        },
    };
    let ext_gwy = match read_endpoint(bytes, OFF_EXT_GWY, af_gwy, proto) {
        Ok(e) => e,
        Err(e) => {
            return Err(e);
        },
    };
    let src_byte: u8 = bytes[OFF_SRC_STATE];
    let dst_byte: u8 = bytes[OFF_DST_STATE];
    let src_state = match TimeoutState::from_u8(src_byte) {
        Ok(s) => s,
        Err(e) => {
            return Err(e);
        },
    };
    let dst_state = match TimeoutState::from_u8(dst_byte) {
        Ok(s) => s,
        Err(e) => {
            return Err(e);
        },
    };
    let ifname = decode_name(slice_subrange(bytes, OFF_IFNAME, OFF_IFNAME + IFNAME_LEN));
    Ok(
        StateEntry {
            id: u64_at(bytes, OFF_ID),
            ifname,
            proto,
            direction: Direction::from_u8(bytes[OFF_DIRECTION]),
            lan,
            gwy,
            ext_lan,
            ext_gwy,
            src_state,
            dst_state,
            packets: read_counter_sum(bytes, OFF_PACKETS),
            bytes: read_counter_sum(bytes, OFF_BYTES),
            creation: u64_at(bytes, OFF_CREATION),
            expire: u64_at(bytes, OFF_EXPIRE),
            rule: u32_at(bytes, OFF_RULE),
            anchor: u32_at(bytes, OFF_ANCHOR),
            nat_rule: u32_at(bytes, OFF_NAT_RULE),
        },
    )
}

/// When a record decodes, and which failure it gives when it does not.
pub proof fn lemma_decode_state_entry_outcome(bytes: Seq<u8>)
    ensures
        spec_decode_state_entry(bytes).is_ok() <==> {
            &&& bytes.len() >= STATE_LEN
            &&& known_family(bytes[OFF_AF_LAN as int])
            &&& known_family(bytes[OFF_AF_GWY as int])
            &&& bytes[OFF_SRC_STATE as int] < TIMEOUT_STATE_COUNT
            &&& bytes[OFF_DST_STATE as int] < TIMEOUT_STATE_COUNT
        },
        spec_decode_state_entry(bytes) == Err::<StateRecord, PfError>(PfError::TruncatedBuffer)
            <==> bytes.len() < STATE_LEN,
        spec_decode_state_entry(bytes) == Err::<StateRecord, PfError>(PfError::MalformedRecord)
            <==> bytes.len() >= STATE_LEN && !(known_family(bytes[OFF_AF_LAN as int])
            && known_family(bytes[OFF_AF_GWY as int])),
        spec_decode_state_entry(bytes) == Err::<StateRecord, PfError>(
            PfError::UnknownTimeoutState,
        ) <==> bytes.len() >= STATE_LEN && known_family(bytes[OFF_AF_LAN as int]) && known_family(
            bytes[OFF_AF_GWY as int],
        ) && !(bytes[OFF_SRC_STATE as int] < TIMEOUT_STATE_COUNT && bytes[OFF_DST_STATE as int]
            < TIMEOUT_STATE_COUNT),
{
}

impl StateRecord {
    /// Whether the gateway endpoint is displayed: only where translation
    /// shows, that is where it differs from the LAN endpoint in address or
    /// in selector.
    pub open spec fn shows_gateway(self) -> bool {
        self.lan.addr != self.gwy.addr || self.lan.xport != self.gwy.xport
    }

    /// The gateway segment of the line: the gateway endpoint and the
    /// direction once more, or nothing.
    pub open spec fn gateway_segment(self) -> Seq<char> {
        if self.shows_gateway() {
            self.gwy.text() + seq![' '] + self.direction.arrow() + seq![' ']
        } else {
            Seq::empty()
        }
    }

    /// The start of the line: interface, protocol, LAN endpoint and
    /// direction, each followed by a space.
    pub open spec fn line_head(self) -> Seq<char> {
        self.ifname + seq![' '] + protocol_label(self.proto) + seq![' '] + self.lan.text() + seq![
            ' ',
        ] + self.direction.arrow() + seq![' ']
    }

    /// The end of the line: the external endpoint, a space, and the two
    /// timeout states with a colon between them.
    pub open spec fn line_tail(self) -> Seq<char> {
        self.ext_lan.text() + seq![' '] + self.src_state.label() + seq![':']
            + self.dst_state.label()
    }

    /// The line under which the entry is displayed: its start, the gateway
    /// segment, its end.
    pub open spec fn line(self) -> Seq<char> {
        self.line_head() + self.gateway_segment() + self.line_tail()
    }
}

impl StateEntry {
    /// Whether the gateway endpoint is displayed.
    pub fn shows_gateway(&self) -> (b: bool)
        ensures
            b == self@.shows_gateway(),
    {
        self.lan.addr != self.gwy.addr || self.lan.xport != self.gwy.xport
    }

    /// Appends the start of the line.
    fn push_line_head(&self, out: &mut String)
        ensures
            final(out)@ == old(out)@ + self@.line_head(),
    {
        out.append(self.ifname.as_str());
        push_char(out, ' ');
        out.append(protocol_name(self.proto));
        push_char(out, ' ');
        let ghost mid = out@;
        proof {
            assert(mid =~= old(out)@ + (self.ifname@ + seq![' '] + protocol_label(self.proto)
                + seq![' ']));
        }
        self.lan.push_text(out);
        push_char(out, ' ');
        out.append(self.direction.as_str());
        push_char(out, ' ');
        proof {
            assert(out@ =~= mid + (self.lan.text() + seq![' '] + self.direction.arrow() + seq![
                ' ',
            ]));
            assert(out@ =~= old(out)@ + self@.line_head());
        }
    }

    /// Appends the gateway segment of the line.
    fn push_gateway_segment(&self, out: &mut String)
        ensures
            final(out)@ == old(out)@ + self@.gateway_segment(),
    {
        if self.shows_gateway() {
            self.gwy.push_text(out);
            push_char(out, ' ');
            out.append(self.direction.as_str());
            push_char(out, ' ');
        }
        proof {
            assert(out@ =~= old(out)@ + self@.gateway_segment());
        }
    }

    /// Appends the end of the line.
    fn push_line_tail(&self, out: &mut String)
        ensures
            final(out)@ == old(out)@ + self@.line_tail(),
    {
        self.ext_lan.push_text(out);
        push_char(out, ' ');
        out.append(self.src_state.as_str());
        push_char(out, ':');
        out.append(self.dst_state.as_str());
        proof {
            assert(out@ =~= old(out)@ + self@.line_tail());
        }
    }

    /// The line under which the entry is displayed.
    pub fn format(&self) -> (s: String)
        ensures
            s@ == self@.line(),
    {
        let mut s = String::new();
        self.push_line_head(&mut s);
        self.push_gateway_segment(&mut s);
        self.push_line_tail(&mut s);
        proof {
            assert(s@ =~= self@.line());
        }
        s
    }
}

/// The outcome for every record of a state table: the table is a 32-bit
/// count of records and then that many records of `STATE_LEN` bytes.
pub open spec fn spec_decode_state_table(buf: Seq<u8>) -> Result<
    Seq<Result<StateRecord, PfError>>,
    PfError,
> {
    if buf.len() < TABLE_HEADER_LEN {
        Err(PfError::TruncatedBuffer)
    } else if buf.len() - TABLE_HEADER_LEN != be_field(buf, 0, 4) * STATE_LEN {
        Err(PfError::TruncatedBuffer)
    } else {
        Ok(
            Seq::new(
                be_field(buf, 0, 4),
                |i: int|
                    spec_decode_state_entry(
                        field(buf, TABLE_HEADER_LEN + i * STATE_LEN, STATE_LEN as int),
                    ),
            ),
        )
    }
}

/// What a decoded table holds, as a mathematical value.
pub open spec fn table_view(entries: Seq<Result<StateEntry, PfError>>) -> Seq<
    Result<StateRecord, PfError>,
> {
    Seq::new(entries.len(), |i: int| outcome_view(entries[i]))
}

/// Decodes a state table as the kernel returns it.
///
/// Fails with `TruncatedBuffer` where the buffer does not hold exactly the
/// records that its count declares; nothing is decoded then. Otherwise
/// every record has its own outcome, in the order of the buffer: a record
/// that does not decode is reported in its place and does not stop the
/// others from being decoded.
pub fn decode_state_table(buf: &[u8]) -> (r: Result<Vec<Result<StateEntry, PfError>>, PfError>)
    ensures
        match r {
            Ok(entries) => spec_decode_state_table(buf@) == Ok::<
                Seq<Result<StateRecord, PfError>>,
                PfError,
            >(table_view(entries@)),
            Err(e) => spec_decode_state_table(buf@) == Err::<
                Seq<Result<StateRecord, PfError>>,
                PfError,
            >(e),
        },
{
    if buf.len() < TABLE_HEADER_LEN {
        return Err(PfError::TruncatedBuffer);
    }
    let total: usize = buf.len();
    let count: u32 = u32_at(buf, 0);
    let body: u64 = (buf.len() - TABLE_HEADER_LEN) as u64;
    if body != (count as u64) * (STATE_LEN as u64) {
        return Err(PfError::TruncatedBuffer);
    }
    let mut entries: Vec<Result<StateEntry, PfError>> = Vec::new();
    let mut i: usize = 0;
    while i < count as usize
        invariant
            i <= count,
            total == buf@.len(),
            count == be_field(buf@, 0, 4),
            buf@.len() == TABLE_HEADER_LEN + count * STATE_LEN,
            entries@.len() == i,
            forall|k: int|
                0 <= k < i ==> outcome_view(#[trigger] entries@[k]) == spec_decode_state_entry(
                    field(buf@, TABLE_HEADER_LEN + k * STATE_LEN, STATE_LEN as int),
                ),
        decreases count - i,
    {
        let start: usize = TABLE_HEADER_LEN + i * STATE_LEN;
        let record = slice_subrange(buf, start, start + STATE_LEN);
        entries.push(decode_state_entry(record));
        i = i + 1;
    }
    proof {
        assert(table_view(entries@) =~= spec_decode_state_table(buf@).unwrap());
    }
    Ok(entries)
}

/// What a list of raw records holds, as a mathematical value.
pub open spec fn records_view(records: Seq<Vec<u8>>) -> Seq<Seq<u8>> {
    Seq::new(records.len(), |i: int| records[i]@)
}

/// The records laid end to end.
pub open spec fn concat_records(records: Seq<Seq<u8>>) -> Seq<u8>
    decreases records.len(),
{
    if records.len() == 0 {
        Seq::empty()
    } else {
        concat_records(records.drop_last()) + records.last()
    }
}

/// A state table that holds `records`: their count, then the records.
pub open spec fn table_bytes(records: Seq<Seq<u8>>) -> Seq<u8> {
    be_bytes(records.len(), 4) + concat_records(records)
}

/// Whether every record has the size of a state record.
pub open spec fn whole_records(records: Seq<Seq<u8>>) -> bool {
    forall|i: int| 0 <= i < records.len() ==> (#[trigger] records[i]).len() == STATE_LEN
}

/// Whole records laid end to end: each lies at its multiple of the record
/// size.
pub proof fn lemma_concat_records(records: Seq<Seq<u8>>, i: int)
    requires
        whole_records(records),
        0 <= i < records.len(),
    ensures
        concat_records(records).len() == records.len() * STATE_LEN,
        field(concat_records(records), i * STATE_LEN, STATE_LEN as int) == records[i],
    decreases records.len(),
{
    let front = records.drop_last();
    assert(whole_records(front)) by {
        assert forall|k: int| 0 <= k < front.len() implies (#[trigger] front[k]).len()
            == STATE_LEN by {
            assert(front[k] == records[k]);
        }
    }
    lemma_concat_records_len(front);
    if i < records.len() - 1 {
        lemma_concat_records(front, i);
        assert(field(concat_records(records), i * STATE_LEN, STATE_LEN as int) =~= field(
            concat_records(front),
            i * STATE_LEN,
            STATE_LEN as int,
        ));
        assert(front[i] == records[i]);
    } else {
        assert(field(concat_records(records), i * STATE_LEN, STATE_LEN as int) =~= records[i]);
    }
}

/// Whole records laid end to end have the length of their count times the
/// record size.
pub proof fn lemma_concat_records_len(records: Seq<Seq<u8>>)
    requires
        whole_records(records),
    ensures
        concat_records(records).len() == records.len() * STATE_LEN,
    decreases records.len(),
{
    if records.len() > 0 {
        let front = records.drop_last();
        assert forall|k: int| 0 <= k < front.len() implies (#[trigger] front[k]).len()
            == STATE_LEN by {
            assert(front[k] == records[k]);
        }
        lemma_concat_records_len(front);
    }
}

/// A table built from whole records decodes to the outcome of each record,
/// in order: nothing is lost and nothing is added between encoding and
/// decoding.
pub proof fn lemma_state_table_round_trip(records: Seq<Seq<u8>>)
    requires
        whole_records(records),
        records.len() <= u32::MAX,
    ensures
        spec_decode_state_table(table_bytes(records)) == Ok::<
            Seq<Result<StateRecord, PfError>>,
            PfError,
        >(Seq::new(records.len(), |i: int| spec_decode_state_entry(records[i]))),
{
    let table = table_bytes(records);
    let count = records.len();
    lemma_radix_pow_values();
    lemma_be_bytes_len(count, 4);
    lemma_be_value_of_bytes(count, 4);
    lemma_concat_records_len(records);
    assert(field(table, 0, 4) =~= be_bytes(count, 4));
    let decoded = spec_decode_state_table(table).unwrap();
    let expected = Seq::new(count, |i: int| spec_decode_state_entry(records[i]));
    assert forall|i: int| 0 <= i < count implies decoded[i] == expected[i] by {
        lemma_concat_records(records, i);
        assert(field(table, TABLE_HEADER_LEN + i * STATE_LEN, STATE_LEN as int) =~= field(
            concat_records(records),
            i * STATE_LEN,
            STATE_LEN as int,
        ));
    }
    assert(decoded =~= expected);
}

/// Builds the state table that holds `records`.
pub fn encode_state_table(records: &Vec<Vec<u8>>) -> (table: Vec<u8>)
    requires
        records@.len() <= u32::MAX,
    ensures
        table@ == table_bytes(records_view(records@)),
{
    let mut table: Vec<u8> = Vec::new();
    push_u32(&mut table, records.len() as u32);
    let ghost header = table@;
    let mut i: usize = 0;
    while i < records.len()
        invariant
            i <= records@.len(),
            header == be_bytes(records@.len(), 4),
            table@ == header + concat_records(records_view(records@).take(i as int)),
        decreases records@.len() - i,
    {
        let record = &records[i];
        let ghost before = table@;
        let mut k: usize = 0;
        while k < record.len()
            invariant
                k <= record@.len(),
                table@ == before + record@.take(k as int),
            decreases record@.len() - k,
        {
            table.push(record[k]);
            k = k + 1;
            proof {
                assert(table@ =~= before + record@.take(k as int));
            }
        }
        i = i + 1;
        proof {
            let rows = records_view(records@);
            assert(record@.take(record@.len() as int) =~= record@);
            assert(rows.take(i as int).drop_last() =~= rows.take(i - 1));
            assert(rows.take(i as int).last() == record@);
            assert(table@ =~= header + concat_records(rows.take(i as int)));
        }
    }
    proof {
        let rows = records_view(records@);
        assert(rows.take(rows.len() as int) =~= rows);
    }
    table
}

} // verus!
