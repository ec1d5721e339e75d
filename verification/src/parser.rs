//! The streaming parser: skip leading whitespace, read one header line, read
//! body lines up to the blank line that closes the block, then interpret the
//! body by the recognized header. `Incomplete` never consumes input;
//! `Malformed` means no continuation of the input can make the block valid.
use vstd::prelude::*;

verus! {

use crate::text::{
    is_space,
    is_wsb,
    is_digit,
    count_leading,
    find_byte,
    trim,
    trim_end,
    trim_start,
    lower,
    dec_val,
    lemma_count_leading,
    lemma_count_leading_from,
    lemma_count_trailing,
    subvec,
    bytes_eq,
    trim_range,
    find_byte_from,
    skip_ws,
    skip_spaces,
    parse_u32,
    lower_vec,
};
use crate::wire::{
    HeaderKind,
    classify,
    classify_bytes,
    DevField,
    classify_dev_key,
    classify_dev_key_bytes,
    StatusTok,
    classify_status_tok,
    classify_status_tok_bytes,
    tok_true,
    tok_false,
    tok_needs_update,
    tok_true_bytes,
    tok_false_bytes,
    tok_needs_update_bytes,
    version_key,
    version_key_bytes,
};
use crate::model::{
    Preamble,
    Present,
    LockState,
    Label,
    Route,
    Lock,
    HardwarePort,
    HardwarePortType,
    Alarm,
    Setting,
    UnknownKVPair,
    DeviceInfo,
    VideohubMessage,
    LabelV,
    HwPortV,
    HwTypeV,
    AlarmV,
    SettingV,
    KVPairV,
    DeviceInfoV,
    MsgV,
    PreambleV,
    labels_view,
    ports_view,
    alarms_view,
    settings_view,
    is_blank_line,
};

/// Why a parse returned nothing.
#[derive(Clone, Copy, Debug, PartialEq, Eq)]
pub enum ParseError {
    /// More bytes may complete the block; the input was not consumed.
    Incomplete,
    /// No continuation of the input can form a valid block.
    Malformed,
}

/// Outcome of parsing one block, as mathematics.
pub enum SpecParse {
    Incomplete,
    Malformed,
    Parsed { msg: MsgV, len: int },
}

/// Outcome of splitting a body from the bytes that follow a header line:
/// the raw body (its lines, blank terminator excluded) and the bytes consumed
/// (terminator included).
pub enum BodySplit {
    Incomplete,
    Found { body: Seq<u8>, advance: int },
}

/// Collect raw lines until the first blank one.
pub open spec fn split_body(s: Seq<u8>) -> BodySplit
    decreases s.len(),
{
    let nl = find_byte(s, 10);
    if nl < 0 || nl >= s.len() {
        BodySplit::Incomplete
    } else if is_blank_line(s.take(nl)) {
        BodySplit::Found { body: Seq::empty(), advance: nl + 1 }
    } else {
        match split_body(s.skip(nl + 1)) {
            BodySplit::Incomplete => BodySplit::Incomplete,
            BodySplit::Found { body, advance } => BodySplit::Found {
                body: s.take(nl + 1) + body,
                advance: nl + 1 + advance,
            },
        }
    }
}

// ------------------------------------------------------------------
// Line interpretations
// ------------------------------------------------------------------
/// `<id> <name>`: decimal id, at least one separator, trimmed name.
pub open spec fn parse_label_line(line: Seq<u8>) -> Option<LabelV> {
    let d = count_leading(line, |b: u8| is_digit(b));
    if d == 0 || dec_val(line.take(d)) > u32::MAX {
        None
    } else {
        let rest = line.skip(d);
        if rest.len() == 0 || !is_space(rest[0]) {
            None
        } else {
            Some(LabelV { id: dec_val(line.take(d)) as u32, name: trim(rest) })
        }
    }
}

/// `<to> <from>`: two decimal numbers, then only trailing whitespace.
pub open spec fn parse_route_line(line: Seq<u8>) -> Option<Route> {
    let d1 = count_leading(line, |b: u8| is_digit(b));
    if d1 == 0 || dec_val(line.take(d1)) > u32::MAX {
        None
    } else {
        let r1 = line.skip(d1);
        let sp = count_leading(r1, |b: u8| is_space(b));
        if sp == 0 {
            None
        } else {
            let r2 = r1.skip(sp);
            let d2 = count_leading(r2, |b: u8| is_digit(b));
            if d2 == 0 || dec_val(r2.take(d2)) > u32::MAX {
                None
            } else {
                let r3 = r2.skip(d2);
                if forall|q: int| 0 <= q < r3.len() ==> is_wsb(#[trigger] r3[q]) {
                    Some(
                        Route {
                            to_output: dec_val(line.take(d1)) as u32,
                            from_input: dec_val(r2.take(d2)) as u32,
                        },
                    )
                } else {
                    None
                }
            }
        }
    }
}

/// `<id> <O|L|U>`, case-insensitive.
pub open spec fn parse_lock_line(line: Seq<u8>) -> Option<Lock> {
    let d = count_leading(line, |b: u8| is_digit(b));
    if d == 0 || dec_val(line.take(d)) > u32::MAX {
        None
    } else {
        let rest = line.skip(d);
        if rest.len() == 0 || !is_space(rest[0]) {
            None
        } else {
            let tok = trim(rest);
            let id = dec_val(line.take(d)) as u32;
            if tok == seq![79u8] || tok == seq![111u8] {
                Some(Lock { id, state: LockState::Owned })
            } else if tok == seq![76u8] || tok == seq![108u8] {
                Some(Lock { id, state: LockState::Locked })
            } else if tok == seq![85u8] || tok == seq![117u8] {
                Some(Lock { id, state: LockState::Unlocked })
            } else {
                None
            }
        }
    }
}

/// `<id> <port-type>`: a typed token, case-insensitive, or anything else
/// preserved verbatim.
pub open spec fn parse_status_line(line: Seq<u8>) -> Option<HwPortV> {
    let d = count_leading(line, |b: u8| is_digit(b));
    if d == 0 || dec_val(line.take(d)) > u32::MAX {
        None
    } else {
        let rest = line.skip(d);
        if rest.len() == 0 || !is_space(rest[0]) {
            None
        } else {
            let tok = trim(rest);
            let id = dec_val(line.take(d)) as u32;
            match classify_status_tok(tok) {
                Some(StatusTok::NoPort) => Some(HwPortV { id, port_type: HwTypeV::NoPort }),
                Some(StatusTok::Bnc) => Some(HwPortV { id, port_type: HwTypeV::BNC }),
                Some(StatusTok::Optical) => Some(HwPortV { id, port_type: HwTypeV::Optical }),
                Some(StatusTok::Thunderbolt) => Some(
                    HwPortV { id, port_type: HwTypeV::Thunderbolt },
                ),
                Some(StatusTok::Rs422) => Some(HwPortV { id, port_type: HwTypeV::RS422 }),
                None => Some(HwPortV { id, port_type: HwTypeV::Other(tok) }),
            }
        }
    }
}

/// `Key: Value`: key before the first colon, trimmed; a separator after the
/// colon; value trimmed.
pub open spec fn parse_kv_line(line: Seq<u8>) -> Option<(Seq<u8>, Seq<u8>)> {
    let c = find_byte(line, 58);
    if c < 0 {
        None
    } else {
        let after = line.skip(c + 1);
        if after.len() == 0 || !is_space(after[0]) {
            None
        } else {
            Some((trim(line.take(c)), trim(after)))
        }
    }
}

// ------------------------------------------------------------------
// Body interpretations
// ------------------------------------------------------------------
pub open spec fn interp_labels(b: Seq<u8>) -> Option<Seq<LabelV>>
    decreases b.len(),
{
    if b.len() == 0 {
        Some(Seq::empty())
    } else {
        let nl = find_byte(b, 10);
        if nl < 0 || nl >= b.len() {
            None
        } else {
            match parse_label_line(b.take(nl)) {
                None => None,
                Some(l) => match interp_labels(b.skip(nl + 1)) {
                    None => None,
                    Some(rest) => Some(seq![l] + rest),
                },
            }
        }
    }
}

pub open spec fn interp_routes(b: Seq<u8>) -> Option<Seq<Route>>
    decreases b.len(),
{
    if b.len() == 0 {
        Some(Seq::empty())
    } else {
        let nl = find_byte(b, 10);
        if nl < 0 || nl >= b.len() {
            None
        } else {
            match parse_route_line(b.take(nl)) {
                None => None,
                Some(r) => match interp_routes(b.skip(nl + 1)) {
                    None => None,
                    Some(rest) => Some(seq![r] + rest),
                },
            }
        }
    }
}

pub open spec fn interp_locks(b: Seq<u8>) -> Option<Seq<Lock>>
    decreases b.len(),
{
    if b.len() == 0 {
        Some(Seq::empty())
    } else {
        let nl = find_byte(b, 10);
        if nl < 0 || nl >= b.len() {
            None
        } else {
            match parse_lock_line(b.take(nl)) {
                None => None,
                Some(l) => match interp_locks(b.skip(nl + 1)) {
                    None => None,
                    Some(rest) => Some(seq![l] + rest),
                },
            }
        }
    }
}

pub open spec fn interp_ports(b: Seq<u8>) -> Option<Seq<HwPortV>>
    decreases b.len(),
{
    if b.len() == 0 {
        Some(Seq::empty())
    } else {
        let nl = find_byte(b, 10);
        if nl < 0 || nl >= b.len() {
            None
        } else {
            match parse_status_line(b.take(nl)) {
                None => None,
                Some(p) => match interp_ports(b.skip(nl + 1)) {
                    None => None,
                    Some(rest) => Some(seq![p] + rest),
                },
            }
        }
    }
}

pub open spec fn interp_alarms(b: Seq<u8>) -> Option<Seq<AlarmV>>
    decreases b.len(),
{
    if b.len() == 0 {
        Some(Seq::empty())
    } else {
        let nl = find_byte(b, 10);
        if nl < 0 || nl >= b.len() {
            None
        } else {
            match parse_kv_line(b.take(nl)) {
                None => None,
                Some(kv) => match interp_alarms(b.skip(nl + 1)) {
                    None => None,
                    Some(rest) => Some(seq![AlarmV { name: kv.0, status: kv.1 }] + rest),
                },
            }
        }
    }
}

pub open spec fn interp_settings(b: Seq<u8>) -> Option<Seq<SettingV>>
    decreases b.len(),
{
    if b.len() == 0 {
        Some(Seq::empty())
    } else {
        let nl = find_byte(b, 10);
        if nl < 0 || nl >= b.len() {
            None
        } else {
            match parse_kv_line(b.take(nl)) {
                None => None,
                Some(kv) => match interp_settings(b.skip(nl + 1)) {
                    None => None,
                    Some(rest) => Some(seq![SettingV { setting: kv.0, value: kv.1 }] + rest),
                },
            }
        }
    }
}

/// `Version: <text>` on the first body line; later lines are ignored.
pub open spec fn interp_preamble(b: Seq<u8>) -> Option<PreambleV> {
    let nl = find_byte(b, 10);
    if nl < 0 {
        None
    } else {
        let line = b.take(nl);
        if line.len() >= 8 && lower(line.take(7)) == lower(version_key()) && line[7] == 58 {
            Some(PreambleV { version: trim(line.skip(8)) })
        } else {
            None
        }
    }
}

pub open spec fn empty_device() -> DeviceInfoV {
    DeviceInfoV {
        present: None,
        model_name: None,
        friendly_name: None,
        unique_id: None,
        video_inputs: None,
        video_processing_units: None,
        video_outputs: None,
        video_monitoring_outputs: None,
        serial_ports: None,
        unknown_fields: None,
    }
}

/// A whole decimal value, digits only.
pub open spec fn parse_count(v: Seq<u8>) -> Option<u32> {
    if v.len() > 0 && count_leading(v, |b: u8| is_digit(b)) == v.len() && dec_val(v) <= u32::MAX {
        Some(dec_val(v) as u32)
    } else {
        None
    }
}

/// Apply one `Key: Value` pair to the device info under construction.
pub open spec fn dev_apply(acc: DeviceInfoV, k: Seq<u8>, v: Seq<u8>) -> Option<DeviceInfoV> {
    match classify_dev_key(k) {
        Some(DevField::Present) => {
            if v == tok_true() {
                Some(DeviceInfoV { present: Some(Present::Yes), ..acc })
            } else if v == tok_false() {
                Some(DeviceInfoV { present: Some(Present::No), ..acc })
            } else if v == tok_needs_update() {
                Some(DeviceInfoV { present: Some(Present::NeedsUpdate), ..acc })
            } else {
                None
            }
        },
        Some(DevField::Model) => Some(DeviceInfoV { model_name: Some(v), ..acc }),
        Some(DevField::Friendly) => Some(DeviceInfoV { friendly_name: Some(v), ..acc }),
        Some(DevField::Unique) => Some(DeviceInfoV { unique_id: Some(v), ..acc }),
        Some(DevField::Inputs) => match parse_count(v) {
            Some(n) => Some(DeviceInfoV { video_inputs: Some(n), ..acc }),
            None => None,
        },
        Some(DevField::Processing) => match parse_count(v) {
            Some(n) => Some(DeviceInfoV { video_processing_units: Some(n), ..acc }),
            None => None,
        },
        Some(DevField::Outputs) => match parse_count(v) {
            Some(n) => Some(DeviceInfoV { video_outputs: Some(n), ..acc }),
            None => None,
        },
        Some(DevField::Monitoring) => match parse_count(v) {
            Some(n) => Some(DeviceInfoV { video_monitoring_outputs: Some(n), ..acc }),
            None => None,
        },
        Some(DevField::Serial) => match parse_count(v) {
            Some(n) => Some(DeviceInfoV { serial_ports: Some(n), ..acc }),
            None => None,
        },
        None => {
            let pair = KVPairV { key: k, value: v };
            match acc.unknown_fields {
                Some(ps) => Some(DeviceInfoV { unknown_fields: Some(ps.push(pair)), ..acc }),
                None => Some(
                    DeviceInfoV { unknown_fields: Some(Seq::empty().push(pair)), ..acc },
                ),
            }
        },
    }
}

pub open spec fn interp_device_from(acc: DeviceInfoV, b: Seq<u8>) -> Option<DeviceInfoV>
    decreases b.len(),
{
    if b.len() == 0 {
        Some(acc)
    } else {
        let nl = find_byte(b, 10);
        if nl < 0 || nl >= b.len() {
            None
        } else {
            match parse_kv_line(b.take(nl)) {
                None => None,
                Some(kv) => match dev_apply(acc, kv.0, kv.1) {
                    None => None,
                    Some(acc2) => interp_device_from(acc2, b.skip(nl + 1)),
                },
            }
        }
    }
}

// ------------------------------------------------------------------
// Block interpretation
// ------------------------------------------------------------------
/// Interpret one framed block. `None` is a protocol error; an unrecognized
/// header is not an error but an `UnknownMessage`.
pub open spec fn interp_block(header: Seq<u8>, body: Seq<u8>) -> Option<MsgV> {
    match classify(header) {
        Some(HeaderKind::Preamble) => match interp_preamble(body) {
            Some(p) => Some(MsgV::Preamble(p)),
            None => None,
        },
        Some(HeaderKind::Device) => match interp_device_from(empty_device(), body) {
            Some(d) => Some(MsgV::DeviceInfo(d)),
            None => None,
        },
        Some(HeaderKind::InputLabels) => match interp_labels(body) {
            Some(ls) => Some(MsgV::InputLabels(ls)),
            None => None,
        },
        Some(HeaderKind::OutputLabels) => match interp_labels(body) {
            Some(ls) => Some(MsgV::OutputLabels(ls)),
            None => None,
        },
        Some(HeaderKind::MonitorOutputLabels) => match interp_labels(body) {
            Some(ls) => Some(MsgV::MonitorOutputLabels(ls)),
            None => None,
        },
        Some(HeaderKind::SerialPortLabels) => match interp_labels(body) {
            Some(ls) => Some(MsgV::SerialPortLabels(ls)),
            None => None,
        },
        Some(HeaderKind::FrameLabels) => match interp_labels(body) {
            Some(ls) => Some(MsgV::FrameLabels(ls)),
            None => None,
        },
        Some(HeaderKind::VideoOutputRouting) => match interp_routes(body) {
            Some(rs) => Some(MsgV::VideoOutputRouting(rs)),
            None => None,
        },
        Some(HeaderKind::VideoMonitoringOutputRouting) => match interp_routes(body) {
            Some(rs) => Some(MsgV::VideoMonitoringOutputRouting(rs)),
            None => None,
        },
        Some(HeaderKind::SerialPortRouting) => match interp_routes(body) {
            Some(rs) => Some(MsgV::SerialPortRouting(rs)),
            None => None,
        },
        Some(HeaderKind::ProcessingUnitRouting) => match interp_routes(body) {
            Some(rs) => Some(MsgV::ProcessingUnitRouting(rs)),
            None => None,
        },
        Some(HeaderKind::FrameBufferRouting) => match interp_routes(body) {
            Some(rs) => Some(MsgV::FrameBufferRouting(rs)),
            None => None,
        },
        Some(HeaderKind::VideoOutputLocks) => match interp_locks(body) {
            Some(xs) => Some(MsgV::VideoOutputLocks(xs)),
            None => None,
        },
        Some(HeaderKind::MonitoringOutputLocks) => match interp_locks(body) {
            Some(xs) => Some(MsgV::MonitoringOutputLocks(xs)),
            None => None,
        },
        Some(HeaderKind::SerialPortLocks) => match interp_locks(body) {
            Some(xs) => Some(MsgV::SerialPortLocks(xs)),
            None => None,
        },
        Some(HeaderKind::ProcessingUnitLocks) => match interp_locks(body) {
            Some(xs) => Some(MsgV::ProcessingUnitLocks(xs)),
            None => None,
        },
        Some(HeaderKind::FrameBufferLocks) => match interp_locks(body) {
            Some(xs) => Some(MsgV::FrameBufferLocks(xs)),
            None => None,
        },
        Some(HeaderKind::VideoInputStatus) => match interp_ports(body) {
            Some(ps) => Some(MsgV::VideoInputStatus(ps)),
            None => None,
        },
        Some(HeaderKind::VideoOutputStatus) => match interp_ports(body) {
            Some(ps) => Some(MsgV::VideoOutputStatus(ps)),
            None => None,
        },
        Some(HeaderKind::SerialPortStatus) => match interp_ports(body) {
            Some(ps) => Some(MsgV::SerialPortStatus(ps)),
            None => None,
        },
        Some(HeaderKind::AlarmStatus) => match interp_alarms(body) {
            Some(xs) => Some(MsgV::AlarmStatus(xs)),
            None => None,
        },
        Some(HeaderKind::Configuration) => match interp_settings(body) {
            Some(xs) => Some(MsgV::Configuration(xs)),
            None => None,
        },
        Some(HeaderKind::Ack) => Some(MsgV::ACK),
        Some(HeaderKind::Nak) => Some(MsgV::NAK),
        Some(HeaderKind::Ping) => Some(MsgV::Ping),
        Some(HeaderKind::EndPrelude) => Some(MsgV::EndPrelude),
        None => Some(MsgV::UnknownMessage(header, body)),
    }
}

/// Parse one block from the front of `s`.
pub open spec fn spec_parse_block(s: Seq<u8>) -> SpecParse {
    let w = count_leading(s, |b: u8| is_wsb(b));
    let t = s.skip(w);
    let nl = find_byte(t, 10);
    if nl < 0 {
        SpecParse::Incomplete
    } else {
        let header = trim_end(t.take(nl));
        match split_body(t.skip(nl + 1)) {
            BodySplit::Incomplete => SpecParse::Incomplete,
            BodySplit::Found { body, advance } => match interp_block(header, body) {
                None => SpecParse::Malformed,
                Some(m) => SpecParse::Parsed { msg: m, len: w + nl + 1 + advance },
            },
        }
    }
}

// ------------------------------------------------------------------
// Executable line parsers
// ------------------------------------------------------------------
fn parse_label_line_exec(line: &Vec<u8>) -> (r: Option<Label>)
    ensures
        match r {
            Some(l) => parse_label_line(line@) == Some(l@),
            None => parse_label_line(line@) == None::<LabelV>,
        },
{
    proof {
        assert(line@.skip(0) =~= line@);
    }
    match parse_u32(line, 0) {
        None => None,
        Some((n, end)) => {
            if end >= line.len() {
                None
            } else {
                let b = line[end];
                if b == 32 || b == 9 {
                    let name = trim_range(line, end, line.len());
                    proof {
                        let d = count_leading(line@, |b: u8| is_digit(b));
                        assert(line@.subrange(end as int, line@.len() as int) =~= line@.skip(
                            d,
                        ));
                        assert(line@.skip(d)[0] == line@[end as int]);
                    }
                    Some(Label { id: n, name })
                } else {
                    proof {
                        let d = count_leading(line@, |b: u8| is_digit(b));
                        assert(line@.skip(d)[0] == line@[end as int]);
                    }
                    None
                }
            }
        },
    }
}

#[verifier::rlimit(60)]
fn parse_route_line_exec(line: &Vec<u8>) -> (r: Option<Route>)
    ensures
        match r {
            Some(x) => parse_route_line(line@) == Some(x),
            None => parse_route_line(line@) == None::<Route>,
        },
{
    proof {
        assert(line@.skip(0) =~= line@);
    }
    match parse_u32(line, 0) {
        None => None,
        Some((to, end)) => {
            let j = skip_spaces(line, end);
            proof {
                let d1 = count_leading(line@, |b: u8| is_digit(b));
                assert(line@.skip(end as int) == line@.skip(d1));
            }
            if j == end {
                return None;
            }
            match parse_u32(line, j) {
                None => {
                    proof {
                        let d1 = count_leading(line@, |b: u8| is_digit(b));
                        assert(line@.skip(d1).skip((j - end) as int) =~= line@.skip(j as int));
                    }
                    None
                },
                Some((from, end2)) => {
                    proof {
                        let d1 = count_leading(line@, |b: u8| is_digit(b));
                        assert(line@.skip(d1).skip((j - end) as int) =~= line@.skip(j as int));
                        assert(line@.skip(j as int).skip((end2 - j) as int) =~= line@.skip(
                            end2 as int,
                        ));
                    }
                    let mut k: usize = end2;
                    while k < line.len() && (line[k] == 32 || line[k] == 9 || line[k] == 13
                        || line[k] == 10)
                        invariant
                            end2 <= k <= line.len(),
                            forall|q: int|
                                end2 <= q < k ==> is_wsb(#[trigger] line@[q]),
                        decreases line.len() - k,
                    {
                        k = k + 1;
                    }
                    let ghost r3 = line@.skip(end2 as int);
                    if k == line.len() {
                        proof {
                            assert forall|q: int| 0 <= q < r3.len() implies is_wsb(
                                #[trigger] r3[q],
                            ) by {
                                assert(r3[q] == line@[q + end2]);
                            }
                        }
                        Some(Route { to_output: to, from_input: from })
                    } else {
                        proof {
                            assert(r3[k - end2] == line@[k as int]);
                            assert(!is_wsb(r3[k - end2]));
                        }
                        None
                    }
                },
            }
        },
    }
}

fn parse_lock_line_exec(line: &Vec<u8>) -> (r: Option<Lock>)
    ensures
        match r {
            Some(x) => parse_lock_line(line@) == Some(x),
            None => parse_lock_line(line@) == None::<Lock>,
        },
{
    proof {
        assert(line@.skip(0) =~= line@);
    }
    match parse_u32(line, 0) {
        None => None,
        Some((n, end)) => {
            if end >= line.len() {
                None
            } else {
                let b = line[end];
                proof {
                    let d = count_leading(line@, |b: u8| is_digit(b));
                    assert(line@.skip(d)[0] == line@[end as int]);
                }
                if b == 32 || b == 9 {
                    let tok = trim_range(line, end, line.len());
                    proof {
                        let d = count_leading(line@, |b: u8| is_digit(b));
                        assert(line@.subrange(end as int, line@.len() as int) =~= line@.skip(d));
                    }
                    if tok.len() == 1 {
                        let t = tok[0];
                        proof {
                            if t == 79 || t == 111 {
                                assert(tok@ =~= seq![t]);
                            } else if t == 76 || t == 108 {
                                assert(tok@ =~= seq![t]);
                            } else if t == 85 || t == 117 {
                                assert(tok@ =~= seq![t]);
                            }
                        }
                        if t == 79 || t == 111 {
                            Some(Lock { id: n, state: LockState::Owned })
                        } else if t == 76 || t == 108 {
                            Some(Lock { id: n, state: LockState::Locked })
                        } else if t == 85 || t == 117 {
                            Some(Lock { id: n, state: LockState::Unlocked })
                        } else {
                            proof {
                                assert(tok@[0] == t);
                            }
                            None
                        }
                    } else {
                        proof {
                            assert(tok@.len() != 1);
                        }
                        None
                    }
                } else {
                    None
                }
            }
        },
    }
}

fn parse_status_line_exec(line: &Vec<u8>) -> (r: Option<HardwarePort>)
    ensures
        match r {
            Some(p) => parse_status_line(line@) == Some(p@),
            None => parse_status_line(line@) == None::<HwPortV>,
        },
{
    proof {
        assert(line@.skip(0) =~= line@);
    }
    match parse_u32(line, 0) {
        None => None,
        Some((n, end)) => {
            if end >= line.len() {
                None
            } else {
                let b = line[end];
                proof {
                    let d = count_leading(line@, |b: u8| is_digit(b));
                    assert(line@.skip(d)[0] == line@[end as int]);
                }
                if b == 32 || b == 9 {
                    let tok = trim_range(line, end, line.len());
                    proof {
                        let d = count_leading(line@, |b: u8| is_digit(b));
                        assert(line@.subrange(end as int, line@.len() as int) =~= line@.skip(d));
                    }
                    match classify_status_tok_bytes(&tok) {
                        Some(StatusTok::NoPort) => Some(
                            HardwarePort { id: n, port_type: HardwarePortType::NoPort },
                        ),
                        Some(StatusTok::Bnc) => Some(
                            HardwarePort { id: n, port_type: HardwarePortType::BNC },
                        ),
                        Some(StatusTok::Optical) => Some(
                            HardwarePort { id: n, port_type: HardwarePortType::Optical },
                        ),
                        Some(StatusTok::Thunderbolt) => Some(
                            HardwarePort { id: n, port_type: HardwarePortType::Thunderbolt },
                        ),
                        Some(StatusTok::Rs422) => Some(
                            HardwarePort { id: n, port_type: HardwarePortType::RS422 },
                        ),
                        None => Some(
                            HardwarePort { id: n, port_type: HardwarePortType::Other(tok) },
                        ),
                    }
                } else {
                    None
                }
            }
        },
    }
}

fn parse_kv_line_exec(line: &Vec<u8>) -> (r: Option<(Vec<u8>, Vec<u8>)>)
    ensures
        match r {
            Some(kv) => parse_kv_line(line@) == Some((kv.0@, kv.1@)),
            None => parse_kv_line(line@) == None::<(Seq<u8>, Seq<u8>)>,
        },
{
    proof {
        assert(line@.skip(0) =~= line@);
    }
    match find_byte_from(line, 0, 58) {
        None => None,
        Some(c) => {
            if c + 1 >= line.len() {
                proof {
                    assert(line@.skip(c + 1) =~= Seq::<u8>::empty());
                }
                None
            } else {
                let b = line[c + 1];
                proof {
                    assert(line@.skip(c + 1)[0] == line@[c + 1]);
                }
                if b == 32 || b == 9 {
                    let key = trim_range(line, 0, c);
                    let value = trim_range(line, c + 1, line.len());
                    proof {
                        assert(line@.subrange(0, c as int) =~= line@.take(c as int));
                        assert(line@.subrange(c + 1, line@.len() as int) =~= line@.skip(c + 1));
                    }
                    Some((key, value))
                } else {
                    None
                }
            }
        },
    }
}

// ------------------------------------------------------------------
// Executable body parsers
// ------------------------------------------------------------------
fn parse_labels_body(body: &Vec<u8>) -> (r: Option<Vec<Label>>)
    ensures
        match r {
            Some(v) => interp_labels(body@) == Some(labels_view(v@)),
            None => interp_labels(body@) == None::<Seq<LabelV>>,
        },
{
    let mut out: Vec<Label> = Vec::new();
    let mut pos: usize = 0;
    proof {
        assert(body@.skip(0) =~= body@);
        assert(labels_view(out@) =~= Seq::<LabelV>::empty());
        match interp_labels(body@) {
            Some(rest) => {
                assert(Seq::<LabelV>::empty() + rest =~= rest);
            },
            None => {},
        }
    }
    loop
        invariant
            pos <= body.len(),
            match interp_labels(body@.skip(pos as int)) {
                Some(rest) => interp_labels(body@) == Some(labels_view(out@) + rest),
                None => interp_labels(body@) == None::<Seq<LabelV>>,
            },
        decreases body.len() - pos,
    {
        if pos >= body.len() {
            proof {
                assert(body@.skip(pos as int) =~= Seq::<u8>::empty());
                assert(labels_view(out@) + Seq::<LabelV>::empty() =~= labels_view(out@));
            }
            return Some(out);
        }
        let ghost s = body@.skip(pos as int);
        match find_byte_from(body, pos, 10) {
            None => {
                return None;
            },
            Some(nlpos) => {
                let line = subvec(body, pos, nlpos);
                proof {
                    assert(line@ =~= s.take((nlpos - pos) as int));
                }
                match parse_label_line_exec(&line) {
                    None => {
                        return None;
                    },
                    Some(l) => {
                        proof {
                            assert(s.skip((nlpos - pos) as int + 1) =~= body@.skip(nlpos + 1));
                        }
                        let ghost before = labels_view(out@);
                        out.push(l);
                        proof {
                            assert(labels_view(out@) =~= before.push(l@));
                            match interp_labels(body@.skip(nlpos + 1)) {
                                Some(rest2) => {
                                    assert(interp_labels(s) == Some(seq![l@] + rest2));
                                    assert(before + (seq![l@] + rest2) =~= before.push(l@)
                                        + rest2);
                                },
                                None => {
                                    assert(interp_labels(s) == None::<Seq<LabelV>>);
                                },
                            }
                        }
                        pos = nlpos + 1;
                    },
                }
            },
        }
    }
}

fn parse_routes_body(body: &Vec<u8>) -> (r: Option<Vec<Route>>)
    ensures
        match r {
            Some(v) => interp_routes(body@) == Some(v@),
            None => interp_routes(body@) == None::<Seq<Route>>,
        },
{
    let mut out: Vec<Route> = Vec::new();
    let mut pos: usize = 0;
    proof {
        assert(body@.skip(0) =~= body@);
        assert(out@ =~= Seq::<Route>::empty());
        match interp_routes(body@) {
            Some(rest) => {
                assert(Seq::<Route>::empty() + rest =~= rest);
            },
            None => {},
        }
    }
    loop
        invariant
            pos <= body.len(),
            match interp_routes(body@.skip(pos as int)) {
                Some(rest) => interp_routes(body@) == Some(out@ + rest),
                None => interp_routes(body@) == None::<Seq<Route>>,
            },
        decreases body.len() - pos,
    {
        if pos >= body.len() {
            proof {
                assert(body@.skip(pos as int) =~= Seq::<u8>::empty());
                assert(out@ + Seq::<Route>::empty() =~= out@);
            }
            return Some(out);
        }
        let ghost s = body@.skip(pos as int);
        match find_byte_from(body, pos, 10) {
            None => {
                return None;
            },
            Some(nlpos) => {
                let line = subvec(body, pos, nlpos);
                proof {
                    assert(line@ =~= s.take((nlpos - pos) as int));
                }
                match parse_route_line_exec(&line) {
                    None => {
                        return None;
                    },
                    Some(x) => {
                        proof {
                            assert(s.skip((nlpos - pos) as int + 1) =~= body@.skip(nlpos + 1));
                        }
                        let ghost before = out@;
                        out.push(x);
                        proof {
                            match interp_routes(body@.skip(nlpos + 1)) {
                                Some(rest2) => {
                                    assert(interp_routes(s) == Some(seq![x] + rest2));
                                    assert(before + (seq![x] + rest2) =~= before.push(x) + rest2);
                                },
                                None => {
                                    assert(interp_routes(s) == None::<Seq<Route>>);
                                },
                            }
                        }
                        pos = nlpos + 1;
                    },
                }
            },
        }
    }
}

fn parse_locks_body(body: &Vec<u8>) -> (r: Option<Vec<Lock>>)
    ensures
        match r {
            Some(v) => interp_locks(body@) == Some(v@),
            None => interp_locks(body@) == None::<Seq<Lock>>,
        },
{
    let mut out: Vec<Lock> = Vec::new();
    let mut pos: usize = 0;
    proof {
        assert(body@.skip(0) =~= body@);
        assert(out@ =~= Seq::<Lock>::empty());
        match interp_locks(body@) {
            Some(rest) => {
                assert(Seq::<Lock>::empty() + rest =~= rest);
            },
            None => {},
        }
    }
    loop
        invariant
            pos <= body.len(),
            match interp_locks(body@.skip(pos as int)) {
                Some(rest) => interp_locks(body@) == Some(out@ + rest),
                None => interp_locks(body@) == None::<Seq<Lock>>,
            },
        decreases body.len() - pos,
    {
        if pos >= body.len() {
            proof {
                assert(body@.skip(pos as int) =~= Seq::<u8>::empty());
                assert(out@ + Seq::<Lock>::empty() =~= out@);
            }
            return Some(out);
        }
        let ghost s = body@.skip(pos as int);
        match find_byte_from(body, pos, 10) {
            None => {
                return None;
            },
            Some(nlpos) => {
                let line = subvec(body, pos, nlpos);
                proof {
                    assert(line@ =~= s.take((nlpos - pos) as int));
                }
                match parse_lock_line_exec(&line) {
                    None => {
                        return None;
                    },
                    Some(x) => {
                        proof {
                            assert(s.skip((nlpos - pos) as int + 1) =~= body@.skip(nlpos + 1));
                        }
                        let ghost before = out@;
                        out.push(x);
                        proof {
                            match interp_locks(body@.skip(nlpos + 1)) {
                                Some(rest2) => {
                                    assert(interp_locks(s) == Some(seq![x] + rest2));
                                    assert(before + (seq![x] + rest2) =~= before.push(x) + rest2);
                                },
                                None => {
                                    assert(interp_locks(s) == None::<Seq<Lock>>);
                                },
                            }
                        }
                        pos = nlpos + 1;
                    },
                }
            },
        }
    }
}

fn parse_ports_body(body: &Vec<u8>) -> (r: Option<Vec<HardwarePort>>)
    ensures
        match r {
            Some(v) => interp_ports(body@) == Some(ports_view(v@)),
            None => interp_ports(body@) == None::<Seq<HwPortV>>,
        },
{
    let mut out: Vec<HardwarePort> = Vec::new();
    let mut pos: usize = 0;
    proof {
        assert(body@.skip(0) =~= body@);
        assert(ports_view(out@) =~= Seq::<HwPortV>::empty());
        match interp_ports(body@) {
            Some(rest) => {
                assert(Seq::<HwPortV>::empty() + rest =~= rest);
            },
            None => {},
        }
    }
    loop
        invariant
            pos <= body.len(),
            match interp_ports(body@.skip(pos as int)) {
                Some(rest) => interp_ports(body@) == Some(ports_view(out@) + rest),
                None => interp_ports(body@) == None::<Seq<HwPortV>>,
            },
        decreases body.len() - pos,
    {
        if pos >= body.len() {
            proof {
                assert(body@.skip(pos as int) =~= Seq::<u8>::empty());
                assert(ports_view(out@) + Seq::<HwPortV>::empty() =~= ports_view(out@));
            }
            return Some(out);
        }
        let ghost s = body@.skip(pos as int);
        match find_byte_from(body, pos, 10) {
            None => {
                return None;
            },
            Some(nlpos) => {
                let line = subvec(body, pos, nlpos);
                proof {
                    assert(line@ =~= s.take((nlpos - pos) as int));
                }
                match parse_status_line_exec(&line) {
                    None => {
                        return None;
                    },
                    Some(p) => {
                        proof {
                            assert(s.skip((nlpos - pos) as int + 1) =~= body@.skip(nlpos + 1));
                        }
                        let ghost before = ports_view(out@);
                        let ghost pv = p@;
                        out.push(p);
                        proof {
                            assert(ports_view(out@) =~= before.push(pv));
                            match interp_ports(body@.skip(nlpos + 1)) {
                                Some(rest2) => {
                                    assert(interp_ports(s) == Some(seq![pv] + rest2));
                                    assert(before + (seq![pv] + rest2) =~= before.push(pv)
                                        + rest2);
                                },
                                None => {
                                    assert(interp_ports(s) == None::<Seq<HwPortV>>);
                                },
                            }
                        }
                        pos = nlpos + 1;
                    },
                }
            },
        }
    }
}

fn parse_alarms_body(body: &Vec<u8>) -> (r: Option<Vec<Alarm>>)
    ensures
        match r {
            Some(v) => interp_alarms(body@) == Some(alarms_view(v@)),
            None => interp_alarms(body@) == None::<Seq<AlarmV>>,
        },
{
    let mut out: Vec<Alarm> = Vec::new();
    let mut pos: usize = 0;
    proof {
        assert(body@.skip(0) =~= body@);
        assert(alarms_view(out@) =~= Seq::<AlarmV>::empty());
        match interp_alarms(body@) {
            Some(rest) => {
                assert(Seq::<AlarmV>::empty() + rest =~= rest);
            },
            None => {},
        }
    }
    loop
        invariant
            pos <= body.len(),
            match interp_alarms(body@.skip(pos as int)) {
                Some(rest) => interp_alarms(body@) == Some(alarms_view(out@) + rest),
                None => interp_alarms(body@) == None::<Seq<AlarmV>>,
            },
        decreases body.len() - pos,
    {
        if pos >= body.len() {
            proof {
                assert(body@.skip(pos as int) =~= Seq::<u8>::empty());
                assert(alarms_view(out@) + Seq::<AlarmV>::empty() =~= alarms_view(out@));
            }
            return Some(out);
        }
        let ghost s = body@.skip(pos as int);
        match find_byte_from(body, pos, 10) {
            None => {
                return None;
            },
            Some(nlpos) => {
                let line = subvec(body, pos, nlpos);
                proof {
                    assert(line@ =~= s.take((nlpos - pos) as int));
                }
                match parse_kv_line_exec(&line) {
                    None => {
                        return None;
                    },
                    Some(kv) => {
                        proof {
                            assert(s.skip((nlpos - pos) as int + 1) =~= body@.skip(nlpos + 1));
                        }
                        let ghost before = alarms_view(out@);
                        let ghost av = AlarmV { name: kv.0@, status: kv.1@ };
                        let (k, v) = kv;
                        out.push(Alarm { name: k, status: v });
                        proof {
                            assert(alarms_view(out@) =~= before.push(av));
                            match interp_alarms(body@.skip(nlpos + 1)) {
                                Some(rest2) => {
                                    assert(interp_alarms(s) == Some(seq![av] + rest2));
                                    assert(before + (seq![av] + rest2) =~= before.push(av)
                                        + rest2);
                                },
                                None => {
                                    assert(interp_alarms(s) == None::<Seq<AlarmV>>);
                                },
                            }
                        }
                        pos = nlpos + 1;
                    },
                }
            },
        }
    }
}

fn parse_settings_body(body: &Vec<u8>) -> (r: Option<Vec<Setting>>)
    ensures
        match r {
            Some(v) => interp_settings(body@) == Some(settings_view(v@)),
            None => interp_settings(body@) == None::<Seq<SettingV>>,
        },
{
    let mut out: Vec<Setting> = Vec::new();
    let mut pos: usize = 0;
    proof {
        assert(body@.skip(0) =~= body@);
        assert(settings_view(out@) =~= Seq::<SettingV>::empty());
        match interp_settings(body@) {
            Some(rest) => {
                assert(Seq::<SettingV>::empty() + rest =~= rest);
            },
            None => {},
        }
    }
    loop
        invariant
            pos <= body.len(),
            match interp_settings(body@.skip(pos as int)) {
                Some(rest) => interp_settings(body@) == Some(settings_view(out@) + rest),
                None => interp_settings(body@) == None::<Seq<SettingV>>,
            },
        decreases body.len() - pos,
    {
        if pos >= body.len() {
            proof {
                assert(body@.skip(pos as int) =~= Seq::<u8>::empty());
                assert(settings_view(out@) + Seq::<SettingV>::empty() =~= settings_view(out@));
            }
            return Some(out);
        }
        let ghost s = body@.skip(pos as int);
        match find_byte_from(body, pos, 10) {
            None => {
                return None;
            },
            Some(nlpos) => {
                let line = subvec(body, pos, nlpos);
                proof {
                    assert(line@ =~= s.take((nlpos - pos) as int));
                }
                match parse_kv_line_exec(&line) {
                    None => {
                        return None;
                    },
                    Some(kv) => {
                        proof {
                            assert(s.skip((nlpos - pos) as int + 1) =~= body@.skip(nlpos + 1));
                        }
                        let ghost before = settings_view(out@);
                        let ghost sv = SettingV { setting: kv.0@, value: kv.1@ };
                        let (k, v) = kv;
                        out.push(Setting { setting: k, value: v });
                        proof {
                            assert(settings_view(out@) =~= before.push(sv));
                            match interp_settings(body@.skip(nlpos + 1)) {
                                Some(rest2) => {
                                    assert(interp_settings(s) == Some(seq![sv] + rest2));
                                    assert(before + (seq![sv] + rest2) =~= before.push(sv)
                                        + rest2);
                                },
                                None => {
                                    assert(interp_settings(s) == None::<Seq<SettingV>>);
                                },
                            }
                        }
                        pos = nlpos + 1;
                    },
                }
            },
        }
    }
}

fn parse_preamble_body(body: &Vec<u8>) -> (r: Option<Preamble>)
    ensures
        match r {
            Some(p) => interp_preamble(body@) == Some(p@),
            None => interp_preamble(body@) == None::<PreambleV>,
        },
{
    proof {
        assert(body@.skip(0) =~= body@);
    }
    match find_byte_from(body, 0, 10) {
        None => None,
        Some(nl) => {
            let ghost line = body@.take(nl as int);
            if nl < 8 {
                None
            } else {
                let head = subvec(body, 0, 7);
                proof {
                    assert(head@ =~= line.take(7));
                }
                let vk = version_key_bytes();
                if bytes_eq(&lower_vec(&head), &lower_vec(&vk)) {
                    if body[7] == 58 {
                        let version = trim_range(body, 8, nl);
                        proof {
                            assert(body@.subrange(8, nl as int) =~= line.skip(8));
                        }
                        Some(Preamble { version })
                    } else {
                        proof {
                            assert(line[7] == body@[7]);
                        }
                        None
                    }
                } else {
                    None
                }
            }
        },
    }
}

fn dev_apply_exec(acc: &mut DeviceInfo, k: Vec<u8>, v: Vec<u8>) -> (ok: bool)
    ensures
        match dev_apply(old(acc)@, k@, v@) {
            Some(d2) => ok && final(acc)@ == d2,
            None => !ok,
        },
{
    match classify_dev_key_bytes(&k) {
        Some(DevField::Present) => {
            if bytes_eq(&v, &tok_true_bytes()) {
                acc.present = Some(Present::Yes);
                true
            } else if bytes_eq(&v, &tok_false_bytes()) {
                acc.present = Some(Present::No);
                true
            } else if bytes_eq(&v, &tok_needs_update_bytes()) {
                acc.present = Some(Present::NeedsUpdate);
                true
            } else {
                false
            }
        },
        Some(DevField::Model) => {
            acc.model_name = Some(v);
            true
        },
        Some(DevField::Friendly) => {
            acc.friendly_name = Some(v);
            true
        },
        Some(DevField::Unique) => {
            acc.unique_id = Some(v);
            true
        },
        Some(DevField::Inputs) => {
            match parse_whole_count(&v) {
                Some(n) => {
                    acc.video_inputs = Some(n);
                    true
                },
                None => false,
            }
        },
        Some(DevField::Processing) => {
            match parse_whole_count(&v) {
                Some(n) => {
                    acc.video_processing_units = Some(n);
                    true
                },
                None => false,
            }
        },
        Some(DevField::Outputs) => {
            match parse_whole_count(&v) {
                Some(n) => {
                    acc.video_outputs = Some(n);
                    true
                },
                None => false,
            }
        },
        Some(DevField::Monitoring) => {
            match parse_whole_count(&v) {
                Some(n) => {
                    acc.video_monitoring_outputs = Some(n);
                    true
                },
                None => false,
            }
        },
        Some(DevField::Serial) => {
            match parse_whole_count(&v) {
                Some(n) => {
                    acc.serial_ports = Some(n);
                    true
                },
                None => false,
            }
        },
        None => {
            let ghost before = old(acc)@;
            let pair = UnknownKVPair { key: k, value: v };
            let ghost pairv = pair@;
            match &mut acc.unknown_fields {
                Some(ps) => {
                    ps.push(pair);
                    proof {
                        match before.unknown_fields {
                            Some(psv) => {
                                assert(acc@.unknown_fields == Some(psv.push(pairv)))
                                    by {
                                    assert(acc@.unknown_fields.unwrap() =~= psv.push(pairv));
                                };
                            },
                            None => {},
                        }
                    }
                },
                None => {
                    let mut nv: Vec<UnknownKVPair> = Vec::new();
                    nv.push(pair);
                    acc.unknown_fields = Some(nv);
                    proof {
                        assert(acc@.unknown_fields.unwrap() =~= Seq::empty().push(pairv));
                    }
                },
            }
            true
        },
    }
}

/// A whole decimal value, digits only, fitting `u32`.
fn parse_whole_count(v: &Vec<u8>) -> (r: Option<u32>)
    ensures
        r == parse_count(v@),
{
    proof {
        assert(v@.skip(0) =~= v@);
    }
    match parse_u32(v, 0) {
        None => {
            proof {
                if v@.len() > 0 && count_leading(v@, |b: u8| is_digit(b)) == v@.len() {
                    assert(v@.take(count_leading(v@, |b: u8| is_digit(b))) =~= v@);
                }
            }
            None
        },
        Some((n, end)) => {
            if end == v.len() {
                proof {
                    assert(v@.take(count_leading(v@, |b: u8| is_digit(b))) =~= v@);
                }
                Some(n)
            } else {
                None
            }
        },
    }
}

fn parse_device_body(body: &Vec<u8>) -> (r: Option<DeviceInfo>)
    ensures
        match r {
            Some(d) => interp_device_from(empty_device(), body@) == Some(d@),
            None => interp_device_from(empty_device(), body@) == None::<DeviceInfoV>,
        },
{
    let mut acc = DeviceInfo {
        present: None,
        model_name: None,
        friendly_name: None,
        unique_id: None,
        video_inputs: None,
        video_processing_units: None,
        video_outputs: None,
        video_monitoring_outputs: None,
        serial_ports: None,
        unknown_fields: None,
    };
    let mut pos: usize = 0;
    proof {
        assert(body@.skip(0) =~= body@);
        assert(acc@ == empty_device());
    }
    loop
        invariant
            pos <= body.len(),
            interp_device_from(empty_device(), body@) == interp_device_from(
                acc@,
                body@.skip(pos as int),
            ),
        decreases body.len() - pos,
    {
        if pos >= body.len() {
            proof {
                assert(body@.skip(pos as int) =~= Seq::<u8>::empty());
            }
            return Some(acc);
        }
        let ghost s = body@.skip(pos as int);
        match find_byte_from(body, pos, 10) {
            None => {
                return None;
            },
            Some(nlpos) => {
                let line = subvec(body, pos, nlpos);
                proof {
                    assert(line@ =~= s.take((nlpos - pos) as int));
                }
                match parse_kv_line_exec(&line) {
                    None => {
                        return None;
                    },
                    Some(kv) => {
                        proof {
                            assert(s.skip((nlpos - pos) as int + 1) =~= body@.skip(nlpos + 1));
                        }
                        let (k, v) = kv;
                        let ok = dev_apply_exec(&mut acc, k, v);
                        if !ok {
                            return None;
                        }
                        pos = nlpos + 1;
                    },
                }
            },
        }
    }
}

/// Interpret one framed block as a message.
#[verifier::rlimit(100)]
fn interp_block_exec(header: Vec<u8>, body: Vec<u8>) -> (r: Option<VideohubMessage>)
    ensures
        match r {
            Some(m) => interp_block(header@, body@) == Some(m@),
            None => interp_block(header@, body@) == None::<MsgV>,
        },
{
    match classify_bytes(&header) {
        Some(HeaderKind::Preamble) => match parse_preamble_body(&body) {
            Some(p) => Some(VideohubMessage::Preamble(p)),
            None => None,
        },
        Some(HeaderKind::Device) => match parse_device_body(&body) {
            Some(d) => Some(VideohubMessage::DeviceInfo(d)),
            None => None,
        },
        Some(HeaderKind::InputLabels) => match parse_labels_body(&body) {
            Some(v) => Some(VideohubMessage::InputLabels(v)),
            None => None,
        },
        Some(HeaderKind::OutputLabels) => match parse_labels_body(&body) {
            Some(v) => Some(VideohubMessage::OutputLabels(v)),
            None => None,
        },
        Some(HeaderKind::MonitorOutputLabels) => match parse_labels_body(&body) {
            Some(v) => Some(VideohubMessage::MonitorOutputLabels(v)),
            None => None,
        },
        Some(HeaderKind::SerialPortLabels) => match parse_labels_body(&body) {
            Some(v) => Some(VideohubMessage::SerialPortLabels(v)),
            None => None,
        },
        Some(HeaderKind::FrameLabels) => match parse_labels_body(&body) {
            Some(v) => Some(VideohubMessage::FrameLabels(v)),
            None => None,
        },
        Some(HeaderKind::VideoOutputRouting) => match parse_routes_body(&body) {
            Some(v) => Some(VideohubMessage::VideoOutputRouting(v)),
            None => None,
        },
        Some(HeaderKind::VideoMonitoringOutputRouting) => match parse_routes_body(&body) {
            Some(v) => Some(VideohubMessage::VideoMonitoringOutputRouting(v)),
            None => None,
        },
        Some(HeaderKind::SerialPortRouting) => match parse_routes_body(&body) {
            Some(v) => Some(VideohubMessage::SerialPortRouting(v)),
            None => None,
        },
        Some(HeaderKind::ProcessingUnitRouting) => match parse_routes_body(&body) {
            Some(v) => Some(VideohubMessage::ProcessingUnitRouting(v)),
            None => None,
        },
        Some(HeaderKind::FrameBufferRouting) => match parse_routes_body(&body) {
            Some(v) => Some(VideohubMessage::FrameBufferRouting(v)),
            None => None,
        },
        Some(HeaderKind::VideoOutputLocks) => match parse_locks_body(&body) {
            Some(v) => Some(VideohubMessage::VideoOutputLocks(v)),
            None => None,
        },
        Some(HeaderKind::MonitoringOutputLocks) => match parse_locks_body(&body) {
            Some(v) => Some(VideohubMessage::MonitoringOutputLocks(v)),
            None => None,
        },
        Some(HeaderKind::SerialPortLocks) => match parse_locks_body(&body) {
            Some(v) => Some(VideohubMessage::SerialPortLocks(v)),
            None => None,
        },
        Some(HeaderKind::ProcessingUnitLocks) => match parse_locks_body(&body) {
            Some(v) => Some(VideohubMessage::ProcessingUnitLocks(v)),
            None => None,
        },
        Some(HeaderKind::FrameBufferLocks) => match parse_locks_body(&body) {
            Some(v) => Some(VideohubMessage::FrameBufferLocks(v)),
            None => None,
        },
        Some(HeaderKind::VideoInputStatus) => match parse_ports_body(&body) {
            Some(v) => Some(VideohubMessage::VideoInputStatus(v)),
            None => None,
        },
        Some(HeaderKind::VideoOutputStatus) => match parse_ports_body(&body) {
            Some(v) => Some(VideohubMessage::VideoOutputStatus(v)),
            None => None,
        },
        Some(HeaderKind::SerialPortStatus) => match parse_ports_body(&body) {
            Some(v) => Some(VideohubMessage::SerialPortStatus(v)),
            None => None,
        },
        Some(HeaderKind::AlarmStatus) => match parse_alarms_body(&body) {
            Some(v) => Some(VideohubMessage::AlarmStatus(v)),
            None => None,
        },
        Some(HeaderKind::Configuration) => match parse_settings_body(&body) {
            Some(v) => Some(VideohubMessage::Configuration(v)),
            None => None,
        },
        Some(HeaderKind::Ack) => Some(VideohubMessage::ACK),
        Some(HeaderKind::Nak) => Some(VideohubMessage::NAK),
        Some(HeaderKind::Ping) => Some(VideohubMessage::Ping),
        Some(HeaderKind::EndPrelude) => Some(VideohubMessage::EndPrelude),
        None => Some(VideohubMessage::UnknownMessage(header, body)),
    }
}

/// All bytes of `v[from..to]` are carriage returns.
fn is_blank_range(v: &Vec<u8>, from: usize, to: usize) -> (r: bool)
    requires
        from <= to <= v.len(),
    ensures
        r == is_blank_line(v@.subrange(from as int, to as int)),
{
    let ghost s = v@.subrange(from as int, to as int);
    let mut i: usize = from;
    while i < to
        invariant
            from <= i <= to <= v.len(),
            s == v@.subrange(from as int, to as int),
            forall|j: int| 0 <= j < i - from ==> #[trigger] s[j] == 13,
        decreases to - i,
    {
        if v[i] != 13 {
            proof {
                assert(s[i - from] == v@[i as int]);
            }
            return false;
        }
        assert(s[i - from] == v@[i as int]);
        i = i + 1;
    }
    true
}

/// Find the blank line that closes a body starting at `start`: on success,
/// the body's end and the index just past the blank line.
fn scan_body(i: &Vec<u8>, start: usize) -> (r: Option<(usize, usize)>)
    requires
        start <= i.len(),
    ensures
        match r {
            Some((be, np)) => start <= be < np <= i.len() && split_body(i@.skip(start as int))
                == BodySplit::Found {
                body: i@.subrange(start as int, be as int),
                advance: np - start,
            },
            None => split_body(i@.skip(start as int)) is Incomplete,
        },
{
    let ghost rr = i@.skip(start as int);
    let mut cur: usize = start;
    proof {
        assert(rr.skip(0) =~= rr);
        match split_body(rr) {
            BodySplit::Found { body, advance } => {
                assert(rr.take(0) + body =~= body);
            },
            BodySplit::Incomplete => {},
        }
    }
    loop
        invariant
            start <= cur <= i.len(),
            rr == i@.skip(start as int),
            match split_body(rr.skip((cur - start) as int)) {
                BodySplit::Incomplete => split_body(rr) is Incomplete,
                BodySplit::Found { body, advance } => split_body(rr) == BodySplit::Found {
                    body: rr.take((cur - start) as int) + body,
                    advance: (cur - start) + advance,
                },
            },
        decreases i.len() - cur,
    {
        let ghost c = (cur - start) as int;
        let ghost u = rr.skip(c);
        proof {
            assert(u =~= i@.skip(cur as int));
        }
        match find_byte_from(i, cur, 10) {
            None => {
                proof {
                    assert(find_byte(u, 10) == -1);
                    assert(split_body(u) is Incomplete);
                }
                return None;
            },
            Some(ln) => {
                let blank = is_blank_range(i, cur, ln);
                proof {
                    assert(find_byte(u, 10) == ln - cur);
                    assert(u.take((ln - cur) as int) =~= i@.subrange(cur as int, ln as int));
                }
                if blank {
                    proof {
                        assert(is_blank_line(u.take((ln - cur) as int)));
                        assert(split_body(u) == BodySplit::Found {
                            body: Seq::<u8>::empty(),
                            advance: (ln - cur) + 1,
                        });
                        assert(rr.take(c) + Seq::<u8>::empty() =~= rr.take(c));
                        assert(rr.take(c) =~= i@.subrange(start as int, cur as int));
                    }
                    return Some((cur, ln + 1));
                } else {
                    proof {
                        let n = (ln - cur) as int;
                        let u2 = u.skip(n + 1);
                        assert(u2 =~= rr.skip(c + n + 1));
                        match split_body(u2) {
                            BodySplit::Incomplete => {
                                assert(split_body(u) is Incomplete);
                            },
                            BodySplit::Found { body, advance } => {
                                assert(split_body(u) == BodySplit::Found {
                                    body: u.take(n + 1) + body,
                                    advance: n + 1 + advance,
                                });
                                assert(rr.take(c) + (u.take(n + 1) + body) =~= rr.take(c + n + 1)
                                    + body);
                            },
                        }
                    }
                    cur = ln + 1;
                }
            },
        }
    }
}

/// Parse one block starting at `pos`; on success the second component is the
/// index just past the consumed bytes.
#[verifier::rlimit(100)]
pub fn parse_block_at(i: &Vec<u8>, pos: usize) -> (r: Result<(VideohubMessage, usize), ParseError>)
    requires
        pos <= i.len(),
    ensures
        match r {
            Ok((m, np)) => pos < np <= i.len() && spec_parse_block(i@.skip(pos as int))
                == SpecParse::Parsed { msg: m@, len: np - pos },
            Err(ParseError::Incomplete) => spec_parse_block(i@.skip(pos as int))
                == SpecParse::Incomplete,
            Err(ParseError::Malformed) => spec_parse_block(i@.skip(pos as int))
                == SpecParse::Malformed,
        },
{
    let ghost s = i@.skip(pos as int);
    let w = skip_ws(i, pos);
    let ghost t = s.skip((w - pos) as int);
    proof {
        assert(t =~= i@.skip(w as int));
        lemma_count_leading(s, |b: u8| is_wsb(b));
    }
    match find_byte_from(i, w, 10) {
        None => {
            proof {
                assert(find_byte(t, 10) == -1);
            }
            Err(ParseError::Incomplete)
        },
        Some(hn) => {
            proof {
                assert(find_byte(t, 10) == hn - w);
                if w - pos < s.len() {
                    assert(!is_wsb(s[(w - pos) as int]));
                    assert(s[(w - pos) as int] == i@[w as int]);
                }
            }
            let header = trim_range(i, w, hn);
            proof {
                let htake = t.take((hn - w) as int);
                assert(i@.subrange(w as int, hn as int) =~= htake);
                if hn > w {
                    assert(htake[0] == i@[w as int]);
                    lemma_count_leading_from(htake, |b: u8| is_wsb(b), 0);
                    assert(trim_start(htake) =~= htake);
                } else {
                    assert(htake =~= Seq::<u8>::empty());
                    lemma_count_trailing(htake, |b: u8| is_wsb(b));
                    assert(trim_start(htake) =~= htake);
                }
                assert(header@ == trim_end(htake));
            }
            let body_start = hn + 1;
            proof {
                assert(t.skip((hn - w) + 1) =~= i@.skip(body_start as int));
            }
            match scan_body(i, body_start) {
                None => {
                    proof {
                        assert(split_body(t.skip((hn - w) + 1)) is Incomplete);
                    }
                    Err(ParseError::Incomplete)
                },
                Some((be, np)) => {
                    let body = subvec(i, body_start, be);
                    let ghost advance = (np - body_start) as int;
                    proof {
                        assert(split_body(t.skip((hn - w) + 1)) == BodySplit::Found {
                            body: body@,
                            advance: advance,
                        });
                    }
                    match interp_block_exec(header, body) {
                        Some(m) => {
                            proof {
                                assert((w - pos) + (hn - w) + 1 + advance == np - pos);
                                assert(spec_parse_block(s) == SpecParse::Parsed {
                                    msg: m@,
                                    len: np - pos,
                                });
                            }
                            Ok((m, np))
                        },
                        None => Err(ParseError::Malformed),
                    }
                },
            }
        },
    }
}

impl VideohubMessage {
    /// Parse one block from the front of the buffer. On success the second
    /// component counts the consumed bytes; `Incomplete` consumes nothing.
    pub fn parse_single_block(i: &Vec<u8>) -> (r: Result<(VideohubMessage, usize), ParseError>)
        ensures
            match r {
                Ok((m, n)) => 0 < n <= i.len() && spec_parse_block(i@) == SpecParse::Parsed {
                    msg: m@,
                    len: n as int,
                },
                Err(ParseError::Incomplete) => spec_parse_block(i@) == SpecParse::Incomplete,
                Err(ParseError::Malformed) => spec_parse_block(i@) == SpecParse::Malformed,
            },
    {
        proof {
            assert(i@.skip(0) =~= i@);
        }
        parse_block_at(i, 0)
    }
}

/// Outcome of parsing a whole conversation.
pub enum SpecParseAll {
    Incomplete,
    Malformed,
    Parsed { msgs: Seq<MsgV> },
}

/// Parse blocks until the input is exhausted. Leftover bytes that do not
/// form a block propagate as `Incomplete` or `Malformed`.
pub open spec fn spec_parse_all(s: Seq<u8>) -> SpecParseAll
    decreases s.len(),
{
    match spec_parse_block(s) {
        SpecParse::Incomplete => SpecParseAll::Incomplete,
        SpecParse::Malformed => SpecParseAll::Malformed,
        SpecParse::Parsed { msg, len } => {
            if len <= 0 || len > s.len() {
                SpecParseAll::Malformed
            } else if len == s.len() {
                SpecParseAll::Parsed { msgs: seq![msg] }
            } else {
                match spec_parse_all(s.skip(len)) {
                    SpecParseAll::Incomplete => SpecParseAll::Incomplete,
                    SpecParseAll::Malformed => SpecParseAll::Malformed,
                    SpecParseAll::Parsed { msgs } => SpecParseAll::Parsed {
                        msgs: seq![msg] + msgs,
                    },
                }
            }
        },
    }
}

pub open spec fn msgs_view(v: Seq<VideohubMessage>) -> Seq<MsgV> {
    v.map_values(|m: VideohubMessage| m@)
}

impl VideohubMessage {
    /// Parse a whole conversation of blocks, ending exactly at the buffer's
    /// end.
    pub fn parse_all_blocks(i: &Vec<u8>) -> (r: Result<Vec<VideohubMessage>, ParseError>)
        ensures
            match r {
                Ok(v) => spec_parse_all(i@) == SpecParseAll::Parsed { msgs: msgs_view(v@) },
                Err(ParseError::Incomplete) => spec_parse_all(i@) == SpecParseAll::Incomplete,
                Err(ParseError::Malformed) => spec_parse_all(i@) == SpecParseAll::Malformed,
            },
    {
        let mut out: Vec<VideohubMessage> = Vec::new();
        let mut pos: usize = 0;
        proof {
            assert(i@.skip(0) =~= i@);
        }
        loop
            invariant
                pos < i.len() || (pos == 0 && i.len() == 0),
                match spec_parse_all(i@.skip(pos as int)) {
                    SpecParseAll::Parsed { msgs } => spec_parse_all(i@) == SpecParseAll::Parsed {
                        msgs: msgs_view(out@) + msgs,
                    },
                    SpecParseAll::Incomplete => spec_parse_all(i@) is Incomplete,
                    SpecParseAll::Malformed => spec_parse_all(i@) is Malformed,
                },
            decreases i.len() - pos,
        {
            let ghost s = i@.skip(pos as int);
            match parse_block_at(i, pos) {
                Err(e) => {
                    return Err(e);
                },
                Ok((m, np)) => {
                    let ghost before = msgs_view(out@);
                    let ghost mv = m@;
                    out.push(m);
                    proof {
                        assert(msgs_view(out@) =~= before.push(mv));
                    }
                    if np >= i.len() {
                        proof {
                            assert(spec_parse_all(s) == SpecParseAll::Parsed { msgs: seq![mv] });
                            assert(before + seq![mv] =~= before.push(mv));
                        }
                        return Ok(out);
                    }
                    proof {
                        assert(s.skip((np - pos) as int) =~= i@.skip(np as int));
                        match spec_parse_all(i@.skip(np as int)) {
                            SpecParseAll::Parsed { msgs } => {
                                assert(spec_parse_all(s) == SpecParseAll::Parsed {
                                    msgs: seq![mv] + msgs,
                                });
                                assert(before + (seq![mv] + msgs) =~= before.push(mv) + msgs);
                            },
                            SpecParseAll::Incomplete => {
                                assert(spec_parse_all(s) is Incomplete);
                            },
                            SpecParseAll::Malformed => {
                                assert(spec_parse_all(s) is Malformed);
                            },
                        }
                    }
                    pos = np;
                },
            }
        }
    }
}

} // verus!
