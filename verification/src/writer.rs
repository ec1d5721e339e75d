//! Serialization: each message emits its header line, its body lines in
//! order, and the blank line that closes the block. `\n` is the line ending.
use vstd::prelude::*;

verus! {

use crate::text::{dec_repr, push_dec};
use crate::wire::{
    HeaderKind,
    spec_header,
    header_bytes,
    DevField,
    dev_label,
    dev_label_bytes,
    StatusTok,
    status_label,
    status_label_bytes,
    tok_true,
    tok_false,
    tok_needs_update,
    tok_true_bytes,
    tok_false_bytes,
    tok_needs_update_bytes,
    version_key,
    version_key_bytes,
};
use crate::model::{
    Present,
    LockState,
    Label,
    Route,
    Lock,
    HardwarePort,
    HardwarePortType,
    Alarm,
    Setting,
    UnknownKVPair,
    DeviceInfo,
    VideohubMessage,
    LabelV,
    HwPortV,
    HwTypeV,
    AlarmV,
    SettingV,
    KVPairV,
    DeviceInfoV,
    MsgV,
    labels_view,
    ports_view,
    alarms_view,
    settings_view,
};

pub open spec fn nl1() -> Seq<u8> {
    seq![10u8]
}

pub open spec fn sp1() -> Seq<u8> {
    seq![32u8]
}

pub open spec fn colon_sp() -> Seq<u8> {
    seq![58u8, 32u8]
}

/// Rendered lines of each list, one per entry.
pub open spec fn ser_labels(s: Seq<LabelV>) -> Seq<u8>
    decreases s.len(),
{
    if s.len() == 0 {
        Seq::empty()
    } else {
        ser_label_line(s[0]) + ser_labels(s.drop_first())
    }
}

pub open spec fn ser_routes(s: Seq<Route>) -> Seq<u8>
    decreases s.len(),
{
    if s.len() == 0 {
        Seq::empty()
    } else {
        ser_route_line(s[0]) + ser_routes(s.drop_first())
    }
}

pub open spec fn ser_locks(s: Seq<Lock>) -> Seq<u8>
    decreases s.len(),
{
    if s.len() == 0 {
        Seq::empty()
    } else {
        ser_lock_line(s[0]) + ser_locks(s.drop_first())
    }
}

pub open spec fn ser_ports(s: Seq<HwPortV>) -> Seq<u8>
    decreases s.len(),
{
    if s.len() == 0 {
        Seq::empty()
    } else {
        ser_port_line(s[0]) + ser_ports(s.drop_first())
    }
}

pub open spec fn ser_alarms(s: Seq<AlarmV>) -> Seq<u8>
    decreases s.len(),
{
    if s.len() == 0 {
        Seq::empty()
    } else {
        ser_alarm_line(s[0]) + ser_alarms(s.drop_first())
    }
}

pub open spec fn ser_settings(s: Seq<SettingV>) -> Seq<u8>
    decreases s.len(),
{
    if s.len() == 0 {
        Seq::empty()
    } else {
        ser_setting_line(s[0]) + ser_settings(s.drop_first())
    }
}

pub open spec fn ser_kvpairs(s: Seq<KVPairV>) -> Seq<u8>
    decreases s.len(),
{
    if s.len() == 0 {
        Seq::empty()
    } else {
        ser_unknown_kv_line(s[0]) + ser_kvpairs(s.drop_first())
    }
}


pub proof fn lemma_ser_labels_snoc(s: Seq<LabelV>, x: LabelV)
    ensures
        ser_labels(s.push(x)) == ser_labels(s) + ser_label_line(x),
    decreases s.len(),
{
    if s.len() == 0 {
        assert(s.push(x)[0] == x);
        assert(s.push(x).drop_first() =~= Seq::<LabelV>::empty());
        assert(ser_labels(Seq::<LabelV>::empty()) == Seq::<u8>::empty());
        assert(ser_labels(s) == Seq::<u8>::empty());
        assert(ser_labels(s.push(x)) == ser_label_line(x) + Seq::<u8>::empty());
        assert(ser_label_line(x) + Seq::<u8>::empty() =~= Seq::<u8>::empty() + ser_label_line(x));
    } else {
        assert(s.push(x)[0] == s[0]);
        assert(s.push(x).drop_first() =~= s.drop_first().push(x));
        lemma_ser_labels_snoc(s.drop_first(), x);
        assert(ser_labels(s.push(x)) == ser_label_line(s[0]) + ser_labels(s.drop_first().push(x)));
        assert(ser_labels(s.push(x)) == ser_label_line(s[0]) + (ser_labels(s.drop_first()) + ser_label_line(x)));
        assert(ser_label_line(s[0]) + (ser_labels(s.drop_first()) + ser_label_line(x)) =~= (ser_label_line(s[0]) + ser_labels(
            s.drop_first(),
        )) + ser_label_line(x));
        assert(ser_labels(s) == ser_label_line(s[0]) + ser_labels(s.drop_first()));
    }
}

pub proof fn lemma_ser_routes_snoc(s: Seq<Route>, x: Route)
    ensures
        ser_routes(s.push(x)) == ser_routes(s) + ser_route_line(x),
    decreases s.len(),
{
    if s.len() == 0 {
        assert(s.push(x)[0] == x);
        assert(s.push(x).drop_first() =~= Seq::<Route>::empty());
        assert(ser_routes(Seq::<Route>::empty()) == Seq::<u8>::empty());
        assert(ser_routes(s) == Seq::<u8>::empty());
        assert(ser_routes(s.push(x)) == ser_route_line(x) + Seq::<u8>::empty());
        assert(ser_route_line(x) + Seq::<u8>::empty() =~= Seq::<u8>::empty() + ser_route_line(x));
    } else {
        assert(s.push(x)[0] == s[0]);
        assert(s.push(x).drop_first() =~= s.drop_first().push(x));
        lemma_ser_routes_snoc(s.drop_first(), x);
        assert(ser_routes(s.push(x)) == ser_route_line(s[0]) + ser_routes(s.drop_first().push(x)));
        assert(ser_routes(s.push(x)) == ser_route_line(s[0]) + (ser_routes(s.drop_first()) + ser_route_line(x)));
        assert(ser_route_line(s[0]) + (ser_routes(s.drop_first()) + ser_route_line(x)) =~= (ser_route_line(s[0]) + ser_routes(
            s.drop_first(),
        )) + ser_route_line(x));
        assert(ser_routes(s) == ser_route_line(s[0]) + ser_routes(s.drop_first()));
    }
}

pub proof fn lemma_ser_locks_snoc(s: Seq<Lock>, x: Lock)
    ensures
        ser_locks(s.push(x)) == ser_locks(s) + ser_lock_line(x),
    decreases s.len(),
{
    if s.len() == 0 {
        assert(s.push(x)[0] == x);
        assert(s.push(x).drop_first() =~= Seq::<Lock>::empty());
        assert(ser_locks(Seq::<Lock>::empty()) == Seq::<u8>::empty());
        assert(ser_locks(s) == Seq::<u8>::empty());
        assert(ser_locks(s.push(x)) == ser_lock_line(x) + Seq::<u8>::empty());
        assert(ser_lock_line(x) + Seq::<u8>::empty() =~= Seq::<u8>::empty() + ser_lock_line(x));
    } else {
        assert(s.push(x)[0] == s[0]);
        assert(s.push(x).drop_first() =~= s.drop_first().push(x));
        lemma_ser_locks_snoc(s.drop_first(), x);
        assert(ser_locks(s.push(x)) == ser_lock_line(s[0]) + ser_locks(s.drop_first().push(x)));
        assert(ser_locks(s.push(x)) == ser_lock_line(s[0]) + (ser_locks(s.drop_first()) + ser_lock_line(x)));
        assert(ser_lock_line(s[0]) + (ser_locks(s.drop_first()) + ser_lock_line(x)) =~= (ser_lock_line(s[0]) + ser_locks(
            s.drop_first(),
        )) + ser_lock_line(x));
        assert(ser_locks(s) == ser_lock_line(s[0]) + ser_locks(s.drop_first()));
    }
}

pub proof fn lemma_ser_ports_snoc(s: Seq<HwPortV>, x: HwPortV)
    ensures
        ser_ports(s.push(x)) == ser_ports(s) + ser_port_line(x),
    decreases s.len(),
{
    if s.len() == 0 {
        assert(s.push(x)[0] == x);
        assert(s.push(x).drop_first() =~= Seq::<HwPortV>::empty());
        assert(ser_ports(Seq::<HwPortV>::empty()) == Seq::<u8>::empty());
        assert(ser_ports(s) == Seq::<u8>::empty());
        assert(ser_ports(s.push(x)) == ser_port_line(x) + Seq::<u8>::empty());
        assert(ser_port_line(x) + Seq::<u8>::empty() =~= Seq::<u8>::empty() + ser_port_line(x));
    } else {
        assert(s.push(x)[0] == s[0]);
        assert(s.push(x).drop_first() =~= s.drop_first().push(x));
        lemma_ser_ports_snoc(s.drop_first(), x);
        assert(ser_ports(s.push(x)) == ser_port_line(s[0]) + ser_ports(s.drop_first().push(x)));
        assert(ser_ports(s.push(x)) == ser_port_line(s[0]) + (ser_ports(s.drop_first()) + ser_port_line(x)));
        assert(ser_port_line(s[0]) + (ser_ports(s.drop_first()) + ser_port_line(x)) =~= (ser_port_line(s[0]) + ser_ports(
            s.drop_first(),
        )) + ser_port_line(x));
        assert(ser_ports(s) == ser_port_line(s[0]) + ser_ports(s.drop_first()));
    }
}

pub proof fn lemma_ser_alarms_snoc(s: Seq<AlarmV>, x: AlarmV)
    ensures
        ser_alarms(s.push(x)) == ser_alarms(s) + ser_alarm_line(x),
    decreases s.len(),
{
    if s.len() == 0 {
        assert(s.push(x)[0] == x);
        assert(s.push(x).drop_first() =~= Seq::<AlarmV>::empty());
        assert(ser_alarms(Seq::<AlarmV>::empty()) == Seq::<u8>::empty());
        assert(ser_alarms(s) == Seq::<u8>::empty());
        assert(ser_alarms(s.push(x)) == ser_alarm_line(x) + Seq::<u8>::empty());
        assert(ser_alarm_line(x) + Seq::<u8>::empty() =~= Seq::<u8>::empty() + ser_alarm_line(x));
    } else {
        assert(s.push(x)[0] == s[0]);
        assert(s.push(x).drop_first() =~= s.drop_first().push(x));
        lemma_ser_alarms_snoc(s.drop_first(), x);
        assert(ser_alarms(s.push(x)) == ser_alarm_line(s[0]) + ser_alarms(s.drop_first().push(x)));
        assert(ser_alarms(s.push(x)) == ser_alarm_line(s[0]) + (ser_alarms(s.drop_first()) + ser_alarm_line(x)));
        assert(ser_alarm_line(s[0]) + (ser_alarms(s.drop_first()) + ser_alarm_line(x)) =~= (ser_alarm_line(s[0]) + ser_alarms(
            s.drop_first(),
        )) + ser_alarm_line(x));
        assert(ser_alarms(s) == ser_alarm_line(s[0]) + ser_alarms(s.drop_first()));
    }
}

pub proof fn lemma_ser_settings_snoc(s: Seq<SettingV>, x: SettingV)
    ensures
        ser_settings(s.push(x)) == ser_settings(s) + ser_setting_line(x),
    decreases s.len(),
{
    if s.len() == 0 {
        assert(s.push(x)[0] == x);
        assert(s.push(x).drop_first() =~= Seq::<SettingV>::empty());
        assert(ser_settings(Seq::<SettingV>::empty()) == Seq::<u8>::empty());
        assert(ser_settings(s) == Seq::<u8>::empty());
        assert(ser_settings(s.push(x)) == ser_setting_line(x) + Seq::<u8>::empty());
        assert(ser_setting_line(x) + Seq::<u8>::empty() =~= Seq::<u8>::empty() + ser_setting_line(x));
    } else {
        assert(s.push(x)[0] == s[0]);
        assert(s.push(x).drop_first() =~= s.drop_first().push(x));
        lemma_ser_settings_snoc(s.drop_first(), x);
        assert(ser_settings(s.push(x)) == ser_setting_line(s[0]) + ser_settings(s.drop_first().push(x)));
        assert(ser_settings(s.push(x)) == ser_setting_line(s[0]) + (ser_settings(s.drop_first()) + ser_setting_line(x)));
        assert(ser_setting_line(s[0]) + (ser_settings(s.drop_first()) + ser_setting_line(x)) =~= (ser_setting_line(s[0]) + ser_settings(
            s.drop_first(),
        )) + ser_setting_line(x));
        assert(ser_settings(s) == ser_setting_line(s[0]) + ser_settings(s.drop_first()));
    }
}

pub proof fn lemma_ser_kvpairs_snoc(s: Seq<KVPairV>, x: KVPairV)
    ensures
        ser_kvpairs(s.push(x)) == ser_kvpairs(s) + ser_unknown_kv_line(x),
    decreases s.len(),
{
    if s.len() == 0 {
        assert(s.push(x)[0] == x);
        assert(s.push(x).drop_first() =~= Seq::<KVPairV>::empty());
        assert(ser_kvpairs(Seq::<KVPairV>::empty()) == Seq::<u8>::empty());
        assert(ser_kvpairs(s) == Seq::<u8>::empty());
        assert(ser_kvpairs(s.push(x)) == ser_unknown_kv_line(x) + Seq::<u8>::empty());
        assert(ser_unknown_kv_line(x) + Seq::<u8>::empty() =~= Seq::<u8>::empty() + ser_unknown_kv_line(x));
    } else {
        assert(s.push(x)[0] == s[0]);
        assert(s.push(x).drop_first() =~= s.drop_first().push(x));
        lemma_ser_kvpairs_snoc(s.drop_first(), x);
        assert(ser_kvpairs(s.push(x)) == ser_unknown_kv_line(s[0]) + ser_kvpairs(s.drop_first().push(x)));
        assert(ser_kvpairs(s.push(x)) == ser_unknown_kv_line(s[0]) + (ser_kvpairs(s.drop_first()) + ser_unknown_kv_line(x)));
        assert(ser_unknown_kv_line(s[0]) + (ser_kvpairs(s.drop_first()) + ser_unknown_kv_line(x)) =~= (ser_unknown_kv_line(s[0]) + ser_kvpairs(
            s.drop_first(),
        )) + ser_unknown_kv_line(x));
        assert(ser_kvpairs(s) == ser_unknown_kv_line(s[0]) + ser_kvpairs(s.drop_first()));
    }
}

pub open spec fn ser_kv_line(k: Seq<u8>, v: Seq<u8>) -> Seq<u8> {
    k + colon_sp() + v + nl1()
}

pub open spec fn ser_label_line(l: LabelV) -> Seq<u8> {
    dec_repr(l.id as nat) + sp1() + l.name + nl1()
}

pub open spec fn ser_route_line(r: Route) -> Seq<u8> {
    dec_repr(r.to_output as nat) + sp1() + dec_repr(r.from_input as nat) + nl1()
}

pub open spec fn lock_token(s: LockState) -> Seq<u8> {
    match s {
        LockState::Owned => seq![79u8],
        LockState::Locked => seq![76u8],
        LockState::Unlocked => seq![85u8],
    }
}

pub open spec fn ser_lock_line(l: Lock) -> Seq<u8> {
    dec_repr(l.id as nat) + sp1() + lock_token(l.state) + nl1()
}

pub open spec fn port_token(t: HwTypeV) -> Seq<u8> {
    match t {
        HwTypeV::NoPort => status_label(StatusTok::NoPort),
        HwTypeV::BNC => status_label(StatusTok::Bnc),
        HwTypeV::Optical => status_label(StatusTok::Optical),
        HwTypeV::Thunderbolt => status_label(StatusTok::Thunderbolt),
        HwTypeV::RS422 => status_label(StatusTok::Rs422),
        HwTypeV::Other(s) => s,
    }
}

pub open spec fn ser_port_line(p: HwPortV) -> Seq<u8> {
    dec_repr(p.id as nat) + sp1() + port_token(p.port_type) + nl1()
}

pub open spec fn ser_alarm_line(a: AlarmV) -> Seq<u8> {
    ser_kv_line(a.name, a.status)
}

pub open spec fn ser_setting_line(s: SettingV) -> Seq<u8> {
    ser_kv_line(s.setting, s.value)
}

pub open spec fn ser_unknown_kv_line(p: KVPairV) -> Seq<u8> {
    ser_kv_line(p.key, p.value)
}

pub open spec fn present_token(p: Present) -> Seq<u8> {
    match p {
        Present::Yes => tok_true(),
        Present::No => tok_false(),
        Present::NeedsUpdate => tok_needs_update(),
    }
}

pub open spec fn ser_opt_text(f: DevField, v: Option<Seq<u8>>) -> Seq<u8> {
    match v {
        Some(t) => ser_kv_line(dev_label(f), t),
        None => Seq::empty(),
    }
}

pub open spec fn ser_opt_count(f: DevField, v: Option<u32>) -> Seq<u8> {
    match v {
        Some(n) => ser_kv_line(dev_label(f), dec_repr(n as nat)),
        None => Seq::empty(),
    }
}

/// The known fields of a device-information block that are set, rendered
/// in canonical order.
pub open spec fn ser_device_known(d: DeviceInfoV) -> Seq<u8> {
    ser_opt_text(
        DevField::Present,
        match d.present {
            Some(p) => Some(present_token(p)),
            None => None,
        },
    ) + ser_opt_text(DevField::Model, d.model_name) + ser_opt_text(
        DevField::Friendly,
        d.friendly_name,
    ) + ser_opt_text(DevField::Unique, d.unique_id) + ser_opt_count(
        DevField::Inputs,
        d.video_inputs,
    ) + ser_opt_count(DevField::Processing, d.video_processing_units) + ser_opt_count(
        DevField::Outputs,
        d.video_outputs,
    ) + ser_opt_count(DevField::Monitoring, d.video_monitoring_outputs) + ser_opt_count(
        DevField::Serial,
        d.serial_ports,
    )
}

/// Body of a device-information block: the known fields that are set, in
/// canonical order, then the unrecognized pairs.
pub open spec fn ser_device_body(d: DeviceInfoV) -> Seq<u8> {
    ser_device_known(d) + match d.unknown_fields {
        Some(ps) => ser_kvpairs(ps),
        None => Seq::empty(),
    }
}

/// The serialized form of a message: header line, body lines, blank line.
pub open spec fn spec_serialize(m: MsgV) -> Seq<u8> {
    match m {
        MsgV::Preamble(p) => spec_header(HeaderKind::Preamble) + nl1() + ser_kv_line(
            version_key(),
            p.version,
        ) + nl1(),
        MsgV::DeviceInfo(d) => spec_header(HeaderKind::Device) + nl1() + ser_device_body(d)
            + nl1(),
        MsgV::InputLabels(ls) => spec_header(HeaderKind::InputLabels) + nl1() + ser_labels(ls) + nl1(),
        MsgV::OutputLabels(ls) => spec_header(HeaderKind::OutputLabels) + nl1() + ser_labels(ls) + nl1(),
        MsgV::MonitorOutputLabels(ls) => spec_header(HeaderKind::MonitorOutputLabels) + nl1()
            + ser_labels(ls) + nl1(),
        MsgV::SerialPortLabels(ls) => spec_header(HeaderKind::SerialPortLabels) + nl1() + ser_labels(ls) + nl1(),
        MsgV::FrameLabels(ls) => spec_header(HeaderKind::FrameLabels) + nl1() + ser_labels(ls) + nl1(),
        MsgV::VideoOutputRouting(rs) => spec_header(HeaderKind::VideoOutputRouting) + nl1()
            + ser_routes(rs) + nl1(),
        MsgV::VideoMonitoringOutputRouting(rs) => spec_header(
            HeaderKind::VideoMonitoringOutputRouting,
        ) + nl1() + ser_routes(rs) + nl1(),
        MsgV::SerialPortRouting(rs) => spec_header(HeaderKind::SerialPortRouting) + nl1()
            + ser_routes(rs) + nl1(),
        MsgV::ProcessingUnitRouting(rs) => spec_header(HeaderKind::ProcessingUnitRouting) + nl1()
            + ser_routes(rs) + nl1(),
        MsgV::FrameBufferRouting(rs) => spec_header(HeaderKind::FrameBufferRouting) + nl1()
            + ser_routes(rs) + nl1(),
        MsgV::VideoOutputLocks(xs) => spec_header(HeaderKind::VideoOutputLocks) + nl1() + ser_locks(xs) + nl1(),
        MsgV::MonitoringOutputLocks(xs) => spec_header(HeaderKind::MonitoringOutputLocks) + nl1()
            + ser_locks(xs) + nl1(),
        MsgV::SerialPortLocks(xs) => spec_header(HeaderKind::SerialPortLocks) + nl1() + ser_locks(xs) + nl1(),
        MsgV::ProcessingUnitLocks(xs) => spec_header(HeaderKind::ProcessingUnitLocks) + nl1()
            + ser_locks(xs) + nl1(),
        MsgV::FrameBufferLocks(xs) => spec_header(HeaderKind::FrameBufferLocks) + nl1() + ser_locks(xs) + nl1(),
        MsgV::VideoInputStatus(ps) => spec_header(HeaderKind::VideoInputStatus) + nl1() + ser_ports(ps) + nl1(),
        MsgV::VideoOutputStatus(ps) => spec_header(HeaderKind::VideoOutputStatus) + nl1()
            + ser_ports(ps) + nl1(),
        MsgV::SerialPortStatus(ps) => spec_header(HeaderKind::SerialPortStatus) + nl1() + ser_ports(ps) + nl1(),
        MsgV::AlarmStatus(xs) => spec_header(HeaderKind::AlarmStatus) + nl1() + ser_alarms(xs) + nl1(),
        MsgV::Configuration(xs) => spec_header(HeaderKind::Configuration) + nl1() + ser_settings(xs) + nl1(),
        MsgV::ACK => spec_header(HeaderKind::Ack) + nl1() + nl1(),
        MsgV::NAK => spec_header(HeaderKind::Nak) + nl1() + nl1(),
        MsgV::Ping => spec_header(HeaderKind::Ping) + nl1() + nl1(),
        MsgV::EndPrelude => spec_header(HeaderKind::EndPrelude) + nl1() + nl1(),
        MsgV::UnknownMessage(h, b) => h + nl1() + b + nl1(),
    }
}

// ------------------------------------------------------------------
// Executable serializer
// ------------------------------------------------------------------
/// Append an owned byte vector.
pub fn push_all(out: &mut Vec<u8>, v: Vec<u8>)
    ensures
        final(out)@ == old(out)@ + v@,
{
    let mut w = v;
    out.append(&mut w);
}

/// Append a borrowed byte vector.
pub fn push_bytes(out: &mut Vec<u8>, v: &Vec<u8>)
    ensures
        final(out)@ == old(out)@ + v@,
{
    let mut i: usize = 0;
    while i < v.len()
        invariant
            0 <= i <= v.len(),
            out@ =~= old(out)@ + v@.take(i as int),
        decreases v.len() - i,
    {
        out.push(v[i]);
        assert(out@ =~= old(out)@ + v@.take(i + 1));
        i = i + 1;
    }
    assert(out@ =~= old(out)@ + v@);
}

fn write_labels(ls: &Vec<Label>, out: &mut Vec<u8>)
    ensures
        final(out)@ == old(out)@ + ser_labels(labels_view(ls@)),
{
    let mut i: usize = 0;
    while i < ls.len()
        invariant
            0 <= i <= ls.len(),
            out@ == old(out)@ + ser_labels(labels_view(ls@).take(i as int)),
        decreases ls.len() - i,
    {
        let ghost prev = out@;
        push_dec(ls[i].id, out);
        out.push(32);
        push_bytes(out, &ls[i].name);
        out.push(10);
        proof {
            let lv = ls@[i as int]@;
            assert(out@ =~= prev + ser_label_line(lv));
            assert(labels_view(ls@).take(i + 1) =~= labels_view(ls@).take(i as int).push(lv));
            lemma_ser_labels_snoc(labels_view(ls@).take(i as int), lv);
            assert(out@ =~= old(out)@ + ser_labels(labels_view(ls@).take(i + 1)));
        }
        i = i + 1;
    }
    assert(labels_view(ls@).take(ls@.len() as int) =~= labels_view(ls@));
}

fn write_routes(rs: &Vec<Route>, out: &mut Vec<u8>)
    ensures
        final(out)@ == old(out)@ + ser_routes(rs@),
{
    let mut i: usize = 0;
    while i < rs.len()
        invariant
            0 <= i <= rs.len(),
            out@ == old(out)@ + ser_routes(rs@.take(i as int)),
        decreases rs.len() - i,
    {
        let ghost prev = out@;
        push_dec(rs[i].to_output, out);
        out.push(32);
        push_dec(rs[i].from_input, out);
        out.push(10);
        proof {
            assert(out@ =~= prev + ser_route_line(rs@[i as int]));
            assert(rs@.take(i + 1) =~= rs@.take(i as int).push(rs@[i as int]));
            lemma_ser_routes_snoc(rs@.take(i as int), rs@[i as int]);
            assert(out@ =~= old(out)@ + ser_routes(rs@.take(i + 1)));
        }
        i = i + 1;
    }
    assert(rs@.take(rs@.len() as int) =~= rs@);
}

fn write_locks(xs: &Vec<Lock>, out: &mut Vec<u8>)
    ensures
        final(out)@ == old(out)@ + ser_locks(xs@),
{
    let mut i: usize = 0;
    while i < xs.len()
        invariant
            0 <= i <= xs.len(),
            out@ == old(out)@ + ser_locks(xs@.take(i as int)),
        decreases xs.len() - i,
    {
        let ghost prev = out@;
        push_dec(xs[i].id, out);
        out.push(32);
        match xs[i].state {
            LockState::Owned => out.push(79),
            LockState::Locked => out.push(76),
            LockState::Unlocked => out.push(85),
        }
        out.push(10);
        proof {
            assert(out@ =~= prev + ser_lock_line(xs@[i as int]));
            assert(xs@.take(i + 1) =~= xs@.take(i as int).push(xs@[i as int]));
            lemma_ser_locks_snoc(xs@.take(i as int), xs@[i as int]);
            assert(out@ =~= old(out)@ + ser_locks(xs@.take(i + 1)));
        }
        i = i + 1;
    }
    assert(xs@.take(xs@.len() as int) =~= xs@);
}

fn write_ports(ps: &Vec<HardwarePort>, out: &mut Vec<u8>)
    ensures
        final(out)@ == old(out)@ + ser_ports(ports_view(ps@)),
{
    let mut i: usize = 0;
    while i < ps.len()
        invariant
            0 <= i <= ps.len(),
            out@ == old(out)@ + ser_ports(ports_view(ps@).take(i as int)),
        decreases ps.len() - i,
    {
        let ghost prev = out@;
        push_dec(ps[i].id, out);
        out.push(32);
        match &ps[i].port_type {
            HardwarePortType::NoPort => push_all(out, status_label_bytes(StatusTok::NoPort)),
            HardwarePortType::BNC => push_all(out, status_label_bytes(StatusTok::Bnc)),
            HardwarePortType::Optical => push_all(out, status_label_bytes(StatusTok::Optical)),
            HardwarePortType::Thunderbolt => push_all(
                out,
                status_label_bytes(StatusTok::Thunderbolt),
            ),
            HardwarePortType::RS422 => push_all(out, status_label_bytes(StatusTok::Rs422)),
            HardwarePortType::Other(s) => push_bytes(out, s),
        }
        out.push(10);
        proof {
            let pv = ps@[i as int]@;
            assert(out@ =~= prev + ser_port_line(pv));
            assert(ports_view(ps@).take(i + 1) =~= ports_view(ps@).take(i as int).push(pv));
            lemma_ser_ports_snoc(ports_view(ps@).take(i as int), pv);
            assert(out@ =~= old(out)@ + ser_ports(ports_view(ps@).take(i + 1)));
        }
        i = i + 1;
    }
    assert(ports_view(ps@).take(ps@.len() as int) =~= ports_view(ps@));
}

fn write_alarms(xs: &Vec<Alarm>, out: &mut Vec<u8>)
    ensures
        final(out)@ == old(out)@ + ser_alarms(alarms_view(xs@)),
{
    let mut i: usize = 0;
    while i < xs.len()
        invariant
            0 <= i <= xs.len(),
            out@ == old(out)@ + ser_alarms(alarms_view(xs@).take(i as int)),
        decreases xs.len() - i,
    {
        let ghost prev = out@;
        push_bytes(out, &xs[i].name);
        out.push(58);
        out.push(32);
        push_bytes(out, &xs[i].status);
        out.push(10);
        proof {
            let av = xs@[i as int]@;
            assert(out@ =~= prev + ser_alarm_line(av));
            assert(alarms_view(xs@).take(i + 1) =~= alarms_view(xs@).take(i as int).push(av));
            lemma_ser_alarms_snoc(alarms_view(xs@).take(i as int), av);
            assert(out@ =~= old(out)@ + ser_alarms(alarms_view(xs@).take(i + 1)));
        }
        i = i + 1;
    }
    assert(alarms_view(xs@).take(xs@.len() as int) =~= alarms_view(xs@));
}

fn write_settings(xs: &Vec<Setting>, out: &mut Vec<u8>)
    ensures
        final(out)@ == old(out)@ + ser_settings(settings_view(xs@)),
{
    let mut i: usize = 0;
    while i < xs.len()
        invariant
            0 <= i <= xs.len(),
            out@ == old(out)@ + ser_settings(settings_view(xs@).take(i as int)),
        decreases xs.len() - i,
    {
        let ghost prev = out@;
        push_bytes(out, &xs[i].setting);
        out.push(58);
        out.push(32);
        push_bytes(out, &xs[i].value);
        out.push(10);
        proof {
            let sv = xs@[i as int]@;
            assert(out@ =~= prev + ser_setting_line(sv));
            assert(settings_view(xs@).take(i + 1) =~= settings_view(xs@).take(i as int).push(sv));
            lemma_ser_settings_snoc(settings_view(xs@).take(i as int), sv);
            assert(out@ =~= old(out)@ + ser_settings(settings_view(xs@).take(i + 1)));
        }
        i = i + 1;
    }
    assert(settings_view(xs@).take(xs@.len() as int) =~= settings_view(xs@));
}

/// Append one `Key: Value` line.
fn write_kv(out: &mut Vec<u8>, k: Vec<u8>, v: &Vec<u8>)
    ensures
        final(out)@ == old(out)@ + ser_kv_line(k@, v@),
{
    let ghost kv = k@;
    push_all(out, k);
    out.push(58);
    out.push(32);
    push_bytes(out, v);
    out.push(10);
    assert(out@ =~= old(out)@ + ser_kv_line(kv, v@));
}

/// Append one `Key: <number>` line.
fn write_kv_count(out: &mut Vec<u8>, k: Vec<u8>, n: u32)
    ensures
        final(out)@ == old(out)@ + ser_kv_line(k@, dec_repr(n as nat)),
{
    let ghost kv = k@;
    push_all(out, k);
    out.push(58);
    out.push(32);
    push_dec(n, out);
    out.push(10);
    assert(out@ =~= old(out)@ + ser_kv_line(kv, dec_repr(n as nat)));
}

fn write_present_field(out: &mut Vec<u8>, p: &Option<Present>)
    ensures
        final(out)@ == old(out)@ + ser_opt_text(
            DevField::Present,
            match *p {
                Some(q) => Some(present_token(q)),
                None => None,
            },
        ),
{
    match p {
        Some(Present::Yes) => write_kv(out, dev_label_bytes(DevField::Present), &tok_true_bytes()),
        Some(Present::No) => write_kv(
            out,
            dev_label_bytes(DevField::Present),
            &tok_false_bytes(),
        ),
        Some(Present::NeedsUpdate) => write_kv(
            out,
            dev_label_bytes(DevField::Present),
            &tok_needs_update_bytes(),
        ),
        None => {
            assert(out@ =~= old(out)@ + Seq::<u8>::empty());
        },
    }
}

pub open spec fn opt_view(v: Option<Vec<u8>>) -> Option<Seq<u8>> {
    match v {
        Some(t) => Some(t@),
        None => None,
    }
}

fn write_text_field(out: &mut Vec<u8>, f: DevField, v: &Option<Vec<u8>>)
    ensures
        final(out)@ == old(out)@ + ser_opt_text(f, opt_view(*v)),
{
    match v {
        Some(t) => write_kv(out, dev_label_bytes(f), t),
        None => {
            assert(out@ =~= old(out)@ + Seq::<u8>::empty());
        },
    }
}

fn write_count_field(out: &mut Vec<u8>, f: DevField, n: &Option<u32>)
    ensures
        final(out)@ == old(out)@ + ser_opt_count(f, *n),
{
    match n {
        Some(m) => write_kv_count(out, dev_label_bytes(f), *m),
        None => {
            assert(out@ =~= old(out)@ + Seq::<u8>::empty());
        },
    }
}

#[verifier::rlimit(100)]
fn write_device_known(d: &DeviceInfo, out: &mut Vec<u8>)
    ensures
        final(out)@ == old(out)@ + ser_device_known(d@),
{
    let ghost a1 = ser_opt_text(
        DevField::Present,
        match d@.present {
            Some(p) => Some(present_token(p)),
            None => None,
        },
    );
    let ghost a2 = ser_opt_text(DevField::Model, d@.model_name);
    let ghost a3 = ser_opt_text(DevField::Friendly, d@.friendly_name);
    let ghost a4 = ser_opt_text(DevField::Unique, d@.unique_id);
    let ghost a5 = ser_opt_count(DevField::Inputs, d@.video_inputs);
    let ghost a6 = ser_opt_count(DevField::Processing, d@.video_processing_units);
    let ghost a7 = ser_opt_count(DevField::Outputs, d@.video_outputs);
    let ghost a8 = ser_opt_count(DevField::Monitoring, d@.video_monitoring_outputs);
    let ghost a9 = ser_opt_count(DevField::Serial, d@.serial_ports);
    write_present_field(out, &d.present);
    assert(out@ == old(out)@ + a1);
    write_text_field(out, DevField::Model, &d.model_name);
    assert(out@ =~= old(out)@ + (a1 + a2));
    let ghost p2 = a1 + a2;
    write_text_field(out, DevField::Friendly, &d.friendly_name);
    assert(out@ =~= old(out)@ + (p2 + a3));
    let ghost p3 = p2 + a3;
    write_text_field(out, DevField::Unique, &d.unique_id);
    assert(out@ =~= old(out)@ + (p3 + a4));
    let ghost p4 = p3 + a4;
    write_count_field(out, DevField::Inputs, &d.video_inputs);
    assert(out@ =~= old(out)@ + (p4 + a5));
    let ghost p5 = p4 + a5;
    write_count_field(out, DevField::Processing, &d.video_processing_units);
    assert(out@ =~= old(out)@ + (p5 + a6));
    let ghost p6 = p5 + a6;
    write_count_field(out, DevField::Outputs, &d.video_outputs);
    assert(out@ =~= old(out)@ + (p6 + a7));
    let ghost p7 = p6 + a7;
    write_count_field(out, DevField::Monitoring, &d.video_monitoring_outputs);
    assert(out@ =~= old(out)@ + (p7 + a8));
    let ghost p8 = p7 + a8;
    write_count_field(out, DevField::Serial, &d.serial_ports);
    assert(out@ =~= old(out)@ + (p8 + a9));
}

fn write_device_body(d: &DeviceInfo, out: &mut Vec<u8>)
    ensures
        final(out)@ == old(out)@ + ser_device_body(d@),
{
    write_device_known(d, out);
    let ghost mid = out@;
    if let Some(ps) = &d.unknown_fields {
        let ghost pv = ps@.map_values(|p: UnknownKVPair| p@);
        let mut i: usize = 0;
        while i < ps.len()
            invariant
                0 <= i <= ps.len(),
                pv == ps@.map_values(|p: UnknownKVPair| p@),
                out@ == mid + ser_kvpairs(pv.take(i as int)),
            decreases ps.len() - i,
        {
            let ghost prev = out@;
            push_bytes(out, &ps[i].key);
            out.push(58);
            out.push(32);
            push_bytes(out, &ps[i].value);
            out.push(10);
            proof {
                let kv = ps@[i as int]@;
                assert(out@ =~= prev + ser_unknown_kv_line(kv));
                assert(pv.take(i + 1) =~= pv.take(i as int).push(kv));
                lemma_ser_kvpairs_snoc(pv.take(i as int), kv);
                assert(out@ =~= mid + ser_kvpairs(pv.take(i + 1)));
            }
            i = i + 1;
        }
        assert(pv.take(ps@.len() as int) =~= pv);
        assert(out@ =~= old(out)@ + (ser_device_known(d@) + ser_kvpairs(pv)));
    } else {
        assert(out@ =~= old(out)@ + (ser_device_known(d@) + Seq::<u8>::empty()));
    }
}

impl VideohubMessage {
    /// Append the serialized block, blank-line terminator included.
    #[verifier::rlimit(100)]
    pub fn write_serialized(&self, out: &mut Vec<u8>)
        ensures
            final(out)@ == old(out)@ + spec_serialize(self@),
    {
        match self {
            VideohubMessage::Preamble(p) => {
                push_all(out, header_bytes(HeaderKind::Preamble));
                out.push(10);
                push_all(out, version_key_bytes());
                out.push(58);
                out.push(32);
                push_bytes(out, &p.version);
                out.push(10);
                out.push(10);
                assert(out@ =~= old(out)@ + spec_serialize(self@));
            },
            VideohubMessage::DeviceInfo(d) => {
                push_all(out, header_bytes(HeaderKind::Device));
                out.push(10);
                write_device_body(d, out);
                out.push(10);
                assert(out@ =~= old(out)@ + spec_serialize(self@));
            },
            VideohubMessage::InputLabels(v) => {
                push_all(out, header_bytes(HeaderKind::InputLabels));
                out.push(10);
                write_labels(v, out);
                out.push(10);
                assert(out@ =~= old(out)@ + spec_serialize(self@));
            },
            VideohubMessage::OutputLabels(v) => {
                push_all(out, header_bytes(HeaderKind::OutputLabels));
                out.push(10);
                write_labels(v, out);
                out.push(10);
                assert(out@ =~= old(out)@ + spec_serialize(self@));
            },
            VideohubMessage::MonitorOutputLabels(v) => {
                push_all(out, header_bytes(HeaderKind::MonitorOutputLabels));
                out.push(10);
                write_labels(v, out);
                out.push(10);
                assert(out@ =~= old(out)@ + spec_serialize(self@));
            },
            VideohubMessage::SerialPortLabels(v) => {
                push_all(out, header_bytes(HeaderKind::SerialPortLabels));
                out.push(10);
                write_labels(v, out);
                out.push(10);
                assert(out@ =~= old(out)@ + spec_serialize(self@));
            },
            VideohubMessage::FrameLabels(v) => {
                push_all(out, header_bytes(HeaderKind::FrameLabels));
                out.push(10);
                write_labels(v, out);
                out.push(10);
                assert(out@ =~= old(out)@ + spec_serialize(self@));
            },
            VideohubMessage::VideoOutputRouting(v) => {
                push_all(out, header_bytes(HeaderKind::VideoOutputRouting));
                out.push(10);
                write_routes(v, out);
                out.push(10);
                assert(out@ =~= old(out)@ + spec_serialize(self@));
            },
            VideohubMessage::VideoMonitoringOutputRouting(v) => {
                push_all(out, header_bytes(HeaderKind::VideoMonitoringOutputRouting));
                out.push(10);
                write_routes(v, out);
                out.push(10);
                assert(out@ =~= old(out)@ + spec_serialize(self@));
            },
            VideohubMessage::SerialPortRouting(v) => {
                push_all(out, header_bytes(HeaderKind::SerialPortRouting));
                out.push(10);
                write_routes(v, out);
                out.push(10);
                assert(out@ =~= old(out)@ + spec_serialize(self@));
            },
            VideohubMessage::ProcessingUnitRouting(v) => {
                push_all(out, header_bytes(HeaderKind::ProcessingUnitRouting));
                out.push(10);
                write_routes(v, out);
                out.push(10);
                assert(out@ =~= old(out)@ + spec_serialize(self@));
            },
            VideohubMessage::FrameBufferRouting(v) => {
                push_all(out, header_bytes(HeaderKind::FrameBufferRouting));
                out.push(10);
                write_routes(v, out);
                out.push(10);
                assert(out@ =~= old(out)@ + spec_serialize(self@));
            },
            VideohubMessage::VideoOutputLocks(v) => {
                push_all(out, header_bytes(HeaderKind::VideoOutputLocks));
                out.push(10);
                write_locks(v, out);
                out.push(10);
                assert(out@ =~= old(out)@ + spec_serialize(self@));
            },
            VideohubMessage::MonitoringOutputLocks(v) => {
                push_all(out, header_bytes(HeaderKind::MonitoringOutputLocks));
                out.push(10);
                write_locks(v, out);
                out.push(10);
                assert(out@ =~= old(out)@ + spec_serialize(self@));
            },
            VideohubMessage::SerialPortLocks(v) => {
                push_all(out, header_bytes(HeaderKind::SerialPortLocks));
                out.push(10);
                write_locks(v, out);
                out.push(10);
                assert(out@ =~= old(out)@ + spec_serialize(self@));
            },
            VideohubMessage::ProcessingUnitLocks(v) => {
                push_all(out, header_bytes(HeaderKind::ProcessingUnitLocks));
                out.push(10);
                write_locks(v, out);
                out.push(10);
                assert(out@ =~= old(out)@ + spec_serialize(self@));
            },
            VideohubMessage::FrameBufferLocks(v) => {
                push_all(out, header_bytes(HeaderKind::FrameBufferLocks));
                out.push(10);
                write_locks(v, out);
                out.push(10);
                assert(out@ =~= old(out)@ + spec_serialize(self@));
            },
            VideohubMessage::VideoInputStatus(v) => {
                push_all(out, header_bytes(HeaderKind::VideoInputStatus));
                out.push(10);
                write_ports(v, out);
                out.push(10);
                assert(out@ =~= old(out)@ + spec_serialize(self@));
            },
            VideohubMessage::VideoOutputStatus(v) => {
                push_all(out, header_bytes(HeaderKind::VideoOutputStatus));
                out.push(10);
                write_ports(v, out);
                out.push(10);
                assert(out@ =~= old(out)@ + spec_serialize(self@));
            },
            VideohubMessage::SerialPortStatus(v) => {
                push_all(out, header_bytes(HeaderKind::SerialPortStatus));
                out.push(10);
                write_ports(v, out);
                out.push(10);
                assert(out@ =~= old(out)@ + spec_serialize(self@));
            },
            VideohubMessage::AlarmStatus(v) => {
                push_all(out, header_bytes(HeaderKind::AlarmStatus));
                out.push(10);
                write_alarms(v, out);
                out.push(10);
                assert(out@ =~= old(out)@ + spec_serialize(self@));
            },
            VideohubMessage::Configuration(v) => {
                push_all(out, header_bytes(HeaderKind::Configuration));
                out.push(10);
                write_settings(v, out);
                out.push(10);
                assert(out@ =~= old(out)@ + spec_serialize(self@));
            },
            VideohubMessage::ACK => {
                push_all(out, header_bytes(HeaderKind::Ack));
                out.push(10);
                out.push(10);
                assert(out@ =~= old(out)@ + spec_serialize(self@));
            },
            VideohubMessage::NAK => {
                push_all(out, header_bytes(HeaderKind::Nak));
                out.push(10);
                out.push(10);
                assert(out@ =~= old(out)@ + spec_serialize(self@));
            },
            VideohubMessage::Ping => {
                push_all(out, header_bytes(HeaderKind::Ping));
                out.push(10);
                out.push(10);
                assert(out@ =~= old(out)@ + spec_serialize(self@));
            },
            VideohubMessage::EndPrelude => {
                push_all(out, header_bytes(HeaderKind::EndPrelude));
                out.push(10);
                out.push(10);
                assert(out@ =~= old(out)@ + spec_serialize(self@));
            },
            VideohubMessage::UnknownMessage(h, b) => {
                push_bytes(out, h);
                out.push(10);
                push_bytes(out, b);
                out.push(10);
                assert(out@ =~= old(out)@ + spec_serialize(self@));
            },
        }
    }

    /// The serialized block as a fresh vector.
    pub fn to_serialized(&self) -> (r: Vec<u8>)
        ensures
            r@ == spec_serialize(self@),
    {
        let mut out: Vec<u8> = Vec::new();
        self.write_serialized(&mut out);
        out
    }
}

} // verus!
