//! The protocol data model: every block of the wire protocol as a typed
//! message, together with its mathematical view and well-formedness.
use vstd::prelude::*;

verus! {

use crate::text::{is_wsb, find_byte};
use crate::wire::{classify, classify_dev_key, classify_status_tok, header_text_ok};

/// Version advertisement opening every conversation.
#[derive(Clone, Debug, PartialEq, Eq)]
pub struct Preamble {
    pub version: Vec<u8>,
}

/// Presence tri-state of a device-information block.
#[derive(Clone, Copy, Debug, Default, PartialEq, Eq)]
pub enum Present {
    Yes,
    #[default]
    No,
    NeedsUpdate,
}

/// A key/value pair under an unrecognized device-information key.
#[derive(Clone, Debug, Default, PartialEq, Eq)]
pub struct UnknownKVPair {
    pub key: Vec<u8>,
    pub value: Vec<u8>,
}

/// The device-information block.
#[derive(Clone, Debug, Default, PartialEq, Eq)]
pub struct DeviceInfo {
    pub present: Option<Present>,
    pub model_name: Option<Vec<u8>>,
    pub friendly_name: Option<Vec<u8>>,
    pub unique_id: Option<Vec<u8>>,
    pub video_inputs: Option<u32>,
    pub video_processing_units: Option<u32>,
    pub video_outputs: Option<u32>,
    pub video_monitoring_outputs: Option<u32>,
    pub serial_ports: Option<u32>,
    pub unknown_fields: Option<Vec<UnknownKVPair>>,
}

/// One entry of a label block.
#[derive(Clone, Debug, Default, PartialEq, Eq)]
pub struct Label {
    pub id: u32,
    pub name: Vec<u8>,
}

/// One entry of a routing block: `to_output` is patched from `from_input`.
#[derive(Clone, Copy, Debug, Default, PartialEq, Eq)]
pub struct Route {
    pub from_input: u32,
    pub to_output: u32,
}

/// Lock state of one entry of a lock block.
#[derive(Clone, Copy, Debug, Default, PartialEq, Eq)]
pub enum LockState {
    Owned,
    Locked,
    #[default]
    Unlocked,
}

/// One entry of a lock block.
#[derive(Clone, Copy, Debug, Default, PartialEq, Eq)]
pub struct Lock {
    pub id: u32,
    pub state: LockState,
}

/// Direction of a serial port.
#[derive(Clone, Copy, Debug, Default, PartialEq, Eq)]
pub enum SerialPortDirectionState {
    Control,
    Slave,
    #[default]
    Auto,
}

/// One entry of a serial-port-direction block.
#[derive(Clone, Copy, Debug, Default, PartialEq, Eq)]
pub struct SerialPortDirection {
    pub id: u32,
    pub state: SerialPortDirectionState,
}

/// Hardware kind of one port in a status block.
#[derive(Clone, Debug, Default, PartialEq, Eq)]
pub enum HardwarePortType {
    #[default]
    NoPort,
    BNC,
    Optical,
    Thunderbolt,
    RS422,
    Other(Vec<u8>),
}

/// One entry of a status block.
#[derive(Clone, Debug, Default, PartialEq, Eq)]
pub struct HardwarePort {
    pub id: u32,
    pub port_type: HardwarePortType,
}

/// One entry of an alarm-status block.
#[derive(Clone, Debug, Default, PartialEq, Eq)]
pub struct Alarm {
    pub name: Vec<u8>,
    pub status: Vec<u8>,
}

/// One entry of a configuration block.
#[derive(Clone, Debug, Default, PartialEq, Eq)]
pub struct Setting {
    pub setting: Vec<u8>,
    pub value: Vec<u8>,
}

/// An unrecognized block, kept verbatim: raw header line and raw body bytes.
#[derive(Clone, Debug, Default, PartialEq, Eq)]
pub struct UnknownMessage {
    pub header: Vec<u8>,
    pub body: Vec<u8>,
}

/// One protocol message: a block on the wire.
#[derive(Clone, Debug, PartialEq, Eq)]
pub enum VideohubMessage {
    Preamble(Preamble),
    DeviceInfo(DeviceInfo),
    InputLabels(Vec<Label>),
    OutputLabels(Vec<Label>),
    MonitorOutputLabels(Vec<Label>),
    SerialPortLabels(Vec<Label>),
    FrameLabels(Vec<Label>),
    VideoOutputRouting(Vec<Route>),
    VideoMonitoringOutputRouting(Vec<Route>),
    SerialPortRouting(Vec<Route>),
    ProcessingUnitRouting(Vec<Route>),
    FrameBufferRouting(Vec<Route>),
    VideoOutputLocks(Vec<Lock>),
    MonitoringOutputLocks(Vec<Lock>),
    SerialPortLocks(Vec<Lock>),
    ProcessingUnitLocks(Vec<Lock>),
    FrameBufferLocks(Vec<Lock>),
    VideoInputStatus(Vec<HardwarePort>),
    VideoOutputStatus(Vec<HardwarePort>),
    SerialPortStatus(Vec<HardwarePort>),
    AlarmStatus(Vec<Alarm>),
    Configuration(Vec<Setting>),
    ACK,
    NAK,
    Ping,
    EndPrelude,
    UnknownMessage(Vec<u8>, Vec<u8>),
}

// ------------------------------------------------------------------
// Mathematical views
// ------------------------------------------------------------------
pub struct PreambleV {
    pub version: Seq<u8>,
}

pub struct KVPairV {
    pub key: Seq<u8>,
    pub value: Seq<u8>,
}

pub struct DeviceInfoV {
    pub present: Option<Present>,
    pub model_name: Option<Seq<u8>>,
    pub friendly_name: Option<Seq<u8>>,
    pub unique_id: Option<Seq<u8>>,
    pub video_inputs: Option<u32>,
    pub video_processing_units: Option<u32>,
    pub video_outputs: Option<u32>,
    pub video_monitoring_outputs: Option<u32>,
    pub serial_ports: Option<u32>,
    pub unknown_fields: Option<Seq<KVPairV>>,
}

pub struct LabelV {
    pub id: u32,
    pub name: Seq<u8>,
}

pub enum HwTypeV {
    NoPort,
    BNC,
    Optical,
    Thunderbolt,
    RS422,
    Other(Seq<u8>),
}

pub struct HwPortV {
    pub id: u32,
    pub port_type: HwTypeV,
}

pub struct AlarmV {
    pub name: Seq<u8>,
    pub status: Seq<u8>,
}

pub struct SettingV {
    pub setting: Seq<u8>,
    pub value: Seq<u8>,
}

/// A protocol message as mathematics: byte vectors become sequences.
pub enum MsgV {
    Preamble(PreambleV),
    DeviceInfo(DeviceInfoV),
    InputLabels(Seq<LabelV>),
    OutputLabels(Seq<LabelV>),
    MonitorOutputLabels(Seq<LabelV>),
    SerialPortLabels(Seq<LabelV>),
    FrameLabels(Seq<LabelV>),
    VideoOutputRouting(Seq<Route>),
    VideoMonitoringOutputRouting(Seq<Route>),
    SerialPortRouting(Seq<Route>),
    ProcessingUnitRouting(Seq<Route>),
    FrameBufferRouting(Seq<Route>),
    VideoOutputLocks(Seq<Lock>),
    MonitoringOutputLocks(Seq<Lock>),
    SerialPortLocks(Seq<Lock>),
    ProcessingUnitLocks(Seq<Lock>),
    FrameBufferLocks(Seq<Lock>),
    VideoInputStatus(Seq<HwPortV>),
    VideoOutputStatus(Seq<HwPortV>),
    SerialPortStatus(Seq<HwPortV>),
    AlarmStatus(Seq<AlarmV>),
    Configuration(Seq<SettingV>),
    ACK,
    NAK,
    Ping,
    EndPrelude,
    UnknownMessage(Seq<u8>, Seq<u8>),
}

impl View for Preamble {
    type V = PreambleV;

    open spec fn view(&self) -> PreambleV {
        PreambleV { version: self.version@ }
    }
}

impl View for UnknownKVPair {
    type V = KVPairV;

    open spec fn view(&self) -> KVPairV {
        KVPairV { key: self.key@, value: self.value@ }
    }
}

impl View for DeviceInfo {
    type V = DeviceInfoV;

    open spec fn view(&self) -> DeviceInfoV {
        DeviceInfoV {
            present: self.present,
            model_name: match self.model_name {
                Some(ref v) => Some(v@),
                None => None,
            },
            friendly_name: match self.friendly_name {
                Some(ref v) => Some(v@),
                None => None,
            },
            unique_id: match self.unique_id {
                Some(ref v) => Some(v@),
                None => None,
            },
            video_inputs: self.video_inputs,
            video_processing_units: self.video_processing_units,
            video_outputs: self.video_outputs,
            video_monitoring_outputs: self.video_monitoring_outputs,
            serial_ports: self.serial_ports,
            unknown_fields: match self.unknown_fields {
                Some(ref v) => Some(v@.map_values(|p: UnknownKVPair| p@)),
                None => None,
            },
        }
    }
}

impl View for Label {
    type V = LabelV;

    open spec fn view(&self) -> LabelV {
        LabelV { id: self.id, name: self.name@ }
    }
}

impl View for HardwarePortType {
    type V = HwTypeV;

    open spec fn view(&self) -> HwTypeV {
        match self {
            HardwarePortType::NoPort => HwTypeV::NoPort,
            HardwarePortType::BNC => HwTypeV::BNC,
            HardwarePortType::Optical => HwTypeV::Optical,
            HardwarePortType::Thunderbolt => HwTypeV::Thunderbolt,
            HardwarePortType::RS422 => HwTypeV::RS422,
            HardwarePortType::Other(ref s) => HwTypeV::Other(s@),
        }
    }
}

impl View for HardwarePort {
    type V = HwPortV;

    open spec fn view(&self) -> HwPortV {
        HwPortV { id: self.id, port_type: self.port_type@ }
    }
}

impl View for Alarm {
    type V = AlarmV;

    open spec fn view(&self) -> AlarmV {
        AlarmV { name: self.name@, status: self.status@ }
    }
}

impl View for Setting {
    type V = SettingV;

    open spec fn view(&self) -> SettingV {
        SettingV { setting: self.setting@, value: self.value@ }
    }
}

impl View for UnknownMessage {
    type V = MsgV;

    open spec fn view(&self) -> MsgV {
        MsgV::UnknownMessage(self.header@, self.body@)
    }
}

pub open spec fn labels_view(v: Seq<Label>) -> Seq<LabelV> {
    v.map_values(|l: Label| l@)
}

pub open spec fn ports_view(v: Seq<HardwarePort>) -> Seq<HwPortV> {
    v.map_values(|p: HardwarePort| p@)
}

pub open spec fn alarms_view(v: Seq<Alarm>) -> Seq<AlarmV> {
    v.map_values(|a: Alarm| a@)
}

pub open spec fn settings_view(v: Seq<Setting>) -> Seq<SettingV> {
    v.map_values(|s: Setting| s@)
}

impl View for VideohubMessage {
    type V = MsgV;

    open spec fn view(&self) -> MsgV {
        match self {
            VideohubMessage::Preamble(ref p) => MsgV::Preamble(p@),
            VideohubMessage::DeviceInfo(ref d) => MsgV::DeviceInfo(d@),
            VideohubMessage::InputLabels(ref v) => MsgV::InputLabels(labels_view(v@)),
            VideohubMessage::OutputLabels(ref v) => MsgV::OutputLabels(labels_view(v@)),
            VideohubMessage::MonitorOutputLabels(ref v) => MsgV::MonitorOutputLabels(
                labels_view(v@),
            ),
            VideohubMessage::SerialPortLabels(ref v) => MsgV::SerialPortLabels(labels_view(v@)),
            VideohubMessage::FrameLabels(ref v) => MsgV::FrameLabels(labels_view(v@)),
            VideohubMessage::VideoOutputRouting(ref v) => MsgV::VideoOutputRouting(v@),
            VideohubMessage::VideoMonitoringOutputRouting(ref v) => {
                MsgV::VideoMonitoringOutputRouting(v@)
            },
            VideohubMessage::SerialPortRouting(ref v) => MsgV::SerialPortRouting(v@),
            VideohubMessage::ProcessingUnitRouting(ref v) => MsgV::ProcessingUnitRouting(v@),
            VideohubMessage::FrameBufferRouting(ref v) => MsgV::FrameBufferRouting(v@),
            VideohubMessage::VideoOutputLocks(ref v) => MsgV::VideoOutputLocks(v@),
            VideohubMessage::MonitoringOutputLocks(ref v) => MsgV::MonitoringOutputLocks(v@),
            VideohubMessage::SerialPortLocks(ref v) => MsgV::SerialPortLocks(v@),
            VideohubMessage::ProcessingUnitLocks(ref v) => MsgV::ProcessingUnitLocks(v@),
            VideohubMessage::FrameBufferLocks(ref v) => MsgV::FrameBufferLocks(v@),
            VideohubMessage::VideoInputStatus(ref v) => MsgV::VideoInputStatus(ports_view(v@)),
            VideohubMessage::VideoOutputStatus(ref v) => MsgV::VideoOutputStatus(ports_view(v@)),
            VideohubMessage::SerialPortStatus(ref v) => MsgV::SerialPortStatus(ports_view(v@)),
            VideohubMessage::AlarmStatus(ref v) => MsgV::AlarmStatus(alarms_view(v@)),
            VideohubMessage::Configuration(ref v) => MsgV::Configuration(settings_view(v@)),
            VideohubMessage::ACK => MsgV::ACK,
            VideohubMessage::NAK => MsgV::NAK,
            VideohubMessage::Ping => MsgV::Ping,
            VideohubMessage::EndPrelude => MsgV::EndPrelude,
            VideohubMessage::UnknownMessage(ref h, ref b) => MsgV::UnknownMessage(h@, b@),
        }
    }
}

// ------------------------------------------------------------------
// Well-formedness: exactly the values the serializer can frame so that
// parsing gives them back unchanged.
// ------------------------------------------------------------------
/// Free text on a line: trimmed at both ends and free of line breaks.
pub open spec fn wf_text(s: Seq<u8>) -> bool {
    (s.len() == 0 || (!is_wsb(s[0]) && !is_wsb(s.last()))) && forall|j: int|
        0 <= j < s.len() ==> #[trigger] s[j] != 10
}

/// A key on a `Key: Value` line: text without a colon.
pub open spec fn wf_key(s: Seq<u8>) -> bool {
    wf_text(s) && forall|j: int| 0 <= j < s.len() ==> #[trigger] s[j] != 58
}

/// A line of only carriage returns reads as blank.
pub open spec fn is_blank_line(line: Seq<u8>) -> bool {
    forall|j: int| 0 <= j < line.len() ==> #[trigger] line[j] == 13
}

/// A raw block body: newline-terminated lines, none of them blank.
pub open spec fn wf_body(b: Seq<u8>) -> bool
    decreases b.len(),
{
    if b.len() == 0 {
        true
    } else {
        let nl = find_byte(b, 10);
        if nl < 0 || nl >= b.len() {
            false
        } else if is_blank_line(b.take(nl)) {
            false
        } else {
            wf_body(b.skip(nl + 1))
        }
    }
}

pub open spec fn wf_opt_text(s: Option<Seq<u8>>) -> bool {
    match s {
        Some(t) => wf_text(t),
        None => true,
    }
}

pub open spec fn wf_device(d: DeviceInfoV) -> bool {
    &&& wf_opt_text(d.model_name)
    &&& wf_opt_text(d.friendly_name)
    &&& wf_opt_text(d.unique_id)
    &&& match d.unknown_fields {
        Some(ps) => ps.len() > 0 && forall|i: int|
            0 <= i < ps.len() ==> wf_key(#[trigger] ps[i].key) && classify_dev_key(ps[i].key)
                is None && wf_text(ps[i].value),
        None => true,
    }
}

pub open spec fn wf_labels(ls: Seq<LabelV>) -> bool {
    forall|i: int| 0 <= i < ls.len() ==> wf_text(#[trigger] ls[i].name)
}

pub open spec fn wf_port_type(t: HwTypeV) -> bool {
    match t {
        HwTypeV::Other(s) => wf_text(s) && classify_status_tok(s) is None,
        _ => true,
    }
}

pub open spec fn wf_ports(ps: Seq<HwPortV>) -> bool {
    forall|i: int| 0 <= i < ps.len() ==> wf_port_type(#[trigger] ps[i].port_type)
}

pub open spec fn wf_alarms(xs: Seq<AlarmV>) -> bool {
    forall|i: int| 0 <= i < xs.len() ==> wf_key(#[trigger] xs[i].name) && wf_text(xs[i].status)
}

pub open spec fn wf_settings(xs: Seq<SettingV>) -> bool {
    forall|i: int| 0 <= i < xs.len() ==> wf_key(#[trigger] xs[i].setting) && wf_text(xs[i].value)
}

/// The messages whose serialized form parses back to the same value.
/// Every message the parser itself produces satisfies this.
pub open spec fn wf_msg(m: MsgV) -> bool {
    match m {
        MsgV::Preamble(p) => wf_text(p.version),
        MsgV::DeviceInfo(d) => wf_device(d),
        MsgV::InputLabels(ls) => wf_labels(ls),
        MsgV::OutputLabels(ls) => wf_labels(ls),
        MsgV::MonitorOutputLabels(ls) => wf_labels(ls),
        MsgV::SerialPortLabels(ls) => wf_labels(ls),
        MsgV::FrameLabels(ls) => wf_labels(ls),
        MsgV::VideoOutputRouting(_) => true,
        MsgV::VideoMonitoringOutputRouting(_) => true,
        MsgV::SerialPortRouting(_) => true,
        MsgV::ProcessingUnitRouting(_) => true,
        MsgV::FrameBufferRouting(_) => true,
        MsgV::VideoOutputLocks(_) => true,
        MsgV::MonitoringOutputLocks(_) => true,
        MsgV::SerialPortLocks(_) => true,
        MsgV::ProcessingUnitLocks(_) => true,
        MsgV::FrameBufferLocks(_) => true,
        MsgV::VideoInputStatus(ps) => wf_ports(ps),
        MsgV::VideoOutputStatus(ps) => wf_ports(ps),
        MsgV::SerialPortStatus(ps) => wf_ports(ps),
        MsgV::AlarmStatus(xs) => wf_alarms(xs),
        MsgV::Configuration(xs) => wf_settings(xs),
        MsgV::ACK => true,
        MsgV::NAK => true,
        MsgV::Ping => true,
        MsgV::EndPrelude => true,
        MsgV::UnknownMessage(h, b) => header_text_ok(h) && classify(h) is None && wf_body(b),
    }
}

} // verus!
