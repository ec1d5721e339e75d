//! Canonical wire names of the protocol: block headers, device-info keys,
//! and token spellings, with the classification functions and their laws.
use vstd::prelude::*;

verus! {

use crate::text::{bytes_of, upper, lower, is_wsb, ascii_bytes, upper_vec, lower_vec, bytes_eq};

/// The recognized block headers.
#[derive(Clone, Copy, Debug, PartialEq, Eq)]
pub enum HeaderKind {
    Preamble,
    Device,
    InputLabels,
    OutputLabels,
    MonitorOutputLabels,
    SerialPortLabels,
    FrameLabels,
    VideoOutputRouting,
    VideoMonitoringOutputRouting,
    SerialPortRouting,
    ProcessingUnitRouting,
    FrameBufferRouting,
    VideoOutputLocks,
    MonitoringOutputLocks,
    SerialPortLocks,
    ProcessingUnitLocks,
    FrameBufferLocks,
    VideoInputStatus,
    VideoOutputStatus,
    SerialPortStatus,
    AlarmStatus,
    Configuration,
    Ack,
    Nak,
    Ping,
    EndPrelude,
}

/// Canonical (uppercase) header line of each recognized block.
pub open spec fn spec_header(k: HeaderKind) -> Seq<u8> {
    match k {
        HeaderKind::Preamble => bytes_of("PROTOCOL PREAMBLE:"@),
        HeaderKind::Device => bytes_of("VIDEOHUB DEVICE:"@),
        HeaderKind::InputLabels => bytes_of("INPUT LABELS:"@),
        HeaderKind::OutputLabels => bytes_of("OUTPUT LABELS:"@),
        HeaderKind::MonitorOutputLabels => bytes_of("MONITOR OUTPUT LABELS:"@),
        HeaderKind::SerialPortLabels => bytes_of("SERIAL PORT LABELS:"@),
        HeaderKind::FrameLabels => bytes_of("FRAME LABELS:"@),
        HeaderKind::VideoOutputRouting => bytes_of("VIDEO OUTPUT ROUTING:"@),
        HeaderKind::VideoMonitoringOutputRouting => bytes_of("VIDEO MONITORING OUTPUT ROUTING:"@),
        HeaderKind::SerialPortRouting => bytes_of("SERIAL PORT ROUTING:"@),
        HeaderKind::ProcessingUnitRouting => bytes_of("PROCESSING UNIT ROUTING:"@),
        HeaderKind::FrameBufferRouting => bytes_of("FRAME BUFFER ROUTING:"@),
        HeaderKind::VideoOutputLocks => bytes_of("VIDEO OUTPUT LOCKS:"@),
        HeaderKind::MonitoringOutputLocks => bytes_of("MONITORING OUTPUT LOCKS:"@),
        HeaderKind::SerialPortLocks => bytes_of("SERIAL PORT LOCKS:"@),
        HeaderKind::ProcessingUnitLocks => bytes_of("PROCESSING UNIT LOCKS:"@),
        HeaderKind::FrameBufferLocks => bytes_of("FRAME BUFFER LOCKS:"@),
        HeaderKind::VideoInputStatus => bytes_of("VIDEO INPUT STATUS:"@),
        HeaderKind::VideoOutputStatus => bytes_of("VIDEO OUTPUT STATUS:"@),
        HeaderKind::SerialPortStatus => bytes_of("SERIAL PORT STATUS:"@),
        HeaderKind::AlarmStatus => bytes_of("ALARM STATUS:"@),
        HeaderKind::Configuration => bytes_of("CONFIGURATION:"@),
        HeaderKind::Ack => bytes_of("ACK"@),
        HeaderKind::Nak => bytes_of("NAK"@),
        HeaderKind::Ping => bytes_of("PING:"@),
        HeaderKind::EndPrelude => bytes_of("END PRELUDE:"@),
    }
}

/// Match a header line, case-insensitively, against the recognized set.
pub open spec fn classify(h: Seq<u8>) -> Option<HeaderKind> {
    let u = upper(h);
    if u == spec_header(HeaderKind::Preamble) {
        Some(HeaderKind::Preamble)
    } else if u == spec_header(HeaderKind::Device) {
        Some(HeaderKind::Device)
    } else if u == spec_header(HeaderKind::InputLabels) {
        Some(HeaderKind::InputLabels)
    } else if u == spec_header(HeaderKind::OutputLabels) {
        Some(HeaderKind::OutputLabels)
    } else if u == spec_header(HeaderKind::MonitorOutputLabels) {
        Some(HeaderKind::MonitorOutputLabels)
    } else if u == spec_header(HeaderKind::SerialPortLabels) {
        Some(HeaderKind::SerialPortLabels)
    } else if u == spec_header(HeaderKind::FrameLabels) {
        Some(HeaderKind::FrameLabels)
    } else if u == spec_header(HeaderKind::VideoOutputRouting) {
        Some(HeaderKind::VideoOutputRouting)
    } else if u == spec_header(HeaderKind::VideoMonitoringOutputRouting) {
        Some(HeaderKind::VideoMonitoringOutputRouting)
    } else if u == spec_header(HeaderKind::SerialPortRouting) {
        Some(HeaderKind::SerialPortRouting)
    } else if u == spec_header(HeaderKind::ProcessingUnitRouting) {
        Some(HeaderKind::ProcessingUnitRouting)
    } else if u == spec_header(HeaderKind::FrameBufferRouting) {
        Some(HeaderKind::FrameBufferRouting)
    } else if u == spec_header(HeaderKind::VideoOutputLocks) {
        Some(HeaderKind::VideoOutputLocks)
    } else if u == spec_header(HeaderKind::MonitoringOutputLocks) {
        Some(HeaderKind::MonitoringOutputLocks)
    } else if u == spec_header(HeaderKind::SerialPortLocks) {
        Some(HeaderKind::SerialPortLocks)
    } else if u == spec_header(HeaderKind::ProcessingUnitLocks) {
        Some(HeaderKind::ProcessingUnitLocks)
    } else if u == spec_header(HeaderKind::FrameBufferLocks) {
        Some(HeaderKind::FrameBufferLocks)
    } else if u == spec_header(HeaderKind::VideoInputStatus) {
        Some(HeaderKind::VideoInputStatus)
    } else if u == spec_header(HeaderKind::VideoOutputStatus) {
        Some(HeaderKind::VideoOutputStatus)
    } else if u == spec_header(HeaderKind::SerialPortStatus) {
        Some(HeaderKind::SerialPortStatus)
    } else if u == spec_header(HeaderKind::AlarmStatus) {
        Some(HeaderKind::AlarmStatus)
    } else if u == spec_header(HeaderKind::Configuration) {
        Some(HeaderKind::Configuration)
    } else if u == spec_header(HeaderKind::Ack) {
        Some(HeaderKind::Ack)
    } else if u == spec_header(HeaderKind::Nak) {
        Some(HeaderKind::Nak)
    } else if u == spec_header(HeaderKind::Ping) {
        Some(HeaderKind::Ping)
    } else if u == spec_header(HeaderKind::EndPrelude) {
        Some(HeaderKind::EndPrelude)
    } else {
        None
    }
}

/// A header line is plain text: nonempty, no line break, firm at both ends.
pub open spec fn header_text_ok(s: Seq<u8>) -> bool {
    s.len() > 0 && !is_wsb(s[0]) && !is_wsb(s.last()) && forall|j: int|
        0 <= j < s.len() ==> #[trigger] s[j] != 10
}

/// Canonical header bytes of a recognized block.
pub fn header_bytes(k: HeaderKind) -> (v: Vec<u8>)
    ensures
        v@ == spec_header(k),
{
    match k {
        HeaderKind::Preamble => {
            proof {
                reveal_strlit("PROTOCOL PREAMBLE:");
            }
            ascii_bytes("PROTOCOL PREAMBLE:")
        },
        HeaderKind::Device => {
            proof {
                reveal_strlit("VIDEOHUB DEVICE:");
            }
            ascii_bytes("VIDEOHUB DEVICE:")
        },
        HeaderKind::InputLabels => {
            proof {
                reveal_strlit("INPUT LABELS:");
            }
            ascii_bytes("INPUT LABELS:")
        },
        HeaderKind::OutputLabels => {
            proof {
                reveal_strlit("OUTPUT LABELS:");
            }
            ascii_bytes("OUTPUT LABELS:")
        },
        HeaderKind::MonitorOutputLabels => {
            proof {
                reveal_strlit("MONITOR OUTPUT LABELS:");
            }
            ascii_bytes("MONITOR OUTPUT LABELS:")
        },
        HeaderKind::SerialPortLabels => {
            proof {
                reveal_strlit("SERIAL PORT LABELS:");
            }
            ascii_bytes("SERIAL PORT LABELS:")
        },
        HeaderKind::FrameLabels => {
            proof {
                reveal_strlit("FRAME LABELS:");
            }
            ascii_bytes("FRAME LABELS:")
        },
        HeaderKind::VideoOutputRouting => {
            proof {
                reveal_strlit("VIDEO OUTPUT ROUTING:");
            }
            ascii_bytes("VIDEO OUTPUT ROUTING:")
        },
        HeaderKind::VideoMonitoringOutputRouting => {
            proof {
                reveal_strlit("VIDEO MONITORING OUTPUT ROUTING:");
            }
            ascii_bytes("VIDEO MONITORING OUTPUT ROUTING:")
        },
        HeaderKind::SerialPortRouting => {
            proof {
                reveal_strlit("SERIAL PORT ROUTING:");
            }
            ascii_bytes("SERIAL PORT ROUTING:")
        },
        HeaderKind::ProcessingUnitRouting => {
            proof {
                reveal_strlit("PROCESSING UNIT ROUTING:");
            }
            ascii_bytes("PROCESSING UNIT ROUTING:")
        },
        HeaderKind::FrameBufferRouting => {
            proof {
                reveal_strlit("FRAME BUFFER ROUTING:");
            }
            ascii_bytes("FRAME BUFFER ROUTING:")
        },
        HeaderKind::VideoOutputLocks => {
            proof {
                reveal_strlit("VIDEO OUTPUT LOCKS:");
            }
            ascii_bytes("VIDEO OUTPUT LOCKS:")
        },
        HeaderKind::MonitoringOutputLocks => {
            proof {
                reveal_strlit("MONITORING OUTPUT LOCKS:");
            }
            ascii_bytes("MONITORING OUTPUT LOCKS:")
        },
        HeaderKind::SerialPortLocks => {
            proof {
                reveal_strlit("SERIAL PORT LOCKS:");
            }
            ascii_bytes("SERIAL PORT LOCKS:")
        },
        HeaderKind::ProcessingUnitLocks => {
            proof {
                reveal_strlit("PROCESSING UNIT LOCKS:");
            }
            ascii_bytes("PROCESSING UNIT LOCKS:")
        },
        HeaderKind::FrameBufferLocks => {
            proof {
                reveal_strlit("FRAME BUFFER LOCKS:");
            }
            ascii_bytes("FRAME BUFFER LOCKS:")
        },
        HeaderKind::VideoInputStatus => {
            proof {
                reveal_strlit("VIDEO INPUT STATUS:");
            }
            ascii_bytes("VIDEO INPUT STATUS:")
        },
        HeaderKind::VideoOutputStatus => {
            proof {
                reveal_strlit("VIDEO OUTPUT STATUS:");
            }
            ascii_bytes("VIDEO OUTPUT STATUS:")
        },
        HeaderKind::SerialPortStatus => {
            proof {
                reveal_strlit("SERIAL PORT STATUS:");
            }
            ascii_bytes("SERIAL PORT STATUS:")
        },
        HeaderKind::AlarmStatus => {
            proof {
                reveal_strlit("ALARM STATUS:");
            }
            ascii_bytes("ALARM STATUS:")
        },
        HeaderKind::Configuration => {
            proof {
                reveal_strlit("CONFIGURATION:");
            }
            ascii_bytes("CONFIGURATION:")
        },
        HeaderKind::Ack => {
            proof {
                reveal_strlit("ACK");
            }
            ascii_bytes("ACK")
        },
        HeaderKind::Nak => {
            proof {
                reveal_strlit("NAK");
            }
            ascii_bytes("NAK")
        },
        HeaderKind::Ping => {
            proof {
                reveal_strlit("PING:");
            }
            ascii_bytes("PING:")
        },
        HeaderKind::EndPrelude => {
            proof {
                reveal_strlit("END PRELUDE:");
            }
            ascii_bytes("END PRELUDE:")
        },
    }
}

/// Classify a raw header line against the recognized set.
pub fn classify_bytes(h: &Vec<u8>) -> (r: Option<HeaderKind>)
    ensures
        r == classify(h@),
{
    let u = upper_vec(h);
    if bytes_eq(&u, &header_bytes(HeaderKind::Preamble)) {
        Some(HeaderKind::Preamble)
    } else if bytes_eq(&u, &header_bytes(HeaderKind::Device)) {
        Some(HeaderKind::Device)
    } else if bytes_eq(&u, &header_bytes(HeaderKind::InputLabels)) {
        Some(HeaderKind::InputLabels)
    } else if bytes_eq(&u, &header_bytes(HeaderKind::OutputLabels)) {
        Some(HeaderKind::OutputLabels)
    } else if bytes_eq(&u, &header_bytes(HeaderKind::MonitorOutputLabels)) {
        Some(HeaderKind::MonitorOutputLabels)
    } else if bytes_eq(&u, &header_bytes(HeaderKind::SerialPortLabels)) {
        Some(HeaderKind::SerialPortLabels)
    } else if bytes_eq(&u, &header_bytes(HeaderKind::FrameLabels)) {
        Some(HeaderKind::FrameLabels)
    } else if bytes_eq(&u, &header_bytes(HeaderKind::VideoOutputRouting)) {
        Some(HeaderKind::VideoOutputRouting)
    } else if bytes_eq(&u, &header_bytes(HeaderKind::VideoMonitoringOutputRouting)) {
        Some(HeaderKind::VideoMonitoringOutputRouting)
    } else if bytes_eq(&u, &header_bytes(HeaderKind::SerialPortRouting)) {
        Some(HeaderKind::SerialPortRouting)
    } else if bytes_eq(&u, &header_bytes(HeaderKind::ProcessingUnitRouting)) {
        Some(HeaderKind::ProcessingUnitRouting)
    } else if bytes_eq(&u, &header_bytes(HeaderKind::FrameBufferRouting)) {
        Some(HeaderKind::FrameBufferRouting)
    } else if bytes_eq(&u, &header_bytes(HeaderKind::VideoOutputLocks)) {
        Some(HeaderKind::VideoOutputLocks)
    } else if bytes_eq(&u, &header_bytes(HeaderKind::MonitoringOutputLocks)) {
        Some(HeaderKind::MonitoringOutputLocks)
    } else if bytes_eq(&u, &header_bytes(HeaderKind::SerialPortLocks)) {
        Some(HeaderKind::SerialPortLocks)
    } else if bytes_eq(&u, &header_bytes(HeaderKind::ProcessingUnitLocks)) {
        Some(HeaderKind::ProcessingUnitLocks)
    } else if bytes_eq(&u, &header_bytes(HeaderKind::FrameBufferLocks)) {
        Some(HeaderKind::FrameBufferLocks)
    } else if bytes_eq(&u, &header_bytes(HeaderKind::VideoInputStatus)) {
        Some(HeaderKind::VideoInputStatus)
    } else if bytes_eq(&u, &header_bytes(HeaderKind::VideoOutputStatus)) {
        Some(HeaderKind::VideoOutputStatus)
    } else if bytes_eq(&u, &header_bytes(HeaderKind::SerialPortStatus)) {
        Some(HeaderKind::SerialPortStatus)
    } else if bytes_eq(&u, &header_bytes(HeaderKind::AlarmStatus)) {
        Some(HeaderKind::AlarmStatus)
    } else if bytes_eq(&u, &header_bytes(HeaderKind::Configuration)) {
        Some(HeaderKind::Configuration)
    } else if bytes_eq(&u, &header_bytes(HeaderKind::Ack)) {
        Some(HeaderKind::Ack)
    } else if bytes_eq(&u, &header_bytes(HeaderKind::Nak)) {
        Some(HeaderKind::Nak)
    } else if bytes_eq(&u, &header_bytes(HeaderKind::Ping)) {
        Some(HeaderKind::Ping)
    } else if bytes_eq(&u, &header_bytes(HeaderKind::EndPrelude)) {
        Some(HeaderKind::EndPrelude)
    } else {
        None
    }
}

/// Every canonical header classifies to its own kind and is plain text.
#[verifier::rlimit(60)]
pub proof fn lemma_headers()
    ensures
        forall|k: HeaderKind| #[trigger] classify(spec_header(k)) == Some(k),
        forall|k: HeaderKind| #[trigger] header_text_ok(spec_header(k)),
{
    reveal_strlit("PROTOCOL PREAMBLE:");
    reveal_strlit("VIDEOHUB DEVICE:");
    reveal_strlit("INPUT LABELS:");
    reveal_strlit("OUTPUT LABELS:");
    reveal_strlit("MONITOR OUTPUT LABELS:");
    reveal_strlit("SERIAL PORT LABELS:");
    reveal_strlit("FRAME LABELS:");
    reveal_strlit("VIDEO OUTPUT ROUTING:");
    reveal_strlit("VIDEO MONITORING OUTPUT ROUTING:");
    reveal_strlit("SERIAL PORT ROUTING:");
    reveal_strlit("PROCESSING UNIT ROUTING:");
    reveal_strlit("FRAME BUFFER ROUTING:");
    reveal_strlit("VIDEO OUTPUT LOCKS:");
    reveal_strlit("MONITORING OUTPUT LOCKS:");
    reveal_strlit("SERIAL PORT LOCKS:");
    reveal_strlit("PROCESSING UNIT LOCKS:");
    reveal_strlit("FRAME BUFFER LOCKS:");
    reveal_strlit("VIDEO INPUT STATUS:");
    reveal_strlit("VIDEO OUTPUT STATUS:");
    reveal_strlit("SERIAL PORT STATUS:");
    reveal_strlit("ALARM STATUS:");
    reveal_strlit("CONFIGURATION:");
    reveal_strlit("ACK");
    reveal_strlit("NAK");
    reveal_strlit("PING:");
    reveal_strlit("END PRELUDE:");
    assert forall|k: HeaderKind| #[trigger] upper(spec_header(k)) == spec_header(k) by {
        assert(upper(spec_header(k)) =~= spec_header(k));
    }
    assert(spec_header(HeaderKind::Preamble)[0] == 80);
    assert(spec_header(HeaderKind::Device)[0] == 86);
    assert(spec_header(HeaderKind::InputLabels)[0] == 73);
    assert(spec_header(HeaderKind::OutputLabels)[0] == 79);
    assert(spec_header(HeaderKind::MonitorOutputLabels)[0] == 77);
    assert(spec_header(HeaderKind::SerialPortLabels)[0] == 83);
    assert(spec_header(HeaderKind::FrameLabels)[0] == 70);
    assert(spec_header(HeaderKind::VideoOutputRouting)[0] == 86);
    assert(spec_header(HeaderKind::VideoMonitoringOutputRouting)[0] == 86);
    assert(spec_header(HeaderKind::SerialPortRouting)[0] == 83);
    assert(spec_header(HeaderKind::ProcessingUnitRouting)[0] == 80);
    assert(spec_header(HeaderKind::FrameBufferRouting)[0] == 70);
    assert(spec_header(HeaderKind::VideoOutputLocks)[0] == 86);
    assert(spec_header(HeaderKind::MonitoringOutputLocks)[0] == 77);
    assert(spec_header(HeaderKind::SerialPortLocks)[0] == 83);
    assert(spec_header(HeaderKind::ProcessingUnitLocks)[0] == 80);
    assert(spec_header(HeaderKind::FrameBufferLocks)[0] == 70);
    assert(spec_header(HeaderKind::VideoInputStatus)[0] == 86);
    assert(spec_header(HeaderKind::VideoOutputStatus)[0] == 86);
    assert(spec_header(HeaderKind::SerialPortStatus)[0] == 83);
    assert(spec_header(HeaderKind::AlarmStatus)[0] == 65);
    assert(spec_header(HeaderKind::Configuration)[0] == 67);
    assert(spec_header(HeaderKind::Ack)[0] == 65);
    assert(spec_header(HeaderKind::Nak)[0] == 78);
    assert(spec_header(HeaderKind::Ping)[0] == 80);
    assert(spec_header(HeaderKind::EndPrelude)[0] == 69);
    assert(spec_header(HeaderKind::VideoOutputLocks)[6] == 79);
    assert(spec_header(HeaderKind::VideoInputStatus)[6] == 73);
    assert(spec_header(HeaderKind::SerialPortLabels)[12] == 76);
    assert(spec_header(HeaderKind::SerialPortStatus)[12] == 83);
    assert forall|k: HeaderKind| #[trigger] classify(spec_header(k)) == Some(k) by {
        assert(upper(spec_header(k)) == spec_header(k));
    }
    assert forall|k: HeaderKind| #[trigger] header_text_ok(spec_header(k)) by {
        assert(spec_header(k).len() > 0);
    }
}

/// A key or token is plain text: nonempty, firm ends, no line break, no colon.
pub open spec fn key_text_ok(s: Seq<u8>) -> bool {
    s.len() > 0 && !is_wsb(s[0]) && !is_wsb(s.last()) && forall|j: int|
        0 <= j < s.len() ==> #[trigger] s[j] != 10 && s[j] != 58
}

/// The recognized keys of a device-information block.
#[derive(Clone, Copy, Debug, PartialEq, Eq)]
pub enum DevField {
    Present,
    Model,
    Friendly,
    Unique,
    Inputs,
    Processing,
    Outputs,
    Monitoring,
    Serial,
}

/// Canonical spelling of each device-information key.
pub open spec fn dev_label(f: DevField) -> Seq<u8> {
    match f {
        DevField::Present => bytes_of("Device present"@),
        DevField::Model => bytes_of("Model name"@),
        DevField::Friendly => bytes_of("Friendly name"@),
        DevField::Unique => bytes_of("Unique ID"@),
        DevField::Inputs => bytes_of("Video inputs"@),
        DevField::Processing => bytes_of("Video processing units"@),
        DevField::Outputs => bytes_of("Video outputs"@),
        DevField::Monitoring => bytes_of("Video monitoring outputs"@),
        DevField::Serial => bytes_of("Serial ports"@),
    }
}

/// Match a device-information key, case-insensitively.
pub open spec fn classify_dev_key(k: Seq<u8>) -> Option<DevField> {
    let l = lower(k);
    if l == lower(dev_label(DevField::Present)) {
        Some(DevField::Present)
    } else if l == lower(dev_label(DevField::Model)) {
        Some(DevField::Model)
    } else if l == lower(dev_label(DevField::Friendly)) {
        Some(DevField::Friendly)
    } else if l == lower(dev_label(DevField::Unique)) {
        Some(DevField::Unique)
    } else if l == lower(dev_label(DevField::Inputs)) {
        Some(DevField::Inputs)
    } else if l == lower(dev_label(DevField::Processing)) {
        Some(DevField::Processing)
    } else if l == lower(dev_label(DevField::Outputs)) {
        Some(DevField::Outputs)
    } else if l == lower(dev_label(DevField::Monitoring)) {
        Some(DevField::Monitoring)
    } else if l == lower(dev_label(DevField::Serial)) {
        Some(DevField::Serial)
    } else {
        None
    }
}

pub fn dev_label_bytes(f: DevField) -> (v: Vec<u8>)
    ensures
        v@ == dev_label(f),
{
    match f {
        DevField::Present => {
            proof {
                reveal_strlit("Device present");
            }
            ascii_bytes("Device present")
        },
        DevField::Model => {
            proof {
                reveal_strlit("Model name");
            }
            ascii_bytes("Model name")
        },
        DevField::Friendly => {
            proof {
                reveal_strlit("Friendly name");
            }
            ascii_bytes("Friendly name")
        },
        DevField::Unique => {
            proof {
                reveal_strlit("Unique ID");
            }
            ascii_bytes("Unique ID")
        },
        DevField::Inputs => {
            proof {
                reveal_strlit("Video inputs");
            }
            ascii_bytes("Video inputs")
        },
        DevField::Processing => {
            proof {
                reveal_strlit("Video processing units");
            }
            ascii_bytes("Video processing units")
        },
        DevField::Outputs => {
            proof {
                reveal_strlit("Video outputs");
            }
            ascii_bytes("Video outputs")
        },
        DevField::Monitoring => {
            proof {
                reveal_strlit("Video monitoring outputs");
            }
            ascii_bytes("Video monitoring outputs")
        },
        DevField::Serial => {
            proof {
                reveal_strlit("Serial ports");
            }
            ascii_bytes("Serial ports")
        },
    }
}

pub fn classify_dev_key_bytes(k: &Vec<u8>) -> (r: Option<DevField>)
    ensures
        r == classify_dev_key(k@),
{
    let l = lower_vec(k);
    if bytes_eq(&l, &lower_vec(&dev_label_bytes(DevField::Present))) {
        Some(DevField::Present)
    } else if bytes_eq(&l, &lower_vec(&dev_label_bytes(DevField::Model))) {
        Some(DevField::Model)
    } else if bytes_eq(&l, &lower_vec(&dev_label_bytes(DevField::Friendly))) {
        Some(DevField::Friendly)
    } else if bytes_eq(&l, &lower_vec(&dev_label_bytes(DevField::Unique))) {
        Some(DevField::Unique)
    } else if bytes_eq(&l, &lower_vec(&dev_label_bytes(DevField::Inputs))) {
        Some(DevField::Inputs)
    } else if bytes_eq(&l, &lower_vec(&dev_label_bytes(DevField::Processing))) {
        Some(DevField::Processing)
    } else if bytes_eq(&l, &lower_vec(&dev_label_bytes(DevField::Outputs))) {
        Some(DevField::Outputs)
    } else if bytes_eq(&l, &lower_vec(&dev_label_bytes(DevField::Monitoring))) {
        Some(DevField::Monitoring)
    } else if bytes_eq(&l, &lower_vec(&dev_label_bytes(DevField::Serial))) {
        Some(DevField::Serial)
    } else {
        None
    }
}

/// Every canonical device key classifies to its own field and is plain text.
#[verifier::rlimit(60)]
pub proof fn lemma_dev_keys()
    ensures
        forall|f: DevField| #[trigger] classify_dev_key(dev_label(f)) == Some(f),
        forall|f: DevField| #[trigger] key_text_ok(dev_label(f)),
{
    reveal_strlit("Device present");
    reveal_strlit("Model name");
    reveal_strlit("Friendly name");
    reveal_strlit("Unique ID");
    reveal_strlit("Video inputs");
    reveal_strlit("Video processing units");
    reveal_strlit("Video outputs");
    reveal_strlit("Video monitoring outputs");
    reveal_strlit("Serial ports");
    assert(lower(dev_label(DevField::Present))[0] == 100);
    assert(lower(dev_label(DevField::Model))[0] == 109);
    assert(lower(dev_label(DevField::Friendly))[0] == 102);
    assert(lower(dev_label(DevField::Unique))[0] == 117);
    assert(lower(dev_label(DevField::Inputs))[0] == 118);
    assert(lower(dev_label(DevField::Processing))[0] == 118);
    assert(lower(dev_label(DevField::Outputs))[0] == 118);
    assert(lower(dev_label(DevField::Monitoring))[0] == 118);
    assert(lower(dev_label(DevField::Serial))[0] == 115);
    assert forall|f: DevField| #[trigger] classify_dev_key(dev_label(f)) == Some(f) by {
        assert(lower(lower(dev_label(f))) =~= lower(dev_label(f)));
    }
    assert forall|f: DevField| #[trigger] key_text_ok(dev_label(f)) by {
        assert(dev_label(f).len() > 0);
    }
}

/// The typed hardware-port tokens of a status block.
#[derive(Clone, Copy, Debug, PartialEq, Eq)]
pub enum StatusTok {
    NoPort,
    Bnc,
    Optical,
    Thunderbolt,
    Rs422,
}

/// Canonical spelling of each typed hardware-port token.
pub open spec fn status_label(t: StatusTok) -> Seq<u8> {
    match t {
        StatusTok::NoPort => bytes_of("None"@),
        StatusTok::Bnc => bytes_of("BNC"@),
        StatusTok::Optical => bytes_of("Optical"@),
        StatusTok::Thunderbolt => bytes_of("Thunderbolt"@),
        StatusTok::Rs422 => bytes_of("RS422"@),
    }
}

/// Match a hardware-port token, case-insensitively.
pub open spec fn classify_status_tok(s: Seq<u8>) -> Option<StatusTok> {
    let l = lower(s);
    if l == lower(status_label(StatusTok::NoPort)) {
        Some(StatusTok::NoPort)
    } else if l == lower(status_label(StatusTok::Bnc)) {
        Some(StatusTok::Bnc)
    } else if l == lower(status_label(StatusTok::Optical)) {
        Some(StatusTok::Optical)
    } else if l == lower(status_label(StatusTok::Thunderbolt)) {
        Some(StatusTok::Thunderbolt)
    } else if l == lower(status_label(StatusTok::Rs422)) {
        Some(StatusTok::Rs422)
    } else {
        None
    }
}

pub fn status_label_bytes(t: StatusTok) -> (v: Vec<u8>)
    ensures
        v@ == status_label(t),
{
    match t {
        StatusTok::NoPort => {
            proof {
                reveal_strlit("None");
            }
            ascii_bytes("None")
        },
        StatusTok::Bnc => {
            proof {
                reveal_strlit("BNC");
            }
            ascii_bytes("BNC")
        },
        StatusTok::Optical => {
            proof {
                reveal_strlit("Optical");
            }
            ascii_bytes("Optical")
        },
        StatusTok::Thunderbolt => {
            proof {
                reveal_strlit("Thunderbolt");
            }
            ascii_bytes("Thunderbolt")
        },
        StatusTok::Rs422 => {
            proof {
                reveal_strlit("RS422");
            }
            ascii_bytes("RS422")
        },
    }
}

pub fn classify_status_tok_bytes(s: &Vec<u8>) -> (r: Option<StatusTok>)
    ensures
        r == classify_status_tok(s@),
{
    let l = lower_vec(s);
    if bytes_eq(&l, &lower_vec(&status_label_bytes(StatusTok::NoPort))) {
        Some(StatusTok::NoPort)
    } else if bytes_eq(&l, &lower_vec(&status_label_bytes(StatusTok::Bnc))) {
        Some(StatusTok::Bnc)
    } else if bytes_eq(&l, &lower_vec(&status_label_bytes(StatusTok::Optical))) {
        Some(StatusTok::Optical)
    } else if bytes_eq(&l, &lower_vec(&status_label_bytes(StatusTok::Thunderbolt))) {
        Some(StatusTok::Thunderbolt)
    } else if bytes_eq(&l, &lower_vec(&status_label_bytes(StatusTok::Rs422))) {
        Some(StatusTok::Rs422)
    } else {
        None
    }
}

/// Every canonical port token classifies to its own kind and is plain text.
pub proof fn lemma_status_toks()
    ensures
        forall|t: StatusTok| #[trigger] classify_status_tok(status_label(t)) == Some(t),
        forall|t: StatusTok| #[trigger] key_text_ok(status_label(t)),
{
    reveal_strlit("None");
    reveal_strlit("BNC");
    reveal_strlit("Optical");
    reveal_strlit("Thunderbolt");
    reveal_strlit("RS422");
    assert forall|t: StatusTok| #[trigger] classify_status_tok(status_label(t)) == Some(t) by {
        assert(lower(lower(status_label(t))) =~= lower(status_label(t)));
    }
    assert forall|t: StatusTok| #[trigger] key_text_ok(status_label(t)) by {
        assert(status_label(t).len() > 0);
    }
}

/// The presence tokens, lowercase on the wire.
pub open spec fn tok_true() -> Seq<u8> {
    bytes_of("true"@)
}

pub open spec fn tok_false() -> Seq<u8> {
    bytes_of("false"@)
}

pub open spec fn tok_needs_update() -> Seq<u8> {
    bytes_of("needs_update"@)
}

pub fn tok_true_bytes() -> (v: Vec<u8>)
    ensures
        v@ == tok_true(),
{
    proof {
        reveal_strlit("true");
    }
    ascii_bytes("true")
}

pub fn tok_false_bytes() -> (v: Vec<u8>)
    ensures
        v@ == tok_false(),
{
    proof {
        reveal_strlit("false");
    }
    ascii_bytes("false")
}

pub fn tok_needs_update_bytes() -> (v: Vec<u8>)
    ensures
        v@ == tok_needs_update(),
{
    proof {
        reveal_strlit("needs_update");
    }
    ascii_bytes("needs_update")
}

/// The presence tokens are pairwise distinct plain text.
pub proof fn lemma_present_toks()
    ensures
        tok_true() != tok_false(),
        tok_true() != tok_needs_update(),
        tok_false() != tok_needs_update(),
        key_text_ok(tok_true()),
        key_text_ok(tok_false()),
        key_text_ok(tok_needs_update()),
{
    reveal_strlit("true");
    reveal_strlit("false");
    reveal_strlit("needs_update");
    assert(tok_true().len() == 4);
    assert(tok_false().len() == 5);
    assert(tok_needs_update().len() == 12);
}

/// The key of a preamble's version line.
pub open spec fn version_key() -> Seq<u8> {
    bytes_of("Version"@)
}

pub fn version_key_bytes() -> (v: Vec<u8>)
    ensures
        v@ == version_key(),
{
    proof {
        reveal_strlit("Version");
    }
    ascii_bytes("Version")
}

pub proof fn lemma_version_key()
    ensures
        version_key().len() == 7,
        key_text_ok(version_key()),
{
    reveal_strlit("Version");
}

} // verus!
