//! The wire codec seen from outside: parsing, serialization and framing.
use omnimatrix::codec::VideohubCodec;
use omnimatrix::model::{
    DeviceInfo, HardwarePortType, Label, Lock, LockState, Preamble, Present, Route,
    VideohubMessage,
};
use omnimatrix::parser::ParseError;
use omnimatrix::text::parse_u32;

fn bmd_example() -> Vec<u8> {
    let mut v = Vec::new();
    v.extend_from_slice(b"PROTOCOL PREAMBLE:\n");
    v.extend_from_slice(b"Version: 2.4\n");
    v.extend_from_slice(b"\n");
    v.extend_from_slice(b"VIDEOHUB DEVICE:\n");
    v.extend_from_slice(b"Device present: true\n");
    v.extend_from_slice(b"Model name: Blackmagic Smart Videohub\n");
    v.extend_from_slice(b"Video inputs: 16\n");
    v.extend_from_slice(b"Video processing units: 0\n");
    v.extend_from_slice(b"Video outputs: 16\n");
    v.extend_from_slice(b"Video monitoring outputs: 0\n");
    v.extend_from_slice(b"Serial ports: 0\n");
    v.extend_from_slice(b"\n");
    v.extend_from_slice(b"INPUT LABELS:\n");
    v.extend_from_slice(b"0 Camera 1\n");
    v.extend_from_slice(b"1 Camera 2\n");
    v.extend_from_slice(b"\n");
    v.extend_from_slice(b"OUTPUT LABELS:\n");
    v.extend_from_slice(b"0 Main Monitor 1\n");
    v.extend_from_slice(b"1 Main Monitor 2\n");
    v.extend_from_slice(b"\n");
    v
}

fn bmd_cleanswitch() -> Vec<u8> {
    let mut v = Vec::new();
    v.extend_from_slice(b"PROTOCOL PREAMBLE:\n");
    v.extend_from_slice(b"Version: 2.8\n");
    v.extend_from_slice(b"\n");
    v.extend_from_slice(b"VIDEOHUB DEVICE:\n");
    v.extend_from_slice(b"Device present: true\n");
    v.extend_from_slice(b"Model name: Blackmagic Cleanswitch 12x12\n");
    v.extend_from_slice(b"Video inputs: 12\n");
    v.extend_from_slice(b"Video outputs: 12\n");
    v.extend_from_slice(b"\n");
    v.extend_from_slice(b"INPUT LABELS:\n");
    for i in 0..12u32 {
        v.extend_from_slice(format!("{} HyperDeck {}\n", i, i + 1).as_bytes());
    }
    v.extend_from_slice(b"\n");
    v.extend_from_slice(b"OUTPUT LABELS:\n");
    for i in 0..12u32 {
        v.extend_from_slice(format!("{} Teranex AV {}\n", i, i + 1).as_bytes());
    }
    v.extend_from_slice(b"\n");
    v.extend_from_slice(b"VIDEO OUTPUT LOCKS:\n");
    for i in 0..12u32 {
        v.extend_from_slice(format!("{} U\n", i).as_bytes());
    }
    v.extend_from_slice(b"\n");
    v.extend_from_slice(b"VIDEO OUTPUT ROUTING:\n");
    for i in 0..12u32 {
        v.extend_from_slice(format!("{} {}\n", i, (i + 6) % 12).as_bytes());
    }
    v.extend_from_slice(b"\n");
    v.extend_from_slice(b"CONFIGURATION:\n");
    v.extend_from_slice(b"Take Mode: false\n");
    v.extend_from_slice(b"\n");
    v.extend_from_slice(b"END PRELUDE:\n");
    v.extend_from_slice(b"\n");
    v
}

#[test]
fn parse_only_preamble() {
    let buf = b"PROTOCOL PREAMBLE:\r\nVersion: 2.4\r\n\r\n".to_vec();
    let (msg, consumed) =
        VideohubMessage::parse_single_block(&buf).expect("should parse preamble");
    assert_eq!(consumed, buf.len(), "remaining = {:?}", &buf[consumed..]);
    match msg {
        VideohubMessage::Preamble(p) => assert_eq!(p.version, b"2.4".to_vec()),
        _ => panic!("expected Preamble, got {:?}", msg),
    }
}

#[test]
fn parse_single_line() {
    let buf = b"PING:\n\n".to_vec();
    let (msg, consumed) = VideohubMessage::parse_single_block(&buf).expect("should parse");
    assert_eq!(consumed, buf.len(), "remaining = {:?}", &buf[consumed..]);
    assert_eq!(msg, VideohubMessage::Ping);
}

#[test]
fn parse_only_deviceinfo() {
    let buf =
        b"VIDEOHUB DEVICE:\r\nDevice present: true\r\nModel name: foobar\r\nVideo inputs: 3\r\n\r\n"
            .to_vec();
    let (msg, consumed) = VideohubMessage::parse_single_block(&buf).expect("should parse device");
    assert_eq!(consumed, buf.len(), "remaining = {:?}", &buf[consumed..]);
    let lower: Vec<u8> = buf.to_ascii_lowercase();
    let (msg2, consumed2) =
        VideohubMessage::parse_single_block(&lower).expect("should parse lower-case device");
    assert_eq!(consumed2, lower.len());
    match (&msg, &msg2) {
        (VideohubMessage::DeviceInfo(a), VideohubMessage::DeviceInfo(b)) => {
            assert_eq!(a.present, b.present, "parsing should not depend on case");
            assert_eq!(a.video_inputs, b.video_inputs, "parsing should not depend on case");
        }
        _ => panic!("expected DeviceInfo twice"),
    }
    match msg {
        VideohubMessage::DeviceInfo(d) => {
            assert!(matches!(d.present, Some(Present::Yes)));
            assert_eq!(d.model_name, Some(b"foobar".to_vec()));
            assert_eq!(d.video_inputs, Some(3));
        }
        _ => panic!("expected DeviceInfo, got {:?}", msg),
    }
}

#[test]
fn parse_only_input_labels() {
    let buf = b"INPUT LABELS:\r\n0 a\r\n1  b \r\n\r\n".to_vec();
    let (msg, consumed) =
        VideohubMessage::parse_single_block(&buf).expect("should parse input labels");
    assert_eq!(consumed, buf.len(), "remaining = {:?}", &buf[consumed..]);
    let lower: Vec<u8> = buf.to_ascii_lowercase();
    let (msg2, consumed2) =
        VideohubMessage::parse_single_block(&lower).expect("should parse lower-case input labels");
    assert_eq!(consumed2, lower.len());
    assert_eq!(msg, msg2, "parsing should not depend on case");
    match msg {
        VideohubMessage::InputLabels(v) => {
            assert_eq!(v.len(), 2);
            assert_eq!(v[0].id, 0);
            assert_eq!(v[0].name, b"a".to_vec());
            assert_eq!(v[1].id, 1);
            assert_eq!(v[1].name, b"b".to_vec());
        }
        _ => panic!("expected InputLabels, got {:?}", msg),
    }
}

#[test]
fn parse_only_output_labels() {
    let buf = b"OUTPUT LABELS:\n5 X\n\n".to_vec();
    let (msg, consumed) =
        VideohubMessage::parse_single_block(&buf).expect("should parse output labels");
    assert_eq!(consumed, buf.len(), "remaining = {:?}", &buf[consumed..]);
    match msg {
        VideohubMessage::OutputLabels(v) => {
            assert_eq!(v.len(), 1);
            assert_eq!(v[0].id, 5);
            assert_eq!(v[0].name, b"X".to_vec());
        }
        _ => panic!("expected OutputLabels, got {:?}", msg),
    }
}

#[test]
fn parse_partial() {
    let mut buf: Vec<u8> = b"INPUT ".to_vec();
    let r = VideohubMessage::parse_single_block(&buf);
    assert!(r.is_err());

    buf.extend_from_slice(b"LABELS:\n0 A");
    let r = VideohubMessage::parse_single_block(&buf);
    assert!(r.is_err());

    buf.extend_from_slice(b"\n\nOUTPUT LABELS:\n");
    let (partial, consumed) = VideohubMessage::parse_single_block(&buf).unwrap();
    assert_eq!(
        partial,
        VideohubMessage::InputLabels(vec![Label { id: 0, name: b"A".to_vec() }])
    );
    assert_eq!(&buf[consumed..], b"OUTPUT LABELS:\n");
}

#[test]
fn parse_multiple_sections() {
    let buf = b"PROTOCOL PREAMBLE:\nVersion:2.4\n\nINPUT LABELS:\n0 A\n\n".to_vec();
    let v = VideohubMessage::parse_all_blocks(&buf).expect("should parse two sections");
    assert_eq!(v.len(), 2);
    assert!(matches!(v[0], VideohubMessage::Preamble(_)));
    assert!(matches!(v[1], VideohubMessage::InputLabels(_)));
    match &v[0] {
        VideohubMessage::Preamble(p) => assert_eq!(p.version, b"2.4".to_vec()),
        _ => panic!("expected Preamble"),
    }
    match &v[1] {
        VideohubMessage::InputLabels(ls) => {
            assert_eq!(ls.len(), 1);
            assert_eq!(ls[0].id, 0);
            assert_eq!(ls[0].name, b"A".to_vec());
        }
        _ => panic!("expected InputLabels"),
    }
}

#[test]
fn parse_bmd_example() {
    let buf = bmd_example();
    let msgs = VideohubMessage::parse_all_blocks(&buf).unwrap();
    assert_eq!(msgs.len(), 4);
    match &msgs[0] {
        VideohubMessage::Preamble(p) => assert_eq!(p.version, b"2.4".to_vec()),
        _ => panic!("expected Preamble"),
    }
    match &msgs[1] {
        VideohubMessage::DeviceInfo(d) => assert!(matches!(d.present, Some(Present::Yes))),
        _ => panic!("expected DeviceInfo"),
    }
    match &msgs[2] {
        VideohubMessage::InputLabels(v) => {
            assert_eq!(v[0].id, 0);
            assert_eq!(v[0].name, b"Camera 1".to_vec());
        }
        _ => panic!("expected InputLabels"),
    }
    match &msgs[3] {
        VideohubMessage::OutputLabels(v) => {
            assert_eq!(v[0].id, 0);
            assert_eq!(v[0].name, b"Main Monitor 1".to_vec());
        }
        _ => panic!("expected OutputLabels"),
    }
}

#[test]
fn parse_bmd_example_but_lowercase() {
    let lower: Vec<u8> = bmd_example().to_ascii_lowercase();
    let msgs = VideohubMessage::parse_all_blocks(&lower).unwrap();
    assert_eq!(msgs.len(), 4);
    match &msgs[0] {
        VideohubMessage::Preamble(p) => assert_eq!(p.version, b"2.4".to_vec()),
        _ => panic!("expected Preamble"),
    }
    match &msgs[1] {
        VideohubMessage::DeviceInfo(d) => assert!(matches!(d.present, Some(Present::Yes))),
        _ => panic!("expected DeviceInfo"),
    }
    match &msgs[2] {
        VideohubMessage::InputLabels(v) => {
            assert_eq!(v[0].id, 0);
            assert_eq!(v[0].name, b"camera 1".to_vec());
        }
        _ => panic!("expected InputLabels"),
    }
    match &msgs[3] {
        VideohubMessage::OutputLabels(v) => {
            assert_eq!(v[0].id, 0);
            assert_eq!(v[0].name, b"main monitor 1".to_vec());
        }
        _ => panic!("expected OutputLabels"),
    }
}

#[test]
fn parse_bmd_cleanswitch() {
    let buf = bmd_cleanswitch();
    let msgs = VideohubMessage::parse_all_blocks(&buf).unwrap();
    assert_eq!(msgs.len(), 8);
    match &msgs[0] {
        VideohubMessage::Preamble(p) => assert_eq!(p.version, b"2.8".to_vec()),
        _ => panic!("expected Preamble"),
    }
    match &msgs[1] {
        VideohubMessage::DeviceInfo(d) => assert!(matches!(d.present, Some(Present::Yes))),
        _ => panic!("expected DeviceInfo"),
    }
    match &msgs[2] {
        VideohubMessage::InputLabels(v) => {
            assert_eq!(v[0].id, 0);
            assert_eq!(v[0].name, b"HyperDeck 1".to_vec());
            assert_eq!(v.len(), 12);
        }
        _ => panic!("expected InputLabels"),
    }
    match &msgs[3] {
        VideohubMessage::OutputLabels(v) => {
            assert_eq!(v[0].id, 0);
            assert_eq!(v[0].name, b"Teranex AV 1".to_vec());
            assert_eq!(v.len(), 12);
        }
        _ => panic!("expected OutputLabels"),
    }
    match &msgs[4] {
        VideohubMessage::VideoOutputLocks(v) => {
            assert_eq!(v[0].id, 0);
            assert_eq!(v[0].state, LockState::Unlocked);
            assert_eq!(v.len(), 12);
        }
        _ => panic!("expected VideoOutputLocks"),
    }
    match &msgs[5] {
        VideohubMessage::VideoOutputRouting(v) => {
            assert_eq!(v[0].to_output, 0);
            assert_eq!(v[0].from_input, 6);
            assert_eq!(v.len(), 12);
        }
        _ => panic!("expected VideoOutputRouting"),
    }
    match &msgs[6] {
        VideohubMessage::Configuration(v) => {
            assert_eq!(v[0].setting, b"Take Mode".to_vec());
            assert_eq!(v[0].value, b"false".to_vec());
        }
        _ => panic!("expected Configuration"),
    }
    assert_eq!(msgs[7], VideohubMessage::EndPrelude);
}

#[test]
fn test_parse_u32() {
    let buf = b"123\n".to_vec();
    let (num, end) = parse_u32(&buf, 0).unwrap();
    assert_eq!(num, 123);
    assert_eq!(&buf[end..], b"\n");

    let buf = b"16".to_vec();
    let (num, end) = parse_u32(&buf, 0).unwrap();
    assert_eq!(num, 16);
    assert_eq!(end, buf.len());
}

#[test]
fn single_preamble() {
    let m = VideohubMessage::Preamble(Preamble { version: b"2.4".to_vec() });
    let b = m.to_serialized();
    let (m2, consumed) = VideohubMessage::parse_single_block(&b).unwrap();
    assert_eq!(consumed, b.len());
    assert_eq!(m, m2);
}

#[test]
fn single_input_labels() {
    let m = VideohubMessage::InputLabels(vec![
        Label { id: 0, name: b"A".to_vec() },
        Label { id: 1, name: b"B".to_vec() },
    ]);
    let b = m.to_serialized();
    let (m2, _) = VideohubMessage::parse_single_block(&b).unwrap();
    assert_eq!(m, m2);
}

#[test]
fn roundtrip_blocks() {
    let buf = bmd_example();
    let msgs = VideohubMessage::parse_all_blocks(&buf).unwrap();
    let mut out: Vec<u8> = Vec::new();
    for m in &msgs {
        m.write_serialized(&mut out);
    }
    let msgs2 = VideohubMessage::parse_all_blocks(&out).expect("leftover after round-trip");
    assert_eq!(msgs, msgs2);
}

#[test]
fn decode_simple_message() {
    let codec = VideohubCodec;
    let buf = b"VIDEOHUB DEVICE:\r\nDevice present: true\r\n\r\n".to_vec();
    let (msg, consumed) = codec
        .decode(&buf)
        .expect("should decode")
        .expect("should have message");
    match msg {
        VideohubMessage::DeviceInfo(DeviceInfo { present: Some(Present::Yes), .. }) => {}
        other => panic!("unexpected message parsed: {:?}", other),
    }
    assert_eq!(consumed, buf.len(), "buffer should be fully consumed");
}

#[test]
fn partial_decode() {
    let codec = VideohubCodec;
    let buf = b"VIDEOHUB DEVICE:\r\nDevice present: ".to_vec();
    let res = codec.decode(&buf).expect("should not error");
    assert!(res.is_none(), "partial input should return None");
}

#[test]
fn encode_simple_message() {
    let codec = VideohubCodec;
    let msg = VideohubMessage::DeviceInfo(DeviceInfo {
        present: Some(Present::No),
        ..Default::default()
    });
    let mut buf: Vec<u8> = Vec::new();
    codec.encode(&msg, &mut buf);
    let output = String::from_utf8(buf).expect("valid utf8");
    assert!(output.contains("Device present: false"));
    assert!(output.ends_with("\r\n\r\n") || output.ends_with("\n\n"));
}

#[test]
fn malformed_present_value() {
    let buf = b"VIDEOHUB DEVICE:\nDevice present: maybe\n\n".to_vec();
    assert_eq!(
        VideohubMessage::parse_single_block(&buf),
        Err(ParseError::Malformed)
    );
}

#[test]
fn malformed_count_overflow() {
    let buf = b"INPUT LABELS:\n99999999999 A\n\n".to_vec();
    assert_eq!(
        VideohubMessage::parse_single_block(&buf),
        Err(ParseError::Malformed)
    );
}

#[test]
fn incremental_feeding() {
    let block = b"VIDEO OUTPUT ROUTING:\n0 1\n2 3\n\n".to_vec();
    for k in 0..block.len() {
        let prefix = block[..k].to_vec();
        assert_eq!(
            VideohubMessage::parse_single_block(&prefix),
            Err(ParseError::Incomplete),
            "prefix of length {} should be incomplete",
            k
        );
    }
    let (msg, consumed) = VideohubMessage::parse_single_block(&block).unwrap();
    assert_eq!(consumed, block.len());
    assert_eq!(
        msg,
        VideohubMessage::VideoOutputRouting(vec![
            Route { from_input: 1, to_output: 0 },
            Route { from_input: 3, to_output: 2 },
        ])
    );
}

#[test]
fn unknown_block_preserved() {
    let m = VideohubMessage::UnknownMessage(b"FROBNICATE:".to_vec(), b"1 fast\n2 slow\n".to_vec());
    let b = m.to_serialized();
    let (m2, consumed) = VideohubMessage::parse_single_block(&b).unwrap();
    assert_eq!(consumed, b.len());
    assert_eq!(m, m2);
}

#[test]
fn lock_and_status_tokens() {
    let buf = b"VIDEO OUTPUT LOCKS:\n0 O\n1 l\n2 U\n\n".to_vec();
    let (msg, _) = VideohubMessage::parse_single_block(&buf).unwrap();
    assert_eq!(
        msg,
        VideohubMessage::VideoOutputLocks(vec![
            Lock { id: 0, state: LockState::Owned },
            Lock { id: 1, state: LockState::Locked },
            Lock { id: 2, state: LockState::Unlocked },
        ])
    );
    let buf = b"VIDEO INPUT STATUS:\n0 BNC\n1 optical\n2 Weird\n\n".to_vec();
    let (msg, _) = VideohubMessage::parse_single_block(&buf).unwrap();
    match msg {
        VideohubMessage::VideoInputStatus(v) => {
            assert_eq!(v[0].port_type, HardwarePortType::BNC);
            assert_eq!(v[1].port_type, HardwarePortType::Optical);
            assert_eq!(v[2].port_type, HardwarePortType::Other(b"Weird".to_vec()));
        }
        _ => panic!("expected VideoInputStatus"),
    }
    let m = VideohubMessage::VideoInputStatus(vec![
        omnimatrix::model::HardwarePort { id: 0, port_type: HardwarePortType::RS422 },
        omnimatrix::model::HardwarePort { id: 1, port_type: HardwarePortType::Other(b"Weird".to_vec()) },
    ]);
    let b = m.to_serialized();
    let (m2, _) = VideohubMessage::parse_single_block(&b).unwrap();
    assert_eq!(m, m2);
}
