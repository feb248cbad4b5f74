use thermostazv::bridge::{from_device, FromDevice};
use thermostazv::frame::SerialConnection;
use thermostazv::wire::{Cmd, Relay, SensorErr, SensorOk, SensorResult, TError};

const HEADER: [u8; 4] = [0xFF, 0xFF, 0xFD, 0x00];

fn frame_of(c: Cmd) -> Vec<u8> {
    let mut out = Vec::new();
    SerialConnection::new().encode(c, &mut out).unwrap();
    out
}

#[test]
fn scenario_ping_then_pong_frame() {
    let mut conn = SerialConnection::new();
    let mut src = vec![0xFF, 0xFF, 0xFD, 0x00, 1, 1];
    assert_eq!(conn.decode(&mut src), Ok(Some(Cmd::Ping)));
    assert!(src.is_empty());
    let reply = match from_device(Cmd::Ping) {
        FromDevice::Reply(c) => c,
        other => panic!("unexpected {other:?}"),
    };
    assert_eq!(reply, Cmd::Pong);
    let mut out = Vec::new();
    conn.encode(reply, &mut out).unwrap();
    assert_eq!(out, vec![0xFF, 0xFF, 0xFD, 0x00, 1, 2]);
}

#[test]
fn frames_round_trip() {
    let cmds = [
        Cmd::Get,
        Cmd::SetRelay(Relay::Hot),
        Cmd::Status(Relay::Cold, SensorResult::Error(SensorErr::Bus)),
        Cmd::Status(Relay::Hot, SensorResult::Reading(SensorOk { h: u32::MAX, t: u32::MAX })),
    ];
    for c in cmds {
        let mut src = frame_of(c);
        assert_eq!(src.len(), 5 + c.to_vec().unwrap().len());
        let mut conn = SerialConnection::new();
        assert_eq!(conn.decode(&mut src), Ok(Some(c)));
        assert!(src.is_empty());
    }
}

#[test]
fn decode_returns_one_command_per_call() {
    let mut src = frame_of(Cmd::Ping);
    src.extend(frame_of(Cmd::Pong));
    let mut conn = SerialConnection::new();
    assert_eq!(conn.decode(&mut src), Ok(Some(Cmd::Ping)));
    assert_eq!(src, frame_of(Cmd::Pong));
    assert_eq!(conn.decode(&mut src), Ok(Some(Cmd::Pong)));
    assert_eq!(conn.decode(&mut src), Ok(None));
}

#[test]
fn partial_frames_are_kept_across_calls() {
    let full = frame_of(Cmd::Status(Relay::Hot, SensorResult::Reading(SensorOk { h: 12345, t: 678 })));
    let mut conn = SerialConnection::new();
    for (i, b) in full.iter().enumerate() {
        let mut src = vec![*b];
        let r = conn.decode(&mut src);
        if i + 1 < full.len() {
            assert_eq!(r, Ok(None));
        } else {
            assert_eq!(r, Ok(Some(Cmd::Status(Relay::Hot, SensorResult::Reading(SensorOk { h: 12345, t: 678 })))));
        }
        assert!(src.is_empty());
    }
}

#[test]
fn any_stray_byte_before_a_frame_is_skipped() {
    for b in 0..=255u8 {
        let mut src = vec![b];
        src.extend(frame_of(Cmd::Pong));
        let mut conn = SerialConnection::new();
        assert_eq!(conn.decode(&mut src), Ok(Some(Cmd::Pong)), "stray byte {b:#x}");
        assert!(src.is_empty());
    }
}

#[test]
fn overlapping_header_bytes_resync() {
    let mut src = vec![0xFF, 0xFF, 0xFF, 0xFF, 0xFD, 0x00, 1, 1];
    let mut conn = SerialConnection::new();
    assert_eq!(conn.decode(&mut src), Ok(Some(Cmd::Ping)));
    let mut src = vec![0xFF, 0xFF, 0xFD, 0xFF, 0xFF, 0xFD, 0x00, 1, 0];
    let mut conn = SerialConnection::new();
    assert_eq!(conn.decode(&mut src), Ok(Some(Cmd::Get)));
}

#[test]
fn bad_payload_reports_and_resyncs() {
    let mut src = HEADER.to_vec();
    src.extend([2, 9, 9]);
    src.extend(frame_of(Cmd::Ping));
    let mut conn = SerialConnection::new();
    assert_eq!(conn.decode(&mut src), Err(TError::Decode));
    assert_eq!(src, frame_of(Cmd::Ping));
    assert_eq!(conn.decode(&mut src), Ok(Some(Cmd::Ping)));
}

#[test]
fn zero_and_oversize_lengths_are_faults() {
    let mut src = HEADER.to_vec();
    src.push(0);
    let mut conn = SerialConnection::new();
    assert_eq!(conn.decode(&mut src), Err(TError::Decode));
    let mut src = HEADER.to_vec();
    src.push(33);
    src.extend(frame_of(Cmd::Get));
    assert_eq!(conn.decode(&mut src), Err(TError::Oversize));
    assert_eq!(conn.decode(&mut src), Ok(Some(Cmd::Get)));
}

#[test]
fn largest_payload_length_is_accepted() {
    let mut src = HEADER.to_vec();
    src.push(32);
    src.extend(vec![7u8; 32]);
    let mut conn = SerialConnection::new();
    assert_eq!(conn.decode(&mut src), Err(TError::Decode));
    assert!(src.is_empty());
}

#[test]
fn push_byte_reports_at_frame_end() {
    let mut conn = SerialConnection::new();
    let f = frame_of(Cmd::SetRelay(Relay::Cold));
    for b in &f[..f.len() - 1] {
        assert_eq!(conn.push_byte(*b), None);
    }
    assert_eq!(conn.push_byte(f[f.len() - 1]), Some(Ok(Cmd::SetRelay(Relay::Cold))));
}

#[test]
fn stray_byte_and_frame_split_over_calls() {
    let c = Cmd::Status(Relay::Hot, SensorResult::Reading(SensorOk { h: 300, t: 70_000 }));
    for b in [0x00u8, 0xFF, 0xFD, 0x42] {
        let mut stream = vec![b];
        stream.extend(frame_of(c));
        for k in 0..stream.len() {
            let mut conn = SerialConnection::new();
            let mut first = stream[..k].to_vec();
            assert_eq!(conn.decode(&mut first), Ok(None));
            assert!(first.is_empty());
            let mut second = stream[k..].to_vec();
            assert_eq!(conn.decode(&mut second), Ok(Some(c)));
        }
        let mut conn = SerialConnection::new();
        let mut found = Vec::new();
        for byte in &stream {
            let mut one = vec![*byte];
            if let Ok(Some(cmd)) = conn.decode(&mut one) {
                found.push(cmd);
            }
        }
        assert_eq!(found, vec![c]);
    }
}
