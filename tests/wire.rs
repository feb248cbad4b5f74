use thermostazv::wire::{Cmd, Relay, SensorErr, SensorOk, SensorResult, TError};

#[test]
fn cmd_to_vec_to_cmd() {
    let cmd_in = Cmd::Status(
        Relay::Hot,
        SensorResult::Reading(SensorOk {
            h: u32::MAX,
            t: u32::MAX,
        }),
    );

    let data = cmd_in.to_vec();
    assert!(data.is_ok(), "data is not ok: {data:?}");
    let data = data.unwrap();
    println!("data len: {}", data.len());
    println!("max len: {}", thermostazv::wire::CMD_MAX_SIZE);
    let cmd_out = Cmd::from_vec(&data);
    assert!(cmd_out.is_ok(), "cmd_out is not ok: {cmd_out:?}");
    let cmd_out = cmd_out.unwrap();
    assert_eq!(cmd_out, cmd_in);
}

fn all_sample_cmds() -> Vec<Cmd> {
    let mut v = vec![
        Cmd::Get,
        Cmd::Ping,
        Cmd::Pong,
        Cmd::SetRelay(Relay::Hot),
        Cmd::SetRelay(Relay::Cold),
    ];
    for r in [Relay::Hot, Relay::Cold] {
        for e in [SensorErr::Uncalibrated, SensorErr::Bus, SensorErr::CheckSum, SensorErr::Uninitialized] {
            v.push(Cmd::Status(r, SensorResult::Error(e)));
        }
        for (h, t) in [(0, 0), (127, 128), (16383, 16384), (1 << 20, 524_288), (u32::MAX, 0)] {
            v.push(Cmd::Status(r, SensorResult::Reading(SensorOk { h, t })));
        }
    }
    v
}

#[test]
fn every_sample_command_round_trips() {
    for c in all_sample_cmds() {
        let bytes = c.to_vec().unwrap();
        assert!(bytes.len() <= thermostazv::wire::CMD_MAX_SIZE);
        assert_eq!(Cmd::from_vec(&bytes), Ok(c));
    }
}

#[test]
fn encodings_are_exact() {
    assert_eq!(Cmd::Get.to_vec().unwrap(), vec![0]);
    assert_eq!(Cmd::Ping.to_vec().unwrap(), vec![1]);
    assert_eq!(Cmd::Pong.to_vec().unwrap(), vec![2]);
    assert_eq!(Cmd::SetRelay(Relay::Cold).to_vec().unwrap(), vec![3, 1]);
    assert_eq!(
        Cmd::Status(Relay::Hot, SensorResult::Error(SensorErr::Uninitialized)).to_vec().unwrap(),
        vec![4, 0, 0, 3]
    );
    assert_eq!(
        Cmd::Status(Relay::Cold, SensorResult::Reading(SensorOk { h: 300, t: 5 })).to_vec().unwrap(),
        vec![4, 1, 1, 0xAC, 0x02, 0x05]
    );
}

#[test]
fn varints_match_postcard() {
    for x in [0u32, 1, 127, 128, 300, 16_383, 16_384, 1 << 20, u32::MAX] {
        let c = Cmd::Status(Relay::Hot, SensorResult::Reading(SensorOk { h: x, t: 0 }));
        let bytes = c.to_vec().unwrap();
        let expected = postcard::to_allocvec(&x).unwrap();
        assert_eq!(&bytes[3..3 + expected.len()], expected.as_slice());
        assert_eq!(bytes.len(), 3 + expected.len() + 1);
    }
}

#[test]
fn from_vec_rejects_non_encodings() {
    for bad in [
        vec![],
        vec![5],
        vec![0, 0],
        vec![3, 2],
        vec![4, 0, 2],
        vec![4, 0, 0, 4],
        vec![4, 0, 1, 0x80],
        vec![4, 0, 1, 0x80, 0x00, 0x00],
        vec![4, 0, 1, 0xFF, 0xFF, 0xFF, 0xFF, 0x7F, 0x00],
        vec![1, 1],
    ] {
        assert_eq!(Cmd::from_vec(&bad), Err(TError::Decode), "{bad:?}");
    }
}

#[test]
fn relay_from_bool() {
    assert_eq!(Relay::from(true), Relay::Hot);
    assert_eq!(Relay::from(false), Relay::Cold);
    assert_eq!(Relay::from_bool(true), Relay::Hot);
}

#[test]
fn sensor_conversions_in_thousandths() {
    let s = SensorOk { h: 1 << 19, t: 1 << 19 };
    assert_eq!(s.rh(), 50_000);
    assert_eq!(s.celsius(), 50_000);
    let z = SensorOk { h: 0, t: 0 };
    assert_eq!(z.rh(), 0);
    assert_eq!(z.celsius(), -50_000);
    let one = SensorOk { h: 1, t: 1 };
    assert_eq!(one.rh(), 0);
    assert_eq!(one.celsius(), -50_000);
}
