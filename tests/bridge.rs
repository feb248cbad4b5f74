use thermostazv::bridge::{
    any_finished, from_device, render, route, same_text, telemetry, telemetry_now, Climate, Dispatch,
    FromDevice, Telemetry,
};
use thermostazv::reading::parse_temperature;
use thermostazv::thermostat::{TCmd, Thermostazv};
use thermostazv::wire::{Cmd, Relay, SensorErr, SensorOk, SensorResult};

const CMD: &str = "/azv/thermostazv/cmd";
const PRESENCE: &str = "/azv/thermostazv/presence";
const SENSOR: &str = "tele/tasmota_43D8FD/SENSOR";

fn cached() -> Cmd {
    Cmd::Status(Relay::Hot, SensorResult::Reading(SensorOk { h: 400_000, t: 350_000 }))
}

#[test]
fn scenario_status_request_publishes_cached_status() {
    assert_eq!(route(CMD, b"s", cached()), Dispatch::Publish(cached()));
}

#[test]
fn command_letters() {
    assert_eq!(route(CMD, b"c", cached()), Dispatch::ToDevice(Cmd::SetRelay(Relay::Hot)));
    assert_eq!(route(CMD, b"f", cached()), Dispatch::ToDevice(Cmd::SetRelay(Relay::Cold)));
    assert_eq!(route(CMD, b"p", cached()), Dispatch::ToDevice(Cmd::Ping));
    assert_eq!(route(CMD, b"x", cached()), Dispatch::Drop);
    assert_eq!(route(CMD, b"ss", cached()), Dispatch::Drop);
    assert_eq!(route(CMD, b"", cached()), Dispatch::Drop);
}

#[test]
fn presence_marker() {
    assert_eq!(
        route(PRESENCE, "présent".as_bytes(), cached()),
        Dispatch::ToThermostat(TCmd::SetPresent(true))
    );
    assert_eq!(route(PRESENCE, b"absent", cached()), Dispatch::ToThermostat(TCmd::SetPresent(false)));
    assert_eq!(route(PRESENCE, b"present", cached()), Dispatch::ToThermostat(TCmd::SetPresent(false)));
}

#[test]
fn sensor_json_gives_current_temperature() {
    let payload = br#"{"Time":"2024-01-01T00:00:00","SI7021":{"Temperature":16.9,"Humidity":40.1},"TempUnit":"C"}"#;
    assert_eq!(route(SENSOR, payload, cached()), Dispatch::ToThermostat(TCmd::Current(16_900)));
    let payload = br#"{"SI7021":{"Temperature":-3}}"#;
    assert_eq!(route(SENSOR, payload, cached()), Dispatch::ToThermostat(TCmd::Current(-3_000)));
    let payload = br#"{"SI7021":{"Temperature":21.25}}"#;
    assert_eq!(route(SENSOR, payload, cached()), Dispatch::ToThermostat(TCmd::Current(21_250)));
}

#[test]
fn scenario_malformed_sensor_json_is_dropped() {
    assert_eq!(route(SENSOR, b"{not json", cached()), Dispatch::Drop);
    assert_eq!(route(SENSOR, br#"{"SI7021":{}}"#, cached()), Dispatch::Drop);
    assert_eq!(route(SENSOR, br#"{"SI7021":{"Temperature":"hot"}}"#, cached()), Dispatch::Drop);
    assert_eq!(route(SENSOR, br#"{"AM2301":{"Temperature":20.0}}"#, cached()), Dispatch::Drop);
    assert_eq!(route(CMD, b"s", cached()), Dispatch::Publish(cached()));
}

#[test]
fn unknown_topic_is_dropped() {
    assert_eq!(route("/other", b"c", cached()), Dispatch::Drop);
}

#[test]
fn same_text_compares_characters() {
    assert!(same_text("présent", "présent"));
    assert!(!same_text("présent", "present"));
    assert!(!same_text("a", "ab"));
    assert!(same_text("", ""));
}

#[test]
fn temperatures_in_thousandths() {
    assert_eq!(parse_temperature("17"), Some(17_000));
    assert_eq!(parse_temperature("16.9"), Some(16_900));
    assert_eq!(parse_temperature("-17.5"), Some(-17_500));
    assert_eq!(parse_temperature("-3.25"), Some(-3_250));
    assert_eq!(parse_temperature("21.8125"), Some(21_812));
    assert_eq!(parse_temperature("-0.0009"), Some(0));
    assert_eq!(parse_temperature("0"), Some(0));
    assert_eq!(parse_temperature("999999.999"), Some(999_999_999));
    assert_eq!(parse_temperature("123456.5"), Some(123_456_500));
}

#[test]
fn malformed_temperatures() {
    for t in ["", "-", ".5", "5.", "1e5", "1.2.3", "a", "1234567", "--1", "+1", "1 ", "١٢"] {
        assert_eq!(parse_temperature(t), None, "{t}");
    }
}

#[test]
fn device_commands() {
    assert_eq!(from_device(Cmd::Ping), FromDevice::Reply(Cmd::Pong));
    assert_eq!(from_device(cached()), FromDevice::Store(cached()));
    assert_eq!(from_device(Cmd::Pong), FromDevice::Announce(Cmd::Pong));
    assert_eq!(from_device(Cmd::Get), FromDevice::Reject);
    assert_eq!(from_device(Cmd::SetRelay(Relay::Hot)), FromDevice::Reject);
}

#[test]
fn rendered_messages() {
    assert_eq!(render(Cmd::Pong, true).as_deref(), Some("pong"));
    assert_eq!(render(Cmd::SetRelay(Relay::Hot), true).as_deref(), Some("allumage du chauffe-eau"));
    assert_eq!(render(Cmd::SetRelay(Relay::Cold), true).as_deref(), Some("extinction du chauffe-eau"));
    assert_eq!(render(Cmd::Get, true), None);
    assert_eq!(render(Cmd::Ping, false), None);
    let s = Cmd::Status(Relay::Hot, SensorResult::Reading(SensorOk { h: 1 << 19, t: 1 << 19 }));
    assert_eq!(render(s, true).as_deref(), Some("présent: true, relay: Hot, garage: 50.000°C, 50.000%"));
    let s = Cmd::Status(Relay::Cold, SensorResult::Reading(SensorOk { h: 0, t: 0 }));
    assert_eq!(render(s, false).as_deref(), Some("présent: false, relay: Cold, garage: -50.000°C, 0.000%"));
    let s = Cmd::Status(Relay::Cold, SensorResult::Reading(SensorOk { h: 400_000, t: 350_000 }));
    assert_eq!(render(s, true).as_deref(), Some("présent: true, relay: Cold, garage: 16.757°C, 38.146%"));
    let s = Cmd::Status(Relay::Cold, SensorResult::Error(SensorErr::Bus));
    assert_eq!(render(s, false).as_deref(), Some("présent: false, relay: Cold, garage: error Bus"));
}

#[test]
fn telemetry_samples() {
    let t = Thermostazv::new();
    let sample = telemetry(&t, cached(), 12);
    assert_eq!(
        sample,
        Telemetry {
            relay: false,
            absent: false,
            targetf: 17_000,
            reading: Some(Climate { celsius: 16_757, humidity: 38_146 }),
        }
    );
    let away = Thermostazv { present: false, hot: true, ..Thermostazv::new() };
    let sample = telemetry(&away, Cmd::Status(Relay::Hot, SensorResult::Error(SensorErr::CheckSum)), 2);
    assert_eq!(sample, Telemetry { relay: true, absent: true, targetf: 10_500, reading: None });
    let now = telemetry_now(&away, cached());
    assert_eq!(now.targetf, 10_500);
}

#[test]
fn supervisor_sees_finished_tasks() {
    assert!(!any_finished(&[]));
    assert!(!any_finished(&[false, false]));
    assert!(any_finished(&[false, true, false]));
}
