//! Routing between the device, the message broker and the thermostat
//! manager.
use vstd::prelude::*;
use vstd::string::*;
use crate::reading::{parse_temperature, temperature_of};
use crate::aht20::{milli_celsius, milli_rh};
use crate::thermostat::{local_hour, threshold, TCmd, Thermostazv};
use crate::wire::{same_bytes, Cmd, Relay, SensorErr, SensorResult};

verus! {

/// Where a message goes.
#[derive(Debug, Clone, Copy, PartialEq, Eq, Structural)]
pub enum Dispatch {
    /// To the serial writer, for the device.
    ToDevice(Cmd),
    /// To the publish queue, for the broker.
    Publish(Cmd),
    /// To the thermostat manager.
    ToThermostat(TCmd),
    /// Nowhere: the message is dropped.
    Drop,
}

/// Single-letter commands: `c` heat, `f` stop heating, `s` status, `p` ping.
pub const CMD_TOPIC: &'static str = "/azv/thermostazv/cmd";

/// Presence marker.
pub const PRESENCE_TOPIC: &'static str = "/azv/thermostazv/presence";

/// JSON telemetry of the third-party temperature sensor.
pub const SENSOR_TOPIC: &'static str = "tele/tasmota_43D8FD/SENSOR";

/// Where the bridge publishes its messages.
pub const LOG_TOPIC: &'static str = "/azv/thermostazv/log";

pub open spec fn cmd_topic() -> Seq<char> {
    CMD_TOPIC@
}

pub open spec fn presence_topic() -> Seq<char> {
    PRESENCE_TOPIC@
}

pub open spec fn sensor_topic() -> Seq<char> {
    SENSOR_TOPIC@
}

/// "présent" in UTF-8.
pub open spec fn present_marker() -> Seq<u8> {
    seq![0x70u8, 0x72u8, 0xC3u8, 0xA9u8, 0x73u8, 0x65u8, 0x6Eu8, 0x74u8]
}

/// Where a broker message goes, given the cached device status and the
/// temperature read from the payload (sensor topic only).
pub open spec fn route_of(topic: Seq<char>, payload: Seq<u8>, status: Cmd, reading: Option<int>) -> Dispatch {
    if topic == cmd_topic() {
        if payload == seq![0x63u8] {
            Dispatch::ToDevice(Cmd::SetRelay(Relay::Hot))
        } else if payload == seq![0x66u8] {
            Dispatch::ToDevice(Cmd::SetRelay(Relay::Cold))
        } else if payload == seq![0x73u8] {
            Dispatch::Publish(status)
        } else if payload == seq![0x70u8] {
            Dispatch::ToDevice(Cmd::Ping)
        } else {
            Dispatch::Drop
        }
    } else if topic == presence_topic() {
        Dispatch::ToThermostat(TCmd::SetPresent(payload == present_marker()))
    } else if topic == sensor_topic() {
        match reading {
            Some(t) => Dispatch::ToThermostat(TCmd::Current(t as i32)),
            None => Dispatch::Drop,
        }
    } else {
        Dispatch::Drop
    }
}

/// The text of the number that the JSON pointer `pointer` designates in the
/// JSON document `payload`, or `None` when the payload is not JSON or holds
/// no number there.
pub uninterp spec fn json_number_at(payload: Seq<u8>, pointer: Seq<char>) -> Option<Seq<char>>;

/// Relies on serde_json: `from_slice` parses the payload into a `Value`,
/// `Value::pointer` looks the pointer up, `Value::as_number` keeps the value
/// only if it is a number, and `Number`'s `Display` writes it out. All of
/// these depend on the payload and the pointer alone.
#[verifier::external_body]
fn json_number_text(payload: &[u8], pointer: &str) -> (r: Option<String>)
    ensures
        match r {
            Some(t) => json_number_at(payload@, pointer@) == Some(t@),
            None => json_number_at(payload@, pointer@) is None,
        },
{
    serde_json::from_slice::<serde_json::Value>(payload).ok().and_then(
        |v| v.pointer(pointer).and_then(|t| t.as_number()).map(|n| n.to_string()),
    )
}

/// Where the sensor payload holds the temperature.
pub open spec fn temperature_pointer() -> Seq<char> {
    "/SI7021/Temperature"@
}

/// The temperature, in thousandths of a degree, that a sensor payload gives.
pub open spec fn payload_reading(payload: Seq<u8>) -> Option<int> {
    match json_number_at(payload, temperature_pointer()) {
        Some(t) => temperature_of(t),
        None => None,
    }
}

/// Whether two strings are equal.
pub fn same_text(a: &str, b: &str) -> (r: bool)
    ensures
        r == (a@ == b@),
{
    let n = a.unicode_len();
    if n != b.unicode_len() {
        return false;
    }
    let mut i: usize = 0;
    while i < n
        invariant
            n == a@.len(),
            n == b@.len(),
            i <= n,
            a@.subrange(0, i as int) == b@.subrange(0, i as int),
        decreases n - i,
    {
        if a.get_char(i) != b.get_char(i) {
            return false;
        }
        assert(a@.subrange(0, i + 1) =~= a@.subrange(0, i as int).push(a@[i as int]));
        assert(b@.subrange(0, i + 1) =~= b@.subrange(0, i as int).push(b@[i as int]));
        i = i + 1;
    }
    assert(a@ =~= a@.subrange(0, n as int));
    assert(b@ =~= b@.subrange(0, n as int));
    true
}

fn payload_is_byte(payload: &[u8], b: u8) -> (r: bool)
    ensures
        r == (payload@ == seq![b]),
{
    let r = payload.len() == 1 && payload[0] == b;
    proof {
        if payload@.len() == 1 && payload@[0] == b {
            assert(payload@ =~= seq![b]);
        }
    }
    r
}

/// Routes a broker message: single-letter commands on the command topic,
/// presence on the presence topic, temperature readings on the sensor topic.
/// A sensor payload that is not JSON, or holds no readable temperature, is
/// dropped.
pub fn route(topic: &str, payload: &[u8], status: Cmd) -> (r: Dispatch)
    ensures
        r == route_of(topic@, payload@, status, payload_reading(payload@)),
{
    if same_text(topic, CMD_TOPIC) {
        if payload_is_byte(payload, 0x63) {
            Dispatch::ToDevice(Cmd::SetRelay(Relay::Hot))
        } else if payload_is_byte(payload, 0x66) {
            Dispatch::ToDevice(Cmd::SetRelay(Relay::Cold))
        } else if payload_is_byte(payload, 0x73) {
            Dispatch::Publish(status)
        } else if payload_is_byte(payload, 0x70) {
            Dispatch::ToDevice(Cmd::Ping)
        } else {
            Dispatch::Drop
        }
    } else if same_text(topic, PRESENCE_TOPIC) {
        let marker: [u8; 8] = [0x70u8, 0x72u8, 0xC3u8, 0xA9u8, 0x73u8, 0x65u8, 0x6Eu8, 0x74u8];
        assert(marker@ =~= present_marker());
        Dispatch::ToThermostat(TCmd::SetPresent(same_bytes(payload, &marker)))
    } else if same_text(topic, SENSOR_TOPIC) {
        match json_number_text(payload, "/SI7021/Temperature") {
            Some(text) => match parse_temperature(text.as_str()) {
                Some(t) => Dispatch::ToThermostat(TCmd::Current(t)),
                None => Dispatch::Drop,
            },
            None => Dispatch::Drop,
        }
    } else {
        Dispatch::Drop
    }
}

/// What the serial reader does with a command from the device.
#[derive(Debug, Clone, Copy, PartialEq, Eq, Structural)]
pub enum FromDevice {
    /// Send this reply back to the device.
    Reply(Cmd),
    /// Store this status in the status cache.
    Store(Cmd),
    /// Announce this on the broker.
    Announce(Cmd),
    /// A host-to-device command coming back: a protocol fault, discarded.
    Reject,
}

pub open spec fn from_device_of(cmd: Cmd) -> FromDevice {
    match cmd {
        Cmd::Ping => FromDevice::Reply(Cmd::Pong),
        Cmd::Status(_, _) => FromDevice::Store(cmd),
        Cmd::Pong => FromDevice::Announce(cmd),
        Cmd::Get | Cmd::SetRelay(_) => FromDevice::Reject,
    }
}

/// Dispatches a command decoded from the device.
pub fn from_device(cmd: Cmd) -> (r: FromDevice)
    ensures
        r == from_device_of(cmd),
{
    match cmd {
        Cmd::Ping => FromDevice::Reply(Cmd::Pong),
        Cmd::Status(_, _) => FromDevice::Store(cmd),
        Cmd::Pong => FromDevice::Announce(cmd),
        Cmd::Get | Cmd::SetRelay(_) => FromDevice::Reject,
    }
}

pub open spec fn digit_char(d: nat) -> char {
    ((d % 10) + 48) as char
}

/// Decimal digits of `n`.
pub open spec fn decimal(n: nat) -> Seq<char>
    decreases n,
{
    if n < 10 {
        seq![digit_char(n)]
    } else {
        decimal(n / 10).push(digit_char(n % 10))
    }
}

/// `v` thousandths written with three decimals: `-1.250`, `17.500`.
pub open spec fn milli_text(v: int) -> Seq<char> {
    let a = if v < 0 { -v } else { v };
    let f = (a % 1000) as nat;
    (if v < 0 { seq!['-'] } else { Seq::empty() }) + decimal((a / 1000) as nat) + seq![
        '.',
        digit_char(f / 100),
        digit_char((f / 10) % 10),
        digit_char(f % 10),
    ]
}

pub open spec fn bool_text(b: bool) -> Seq<char> {
    if b { "true"@ } else { "false"@ }
}

pub open spec fn relay_text(r: Relay) -> Seq<char> {
    match r {
        Relay::Hot => "Hot"@,
        Relay::Cold => "Cold"@,
    }
}

pub open spec fn sensor_err_text(e: SensorErr) -> Seq<char> {
    match e {
        SensorErr::Uncalibrated => "Uncalibrated"@,
        SensorErr::Bus => "Bus"@,
        SensorErr::CheckSum => "CheckSum"@,
        SensorErr::Uninitialized => "Uninitialized"@,
    }
}

pub open spec fn sensor_text(s: SensorResult) -> Seq<char> {
    match s {
        SensorResult::Reading(o) => milli_text(milli_celsius(o.t as int)) + "°C, "@ + milli_text(
            milli_rh(o.h as int),
        ) + "%"@,
        SensorResult::Error(e) => "error "@ + sensor_err_text(e),
    }
}

/// The broker message announcing `cmd`, if it is one to announce.
pub open spec fn message_of(cmd: Cmd, present: bool) -> Option<Seq<char>> {
    match cmd {
        Cmd::Get | Cmd::Ping => None,
        Cmd::SetRelay(Relay::Hot) => Some("allumage du chauffe-eau"@),
        Cmd::SetRelay(Relay::Cold) => Some("extinction du chauffe-eau"@),
        Cmd::Pong => Some("pong"@),
        Cmd::Status(r, s) => Some(
            "présent: "@ + bool_text(present) + ", relay: "@ + relay_text(r) + ", garage: "@
                + sensor_text(s),
        ),
    }
}

fn digit_str(d: u64) -> (r: &'static str)
    requires
        d < 10,
    ensures
        r@ == seq![digit_char(d as nat)],
{
    proof {
        reveal_strlit("0");
        reveal_strlit("1");
        reveal_strlit("2");
        reveal_strlit("3");
        reveal_strlit("4");
        reveal_strlit("5");
        reveal_strlit("6");
        reveal_strlit("7");
        reveal_strlit("8");
        reveal_strlit("9");
    }
    let r = match d {
        0 => "0",
        1 => "1",
        2 => "2",
        3 => "3",
        4 => "4",
        5 => "5",
        6 => "6",
        7 => "7",
        8 => "8",
        _ => "9",
    };
    assert(r@ =~= seq![digit_char(d as nat)]);
    r
}

fn push_decimal(out: &mut String, n: u64)
    ensures
        final(out)@ == old(out)@ + decimal(n as nat),
    decreases n,
{
    if n >= 10 {
        push_decimal(out, n / 10);
    }
    out.append(digit_str(n % 10));
    assert(out@ =~= old(out)@ + decimal(n as nat));
}

fn push_milli(out: &mut String, v: i64)
    ensures
        final(out)@ == old(out)@ + milli_text(v as int),
{
    let a: u64 = if v < 0 {
        (0i128 - v as i128) as u64
    } else {
        v as u64
    };
    if v < 0 {
        proof {
            reveal_strlit("-");
        }
        out.append("-");
    }
    push_decimal(out, a / 1000);
    let f = a % 1000;
    proof {
        reveal_strlit(".");
    }
    out.append(".");
    out.append(digit_str(f / 100));
    out.append(digit_str((f / 10) % 10));
    out.append(digit_str(f % 10));
    assert(out@ =~= old(out)@ + milli_text(v as int));
}

fn push_sensor(out: &mut String, s: SensorResult)
    ensures
        final(out)@ == old(out)@ + sensor_text(s),
{
    match s {
        SensorResult::Reading(o) => {
            push_milli(out, o.celsius());
            out.append("°C, ");
            push_milli(out, o.rh());
            out.append("%");
        },
        SensorResult::Error(e) => {
            out.append("error ");
            out.append(
                match e {
                    SensorErr::Uncalibrated => "Uncalibrated",
                    SensorErr::Bus => "Bus",
                    SensorErr::CheckSum => "CheckSum",
                    SensorErr::Uninitialized => "Uninitialized",
                },
            );
        },
    }
    assert(out@ =~= old(out)@ + sensor_text(s));
}

/// Renders `cmd` as a broker message; `present` is the thermostat's
/// presence flag. `Get` and `Ping` are never announced.
pub fn render(cmd: Cmd, present: bool) -> (r: Option<String>)
    ensures
        match r {
            Some(m) => message_of(cmd, present) == Some(m@),
            None => message_of(cmd, present) is None,
        },
{
    match cmd {
        Cmd::Get | Cmd::Ping => None,
        Cmd::SetRelay(Relay::Hot) => Some(String::from_str("allumage du chauffe-eau")),
        Cmd::SetRelay(Relay::Cold) => Some(String::from_str("extinction du chauffe-eau")),
        Cmd::Pong => Some(String::from_str("pong")),
        Cmd::Status(r, s) => {
            let mut m = String::from_str("présent: ");
            m.append(if present { "true" } else { "false" });
            m.append(", relay: ");
            m.append(
                match r {
                    Relay::Hot => "Hot",
                    Relay::Cold => "Cold",
                },
            );
            m.append(", garage: ");
            push_sensor(&mut m, s);
            Some(m)
        },
    }
}

/// One telemetry sample: always the relay, absence and threshold; the
/// temperature and humidity (thousandths) when the last status is a reading.
#[derive(Debug, Clone, Copy, PartialEq, Eq, Structural)]
pub struct Telemetry {
    pub relay: bool,
    pub absent: bool,
    pub targetf: i64,
    pub reading: Option<Climate>,
}

/// Temperature and relative humidity, in thousandths.
#[derive(Debug, Clone, Copy, PartialEq, Eq, Structural)]
pub struct Climate {
    pub celsius: i64,
    pub humidity: i64,
}

pub open spec fn telemetry_of(state: Thermostazv, status: Cmd, hour: nat) -> Telemetry {
    Telemetry {
        relay: state.hot,
        absent: !state.present,
        targetf: threshold(state, hour) as i64,
        reading: match status {
            Cmd::Status(_, SensorResult::Reading(o)) => Some(
                Climate { celsius: milli_celsius(o.t as int) as i64, humidity: milli_rh(o.h as int) as i64 },
            ),
            _ => None,
        },
    }
}

/// The telemetry sample at `hour`.
pub fn telemetry(state: &Thermostazv, status: Cmd, hour: u32) -> (r: Telemetry)
    ensures
        r == telemetry_of(*state, status, hour as nat),
{
    let reading = match status {
        Cmd::Status(_, SensorResult::Reading(o)) => Some(Climate { celsius: o.celsius(), humidity: o.rh() }),
        _ => None,
    };
    Telemetry { relay: state.hot, absent: !state.present, targetf: state.hysteresis(hour), reading }
}

/// The telemetry sample at the current local hour.
pub fn telemetry_now(state: &Thermostazv, status: Cmd) -> (r: Telemetry)
    ensures
        exists|hour: nat| hour < 24 && r == telemetry_of(*state, status, hour),
{
    let hour = local_hour();
    telemetry(state, status, hour)
}

/// Whether the supervisor must raise the shutdown signal: some task has
/// already ended.
pub fn any_finished(finished: &[bool]) -> (r: bool)
    ensures
        r == exists|i: int| 0 <= i < finished@.len() && finished@[i],
{
    let mut i: usize = 0;
    while i < finished.len()
        invariant
            i <= finished@.len(),
            forall|j: int| 0 <= j < i ==> !finished@[j],
        decreases finished@.len() - i,
    {
        if finished[i] {
            return true;
        }
        i = i + 1;
    }
    false
}

} // verus!
