//! The device side of the protocol: what the firmware does with a command
//! from the host, and the status it reports back.
use vstd::prelude::*;
use crate::aht20::{Error, Humidity, Temperature};
use crate::wire::{Cmd, Relay, SensorErr, SensorOk, SensorResult};

verus! {

/// What the firmware does with a command received from the host.
#[derive(Debug, Clone, Copy, PartialEq, Eq, Structural)]
pub enum DeviceAction {
    /// Send the current status.
    SendStatus,
    /// Drive the relay.
    SetRelay(Relay),
    /// Send this command back.
    Send(Cmd),
    /// Nothing to do (a reply, or a device-to-host command coming back).
    Ignore,
}

pub open spec fn device_action_of(cmd: Cmd) -> DeviceAction {
    match cmd {
        Cmd::Get => DeviceAction::SendStatus,
        Cmd::SetRelay(r) => DeviceAction::SetRelay(r),
        Cmd::Ping => DeviceAction::Send(Cmd::Pong),
        Cmd::Status(_, _) | Cmd::Pong => DeviceAction::Ignore,
    }
}

/// Dispatches a command decoded from the host.
pub fn on_host_command(cmd: Cmd) -> (r: DeviceAction)
    ensures
        r == device_action_of(cmd),
{
    match cmd {
        Cmd::Get => DeviceAction::SendStatus,
        Cmd::SetRelay(r) => DeviceAction::SetRelay(r),
        Cmd::Ping => DeviceAction::Send(Cmd::Pong),
        Cmd::Status(_, _) | Cmd::Pong => DeviceAction::Ignore,
    }
}

pub open spec fn sensor_result_of<E>(r: Result<(Humidity, Temperature), Error<E>>) -> SensorResult {
    match r {
        Ok((h, t)) => SensorResult::Reading(SensorOk { h: h.h, t: t.t }),
        Err(Error::Uncalibrated) => SensorResult::Error(SensorErr::Uncalibrated),
        Err(Error::Checksum) => SensorResult::Error(SensorErr::CheckSum),
        Err(Error::Bus(_)) => SensorResult::Error(SensorErr::Bus),
    }
}

/// The sensor result reported for the outcome of a measurement.
pub fn sensor_result<E>(r: Result<(Humidity, Temperature), Error<E>>) -> (s: SensorResult)
    ensures
        s == sensor_result_of(r),
{
    match r {
        Ok((h, t)) => SensorResult::Reading(SensorOk { h: h.raw(), t: t.raw() }),
        Err(Error::Uncalibrated) => SensorResult::Error(SensorErr::Uncalibrated),
        Err(Error::Checksum) => SensorResult::Error(SensorErr::CheckSum),
        Err(Error::Bus(_)) => SensorResult::Error(SensorErr::Bus),
    }
}

/// The status the device reports: its relay output and last sensor result.
pub fn status_cmd(relay_high: bool, sensor: SensorResult) -> (c: Cmd)
    ensures
        c == Cmd::Status(if relay_high { Relay::Hot } else { Relay::Cold }, sensor),
{
    Cmd::Status(Relay::from_bool(relay_high), sensor)
}

} // verus!
