//! The thermostat: target temperature by presence and time of day, and a
//! relay driven with a hysteresis band around it.
//!
//! Temperatures are in thousandths of a degree Celsius.
use vstd::prelude::*;
use chrono::Timelike;
use crate::wire::Relay;

verus! {

/// Half-width of the hysteresis band, in thousandths of a degree.
pub const HYSTERESIS: i64 = 500;

/// The thermostat's persisted state.
#[derive(Debug, Clone, Copy, PartialEq, Eq, Structural)]
pub struct Thermostazv {
    /// Target while present, from `morning` to `evening`.
    pub day: i32,
    /// Target while present, outside those hours.
    pub night: i32,
    /// Target while absent.
    pub empty: i32,
    /// First hour of the day period.
    pub morning: u32,
    /// First hour after the day period.
    pub evening: u32,
    pub present: bool,
    /// Whether the relay was last commanded to heat.
    pub hot: bool,
}

/// The target that applies at `hour`.
pub open spec fn target(s: Thermostazv, hour: nat) -> int {
    if s.present && s.morning <= hour < s.evening {
        s.day as int
    } else if s.present {
        s.night as int
    } else {
        s.empty as int
    }
}

/// The switching threshold: above the target while heating, below it
/// otherwise.
pub open spec fn threshold(s: Thermostazv, hour: nat) -> int {
    target(s, hour) + if s.hot { HYSTERESIS as int } else { -HYSTERESIS as int }
}

/// The state after a temperature reading at `hour`.
pub open spec fn after_reading(s: Thermostazv, temp: int, hour: nat) -> Thermostazv {
    Thermostazv { hot: temp <= threshold(s, hour), ..s }
}

/// A command to the thermostat manager.
#[derive(Debug, Clone, Copy, PartialEq, Eq, Structural)]
pub enum TCmd {
    SetDay(i32),
    SetNight(i32),
    SetEmpty(i32),
    SetMorning(u32),
    SetEvening(u32),
    SetPresent(bool),
    SetHot(bool),
    /// A temperature reading.
    Current(i32),
}

/// The state after `cmd` at `hour`.
pub open spec fn apply(s: Thermostazv, cmd: TCmd, hour: nat) -> Thermostazv {
    match cmd {
        TCmd::SetDay(v) => Thermostazv { day: v, ..s },
        TCmd::SetNight(v) => Thermostazv { night: v, ..s },
        TCmd::SetEmpty(v) => Thermostazv { empty: v, ..s },
        TCmd::SetMorning(h) => Thermostazv { morning: h, ..s },
        TCmd::SetEvening(h) => Thermostazv { evening: h, ..s },
        TCmd::SetPresent(p) => Thermostazv { present: p, ..s },
        TCmd::SetHot(h) => Thermostazv { hot: h, ..s },
        TCmd::Current(t) => after_reading(s, t as int, hour),
    }
}

pub open spec fn relay_of(hot: bool) -> Relay {
    if hot { Relay::Hot } else { Relay::Cold }
}

impl Thermostazv {
    /// Present, not heating; 17.5 °C from 6 h to 23 h, 17 °C at night,
    /// 10 °C while absent.
    pub fn new() -> (r: Thermostazv)
        ensures
            r == (Thermostazv {
                day: 17500,
                night: 17000,
                empty: 10000,
                morning: 6,
                evening: 23,
                present: true,
                hot: false,
            }),
    {
        Thermostazv { day: 17500, night: 17000, empty: 10000, morning: 6, evening: 23, present: true, hot: false }
    }

    /// The target that applies at `hour`.
    pub fn target(&self, hour: u32) -> (r: i32)
        ensures
            r as int == target(*self, hour as nat),
    {
        if self.present && self.morning <= hour && hour < self.evening {
            self.day
        } else if self.present {
            self.night
        } else {
            self.empty
        }
    }

    /// The current switching threshold at `hour`.
    pub fn hysteresis(&self, hour: u32) -> (r: i64)
        ensures
            r as int == threshold(*self, hour as nat),
    {
        let t = self.target(hour) as i64;
        if self.hot {
            t + HYSTERESIS
        } else {
            t - HYSTERESIS
        }
    }

    /// Takes a temperature reading at `hour`; returns whether to heat.
    pub fn update(&mut self, current: i32, hour: u32) -> (r: bool)
        ensures
            *final(self) == after_reading(*old(self), current as int, hour as nat),
            r == final(self).hot,
    {
        let h = self.hysteresis(hour);
        self.hot = current as i64 <= h;
        self.hot
    }

    pub fn set_present(&mut self, present: bool)
        ensures
            *final(self) == (Thermostazv { present, ..*old(self) }),
    {
        self.present = present;
    }

    pub fn is_present(&self) -> (r: bool)
        ensures
            r == self.present,
    {
        self.present
    }

    pub fn is_hot(&self) -> (r: bool)
        ensures
            r == self.hot,
    {
        self.hot
    }
}

/// What the manager asks of its caller after a command.
#[derive(Debug, Clone, Copy, PartialEq, Eq, Structural)]
pub struct Outcome {
    /// A relay command for the device, when a reading flipped the demand.
    pub set_relay: Option<Relay>,
    /// Whether the state differs from the one last broadcast.
    pub broadcast: bool,
}

/// The single owner of the thermostat state. Its caller persists the state
/// after every command and broadcasts it when the outcome says so.
#[derive(Debug)]
pub struct TManager {
    state: Thermostazv,
    published: Thermostazv,
}

/// Handling `cmd` at `hour` took the manager from `(state, published)` to
/// `(state2, published2)` with outcome `out`.
pub open spec fn handled(
    state: Thermostazv,
    published: Thermostazv,
    cmd: TCmd,
    hour: nat,
    state2: Thermostazv,
    published2: Thermostazv,
    out: Outcome,
) -> bool {
    &&& state2 == apply(state, cmd, hour)
    &&& published2 == state2
    &&& out.broadcast == (state2 != published)
    &&& out.set_relay == if cmd is Current && state2.hot != state.hot {
        Some(relay_of(state2.hot))
    } else {
        None
    }
}

impl TManager {
    pub closed spec fn state_view(&self) -> Thermostazv {
        self.state
    }

    pub closed spec fn published_view(&self) -> Thermostazv {
        self.published
    }

    /// A manager of `state`, which counts as already broadcast.
    pub fn new(state: Thermostazv) -> (r: TManager)
        ensures
            r.state_view() == state,
            r.published_view() == state,
    {
        TManager { state, published: state }
    }

    pub fn state(&self) -> (r: Thermostazv)
        ensures
            r == self.state_view(),
    {
        self.state
    }

    /// Applies `cmd` at local hour `hour`.
    pub fn handle(&mut self, cmd: TCmd, hour: u32) -> (r: Outcome)
        ensures
            handled(
                old(self).state_view(),
                old(self).published_view(),
                cmd,
                hour as nat,
                final(self).state_view(),
                final(self).published_view(),
                r,
            ),
    {
        let before = self.state;
        match cmd {
            TCmd::SetDay(v) => self.state.day = v,
            TCmd::SetNight(v) => self.state.night = v,
            TCmd::SetEmpty(v) => self.state.empty = v,
            TCmd::SetMorning(h) => self.state.morning = h,
            TCmd::SetEvening(h) => self.state.evening = h,
            TCmd::SetPresent(p) => self.state.set_present(p),
            TCmd::SetHot(h) => self.state.hot = h,
            TCmd::Current(t) => {
                self.state.update(t, hour);
            },
        }
        let set_relay = match cmd {
            TCmd::Current(_) => if self.state.hot != before.hot {
                Some(Relay::from_bool(self.state.hot))
            } else {
                None
            },
            _ => None,
        };
        let broadcast = self.state != self.published;
        self.published = self.state;
        Outcome { set_relay, broadcast }
    }

    /// Applies `cmd` at the current local hour.
    pub fn handle_now(&mut self, cmd: TCmd) -> (r: Outcome)
        ensures
            exists|hour: nat|
                hour < 24 && handled(
                    old(self).state_view(),
                    old(self).published_view(),
                    cmd,
                    hour,
                    final(self).state_view(),
                    final(self).published_view(),
                    r,
                ),
    {
        let hour = local_hour();
        self.handle(cmd, hour)
    }
}

/// Relies on chrono's `Local::now` and `Timelike::hour`: the hour of the
/// local time, which chrono documents as 0 to 23.
#[verifier::external_body]
pub(crate) fn local_hour() -> (h: u32)
    ensures
        h < 24,
{
    chrono::Local::now().hour()
}

/// The hysteresis band: at target `T`, a relay that is off turns on at
/// `T - 0.6 °C`; a relay that is on stays on at `T - 0.4 °C`; and either
/// turns off at `T + 0.6 °C`.
pub proof fn lemma_hysteresis(s: Thermostazv, hour: nat)
    ensures
        !s.hot ==> after_reading(s, target(s, hour) - 600, hour).hot,
        s.hot ==> after_reading(s, target(s, hour) - 400, hour).hot,
        !after_reading(s, target(s, hour) + 600, hour).hot,
{
}

} // verus!
