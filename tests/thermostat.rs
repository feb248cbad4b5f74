use thermostazv::status::StatusCache;
use thermostazv::thermostat::{Outcome, TCmd, TManager, Thermostazv};
use thermostazv::wire::{Cmd, Relay, SensorErr, SensorOk, SensorResult};

fn state(present: bool, hot: bool) -> Thermostazv {
    Thermostazv { present, hot, ..Thermostazv::new() }
}

#[test]
fn defaults() {
    let t = Thermostazv::new();
    assert!(t.is_present());
    assert!(!t.is_hot());
    assert_eq!((t.day, t.night, t.empty, t.morning, t.evening), (17_500, 17_000, 10_000, 6, 23));
}

#[test]
fn target_follows_presence_and_schedule() {
    let t = Thermostazv::new();
    assert_eq!(t.target(6), 17_500);
    assert_eq!(t.target(22), 17_500);
    assert_eq!(t.target(23), 17_000);
    assert_eq!(t.target(3), 17_000);
    let away = state(false, false);
    assert_eq!(away.target(12), 10_000);
    assert_eq!(away.target(2), 10_000);
}

#[test]
fn hysteresis_band() {
    let target = 17_500;
    let mut t = state(true, false);
    assert!(t.update(target - 600, 12));
    assert!(t.is_hot());
    assert!(t.update(target - 400, 12));
    assert!(t.update(target + 400, 12));
    assert!(!t.update(target + 600, 12));
    assert!(!t.update(target - 400, 12));
    assert!(t.update(target - 500, 12));
    let mut cold = state(true, false);
    assert!(cold.update(target - 500, 12));
    let mut hot = state(true, true);
    assert!(hot.update(target + 500, 12));
    assert!(!hot.update(target + 501, 12));
}

#[test]
fn hysteresis_threshold_values() {
    assert_eq!(state(true, false).hysteresis(12), 17_000);
    assert_eq!(state(true, true).hysteresis(12), 18_000);
    assert_eq!(state(false, true).hysteresis(12), 10_500);
    assert_eq!(state(true, false).hysteresis(0), 16_500);
}

#[test]
fn scenario_cold_reading_turns_heating_on() {
    let s = Thermostazv { present: true, day: 17_500, hot: false, ..Thermostazv::new() };
    let mut m = TManager::new(s);
    let out = m.handle(TCmd::Current(16_900), 12);
    assert_eq!(out, Outcome { set_relay: Some(Relay::Hot), broadcast: true });
    assert!(m.state().hot);
}

#[test]
fn unchanged_demand_sends_no_relay_command() {
    let mut m = TManager::new(state(true, true));
    let out = m.handle(TCmd::Current(17_000), 12);
    assert_eq!(out, Outcome { set_relay: None, broadcast: false });
    let out = m.handle(TCmd::Current(19_000), 12);
    assert_eq!(out, Outcome { set_relay: Some(Relay::Cold), broadcast: true });
}

#[test]
fn setters_overwrite_and_broadcast_on_change() {
    let mut m = TManager::new(Thermostazv::new());
    assert_eq!(m.handle(TCmd::SetDay(19_000), 12), Outcome { set_relay: None, broadcast: true });
    assert_eq!(m.handle(TCmd::SetDay(19_000), 12), Outcome { set_relay: None, broadcast: false });
    m.handle(TCmd::SetNight(15_000), 12);
    m.handle(TCmd::SetEmpty(8_000), 12);
    m.handle(TCmd::SetMorning(7), 12);
    m.handle(TCmd::SetEvening(22), 12);
    m.handle(TCmd::SetPresent(false), 12);
    let out = m.handle(TCmd::SetHot(true), 12);
    assert_eq!(out.set_relay, None);
    let s = m.state();
    assert_eq!((s.day, s.night, s.empty, s.morning, s.evening), (19_000, 15_000, 8_000, 7, 22));
    assert!(!s.present && s.hot);
}

#[test]
fn handle_now_uses_some_hour() {
    let mut m = TManager::new(state(false, false));
    let out = m.handle_now(TCmd::Current(9_000));
    assert_eq!(out.set_relay, Some(Relay::Hot));
}

#[test]
fn set_present_changes_only_presence() {
    let mut t = Thermostazv::new();
    t.set_present(false);
    assert_eq!(t, Thermostazv { present: false, ..Thermostazv::new() });
}

#[test]
fn status_cache_broadcasts_changes_only() {
    let mut cache = StatusCache::new();
    assert_eq!(cache.latest(), Cmd::Status(Relay::Cold, SensorResult::Error(SensorErr::Uninitialized)));
    let s = Cmd::Status(Relay::Hot, SensorResult::Reading(SensorOk { h: 1, t: 2 }));
    let first = cache.update(s);
    let second = cache.update(s);
    assert_eq!([first, second].iter().filter(|b| **b).count(), 1);
    assert_eq!(cache.latest(), s);
    assert!(!cache.update(s));
    assert!(cache.update(Cmd::Status(Relay::Cold, SensorResult::Reading(SensorOk { h: 1, t: 2 }))));
}

#[test]
fn status_cache_same_as_initial_is_not_broadcast() {
    let mut cache = StatusCache::new();
    assert!(!cache.update(Cmd::Status(Relay::Cold, SensorResult::Error(SensorErr::Uninitialized))));
}
