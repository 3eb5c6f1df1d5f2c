//! The weekday-repeat resolver, the alarm queue and the tick-level daemon
//! state, on concrete dates. Day numbers are chosen so that 1_000_000 is a
//! Monday (day numbers put Monday at `days % 7 == 1`).

use pwalarmd::{
    determine_entry_day, determine_entry_day_at, find_next_rep, settings_from_config, AlarmQueue,
    AlarmSpec, Daemon, Date, ScheduledAlarm,
};

const MON: u64 = 1_000_000;
const TUE: u64 = 1_000_001;
const WED: u64 = 1_000_002;
const THU: u64 = 1_000_003;

fn codes(v: &[&str]) -> Option<Vec<String>> {
    Some(v.iter().map(|s| s.to_string()).collect())
}

fn alarm(title: &str, time_of_day: u32, repeat: Option<Vec<String>>) -> AlarmSpec {
    AlarmSpec {
        title: Some(title.to_string()),
        description: None,
        time_of_day,
        repeat,
        sound: None,
        icon: None,
    }
}

fn default_settings() -> pwalarmd::Settings {
    settings_from_config(None, None, true, None, false, None, None)
}

#[test]
fn resolver_unconstrained_returns_start() {
    let r = find_next_rep(Date { days: TUE }, &None);
    assert_eq!(r.unwrap().days, TUE);
}

#[test]
fn resolver_finds_same_day() {
    let r = find_next_rep(Date { days: TUE }, &codes(&["Tu"]));
    assert_eq!(r.unwrap().days, TUE);
}

#[test]
fn resolver_scans_forward_to_first_match() {
    // From Tuesday, the rule Mo/We first matches on Wednesday.
    let r = find_next_rep(Date { days: TUE }, &codes(&["Mo", "We"]));
    assert_eq!(r.unwrap().days, WED);
    // From Thursday, the same rule first matches on the following Monday.
    let r = find_next_rep(Date { days: THU }, &codes(&["Mo", "We"]));
    assert_eq!(r.unwrap().days, MON + 7);
}

#[test]
fn resolver_rejects_empty_and_unknown_rules() {
    assert!(find_next_rep(Date { days: MON }, &codes(&[])).is_none());
    assert!(find_next_rep(Date { days: MON }, &codes(&["Xx", "Zz"])).is_none());
}

#[test]
fn resolver_within_a_week_for_every_start() {
    for start in MON..=MON + 6 {
        let r = find_next_rep(Date { days: start }, &codes(&["Su"]));
        let d = r.unwrap().days;
        assert!(d >= start && d < start + 7);
    }
}

#[test]
fn entry_day_today_while_time_ahead() {
    // 14:00:00 alarm, clock at midnight: starts today.
    let r = determine_entry_day_at(3600 * 14, &None, Date { days: TUE }, 0);
    assert_eq!(r.unwrap().days, TUE);
}

#[test]
fn entry_day_tomorrow_once_time_passed() {
    // 14:00:00 alarm, clock exactly 14:00:00: the moment has passed.
    let r = determine_entry_day_at(3600 * 14, &None, Date { days: TUE }, 3600 * 14);
    assert_eq!(r.unwrap().days, TUE + 1);
}

#[test]
fn entry_day_weekday_rule_from_tuesday() {
    // Scenario: 14:00:00 with repeat Mo/We on a Tuesday morning resolves to
    // Wednesday, the first matching weekday on/after today.
    let r = determine_entry_day_at(3600 * 14, &codes(&["Mo", "We"]), Date { days: TUE }, 0);
    assert_eq!(r.unwrap().days, WED);
    // In the evening the start moves to Wednesday, which already matches.
    let r = determine_entry_day_at(3600 * 14, &codes(&["Mo", "We"]), Date { days: TUE }, 80000);
    assert_eq!(r.unwrap().days, WED);
}

#[test]
fn entry_day_from_wall_clock_is_resolvable() {
    // A midnight one-shot alarm always gets a date, whatever the clock says.
    assert!(determine_entry_day(0, &None).is_some());
}

#[test]
fn clock_reads_sane_instants() {
    let (today, now) = pwalarmd::current_instant();
    assert!(now < 86400);
    assert!(today.days >= 9_000_000 && today.days <= 201_000_000);
}

#[test]
fn queue_insert_keeps_sorted_order() {
    let mut q = AlarmQueue::new();
    let entries = [
        (WED, 3600u32),
        (MON, 7200),
        (MON, 3600),
        (THU, 0),
        (MON, 3600),
        (TUE, 86399),
    ];
    for (d, t) in entries {
        q.insert(ScheduledAlarm { date: Date { days: d }, alarm: alarm("a", t, None) });
    }
    assert_eq!(q.len(), entries.len());
    for i in 1..q.len() {
        let a = q.index(i - 1);
        let b = q.index(i);
        assert!(
            a.date.days < b.date.days
                || (a.date.days == b.date.days && a.alarm.time_of_day <= b.alarm.time_of_day)
        );
    }
}

#[test]
fn queue_peek_due_honours_date_and_time() {
    let mut q = AlarmQueue::new();
    q.insert(ScheduledAlarm { date: Date { days: TUE }, alarm: alarm("a", 3600, None) });
    // Earlier day: not due even at the end of the day.
    assert!(q.peek_due(Date { days: MON }, 86399).is_none());
    // Same day, too early.
    assert!(q.peek_due(Date { days: TUE }, 3599).is_none());
    // Same day, the minute has come.
    assert!(q.peek_due(Date { days: TUE }, 3600).is_some());
    // A later day: still waits for the time of day to pass.
    assert!(q.peek_due(Date { days: WED }, 0).is_none());
    assert!(q.peek_due(Date { days: WED }, 3600).is_some());
}

#[test]
fn queue_remove_equal_removes_first_match_only() {
    let mut q = AlarmQueue::new();
    let a = alarm("a", 3600, codes(&["Mo"]));
    q.insert(ScheduledAlarm { date: Date { days: MON }, alarm: alarm("a", 3600, codes(&["Mo"])) });
    q.insert(ScheduledAlarm { date: Date { days: TUE }, alarm: alarm("a", 3600, codes(&["Mo"])) });
    q.insert(ScheduledAlarm { date: Date { days: WED }, alarm: alarm("b", 3600, None) });
    q.remove_equal(&a);
    assert_eq!(q.len(), 2);
    assert_eq!(q.index(0).date.days, TUE);
    // Removing an alarm that is not there leaves the queue as it was.
    q.remove_equal(&alarm("zz", 1, None));
    assert_eq!(q.len(), 2);
}

#[test]
fn rebuild_is_deterministic() {
    let specs = || {
        vec![
            alarm("a", 3600, codes(&["Mo", "We"])),
            alarm("b", 0, None),
            alarm("c", 86399, codes(&["Su"])),
            alarm("dropped", 1, codes(&[])),
        ]
    };
    let mut q1 = AlarmQueue::new();
    let mut q2 = AlarmQueue::new();
    // q2 starts out holding something else entirely.
    q2.insert(ScheduledAlarm { date: Date { days: THU }, alarm: alarm("old", 5, None) });
    q1.rebuild(specs(), Date { days: TUE }, 1800);
    q2.rebuild(specs(), Date { days: TUE }, 1800);
    assert_eq!(q1.len(), q2.len());
    assert_eq!(q1.len(), 3); // the empty-rule alarm was dropped
    for i in 0..q1.len() {
        let x = q1.index(i);
        let y = q2.index(i);
        assert_eq!(x.date.days, y.date.days);
        assert!(x.alarm.matches_exactly(&y.alarm));
    }
}

#[test]
fn firing_pops_once_and_reschedules_one_day_later() {
    // Scenario: an alarm due now is fired exactly once and reappears with
    // its trigger date advanced by one day, whatever its repeat rule.
    let mut spec = alarm("Wake", 3600, codes(&["Tu"]));
    spec.sound = Some("chime.mp3".to_string());
    let daemon_settings = default_settings();
    let mut d = Daemon::new(daemon_settings, vec![spec], Date { days: TUE }, 0);
    assert_eq!(d.alarm_count(), 1);

    let f = d.fire_due(Date { days: TUE }, 3600).expect("alarm was due");
    assert_eq!(f.sound, "chime.mp3");
    assert!(f.notify);
    assert_eq!(f.title.as_deref(), Some("Wake"));
    assert_eq!(f.app_name, "pwalarmd");

    // Fired exactly once: still queued, but only for tomorrow.
    assert_eq!(d.alarm_count(), 1);
    assert!(d.fire_due(Date { days: TUE }, 86399).is_none());
    assert!(d.fire_due(Date { days: WED }, 3600).is_some());
}

#[test]
fn firing_uses_default_sound_and_notify_toggle() {
    let spec = alarm("NoSound", 10, None);
    let settings = settings_from_config(
        Some("fallback.ogg".to_string()),
        None,
        false,
        Some("myapp".to_string()),
        false,
        None,
        None,
    );
    let mut d = Daemon::new(settings, vec![spec], Date { days: MON }, 5);
    let f = d.fire_due(Date { days: MON }, 20).expect("due");
    assert_eq!(f.sound, "fallback.ogg");
    assert!(!f.notify); // notifications switched off
    assert_eq!(f.app_name, "myapp");
}

#[test]
fn config_and_socket_counters_decimate() {
    let settings = settings_from_config(None, None, true, None, false, Some(2), Some(3));
    let mut d = Daemon::new(settings, vec![], Date { days: MON }, 0);
    // cpfc starts at 2: due only every third tick.
    assert!(!d.config_due());
    d.config_tick(None, Date { days: MON }, 0);
    assert!(!d.config_due());
    d.config_tick(None, Date { days: MON }, 0);
    assert!(d.config_due());
    d.config_tick(None, Date { days: MON }, 0);
    assert!(!d.config_due());
    // csfc starts at 3.
    assert!(!d.socket_due());
    d.socket_tick();
    d.socket_tick();
    d.socket_tick();
    assert!(d.socket_due());
    d.socket_tick();
    assert!(!d.socket_due());
}

#[test]
fn config_reload_replaces_settings_and_queue() {
    let settings = settings_from_config(None, None, true, None, false, Some(0), None);
    let mut d = Daemon::new(settings, vec![alarm("old", 1, None)], Date { days: MON }, 0);
    assert_eq!(d.alarm_count(), 1);
    assert!(d.config_due());
    let new_settings = settings_from_config(None, Some(500), false, None, false, Some(9), None);
    d.config_tick(
        Some((new_settings, vec![alarm("x", 1, None), alarm("y", 2, None)])),
        Date { days: MON },
        0,
    );
    assert_eq!(d.poll_ms(), 500);
    assert_eq!(d.alarm_count(), 2);
    assert!(!d.config_due()); // counter restarted at the new period
}
