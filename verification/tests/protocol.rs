//! The wire codec and the dispatcher: round trips, every error variant, and
//! the protocol scenarios, driven through encoded byte buffers exactly as a
//! client would send them.

use pwalarmd::{
    alarm_to_info, decode_request, decode_response, dispatch, encode_request, encode_response,
    info_to_alarm, ri_to_rr, settings_from_config, AlarmInfo, AlarmQueue, AlarmSpec, Daemon,
    DataValue, Date, ErrorReason, Request, Response,
};

const MON: u64 = 1_000_000;
const TUE: u64 = 1_000_001;

fn wire_alarm(title: Option<&str>, time: Option<u32>, repeat: &[&str]) -> AlarmInfo {
    AlarmInfo {
        title: title.map(|s| s.to_string()),
        desc: None,
        time,
        repeat: repeat.iter().map(|s| s.to_string()).collect(),
        sound: None,
        icon: None,
    }
}

fn full_wire_alarm(time: u32) -> AlarmInfo {
    AlarmInfo {
        title: Some("Wake up".to_string()),
        desc: Some("breakfast \u{263a}".to_string()),
        time: Some(time),
        repeat: vec!["Mo".to_string(), "We".to_string()],
        sound: Some("chime.mp3".to_string()),
        icon: Some("bell".to_string()),
    }
}

fn assert_alarm_eq(a: &AlarmInfo, b: &AlarmInfo) {
    assert_eq!(a.title, b.title);
    assert_eq!(a.desc, b.desc);
    assert_eq!(a.time, b.time);
    assert_eq!(a.repeat, b.repeat);
    assert_eq!(a.sound, b.sound);
    assert_eq!(a.icon, b.icon);
}

fn fresh_state() -> (pwalarmd::Settings, AlarmQueue) {
    (settings_from_config(None, None, true, None, false, None, None), AlarmQueue::new())
}

#[test]
fn alarm_survives_wire_round_trip() {
    // Time values across the whole valid range, the bounds included.
    for t in [0u32, 1, 3600 * 14, 86398, 86399] {
        let original = full_wire_alarm(t);
        let req = Request::NewAlarm { al: Some(full_wire_alarm(t)) };
        let bytes = encode_request(&req);
        match decode_request(&bytes) {
            Some(Request::NewAlarm { al: Some(back) }) => assert_alarm_eq(&original, &back),
            _ => panic!("round trip lost the alarm"),
        }
    }
}

#[test]
fn alarm_spec_round_trip_preserves_all_fields() {
    let w = full_wire_alarm(86399);
    let spec: AlarmSpec = info_to_alarm(w).ok().expect("valid alarm");
    let back = alarm_to_info(&spec);
    assert_alarm_eq(&full_wire_alarm(86399), &back);
}

#[test]
fn alarm_conversion_validates_time() {
    assert_eq!(
        info_to_alarm(wire_alarm(Some("x"), None, &[])).err(),
        Some(ErrorReason::MissingRequiredComponent)
    );
    assert_eq!(
        info_to_alarm(wire_alarm(Some("x"), Some(86400), &[])).err(),
        Some(ErrorReason::ParseFailureError)
    );
    assert!(info_to_alarm(wire_alarm(Some("x"), Some(86399), &[])).is_ok());
}

#[test]
fn every_request_round_trips() {
    let reqs = [
        Request::ChangeGeneralSound { newsound: Some("s.mp3".to_string()) },
        Request::ChangeGeneralSound { newsound: None },
        Request::ChangePollFrequency { poll: Some(500), tpfc: Some(3), tsfc: Some(2) },
        Request::ChangePollFrequency { poll: None, tpfc: None, tsfc: None },
        Request::SetNotify { noti: Some(true) },
        Request::SetNotify { noti: None },
        Request::ChangeAppName { newname: Some("app".to_string()) },
        Request::ChangeAppName { newname: None },
        Request::KillSwitch,
        Request::FetchGeneralInfo { git: Some(6) },
        Request::FetchAlarms,
        Request::NewAlarm { al: None },
        Request::RemoveAlarm { al: Some(wire_alarm(None, Some(0), &["Su"])) },
    ];
    for req in reqs {
        let bytes = encode_request(&req);
        let back = decode_request(&bytes).expect("its own encoding decodes");
        // Compare by re-encoding: the encoder is injective on views.
        assert_eq!(bytes, encode_request(&back));
    }
}

#[test]
fn every_response_round_trips() {
    let resps = [
        Response::Success,
        Response::SuccessWithData { dat: DataValue::St("x".to_string()) },
        Response::SuccessWithData { dat: DataValue::Ui(u64::MAX) },
        Response::SuccessWithData { dat: DataValue::Sui(0) },
        Response::SuccessWithData { dat: DataValue::Bl(false) },
        Response::SuccessWithAlarms { als: vec![full_wire_alarm(3600), wire_alarm(None, Some(0), &[])] },
        Response::Error { reason: ErrorReason::ParseFailureError },
        Response::Error { reason: ErrorReason::MissingRequiredComponent },
        Response::Error { reason: ErrorReason::IllegalEnumOption },
        Response::Error { reason: ErrorReason::InternalServerError },
    ];
    for resp in resps {
        let bytes = encode_response(&resp);
        let back = decode_response(&bytes).expect("its own encoding decodes");
        assert_eq!(bytes, encode_response(&back));
    }
}

#[test]
fn garbage_and_truncation_are_refused() {
    assert!(decode_request(&vec![]).is_none());
    assert!(decode_request(&vec![0u8]).is_none());
    assert!(decode_request(&vec![200u8, 1, 2, 3]).is_none());
    let mut bytes = encode_request(&Request::ChangeGeneralSound {
        newsound: Some("sound.mp3".to_string()),
    });
    bytes.pop();
    assert!(decode_request(&bytes).is_none());
    // Trailing bytes after one complete message are refused too.
    let mut bytes = encode_request(&Request::KillSwitch);
    bytes.push(0);
    assert!(decode_request(&bytes).is_none());
}

#[test]
fn missing_fields_yield_error_and_mutate_nothing() {
    let missing = [
        Request::ChangeGeneralSound { newsound: None },
        Request::ChangePollFrequency { poll: None, tpfc: None, tsfc: None },
        Request::SetNotify { noti: None },
        Request::FetchGeneralInfo { git: None },
        Request::NewAlarm { al: None },
        Request::RemoveAlarm { al: None },
        Request::NewAlarm { al: Some(wire_alarm(Some("t"), None, &[])) },
        Request::RemoveAlarm { al: Some(wire_alarm(Some("t"), None, &[])) },
    ];
    for req in missing {
        let (mut settings, mut queue) = fresh_state();
        let (resp, term) = dispatch(req, &mut settings, &mut queue, Date { days: MON }, 0);
        match resp {
            Response::Error { reason } => {
                assert_eq!(reason, ErrorReason::MissingRequiredComponent)
            },
            _ => panic!("expected the missing-required-field error"),
        }
        assert!(!term);
        assert_eq!(queue.len(), 0);
        assert_eq!(settings.poll, 125);
        assert!(settings.notify);
        assert_eq!(settings.sound, "assets/hyper-alarm.mp3");
    }
}

#[test]
fn empty_daemon_lists_no_alarms() {
    // Scenario: a daemon with no alarms configured answers `list` with the
    // empty list.
    let settings = settings_from_config(None, None, true, None, false, None, None);
    let mut d = Daemon::new(settings, vec![], Date { days: MON }, 0);
    let bytes = encode_request(&Request::FetchAlarms);
    let (out, term) = d.handle_request(&bytes, Date { days: MON }, 0);
    assert!(!term);
    match decode_response(&out) {
        Some(Response::SuccessWithAlarms { als }) => assert!(als.is_empty()),
        _ => panic!("expected an alarm list"),
    }
}

#[test]
fn added_alarm_is_scheduled_and_listed() {
    // Scenario: adding a 14:00:00 alarm with repeat Mo/We on a Tuesday
    // schedules it for Wednesday, and `list` returns it.
    let settings = settings_from_config(None, None, true, None, false, None, None);
    let mut d = Daemon::new(settings, vec![], Date { days: TUE }, 0);
    let add = encode_request(&Request::NewAlarm {
        al: Some(wire_alarm(Some("Wake"), Some(3600 * 14), &["Mo", "We"])),
    });
    let (out, term) = d.handle_request(&add, Date { days: TUE }, 0);
    assert!(!term);
    assert!(matches!(decode_response(&out), Some(Response::Success)));
    assert_eq!(d.alarm_count(), 1);

    let list = encode_request(&Request::FetchAlarms);
    let (out, _) = d.handle_request(&list, Date { days: TUE }, 0);
    match decode_response(&out) {
        Some(Response::SuccessWithAlarms { als }) => {
            assert_eq!(als.len(), 1);
            assert_eq!(als[0].title.as_deref(), Some("Wake"));
            assert_eq!(als[0].time, Some(3600 * 14));
            assert_eq!(als[0].repeat, vec!["Mo".to_string(), "We".to_string()]);
        },
        _ => panic!("expected the alarm list"),
    }
    // Not due on Tuesday: the rule says Monday or Wednesday.
    assert!(d.fire_due(Date { days: TUE }, 86399).is_none());
    assert!(d.fire_due(Date { days: TUE + 1 }, 3600 * 14).is_some());
}

#[test]
fn set_poll_triple_takes_effect_and_reads_back() {
    // Scenario: `set poll 500,3,2`, then `get poll` answers 500.
    let (poll, rest) = pwalarmd::parse_poll_value("500,3,2").expect("parses");
    let (tpfc, tsfc) = rest.expect("triple");
    let (mut settings, mut queue) = fresh_state();
    let (resp, _) = dispatch(
        Request::ChangePollFrequency {
            poll: Some(poll),
            tpfc: Some(tpfc),
            tsfc: Some(tsfc),
        },
        &mut settings,
        &mut queue,
        Date { days: MON },
        0,
    );
    assert!(matches!(resp, Response::Success));
    assert_eq!(settings.poll, 500);
    assert_eq!(settings.tpfc, 3);
    assert_eq!(settings.tsfc, 2);
    let (resp, _) = dispatch(
        Request::FetchGeneralInfo { git: Some(1) },
        &mut settings,
        &mut queue,
        Date { days: MON },
        0,
    );
    match resp {
        Response::SuccessWithData { dat: DataValue::Ui(v) } => assert_eq!(v, 500),
        _ => panic!("expected the poll interval"),
    }
}

#[test]
fn bad_notify_value_never_reaches_the_daemon() {
    // Scenario: `set notify true`, then `set notify maybe` — the second
    // fails validation at the client and notify stays true.
    let (mut settings, mut queue) = fresh_state();
    settings.notify = false;
    let v = pwalarmd::parse_bool_value("true").expect("valid");
    let (resp, _) = dispatch(
        Request::SetNotify { noti: Some(v) },
        &mut settings,
        &mut queue,
        Date { days: MON },
        0,
    );
    assert!(matches!(resp, Response::Success));
    assert!(settings.notify);
    assert_eq!(pwalarmd::parse_bool_value("maybe"), None);
    assert!(settings.notify);
}

#[test]
fn get_covers_all_seven_attributes_and_rejects_the_eighth() {
    let settings = settings_from_config(
        Some("s.mp3".to_string()),
        Some(250),
        true,
        Some("custom".to_string()),
        true,
        Some(7),
        Some(8),
    );
    let mut d = Daemon::new(settings, vec![], Date { days: MON }, 0);
    let expect = |d: &mut Daemon, git: u32| -> Response {
        let bytes = encode_request(&Request::FetchGeneralInfo { git: Some(git) });
        let (out, _) = d.handle_request(&bytes, Date { days: MON }, 0);
        decode_response(&out).expect("decodes")
    };
    match expect(&mut d, 0) {
        Response::SuccessWithData { dat: DataValue::St(s) } => assert_eq!(s, "s.mp3"),
        _ => panic!("sound"),
    }
    match expect(&mut d, 1) {
        Response::SuccessWithData { dat: DataValue::Ui(v) } => assert_eq!(v, 250),
        _ => panic!("poll"),
    }
    match expect(&mut d, 2) {
        Response::SuccessWithData { dat: DataValue::Bl(v) } => assert!(v),
        _ => panic!("notify"),
    }
    match expect(&mut d, 3) {
        Response::SuccessWithData { dat: DataValue::St(s) } => assert_eq!(s, "custom"),
        _ => panic!("appname"),
    }
    match expect(&mut d, 4) {
        Response::SuccessWithData { dat: DataValue::Bl(v) } => assert!(v),
        _ => panic!("daemon"),
    }
    match expect(&mut d, 5) {
        Response::SuccessWithData { dat: DataValue::Sui(v) } => assert_eq!(v, 7),
        _ => panic!("tpfc"),
    }
    match expect(&mut d, 6) {
        Response::SuccessWithData { dat: DataValue::Sui(v) } => assert_eq!(v, 8),
        _ => panic!("tsfc"),
    }
    match expect(&mut d, 7) {
        Response::Error { reason } => assert_eq!(reason, ErrorReason::IllegalEnumOption),
        _ => panic!("expected the illegal-enum error"),
    }
}

#[test]
fn kill_switch_terminates() {
    let settings = settings_from_config(None, None, true, None, false, None, None);
    let mut d = Daemon::new(settings, vec![], Date { days: MON }, 0);
    let bytes = encode_request(&Request::KillSwitch);
    let (out, term) = d.handle_request(&bytes, Date { days: MON }, 0);
    assert!(term);
    assert!(matches!(decode_response(&out), Some(Response::Success)));
}

#[test]
fn undecodable_request_answers_parse_failure() {
    let settings = settings_from_config(None, None, true, None, false, None, None);
    let mut d = Daemon::new(settings, vec![], Date { days: MON }, 0);
    let (out, term) = d.handle_request(&vec![0xff, 0xfe], Date { days: MON }, 0);
    assert!(!term);
    match decode_response(&out) {
        Some(Response::Error { reason }) => assert_eq!(reason, ErrorReason::ParseFailureError),
        _ => panic!("expected the parse-failure error"),
    }
}

#[test]
fn remove_by_value_removes_exactly_that_alarm() {
    let settings = settings_from_config(None, None, true, None, false, None, None);
    let specs = vec![
        info_to_alarm(wire_alarm(Some("one"), Some(100), &["Mo"])).ok().unwrap(),
        info_to_alarm(wire_alarm(Some("two"), Some(200), &[])).ok().unwrap(),
    ];
    let mut d = Daemon::new(settings, specs, Date { days: MON }, 0);
    assert_eq!(d.alarm_count(), 2);
    let rm = encode_request(&Request::RemoveAlarm {
        al: Some(wire_alarm(Some("two"), Some(200), &[])),
    });
    let (out, _) = d.handle_request(&rm, Date { days: MON }, 0);
    assert!(matches!(decode_response(&out), Some(Response::Success)));
    assert_eq!(d.alarm_count(), 1);
    // Removing it again changes nothing.
    let (_, _) = d.handle_request(&rm, Date { days: MON }, 0);
    assert_eq!(d.alarm_count(), 1);
}

#[test]
fn change_sound_and_app_name() {
    let (mut settings, mut queue) = fresh_state();
    let (resp, _) = dispatch(
        Request::ChangeGeneralSound { newsound: Some("bell.ogg".to_string()) },
        &mut settings,
        &mut queue,
        Date { days: MON },
        0,
    );
    assert!(matches!(resp, Response::Success));
    assert_eq!(settings.sound, "bell.ogg");
    let (resp, _) = dispatch(
        Request::ChangeAppName { newname: Some("clock".to_string()) },
        &mut settings,
        &mut queue,
        Date { days: MON },
        0,
    );
    assert!(matches!(resp, Response::Success));
    assert_eq!(settings.custom_app_name.as_deref(), Some("clock"));
    // An absent name clears the custom one.
    let (resp, _) = dispatch(
        Request::ChangeAppName { newname: None },
        &mut settings,
        &mut queue,
        Date { days: MON },
        0,
    );
    assert!(matches!(resp, Response::Success));
    assert_eq!(settings.custom_app_name, None);
    assert_eq!(settings.app_name(), "pwalarmd");
}

#[test]
fn ri_to_rr_flattens_enum_conversions() {
    assert_eq!(ri_to_rr::<u8>(Ok(7)), Ok(7));
    assert!(ri_to_rr::<u8>(Err(3)).is_err());
}
