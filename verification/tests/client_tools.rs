//! The control client's own computations: value parsers and the
//! content-hash identifiers it uses to address alarms.

use pwalarmd::{
    alarm_hash, alarm_ident_string, find_by_hash, parse_hex_u32, parse_poll_value,
    parse_repeat_value, parse_time_value, u32_to_decimal, AlarmInfo,
};

fn wire_alarm(title: Option<&str>, time: Option<u32>, repeat: &[&str]) -> AlarmInfo {
    AlarmInfo {
        title: title.map(|s| s.to_string()),
        desc: None,
        time,
        repeat: repeat.iter().map(|s| s.to_string()).collect(),
        sound: None,
        icon: None,
    }
}

#[test]
fn poll_values_single_and_triple() {
    assert_eq!(parse_poll_value("500"), Some((500, None)));
    assert_eq!(parse_poll_value("500,3,2"), Some((500, Some((3, 2)))));
    assert_eq!(parse_poll_value("500,3"), None);
    assert_eq!(parse_poll_value("a,b,c"), None);
    assert_eq!(parse_poll_value(""), None);
    assert_eq!(parse_poll_value("1,2,3,4"), None);
    assert_eq!(parse_poll_value("18446744073709551615"), Some((u64::MAX, None)));
    assert_eq!(parse_poll_value("18446744073709551616"), None);
    assert_eq!(parse_poll_value("1,4294967296,1"), None);
}

#[test]
fn time_values_hms() {
    assert_eq!(parse_time_value("14:00"), Some(3600 * 14));
    assert_eq!(parse_time_value("14:00:00"), Some(3600 * 14));
    assert_eq!(parse_time_value("00:00:01"), Some(1));
    assert_eq!(parse_time_value("23:59:59"), Some(86399));
    assert_eq!(parse_time_value("14"), None);
    assert_eq!(parse_time_value("14:xx"), None);
    assert_eq!(parse_time_value(""), None);
    assert_eq!(parse_time_value("1:2:3:4"), None);
}

#[test]
fn repeat_values_split_on_commas() {
    assert_eq!(parse_repeat_value(""), Vec::<String>::new());
    assert_eq!(parse_repeat_value("Mo"), vec!["Mo".to_string()]);
    assert_eq!(parse_repeat_value("Mo,We,Fr"), vec!["Mo".to_string(), "We".to_string(), "Fr".to_string()]);
    // Pieces are kept as they are, even empty ones.
    assert_eq!(parse_repeat_value("Mo,,We"), vec!["Mo".to_string(), "".to_string(), "We".to_string()]);
}

#[test]
fn hex_identifiers() {
    assert_eq!(parse_hex_u32("0"), Some(0));
    assert_eq!(parse_hex_u32("ff"), Some(255));
    assert_eq!(parse_hex_u32("DeadBeef"), Some(0xdead_beef));
    assert_eq!(parse_hex_u32("ffffffff"), Some(u32::MAX));
    assert_eq!(parse_hex_u32("100000000"), None);
    assert_eq!(parse_hex_u32(""), None);
    assert_eq!(parse_hex_u32("xyz"), None);
}

#[test]
fn decimal_rendering() {
    assert_eq!(u32_to_decimal(0), "0");
    assert_eq!(u32_to_decimal(7), "7");
    assert_eq!(u32_to_decimal(50400), "50400");
    assert_eq!(u32_to_decimal(u32::MAX), "4294967295");
}

#[test]
fn ident_string_lists_the_fields() {
    let w = wire_alarm(Some("Wake"), Some(50400), &["Mo", "We"]);
    assert_eq!(alarm_ident_string(&w), "Wake,,50400,[\"Mo\", \"We\"],,");
    let bare = wire_alarm(None, None, &[]);
    assert_eq!(alarm_ident_string(&bare), ",,0,[],,");
}

#[test]
fn hash_is_the_checksum_of_the_ident_string() {
    // The checksum relies on crc32fast; hold it to independently computed
    // CRC-32 (IEEE) values.
    let w = wire_alarm(Some("Wake"), Some(50400), &["Mo", "We"]);
    assert_eq!(alarm_hash(&w), 0x504e_7fe5);
    let bare = wire_alarm(None, None, &[]);
    assert_eq!(alarm_hash(&bare), 0xb02c_0c3d);
    // And to the crate itself, on the same string.
    assert_eq!(alarm_hash(&w), crc32fast::hash(alarm_ident_string(&w).as_bytes()));
}

#[test]
fn find_by_hash_addresses_the_right_alarm() {
    let als = vec![
        wire_alarm(Some("a"), Some(1), &[]),
        wire_alarm(Some("b"), Some(2), &["Mo"]),
        wire_alarm(Some("c"), Some(3), &[]),
    ];
    let h = alarm_hash(&als[1]);
    assert_eq!(find_by_hash(&als, h), Some(1));
    assert_eq!(find_by_hash(&als, !h), None);
}
