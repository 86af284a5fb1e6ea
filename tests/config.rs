use ddc_hotplug_switch::ddc::{parse_monitor_config, ModeSwitch};
use ddc_hotplug_switch::helpers::{parse_duration, Also, IntegerFromHexString, ParseError};

fn strings(v: &[&str]) -> Vec<String> {
    v.iter().map(|s| s.to_string()).collect()
}

#[test]
fn parses_single_entry() {
    let m = parse_monitor_config(strings(&["1:0x11:0x10"])).unwrap();
    assert_eq!(m.len(), 1);
    assert_eq!(
        m[&1],
        ModeSwitch { device_arrive_mode: 0x11, device_left_mode: 0x10 }
    );
}

#[test]
fn parses_several_entries() {
    let m = parse_monitor_config(strings(&["1:0x11:0x10", "2:0x0f:0x09"])).unwrap();
    assert_eq!(m.len(), 2);
    assert_eq!(m[&1], ModeSwitch { device_arrive_mode: 17, device_left_mode: 16 });
    assert_eq!(m[&2], ModeSwitch { device_arrive_mode: 15, device_left_mode: 9 });
}

#[test]
fn empty_config_is_empty_map() {
    let m = parse_monitor_config(Vec::new()).unwrap();
    assert!(m.is_empty());
}

#[test]
fn signed_and_uppercase_values() {
    let m = parse_monitor_config(strings(&["-3:0xFF:0x0", "+4:0xffff:0x00001"])).unwrap();
    assert_eq!(m[&-3], ModeSwitch { device_arrive_mode: 255, device_left_mode: 0 });
    assert_eq!(m[&4], ModeSwitch { device_arrive_mode: 65535, device_left_mode: 1 });
}

#[test]
fn later_duplicate_wins() {
    let m = parse_monitor_config(strings(&["1:0x11:0x10", "2:0x01:0x02", "1:0x0f:0x09"])).unwrap();
    assert_eq!(m.len(), 2);
    assert_eq!(m[&1], ModeSwitch { device_arrive_mode: 0x0f, device_left_mode: 0x09 });
}

#[test]
fn wrong_field_count_fails() {
    assert_eq!(parse_monitor_config(strings(&["1:0x11"])), Err(ParseError::WrongFieldCount));
    assert_eq!(
        parse_monitor_config(strings(&["1:0x11:0x10:0x1"])),
        Err(ParseError::WrongFieldCount)
    );
    assert_eq!(parse_monitor_config(strings(&[""])), Err(ParseError::WrongFieldCount));
}

#[test]
fn bad_display_id_fails() {
    assert_eq!(parse_monitor_config(strings(&["a:0x11:0x10"])), Err(ParseError::InvalidNumber));
    assert_eq!(parse_monitor_config(strings(&[":0x11:0x10"])), Err(ParseError::InvalidNumber));
    assert_eq!(
        parse_monitor_config(strings(&["99999999999:0x11:0x10"])),
        Err(ParseError::InvalidNumber)
    );
}

#[test]
fn missing_prefix_fails() {
    assert_eq!(parse_monitor_config(strings(&["1:11:0x10"])), Err(ParseError::MissingHexPrefix));
    assert_eq!(parse_monitor_config(strings(&["1:0x11:10"])), Err(ParseError::MissingHexPrefix));
}

#[test]
fn non_hex_mode_fails() {
    assert_eq!(parse_monitor_config(strings(&["1:0xzz:0x10"])), Err(ParseError::InvalidHex));
    assert_eq!(parse_monitor_config(strings(&["1:0x11:0x10000"])), Err(ParseError::InvalidHex));
    assert_eq!(parse_monitor_config(strings(&["1:0x:0x10"])), Err(ParseError::InvalidHex));
    assert_eq!(parse_monitor_config(strings(&["1:0x0x11:0x10"])), Err(ParseError::InvalidHex));
    assert_eq!(parse_monitor_config(strings(&["1:0x11:0x+10"])), Err(ParseError::InvalidHex));
}

#[test]
fn first_malformed_entry_decides() {
    assert_eq!(
        parse_monitor_config(strings(&["1:0x11:0x10", "2:0x1", "3:1:1"])),
        Err(ParseError::WrongFieldCount)
    );
}

#[test]
fn hex_string_values() {
    assert_eq!(u16::from_hex_string("0x0f"), Ok(15));
    assert_eq!(u16::from_hex_string("0xABCD"), Ok(0xabcd));
    assert_eq!(u16::from_hex_string("0x0x11"), Err(ParseError::InvalidHex));
    assert_eq!(u16::from_hex_string("0x+11"), Err(ParseError::InvalidHex));
    assert_eq!(u16::from_hex_string("0x-1"), Err(ParseError::InvalidHex));
    assert_eq!(u16::from_hex_string("0x 11"), Err(ParseError::InvalidHex));
    assert_eq!(u16::from_hex_string("0xffff"), Ok(0xffff));
    assert_eq!(u16::from_hex_string("11"), Err(ParseError::MissingHexPrefix));
    assert_eq!(u16::from_hex_string(""), Err(ParseError::MissingHexPrefix));
    assert_eq!(u16::from_hex_string("0x"), Err(ParseError::InvalidHex));
    assert_eq!(u16::from_hex_string("0x1g"), Err(ParseError::InvalidHex));
    assert_eq!(u16::from_hex_string("0x10000"), Err(ParseError::InvalidHex));
}

#[test]
fn duration_values() {
    assert_eq!(parse_duration("300"), Ok(300));
    assert_eq!(parse_duration("0"), Ok(0));
    assert_eq!(parse_duration("18446744073709551615"), Ok(u64::MAX));
    assert_eq!(parse_duration("18446744073709551616"), Err(ParseError::InvalidNumber));
    assert_eq!(parse_duration("-1"), Err(ParseError::InvalidNumber));
    assert_eq!(parse_duration(""), Err(ParseError::InvalidNumber));
    assert_eq!(parse_duration("3s"), Err(ParseError::InvalidNumber));
}

#[test]
fn also_hands_back_value() {
    let mut seen = 0;
    let x: u32 = 5;
    let r = *x.also(|v| seen = *v);
    assert_eq!(r, 5);
    assert_eq!(seen, 5);
}
