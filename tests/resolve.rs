use ddc_hotplug_switch::ddc::{
    missing_displays, parse_detection, parse_monitor_config, resolve_displays,
    DDCDisplaySwitchConfig, ResolveError, SwitcherConfig,
};

const DETECTED: &str = "Display 1\n   I2C bus:  /dev/i2c-6\n   Monitor:  DEL:DELL U2720Q:ABC\n\nDisplay 2\n   I2C bus:  /dev/i2c-7\n   Monitor:  GSM:LG HDR 4K:XYZ\n";

fn strings(v: &[&str]) -> Vec<String> {
    v.iter().map(|s| s.to_string()).collect()
}

#[test]
fn detection_reads_displays_and_buses() {
    assert_eq!(parse_detection(DETECTED), Ok(vec![(1, 6), (2, 7)]));
}

#[test]
fn detection_of_nothing_is_empty() {
    assert_eq!(parse_detection(""), Ok(vec![]));
    assert_eq!(parse_detection("No displays found\n"), Ok(vec![]));
}

#[test]
fn detection_ignores_bus_before_any_display() {
    assert_eq!(parse_detection("I2C bus: /dev/i2c-3\nDisplay 4\n"), Ok(vec![]));
}

#[test]
fn detection_repeated_display_keeps_place() {
    let out = "Display 1\nI2C bus: /dev/i2c-6\nDisplay 2\nI2C bus: /dev/i2c-7\nDisplay 1\nI2C bus: /dev/i2c-9\n";
    assert_eq!(parse_detection(out), Ok(vec![(1, 9), (2, 7)]));
}

#[test]
fn detection_bad_display_number() {
    assert_eq!(parse_detection("Display one\n"), Err(ResolveError::InvalidDisplayNumber));
    assert_eq!(parse_detection("Display\n"), Err(ResolveError::InvalidDisplayNumber));
}

#[test]
fn detection_bad_bus_id() {
    assert_eq!(
        parse_detection("Display 1\n   I2C bus:  /dev/i2c-x\n"),
        Err(ResolveError::InvalidBusId)
    );
    assert_eq!(
        parse_detection("Display 1\n   I2C bus:  /dev/i2c-70000\n"),
        Err(ResolveError::InvalidBusId)
    );
}

#[test]
fn resolves_configured_and_detected() {
    let m = parse_monitor_config(strings(&["1:0x11:0x10", "2:0x0f:0x09"])).unwrap();
    let r = resolve_displays(&m, &vec![(1, 6), (2, 7)]).unwrap();
    assert_eq!(
        r,
        vec![
            DDCDisplaySwitchConfig { display_bus_id: 6, device_arrive_mode: 0x11, device_left_mode: 0x10 },
            DDCDisplaySwitchConfig { display_bus_id: 7, device_arrive_mode: 0x0f, device_left_mode: 0x09 },
        ]
    );
}

#[test]
fn undetected_display_is_skipped() {
    let m = parse_monitor_config(strings(&["1:0x11:0x10", "2:0x0f:0x09", "3:0x01:0x02"])).unwrap();
    let c = SwitcherConfig::new(0x1234, 0x5678, m, DETECTED).unwrap();
    assert_eq!(c.vendor_id, 0x1234);
    assert_eq!(c.product_id, 0x5678);
    assert_eq!(c.display_switch_configs.len(), 2);
    assert_eq!(c.display_switch_configs[0].display_bus_id, 6);
    assert_eq!(c.display_switch_configs[1].display_bus_id, 7);
}

#[test]
fn undeclared_detected_display_is_left_out() {
    let m = parse_monitor_config(strings(&["2:0x0f:0x09"])).unwrap();
    let c = SwitcherConfig::new(1, 2, m, DETECTED).unwrap();
    assert_eq!(
        c.display_switch_configs,
        vec![DDCDisplaySwitchConfig { display_bus_id: 7, device_arrive_mode: 15, device_left_mode: 9 }]
    );
}

#[test]
fn no_common_display_aborts() {
    let m = parse_monitor_config(strings(&["3:0x11:0x10"])).unwrap();
    assert_eq!(
        SwitcherConfig::new(1, 2, m, DETECTED).err(),
        Some(ResolveError::NoDisplaysResolved)
    );
    let empty = parse_monitor_config(Vec::new()).unwrap();
    assert_eq!(
        SwitcherConfig::new(1, 2, empty, DETECTED).err(),
        Some(ResolveError::NoDisplaysResolved)
    );
}

#[test]
fn bad_detection_output_aborts() {
    let m = parse_monitor_config(strings(&["1:0x11:0x10"])).unwrap();
    assert_eq!(
        SwitcherConfig::new(1, 2, m, "Display x\n").err(),
        Some(ResolveError::InvalidDisplayNumber)
    );
}

#[test]
fn missing_displays_are_the_undetected_configured_ones() {
    let m = parse_monitor_config(strings(&["1:0x11:0x10", "3:0x01:0x02", "5:0x01:0x02"])).unwrap();
    let mut missing = missing_displays(&m, &vec![(1, 6), (2, 7)]);
    missing.sort();
    assert_eq!(missing, vec![3, 5]);
    assert!(missing_displays(&m, &vec![(1, 6), (3, 7), (5, 8)]).is_empty());
}

#[test]
fn detection_trims_unicode_whitespace() {
    let out = "\u{a0}Display\u{2003}4\u{3000}\n\u{2028}I2C bus: /dev/i2c-5\n";
    assert_eq!(parse_detection(out), Ok(vec![(4, 5)]));
}
