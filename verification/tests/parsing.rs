use scrcpygui::adb::{interpret_output, prop_value, Adb};
use scrcpygui::catalog::{build_device, enumerate, needs_model_lookup, ConnectionType, DeviceStatus};

#[test]
fn test_parse_devices() {
    let adb = Adb::new(String::from("adb.exe"));
    let output = r#"List of devices attached
emulator-5554          device product:sdk_gphone64_arm64 model:sdk_gphone64_arm64 device:emu64a transport_id:1
192.168.1.100:5555     device product:OnePlus9 model:LE2115 device:OnePlus9 transport_id:2
"#;

    let devices = adb.parse_devices(output).unwrap();
    assert_eq!(devices.len(), 2);
    assert_eq!(devices[0].serial, "emulator-5554");
    assert_eq!(devices[0].state, "device");
    assert_eq!(devices[1].serial, "192.168.1.100:5555");
}

#[test]
fn parse_devices_is_deterministic_and_counts_lines() {
    let adb = Adb::new(String::from("adb"));
    // one header, one good line, one blank line, one line with a single
    // token (skipped), one more good line
    let output = "List of devices attached\nserial1 device\n\nlonely\nserial2 unauthorized\n";
    let first = adb.parse_devices(output).unwrap();
    let second = adb.parse_devices(output).unwrap();
    assert_eq!(first, second);
    assert_eq!(first.len(), 2);
    assert_eq!(first[0].serial, "serial1");
    assert_eq!(first[1].serial, "serial2");
    assert_eq!(first[1].state, "unauthorized");
}

#[test]
fn parse_devices_empty_listing() {
    let adb = Adb::new(String::from("adb"));
    assert_eq!(adb.parse_devices("").unwrap().len(), 0);
    assert_eq!(adb.parse_devices("List of devices attached\n").unwrap().len(), 0);
}

#[test]
fn parse_devices_repeated_key_takes_last_value() {
    let adb = Adb::new(String::from("adb"));
    let output = "header\nserialX device model:First model:Second unknown:zzz\n";
    let devices = adb.parse_devices(output).unwrap();
    assert_eq!(devices.len(), 1);
    assert_eq!(devices[0].model.as_deref(), Some("Second"));
    assert_eq!(devices[0].product, None);
}

#[test]
fn route_table_wlan_line_yields_source_address() {
    let adb = Adb::new(String::from("adb"));
    let output = "192.168.1.0/24 dev wlan0 proto kernel scope link src 192.168.1.100";
    assert_eq!(adb.get_device_ip(output).unwrap(), "192.168.1.100");
}

#[test]
fn route_table_without_wireless_tag_is_not_found() {
    let adb = Adb::new(String::from("adb"));
    let output = "169.254.0.0/16 dev eth0 scope link src 169.254.10.5";
    assert!(adb.get_device_ip(output).is_err());
}

#[test]
fn route_table_wlan_line_without_source_is_not_found() {
    let adb = Adb::new(String::from("adb"));
    let output = "192.168.1.0/24 dev wlan0 proto kernel scope link";
    assert!(adb.get_device_ip(output).is_err());
}

#[test]
fn route_table_falls_back_to_global_source_address() {
    let adb = Adb::new(String::from("adb"));
    let output = "127.0.0.0/8 dev lo scope link src 127.0.0.1\n10.0.0.0/24 dev eth0 scope link src 10.0.0.7";
    assert_eq!(adb.get_device_ip(output).unwrap(), "10.0.0.7");
}

#[test]
fn route_table_prefers_wireless_over_earlier_fallback() {
    let adb = Adb::new(String::from("adb"));
    let output = "10.0.0.0/24 dev eth0 scope link src 10.0.0.7\n192.168.1.0/24 dev WLAN0 scope link src 192.168.1.9";
    assert_eq!(adb.get_device_ip(output).unwrap(), "192.168.1.9");
}

#[test]
fn wireless_serial_roundtrip() {
    let record = scrcpygui::adb::AdbDevice {
        serial: String::from("198.51.100.7:5555"),
        state: String::from("device"),
        product: None,
        model: Some(String::from("Pixel_7")),
        device: None,
        transport_id: None,
    };
    let d = build_device(&record, None);
    assert_eq!(d.connection_type, ConnectionType::Wireless);
    assert_eq!(d.ip_address.as_deref(), Some("198.51.100.7"));
    assert_eq!(d.model, "Pixel_7");
    assert_eq!(d.name, "Pixel 7");
}

#[test]
fn usb_serial_has_no_address() {
    let record = scrcpygui::adb::AdbDevice {
        serial: String::from("R3CN70ABCDE"),
        state: String::from("device"),
        product: None,
        model: Some(String::from("SM-G990")),
        device: None,
        transport_id: None,
    };
    let d = build_device(&record, None);
    assert_eq!(d.connection_type, ConnectionType::USB);
    assert_eq!(d.ip_address, None);
}

#[test]
fn unauthorized_device_skips_lookup_and_is_unauthorized() {
    let record = scrcpygui::adb::AdbDevice {
        serial: String::from("R3CN70ABCDE"),
        state: String::from("unauthorized"),
        product: None,
        model: None,
        device: None,
        transport_id: None,
    };
    assert!(!needs_model_lookup(&record));
    let d = build_device(&record, None);
    assert!(matches!(d.status, DeviceStatus::Unauthorized));
    assert_eq!(d.name, "Unknown Device");
}

#[test]
fn connected_device_without_model_fields_needs_lookup() {
    let record = scrcpygui::adb::AdbDevice {
        serial: String::from("SER1"),
        state: String::from("device"),
        product: None,
        model: None,
        device: None,
        transport_id: None,
    };
    assert!(needs_model_lookup(&record));
    let with_lookup = build_device(&record, Some(String::from("Nexus_5")));
    assert_eq!(with_lookup.model, "Nexus_5");
    assert_eq!(with_lookup.name, "Nexus 5");
    let without_lookup = build_device(&record, None);
    assert_eq!(without_lookup.model, "Unknown");
    assert_eq!(without_lookup.name, "Unknown Device");
}

#[test]
fn enumerate_maps_each_record() {
    let adb = Adb::new(String::from("adb"));
    let output = "header\nabc device model:M1\n1.2.3.4:5555 offline\n";
    let records = adb.parse_devices(output).unwrap();
    let lookups = vec![None, None];
    let devices = enumerate(&records, &lookups);
    assert_eq!(devices.len(), 2);
    assert_eq!(devices[0].id, "abc");
    assert!(matches!(devices[0].status, DeviceStatus::Connected));
    assert_eq!(devices[1].id, "1.2.3.4:5555");
    assert!(matches!(devices[1].status, DeviceStatus::Offline));
    assert_eq!(devices[1].ip_address.as_deref(), Some("1.2.3.4"));
}

#[test]
fn interpret_output_trims_error_text() {
    assert_eq!(
        interpret_output(true, String::from("out"), "ignored").unwrap(),
        "out"
    );
    let err = interpret_output(false, String::new(), "  device offline \n").unwrap_err();
    assert_eq!(err, "ADB command failed: device offline");
}

#[test]
fn availability_maps_version_outcome() {
    let adb = Adb::new(String::from("adb"));
    assert_eq!(adb.check_availability(Ok(String::from("1.0"))).unwrap(), true);
    let err = adb
        .check_availability(Err(String::from("no such file")))
        .unwrap_err();
    assert_eq!(err, "ADB not available: no such file");
}

#[test]
fn prop_value_is_trimmed() {
    assert_eq!(prop_value(" Pixel 7\r\n"), "Pixel 7");
}
