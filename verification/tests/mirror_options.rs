use scrcpygui::adb::Adb;
use scrcpygui::catalog::{remove_device, upsert_device, ConnectionType, Device, DeviceStatus};
use scrcpygui::mirror::{interpret_version_output, scrcpy_args, ScrcpyOptions, Settings};

#[test]
fn test_default_options() {
    let options = ScrcpyOptions::default();
    assert_eq!(options.max_size, Some(1920));
    assert_eq!(options.bit_rate, Some(8000000));
    assert_eq!(options.max_fps, Some(60));
    assert_eq!(options.stay_awake, true);
}

#[test]
fn scrcpy_args_map_every_option_exactly() {
    let options = ScrcpyOptions::default();
    let args = scrcpy_args(Some("SER1"), &options);
    assert_eq!(
        args,
        vec![
            "-s",
            "SER1",
            "--max-size",
            "1920",
            "--video-bit-rate",
            "8000000",
            "--max-fps",
            "60",
            "--stay-awake",
        ]
    );

    let all_flags = ScrcpyOptions {
        max_size: None,
        bit_rate: None,
        max_fps: None,
        always_on_top: true,
        stay_awake: false,
        turn_screen_off: true,
    };
    let args = scrcpy_args(None, &all_flags);
    assert_eq!(args, vec!["--always-on-top", "--turn-screen-off"]);

    let none_set = ScrcpyOptions {
        max_size: None,
        bit_rate: None,
        max_fps: None,
        always_on_top: false,
        stay_awake: false,
        turn_screen_off: false,
    };
    assert!(scrcpy_args(None, &none_set).is_empty());
}

#[test]
fn scrcpy_args_render_large_values() {
    let options = ScrcpyOptions {
        max_size: Some(u32::MAX),
        bit_rate: None,
        max_fps: None,
        always_on_top: false,
        stay_awake: false,
        turn_screen_off: false,
    };
    assert_eq!(scrcpy_args(None, &options), vec!["--max-size", "4294967295"]);
}

#[test]
fn connect_invocation_renders_port() {
    let adb = Adb::new(String::from("adb"));
    let inv = adb.connect("192.168.1.7", 65535);
    assert_eq!(inv.program, "adb");
    assert_eq!(inv.args, vec!["connect", "192.168.1.7:65535"]);
}

#[test]
fn invocations_carry_exact_arguments() {
    let adb = Adb::new(String::from("/opt/tools/adb"));
    assert_eq!(adb.devices().args, vec!["devices", "-l"]);
    assert_eq!(adb.version().args, vec!["version"]);
    assert_eq!(adb.start_server().args, vec!["start-server"]);
    assert_eq!(adb.kill_server().args, vec!["kill-server"]);
    assert_eq!(adb.disconnect("1.2.3.4:5555").args, vec!["disconnect", "1.2.3.4:5555"]);
    assert_eq!(adb.disconnect_all().args, vec!["disconnect"]);
    assert_eq!(
        adb.tcpip(Some("SER1"), 5555).args,
        vec!["-s", "SER1", "tcpip", "5555"]
    );
    assert_eq!(adb.tcpip(None, 5555).args, vec!["tcpip", "5555"]);
    assert_eq!(
        adb.shell(Some("SER1"), "ls").args,
        vec!["-s", "SER1", "shell", "ls"]
    );
    assert_eq!(
        adb.get_prop(Some("SER1"), "ro.product.model").args,
        vec!["-s", "SER1", "shell", "getprop ro.product.model"]
    );
    assert_eq!(
        adb.get_model(None).args,
        vec!["shell", "getprop ro.product.model"]
    );
    assert_eq!(
        adb.get_manufacturer(None).args,
        vec!["shell", "getprop ro.product.manufacturer"]
    );
    assert_eq!(
        adb.get_android_version(None).args,
        vec!["shell", "getprop ro.build.version.release"]
    );
    assert_eq!(
        adb.route_table(Some("SER1")).args,
        vec!["-s", "SER1", "shell", "ip", "route"]
    );
}

#[test]
fn version_output_interpretation() {
    assert_eq!(
        interpret_version_output(true, "scrcpy 2.4 <https>\n", "").unwrap(),
        "scrcpy 2.4 <https>"
    );
    assert_eq!(
        interpret_version_output(false, "", "missing library").unwrap_err(),
        "Scrcpy error: missing library"
    );
}

#[test]
fn settings_defaults() {
    let s = Settings::default();
    assert_eq!(s.resolution, "default");
    assert_eq!(s.bitrate, 8_000_000);
    assert_eq!(s.max_fps, 60);
    assert!(!s.always_on_top);
    assert!(s.stay_awake);
    assert!(!s.turn_screen_off);
}

fn saved(id: &str, name: &str) -> Device {
    Device {
        id: String::from(id),
        name: String::from(name),
        model: String::from(name),
        connection_type: ConnectionType::USB,
        status: DeviceStatus::Disconnected,
        ip_address: None,
    }
}

#[test]
fn saved_devices_upsert_and_remove() {
    let mut list: Vec<Device> = Vec::new();
    upsert_device(&mut list, saved("a", "First"));
    upsert_device(&mut list, saved("b", "Second"));
    assert_eq!(list.len(), 2);

    upsert_device(&mut list, saved("a", "Renamed"));
    assert_eq!(list.len(), 2);
    assert_eq!(list[0].name, "Renamed");

    assert!(remove_device(&mut list, "a"));
    assert_eq!(list.len(), 1);
    assert_eq!(list[0].id, "b");
    assert!(!remove_device(&mut list, "a"));
    assert_eq!(list.len(), 1);
}
