use scrcpygui::catalog::{ConnectionType, Device, DeviceStatus};
use scrcpygui::reconnect::{
    classify_connect_response, classify_disconnect_response, exhausted_message,
    is_unknown_device_error, reconnect_begin, run_reconnect, select_candidate,
    switch_failure_message, ConnectOutcome, ReconnectProbe,
};

fn usb_device(id: &str, model: &str) -> Device {
    Device {
        id: String::from(id),
        name: String::from(model),
        model: String::from(model),
        connection_type: ConnectionType::USB,
        status: DeviceStatus::Connected,
        ip_address: None,
    }
}

fn wireless_device(id: &str, model: &str) -> Device {
    Device {
        id: String::from(id),
        name: String::from(model),
        model: String::from(model),
        connection_type: ConnectionType::Wireless,
        status: DeviceStatus::Connected,
        ip_address: Some(String::from("192.0.2.1")),
    }
}

fn empty_probe() -> ReconnectProbe {
    ReconnectProbe { devices: Vec::new(), route_ip: None }
}

#[test]
fn connect_classification_covers_every_family() {
    assert_eq!(
        classify_connect_response("connected to 192.168.1.5:5555"),
        ConnectOutcome::Success
    );
    assert_eq!(
        classify_connect_response("already connected to 192.168.1.5:5555"),
        ConnectOutcome::Success
    );
    match classify_connect_response("unable to connect to 192.168.1.5:5555") {
        ConnectOutcome::Unreachable(m) => assert!(m.contains("same network")),
        other => panic!("expected unreachable, got {:?}", other),
    }
    match classify_connect_response("connection refused") {
        ConnectOutcome::Unreachable(_) => {}
        other => panic!("expected unreachable, got {:?}", other),
    }
    match classify_connect_response("operation timeout") {
        ConnectOutcome::TimedOut(m) => assert!(m.contains("router")),
        other => panic!("expected timeout, got {:?}", other),
    }
    match classify_connect_response("some new wording") {
        ConnectOutcome::Unknown(m) => assert_eq!(m, "some new wording"),
        other => panic!("expected unknown, got {:?}", other),
    }
}

#[test]
fn disconnect_classification() {
    assert_eq!(
        classify_disconnect_response("disconnected 192.168.1.5:5555").unwrap(),
        true
    );
    let err = classify_disconnect_response("error: no such device").unwrap_err();
    assert_eq!(err, "Failed to disconnect: error: no such device");
}

#[test]
fn switch_failure_distinguishes_unknown_device() {
    assert!(is_unknown_device_error("adb: device 'X' Not Found"));
    assert!(!is_unknown_device_error("device unauthorized"));
    let guidance = switch_failure_message("adb: device 'X' not found");
    assert!(guidance.contains("refresh the device list"));
    assert_eq!(
        switch_failure_message("some other failure"),
        "some other failure"
    );
}

#[test]
fn reconnect_state_schedule() {
    let mut st = reconnect_begin("SER1", Some(String::from("Pixel 7")));
    assert_eq!(st.next_delay(), 1500);
    assert!(st.can_probe());
    st.record_probe();
    assert_eq!(st.next_delay(), 500);
    for _ in 0..4 {
        assert!(st.can_probe());
        st.record_probe();
    }
    assert!(!st.can_probe());

    let tolerant = reconnect_begin("SER1", None);
    assert_eq!(tolerant.snapshot_model, "");
}

#[test]
fn candidate_selection_matches_serial_model_or_lone_usb() {
    let by_serial = vec![wireless_device("w1", "Other"), usb_device("SER1", "Other")];
    assert_eq!(
        select_candidate(&by_serial, "SER1", "Pixel 7").unwrap(),
        "SER1"
    );

    let by_model = vec![usb_device("NEW9", "Pixel 7"), usb_device("NEW8", "Pixel 7")];
    assert_eq!(
        select_candidate(&by_model, "SER1", "Pixel 7").unwrap(),
        "NEW9"
    );

    let lone = vec![wireless_device("w1", "A"), usb_device("NEW9", "Unrelated")];
    assert_eq!(select_candidate(&lone, "SER1", "Pixel 7").unwrap(), "NEW9");

    let ambiguous = vec![usb_device("NEW9", "A"), usb_device("NEW8", "B")];
    assert_eq!(select_candidate(&ambiguous, "SER1", "Pixel 7"), None);

    let none: Vec<Device> = vec![wireless_device("w1", "A")];
    assert_eq!(select_candidate(&none, "SER1", "Pixel 7"), None);
}

#[test]
fn reconnection_finds_single_usb_device_before_budget_runs_out() {
    let probes = vec![
        empty_probe(),
        empty_probe(),
        ReconnectProbe {
            devices: vec![usb_device("NEWSERIAL", "Pixel 7")],
            route_ip: Some(String::from("192.168.1.42")),
        },
        empty_probe(),
        empty_probe(),
    ];
    let ip = run_reconnect("OLDSERIAL", "Pixel 7", &probes).unwrap();
    assert_eq!(ip, "192.168.1.42");
}

#[test]
fn reconnection_exhausts_after_five_fruitless_probes() {
    let probes = vec![
        empty_probe(),
        empty_probe(),
        empty_probe(),
        empty_probe(),
        empty_probe(),
    ];
    let err = run_reconnect("OLDSERIAL", "Pixel 7", &probes).unwrap_err();
    assert_eq!(err, exhausted_message());
}

#[test]
fn reconnection_keeps_polling_when_route_lookup_fails() {
    let probes = vec![
        ReconnectProbe {
            devices: vec![usb_device("NEWSERIAL", "Pixel 7")],
            route_ip: None,
        },
        ReconnectProbe {
            devices: vec![usb_device("NEWSERIAL", "Pixel 7")],
            route_ip: Some(String::from("10.1.2.3")),
        },
        empty_probe(),
        empty_probe(),
        empty_probe(),
    ];
    assert_eq!(run_reconnect("OLDSERIAL", "Pixel 7", &probes).unwrap(), "10.1.2.3");
}
