use android_hub_core::{select_device, Device, SelectError};

fn device(serial: &str) -> Device {
    Device {
        serial: serial.into(),
        state: "device".into(),
        model: None,
        android_version: None,
    }
}

fn device_in_state(serial: &str, state: &str) -> Device {
    Device {
        serial: serial.into(),
        state: state.into(),
        model: Some(format!("model-{serial}")),
        android_version: Some(33),
    }
}

#[test]
fn picks_the_only_ready_device() {
    assert_eq!(select_device(&[device("a")], None).unwrap().serial, "a");
}

#[test]
fn requires_serial_for_multiple_devices() {
    assert!(select_device(&[device("a"), device("b")], None).is_err());
}

#[test]
fn requested_device_is_selected() {
    assert_eq!(
        select_device(&[device("a"), device("b")], Some("b"))
            .unwrap()
            .serial,
        "b"
    );
}

#[test]
fn ready_checks_the_state() {
    assert!(device("a").ready());
    assert!(!device_in_state("a", "unauthorized").ready());
    assert!(!device_in_state("a", "Device").ready());
    assert!(!device_in_state("a", "device ").ready());
}

#[test]
fn missing_requested_device_is_reported_with_its_serial() {
    let err = select_device(&[device("a")], Some("zz")).unwrap_err();
    assert_eq!(err, SelectError::NotFound("zz".to_string()));
    assert_eq!(err.message(), "Android device 'zz' was not found");
}

#[test]
fn requested_device_may_be_unready() {
    let devices = [device_in_state("x", "offline"), device("y")];
    let picked = select_device(&devices, Some("x")).unwrap();
    assert_eq!(picked, devices[0]);
}

#[test]
fn first_of_duplicate_serials_is_selected() {
    let devices = [device_in_state("d", "offline"), device("d")];
    assert_eq!(select_device(&devices, Some("d")).unwrap().state, "offline");
}

#[test]
fn no_ready_device_is_an_error() {
    let devices = [device_in_state("a", "unauthorized"), device_in_state("b", "offline")];
    let err = select_device(&devices, None).unwrap_err();
    assert_eq!(err, SelectError::NoAuthorizedDevice);
    assert_eq!(
        err.message(),
        "No authorized Android device found. Enable USB debugging and accept the RSA prompt."
    );
    assert_eq!(select_device(&[], None).unwrap_err(), SelectError::NoAuthorizedDevice);
}

#[test]
fn the_single_ready_device_among_unready_ones_is_selected() {
    let devices = [
        device_in_state("a", "unauthorized"),
        device_in_state("b", "device"),
        device_in_state("c", "offline"),
    ];
    assert_eq!(select_device(&devices, None).unwrap(), devices[1]);
}

#[test]
fn several_ready_devices_are_an_error() {
    let err = select_device(&[device("a"), device("b")], None).unwrap_err();
    assert_eq!(err, SelectError::MultipleDevices);
    assert_eq!(
        err.message(),
        "More than one Android device is connected. Pass --device SERIAL."
    );
}
