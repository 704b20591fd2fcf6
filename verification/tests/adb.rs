use android_hub_core::adb::{
    devices, forward, install, list_devices, parse_android_version, query_android_version,
    remove_forward, start_mic_service, tcp_endpoint, version_queries, with_android_versions,
    AdbInvocation,
};
use android_hub_core::Device;

fn strings(parts: &[&str]) -> Vec<String> {
    parts.iter().map(|p| p.to_string()).collect()
}

#[test]
fn listing_is_parsed_line_by_line() {
    let listing = "List of devices attached\n\
R58M123 device usb:1-1 product:beyond model:SM_G973F device:beyond transport_id:1\n\
emulator-5554\tunauthorized transport_id:2\n\
\n\
   \t \n\
ZX1 offline";
    let found = devices(listing);
    assert_eq!(
        found,
        vec![
            Device {
                serial: "R58M123".into(),
                state: "device".into(),
                model: Some("SM_G973F".into()),
                android_version: None,
            },
            Device {
                serial: "emulator-5554".into(),
                state: "unauthorized".into(),
                model: None,
                android_version: None,
            },
            Device {
                serial: "ZX1".into(),
                state: "offline".into(),
                model: None,
                android_version: None,
            },
        ]
    );
}

#[test]
fn listing_without_devices_is_empty() {
    assert!(devices("").is_empty());
    assert!(devices("List of devices attached").is_empty());
    assert!(devices("List of devices attached\n").is_empty());
}

#[test]
fn listing_handles_crlf_and_short_lines() {
    let found = devices("header\r\nabc\r\nmodel:X y model:Z\r\n");
    assert_eq!(found.len(), 2);
    assert_eq!(found[0].serial, "abc");
    assert_eq!(found[0].state, "");
    assert_eq!(found[0].model, None);
    assert_eq!(found[1].serial, "model:X");
    assert_eq!(found[1].state, "y");
    assert_eq!(found[1].model, Some("X".to_string()));
}

#[test]
fn empty_model_is_kept() {
    let found = devices("h\ns device model:");
    assert_eq!(found[0].model, Some(String::new()));
}

#[test]
fn android_version_reply_is_parsed_as_u32() {
    assert_eq!(parse_android_version("34"), Some(34));
    assert_eq!(parse_android_version("+31"), Some(31));
    assert_eq!(parse_android_version("0031"), Some(31));
    assert_eq!(parse_android_version(""), None);
    assert_eq!(parse_android_version("+"), None);
    assert_eq!(parse_android_version("-1"), None);
    assert_eq!(parse_android_version("3 4"), None);
    assert_eq!(parse_android_version("4294967296"), None);
    assert_eq!(parse_android_version("4294967295"), Some(u32::MAX));
}

#[test]
fn invocations_carry_the_exact_arguments() {
    assert_eq!(
        list_devices(),
        AdbInvocation { serial: None, args: strings(&["devices", "-l"]) }
    );
    assert_eq!(
        query_android_version("S1"),
        AdbInvocation {
            serial: Some("S1".into()),
            args: strings(&["shell", "getprop", "ro.build.version.sdk"]),
        }
    );
    assert_eq!(
        forward("S1", 61394, 7),
        AdbInvocation {
            serial: Some("S1".into()),
            args: strings(&["forward", "tcp:61394", "tcp:7"]),
        }
    );
    assert_eq!(
        remove_forward("S1", 0),
        AdbInvocation {
            serial: Some("S1".into()),
            args: strings(&["forward", "--remove", "tcp:0"]),
        }
    );
    assert_eq!(
        start_mic_service("S1"),
        AdbInvocation {
            serial: Some("S1".into()),
            args: strings(&[
                "shell",
                "am",
                "start-foreground-service",
                "-n",
                "dev.androidhub/.MicStreamService",
            ]),
        }
    );
    assert_eq!(
        install("S1", "/tmp/app.apk"),
        AdbInvocation {
            serial: Some("S1".into()),
            args: strings(&["install", "-r", "/tmp/app.apk"]),
        }
    );
}

#[test]
fn tcp_endpoints_use_decimal_ports() {
    for port in [0u16, 9, 10, 99, 100, 61394, u16::MAX] {
        assert_eq!(tcp_endpoint(port), format!("tcp:{port}"));
    }
}

#[test]
fn only_ready_devices_are_asked_for_their_version() {
    let found = devices("h\nA device\nB unauthorized\nC device\nD device");
    let queries = version_queries(&found);
    assert_eq!(
        queries,
        vec![
            Some(query_android_version("A")),
            None,
            Some(query_android_version("C")),
            Some(query_android_version("D")),
        ]
    );
    let replies = vec![Some("33".to_string()), Some("31".to_string()), None, Some("x".to_string())];
    let versioned = with_android_versions(&found, &replies);
    assert_eq!(versioned.len(), 4);
    assert_eq!(versioned[0].android_version, Some(33));
    assert_eq!(versioned[0].serial, "A");
    assert_eq!(versioned[0].state, "device");
    assert_eq!(versioned[1].android_version, None);
    assert_eq!(versioned[2].android_version, None);
    assert_eq!(versioned[3].android_version, None);
    let short = with_android_versions(&found, &[Some("30".to_string())]);
    assert_eq!(short[0].android_version, Some(30));
    assert_eq!(short[2].android_version, None);
}
