use android_hub_core::cli::{
    check_cameras, check_dependencies, check_modules, check_webcam, list_cameras_args, CliError,
};
use android_hub_core::protocol::{write_header, AudioFormat, ProtocolError};
use android_hub_core::session::{
    load_sink_args, setup_begin, setup_event_fits, setup_step, unload_sink_args, webcam_args,
    writer_args, SetupAction, SetupError, SetupEvent, SetupStage, CONNECT_ATTEMPTS,
};

fn strings(parts: &[&str]) -> Vec<String> {
    parts.iter().map(|p| p.to_string()).collect()
}

fn header(format: AudioFormat) -> Vec<u8> {
    let mut b = Vec::new();
    write_header(&mut b, format);
    b
}

#[test]
fn setup_runs_to_the_receiver() {
    let (stage, action) = setup_begin();
    assert_eq!(action, SetupAction::LoadSink);
    let event = SetupEvent::SinkLoaded { stdout: " 536870913\n".to_string() };
    assert!(setup_event_fits(stage, &event));
    let (stage, action) = setup_step(stage, &event);
    assert_eq!(stage, SetupStage::SpawnWriter { sink: 536870913 });
    assert_eq!(action, SetupAction::SpawnWriter);
    let (stage, action) = setup_step(stage, &SetupEvent::WriterStarted);
    assert_eq!(action, SetupAction::Forward);
    let (stage, action) = setup_step(stage, &SetupEvent::Forwarded);
    assert_eq!(action, SetupAction::Connect);
    let (stage, action) = setup_step(stage, &SetupEvent::Connected);
    assert_eq!(action, SetupAction::ReadHeader);
    let (stage, action) = setup_step(
        stage,
        &SetupEvent::HeaderReceived { bytes: header(AudioFormat::pcm_48k_mono()) },
    );
    assert_eq!(action, SetupAction::OpenPipe);
    let (stage, action) = setup_step(stage, &SetupEvent::PipeOpened);
    assert_eq!(stage, SetupStage::Running { sink: 536870913 });
    assert_eq!(action, SetupAction::StartReceiver);
    assert!(!setup_event_fits(stage, &SetupEvent::Connected));
}

#[test]
fn setup_failures_before_the_sink_exists_clean_nothing() {
    let (start, _) = setup_begin();
    let plain = |error| SetupAction::Abort { error, cleanup_sink: None, cleanup_forward: false, wait_ms: 0 };
    assert_eq!(setup_step(start, &SetupEvent::PactlMissing).1, plain(SetupError::PactlMissing));
    assert_eq!(setup_step(start, &SetupEvent::SinkRejected).1, plain(SetupError::SinkRejected));
    assert_eq!(
        setup_step(start, &SetupEvent::SinkLoaded { stdout: "sink".into() }).1,
        plain(SetupError::BadModuleId)
    );
}

#[test]
fn setup_failures_once_the_sink_exists_clean_up() {
    let cleaning = |error| SetupAction::Abort {
        error,
        cleanup_sink: Some(3),
        cleanup_forward: true,
        wait_ms: 0,
    };
    assert_eq!(
        setup_step(SetupStage::SpawnWriter { sink: 3 }, &SetupEvent::WriterMissing),
        (
            SetupStage::Failed,
            SetupAction::Abort {
                error: SetupError::WriterMissing,
                cleanup_sink: Some(3),
                cleanup_forward: false,
                wait_ms: 0,
            }
        )
    );
    assert_eq!(
        setup_step(SetupStage::OpenPipe { sink: 3 }, &SetupEvent::PipeMissing),
        (SetupStage::Failed, cleaning(SetupError::PipeMissing))
    );
}

#[test]
fn setup_failures_after_forwarding_clean_up() {
    let cleaning = |error| SetupAction::Abort {
        error,
        cleanup_sink: Some(7),
        cleanup_forward: true,
        wait_ms: 0,
    };
    assert_eq!(
        setup_step(SetupStage::Forward { sink: 7 }, &SetupEvent::ForwardRefused).1,
        cleaning(SetupError::ForwardFailed)
    );
    assert_eq!(
        setup_step(SetupStage::Handshake { sink: 7 }, &SetupEvent::HeaderUnreadable).1,
        cleaning(SetupError::HeaderUnreadable)
    );
    assert_eq!(
        setup_step(SetupStage::Handshake { sink: 7 }, &SetupEvent::HeaderReceived { bytes: vec![1, 2] }).1,
        cleaning(SetupError::Header(ProtocolError::UnexpectedEof))
    );
    let other = AudioFormat { sample_rate: 16_000, channels: 1, codec: 1 };
    assert_eq!(
        setup_step(SetupStage::Handshake { sink: 7 }, &SetupEvent::HeaderReceived { bytes: header(other) }).1,
        cleaning(SetupError::UnsupportedFormat)
    );
}

#[test]
fn connection_is_tried_twenty_times() {
    let mut stage = SetupStage::Connect { sink: 4, failures: 0 };
    let mut retries = 0;
    loop {
        let (next, action) = setup_step(stage, &SetupEvent::ConnectRefused);
        match action {
            SetupAction::RetryConnect { wait_ms } => {
                assert_eq!(wait_ms, 150);
                retries += 1;
                stage = next;
            }
            SetupAction::Abort { error, cleanup_sink, cleanup_forward, wait_ms } => {
                assert!(cleanup_forward);
                assert_eq!(error, SetupError::ServiceNotReady);
                assert_eq!(cleanup_sink, Some(4));
                assert_eq!(wait_ms, 150);
                assert_eq!(next, SetupStage::Failed);
                break;
            }
            other => panic!("unexpected action {other:?}"),
        }
    }
    assert_eq!(retries + 1, CONNECT_ATTEMPTS);
}

#[test]
fn setup_error_messages() {
    assert_eq!(
        SetupError::SinkRejected.message("no module"),
        "Could not create PipeWire sink: no module"
    );
    assert_eq!(SetupError::ForwardFailed.message("adb error: x"), "adb error: x");
    assert_eq!(
        SetupError::ServiceNotReady.message(""),
        "Android microphone service is not ready. Open Android Hub and grant microphone permission."
    );
    assert_eq!(
        SetupError::Header(ProtocolError::InvalidSampleRate).message(""),
        "invalid sample rate"
    );
    assert_eq!(
        SetupError::UnsupportedFormat.message(""),
        "Android sent an unsupported audio format"
    );
}

#[test]
fn command_argument_lists() {
    assert_eq!(
        load_sink_args(),
        strings(&[
            "load-module",
            "module-null-sink",
            "sink_name=android_hub_mic",
            "sink_properties=device.description=Android_Hub_Microphone",
        ])
    );
    assert_eq!(unload_sink_args(536870913), strings(&["unload-module", "536870913"]));
    assert_eq!(writer_args().len(), 11);
    assert_eq!(writer_args()[5], "48000");
    assert_eq!(
        webcam_args("S", "/dev/video10", "front"),
        strings(&[
            "--serial",
            "S",
            "--video-source=camera",
            "--no-audio",
            "--no-video-playback",
            "--camera-facing",
            "front",
            "--camera-size=1280x720",
            "--camera-fps=30",
            "--v4l2-sink",
            "/dev/video10",
        ])
    );
    assert_eq!(list_cameras_args("S"), strings(&["--serial", "S", "--list-cameras"]));
}

#[test]
fn start_checks() {
    assert_eq!(check_modules(false, false), Err(CliError::NoModule));
    assert_eq!(check_modules(true, false), Ok(()));
    assert_eq!(check_modules(false, true), Ok(()));
    assert_eq!(check_webcam(false, None, false), Ok(()));
    assert_eq!(check_webcam(true, None, true), Err(CliError::WebcamNeedsAndroid12));
    assert_eq!(check_webcam(true, Some(30), false), Err(CliError::WebcamNeedsAndroid12));
    assert_eq!(check_webcam(true, Some(31), false), Err(CliError::SinkMissing));
    assert_eq!(check_webcam(true, Some(31), true), Ok(()));
    assert_eq!(check_cameras(Some(30)), Err(CliError::CamerasNeedAndroid12));
    assert_eq!(check_cameras(None), Err(CliError::CamerasNeedAndroid12));
    assert_eq!(check_cameras(Some(34)), Ok(()));
    assert_eq!(check_dependencies(&[true, true]), Ok(()));
    assert_eq!(check_dependencies(&[]), Ok(()));
    assert_eq!(check_dependencies(&[true, false, true]), Err(CliError::DependenciesMissing));
    assert_eq!(
        CliError::SinkMissing.message("/dev/video10"),
        "/dev/video10 does not exist. Provision v4l2loopback first."
    );
    assert_eq!(
        CliError::ApkMissing.message("a.apk"),
        "APK not found at a.apk. Build it with ./gradlew :app:assembleDebug from android/."
    );
}
