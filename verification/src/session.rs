//! Decisions of a microphone and webcam session: the commands it runs and
//! the order in which the microphone bridge is set up and torn down.
use vstd::prelude::*;

use crate::protocol::{header_spec, read_header, AudioFormat, ProtocolError};
use crate::text::{is_digit, is_ws, lemma_decimal_digits, lemma_parse_decimal_roundtrip, trim_end, trim_start, decimal, decimal_string, parse_u32, parse_u32_spec, trim, trimmed};

verus! {

/// Device-side TCP port of the microphone service.
pub const MIC_DEVICE_PORT: u16 = 61_394;

/// Host-side TCP port forwarded to the microphone service.
pub const MIC_HOST_PORT: u16 = 61_394;

/// How many times the bridge tries to reach the microphone service.
pub const CONNECT_ATTEMPTS: u32 = 20;

/// Pause after each refused connection, in milliseconds.
pub const CONNECT_RETRY_MS: u32 = 150;

/// The `pactl` arguments that create the null sink the microphone plays into.
pub fn load_sink_args() -> (r: Vec<String>)
    ensures
        r.deep_view() == seq![
            "load-module"@,
            "module-null-sink"@,
            "sink_name=android_hub_mic"@,
            "sink_properties=device.description=Android_Hub_Microphone"@,
        ],
{
    let mut r: Vec<String> = Vec::new();
    r.push("load-module".to_owned());
    r.push("module-null-sink".to_owned());
    r.push("sink_name=android_hub_mic".to_owned());
    r.push("sink_properties=device.description=Android_Hub_Microphone".to_owned());
    assert(r.deep_view() =~= seq![
        "load-module"@,
        "module-null-sink"@,
        "sink_name=android_hub_mic"@,
        "sink_properties=device.description=Android_Hub_Microphone"@,
    ]);
    r
}

/// The `pactl` arguments that remove the null sink with module id `sink`.
pub fn unload_sink_args(sink: u32) -> (r: Vec<String>)
    ensures
        r.deep_view() == seq!["unload-module"@, decimal(sink as nat)],
{
    let mut r: Vec<String> = Vec::new();
    r.push("unload-module".to_owned());
    r.push(decimal_string(sink));
    assert(r.deep_view() =~= seq!["unload-module"@, decimal(sink as nat)]);
    r
}

/// The `pw-cat` arguments that play 48 kHz mono 16-bit PCM from standard
/// input into the null sink.
pub fn writer_args() -> (r: Vec<String>)
    ensures
        r.deep_view() == seq![
            "--playback"@,
            "--raw"@,
            "--format"@,
            "s16"@,
            "--rate"@,
            "48000"@,
            "--channels"@,
            "1"@,
            "--target"@,
            "android_hub_mic"@,
            "-"@,
        ],
{
    let mut r: Vec<String> = Vec::new();
    r.push("--playback".to_owned());
    r.push("--raw".to_owned());
    r.push("--format".to_owned());
    r.push("s16".to_owned());
    r.push("--rate".to_owned());
    r.push("48000".to_owned());
    r.push("--channels".to_owned());
    r.push("1".to_owned());
    r.push("--target".to_owned());
    r.push("android_hub_mic".to_owned());
    r.push("-".to_owned());
    assert(r.deep_view() =~= seq![
        "--playback"@,
        "--raw"@,
        "--format"@,
        "s16"@,
        "--rate"@,
        "48000"@,
        "--channels"@,
        "1"@,
        "--target"@,
        "android_hub_mic"@,
        "-"@,
    ]);
    r
}

/// The `scrcpy` arguments that stream a device camera into a v4l2 sink.
pub fn webcam_args(serial: &str, v4l2_sink: &str, camera: &str) -> (r: Vec<String>)
    ensures
        r.deep_view() == seq![
            "--serial"@,
            serial@,
            "--video-source=camera"@,
            "--no-audio"@,
            "--no-video-playback"@,
            "--camera-facing"@,
            camera@,
            "--camera-size=1280x720"@,
            "--camera-fps=30"@,
            "--v4l2-sink"@,
            v4l2_sink@,
        ],
{
    let mut r: Vec<String> = Vec::new();
    r.push("--serial".to_owned());
    r.push(serial.to_owned());
    r.push("--video-source=camera".to_owned());
    r.push("--no-audio".to_owned());
    r.push("--no-video-playback".to_owned());
    r.push("--camera-facing".to_owned());
    r.push(camera.to_owned());
    r.push("--camera-size=1280x720".to_owned());
    r.push("--camera-fps=30".to_owned());
    r.push("--v4l2-sink".to_owned());
    r.push(v4l2_sink.to_owned());
    assert(r.deep_view() =~= seq![
        "--serial"@,
        serial@,
        "--video-source=camera"@,
        "--no-audio"@,
        "--no-video-playback"@,
        "--camera-facing"@,
        camera@,
        "--camera-size=1280x720"@,
        "--camera-fps=30"@,
        "--v4l2-sink"@,
        v4l2_sink@,
    ]);
    r
}

/// Where the set-up of the microphone bridge stands. `sink` is the
/// module id of the null sink once it exists; `failures` counts refused
/// connections to the microphone service.
#[derive(Debug, Clone, Copy, PartialEq, Eq, Structural)]
pub enum SetupStage {
    LoadSink,
    SpawnWriter { sink: u32 },
    Forward { sink: u32 },
    Connect { sink: u32, failures: u32 },
    Handshake { sink: u32 },
    OpenPipe { sink: u32 },
    Running { sink: u32 },
    Failed,
}

/// What came of the last action of the set-up.
#[derive(Debug)]
pub enum SetupEvent {
    /// `pactl` could not be run.
    PactlMissing,
    /// `pactl` ran and reported failure.
    SinkRejected,
    /// `pactl` created the sink and printed this.
    SinkLoaded { stdout: String },
    /// `pw-cat` could not be started.
    WriterMissing,
    /// `pw-cat` is running.
    WriterStarted,
    /// `adb forward` failed.
    ForwardRefused,
    /// The port is forwarded.
    Forwarded,
    /// The microphone service refused the connection.
    ConnectRefused,
    /// The connection to the microphone service is open.
    Connected,
    /// The stream header could not be read from the connection.
    HeaderUnreadable,
    /// These are the first bytes of the stream.
    HeaderReceived { bytes: Vec<u8> },
    /// `pw-cat` has no standard input to write to.
    PipeMissing,
    /// `pw-cat`'s standard input is open.
    PipeOpened,
}

/// The abstract contents of a [`SetupEvent`].
pub enum SetupEventView {
    PactlMissing,
    SinkRejected,
    SinkLoaded { stdout: Seq<char> },
    WriterMissing,
    WriterStarted,
    ForwardRefused,
    Forwarded,
    ConnectRefused,
    Connected,
    HeaderUnreadable,
    HeaderReceived { bytes: Seq<u8> },
    PipeMissing,
    PipeOpened,
}

impl View for SetupEvent {
    type V = SetupEventView;

    open spec fn view(&self) -> SetupEventView {
        match self {
            SetupEvent::PactlMissing => SetupEventView::PactlMissing,
            SetupEvent::SinkRejected => SetupEventView::SinkRejected,
            SetupEvent::SinkLoaded { stdout } => SetupEventView::SinkLoaded { stdout: stdout@ },
            SetupEvent::WriterMissing => SetupEventView::WriterMissing,
            SetupEvent::WriterStarted => SetupEventView::WriterStarted,
            SetupEvent::ForwardRefused => SetupEventView::ForwardRefused,
            SetupEvent::Forwarded => SetupEventView::Forwarded,
            SetupEvent::ConnectRefused => SetupEventView::ConnectRefused,
            SetupEvent::Connected => SetupEventView::Connected,
            SetupEvent::HeaderUnreadable => SetupEventView::HeaderUnreadable,
            SetupEvent::HeaderReceived { bytes } => SetupEventView::HeaderReceived {
                bytes: bytes@,
            },
            SetupEvent::PipeMissing => SetupEventView::PipeMissing,
            SetupEvent::PipeOpened => SetupEventView::PipeOpened,
        }
    }
}

/// Why the set-up of the microphone bridge failed.
#[derive(Debug, Clone, Copy, PartialEq, Eq, Structural)]
pub enum SetupError {
    PactlMissing,
    SinkRejected,
    BadModuleId,
    WriterMissing,
    ForwardFailed,
    ServiceNotReady,
    HeaderUnreadable,
    Header(ProtocolError),
    UnsupportedFormat,
    PipeMissing,
}

impl SetupError {
    /// The message that explains this error; `detail` is the text of the
    /// outside failure behind it (standard error of `pactl`, the adb error,
    /// or the read error), where there is one.
    pub fn message(&self, detail: &str) -> (r: String)
        ensures
            match self {
                SetupError::PactlMissing => r@
                    == "Could not run pactl; PipeWire with pipewire-pulse is required"@,
                SetupError::SinkRejected => r@ == "Could not create PipeWire sink: "@ + detail@,
                SetupError::BadModuleId => r@ == "Unexpected pactl module id"@,
                SetupError::WriterMissing => r@ == "Could not run pw-cat"@,
                SetupError::ForwardFailed => r@ == detail@,
                SetupError::ServiceNotReady => r@
                    == "Android microphone service is not ready. Open Android Hub and grant microphone permission."@,
                SetupError::HeaderUnreadable => r@ == detail@,
                SetupError::Header(e) => match e {
                    ProtocolError::UnexpectedEof => r@ == "failed to fill whole buffer"@,
                    ProtocolError::UnsupportedStream => r@
                        == "unsupported Android Hub audio stream"@,
                    ProtocolError::InvalidSampleRate => r@ == "invalid sample rate"@,
                    ProtocolError::InvalidFrameLength => r@ == "invalid audio frame length"@,
                },
                SetupError::UnsupportedFormat => r@ == "Android sent an unsupported audio format"@,
                SetupError::PipeMissing => r@ == "pw-cat did not provide stdin"@,
            },
    {
        match self {
            SetupError::PactlMissing => "Could not run pactl; PipeWire with pipewire-pulse is required".to_owned(),
            SetupError::SinkRejected => {
                let mut m = "Could not create PipeWire sink: ".to_owned();
                m.append(detail);
                m
            },
            SetupError::BadModuleId => "Unexpected pactl module id".to_owned(),
            SetupError::WriterMissing => "Could not run pw-cat".to_owned(),
            SetupError::ForwardFailed => detail.to_owned(),
            SetupError::ServiceNotReady => "Android microphone service is not ready. Open Android Hub and grant microphone permission.".to_owned(),
            SetupError::HeaderUnreadable => detail.to_owned(),
            SetupError::Header(e) => e.message().to_owned(),
            SetupError::UnsupportedFormat => "Android sent an unsupported audio format".to_owned(),
            SetupError::PipeMissing => "pw-cat did not provide stdin".to_owned(),
        }
    }
}

/// The next thing the set-up has to do.
#[derive(Debug, Clone, Copy, PartialEq, Eq, Structural)]
pub enum SetupAction {
    /// Run `pactl` with [`load_sink_args`].
    LoadSink,
    /// Start `pw-cat` with [`writer_args`].
    SpawnWriter,
    /// Run the adb forward of the microphone port.
    Forward,
    /// Connect to the forwarded port.
    Connect,
    /// Pause `wait_ms` milliseconds, then connect again.
    RetryConnect { wait_ms: u32 },
    /// Read the stream header from the connection.
    ReadHeader,
    /// Take `pw-cat`'s standard input.
    OpenPipe,
    /// Start copying frames from the connection to `pw-cat`; set-up is done.
    StartReceiver,
    /// Pause `wait_ms` milliseconds; then stop `pw-cat` if `cleanup_forward`
    /// holds, unload the sink that `cleanup_sink` names, if any, and remove
    /// the forward of the microphone port if `cleanup_forward` holds; then
    /// fail with `error`.
    Abort {
        error: SetupError,
        cleanup_sink: Option<u32>,
        cleanup_forward: bool,
        wait_ms: u32,
    },
}

/// The first stage of the set-up and its action.
pub open spec fn setup_start() -> (SetupStage, SetupAction) {
    (SetupStage::LoadSink, SetupAction::LoadSink)
}

/// Whether `event` is one that the action of `stage` can produce.
pub open spec fn event_fits(stage: SetupStage, event: SetupEventView) -> bool {
    match stage {
        SetupStage::LoadSink => event is PactlMissing || event is SinkRejected
            || event is SinkLoaded,
        SetupStage::SpawnWriter { .. } => event is WriterMissing || event is WriterStarted,
        SetupStage::Forward { .. } => event is ForwardRefused || event is Forwarded,
        SetupStage::Connect { .. } => event is ConnectRefused || event is Connected,
        SetupStage::Handshake { .. } => event is HeaderUnreadable || event is HeaderReceived,
        SetupStage::OpenPipe { .. } => event is PipeMissing || event is PipeOpened,
        SetupStage::Running { .. } => false,
        SetupStage::Failed => false,
    }
}

/// A failure that leaves nothing to clean up.
pub open spec fn abort_plain(error: SetupError) -> (SetupStage, SetupAction) {
    (SetupStage::Failed, SetupAction::Abort { error, cleanup_sink: None, cleanup_forward: false, wait_ms: 0 })
}

/// A failure after the sink was created but before `pw-cat` ran or the
/// forward was asked for: only the sink is unloaded.
pub open spec fn abort_unloading(error: SetupError, sink: u32) -> (SetupStage, SetupAction) {
    (
        SetupStage::Failed,
        SetupAction::Abort { error, cleanup_sink: Some(sink), cleanup_forward: false, wait_ms: 0 },
    )
}

/// A failure after which the sink, `pw-cat` and the forward are cleaned up.
pub open spec fn abort_cleaning(error: SetupError, sink: u32, wait_ms: u32) -> (
    SetupStage,
    SetupAction,
) {
    (SetupStage::Failed, SetupAction::Abort { error, cleanup_sink: Some(sink), cleanup_forward: true, wait_ms })
}

/// The next stage and action of the set-up after `event`. `Running` and
/// `Failed` take no event (see [`event_fits`]); the last arm only makes
/// the function total.
pub open spec fn setup_step_spec(stage: SetupStage, event: SetupEventView) -> (
    SetupStage,
    SetupAction,
) {
    match stage {
        SetupStage::LoadSink => match event {
            SetupEventView::SinkLoaded { stdout } => match parse_u32_spec(trimmed(stdout)) {
                Some(sink) => (SetupStage::SpawnWriter { sink }, SetupAction::SpawnWriter),
                None => abort_plain(SetupError::BadModuleId),
            },
            SetupEventView::SinkRejected => abort_plain(SetupError::SinkRejected),
            _ => abort_plain(SetupError::PactlMissing),
        },
        SetupStage::SpawnWriter { sink } => match event {
            SetupEventView::WriterStarted => (SetupStage::Forward { sink }, SetupAction::Forward),
            _ => abort_unloading(SetupError::WriterMissing, sink),
        },
        SetupStage::Forward { sink } => match event {
            SetupEventView::Forwarded => (
                SetupStage::Connect { sink, failures: 0 },
                SetupAction::Connect,
            ),
            _ => abort_cleaning(SetupError::ForwardFailed, sink, 0),
        },
        SetupStage::Connect { sink, failures } => match event {
            SetupEventView::Connected => (SetupStage::Handshake { sink }, SetupAction::ReadHeader),
            _ => if failures + 1 < CONNECT_ATTEMPTS {
                (
                    SetupStage::Connect { sink, failures: (failures + 1) as u32 },
                    SetupAction::RetryConnect { wait_ms: CONNECT_RETRY_MS },
                )
            } else {
                abort_cleaning(SetupError::ServiceNotReady, sink, CONNECT_RETRY_MS)
            },
        },
        SetupStage::Handshake { sink } => match event {
            SetupEventView::HeaderReceived { bytes } => match header_spec(bytes) {
                Err(e) => abort_cleaning(SetupError::Header(e), sink, 0),
                Ok(f) => if f == AudioFormat::spec_pcm_48k_mono() {
                    (SetupStage::OpenPipe { sink }, SetupAction::OpenPipe)
                } else {
                    abort_cleaning(SetupError::UnsupportedFormat, sink, 0)
                },
            },
            _ => abort_cleaning(SetupError::HeaderUnreadable, sink, 0),
        },
        SetupStage::OpenPipe { sink } => match event {
            SetupEventView::PipeOpened => (SetupStage::Running { sink }, SetupAction::StartReceiver),
            _ => abort_cleaning(SetupError::PipeMissing, sink, 0),
        },
        _ => (stage, SetupAction::Abort { error: SetupError::PipeMissing, cleanup_sink: None, cleanup_forward: false, wait_ms: 0 }),
    }
}

/// The first stage of the set-up and its action: load the sink.
pub fn setup_begin() -> (r: (SetupStage, SetupAction))
    ensures
        r == setup_start(),
{
    (SetupStage::LoadSink, SetupAction::LoadSink)
}

/// Whether `event` is one that the action of `stage` can produce.
pub fn setup_event_fits(stage: SetupStage, event: &SetupEvent) -> (r: bool)
    ensures
        r == event_fits(stage, event@),
{
    match stage {
        SetupStage::LoadSink => match event {
            SetupEvent::PactlMissing | SetupEvent::SinkRejected | SetupEvent::SinkLoaded {
                ..
            } => true,
            _ => false,
        },
        SetupStage::SpawnWriter { .. } => match event {
            SetupEvent::WriterMissing | SetupEvent::WriterStarted => true,
            _ => false,
        },
        SetupStage::Forward { .. } => match event {
            SetupEvent::ForwardRefused | SetupEvent::Forwarded => true,
            _ => false,
        },
        SetupStage::Connect { .. } => match event {
            SetupEvent::ConnectRefused | SetupEvent::Connected => true,
            _ => false,
        },
        SetupStage::Handshake { .. } => match event {
            SetupEvent::HeaderUnreadable | SetupEvent::HeaderReceived { .. } => true,
            _ => false,
        },
        SetupStage::OpenPipe { .. } => match event {
            SetupEvent::PipeMissing | SetupEvent::PipeOpened => true,
            _ => false,
        },
        SetupStage::Running { .. } => false,
        SetupStage::Failed => false,
    }
}

/// Decides the next stage and action of the microphone bridge set-up
/// from what the last action gave.
pub fn setup_step(stage: SetupStage, event: &SetupEvent) -> (r: (SetupStage, SetupAction))
    requires
        event_fits(stage, event@),
    ensures
        r == setup_step_spec(stage, event@),
{
    match stage {
        SetupStage::LoadSink => match event {
            SetupEvent::SinkLoaded { stdout } => {
                let text = trim(stdout.as_str());
                match parse_u32(text.as_str()) {
                    Some(sink) => (SetupStage::SpawnWriter { sink }, SetupAction::SpawnWriter),
                    None => (
                        SetupStage::Failed,
                        SetupAction::Abort {
                            error: SetupError::BadModuleId,
                            cleanup_sink: None,
                            cleanup_forward: false,
                            wait_ms: 0,
                        },
                    ),
                }
            },
            SetupEvent::SinkRejected => (
                SetupStage::Failed,
                SetupAction::Abort { error: SetupError::SinkRejected, cleanup_sink: None, cleanup_forward: false, wait_ms: 0 },
            ),
            _ => (
                SetupStage::Failed,
                SetupAction::Abort { error: SetupError::PactlMissing, cleanup_sink: None, cleanup_forward: false, wait_ms: 0 },
            ),
        },
        SetupStage::SpawnWriter { sink } => match event {
            SetupEvent::WriterStarted => (SetupStage::Forward { sink }, SetupAction::Forward),
            _ => (
                SetupStage::Failed,
                SetupAction::Abort {
                    error: SetupError::WriterMissing,
                    cleanup_sink: Some(sink),
                    cleanup_forward: false,
                    wait_ms: 0,
                },
            ),
        },
        SetupStage::Forward { sink } => match event {
            SetupEvent::Forwarded => (SetupStage::Connect { sink, failures: 0 }, SetupAction::Connect),
            _ => (
                SetupStage::Failed,
                SetupAction::Abort {
                    error: SetupError::ForwardFailed,
                    cleanup_sink: Some(sink),
                    cleanup_forward: true,
                    wait_ms: 0,
                },
            ),
        },
        SetupStage::Connect { sink, failures } => match event {
            SetupEvent::Connected => (SetupStage::Handshake { sink }, SetupAction::ReadHeader),
            _ => {
                if failures < CONNECT_ATTEMPTS - 1 {
                    (
                        SetupStage::Connect { sink, failures: failures + 1 },
                        SetupAction::RetryConnect { wait_ms: CONNECT_RETRY_MS },
                    )
                } else {
                    (
                        SetupStage::Failed,
                        SetupAction::Abort {
                            error: SetupError::ServiceNotReady,
                            cleanup_sink: Some(sink),
                            cleanup_forward: true,
                            wait_ms: CONNECT_RETRY_MS,
                        },
                    )
                }
            },
        },
        SetupStage::Handshake { sink } => match event {
            SetupEvent::HeaderReceived { bytes } => match read_header(bytes.as_slice()) {
                Err(e) => (
                    SetupStage::Failed,
                    SetupAction::Abort {
                        error: SetupError::Header(e),
                        cleanup_sink: Some(sink),
                        cleanup_forward: true,
                        wait_ms: 0,
                    },
                ),
                Ok(f) => {
                    if f == AudioFormat::pcm_48k_mono() {
                        (SetupStage::OpenPipe { sink }, SetupAction::OpenPipe)
                    } else {
                        (
                            SetupStage::Failed,
                            SetupAction::Abort {
                                error: SetupError::UnsupportedFormat,
                                cleanup_sink: Some(sink),
                                cleanup_forward: true,
                                wait_ms: 0,
                            },
                        )
                    }
                },
            },
            _ => (
                SetupStage::Failed,
                SetupAction::Abort {
                    error: SetupError::HeaderUnreadable,
                    cleanup_sink: Some(sink),
                    cleanup_forward: true,
                    wait_ms: 0,
                },
            ),
        },
        SetupStage::OpenPipe { sink } => match event {
            SetupEvent::PipeOpened => (SetupStage::Running { sink }, SetupAction::StartReceiver),
            _ => (
                SetupStage::Failed,
                SetupAction::Abort {
                    error: SetupError::PipeMissing,
                    cleanup_sink: Some(sink),
                    cleanup_forward: true,
                    wait_ms: 0,
                },
            ),
        },
        _ => (
            stage,
            SetupAction::Abort { error: SetupError::PipeMissing, cleanup_sink: None, cleanup_forward: false, wait_ms: 0 },
        ),
    }
}

/// The module id of the sink that a stage holds, if any.
pub open spec fn stage_sink(stage: SetupStage) -> Option<u32> {
    match stage {
        SetupStage::SpawnWriter { sink } => Some(sink),
        SetupStage::Forward { sink } => Some(sink),
        SetupStage::Connect { sink, .. } => Some(sink),
        SetupStage::Handshake { sink } => Some(sink),
        SetupStage::OpenPipe { sink } => Some(sink),
        SetupStage::Running { sink } => Some(sink),
        _ => None,
    }
}

/// Whether a stage respects the bound on connection attempts: while
/// connecting, fewer than [`CONNECT_ATTEMPTS`] attempts have been refused.
pub open spec fn attempts_within_bound(stage: SetupStage) -> bool {
    stage matches SetupStage::Connect { failures, .. } ==> failures < CONNECT_ATTEMPTS
}

/// The microphone service is tried at most [`CONNECT_ATTEMPTS`] times: the
/// bound holds at the start and every step keeps it.
pub proof fn lemma_connect_attempts_bounded(stage: SetupStage, event: SetupEventView)
    requires
        attempts_within_bound(stage),
        event_fits(stage, event),
    ensures
        attempts_within_bound(setup_start().0),
        attempts_within_bound(setup_step_spec(stage, event).0),
{
}

/// Once the sink exists, every failure of the set-up unloads that sink;
/// with [`lemma_forward_removed_only_when_asked`], nothing that a failed
/// session created remains.
pub proof fn lemma_cleanup_once_sink_exists(stage: SetupStage, event: SetupEventView)
    requires
        event_fits(stage, event),
        stage_sink(stage) is Some,
    ensures
        setup_step_spec(stage, event).1 is Abort ==> setup_step_spec(stage, event).1->cleanup_sink
            == stage_sink(stage),
{
}

/// `pw-cat` is stopped and the forward removed on failure exactly when the
/// set-up has started `pw-cat` and asked for the forward: a session never
/// removes a forward that it did not ask for.
pub proof fn lemma_forward_removed_only_when_asked(stage: SetupStage, event: SetupEventView)
    requires
        event_fits(stage, event),
        setup_step_spec(stage, event).1 is Abort,
    ensures
        setup_step_spec(stage, event).1->cleanup_forward <==> (stage is Forward || stage is Connect
            || stage is Handshake || stage is OpenPipe),
{
}

/// Before the sink exists there is nothing to clean up on failure.
pub proof fn lemma_no_cleanup_before_sink(event: SetupEventView)
    requires
        event_fits(SetupStage::LoadSink, event),
    ensures
        setup_step_spec(SetupStage::LoadSink, event).1 is Abort ==> setup_step_spec(
            SetupStage::LoadSink,
            event,
        ).1->cleanup_sink is None,
{
}

/// The pipe to `pw-cat` is opened only after a handshake that announced
/// 48 kHz mono 16-bit PCM.
pub proof fn lemma_pipe_needs_supported_header(stage: SetupStage, event: SetupEventView)
    requires
        event_fits(stage, event),
        setup_step_spec(stage, event).0 is OpenPipe,
    ensures
        stage is Handshake,
        event matches SetupEventView::HeaderReceived { bytes } && header_spec(bytes) == Ok::<
            AudioFormat,
            ProtocolError,
        >(AudioFormat::spec_pcm_48k_mono()),
{
}

/// A step never changes the sink it carries over: the sink that is cleaned
/// up or run is the one that was created.
pub proof fn lemma_sink_kept(stage: SetupStage, event: SetupEventView)
    requires
        event_fits(stage, event),
        stage_sink(stage) is Some,
    ensures
        stage_sink(setup_step_spec(stage, event).0) is Some ==> stage_sink(
            setup_step_spec(stage, event).0,
        ) == stage_sink(stage),
        setup_step_spec(stage, event).1 matches SetupAction::Abort { cleanup_sink: Some(k), .. }
            ==> Some(k) == stage_sink(stage),
{
}

/// The stage after `k` refused connections in a row from `stage`.
pub open spec fn after_refusals(stage: SetupStage, k: nat) -> SetupStage
    decreases k,
{
    if k == 0 {
        stage
    } else {
        setup_step_spec(after_refusals(stage, (k - 1) as nat), SetupEventView::ConnectRefused).0
    }
}

/// After `k` refusals since the forward, fewer than the limit, the set-up
/// is still connecting with `k` refusals counted.
proof fn lemma_refusals_counted(sink: u32, k: nat)
    requires
        k < CONNECT_ATTEMPTS,
    ensures
        after_refusals(setup_step_spec(SetupStage::Forward { sink }, SetupEventView::Forwarded).0, k)
            == (SetupStage::Connect { sink, failures: k as u32 }),
    decreases k,
{
    if k > 0 {
        lemma_refusals_counted(sink, (k - 1) as nat);
    }
}

/// Once the forward succeeds the set-up connects; each of the first
/// `CONNECT_ATTEMPTS - 1` refusals in a row is followed by a new attempt
/// after 150 ms, and the refusal of attempt number `CONNECT_ATTEMPTS`
/// ends the set-up as "service not ready", cleaning up everything.
pub proof fn lemma_connect_attempts_after_forward(sink: u32)
    ensures
        setup_step_spec(SetupStage::Forward { sink }, SetupEventView::Forwarded).1
            == SetupAction::Connect,
        forall|k: nat|
            k < CONNECT_ATTEMPTS - 1 ==> setup_step_spec(
                #[trigger] after_refusals(
                    setup_step_spec(SetupStage::Forward { sink }, SetupEventView::Forwarded).0,
                    k,
                ),
                SetupEventView::ConnectRefused,
            ).1 == (SetupAction::RetryConnect { wait_ms: 150 }),
        setup_step_spec(
            after_refusals(
                setup_step_spec(SetupStage::Forward { sink }, SetupEventView::Forwarded).0,
                (CONNECT_ATTEMPTS - 1) as nat,
            ),
            SetupEventView::ConnectRefused,
        ) == (SetupStage::Failed, SetupAction::Abort {
            error: SetupError::ServiceNotReady,
            cleanup_sink: Some(sink),
            cleanup_forward: true,
            wait_ms: 150,
        }),
{
    assert forall|k: nat| k < CONNECT_ATTEMPTS - 1 implies setup_step_spec(
        #[trigger] after_refusals(
            setup_step_spec(SetupStage::Forward { sink }, SetupEventView::Forwarded).0,
            k,
        ),
        SetupEventView::ConnectRefused,
    ).1 == (SetupAction::RetryConnect { wait_ms: 150 }) by {
        lemma_refusals_counted(sink, k);
    }
    lemma_refusals_counted(sink, (CONNECT_ATTEMPTS - 1) as nat);
}

/// The sink the set-up goes on with is the module id that `pactl`
/// printed, as its line (a decimal number and a line feed) gives it.
pub proof fn lemma_sink_is_printed_module_id(n: u32)
    ensures
        setup_step_spec(
            SetupStage::LoadSink,
            SetupEventView::SinkLoaded { stdout: decimal(n as nat).push('\n') },
        ) == (SetupStage::SpawnWriter { sink: n }, SetupAction::SpawnWriter),
{
    let d = decimal(n as nat);
    let out = d.push('\n');
    lemma_decimal_digits(n as nat);
    assert(!is_ws(d[0]));
    assert(out[0] == d[0]);
    assert(trim_start(out) == out);
    assert(out.drop_last() =~= d);
    assert(is_ws(out.last()));
    assert(!is_ws(d.last())) by {
        assert(is_digit(d[d.len() - 1]));
    }
    assert(trim_end(d) == d);
    assert(trim_end(out) == d);
    lemma_parse_decimal_roundtrip(n);
}

} // verus!
