//! The checks that the command-line tool makes before it acts.
use vstd::prelude::*;

verus! {

/// The Android API level (Android 12) from which cameras can be forwarded.
pub const MIN_CAMERA_API: u32 = 31;

/// Why a command refused to run.
#[derive(Debug, Clone, Copy, PartialEq, Eq, Structural)]
pub enum CliError {
    /// `start` was asked for neither the microphone nor the webcam.
    NoModule,
    /// `start --webcam` on a device older than Android 12.
    WebcamNeedsAndroid12,
    /// `cameras` on a device older than Android 12.
    CamerasNeedAndroid12,
    /// The v4l2 sink given to `start --webcam` does not exist.
    SinkMissing,
    /// `doctor` found a required dependency missing.
    DependenciesMissing,
    /// `setup android` found no APK at the given path.
    ApkMissing,
}

impl CliError {
    /// The message that explains this error; `detail` is the path that the
    /// error is about, where there is one.
    pub fn message(&self, detail: &str) -> (r: String)
        ensures
            match self {
                CliError::NoModule => r@ == "Choose at least one module: --mic and/or --webcam"@,
                CliError::WebcamNeedsAndroid12 => r@ == "Webcam requires Android 12 or newer"@,
                CliError::CamerasNeedAndroid12 => r@
                    == "Camera forwarding needs Android 12 (API 31) or newer"@,
                CliError::SinkMissing => r@ == detail@
                    + " does not exist. Provision v4l2loopback first."@,
                CliError::DependenciesMissing => r@
                    == "One or more required dependencies are unavailable"@,
                CliError::ApkMissing => r@ == "APK not found at "@ + detail@
                    + ". Build it with ./gradlew :app:assembleDebug from android/."@,
            },
    {
        match self {
            CliError::NoModule => "Choose at least one module: --mic and/or --webcam".to_owned(),
            CliError::WebcamNeedsAndroid12 => "Webcam requires Android 12 or newer".to_owned(),
            CliError::CamerasNeedAndroid12 => "Camera forwarding needs Android 12 (API 31) or newer".to_owned(),
            CliError::SinkMissing => {
                let mut m = detail.to_owned();
                m.append(" does not exist. Provision v4l2loopback first.");
                m
            },
            CliError::DependenciesMissing => "One or more required dependencies are unavailable".to_owned(),
            CliError::ApkMissing => {
                let mut m = "APK not found at ".to_owned();
                m.append(detail);
                m.append(". Build it with ./gradlew :app:assembleDebug from android/.");
                m
            },
        }
    }
}

/// The Android API level of a device, where an unknown level counts as 0.
pub open spec fn api_level(android_version: Option<u32>) -> u32 {
    match android_version {
        Some(v) => v,
        None => 0,
    }
}

/// `start` needs at least one of the microphone and the webcam.
pub fn check_modules(mic: bool, webcam: bool) -> (r: Result<(), CliError>)
    ensures
        r == (if !mic && !webcam {
            Err(CliError::NoModule)
        } else {
            Ok::<(), CliError>(())
        }),
{
    if !mic && !webcam {
        Err(CliError::NoModule)
    } else {
        Ok(())
    }
}

/// `start --webcam` needs Android 12 or newer on the device, and then an
/// existing v4l2 sink; without `--webcam` nothing is needed.
pub fn check_webcam(webcam: bool, android_version: Option<u32>, sink_exists: bool) -> (r: Result<
    (),
    CliError,
>)
    ensures
        r == (if webcam && api_level(android_version) < MIN_CAMERA_API {
            Err(CliError::WebcamNeedsAndroid12)
        } else if webcam && !sink_exists {
            Err(CliError::SinkMissing)
        } else {
            Ok::<(), CliError>(())
        }),
{
    let level = match android_version {
        Some(v) => v,
        None => 0,
    };
    if webcam && level < MIN_CAMERA_API {
        Err(CliError::WebcamNeedsAndroid12)
    } else if webcam && !sink_exists {
        Err(CliError::SinkMissing)
    } else {
        Ok(())
    }
}

/// Listing cameras needs Android 12 or newer on the device.
pub fn check_cameras(android_version: Option<u32>) -> (r: Result<(), CliError>)
    ensures
        r == (if api_level(android_version) < MIN_CAMERA_API {
            Err(CliError::CamerasNeedAndroid12)
        } else {
            Ok::<(), CliError>(())
        }),
{
    let level = match android_version {
        Some(v) => v,
        None => 0,
    };
    if level < MIN_CAMERA_API {
        Err(CliError::CamerasNeedAndroid12)
    } else {
        Ok(())
    }
}

/// `doctor` passes when every dependency is available.
pub fn check_dependencies(available: &[bool]) -> (r: Result<(), CliError>)
    ensures
        r is Ok <==> forall|i: int| 0 <= i < available@.len() ==> #[trigger] available@[i],
        r is Err ==> r == Err::<(), CliError>(CliError::DependenciesMissing),
{
    let mut i: usize = 0;
    while i < available.len()
        invariant
            i <= available@.len(),
            forall|k: int| 0 <= k < i ==> #[trigger] available@[k],
        decreases available.len() - i,
    {
        if !available[i] {
            return Err(CliError::DependenciesMissing);
        }
        i = i + 1;
    }
    Ok(())
}

/// The `scrcpy` arguments that list the cameras of a device.
pub fn list_cameras_args(serial: &str) -> (r: Vec<String>)
    ensures
        r.deep_view() == seq!["--serial"@, serial@, "--list-cameras"@],
{
    let mut r: Vec<String> = Vec::new();
    r.push("--serial".to_owned());
    r.push(serial.to_owned());
    r.push("--list-cameras".to_owned());
    assert(r.deep_view() =~= seq!["--serial"@, serial@, "--list-cameras"@]);
    r
}

} // verus!
