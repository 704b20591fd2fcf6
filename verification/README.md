# android-hub-core

The verified core of Android Hub, which uses an Android phone as a Linux
microphone and webcam over USB debugging.

- `src/` is the library, verified with Verus:
  - `lib.rs`: devices and the choice of the device to work with;
  - `text.rs`: whitespace, words, trimming and decimal numbers. Their
    specifications are written from the documented behaviour of the
    standard library's `char::is_whitespace`, `split_whitespace`, `trim`,
    `parse::<u32>` and `to_string`; that they agree with those functions
    is checked by the tests in `tests/text.rs`, not proved;
  - `adb.rs`: the adb invocations and the reading of `adb devices -l`;
  - `protocol.rs`: the audio stream header and frames, with their
    round-trip laws;
  - `session.rs`: the commands of a session and the set-up of the
    microphone bridge as a step function from stage and event to stage and
    action, with its laws (among them: once the PipeWire sink exists, every
    failed set-up removes the sink, the forward and `pw-cat`);
  - `cli.rs`: the checks the command-line tool makes before it acts.
- `app/` is the `android-hub` program: argument handling, running `adb`,
  `pactl`, `pw-cat` and `scrcpy`, the TCP connection and the receiver
  thread. It performs the actions the library decides.
- `tests/` runs the library on concrete values.
