//! The adb side of Android Hub: the adb invocations it makes, and how it
//! reads what adb reports.
use vstd::prelude::*;

use crate::text::{lemma_parse_decimal_roundtrip, chars_of, is_word, is_ws, lemma_blank_iff_no_words, lemma_words_are_words, trimmed, decimal, decimal_string, parse_u32, parse_u32_spec, span_within, word_spans, words};
use crate::{is_ready, views, Device, DeviceView};

verus! {

/// One run of the `adb` program: the device it addresses (`-s SERIAL`),
/// if any, and the arguments after that.
#[derive(Debug, Clone, PartialEq, Eq)]
pub struct AdbInvocation {
    pub serial: Option<String>,
    pub args: Vec<String>,
}

/// The abstract contents of an [`AdbInvocation`].
pub struct AdbInvocationView {
    pub serial: Option<Seq<char>>,
    pub args: Seq<Seq<char>>,
}

impl View for AdbInvocation {
    type V = AdbInvocationView;

    open spec fn view(&self) -> AdbInvocationView {
        AdbInvocationView { serial: self.serial.deep_view(), args: self.args.deep_view() }
    }
}

/// The adb name of a local TCP port: `tcp:PORT`.
pub open spec fn tcp_spec(port: u16) -> Seq<char> {
    "tcp:"@ + decimal(port as nat)
}

/// The adb name of a local TCP port: `tcp:PORT`.
pub fn tcp_endpoint(port: u16) -> (r: String)
    ensures
        r@ == tcp_spec(port),
{
    let mut r = "tcp:".to_owned();
    let digits = decimal_string(port as u32);
    r.append(digits.as_str());
    r
}

/// The invocation that lists the attached devices (`adb devices -l`).
pub fn list_devices() -> (r: AdbInvocation)
    ensures
        r@ == (AdbInvocationView { serial: None, args: seq!["devices"@, "-l"@] }),
{
    let mut args: Vec<String> = Vec::new();
    args.push("devices".to_owned());
    args.push("-l".to_owned());
    let r = AdbInvocation { serial: None, args };
    assert(r@.args =~= seq!["devices"@, "-l"@]);
    r
}

/// The invocation that asks a device for its Android API level.
pub fn query_android_version(serial: &str) -> (r: AdbInvocation)
    ensures
        r@ == (AdbInvocationView {
            serial: Some(serial@),
            args: seq!["shell"@, "getprop"@, "ro.build.version.sdk"@],
        }),
{
    let mut args: Vec<String> = Vec::new();
    args.push("shell".to_owned());
    args.push("getprop".to_owned());
    args.push("ro.build.version.sdk".to_owned());
    let r = AdbInvocation { serial: Some(serial.to_owned()), args };
    assert(r@.args =~= seq!["shell"@, "getprop"@, "ro.build.version.sdk"@]);
    r
}

/// The invocation that forwards a host TCP port to a device TCP port.
pub fn forward(serial: &str, host_port: u16, device_port: u16) -> (r: AdbInvocation)
    ensures
        r@ == (AdbInvocationView {
            serial: Some(serial@),
            args: seq!["forward"@, tcp_spec(host_port), tcp_spec(device_port)],
        }),
{
    let mut args: Vec<String> = Vec::new();
    args.push("forward".to_owned());
    args.push(tcp_endpoint(host_port));
    args.push(tcp_endpoint(device_port));
    let r = AdbInvocation { serial: Some(serial.to_owned()), args };
    assert(r@.args =~= seq!["forward"@, tcp_spec(host_port), tcp_spec(device_port)]);
    r
}

/// The invocation that removes the forward of a host TCP port.
pub fn remove_forward(serial: &str, host_port: u16) -> (r: AdbInvocation)
    ensures
        r@ == (AdbInvocationView {
            serial: Some(serial@),
            args: seq!["forward"@, "--remove"@, tcp_spec(host_port)],
        }),
{
    let mut args: Vec<String> = Vec::new();
    args.push("forward".to_owned());
    args.push("--remove".to_owned());
    args.push(tcp_endpoint(host_port));
    let r = AdbInvocation { serial: Some(serial.to_owned()), args };
    assert(r@.args =~= seq!["forward"@, "--remove"@, tcp_spec(host_port)]);
    r
}

/// The invocation that starts the microphone service of the Android app.
pub fn start_mic_service(serial: &str) -> (r: AdbInvocation)
    ensures
        r@ == (AdbInvocationView {
            serial: Some(serial@),
            args: seq![
                "shell"@,
                "am"@,
                "start-foreground-service"@,
                "-n"@,
                "dev.androidhub/.MicStreamService"@,
            ],
        }),
{
    let mut args: Vec<String> = Vec::new();
    args.push("shell".to_owned());
    args.push("am".to_owned());
    args.push("start-foreground-service".to_owned());
    args.push("-n".to_owned());
    args.push("dev.androidhub/.MicStreamService".to_owned());
    let r = AdbInvocation { serial: Some(serial.to_owned()), args };
    assert(r@.args =~= seq![
        "shell"@,
        "am"@,
        "start-foreground-service"@,
        "-n"@,
        "dev.androidhub/.MicStreamService"@,
    ]);
    r
}

/// The invocation that installs (or reinstalls) an APK on a device.
pub fn install(serial: &str, apk: &str) -> (r: AdbInvocation)
    ensures
        r@ == (AdbInvocationView {
            serial: Some(serial@),
            args: seq!["install"@, "-r"@, apk@],
        }),
{
    let mut args: Vec<String> = Vec::new();
    args.push("install".to_owned());
    args.push("-r".to_owned());
    args.push(apk.to_owned());
    let r = AdbInvocation { serial: Some(serial.to_owned()), args };
    assert(r@.args =~= seq!["install"@, "-r"@, apk@]);
    r
}

/// The Android API level in a device's reply to
/// [`query_android_version`], as `adb` returns it (trimmed): the reply read
/// as a `u32`, or nothing when it is not one.
pub fn parse_android_version(reply: &str) -> (r: Option<u32>)
    ensures
        r == parse_u32_spec(reply@),
{
    parse_u32(reply)
}

/// The text after the first line feed of `s`; empty when there is none.
pub open spec fn skip_first_line(s: Seq<char>) -> Seq<char>
    decreases s.len(),
{
    if s.len() == 0 {
        s
    } else if s[0] == '\n' {
        s.drop_first()
    } else {
        skip_first_line(s.drop_first())
    }
}

/// The pieces of `s` between line feeds, in order; a text with `k` line
/// feeds has `k + 1` pieces.
pub open spec fn pieces(s: Seq<char>) -> Seq<Seq<char>>
    decreases s.len(),
{
    if s.len() == 0 {
        seq![Seq::empty()]
    } else {
        let p = pieces(s.drop_last());
        if s.last() == '\n' {
            p.push(Seq::empty())
        } else {
            p.update(p.len() - 1, p.last().push(s.last()))
        }
    }
}

/// The key that precedes a device's model in the listing.
pub open spec fn model_key() -> Seq<char> {
    seq!['m', 'o', 'd', 'e', 'l', ':']
}

/// The model named by the first word of `ws` that starts with `model:`.
pub open spec fn model_in(ws: Seq<Seq<char>>) -> Option<Seq<char>>
    decreases ws.len(),
{
    if ws.len() == 0 {
        None
    } else if ws[0].len() >= 6 && ws[0].take(6) == model_key() {
        Some(ws[0].skip(6))
    } else {
        model_in(ws.drop_first())
    }
}

/// The device that one line of the listing describes: its first word is
/// the serial, its second the state, and a `model:` word names the model.
pub open spec fn entry_of(line: Seq<char>) -> DeviceView {
    let w = words(line);
    DeviceView {
        serial: if w.len() > 0 {
            w[0]
        } else {
            Seq::empty()
        },
        state: if w.len() > 1 {
            w[1]
        } else {
            Seq::empty()
        },
        model: model_in(w),
        android_version: None,
    }
}

/// The devices that the lines `ls` describe, skipping blank lines.
pub open spec fn listed(ls: Seq<Seq<char>>) -> Seq<DeviceView>
    decreases ls.len(),
{
    if ls.len() == 0 {
        Seq::empty()
    } else if words(ls.last()).len() > 0 {
        listed(ls.drop_last()).push(entry_of(ls.last()))
    } else {
        listed(ls.drop_last())
    }
}

/// The devices of an `adb devices -l` listing, as `adb` returns it
/// (trimmed): one per non-blank line after the header line.
pub open spec fn devices_spec(listing: Seq<char>) -> Seq<DeviceView> {
    listed(pieces(skip_first_line(listing)))
}

/// The index just after the first line feed of `chars`, or its length.
fn after_first_line(chars: &Vec<char>) -> (a: usize)
    ensures
        a <= chars@.len(),
        skip_first_line(chars@) == chars@.subrange(a as int, chars@.len() as int),
{
    let n = chars.len();
    let mut i: usize = 0;
    assert(chars@.subrange(0, n as int) =~= chars@);
    while i < n
        invariant
            i <= n == chars@.len(),
            skip_first_line(chars@) == skip_first_line(chars@.subrange(i as int, n as int)),
        decreases n - i,
    {
        let ghost rest = chars@.subrange(i as int, n as int);
        assert(rest.drop_first() =~= chars@.subrange(i + 1, n as int));
        if chars[i] == '\n' {
            return i + 1;
        }
        i = i + 1;
    }
    i
}

/// Whether the word `chars[a..b]` starts with `model:`.
fn starts_with_model_key(chars: &Vec<char>, a: usize, b: usize) -> (r: bool)
    requires
        a <= b <= chars@.len(),
    ensures
        r == (chars@.subrange(a as int, b as int).len() >= 6 && chars@.subrange(
            a as int,
            b as int,
        ).take(6) == model_key()),
{
    if b - a < 6 {
        return false;
    }
    let r = chars[a] == 'm' && chars[a + 1] == 'o' && chars[a + 2] == 'd' && chars[a + 3] == 'e'
        && chars[a + 4] == 'l' && chars[a + 5] == ':';
    let ghost w = chars@.subrange(a as int, b as int);
    assert(r == (w.take(6) =~= model_key())) by {
        if w.take(6) =~= model_key() {
            assert(w.take(6)[0] == chars@[a as int]);
            assert(w.take(6)[1] == chars@[a + 1]);
            assert(w.take(6)[2] == chars@[a + 2]);
            assert(w.take(6)[3] == chars@[a + 3]);
            assert(w.take(6)[4] == chars@[a + 4]);
            assert(w.take(6)[5] == chars@[a + 5]);
        }
    }
    r
}

/// The device that the line `chars[lo..hi]` of `listing` describes, or
/// nothing when the line is blank.
fn entry_for(listing: &str, chars: &Vec<char>, lo: usize, hi: usize) -> (r: Option<Device>)
    requires
        chars@ == listing@,
        lo <= hi <= chars@.len(),
    ensures
        match r {
            Some(d) => words(chars@.subrange(lo as int, hi as int)).len() > 0 && d@ == entry_of(
                chars@.subrange(lo as int, hi as int),
            ),
            None => words(chars@.subrange(lo as int, hi as int)).len() == 0,
        },
{
    let spans = word_spans(chars, lo, hi);
    let ghost w = words(chars@.subrange(lo as int, hi as int));
    let ghost sw = spans@.map_values(|p: (usize, usize)| chars@.subrange(p.0 as int, p.1 as int));
    assert(sw == w);
    let count = spans.len();
    if count == 0 {
        return None;
    }
    assert(span_within(spans@[0], lo as int, hi as int));
    let serial = listing.substring_char(spans[0].0, spans[0].1).to_owned();
    assert(serial@ == w[0]);
    let state = if count > 1 {
        assert(span_within(spans@[1], lo as int, hi as int));
        let s = listing.substring_char(spans[1].0, spans[1].1).to_owned();
        assert(s@ == w[1]);
        s
    } else {
        String::new()
    };
    let mut model: Option<String> = None;
    let mut k: usize = 0;
    assert(w.subrange(0, count as int) =~= w);
    while k < count && model.is_none()
        invariant
            k <= count == spans@.len(),
            sw == w,
            sw == spans@.map_values(|p: (usize, usize)| chars@.subrange(p.0 as int, p.1 as int)),
            chars@ == listing@,
            forall|q: int|
                0 <= q < spans@.len() ==> span_within(#[trigger] spans@[q], lo as int, hi as int),
            hi <= chars@.len(),
            model is None ==> model_in(w) == model_in(w.subrange(k as int, count as int)),
            model matches Some(m) ==> Some(m@) == model_in(w),
        decreases count - k,
    {
        let (a, b) = spans[k];
        assert(span_within(spans@[k as int], lo as int, hi as int));
        assert(sw[k as int] == chars@.subrange(a as int, b as int));
        let ghost rest = w.subrange(k as int, count as int);
        assert(rest[0] == w[k as int]);
        if starts_with_model_key(chars, a, b) {
            let m = listing.substring_char(a + 6, b).to_owned();
            assert(m@ =~= w[k as int].skip(6));
            model = Some(m);
            k = k + 1;
        } else {
            assert(rest.drop_first() =~= w.subrange(k + 1, count as int));
            k = k + 1;
        }
    }
    let d = Device { serial, state, model, android_version: None };
    assert(d@.model == model_in(w)) by {
        if model is None {
            assert(w.subrange(count as int, count as int).len() == 0);
        }
    }
    Some(d)
}

/// The devices of an `adb devices -l` listing, as `adb` returns it
/// (trimmed): one per non-blank line after the header line, with serial,
/// state and model, and no Android version (which takes another query).
pub fn devices(listing: &str) -> (r: Vec<Device>)
    ensures
        views(r@) == devices_spec(listing@),
{
    let chars = chars_of(listing);
    let n = chars.len();
    let start = after_first_line(&chars);
    let ghost rest = chars@.subrange(start as int, n as int);
    let mut out: Vec<Device> = Vec::new();
    let mut cur: usize = start;
    let mut i: usize = start;
    proof {
        assert(rest.take(0) =~= Seq::<char>::empty());
        assert(chars@.subrange(start as int, start as int) =~= Seq::<char>::empty());
    }
    while i < n
        invariant
            start <= cur <= i <= n == chars@.len(),
            chars@ == listing@,
            rest == chars@.subrange(start as int, n as int),
            pieces(rest.take(i - start)).len() >= 1,
            views(out@) == listed(pieces(rest.take(i - start)).drop_last()),
            pieces(rest.take(i - start)).last() == chars@.subrange(cur as int, i as int),
        decreases n - i,
    {
        let ghost p = pieces(rest.take(i - start));
        let ghost next = rest.take(i + 1 - start);
        assert(next.drop_last() =~= rest.take(i - start));
        assert(next.last() == chars@[i as int]);
        if chars[i] == '\n' {
            let ghost before = views(out@);
            let entry = entry_for(listing, &chars, cur, i);
            assert(pieces(next) == p.push(Seq::empty()));
            assert(pieces(next).drop_last() =~= p);
            assert(p.drop_last().push(p.last()) =~= p);
            match entry {
                Some(d) => {
                    out.push(d);
                    assert(views(out@) =~= before.push(d@));
                },
                None => {},
            }
            cur = i + 1;
            assert(chars@.subrange(cur as int, i + 1) =~= Seq::<char>::empty());
        } else {
            assert(pieces(next) == p.update(p.len() - 1, p.last().push(chars@[i as int])));
            assert(pieces(next).drop_last() =~= p.drop_last());
            assert(chars@.subrange(cur as int, i + 1) =~= chars@.subrange(cur as int, i as int).push(
                chars@[i as int],
            ));
        }
        i = i + 1;
    }
    assert(rest.take(n - start) =~= rest);
    let ghost p = pieces(rest);
    let ghost before = views(out@);
    let last = entry_for(listing, &chars, cur, n);
    assert(p.drop_last().push(p.last()) =~= p);
    match last {
        Some(d) => {
            out.push(d);
            assert(views(out@) =~= before.push(d@));
        },
        None => {},
    }
    out
}

/// Every device of a listing comes from a non-blank line: its serial is a
/// non-empty word without whitespace, and it has no Android version yet.
pub proof fn lemma_listed_serials_are_words(ls: Seq<Seq<char>>)
    ensures
        forall|i: int|
            0 <= i < listed(ls).len() ==> is_word(#[trigger] listed(ls)[i].serial)
                && listed(ls)[i].android_version is None,
    decreases ls.len(),
{
    if ls.len() > 0 {
        lemma_listed_serials_are_words(ls.drop_last());
        lemma_words_are_words(ls.last());
        let w = words(ls.last());
        if w.len() > 0 {
            assert(is_word(w[0]));
            assert forall|i: int| 0 <= i < listed(ls).len() implies is_word(
                #[trigger] listed(ls)[i].serial,
            ) && listed(ls)[i].android_version is None by {
                if i < listed(ls.drop_last()).len() {
                    assert(listed(ls)[i] == listed(ls.drop_last())[i]);
                }
            }
        }
    }
}

/// The query for a device's Android version: only ready devices are
/// asked.
pub fn version_query(device: &Device) -> (r: Option<AdbInvocation>)
    ensures
        match r {
            Some(q) => is_ready(device@) && q@ == (AdbInvocationView {
                serial: Some(device@.serial),
                args: seq!["shell"@, "getprop"@, "ro.build.version.sdk"@],
            }),
            None => !is_ready(device@),
        },
{
    if device.ready() {
        Some(query_android_version(device.serial.as_str()))
    } else {
        None
    }
}

/// A device with the Android version that its reply gives: only a ready
/// device gets one, the reply read as a `u32`; a device that was not asked,
/// or whose query failed (`None`), has none. Every other field is kept.
pub open spec fn versioned(d: DeviceView, reply: Option<Seq<char>>) -> DeviceView {
    DeviceView {
        android_version: if is_ready(d) {
            match reply {
                Some(text) => parse_u32_spec(text),
                None => None,
            }
        } else {
            None
        },
        ..d
    }
}

/// The reply for the `i`-th device: none past the end of `replies`.
pub open spec fn reply_at(replies: Seq<Option<String>>, i: int) -> Option<Seq<char>> {
    if 0 <= i < replies.len() {
        replies[i].deep_view()
    } else {
        None
    }
}

/// The Android-version query of each device: the query for the ready
/// ones, nothing for the others.
pub fn version_queries(devices: &[Device]) -> (r: Vec<Option<AdbInvocation>>)
    ensures
        r@.len() == devices@.len(),
        forall|i: int|
            0 <= i < devices@.len() ==> match #[trigger] r@[i] {
                Some(q) => is_ready(devices@[i]@) && q@ == (AdbInvocationView {
                    serial: Some(devices@[i]@.serial),
                    args: seq!["shell"@, "getprop"@, "ro.build.version.sdk"@],
                }),
                None => !is_ready(devices@[i]@),
            },
{
    let mut r: Vec<Option<AdbInvocation>> = Vec::new();
    let mut i: usize = 0;
    while i < devices.len()
        invariant
            i <= devices@.len(),
            r@.len() == i,
            forall|k: int|
                0 <= k < i ==> match #[trigger] r@[k] {
                    Some(q) => is_ready(devices@[k]@) && q@ == (AdbInvocationView {
                        serial: Some(devices@[k]@.serial),
                        args: seq!["shell"@, "getprop"@, "ro.build.version.sdk"@],
                    }),
                    None => !is_ready(devices@[k]@),
                },
        decreases devices.len() - i,
    {
        r.push(version_query(&devices[i]));
        i = i + 1;
    }
    r
}

/// The devices with their Android versions taken from the replies to
/// [`version_queries`], in order; `replies[i]` is the reply of the `i`-th
/// device, `None` when it was not asked or its query failed.
pub fn with_android_versions(devices: &[Device], replies: &[Option<String>]) -> (r: Vec<Device>)
    ensures
        r@.len() == devices@.len(),
        forall|i: int|
            0 <= i < devices@.len() ==> (#[trigger] r@[i])@ == versioned(
                devices@[i]@,
                reply_at(replies@, i),
            ),
{
    let mut r: Vec<Device> = Vec::new();
    let mut i: usize = 0;
    while i < devices.len()
        invariant
            i <= devices@.len(),
            r@.len() == i,
            forall|k: int|
                0 <= k < i ==> (#[trigger] r@[k])@ == versioned(
                    devices@[k]@,
                    reply_at(replies@, k),
                ),
        decreases devices.len() - i,
    {
        let mut d = devices[i].duplicate();
        let ready = d.ready();
        d.android_version = if ready && i < replies.len() {
            match &replies[i] {
                Some(text) => parse_android_version(text.as_str()),
                None => None,
            }
        } else {
            None
        };
        r.push(d);
        i = i + 1;
    }
    r
}

/// Whether `s` holds a line feed.
pub open spec fn has_line_feed(s: Seq<char>) -> bool {
    exists|k: int| 0 <= k < s.len() && s[k] == '\n'
}

/// Every text has at least one piece.
proof fn lemma_pieces_nonempty(s: Seq<char>)
    ensures
        pieces(s).len() >= 1,
    decreases s.len(),
{
    if s.len() > 0 {
        lemma_pieces_nonempty(s.drop_last());
    }
}

/// A character other than a line feed in front of a text joins its first
/// piece.
proof fn lemma_pieces_prepend_char(c: char, t: Seq<char>)
    requires
        c != '\n',
    ensures
        pieces(seq![c] + t) == pieces(t).update(0, seq![c] + pieces(t)[0]),
    decreases t.len(),
{
    lemma_pieces_nonempty(t);
    let s = seq![c] + t;
    if t.len() == 0 {
        assert(s.drop_last() =~= Seq::<char>::empty());
        assert(t =~= Seq::<char>::empty());
        assert(pieces(Seq::<char>::empty()) == seq![Seq::<char>::empty()]);
        assert(s.last() == c);
        assert(Seq::<char>::empty().push(c) =~= seq![c] + Seq::<char>::empty());
        assert(pieces(s) =~= pieces(t).update(0, seq![c] + pieces(t)[0]));
    } else {
        let t1 = t.drop_last();
        lemma_pieces_prepend_char(c, t1);
        lemma_pieces_nonempty(t1);
        assert(s.drop_last() =~= seq![c] + t1);
        assert(s.last() == t.last());
        let p1 = pieces(t1);
        if t.last() == '\n' {
            assert(pieces(s) =~= pieces(t).update(0, seq![c] + pieces(t)[0]));
        } else {
            if p1.len() == 1 {
                assert(seq![c] + p1[0].push(t.last()) =~= (seq![c] + p1[0]).push(t.last()));
            }
            assert(pieces(s) =~= pieces(t).update(0, seq![c] + pieces(t)[0]));
        }
    }
}

/// A line feed in front of a text adds an empty first piece.
proof fn lemma_pieces_prepend_line_feed(t: Seq<char>)
    ensures
        pieces(seq!['\n'] + t) == seq![Seq::<char>::empty()] + pieces(t),
    decreases t.len(),
{
    lemma_pieces_nonempty(t);
    let s = seq!['\n'] + t;
    if t.len() == 0 {
        assert(s.drop_last() =~= Seq::<char>::empty());
        assert(t =~= Seq::<char>::empty());
        assert(pieces(Seq::<char>::empty()) == seq![Seq::<char>::empty()]);
        assert(s.last() == '\n');
        assert(pieces(s) =~= seq![Seq::<char>::empty()] + pieces(t));
    } else {
        let t1 = t.drop_last();
        lemma_pieces_prepend_line_feed(t1);
        lemma_pieces_nonempty(t1);
        assert(s.drop_last() =~= seq!['\n'] + t1);
        assert(s.last() == t.last());
        assert(pieces(s) =~= seq![Seq::<char>::empty()] + pieces(t));
    }
}

/// The pieces after the first line feed are the pieces of the text after
/// it; a text without line feed has a single piece.
proof fn lemma_pieces_after_first_line(s: Seq<char>)
    ensures
        pieces(s).len() >= 1,
        has_line_feed(s) ==> pieces(s).drop_first() == pieces(skip_first_line(s)),
        !has_line_feed(s) ==> pieces(s).len() == 1 && skip_first_line(s).len() == 0,
    decreases s.len(),
{
    lemma_pieces_nonempty(s);
    if s.len() > 0 {
        let t = s.drop_first();
        assert(s =~= seq![s[0]] + t);
        if s[0] == '\n' {
            lemma_pieces_prepend_line_feed(t);
            assert(has_line_feed(s));
            assert((seq![Seq::<char>::empty()] + pieces(t)).drop_first() =~= pieces(t));
        } else {
            lemma_pieces_after_first_line(t);
            lemma_pieces_prepend_char(s[0], t);
            assert(has_line_feed(s) <==> has_line_feed(t)) by {
                if has_line_feed(s) {
                    let k = choose|k: int| 0 <= k < s.len() && s[k] == '\n';
                    assert(t[k - 1] == '\n');
                }
                if has_line_feed(t) {
                    let k = choose|k: int| 0 <= k < t.len() && t[k] == '\n';
                    assert(s[k + 1] == '\n');
                }
            }
            assert(pieces(s).drop_first() =~= pieces(t).drop_first());
        }
    }
}

/// A line with its carriage return removed, as `str::lines` removes the
/// `\r` of a `\r\n` line ending.
pub open spec fn strip_cr(l: Seq<char>) -> Seq<char> {
    if l.len() > 0 && l.last() == '\r' {
        l.drop_last()
    } else {
        l
    }
}

/// The lines of `s` as `str::lines` yields them: split at line feeds, a
/// `\r` before a line feed removed, and no empty last line after a final
/// line feed.
pub open spec fn std_lines(s: Seq<char>) -> Seq<Seq<char>> {
    let p = pieces(s);
    let kept = if p.last().len() == 0 {
        p.drop_last()
    } else {
        p
    };
    Seq::new(
        kept.len(),
        |i: int|
            if i < p.len() - 1 {
                strip_cr(kept[i])
            } else {
                kept[i]
            },
    )
}

/// The lines after the first (`skip(1)`).
pub open spec fn skip_header(ls: Seq<Seq<char>>) -> Seq<Seq<char>> {
    if ls.len() == 0 {
        ls
    } else {
        ls.drop_first()
    }
}

/// The devices of the lines that do not trim to nothing
/// (`filter(|line| !line.trim().is_empty())`), in order.
pub open spec fn nonblank_entries(ls: Seq<Seq<char>>) -> Seq<DeviceView>
    decreases ls.len(),
{
    if ls.len() == 0 {
        Seq::empty()
    } else if trimmed(ls.last()).len() > 0 {
        nonblank_entries(ls.drop_last()).push(entry_of(ls.last()))
    } else {
        nonblank_entries(ls.drop_last())
    }
}

/// Lines with the same words give the same devices.
proof fn lemma_same_words_same_entries(ps: Seq<Seq<char>>, qs: Seq<Seq<char>>)
    requires
        ps.len() == qs.len(),
        forall|i: int| 0 <= i < ps.len() ==> words(#[trigger] ps[i]) == words(qs[i]),
    ensures
        listed(ps) == nonblank_entries(qs),
    decreases ps.len(),
{
    if ps.len() > 0 {
        let n = ps.len() - 1;
        assert(words(ps[n]) == words(qs[n]));
        assert forall|i: int| 0 <= i < ps.drop_last().len() implies words(
            #[trigger] ps.drop_last()[i],
        ) == words(qs.drop_last()[i]) by {
            assert(words(ps[i]) == words(qs[i]));
        }
        lemma_same_words_same_entries(ps.drop_last(), qs.drop_last());
        lemma_blank_iff_no_words(qs.last());
    }
}

/// The devices of a listing are the devices of the lines that
/// `listing.lines().skip(1).filter(|line| !line.trim().is_empty())` yields:
/// what `adb devices -l` output was read with.
pub proof fn lemma_devices_follow_std_lines(s: Seq<char>)
    ensures
        devices_spec(s) == nonblank_entries(skip_header(std_lines(s))),
{
    lemma_pieces_after_first_line(s);
    let p = pieces(s);
    let l = std_lines(s);
    let kept = if p.last().len() == 0 {
        p.drop_last()
    } else {
        p
    };
    // The devices are those of the pieces after the first.
    assert(devices_spec(s) == listed(p.drop_first())) by {
        if !has_line_feed(s) {
            let r = skip_first_line(s);
            assert(r =~= Seq::<char>::empty());
            assert(pieces(r) =~= seq![Seq::<char>::empty()]);
            assert(words(Seq::<char>::empty()) =~= Seq::<Seq<char>>::empty());
            assert(seq![Seq::<char>::empty()].drop_last() =~= Seq::<Seq<char>>::empty());
            assert(listed(Seq::<Seq<char>>::empty()) == Seq::<DeviceView>::empty());
            assert(listed(pieces(r)) =~= Seq::<DeviceView>::empty());
            assert(p.drop_first() =~= Seq::<Seq<char>>::empty());
        }
    }
    // Each line has the words of its piece.
    assert forall|i: int| 0 <= i < l.len() implies words(#[trigger] l[i]) == words(kept[i]) by {
        let k = kept[i];
        if k.len() > 0 && k.last() == '\r' {
            assert(is_ws(k.last()));
        }
    }
    if kept.len() == 0 {
        assert(p.len() == 1);
        assert(p.drop_first() =~= Seq::<Seq<char>>::empty());
    } else {
        let ks = kept.drop_first();
        let ls = l.drop_first();
        assert forall|i: int| 0 <= i < ks.len() implies words(#[trigger] ks[i]) == words(ls[i]) by {
            assert(words(l[i + 1]) == words(kept[i + 1]));
        }
        lemma_same_words_same_entries(ks, ls);
        if p.last().len() != 0 {
            assert(ks =~= p.drop_first());
        } else {
            let pd = p.drop_first();
            assert(pd.last() == p.last());
            assert(words(pd.last()) =~= Seq::<Seq<char>>::empty());
            assert(listed(pd) == listed(pd.drop_last()));
            assert(pd.drop_last() =~= ks);
        }
    }
}

/// Whether a word starts with `model:` (`strip_prefix("model:")` succeeds).
pub open spec fn has_model_key(w: Seq<char>) -> bool {
    w.len() >= 6 && w.take(6) == model_key()
}

/// The model is what follows `model:` in the first word that starts with
/// it: that word is `model:` followed by the model, and no earlier word
/// starts with `model:`; when no word does, there is no model.
pub proof fn lemma_model_is_rest_of_word(ws: Seq<Seq<char>>)
    ensures
        model_in(ws) matches Some(m) ==> exists|i: int|
            0 <= i < ws.len() && ws[i] == model_key() + m && forall|j: int|
                0 <= j < i ==> !has_model_key(#[trigger] ws[j]),
        model_in(ws) is None ==> forall|i: int| 0 <= i < ws.len() ==> !has_model_key(#[trigger] ws[i]),
    decreases ws.len(),
{
    if ws.len() > 0 {
        if has_model_key(ws[0]) {
            assert(model_key() + ws[0].skip(6) =~= ws[0]);
        } else {
            let t = ws.drop_first();
            lemma_model_is_rest_of_word(t);
            if let Some(m) = model_in(ws) {
                let i = choose|i: int|
                    0 <= i < t.len() && t[i] == model_key() + m && forall|j: int|
                        0 <= j < i ==> !has_model_key(#[trigger] t[j]);
                assert(ws[i + 1] == t[i]);
                assert forall|j: int| 0 <= j < i + 1 implies !has_model_key(#[trigger] ws[j]) by {
                    if j > 0 {
                        assert(ws[j] == t[j - 1]);
                    }
                }
            } else {
                assert forall|i: int| 0 <= i < ws.len() implies !has_model_key(#[trigger] ws[i]) by {
                    if i > 0 {
                        assert(ws[i] == t[i - 1]);
                    }
                }
            }
        }
    }
}

/// A device line names its serial with its first word, its state with its
/// second (empty when there is none), its model with the first word that
/// starts with `model:`, and no Android version.
pub proof fn lemma_entry_fields(line: Seq<char>)
    ensures
        words(line).len() >= 1 ==> entry_of(line).serial == words(line)[0],
        words(line).len() >= 2 ==> entry_of(line).state == words(line)[1],
        words(line).len() < 2 ==> entry_of(line).state.len() == 0,
        entry_of(line).model matches Some(m) ==> words(line).contains(model_key() + m),
        entry_of(line).model is None ==> forall|i: int|
            0 <= i < words(line).len() ==> !has_model_key(#[trigger] words(line)[i]),
        entry_of(line).android_version is None,
{
    lemma_model_is_rest_of_word(words(line));
}

/// Recording a version keeps the device's serial, state and model; a
/// version is recorded only for a ready device that answered, and a ready
/// device that answers with the decimal form of `n` gets `n`.
pub proof fn lemma_versioned_keeps_device(d: DeviceView, reply: Option<Seq<char>>)
    ensures
        versioned(d, reply).serial == d.serial,
        versioned(d, reply).state == d.state,
        versioned(d, reply).model == d.model,
        versioned(d, reply).android_version is Some ==> is_ready(d) && reply is Some,
        forall|n: u32|
            is_ready(d) && reply == Some(decimal(n as nat)) ==> #[trigger] versioned(
                d,
                reply,
            ).android_version == Some(n),
{
    assert forall|n: u32|
        is_ready(d) && reply == Some(decimal(n as nat)) implies #[trigger] versioned(
        d,
        reply,
    ).android_version == Some(n) by {
        lemma_parse_decimal_roundtrip(n);
    }
}

/// The pieces joined again with line feeds (`join("\n")`).
pub open spec fn join_lines(ps: Seq<Seq<char>>) -> Seq<char>
    decreases ps.len(),
{
    if ps.len() == 0 {
        Seq::empty()
    } else if ps.len() == 1 {
        ps[0]
    } else {
        join_lines(ps.drop_last()) + seq!['\n'] + ps.last()
    }
}

/// The pieces of a text hold no line feed and, joined with line feeds,
/// give the text back.
pub proof fn lemma_pieces_split_at_line_feeds(s: Seq<char>)
    ensures
        join_lines(pieces(s)) == s,
        forall|i: int| 0 <= i < pieces(s).len() ==> !(#[trigger] pieces(s)[i]).contains('\n'),
    decreases s.len(),
{
    lemma_pieces_nonempty(s);
    if s.len() == 0 {
        assert(pieces(s)[0] =~= Seq::<char>::empty());
    } else {
        let t = s.drop_last();
        let c = s.last();
        lemma_pieces_split_at_line_feeds(t);
        lemma_pieces_nonempty(t);
        let p = pieces(t);
        if c == '\n' {
            let q = p.push(Seq::<char>::empty());
            assert(q.drop_last() =~= p);
            assert(join_lines(q) =~= s);
            assert forall|i: int| 0 <= i < q.len() implies !(#[trigger] q[i]).contains('\n') by {
                if i < p.len() {
                    assert(q[i] == p[i]);
                }
            }
        } else {
            let l = p.last().push(c);
            let q = p.update(p.len() - 1, l);
            assert(!p[p.len() - 1].contains('\n'));
            assert(!l.contains('\n')) by {
                if l.contains('\n') {
                    let k = choose|k: int| 0 <= k < l.len() && l[k] == '\n';
                    assert(p.last()[k] == '\n');
                }
            }
            if p.len() == 1 {
                assert(join_lines(q) =~= s);
            } else {
                assert(q.drop_last() =~= p.drop_last());
                let j = join_lines(p.drop_last());
                assert(join_lines(p) == j + seq!['\n'] + p.last());
                assert(join_lines(q) == j + seq!['\n'] + l);
                assert(s =~= t.push(c));
                assert((j + seq!['\n'] + p.last()).push(c) =~= j + seq!['\n'] + l);
                assert(join_lines(q) =~= s);
            }
            assert forall|i: int| 0 <= i < q.len() implies !(#[trigger] q[i]).contains('\n') by {
                if i < p.len() - 1 {
                    assert(q[i] == p[i]);
                }
            }
        }
    }
}

/// The text after the first line is what follows the first line feed; a
/// text without line feed has nothing after its first line.
pub proof fn lemma_skip_first_line_is_rest(s: Seq<char>)
    ensures
        has_line_feed(s) ==> exists|f: int|
            0 <= f < s.len() && s[f] == '\n' && !s.take(f).contains('\n') && skip_first_line(s)
                == s.skip(f + 1),
        !has_line_feed(s) ==> skip_first_line(s).len() == 0,
    decreases s.len(),
{
    if s.len() > 0 {
        let t = s.drop_first();
        if s[0] == '\n' {
            assert(s.take(0) =~= Seq::<char>::empty());
            assert(s.skip(1) =~= t);
            assert(has_line_feed(s));
        } else {
            lemma_skip_first_line_is_rest(t);
            assert(has_line_feed(s) <==> has_line_feed(t)) by {
                if has_line_feed(s) {
                    let k = choose|k: int| 0 <= k < s.len() && s[k] == '\n';
                    assert(t[k - 1] == '\n');
                }
                if has_line_feed(t) {
                    let k = choose|k: int| 0 <= k < t.len() && t[k] == '\n';
                    assert(s[k + 1] == '\n');
                }
            }
            if has_line_feed(t) {
                let f = choose|f: int|
                    0 <= f < t.len() && t[f] == '\n' && !t.take(f).contains('\n')
                        && skip_first_line(t) == t.skip(f + 1);
                assert(s[f + 1] == '\n');
                assert(s.skip(f + 2) =~= t.skip(f + 1));
                assert(!s.take(f + 1).contains('\n')) by {
                    if s.take(f + 1).contains('\n') {
                        let k = choose|k: int| 0 <= k < f + 1 && #[trigger] s.take(f + 1)[k] == '\n';
                        assert(k != 0);
                        assert(t.take(f)[k - 1] == '\n');
                    }
                }
            }
        }
    }
}

} // verus!
