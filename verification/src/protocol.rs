//! The Android Hub audio stream format: a fixed header, then frames of
//! 16-bit PCM samples, each preceded by its length.
use vstd::prelude::*;

verus! {

/// The four bytes that open every stream: `AHUB`.
pub const MAGIC: [u8; 4] = [0x41, 0x48, 0x55, 0x42];

/// The stream format version this side speaks.
pub const VERSION: u8 = 1;

/// Codec number of signed 16-bit little-endian PCM.
pub const PCM_S16LE: u8 = 1;

/// Length of the stream header in bytes.
pub const HEADER_LEN: usize = 12;

/// Largest accepted frame payload in bytes.
pub const MAX_FRAME_BYTES: usize = 16 * 1024;

/// The audio format a stream announces in its header.
#[derive(Debug, Clone, Copy, PartialEq, Eq, Structural)]
pub struct AudioFormat {
    pub sample_rate: u32,
    pub channels: u8,
    pub codec: u8,
}

impl AudioFormat {
    /// 48 kHz mono 16-bit PCM, the format the Android app sends.
    pub open spec fn spec_pcm_48k_mono() -> AudioFormat {
        AudioFormat { sample_rate: 48_000, channels: 1, codec: PCM_S16LE }
    }

    /// 48 kHz mono 16-bit PCM, the format the Android app sends.
    #[verifier::when_used_as_spec(spec_pcm_48k_mono)]
    pub fn pcm_48k_mono() -> (r: AudioFormat)
        ensures
            r == Self::spec_pcm_48k_mono(),
    {
        AudioFormat { sample_rate: 48_000, channels: 1, codec: PCM_S16LE }
    }
}

/// Why a stream header or frame was refused.
#[derive(Debug, Clone, Copy, PartialEq, Eq, Structural)]
pub enum ProtocolError {
    /// The input ended before the header or frame was complete.
    UnexpectedEof,
    /// The header has another magic, version, codec or channel count.
    UnsupportedStream,
    /// The header announces a sample rate outside 8 kHz to 48 kHz.
    InvalidSampleRate,
    /// A frame announces a length that is zero, odd or above the maximum.
    InvalidFrameLength,
}

impl ProtocolError {
    /// The message that explains this error.
    pub fn message(&self) -> (r: &'static str)
        ensures
            match self {
                ProtocolError::UnexpectedEof => r@ == "failed to fill whole buffer"@,
                ProtocolError::UnsupportedStream => r@ == "unsupported Android Hub audio stream"@,
                ProtocolError::InvalidSampleRate => r@ == "invalid sample rate"@,
                ProtocolError::InvalidFrameLength => r@ == "invalid audio frame length"@,
            },
    {
        match self {
            ProtocolError::UnexpectedEof => "failed to fill whole buffer",
            ProtocolError::UnsupportedStream => "unsupported Android Hub audio stream",
            ProtocolError::InvalidSampleRate => "invalid sample rate",
            ProtocolError::InvalidFrameLength => "invalid audio frame length",
        }
    }
}

/// The big-endian encoding of a `u32` (`u32::to_be_bytes`).
pub open spec fn be_bytes(v: u32) -> Seq<u8> {
    seq![
        (v / 0x100_0000) as u8,
        ((v / 0x1_0000) % 0x100) as u8,
        ((v / 0x100) % 0x100) as u8,
        (v % 0x100) as u8,
    ]
}

/// The `u32` that four big-endian bytes denote (`u32::from_be_bytes`).
pub open spec fn be_value(b: Seq<u8>) -> nat
    recommends
        b.len() == 4,
{
    (b[0] * 0x100_0000 + b[1] * 0x1_0000 + b[2] * 0x100 + b[3]) as nat
}

/// The twelve header bytes that announce `f`: magic, version, codec,
/// channels, a reserved zero byte, then the sample rate in big-endian.
pub open spec fn header_bytes(f: AudioFormat) -> Seq<u8> {
    MAGIC@ + seq![VERSION, f.codec, f.channels, 0u8] + be_bytes(f.sample_rate)
}

/// What reading a header from the start of `input` gives.
pub open spec fn header_spec(input: Seq<u8>) -> Result<AudioFormat, ProtocolError> {
    if input.len() < HEADER_LEN {
        Err(ProtocolError::UnexpectedEof)
    } else if input.take(4) != MAGIC@ || input[4] != VERSION || input[5] != PCM_S16LE
        || input[6] != 1 {
        Err(ProtocolError::UnsupportedStream)
    } else {
        let rate = be_value(input.subrange(8, 12));
        if rate < 8_000 || rate > 48_000 {
            Err(ProtocolError::InvalidSampleRate)
        } else {
            Ok(AudioFormat { sample_rate: rate as u32, channels: 1, codec: PCM_S16LE })
        }
    }
}

/// What checking a frame's four-byte length prefix gives.
pub open spec fn frame_length_spec(prefix: Seq<u8>) -> Result<usize, ProtocolError> {
    let len = be_value(prefix);
    if len == 0 || len > MAX_FRAME_BYTES || len % 2 != 0 {
        Err(ProtocolError::InvalidFrameLength)
    } else {
        Ok(len as usize)
    }
}

/// What reading one frame from the start of `input` gives.
pub open spec fn frame_spec(input: Seq<u8>) -> Result<Seq<u8>, ProtocolError> {
    if input.len() < 4 {
        Err(ProtocolError::UnexpectedEof)
    } else {
        match frame_length_spec(input.take(4)) {
            Err(e) => Err(e),
            Ok(len) => if input.len() < 4 + len {
                Err(ProtocolError::UnexpectedEof)
            } else {
                Ok(input.subrange(4, 4 + len))
            },
        }
    }
}

/// The big-endian bytes of `v`.
pub fn u32_to_be_bytes(v: u32) -> (r: [u8; 4])
    ensures
        r@ == be_bytes(v),
{
    let r = [
        (v / 0x100_0000) as u8,
        ((v / 0x1_0000) % 0x100) as u8,
        ((v / 0x100) % 0x100) as u8,
        (v % 0x100) as u8,
    ];
    assert(r@ =~= be_bytes(v));
    r
}

/// The `u32` that four big-endian bytes denote.
pub fn u32_from_be_bytes(b0: u8, b1: u8, b2: u8, b3: u8) -> (r: u32)
    ensures
        r == be_value(seq![b0, b1, b2, b3]),
{
    (b0 as u32) * 0x100_0000 + (b1 as u32) * 0x1_0000 + (b2 as u32) * 0x100 + (b3 as u32)
}

/// Appends the stream header announcing `format` to `out`.
pub fn write_header(out: &mut Vec<u8>, format: AudioFormat)
    ensures
        final(out)@ == old(out)@ + header_bytes(format),
{
    out.push(MAGIC[0]);
    out.push(MAGIC[1]);
    out.push(MAGIC[2]);
    out.push(MAGIC[3]);
    out.push(VERSION);
    out.push(format.codec);
    out.push(format.channels);
    out.push(0);
    let rate = u32_to_be_bytes(format.sample_rate);
    out.push(rate[0]);
    out.push(rate[1]);
    out.push(rate[2]);
    out.push(rate[3]);
    assert(out@ =~= old(out)@ + header_bytes(format));
}

/// Reads the stream header from the start of `input` and checks that it
/// announces a supported stream: mono 16-bit PCM at 8 kHz to 48 kHz.
/// Bytes after the header are not read.
pub fn read_header(input: &[u8]) -> (r: Result<AudioFormat, ProtocolError>)
    ensures
        r == header_spec(input@),
{
    if input.len() < HEADER_LEN {
        return Err(ProtocolError::UnexpectedEof);
    }
    let magic_ok = input[0] == MAGIC[0] && input[1] == MAGIC[1] && input[2] == MAGIC[2]
        && input[3] == MAGIC[3];
    assert(magic_ok == (input@.take(4) =~= MAGIC@));
    if !magic_ok || input[4] != VERSION || input[5] != PCM_S16LE || input[6] != 1 {
        return Err(ProtocolError::UnsupportedStream);
    }
    let sample_rate = u32_from_be_bytes(input[8], input[9], input[10], input[11]);
    assert(input@.subrange(8, 12) =~= seq![input@[8], input@[9], input@[10], input@[11]]);
    if sample_rate < 8_000 || sample_rate > 48_000 {
        return Err(ProtocolError::InvalidSampleRate);
    }
    Ok(AudioFormat { sample_rate, channels: 1, codec: PCM_S16LE })
}

/// Checks a frame's four-byte length prefix and gives the payload length.
pub fn frame_length(prefix: [u8; 4]) -> (r: Result<usize, ProtocolError>)
    ensures
        r == frame_length_spec(prefix@),
{
    let len = u32_from_be_bytes(prefix[0], prefix[1], prefix[2], prefix[3]);
    assert(prefix@ =~= seq![prefix[0], prefix[1], prefix[2], prefix[3]]);
    if len == 0 || len as usize > MAX_FRAME_BYTES || len % 2 != 0 {
        return Err(ProtocolError::InvalidFrameLength);
    }
    Ok(len as usize)
}

/// Reads one frame from the start of `input`: a big-endian length, then
/// that many payload bytes, which are returned. Bytes after the frame are
/// not read.
pub fn read_frame(input: &[u8]) -> (r: Result<Vec<u8>, ProtocolError>)
    ensures
        match frame_spec(input@) {
            Ok(payload) => r matches Ok(v) && v@ == payload,
            Err(e) => r == Err::<Vec<u8>, ProtocolError>(e),
        },
{
    if input.len() < 4 {
        return Err(ProtocolError::UnexpectedEof);
    }
    let prefix = [input[0], input[1], input[2], input[3]];
    assert(prefix@ =~= input@.take(4));
    let len = match frame_length(prefix) {
        Ok(len) => len,
        Err(e) => return Err(e),
    };
    if input.len() - 4 < len {
        return Err(ProtocolError::UnexpectedEof);
    }
    let mut frame: Vec<u8> = Vec::new();
    let mut i: usize = 0;
    while i < len
        invariant
            i <= len,
            4 + len <= input.len(),
            frame@ == input@.subrange(4, 4 + i),
        decreases len - i,
    {
        frame.push(input[4 + i]);
        i = i + 1;
        assert(frame@ =~= input@.subrange(4, 4 + i));
    }
    Ok(frame)
}

/// Whether a header can announce `f`: this side accepts mono 16-bit PCM
/// at 8 kHz to 48 kHz and nothing else.
pub open spec fn supported(f: AudioFormat) -> bool {
    &&& f.codec == PCM_S16LE
    &&& f.channels == 1
    &&& 8_000 <= f.sample_rate <= 48_000
}

/// Decoding the big-endian bytes of a `u32` gives it back.
pub proof fn lemma_be_value_of_bytes(v: u32)
    ensures
        be_bytes(v).len() == 4,
        be_value(be_bytes(v)) == v,
{
    let b = be_bytes(v);
    assert(b[0] == v / 0x100_0000);
    assert(b[1] == (v / 0x1_0000) % 0x100);
    assert(b[2] == (v / 0x100) % 0x100);
    assert(b[3] == v % 0x100);
    assert(be_value(b) == v) by (nonlinear_arith)
        requires
            b[0] == v / 0x100_0000,
            b[1] == (v / 0x1_0000) % 0x100,
            b[2] == (v / 0x100) % 0x100,
            b[3] == v % 0x100,
            be_value(b) == (b[0] * 0x100_0000 + b[1] * 0x1_0000 + b[2] * 0x100 + b[3]) as nat,
    ;
}

/// Encoding the value of four bytes gives the same four bytes.
pub proof fn lemma_be_bytes_of_value(b: Seq<u8>)
    requires
        b.len() == 4,
    ensures
        be_value(b) <= u32::MAX,
        be_bytes(be_value(b) as u32) == b,
{
    let v = be_value(b);
    let (b0, b1, b2, b3) = (b[0] as int, b[1] as int, b[2] as int, b[3] as int);
    assert(v == b0 * 0x100_0000 + b1 * 0x1_0000 + b2 * 0x100 + b3);
    assert(v / 0x100_0000 == b0 && (v / 0x1_0000) % 0x100 == b1 && (v / 0x100) % 0x100 == b2
        && v % 0x100 == b3 && v <= u32::MAX) by (nonlinear_arith)
        requires
            v == b0 * 0x100_0000 + b1 * 0x1_0000 + b2 * 0x100 + b3,
            0 <= b0 < 0x100,
            0 <= b1 < 0x100,
            0 <= b2 < 0x100,
            0 <= b3 < 0x100,
    ;
    assert(be_bytes(v as u32) =~= b);
}

/// A written header reads back as the format it announces, whatever
/// follows it in the stream.
pub proof fn lemma_header_roundtrip(f: AudioFormat, rest: Seq<u8>)
    requires
        supported(f),
    ensures
        header_spec(header_bytes(f) + rest) == Ok::<AudioFormat, ProtocolError>(f),
{
    let input = header_bytes(f) + rest;
    lemma_be_value_of_bytes(f.sample_rate);
    assert(input.take(4) =~= MAGIC@);
    assert(input.subrange(8, 12) =~= be_bytes(f.sample_rate));
}

/// A header that is read successfully is the header of the format read,
/// except for the reserved byte, which reading ignores.
pub proof fn lemma_header_canonical(input: Seq<u8>)
    requires
        header_spec(input) is Ok,
    ensures
        supported(header_spec(input)->Ok_0),
        header_bytes(header_spec(input)->Ok_0) == input.take(HEADER_LEN as int).update(7, 0u8),
{
    let f = header_spec(input)->Ok_0;
    lemma_be_bytes_of_value(input.subrange(8, 12));
    assert(be_bytes(f.sample_rate) =~= input.subrange(8, 12));
    assert(input.take(4) == MAGIC@);
    assert(input[0] == MAGIC@[0] && input[1] == MAGIC@[1] && input[2] == MAGIC@[2] && input[3]
        == MAGIC@[3]) by {
        assert(input.take(4)[0] == input[0]);
        assert(input.take(4)[1] == input[1]);
        assert(input.take(4)[2] == input[2]);
        assert(input.take(4)[3] == input[3]);
    }
    assert(header_bytes(f) =~= input.take(HEADER_LEN as int).update(7, 0u8));
}

/// Whether `len` is an acceptable frame payload length.
pub open spec fn valid_frame_len(len: nat) -> bool {
    0 < len <= MAX_FRAME_BYTES && len % 2 == 0
}

/// A payload of acceptable length, preceded by its big-endian length,
/// reads back as that payload, whatever follows it in the stream.
pub proof fn lemma_frame_roundtrip(payload: Seq<u8>, rest: Seq<u8>)
    requires
        valid_frame_len(payload.len()),
    ensures
        frame_spec(be_bytes(payload.len() as u32) + payload + rest) == Ok::<
            Seq<u8>,
            ProtocolError,
        >(payload),
{
    let prefix = be_bytes(payload.len() as u32);
    let input = prefix + payload + rest;
    lemma_be_value_of_bytes(payload.len() as u32);
    assert(input.take(4) =~= prefix);
    assert(input.subrange(4, 4 + payload.len() as int) =~= payload);
}

/// A frame that is read successfully has an acceptable length and is
/// exactly the bytes after its length prefix, which encodes that length.
pub proof fn lemma_frame_canonical(input: Seq<u8>)
    requires
        frame_spec(input) is Ok,
    ensures
        valid_frame_len(frame_spec(input)->Ok_0.len()),
        input.take(4 + frame_spec(input)->Ok_0.len() as int) == be_bytes(
            frame_spec(input)->Ok_0.len() as u32,
        ) + frame_spec(input)->Ok_0,
{
    let p = frame_spec(input)->Ok_0;
    lemma_be_bytes_of_value(input.take(4));
    assert(input.take(4 + p.len() as int) =~= input.take(4) + p);
}

/// The header of every format, supported or not, has the same layout:
/// the magic, the version, the codec, the channel count, a zero byte, and
/// the sample rate in big-endian.
pub proof fn lemma_header_layout(f: AudioFormat)
    ensures
        header_bytes(f).len() == HEADER_LEN,
        header_bytes(f).take(4) == seq![0x41u8, 0x48, 0x55, 0x42],
        header_bytes(f)[4] == VERSION,
        header_bytes(f)[5] == f.codec,
        header_bytes(f)[6] == f.channels,
        header_bytes(f)[7] == 0,
        be_value(header_bytes(f).subrange(8, 12)) == f.sample_rate,
{
    let h = header_bytes(f);
    lemma_be_value_of_bytes(f.sample_rate);
    assert(h.take(4) =~= seq![0x41u8, 0x48, 0x55, 0x42]);
    assert(h.subrange(8, 12) =~= be_bytes(f.sample_rate));
}

} // verus!
