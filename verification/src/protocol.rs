//! Decoder for the framed byte stream that the system-audio helper writes to
//! its stdout.
//!
//! Every message is a 12-byte header (`"ATAP"`, version `1`, a type byte,
//! two reserved flag bytes, a little-endian `u32` payload length) followed
//! by the payload. Audio payloads carry an 18-byte fixed header and
//! interleaved little-endian `f32` samples; status payloads are UTF-8 JSON;
//! heartbeats carry nothing. A malformed header (bad magic, unknown
//! version, or an implausible payload length) is fatal to the stream:
//! there is no resynchronisation.
//!
//! Samples are kept as the `u32` bit patterns of their little-endian `f32`
//! encoding; `f32::from_bits` turns one back into the sample.

use vstd::prelude::*;
use vstd::bytes::*;
use vstd::slice::slice_subrange;

verus! {

/// The four magic bytes `"ATAP"` that open every message header.
pub const MAGIC: [u8; 4] = [0x41u8, 0x54u8, 0x41u8, 0x50u8];

/// The only protocol version this decoder understands.
pub const VERSION: u8 = 1;

/// Length in bytes of every message header.
pub const HEADER_LEN: usize = 12;

/// Length in bytes of the fixed part of an audio payload.
pub const AUDIO_FIXED_HEADER_LEN: usize = 18;

/// The largest payload length a header may declare (4 MiB): seconds of
/// multichannel 48 kHz audio, far beyond any buffer the helper writes. A
/// larger length is taken for a corrupted header, before any payload byte
/// is read.
pub const MAX_PAYLOAD_LEN: u32 = 4_194_304;

/// One decoded audio message. `samples` holds the bit patterns of the
/// interleaved `f32` samples, `frame_count * channels` of them.
#[derive(Debug, Clone, PartialEq, Eq)]
pub struct AudioMessage {
    pub timestamp_ns: u64,
    pub sample_rate: u32,
    pub channels: u8,
    pub frame_count: u32,
    pub samples: Vec<u32>,
}

/// A diagnostic event reported by the helper.
#[derive(Debug, Clone, PartialEq, Eq)]
pub struct StatusEvent {
    pub level: String,
    pub code: String,
    pub message: String,
}

#[derive(Debug, Clone, PartialEq, Eq)]
pub enum TapMessage {
    Audio(AudioMessage),
    StatusEvent(StatusEvent),
    Heartbeat,
}

/// A failure of the underlying byte stream.
#[derive(Debug, Clone, PartialEq, Eq)]
pub enum IoFailure {
    /// The stream ended inside a message.
    UnexpectedEof,
    /// Any other failure of the underlying reader, with its description.
    Other(String),
}

#[derive(Debug, Clone, PartialEq, Eq)]
pub enum ProtocolError {
    Io(IoFailure),
    BadMagic,
    UnsupportedVersion(u8),
    UnknownType(u8),
    TruncatedAudioHeader { actual: usize },
    UnsupportedFormat(u8),
    SampleDataLengthMismatch { expected: u64, actual: usize },
    MalformedStatusEvent(String),
    /// The header declares a payload length that no message of its type
    /// can have: above `MAX_PAYLOAD_LEN`, or non-zero for a heartbeat.
    ImplausiblePayloadLength { msg_type: u8, len: u32 },
}

// ---------------------------------------------------------------------------
// Mathematical model of messages and errors
// ---------------------------------------------------------------------------

pub struct AudioMessageView {
    pub timestamp_ns: u64,
    pub sample_rate: u32,
    pub channels: u8,
    pub frame_count: u32,
    pub samples: Seq<u32>,
}

pub struct StatusEventView {
    pub level: Seq<char>,
    pub code: Seq<char>,
    pub message: Seq<char>,
}

pub enum TapMessageView {
    Audio(AudioMessageView),
    StatusEvent(StatusEventView),
    Heartbeat,
}

pub enum IoFailureView {
    UnexpectedEof,
    Other(Seq<char>),
}

pub enum ProtocolErrorView {
    Io(IoFailureView),
    BadMagic,
    UnsupportedVersion(u8),
    UnknownType(u8),
    TruncatedAudioHeader { actual: nat },
    UnsupportedFormat(u8),
    SampleDataLengthMismatch { expected: nat, actual: nat },
    MalformedStatusEvent(Seq<char>),
    ImplausiblePayloadLength { msg_type: u8, len: u32 },
}

impl View for AudioMessage {
    type V = AudioMessageView;

    open spec fn view(&self) -> AudioMessageView {
        AudioMessageView {
            timestamp_ns: self.timestamp_ns,
            sample_rate: self.sample_rate,
            channels: self.channels,
            frame_count: self.frame_count,
            samples: self.samples@,
        }
    }
}

impl View for StatusEvent {
    type V = StatusEventView;

    open spec fn view(&self) -> StatusEventView {
        StatusEventView { level: self.level@, code: self.code@, message: self.message@ }
    }
}

impl View for TapMessage {
    type V = TapMessageView;

    open spec fn view(&self) -> TapMessageView {
        match self {
            TapMessage::Audio(a) => TapMessageView::Audio(a@),
            TapMessage::StatusEvent(s) => TapMessageView::StatusEvent(s@),
            TapMessage::Heartbeat => TapMessageView::Heartbeat,
        }
    }
}

impl View for IoFailure {
    type V = IoFailureView;

    open spec fn view(&self) -> IoFailureView {
        match self {
            IoFailure::UnexpectedEof => IoFailureView::UnexpectedEof,
            IoFailure::Other(s) => IoFailureView::Other(s@),
        }
    }
}

impl View for ProtocolError {
    type V = ProtocolErrorView;

    open spec fn view(&self) -> ProtocolErrorView {
        match self {
            ProtocolError::Io(e) => ProtocolErrorView::Io(e@),
            ProtocolError::BadMagic => ProtocolErrorView::BadMagic,
            ProtocolError::UnsupportedVersion(v) => ProtocolErrorView::UnsupportedVersion(*v),
            ProtocolError::UnknownType(t) => ProtocolErrorView::UnknownType(*t),
            ProtocolError::TruncatedAudioHeader { actual } => ProtocolErrorView::TruncatedAudioHeader {
                actual: *actual as nat,
            },
            ProtocolError::UnsupportedFormat(f) => ProtocolErrorView::UnsupportedFormat(*f),
            ProtocolError::SampleDataLengthMismatch { expected, actual } =>
                ProtocolErrorView::SampleDataLengthMismatch {
                expected: *expected as nat,
                actual: *actual as nat,
            },
            ProtocolError::MalformedStatusEvent(s) => ProtocolErrorView::MalformedStatusEvent(s@),
            ProtocolError::ImplausiblePayloadLength { msg_type, len } =>
                ProtocolErrorView::ImplausiblePayloadLength { msg_type: *msg_type, len: *len },
        }
    }
}

/// What one read of a message yields, as mathematical values.
pub open spec fn outcome_view(res: Result<Option<TapMessage>, ProtocolError>) -> Result<
    Option<TapMessageView>,
    ProtocolErrorView,
> {
    match res {
        Ok(Some(m)) => Ok(Some(m@)),
        Ok(None) => Ok(None),
        Err(e) => Err(e@),
    }
}

pub open spec fn magic_seq() -> Seq<u8> {
    seq![0x41u8, 0x54u8, 0x41u8, 0x50u8]
}

/// Little-endian `u32` stored at `off` in `s`.
pub open spec fn u32_at(s: Seq<u8>, off: int) -> u32 {
    spec_u32_from_le_bytes(s.subrange(off, off + 4))
}

/// Little-endian `u64` stored at `off` in `s`.
pub open spec fn u64_at(s: Seq<u8>, off: int) -> u64 {
    spec_u64_from_le_bytes(s.subrange(off, off + 8))
}

/// Whether a message of type `msg_type` can have a payload of `len` bytes:
/// a heartbeat's is empty, and no payload exceeds `MAX_PAYLOAD_LEN`.
pub open spec fn plausible_payload_len(msg_type: u8, len: u32) -> bool {
    if msg_type == 2 {
        len == 0
    } else {
        len <= MAX_PAYLOAD_LEN
    }
}

/// The validated header fields: message type and payload length.
pub open spec fn spec_parse_header(h: Seq<u8>) -> Result<(u8, u32), ProtocolErrorView> {
    if h.subrange(0, 4) != magic_seq() {
        Err(ProtocolErrorView::BadMagic)
    } else if h[4] != VERSION {
        Err(ProtocolErrorView::UnsupportedVersion(h[4]))
    } else if !plausible_payload_len(h[5], u32_at(h, 8)) {
        Err(ProtocolErrorView::ImplausiblePayloadLength { msg_type: h[5], len: u32_at(h, 8) })
    } else {
        Ok((h[5], u32_at(h, 8)))
    }
}

/// The `i`-th sample bit pattern of an audio payload.
pub open spec fn sample_at(p: Seq<u8>, i: int) -> u32 {
    u32_at(p, AUDIO_FIXED_HEADER_LEN + 4 * i)
}

pub open spec fn spec_parse_audio_payload(p: Seq<u8>) -> Result<AudioMessageView, ProtocolErrorView> {
    if p.len() < AUDIO_FIXED_HEADER_LEN {
        Err(ProtocolErrorView::TruncatedAudioHeader { actual: p.len() })
    } else if p[13] != 0 {
        Err(ProtocolErrorView::UnsupportedFormat(p[13]))
    } else {
        let frame_count = u32_at(p, 14);
        let channels = p[12];
        let expected = (frame_count * channels * 4) as nat;
        let actual = (p.len() - AUDIO_FIXED_HEADER_LEN) as nat;
        if actual != expected {
            Err(ProtocolErrorView::SampleDataLengthMismatch { expected, actual })
        } else {
            Ok(
                AudioMessageView {
                    timestamp_ns: u64_at(p, 0),
                    sample_rate: u32_at(p, 8),
                    channels,
                    frame_count,
                    samples: Seq::new((frame_count * channels) as nat, |i: int| sample_at(p, i)),
                },
            )
        }
    }
}

/// What `serde_json` makes of a status payload read as a JSON object: the
/// `level`, `code` and `message` members that are strings (`None` for a
/// member that is absent or not a string), or the text of the parse error.
pub uninterp spec fn status_json_fields(payload: Seq<u8>) -> Result<
    (Option<Seq<char>>, Option<Seq<char>>, Option<Seq<char>>),
    Seq<char>,
>;

/// The error for a status payload without a string member `name`.
pub open spec fn missing_status_field(name: Seq<char>) -> ProtocolErrorView {
    ProtocolErrorView::MalformedStatusEvent("missing or non-string field `"@ + name + "`"@)
}

pub open spec fn spec_parse_status_payload(p: Seq<u8>) -> Result<StatusEventView, ProtocolErrorView> {
    match status_json_fields(p) {
        Err(e) => Err(ProtocolErrorView::MalformedStatusEvent(e)),
        Ok((None, _, _)) => Err(missing_status_field("level"@)),
        Ok((Some(_), None, _)) => Err(missing_status_field("code"@)),
        Ok((Some(_), Some(_), None)) => Err(missing_status_field("message"@)),
        Ok((Some(level), Some(code), Some(message))) => Ok(StatusEventView { level, code, message }),
    }
}

/// The message a payload of the given type decodes to.
pub open spec fn spec_decode_payload(msg_type: u8, p: Seq<u8>) -> Result<
    TapMessageView,
    ProtocolErrorView,
> {
    if msg_type == 0 {
        match spec_parse_audio_payload(p) {
            Ok(a) => Ok(TapMessageView::Audio(a)),
            Err(e) => Err(e),
        }
    } else if msg_type == 1 {
        match spec_parse_status_payload(p) {
            Ok(s) => Ok(TapMessageView::StatusEvent(s)),
            Err(e) => Err(e),
        }
    } else if msg_type == 2 {
        Ok(TapMessageView::Heartbeat)
    } else {
        Err(ProtocolErrorView::UnknownType(msg_type))
    }
}

/// Reading one message from the stream `s`: the outcome, and how many bytes
/// of the stream the read consumes. An empty stream is a clean end
/// (`Ok(None)`); a stream that ends inside a header or a payload is an
/// unexpected end of file.
pub open spec fn spec_read_message(s: Seq<u8>) -> (
    Result<Option<TapMessageView>, ProtocolErrorView>,
    nat,
) {
    if s.len() == 0 {
        (Ok(None), 0)
    } else if s.len() < HEADER_LEN {
        (Err(ProtocolErrorView::Io(IoFailureView::UnexpectedEof)), s.len())
    } else {
        match spec_parse_header(s.subrange(0, HEADER_LEN as int)) {
            Err(e) => (Err(e), HEADER_LEN as nat),
            Ok((msg_type, len)) => {
                if s.len() - HEADER_LEN < len {
                    (Err(ProtocolErrorView::Io(IoFailureView::UnexpectedEof)), s.len())
                } else {
                    let end = HEADER_LEN + len;
                    match spec_decode_payload(msg_type, s.subrange(HEADER_LEN as int, end)) {
                        Ok(m) => (Ok(Some(m)), end as nat),
                        Err(e) => (Err(e), end as nat),
                    }
                }
            },
        }
    }
}

// ---------------------------------------------------------------------------
// Reading
// ---------------------------------------------------------------------------

/// An in-memory byte stream with a read position, the way a cursor over a
/// buffer reads.
pub struct ByteReader {
    bytes: Vec<u8>,
    pos: usize,
}

impl ByteReader {
    #[verifier::type_invariant]
    spec fn well_formed(self) -> bool {
        self.pos <= self.bytes.len()
    }

    /// All bytes of the stream, read or not.
    pub closed spec fn data(self) -> Seq<u8> {
        self.bytes@
    }

    /// How many bytes have been read so far.
    pub closed spec fn position(self) -> nat {
        self.pos as nat
    }

    /// The bytes not read yet.
    pub open spec fn remaining(self) -> Seq<u8> {
        self.data().subrange(self.position() as int, self.data().len() as int)
    }

    pub fn new(bytes: Vec<u8>) -> (r: ByteReader)
        ensures
            r.data() == bytes@,
            r.position() == 0,
    {
        ByteReader { bytes, pos: 0 }
    }

    /// The current read position.
    pub fn pos(&self) -> (p: usize)
        ensures
            p == self.position(),
    {
        self.pos
    }

    /// Copies up to `len` unread bytes out of the stream, advancing past
    /// them; fewer come back only at the end of the stream.
    pub fn read(&mut self, len: usize) -> (out: Vec<u8>)
        ensures
            final(self).data() == old(self).data(),
            out@ == old(self).remaining().take(
                if len <= old(self).remaining().len() { len as int } else { old(self).remaining().len() as int },
            ),
            final(self).position() == old(self).position() + out@.len(),
    {
        proof {
            use_type_invariant(&*self);
        }
        let avail = self.bytes.len() - self.pos;
        let n = if len <= avail { len } else { avail };
        let mut out: Vec<u8> = Vec::new();
        let mut i: usize = 0;
        while i < n
            invariant
                self.pos + n <= self.bytes.len(),
                i <= n,
                out@ == self.bytes@.subrange(self.pos as int, self.pos + i),
            decreases n - i,
        {
            out.push(self.bytes[self.pos + i]);
            i = i + 1;
        }
        proof {
            assert(out@ =~= old(self).remaining().take(n as int));
        }
        self.pos = self.pos + n;
        out
    }
}

/// Fills `buf` from the stream. `Ok(false)` when the stream was already at
/// its end (a clean end between messages), `Ok(true)` when `buf` is full;
/// a stream that ends part-way through is an unexpected end of file.
fn read_exact_or_clean_eof(reader: &mut ByteReader, buf: &mut Vec<u8>, len: usize) -> (res: Result<
    bool,
    IoFailure,
>)
    requires
        len > 0,
    ensures
        final(reader).data() == old(reader).data(),
        old(reader).remaining().len() == 0 ==> res == Ok::<bool, IoFailure>(false)
            && final(reader).position() == old(reader).position(),
        0 < old(reader).remaining().len() < len ==> res == Err::<bool, IoFailure>(
            IoFailure::UnexpectedEof,
        ) && final(reader).position() == old(reader).data().len(),
        len <= old(reader).remaining().len() ==> res == Ok::<bool, IoFailure>(true)
            && final(reader).position() == old(reader).position() + len && final(buf)@ == old(
            reader,
        ).remaining().take(len as int),
{
    proof {
        use_type_invariant(&*reader);
    }
    let mut filled: Vec<u8> = Vec::new();
    while filled.len() < len
        invariant
            reader.data() == old(reader).data(),
            reader.position() == old(reader).position() + filled@.len(),
            filled@.len() <= len,
            filled@ == old(reader).remaining().take(filled@.len() as int),
            old(reader).position() <= old(reader).data().len(),
            filled@.len() <= old(reader).remaining().len(),
        decreases len - filled@.len(),
    {
        proof {
            use_type_invariant(&*reader);
        }
        let chunk = reader.read(len - filled.len());
        if chunk.len() == 0 {
            proof {
                assert(reader.remaining().len() == 0);
            }
            if filled.len() == 0 {
                return Ok(false);
            }
            return Err(IoFailure::UnexpectedEof);
        }
        let ghost before = filled@;
        let mut k: usize = 0;
        while k < chunk.len()
            invariant
                k <= chunk@.len(),
                filled@ == before + chunk@.take(k as int),
            decreases chunk@.len() - k,
        {
            filled.push(chunk[k]);
            k = k + 1;
        }
        proof {
            assert(chunk@.take(chunk@.len() as int) =~= chunk@);
            assert(filled@ =~= old(reader).remaining().take(filled@.len() as int));
        }
    }
    *buf = filled;
    Ok(true)
}

/// Checks a 12-byte header and returns its message type and payload length;
/// a length no message of that type can have is rejected.
pub fn parse_header(header: &[u8]) -> (res: Result<(u8, u32), ProtocolError>)
    requires
        header@.len() == HEADER_LEN,
    ensures
        match res {
            Ok(v) => spec_parse_header(header@) == Ok::<(u8, u32), ProtocolErrorView>(v),
            Err(e) => spec_parse_header(header@) == Err::<(u8, u32), ProtocolErrorView>(e@),
        },
{
    if header[0] != MAGIC[0] || header[1] != MAGIC[1] || header[2] != MAGIC[2] || header[3]
        != MAGIC[3] {
        proof {
            assert(header@.subrange(0, 4) != magic_seq()) by {
                if header@.subrange(0, 4) == magic_seq() {
                    assert(header@.subrange(0, 4)[0] == header@[0]);
                    assert(header@.subrange(0, 4)[1] == header@[1]);
                    assert(header@.subrange(0, 4)[2] == header@[2]);
                    assert(header@.subrange(0, 4)[3] == header@[3]);
                }
            }
        }
        return Err(ProtocolError::BadMagic);
    }
    proof {
        assert(header@.subrange(0, 4) =~= magic_seq());
    }
    let version = header[4];
    if version != VERSION {
        return Err(ProtocolError::UnsupportedVersion(version));
    }
    let message_type = header[5];
    let payload_len = u32_from_le_bytes(slice_subrange(header, 8, 12));
    let plausible = if message_type == 2 {
        payload_len == 0
    } else {
        payload_len <= MAX_PAYLOAD_LEN
    };
    if !plausible {
        return Err(ProtocolError::ImplausiblePayloadLength { msg_type: message_type, len: payload_len });
    }
    Ok((message_type, payload_len))
}

/// Decodes an audio payload: the 18-byte fixed header, then exactly
/// `frame_count * channels` little-endian `f32` samples.
pub fn parse_audio_payload(payload: &[u8]) -> (res: Result<AudioMessage, ProtocolError>)
    ensures
        match res {
            Ok(m) => spec_parse_audio_payload(payload@) == Ok::<
                AudioMessageView,
                ProtocolErrorView,
            >(m@),
            Err(e) => spec_parse_audio_payload(payload@) == Err::<
                AudioMessageView,
                ProtocolErrorView,
            >(e@),
        },
{
    if payload.len() < AUDIO_FIXED_HEADER_LEN {
        return Err(ProtocolError::TruncatedAudioHeader { actual: payload.len() });
    }
    let timestamp_ns = u64_from_le_bytes(slice_subrange(payload, 0, 8));
    let sample_rate = u32_from_le_bytes(slice_subrange(payload, 8, 12));
    let channels = payload[12];
    let format = payload[13];
    if format != 0 {
        return Err(ProtocolError::UnsupportedFormat(format));
    }
    let frame_count = u32_from_le_bytes(slice_subrange(payload, 14, 18));
    let actual = payload.len() - AUDIO_FIXED_HEADER_LEN;
    assert(frame_count as u64 * channels as u64 <= 0xffff_ffff * 0xff) by (nonlinear_arith)
        requires
            frame_count <= 0xffff_ffff,
            channels <= 0xff,
    ;
    let samples_len: u64 = frame_count as u64 * channels as u64;
    let expected_bytes: u64 = samples_len * 4;
    if actual as u64 != expected_bytes {
        return Err(
            ProtocolError::SampleDataLengthMismatch { expected: expected_bytes, actual },
        );
    }
    let n = samples_len as usize;
    let mut samples: Vec<u32> = Vec::new();
    let mut i: usize = 0;
    while i < n
        invariant
            i <= n,
            n == frame_count * channels,
            payload@.len() == AUDIO_FIXED_HEADER_LEN + 4 * n,
            AUDIO_FIXED_HEADER_LEN + 4 * n <= usize::MAX,
            samples@ == Seq::new(i as nat, |k: int| sample_at(payload@, k)),
        decreases n - i,
    {
        assert(4 * i + 4 <= 4 * n) by (nonlinear_arith)
            requires
                i < n,
        ;
        let start = AUDIO_FIXED_HEADER_LEN + 4 * i;
        let bits = u32_from_le_bytes(slice_subrange(payload, start, start + 4));
        samples.push(bits);
        i = i + 1;
        proof {
            assert(samples@ =~= Seq::new(i as nat, |k: int| sample_at(payload@, k)));
        }
    }
    Ok(AudioMessage { timestamp_ns, sample_rate, channels, frame_count, samples })
}

/// `serde_json::from_slice` into a `serde_json::Map`, then
/// `Value::as_str` on its `level`, `code` and `message` members. The
/// contract names the outcome `status_json_fields`; what it is for given
/// bytes (JSON syntax, escapes, duplicate keys) is serde_json's and is not
/// restated.
#[verifier::external_body]
fn status_json(payload: &[u8]) -> (res: Result<(Option<String>, Option<String>, Option<String>), String>)
    ensures
        match res {
            Ok((level, code, message)) => status_json_fields(payload@) == Ok::<
                (Option<Seq<char>>, Option<Seq<char>>, Option<Seq<char>>),
                Seq<char>,
            >((opt_chars(level), opt_chars(code), opt_chars(message))),
            Err(e) => status_json_fields(payload@) == Err::<
                (Option<Seq<char>>, Option<Seq<char>>, Option<Seq<char>>),
                Seq<char>,
            >(e@),
        },
{
    let map: serde_json::Map<String, serde_json::Value> = serde_json::from_slice(payload).map_err(
        |e| e.to_string(),
    )?;
    Ok((
        map.get("level").and_then(serde_json::Value::as_str).map(str::to_owned),
        map.get("code").and_then(serde_json::Value::as_str).map(str::to_owned),
        map.get("message").and_then(serde_json::Value::as_str).map(str::to_owned),
    ))
}

pub open spec fn opt_chars(o: Option<String>) -> Option<Seq<char>> {
    match o {
        Some(s) => Some(s@),
        None => None,
    }
}

fn missing_status_field_error(name: &str) -> (e: ProtocolError)
    ensures
        e@ == missing_status_field(name@),
{
    let mut text = String::new();
    text.push_str("missing or non-string field `");
    text.push_str(name);
    text.push_str("`");
    ProtocolError::MalformedStatusEvent(text)
}

/// Decodes a status payload: UTF-8 JSON whose `level`, `code` and
/// `message` members are strings.
pub fn parse_status_payload(payload: &[u8]) -> (res: Result<StatusEvent, ProtocolError>)
    ensures
        match res {
            Ok(s) => spec_parse_status_payload(payload@) == Ok::<
                StatusEventView,
                ProtocolErrorView,
            >(s@),
            Err(e) => spec_parse_status_payload(payload@) == Err::<
                StatusEventView,
                ProtocolErrorView,
            >(e@),
        },
{
    match status_json(payload) {
        Err(e) => Err(ProtocolError::MalformedStatusEvent(e)),
        Ok((None, _, _)) => Err(missing_status_field_error("level")),
        Ok((Some(_), None, _)) => Err(missing_status_field_error("code")),
        Ok((Some(_), Some(_), None)) => Err(missing_status_field_error("message")),
        Ok((Some(level), Some(code), Some(message))) => Ok(StatusEvent { level, code, message }),
    }
}

/// Decodes the payload of a message of the given type.
pub fn decode_payload(msg_type: u8, payload: &[u8]) -> (res: Result<TapMessage, ProtocolError>)
    ensures
        match res {
            Ok(m) => spec_decode_payload(msg_type, payload@) == Ok::<
                TapMessageView,
                ProtocolErrorView,
            >(m@),
            Err(e) => spec_decode_payload(msg_type, payload@) == Err::<
                TapMessageView,
                ProtocolErrorView,
            >(e@),
        },
{
    match msg_type {
        0 => match parse_audio_payload(payload) {
            Ok(a) => Ok(TapMessage::Audio(a)),
            Err(e) => Err(e),
        },
        1 => match parse_status_payload(payload) {
            Ok(s) => Ok(TapMessage::StatusEvent(s)),
            Err(e) => Err(e),
        },
        2 => Ok(TapMessage::Heartbeat),
        other => Err(ProtocolError::UnknownType(other)),
    }
}

/// Reads one message. `Ok(None)` is a clean end of stream (the stream ended
/// exactly between messages); every other failure is fatal to the stream.
pub fn read_message(reader: &mut ByteReader) -> (res: Result<Option<TapMessage>, ProtocolError>)
    ensures
        final(reader).data() == old(reader).data(),
        outcome_view(res) == spec_read_message(old(reader).remaining()).0,
        final(reader).position() == old(reader).position() + spec_read_message(
            old(reader).remaining(),
        ).1,
{
    proof {
        use_type_invariant(&*reader);
    }
    let ghost s = old(reader).remaining();
    let mut header: Vec<u8> = Vec::new();
    match read_exact_or_clean_eof(reader, &mut header, HEADER_LEN) {
        Ok(true) => {},
        Ok(false) => {
            return Ok(None);
        },
        Err(e) => {
            return Err(ProtocolError::Io(e));
        },
    }
    proof {
        assert(header@ =~= s.subrange(0, HEADER_LEN as int));
    }
    let (message_type, payload_len) = match parse_header(header.as_slice()) {
        Ok(v) => v,
        Err(e) => {
            return Err(e);
        },
    };
    proof {
        use_type_invariant(&*reader);
        assert(reader.remaining() =~= s.subrange(HEADER_LEN as int, s.len() as int));
    }
    let payload = reader.read(payload_len as usize);
    if payload.len() < payload_len as usize {
        proof {
            use_type_invariant(&*reader);
        }
        return Err(ProtocolError::Io(IoFailure::UnexpectedEof));
    }
    proof {
        assert(payload@ =~= s.subrange(HEADER_LEN as int, HEADER_LEN + payload_len));
    }
    match decode_payload(message_type, payload.as_slice()) {
        Ok(m) => Ok(Some(m)),
        Err(e) => Err(e),
    }
}

// ---------------------------------------------------------------------------
// Encoding, and the laws that tie it to decoding
// ---------------------------------------------------------------------------

/// The bytes of one message: header (magic, version, type, zero flags,
/// little-endian payload length) followed by the payload.
pub open spec fn spec_encode_frame(msg_type: u8, payload: Seq<u8>) -> Seq<u8> {
    magic_seq() + seq![VERSION, msg_type, 0u8, 0u8] + spec_u32_to_le_bytes(payload.len() as u32)
        + payload
}

/// Little-endian encoding of a sequence of sample bit patterns.
pub open spec fn spec_encode_samples(samples: Seq<u32>) -> Seq<u8>
    decreases samples.len(),
{
    if samples.len() == 0 {
        Seq::empty()
    } else {
        spec_encode_samples(samples.drop_last()) + spec_u32_to_le_bytes(samples.last())
    }
}

/// The payload of an audio message, in the layout the protocol fixes.
pub open spec fn spec_encode_audio_payload(m: AudioMessageView) -> Seq<u8> {
    spec_u64_to_le_bytes(m.timestamp_ns) + spec_u32_to_le_bytes(m.sample_rate) + seq![
        m.channels,
        0u8,
    ] + spec_u32_to_le_bytes(m.frame_count) + spec_encode_samples(m.samples)
}

proof fn lemma_encode_samples(samples: Seq<u32>)
    ensures
        spec_encode_samples(samples).len() == 4 * samples.len(),
        forall|i: int|
            0 <= i < samples.len() ==> #[trigger] spec_encode_samples(samples).subrange(
                4 * i,
                4 * i + 4,
            ) == spec_u32_to_le_bytes(samples[i]),
    decreases samples.len(),
{
    lemma_auto_spec_u32_to_from_le_bytes();
    if samples.len() > 0 {
        let init = samples.drop_last();
        lemma_encode_samples(init);
        let enc = spec_encode_samples(samples);
        let head = spec_encode_samples(init);
        let tail = spec_u32_to_le_bytes(samples.last());
        assert(enc == head + tail);
        assert forall|i: int| 0 <= i < samples.len() implies #[trigger] enc.subrange(
            4 * i,
            4 * i + 4,
        ) == spec_u32_to_le_bytes(samples[i]) by {
            if i < init.len() {
                assert(enc.subrange(4 * i, 4 * i + 4) =~= head.subrange(4 * i, 4 * i + 4));
            } else {
                assert(enc.subrange(4 * i, 4 * i + 4) =~= tail);
            }
        }
    }
}

/// Reading from a stream that starts with a well-formed frame of type `t`
/// yields exactly what the payload decodes to, and consumes exactly that
/// frame, whatever follows it.
pub proof fn framing_round_trip(msg_type: u8, payload: Seq<u8>, rest: Seq<u8>)
    requires
        payload.len() <= u32::MAX,
        plausible_payload_len(msg_type, payload.len() as u32),
    ensures
        spec_read_message(spec_encode_frame(msg_type, payload) + rest) == (match spec_decode_payload(
            msg_type,
            payload,
        ) {
            Ok(m) => (Ok(Some(m)), (HEADER_LEN + payload.len()) as nat),
            Err(e) => (Err(e), (HEADER_LEN + payload.len()) as nat),
        }),
{
    lemma_auto_spec_u32_to_from_le_bytes();
    let s = spec_encode_frame(msg_type, payload) + rest;
    let len_bytes = spec_u32_to_le_bytes(payload.len() as u32);
    let h = s.subrange(0, HEADER_LEN as int);
    assert(h.subrange(0, 4) =~= magic_seq());
    assert(h[4] == VERSION);
    assert(h[5] == msg_type);
    assert(h.subrange(8, 12) =~= len_bytes);
    assert(u32_at(h, 8) == payload.len());
    assert(s.subrange(HEADER_LEN as int, HEADER_LEN + payload.len()) =~= payload);
}

/// Decoding the encoding of a well-formed audio message (one whose sample
/// count is `frame_count * channels`) gives the message back.
pub proof fn audio_payload_round_trip(m: AudioMessageView)
    requires
        m.samples.len() == m.frame_count * m.channels,
    ensures
        spec_parse_audio_payload(spec_encode_audio_payload(m)) == Ok::<
            AudioMessageView,
            ProtocolErrorView,
        >(m),
{
    lemma_auto_spec_u32_to_from_le_bytes();
    lemma_auto_spec_u64_to_from_le_bytes();
    lemma_encode_samples(m.samples);
    let p = spec_encode_audio_payload(m);
    let ts = spec_u64_to_le_bytes(m.timestamp_ns);
    let sr = spec_u32_to_le_bytes(m.sample_rate);
    let fc = spec_u32_to_le_bytes(m.frame_count);
    let body = spec_encode_samples(m.samples);
    assert(p.subrange(0, 8) =~= ts);
    assert(p.subrange(8, 12) =~= sr);
    assert(p[12] == m.channels);
    assert(p[13] == 0);
    assert(p.subrange(14, 18) =~= fc);
    assert(p.len() == AUDIO_FIXED_HEADER_LEN + 4 * m.samples.len());
    let decoded = Seq::new((m.frame_count * m.channels) as nat, |i: int| sample_at(p, i));
    assert forall|i: int| 0 <= i < m.samples.len() implies decoded[i] == m.samples[i] by {
        assert(p.subrange(AUDIO_FIXED_HEADER_LEN + 4 * i, AUDIO_FIXED_HEADER_LEN + 4 * i + 4)
            =~= body.subrange(4 * i, 4 * i + 4));
        assert(body.subrange(4 * i, 4 * i + 4) == spec_u32_to_le_bytes(m.samples[i]));
    }
    assert(decoded =~= m.samples);
}

/// A well-formed audio message, framed and written to a stream, is read back
/// as that same message, consuming exactly its frame.
pub proof fn audio_message_round_trip(m: AudioMessageView, rest: Seq<u8>)
    requires
        m.samples.len() == m.frame_count * m.channels,
        AUDIO_FIXED_HEADER_LEN + 4 * m.samples.len() <= MAX_PAYLOAD_LEN,
    ensures
        spec_read_message(spec_encode_frame(0, spec_encode_audio_payload(m)) + rest) == (
            Ok::<Option<TapMessageView>, ProtocolErrorView>(Some(TapMessageView::Audio(m))),
            (HEADER_LEN + AUDIO_FIXED_HEADER_LEN + 4 * m.samples.len()) as nat,
        ),
{
    lemma_auto_spec_u32_to_from_le_bytes();
    lemma_auto_spec_u64_to_from_le_bytes();
    lemma_encode_samples(m.samples);
    let p = spec_encode_audio_payload(m);
    assert(p.len() == AUDIO_FIXED_HEADER_LEN + 4 * m.samples.len());
    audio_payload_round_trip(m);
    framing_round_trip(0, p, rest);
}

/// A heartbeat frame (empty payload) is read back as a heartbeat, consuming
/// just its header.
pub proof fn heartbeat_round_trip(rest: Seq<u8>)
    ensures
        spec_read_message(spec_encode_frame(2, Seq::empty()) + rest) == (
            Ok::<Option<TapMessageView>, ProtocolErrorView>(Some(TapMessageView::Heartbeat)),
            HEADER_LEN as nat,
        ),
{
    framing_round_trip(2, Seq::empty(), rest);
}

/// A header that declares a length no message of its type can have ends the
/// stream with an error after the 12 header bytes, whatever follows: the
/// declared payload is never read.
pub proof fn implausible_length_is_fatal(msg_type: u8, len: u32, rest: Seq<u8>)
    requires
        !plausible_payload_len(msg_type, len),
    ensures
        spec_read_message(
            magic_seq() + seq![VERSION, msg_type, 0u8, 0u8] + spec_u32_to_le_bytes(len) + rest,
        ) == (
            Err::<Option<TapMessageView>, ProtocolErrorView>(
                ProtocolErrorView::ImplausiblePayloadLength { msg_type, len },
            ),
            HEADER_LEN as nat,
        ),
{
    lemma_auto_spec_u32_to_from_le_bytes();
    let s = magic_seq() + seq![VERSION, msg_type, 0u8, 0u8] + spec_u32_to_le_bytes(len) + rest;
    let h = s.subrange(0, HEADER_LEN as int);
    assert(h.subrange(0, 4) =~= magic_seq());
    assert(h[4] == VERSION);
    assert(h[5] == msg_type);
    assert(h.subrange(8, 12) =~= spec_u32_to_le_bytes(len));
}

} // verus!
