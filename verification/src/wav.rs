//! The mono 16-bit PCM WAV sections that the Windows recorder writes: the
//! header a finished file carries, the checks a file must pass before its
//! samples are trusted, and the byte range of a bounded upload chunk.
use vstd::prelude::*;

use crate::error::{AppError, AppResult};

verus! {

/// Little-endian 32-bit value at `i`.
pub open spec fn le32(b: Seq<u8>, i: int) -> int {
    b[i] as int + b[i + 1] as int * 256 + b[i + 2] as int * 65536 + b[i + 3] as int * 16777216
}

/// Little-endian 16-bit value at `i`.
pub open spec fn le16(b: Seq<u8>, i: int) -> int {
    b[i] as int + b[i + 1] as int * 256
}

/// The four bytes at `i` spell `t`.
pub open spec fn tag_at(b: Seq<u8>, i: int, t: Seq<u8>) -> bool {
    b[i] == t[0] && b[i + 1] == t[1] && b[i + 2] == t[2] && b[i + 3] == t[3]
}

pub open spec fn riff_tag() -> Seq<u8> {
    seq![0x52u8, 0x49u8, 0x46u8, 0x46u8]
}

pub open spec fn wave_tag() -> Seq<u8> {
    seq![0x57u8, 0x41u8, 0x56u8, 0x45u8]
}

pub open spec fn fmt_tag() -> Seq<u8> {
    seq![0x66u8, 0x6du8, 0x74u8, 0x20u8]
}

pub open spec fn data_tag() -> Seq<u8> {
    seq![0x64u8, 0x61u8, 0x74u8, 0x61u8]
}

pub open spec fn supported_rate(r: int) -> bool {
    8000 <= r <= 192000
}

/// A 16-byte `fmt ` body at `start` describes mono 16-bit PCM at a supported rate.
pub open spec fn mono_pcm_format(b: Seq<u8>, start: int) -> bool {
    &&& le16(b, start) == 1
    &&& le16(b, start + 2) == 1
    &&& supported_rate(le32(b, start + 4))
    &&& le32(b, start + 8) == le32(b, start + 4) * 2
    &&& le16(b, start + 12) == 2
    &&& le16(b, start + 14) == 16
}

/// What the chunk walk has found so far: the sample rate, and the sample
/// data's first byte and frame count.
pub struct WalkState {
    pub rate: Option<int>,
    pub data: Option<(int, int)>,
}

/// The walk over the chunks that follow the 12-byte RIFF header.
pub open spec fn walk(b: Seq<u8>, pos: int, st: WalkState) -> Result<WalkState, Seq<char>>
    decreases b.len() - pos,
{
    if pos < 0 || pos >= b.len() {
        Ok(st)
    } else if b.len() - pos < 8 {
        Err("Truncated WAV chunk"@)
    } else {
        let size = le32(b, pos + 4);
        let start = pos + 8;
        let end = start + size;
        let next = end + size % 2;
        if end > b.len() || next > b.len() {
            Err("Truncated WAV audio"@)
        } else if tag_at(b, pos, fmt_tag()) {
            if st.rate is Some || size != 16 {
                Err("Unsupported WAV format"@)
            } else if !mono_pcm_format(b, start) {
                Err("Expected mono 16-bit PCM audio"@)
            } else {
                walk(b, next, WalkState { rate: Some(le32(b, start + 4)), data: st.data })
            }
        } else if tag_at(b, pos, data_tag()) {
            if st.data is Some || size % 2 != 0 {
                Err("Invalid WAV sample data"@)
            } else {
                walk(b, next, WalkState { rate: st.rate, data: Some((start, size / 2)) })
            }
        } else {
            walk(b, next, st)
        }
    }
}

/// The message a read past the end of the input reports.
pub open spec fn eof_message() -> Seq<char> {
    "failed to fill whole buffer"@
}

/// What a WAV file is found to hold: (frames, sample rate, first sample byte),
/// or the reason it is refused.
pub open spec fn parse_wav(b: Seq<u8>) -> Result<(int, int, int), Seq<char>> {
    if b.len() < 12 {
        Err(eof_message())
    } else if !(tag_at(b, 0, riff_tag()) && tag_at(b, 8, wave_tag()) && le32(b, 4) + 8
        == b.len()) {
        Err("Incomplete or invalid WAV recording"@)
    } else {
        match walk(b, 12, WalkState { rate: None, data: None }) {
            Err(m) => Err(m),
            Ok(st) => match st.rate {
                None => Err("Missing WAV format"@),
                Some(rate) => match st.data {
                    None => Err("Missing WAV samples"@),
                    Some((start, frames)) => Ok((frames, rate, start)),
                },
            },
        }
    }
}

/// A parsed WAV recording.
#[derive(Debug)]
pub struct WavInfo {
    pub frames: u64,
    pub sample_rate: u32,
    pub data_start: u64,
}

fn read_le32(b: &[u8], i: usize) -> (v: u32)
    requires
        i + 4 <= b@.len(),
    ensures
        v == le32(b@, i as int),
{
    b[i] as u32 + (b[i + 1] as u32) * 256 + (b[i + 2] as u32) * 65536 + (b[i + 3] as u32)
        * 16777216
}

fn read_le16(b: &[u8], i: usize) -> (v: u32)
    requires
        i + 2 <= b@.len(),
    ensures
        v == le16(b@, i as int),
{
    b[i] as u32 + (b[i + 1] as u32) * 256
}

fn has_tag(b: &[u8], i: usize, t0: u8, t1: u8, t2: u8, t3: u8) -> (r: bool)
    requires
        i + 4 <= b@.len(),
    ensures
        r == (b@[i as int] == t0 && b@[i + 1] == t1 && b@[i + 2] == t2 && b@[i + 3] == t3),
{
    b[i] == t0 && b[i + 1] == t1 && b[i + 2] == t2 && b[i + 3] == t3
}

fn chunk_error(message: &str) -> (e: AppError)
    ensures
        e.code@ == "audio_chunk"@,
        e.message@ == message@,
{
    AppError::new("audio_chunk", message)
}

/// Parses a complete WAV recording held in memory. Only mono 16-bit PCM with a
/// supported rate is accepted; a header whose declared length differs from the
/// input (an unfinished or truncated file) is refused.
pub fn inspect_bytes(b: &[u8]) -> (r: AppResult<WavInfo>)
    ensures
        r matches Ok(info) ==> parse_wav(b@) == Ok::<(int, int, int), Seq<char>>(
            (info.frames as int, info.sample_rate as int, info.data_start as int),
        ),
        r is Err ==> parse_wav(b@) is Err,
        r matches Err(e) ==> e.code@ == "audio_chunk"@ && parse_wav(b@) == Err::<
            (int, int, int),
            Seq<char>,
        >(e.message@),
{
    let len: usize = b.len();
    if len < 12 {
        return Err(chunk_error("failed to fill whole buffer"));
    }
    if !(has_tag(b, 0, 0x52, 0x49, 0x46, 0x46) && has_tag(b, 8, 0x57, 0x41, 0x56, 0x45) && (
    read_le32(b, 4) as u64) + 8 == len as u64) {
        return Err(chunk_error("Incomplete or invalid WAV recording"));
    }
    let ghost start_state = WalkState { rate: None, data: None };
    let mut rate: Option<u32> = None;
    let mut data: Option<(u64, u64)> = None;
    let mut pos: usize = 12;
    while pos < len
        invariant
            len == b@.len(),
            12 <= pos <= len,
            parse_wav(b@) == (match walk(b@, 12, start_state) {
                Err(m) => Err(m),
                Ok(st) => match st.rate {
                    None => Err("Missing WAV format"@),
                    Some(rate) => match st.data {
                        None => Err("Missing WAV samples"@),
                        Some((start, frames)) => Ok((frames, rate, start)),
                    },
                },
            }),
            walk(b@, 12, start_state) == walk(
                b@,
                pos as int,
                WalkState {
                    rate: match rate {
                        Some(r) => Some(r as int),
                        None => None,
                    },
                    data: match data {
                        Some((s, f)) => Some((s as int, f as int)),
                        None => None,
                    },
                },
            ),
        decreases len - pos,
    {
        let ghost st = WalkState {
            rate: match rate {
                Some(r) => Some(r as int),
                None => None,
            },
            data: match data {
                Some((s, f)) => Some((s as int, f as int)),
                None => None,
            },
        };
        if len - pos < 8 {
            return Err(chunk_error("Truncated WAV chunk"));
        }
        let size: u64 = read_le32(b, pos + 4) as u64;
        let start: u64 = pos as u64 + 8;
        if size > len as u64 - start {
            return Err(chunk_error("Truncated WAV audio"));
        }
        let end: u64 = start + size;
        if size % 2 > len as u64 - end {
            return Err(chunk_error("Truncated WAV audio"));
        }
        let next: u64 = end + size % 2;
        if has_tag(b, pos, 0x66, 0x6d, 0x74, 0x20) {
            if rate.is_some() || size != 16 {
                return Err(chunk_error("Unsupported WAV format"));
            }
            let s: usize = start as usize;
            let found: u32 = read_le32(b, s + 4);
            if !(read_le16(b, s) == 1 && read_le16(b, s + 2) == 1 && 8000 <= found && found
                <= 192000 && read_le32(b, s + 8) == found * 2 && read_le16(b, s + 12) == 2
                && read_le16(b, s + 14) == 16) {
                return Err(chunk_error("Expected mono 16-bit PCM audio"));
            }
            rate = Some(found);
        } else if has_tag(b, pos, 0x64, 0x61, 0x74, 0x61) {
            if data.is_some() || size % 2 != 0 {
                return Err(chunk_error("Invalid WAV sample data"));
            }
            data = Some((start, size / 2));
        }
        pos = next as usize;
    }
    match rate {
        None => Err(chunk_error("Missing WAV format")),
        Some(sample_rate) => match data {
            None => Err(chunk_error("Missing WAV samples")),
            Some((data_start, frames)) => Ok(WavInfo { frames, sample_rate, data_start }),
        },
    }
}

pub open spec fn le32_bytes(v: int) -> Seq<u8> {
    seq![b0(v), b1(v), b2(v), b3(v)]
}

pub open spec fn le16_bytes(v: int) -> Seq<u8> {
    seq![b0(v), b1(v)]
}

pub open spec fn b0(v: int) -> u8 {
    (v % 256) as u8
}

pub open spec fn b1(v: int) -> u8 {
    (v / 256 % 256) as u8
}

pub open spec fn b2(v: int) -> u8 {
    (v / 65536 % 256) as u8
}

pub open spec fn b3(v: int) -> u8 {
    (v / 16777216 % 256) as u8
}

/// The 44-byte header of a finished recording of `bytes` sample bytes at `rate`:
/// "RIFF", size, "WAVE", a 16-byte "fmt " chunk (PCM, mono, rate, byte rate,
/// block align 2, 16 bits), then "data" and its size.
pub open spec fn wav_header(rate: int, bytes: int) -> Seq<u8> {
    let size = 36 + bytes;
    let byte_rate = rate * 2;
    seq![
        0x52u8, 0x49u8, 0x46u8, 0x46u8, b0(size), b1(size), b2(size), b3(size),
        0x57u8, 0x41u8, 0x56u8, 0x45u8, 0x66u8, 0x6du8, 0x74u8, 0x20u8,
        16u8, 0u8, 0u8, 0u8, 1u8, 0u8, 1u8, 0u8,
        b0(rate), b1(rate), b2(rate), b3(rate), b0(byte_rate), b1(byte_rate), b2(byte_rate), b3(byte_rate),
        2u8, 0u8, 16u8, 0u8, 0x64u8, 0x61u8, 0x74u8, 0x61u8,
        b0(bytes), b1(bytes), b2(bytes), b3(bytes)
    ]
}

proof fn lemma_bytes_le32(v: int)
    requires
        0 <= v < 0x1_0000_0000,
    ensures
        b0(v) as int + b1(v) as int * 256 + b2(v) as int * 65536 + b3(v) as int * 16777216 == v,
{
    assert(b0(v) as int == v % 256);
    assert(b1(v) as int == v / 256 % 256);
    assert(b2(v) as int == v / 65536 % 256);
    assert(b3(v) as int == v / 16777216 % 256);
    assert(v % 256 + (v / 256 % 256) * 256 + (v / 65536 % 256) * 65536 + (v / 16777216 % 256)
        * 16777216 == v) by (nonlinear_arith)
        requires
            0 <= v < 0x1_0000_0000,
    ;
}

proof fn lemma_header_fields(rate: int, n: int)
    requires
        supported_rate(rate),
        0 <= n <= 0xffff_ffff - 36,
    ensures
        ({
            let h = wav_header(rate, n);
            &&& h.len() == 44
            &&& le32(h, 4) == 36 + n
            &&& le32(h, 16) == 16
            &&& mono_pcm_format(h, 20)
            &&& le32(h, 24) == rate
            &&& le32(h, 40) == n
            &&& tag_at(h, 0, riff_tag())
            &&& tag_at(h, 8, wave_tag())
            &&& tag_at(h, 12, fmt_tag())
            &&& !tag_at(h, 12, data_tag())
            &&& tag_at(h, 36, data_tag())
            &&& !tag_at(h, 36, fmt_tag())
        }),
{
    let h = wav_header(rate, n);
    lemma_bytes_le32(36 + n);
    lemma_bytes_le32(rate);
    lemma_bytes_le32(rate * 2);
    lemma_bytes_le32(n);
}

/// Law: a finished recording reads back as exactly what was written. The header
/// that the writer produces, followed by the sample bytes it admitted, parses
/// to that many frames at that rate, with samples starting after the header.
pub proof fn lemma_header_roundtrip(rate: int, data: Seq<u8>)
    requires
        supported_rate(rate),
        data.len() % 2 == 0,
        data.len() <= 0xffff_ffff - 36,
    ensures
        parse_wav(wav_header(rate, data.len() as int) + data) == Ok::<(int, int, int), Seq<char>>(
            ((data.len() / 2) as int, rate, 44),
        ),
{
    let n = data.len() as int;
    let h = wav_header(rate, n);
    let b = h + data;
    lemma_header_fields(rate, n);
    assert(b.len() == 44 + n);
    assert forall|i: int| 0 <= i < 44 implies #[trigger] b[i] == h[i] by {}
    assert(le32(b, 4) == le32(h, 4));
    assert(le32(b, 16) == le32(h, 16));
    assert(le32(b, 24) == le32(h, 24));
    assert(le32(b, 40) == le32(h, 40));
    assert(le16(b, 20) == le16(h, 20) && le16(b, 22) == le16(h, 22));
    assert(le32(b, 28) == le32(h, 28));
    assert(le16(b, 32) == le16(h, 32) && le16(b, 34) == le16(h, 34));
    assert(mono_pcm_format(b, 20));
    assert(tag_at(b, 0, riff_tag()) && tag_at(b, 8, wave_tag()));
    assert(tag_at(b, 12, fmt_tag()) && !tag_at(b, 12, data_tag()));
    assert(tag_at(b, 36, data_tag()) && !tag_at(b, 36, fmt_tag()));
    let s0 = WalkState { rate: None, data: None };
    let s1 = WalkState { rate: Some(rate), data: None };
    let s2 = WalkState { rate: Some(rate), data: Some((44, n / 2)) };
    assert(walk(b, 44 + n, s2) == Ok::<WalkState, Seq<char>>(s2));
    assert(walk(b, 36, s1) == walk(b, 44 + n, s2));
    assert(walk(b, 12, s0) == walk(b, 36, s1));
}

/// Law: a file whose header was never finished (still all zero, as the writer
/// leaves it until the end) is refused, whatever samples follow it.
pub proof fn lemma_unfinished_header_refused(rest: Seq<u8>)
    ensures
        parse_wav(Seq::new(44, |_i: int| 0u8) + rest) is Err,
{
    let b = Seq::new(44, |_i: int| 0u8) + rest;
    assert(b[0] == 0u8);
}

/// Law: no strict prefix of a valid recording is accepted; a truncated file is
/// never mistaken for a shorter recording.
pub proof fn lemma_truncation_refused(b: Seq<u8>, len: int)
    requires
        parse_wav(b) is Ok,
        0 <= len < b.len(),
    ensures
        parse_wav(b.take(len)) is Err,
{
    let t = b.take(len);
    if len >= 12 {
        assert(t[4] == b[4] && t[5] == b[5] && t[6] == b[6] && t[7] == b[7]);
        assert(le32(t, 4) == le32(b, 4));
    }
}

fn push_le32(v: &mut Vec<u8>, x: u32)
    ensures
        final(v)@ == old(v)@ + le32_bytes(x as int),
{
    v.push((x % 256) as u8);
    v.push((x / 256 % 256) as u8);
    v.push((x / 65536 % 256) as u8);
    v.push((x / 16777216 % 256) as u8);
    proof {
        assert(final(v)@ =~= old(v)@ + le32_bytes(x as int));
    }
}

fn push_le16(v: &mut Vec<u8>, x: u16)
    ensures
        final(v)@ == old(v)@ + le16_bytes(x as int),
{
    v.push((x % 256) as u8);
    v.push((x / 256 % 256) as u8);
    proof {
        assert(final(v)@ =~= old(v)@ + le16_bytes(x as int));
    }
}

fn push_tag(v: &mut Vec<u8>, t0: u8, t1: u8, t2: u8, t3: u8)
    ensures
        final(v)@ == old(v)@ + seq![t0, t1, t2, t3],
{
    v.push(t0);
    v.push(t1);
    v.push(t2);
    v.push(t3);
    proof {
        assert(final(v)@ =~= old(v)@ + seq![t0, t1, t2, t3]);
    }
}

/// The byte count of a recording in progress, and its sample rate.
#[derive(Debug)]
pub struct PcmWriter {
    sample_rate: u32,
    bytes: u32,
}

impl PcmWriter {
    pub closed spec fn rate(&self) -> int {
        self.sample_rate as int
    }

    pub closed spec fn data_bytes(&self) -> int {
        self.bytes as int
    }

    /// A writer always holds a supported rate and a whole number of frames
    /// that a header can still describe.
    pub closed spec fn wf(&self) -> bool {
        supported_rate(self.sample_rate as int) && self.bytes % 2 == 0 && self.bytes <= 0xffff_ffff
            - 36
    }

    /// Starts a recording at `sample_rate`, with no samples yet.
    pub fn create(sample_rate: u32) -> (r: AppResult<PcmWriter>)
        ensures
            r is Ok <==> supported_rate(sample_rate as int),
            r matches Ok(w) ==> w.wf() && w.rate() == sample_rate && w.data_bytes() == 0,
            r matches Err(e) ==> e.code@ == "audio_chunk"@ && e.message@
                == "Unsupported PCM sample rate"@,
    {
        if !(8000 <= sample_rate && sample_rate <= 192000) {
            return Err(chunk_error("Unsupported PCM sample rate"));
        }
        PcmWriter { sample_rate, bytes: 0 }.ok_writer()
    }

    fn ok_writer(self) -> (r: AppResult<PcmWriter>)
        ensures
            r == Ok::<PcmWriter, AppError>(self),
    {
        Ok(self)
    }

    /// The size the recording would have after `len` more sample bytes, if
    /// that is a whole number of frames a header can still describe.
    pub fn accept(&self, len: usize) -> (r: AppResult<u32>)
        requires
            self.wf(),
        ensures
            r is Ok <==> (len % 2 == 0 && self.data_bytes() + len <= 0xffff_ffff - 36),
            r matches Ok(size) ==> size == self.data_bytes() + len,
            r matches Err(e) ==> e.code@ == "audio_chunk"@ && e.message@
                == "Invalid or oversized PCM recording"@,
    {
        if len % 2 != 0 || len as u64 > (0xffff_ffffu64 - 36) - self.bytes as u64 {
            return Err(chunk_error("Invalid or oversized PCM recording"));
        }
        Ok(self.bytes + len as u32)
    }

    /// Records that the samples accepted by `accept` were written.
    pub fn commit(&mut self, size: u32)
        requires
            old(self).wf(),
            size >= old(self).data_bytes(),
            (size - old(self).data_bytes()) % 2 == 0,
            size <= 0xffff_ffff - 36,
        ensures
            final(self).wf(),
            final(self).rate() == old(self).rate(),
            final(self).data_bytes() == size,
    {
        self.bytes = size;
    }

    /// Frames written so far.
    pub fn frames(&self) -> (f: u64)
        ensures
            f == self.data_bytes() / 2,
    {
        (self.bytes / 2) as u64
    }

    /// The header that finishes the recording.
    pub fn header(&self) -> (h: Vec<u8>)
        requires
            self.wf(),
        ensures
            h@ == wav_header(self.rate(), self.data_bytes()),
            h@.len() == 44,
    {
        let mut h: Vec<u8> = Vec::new();
        push_tag(&mut h, 0x52, 0x49, 0x46, 0x46);
        push_le32(&mut h, 36 + self.bytes);
        push_tag(&mut h, 0x57, 0x41, 0x56, 0x45);
        push_tag(&mut h, 0x66, 0x6d, 0x74, 0x20);
        push_le32(&mut h, 16);
        push_le16(&mut h, 1);
        push_le16(&mut h, 1);
        push_le32(&mut h, self.sample_rate);
        push_le32(&mut h, self.sample_rate * 2);
        push_le16(&mut h, 2);
        push_le16(&mut h, 16);
        push_tag(&mut h, 0x64, 0x61, 0x74, 0x61);
        push_le32(&mut h, self.bytes);
        proof {
            assert(h@ =~= wav_header(self.rate(), self.data_bytes()));
        }
        h
    }
}

/// Largest upload a chunk may become, header included.
pub const MAX_CHUNK_BYTES: u64 = 24_000_000;

/// Frames of a requested chunk that the source actually holds: a request may
/// run one frame past the end (rounding), and is cut at the end.
pub open spec fn chunk_frames(total: int, first: int, frames: int) -> int {
    if frames < total - first {
        frames
    } else {
        total - first
    }
}

pub open spec fn chunk_in_range(total: int, first: int, frames: int) -> bool {
    first < total && frames >= 1 && first + frames <= total + 1
}

/// The byte range of a chunk of `frames` frames starting at frame `first`:
/// (offset of its first sample byte, frames it holds).
pub fn plan_chunk(info: &WavInfo, first: u64, frames: u64) -> (r: AppResult<(u64, u64)>)
    requires
        info.frames <= 0xffff_ffff,
        info.data_start <= 0x1_0000_0008,
    ensures
        r is Ok <==> chunk_in_range(info.frames as int, first as int, frames as int)
            && chunk_frames(info.frames as int, first as int, frames as int) * 2 + 44
            < MAX_CHUNK_BYTES,
        r matches Ok((offset, count)) ==> offset == info.data_start + first * 2 && count
            == chunk_frames(info.frames as int, first as int, frames as int),
        r matches Err(e) ==> if chunk_in_range(info.frames as int, first as int, frames as int) {
            e.code@ == "audio_chunk_size"@ && e.message@
                == "Audio chunk exceeds the safe upload size"@
        } else {
            e.code@ == "audio_chunk"@ && e.message@
                == "Audio chunk extends beyond the source duration"@
        },
{
    if first >= info.frames || frames < 1 || frames > info.frames + 1 - first {
        return Err(chunk_error("Audio chunk extends beyond the source duration"));
    }
    let count: u64 = if frames < info.frames - first {
        frames
    } else {
        info.frames - first
    };
    if count * 2 + 44 >= MAX_CHUNK_BYTES {
        return Err(AppError::new("audio_chunk_size", "Audio chunk exceeds the safe upload size"));
    }
    Ok((info.data_start + first * 2, count))
}

} // verus!
