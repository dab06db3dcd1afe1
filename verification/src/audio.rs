use vstd::prelude::*;

verus! {

/// The parts of a `.wav` file the reader uses: sample format (1 integer PCM, 3 float),
/// channels, sample rate, bits per sample, and where the sample data lies.
pub struct Wav {
    pub format: u16,
    pub channels: usize,
    pub rate: u32,
    pub bits: usize,
    pub data_start: usize,
    pub data_len: usize,
}

/// Why a `.wav` file is refused.
#[derive(Debug, Clone, Copy, PartialEq, Eq, Structural)]
pub enum WavError {
    NotWav,
    Truncated,
    MissingFmt,
    MissingData,
    /// A (format, bits) pair other than integer PCM of 8, 16, 24 or 32 bits or 32-bit float.
    UnsupportedEncoding(u16, usize),
    MalformedFmt,
    NoSamples,
}

pub open spec fn le16(b: Seq<u8>, p: int) -> nat {
    b[p] as nat + 256 * b[p + 1] as nat
}

pub open spec fn le32(b: Seq<u8>, p: int) -> nat {
    b[p] as nat + 256 * (b[p + 1] as nat + 256 * (b[p + 2] as nat + 256 * b[p + 3] as nat))
}

/// The little-endian 16-bit number at `pos`.
pub fn u16le(bytes: &[u8], pos: usize) -> (r: u16)
    requires
        pos + 2 <= bytes@.len(),
    ensures
        r as nat == le16(bytes@, pos as int),
{
    bytes[pos] as u16 + 256 * bytes[pos + 1] as u16
}

/// The little-endian 32-bit number at `pos`.
pub fn u32le(bytes: &[u8], pos: usize) -> (r: u32)
    requires
        pos + 4 <= bytes@.len(),
    ensures
        r as nat == le32(bytes@, pos as int),
{
    bytes[pos] as u32 + 256 * (bytes[pos + 1] as u32 + 256 * (bytes[pos + 2] as u32 + 256 * bytes[pos + 3] as u32))
}

pub open spec fn tag_riff() -> Seq<u8> {
    seq![82u8, 73, 70, 70]
}

pub open spec fn tag_wave() -> Seq<u8> {
    seq![87u8, 65, 86, 69]
}

pub open spec fn tag_fmt() -> Seq<u8> {
    seq![102u8, 109, 116, 32]
}

pub open spec fn tag_data() -> Seq<u8> {
    seq![100u8, 97, 116, 97]
}

/// The fmt fields: format, channels, rate, bits per sample.
pub type WavFmt = (u16, nat, u32, nat);

/// Walks the chunks from `pos`, keeping the last fmt chunk of at least 16 bytes and the
/// last data chunk (its start and length); each chunk is padded to an even length.
pub open spec fn wav_chunks(b: Seq<u8>, pos: nat, fmt: Option<WavFmt>, data: Option<(nat, nat)>) -> Result<
    (Option<WavFmt>, Option<(nat, nat)>),
    WavError,
>
    decreases b.len() + 1 - pos,
{
    if pos + 8 > b.len() {
        Ok((fmt, data))
    } else {
        let p = pos as int;
        let size = le32(b, p + 4);
        let body = pos + 8;
        if body + size > b.len() {
            Err(WavError::Truncated)
        } else {
            let id = b.subrange(p, p + 4);
            let next = body + size + size % 2;
            if id == tag_fmt() && size >= 16 {
                wav_chunks(
                    b,
                    next,
                    Some((le16(b, p + 8) as u16, le16(b, p + 10), le32(b, p + 12) as u32, le16(b, p + 22))),
                    data,
                )
            } else if id == tag_data() {
                wav_chunks(b, next, fmt, Some((body, size)))
            } else {
                wav_chunks(b, next, fmt, data)
            }
        }
    }
}

/// The encodings the reader decodes.
pub open spec fn supported_encoding(format: u16, bits: nat) -> bool {
    (format == 1 && (bits == 8 || bits == 16 || bits == 24 || bits == 32)) || (format == 3 && bits == 32)
}

/// What a `.wav` file's header says, field by field.
pub open spec fn parse_wav_spec(b: Seq<u8>) -> Result<(u16, nat, u32, nat, nat, nat), WavError> {
    if b.len() < 12 || b.subrange(0, 4) != tag_riff() || b.subrange(8, 12) != tag_wave() {
        Err(WavError::NotWav)
    } else {
        match wav_chunks(b, 12, None, None) {
            Err(e) => Err(e),
            Ok((None, _)) => Err(WavError::MissingFmt),
            Ok((_, None)) => Err(WavError::MissingData),
            Ok((Some((format, channels, rate, bits)), Some((start, len)))) => {
                if !supported_encoding(format, bits) {
                    Err(WavError::UnsupportedEncoding(format, bits as usize))
                } else if channels == 0 || rate == 0 {
                    Err(WavError::MalformedFmt)
                } else {
                    Ok((format, channels, rate, bits, start, len))
                }
            },
        }
    }
}

pub open spec fn wav_view(w: Wav) -> (u16, nat, u32, nat, nat, nat) {
    (w.format, w.channels as nat, w.rate, w.bits as nat, w.data_start as nat, w.data_len as nat)
}

fn tag_at(bytes: &[u8], pos: usize, tag: &[u8; 4]) -> (r: bool)
    requires
        pos + 4 <= bytes@.len(),
    ensures
        r == (bytes@.subrange(pos as int, pos + 4) == tag@),
{
    let r = bytes[pos] == tag[0] && bytes[pos + 1] == tag[1] && bytes[pos + 2] == tag[2] && bytes[pos + 3]
        == tag[3];
    proof {
        let s = bytes@.subrange(pos as int, pos + 4);
        if r {
            assert(s =~= tag@);
        } else {
            assert(s[0] != tag@[0] || s[1] != tag@[1] || s[2] != tag@[2] || s[3] != tag@[3]);
        }
    }
    r
}

/// Reads the header of a `.wav` file: a RIFF/WAVE file whose fmt chunk gives a supported
/// encoding with at least one channel and a non-zero rate, and which has a data chunk.
pub fn parse_wav(bytes: &[u8]) -> (r: Result<Wav, WavError>)
    requires
        bytes@.len() < usize::MAX,
    ensures
        match r {
            Ok(w) => parse_wav_spec(bytes@) == Ok::<(u16, nat, u32, nat, nat, nat), WavError>(wav_view(w)),
            Err(e) => parse_wav_spec(bytes@) == Err::<(u16, nat, u32, nat, nat, nat), WavError>(e),
        },
{
    let riff: [u8; 4] = [82, 73, 70, 70];
    let wave: [u8; 4] = [87, 65, 86, 69];
    let fmt_tag: [u8; 4] = [102, 109, 116, 32];
    let data_tag: [u8; 4] = [100, 97, 116, 97];
    assert(riff@ =~= tag_riff());
    assert(wave@ =~= tag_wave());
    assert(fmt_tag@ =~= tag_fmt());
    assert(data_tag@ =~= tag_data());
    if bytes.len() < 12 || !tag_at(bytes, 0, &riff) || !tag_at(bytes, 8, &wave) {
        return Err(WavError::NotWav);
    }
    let mut fmt: Option<(u16, usize, u32, usize)> = None;
    let mut data: Option<(usize, usize)> = None;
    let mut pos: usize = 12;
    while pos <= bytes.len() && bytes.len() - pos >= 8
        invariant
            bytes@.len() < usize::MAX,
            bytes@.len() >= 12,
            bytes@.subrange(0, 4) == tag_riff(),
            bytes@.subrange(8, 12) == tag_wave(),
            fmt_tag@ == tag_fmt(),
            data_tag@ == tag_data(),
            pos <= bytes@.len() + 1,
            wav_chunks(bytes@, 12, None, None) == wav_chunks(
                bytes@,
                pos as nat,
                match fmt {
                    Some((f, c, r, b)) => Some((f, c as nat, r, b as nat)),
                    None => None,
                },
                match data {
                    Some((s, l)) => Some((s as nat, l as nat)),
                    None => None,
                },
            ),
        decreases bytes.len() + 1 - pos,
    {
        let size = u32le(bytes, pos + 4) as usize;
        let body = pos + 8;
        if size > bytes.len() - body {
            return Err(WavError::Truncated);
        }
        if tag_at(bytes, pos, &fmt_tag) && size >= 16 {
            fmt = Some((u16le(bytes, body), u16le(bytes, body + 2) as usize, u32le(bytes, body + 4), u16le(bytes, body + 14) as usize));
        } else if tag_at(bytes, pos, &data_tag) {
            data = Some((body, size));
        }
        pos = body + size + size % 2;
    }
    let (format, channels, rate, bits) = match fmt {
        None => {
            return Err(WavError::MissingFmt);
        },
        Some(f) => f,
    };
    let (data_start, data_len) = match data {
        None => {
            return Err(WavError::MissingData);
        },
        Some(d) => d,
    };
    if !((format == 1 && (bits == 8 || bits == 16 || bits == 24 || bits == 32)) || (format == 3 && bits == 32)) {
        return Err(WavError::UnsupportedEncoding(format, bits));
    }
    if channels == 0 || rate == 0 {
        return Err(WavError::MalformedFmt);
    }
    Ok(Wav { format, channels, rate, bits, data_start, data_len })
}

/// The sample-array shape of a parsed file: `[frames]` for one channel, else
/// `[frames, channels]`, where a frame holds one sample per channel.
pub open spec fn wav_shape_spec(channels: nat, bits: nat, data_len: nat) -> Result<Seq<usize>, WavError> {
    let frame = channels * bits / 8;
    let n = data_len / frame;
    if n == 0 {
        Err(WavError::NoSamples)
    } else if channels == 1 {
        Ok(seq![n as usize])
    } else {
        Ok(seq![n as usize, channels as usize])
    }
}

/// The shape of the samples of a file `parse_wav` accepted.
pub fn wav_shape(w: &Wav) -> (r: Result<Vec<usize>, WavError>)
    requires
        1 <= w.channels <= 65535,
        supported_encoding(w.format, w.bits as nat),
    ensures
        match r {
            Ok(v) => wav_shape_spec(w.channels as nat, w.bits as nat, w.data_len as nat) == Ok::<Seq<usize>, WavError>(v@),
            Err(e) => wav_shape_spec(w.channels as nat, w.bits as nat, w.data_len as nat) == Err::<Seq<usize>, WavError>(e),
        },
{
    let frame = w.channels * w.bits / 8;
    assert(frame >= 1);
    let n = w.data_len / frame;
    if n == 0 {
        return Err(WavError::NoSamples);
    }
    if w.channels == 1 {
        let v: Vec<usize> = vec![n];
        assert(v@ =~= seq![n]);
        Ok(v)
    } else {
        let v: Vec<usize> = vec![n, w.channels];
        assert(v@ =~= seq![n, w.channels]);
        Ok(v)
    }
}

/// The little-endian bytes of a 16-bit number.
pub open spec fn le16_bytes(v: nat) -> Seq<u8> {
    seq![(v % 256) as u8, ((v / 256) % 256) as u8]
}

/// The little-endian bytes of a 32-bit number.
pub open spec fn le32_bytes(v: nat) -> Seq<u8> {
    seq![
        (v % 256) as u8,
        ((v / 256) % 256) as u8,
        ((v / 65536) % 256) as u8,
        ((v / 16777216) % 256) as u8,
    ]
}

/// The 44-byte header of a 16-bit integer PCM `.wav` file holding `data_len` bytes of
/// samples.
pub open spec fn wav_header_spec(channels: nat, rate: nat, data_len: nat) -> Seq<u8> {
    tag_riff() + le32_bytes(36 + data_len) + tag_wave() + tag_fmt() + le32_bytes(16) + le16_bytes(1)
        + le16_bytes(channels) + le32_bytes(rate) + le32_bytes(rate * channels * 2) + le16_bytes(
        channels * 2,
    ) + le16_bytes(16) + tag_data() + le32_bytes(data_len)
}

fn push_le16(out: &mut Vec<u8>, v: u16)
    ensures
        final(out)@ == old(out)@ + le16_bytes(v as nat),
{
    out.push((v % 256) as u8);
    out.push((v / 256) as u8);
    assert(final(out)@ =~= old(out)@ + le16_bytes(v as nat));
}

fn push_le32(out: &mut Vec<u8>, v: u32)
    ensures
        final(out)@ == old(out)@ + le32_bytes(v as nat),
{
    out.push((v % 256) as u8);
    out.push(((v / 256) % 256) as u8);
    out.push(((v / 65536) % 256) as u8);
    out.push((v / 16777216) as u8);
    assert(final(out)@ =~= old(out)@ + le32_bytes(v as nat));
}

fn push_tag(out: &mut Vec<u8>, tag: &[u8; 4])
    ensures
        final(out)@ == old(out)@ + tag@,
{
    out.push(tag[0]);
    out.push(tag[1]);
    out.push(tag[2]);
    out.push(tag[3]);
    assert(final(out)@ =~= old(out)@ + tag@);
}

/// The header of a 16-bit integer PCM `.wav` file with `channels` channels at `rate`
/// samples per second and `data_len` bytes of samples.
pub fn wav_header(channels: u16, rate: u32, data_len: u32) -> (out: Vec<u8>)
    requires
        36 + data_len <= u32::MAX,
        rate * channels * 2 <= u32::MAX,
        channels * 2 <= u16::MAX,
    ensures
        out@ == wav_header_spec(channels as nat, rate as nat, data_len as nat),
{
    let riff: [u8; 4] = [82, 73, 70, 70];
    let wave: [u8; 4] = [87, 65, 86, 69];
    let fmt_tag: [u8; 4] = [102, 109, 116, 32];
    let data_tag: [u8; 4] = [100, 97, 116, 97];
    assert(riff@ =~= tag_riff());
    assert(wave@ =~= tag_wave());
    assert(fmt_tag@ =~= tag_fmt());
    assert(data_tag@ =~= tag_data());
    let mut out: Vec<u8> = Vec::new();
    push_tag(&mut out, &riff);
    push_le32(&mut out, 36 + data_len);
    push_tag(&mut out, &wave);
    push_tag(&mut out, &fmt_tag);
    push_le32(&mut out, 16);
    push_le16(&mut out, 1);
    push_le16(&mut out, channels);
    push_le32(&mut out, rate);
    push_le32(&mut out, rate * channels as u32 * 2);
    push_le16(&mut out, channels * 2);
    push_le16(&mut out, 16);
    push_tag(&mut out, &data_tag);
    push_le32(&mut out, data_len);
    out
}

proof fn lemma_le32_bytes(b: Seq<u8>, p: int, v: nat)
    requires
        v < 0x1_0000_0000,
        0 <= p,
        p + 4 <= b.len(),
        b.subrange(p, p + 4) == le32_bytes(v),
    ensures
        le32(b, p) == v,
{
    assert(b[p] == le32_bytes(v)[0] && b[p + 1] == le32_bytes(v)[1] && b[p + 2] == le32_bytes(v)[2]
        && b[p + 3] == le32_bytes(v)[3]);
}

proof fn lemma_le16_bytes(b: Seq<u8>, p: int, v: nat)
    requires
        v < 0x10000,
        0 <= p,
        p + 2 <= b.len(),
        b.subrange(p, p + 2) == le16_bytes(v),
    ensures
        le16(b, p) == v,
{
    assert(b[p] == le16_bytes(v)[0] && b[p + 1] == le16_bytes(v)[1]);
}

/// Where the fields of a written header lie.
proof fn lemma_header_layout(channels: nat, rate: nat, len: nat)
    ensures
        ({
            let h = wav_header_spec(channels, rate, len);
            &&& h.len() == 44
            &&& h.subrange(0, 4) == tag_riff()
            &&& h.subrange(8, 12) == tag_wave()
            &&& h.subrange(12, 16) == tag_fmt()
            &&& h.subrange(16, 20) == le32_bytes(16)
            &&& h.subrange(20, 22) == le16_bytes(1)
            &&& h.subrange(22, 24) == le16_bytes(channels)
            &&& h.subrange(24, 28) == le32_bytes(rate)
            &&& h.subrange(34, 36) == le16_bytes(16)
            &&& h.subrange(36, 40) == tag_data()
            &&& h.subrange(40, 44) == le32_bytes(len)
        }),
{
    let h = wav_header_spec(channels, rate, len);
    assert(h.subrange(0, 4) =~= tag_riff());
    assert(h.subrange(8, 12) =~= tag_wave());
    assert(h.subrange(12, 16) =~= tag_fmt());
    assert(h.subrange(16, 20) =~= le32_bytes(16));
    assert(h.subrange(20, 22) =~= le16_bytes(1));
    assert(h.subrange(22, 24) =~= le16_bytes(channels));
    assert(h.subrange(24, 28) =~= le32_bytes(rate));
    assert(h.subrange(34, 36) =~= le16_bytes(16));
    assert(h.subrange(36, 40) =~= tag_data());
    assert(h.subrange(40, 44) =~= le32_bytes(len));
}

/// The fields of a file written as a header followed by its samples.
proof fn lemma_file_fields(channels: nat, rate: nat, data: Seq<u8>)
    requires
        channels < 0x10000,
        rate < 0x1_0000_0000,
        36 + data.len() < 0x1_0000_0000,
    ensures
        ({
            let b = wav_header_spec(channels, rate, data.len()) + data;
            &&& b.len() == 44 + data.len()
            &&& b.subrange(0, 4) == tag_riff()
            &&& b.subrange(8, 12) == tag_wave()
            &&& b.subrange(12, 16) == tag_fmt()
            &&& le32(b, 16) == 16
            &&& le16(b, 20) == 1
            &&& le16(b, 22) == channels
            &&& le32(b, 24) == rate
            &&& le16(b, 34) == 16
            &&& b.subrange(36, 40) == tag_data()
            &&& le32(b, 40) == data.len()
        }),
{
    let h = wav_header_spec(channels, rate, data.len());
    lemma_header_layout(channels, rate, data.len());
    let b = h + data;
    assert forall|i: int, j: int| 0 <= i <= j <= 44 implies #[trigger] b.subrange(i, j) == h.subrange(i, j) by {
        assert(b.subrange(i, j) =~= h.subrange(i, j));
    }
    lemma_le32_bytes(b, 16, 16);
    lemma_le16_bytes(b, 20, 1);
    lemma_le16_bytes(b, 22, channels);
    lemma_le32_bytes(b, 24, rate);
    lemma_le16_bytes(b, 34, 16);
    lemma_le32_bytes(b, 40, data.len());
}

/// The chunk walk over such a file finds its fmt chunk and then its data chunk.
proof fn lemma_file_chunks(b: Seq<u8>, channels: nat, rate: nat, len: nat)
    requires
        b.len() == 44 + len,
        b.subrange(12, 16) == tag_fmt(),
        le32(b, 16) == 16,
        le16(b, 20) == 1,
        le16(b, 22) == channels,
        le32(b, 24) == rate,
        le16(b, 34) == 16,
        b.subrange(36, 40) == tag_data(),
        le32(b, 40) == len,
    ensures
        wav_chunks(b, 12, None, None) == Ok::<(Option<WavFmt>, Option<(nat, nat)>), WavError>(
            (Some((1u16, channels, rate as u32, 16nat)), Some((44nat, len))),
        ),
{
    assert(tag_data() != tag_fmt()) by {
        assert(tag_data()[0] != tag_fmt()[0]);
    }
    let fmt = Some((1u16, channels, rate as u32, 16nat));
    let next = 44 + len + len % 2;
    assert(wav_chunks(b, next, fmt, Some((44nat, len))) == Ok::<
        (Option<WavFmt>, Option<(nat, nat)>),
        WavError,
    >((fmt, Some((44nat, len)))));
    assert(wav_chunks(b, 36, fmt, None) == wav_chunks(b, next, fmt, Some((44nat, len))));
    assert(wav_chunks(b, 12, None, None) == wav_chunks(b, 36, fmt, None));
}

/// A file written as `wav_header` followed by its samples reads back as 16-bit integer PCM
/// with the channels, rate and sample bytes written; its shape is `[frames]` or
/// `[frames, channels]` with a frame of two bytes per channel.
pub proof fn law_wav_roundtrip(channels: nat, rate: nat, data: Seq<u8>)
    requires
        1 <= channels <= 64,
        1 <= rate,
        rate * channels * 2 < 0x1_0000_0000,
        36 + data.len() < 0x1_0000_0000,
    ensures
        parse_wav_spec(wav_header_spec(channels, rate, data.len()) + data) == Ok::<
            (u16, nat, u32, nat, nat, nat),
            WavError,
        >((1u16, channels, rate as u32, 16, 44, data.len())),
        wav_shape_spec(channels, 16, data.len()) == (if data.len() / (channels * 2) == 0 {
            Err::<Seq<usize>, WavError>(WavError::NoSamples)
        } else if channels == 1 {
            Ok(seq![(data.len() / 2) as usize])
        } else {
            Ok(seq![(data.len() / (channels * 2)) as usize, channels as usize])
        }),
{
    assert(rate <= rate * channels * 2) by (nonlinear_arith)
        requires
            channels >= 1,
    ;
    let b = wav_header_spec(channels, rate, data.len()) + data;
    lemma_file_fields(channels, rate, data);
    lemma_file_chunks(b, channels, rate, data.len());
    assert(channels * 16 / 8 == channels * 2);
}

} // verus!
