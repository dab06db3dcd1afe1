use vstd::prelude::*;

use crate::checks::{adler32, adler32_spec, crc32, crc32_spec};
use crate::strs::string_from_chars;
use crate::inflate::{
    bit_at, bits_value, block_body, block_step, inflate, inflate_blocks, inflate_spec, pow2,
    read_bits, stored_block, InflateError,
};

verus! {

/// The base64 digit for a 6-bit value.
pub open spec fn b64_digit(v: int) -> char {
    if v < 26 {
        (v + 65) as char
    } else if v < 52 {
        (v - 26 + 97) as char
    } else if v < 62 {
        (v - 52 + 48) as char
    } else if v == 62 {
        '+'
    } else {
        '/'
    }
}

/// The four characters that encode the bytes `b0 b1 b2`, of which the first `k` are real.
#[verifier::opaque]
pub open spec fn b64_quad(b0: int, b1: int, b2: int, k: int) -> Seq<char> {
    let n: int = b0 * 65536 + b1 * 256 + b2;
    seq![
        b64_digit((n / 262144) % 64),
        b64_digit((n / 4096) % 64),
        if k > 1 { b64_digit((n / 64) % 64) } else { '=' },
        if k > 2 { b64_digit(n % 64) } else { '=' },
    ]
}

/// The four characters that encode one group of one to three bytes.
pub open spec fn b64_group(c: Seq<u8>) -> Seq<char> {
    b64_quad(
        c[0] as int,
        if c.len() > 1 { c[1] as int } else { 0 },
        if c.len() > 2 { c[2] as int } else { 0 },
        c.len() as int,
    )
}

/// Standard padded base64 (RFC 4648) of `bytes`.
pub open spec fn base64_spec(bytes: Seq<u8>) -> Seq<char>
    decreases bytes.len(),
{
    if bytes.len() == 0 {
        seq![]
    } else if bytes.len() <= 3 {
        b64_group(bytes)
    } else {
        b64_group(bytes.take(3)) + base64_spec(bytes.skip(3))
    }
}

fn b64_digit_exec(v: u32) -> (c: char)
    requires
        v < 64,
    ensures
        c == b64_digit(v as int),
{
    if v < 26 {
        ((v + 65) as u8) as char
    } else if v < 52 {
        ((v - 26 + 97) as u8) as char
    } else if v < 62 {
        ((v - 52 + 48) as u8) as char
    } else if v == 62 {
        '+'
    } else {
        '/'
    }
}

fn b64_quad_exec(b0: u8, b1: u8, b2: u8, k: usize) -> (r: (char, char, char, char))
    ensures
        seq![r.0, r.1, r.2, r.3] == b64_quad(b0 as int, b1 as int, b2 as int, k as int),
{
    reveal(b64_quad);
    let v: u32 = (b0 as u32) * 65536 + (b1 as u32) * 256 + (b2 as u32);
    let c0 = b64_digit_exec((v / 262144) % 64);
    let c1 = b64_digit_exec((v / 4096) % 64);
    let c2 = if k > 1 { b64_digit_exec((v / 64) % 64) } else { '=' };
    let c3 = if k > 2 { b64_digit_exec(v % 64) } else { '=' };
    (c0, c1, c2, c3)
}

/// Base64 text of `bytes` (used to embed PNG images in SVG figures).
pub fn base64(bytes: &[u8]) -> (s: String)
    ensures
        s@ == base64_spec(bytes@),
{
    let mut out: Vec<char> = Vec::new();
    let n = bytes.len();
    let mut i: usize = 0;
    assert(bytes@.skip(0) =~= bytes@);
    while i < n
        invariant
            n == bytes.len(),
            i <= n,
            base64_spec(bytes@) == out@ + base64_spec(bytes@.skip(i as int)),
        decreases n - i,
    {
        let ghost rest = bytes@.skip(i as int);
        let b0 = bytes[i];
        let b1 = if n - i > 1 { bytes[i + 1] } else { 0 };
        let b2 = if n - i > 2 { bytes[i + 2] } else { 0 };
        let k = if n - i < 3 { n - i } else { 3 };
        let (c0, c1, c2, c3) = b64_quad_exec(b0, b1, b2, k);
        proof {
            let c = if rest.len() <= 3 { rest } else { rest.take(3) };
            assert(c.len() == k);
            assert(c[0] == b0);
            assert(c.len() > 1 ==> c[1] == b1);
            assert(c.len() > 2 ==> c[2] == b2);
            assert(k <= 1 ==> b1 == 0);
            assert(k <= 2 ==> b2 == 0);
            assert(seq![c0, c1, c2, c3] == b64_group(c));
        }
        let ghost before = out@;
        out.push(c0);
        out.push(c1);
        out.push(c2);
        out.push(c3);
        assert(out@ =~= before + seq![c0, c1, c2, c3]);
        if n - i <= 3 {
            proof {
                assert(bytes@.skip(n as int) =~= Seq::<u8>::empty());
            }
            i = n;
        } else {
            proof {
                assert(rest.skip(3) =~= bytes@.skip(i + 3));
            }
            i = i + 3;
        }
    }
    proof {
        assert(bytes@.skip(n as int) =~= Seq::<u8>::empty());
        assert(out@ =~= base64_spec(bytes@));
    }
    string_from_chars(out.as_slice())
}

/// Big-endian bytes of a 32-bit value.
pub open spec fn be32(v: u32) -> Seq<u8> {
    seq![(v >> 24u32) as u8, ((v >> 16u32) & 0xffu32) as u8, ((v >> 8u32) & 0xffu32) as u8, (v & 0xffu32) as u8]
}

fn be32_exec(v: u32) -> (r: [u8; 4])
    ensures
        r@ == be32(v),
{
    let r = [(v >> 24u32) as u8, ((v >> 16u32) & 0xffu32) as u8, ((v >> 8u32) & 0xffu32) as u8, (v & 0xffu32) as u8];
    assert(r@ =~= be32(v));
    r
}

/// The header of a stored deflate block holding `n` bytes: the final-block flag, then
/// the length and its complement, little-endian.
pub open spec fn stored_header(last: bool, n: nat) -> Seq<u8> {
    seq![
        if last { 1u8 } else { 0u8 },
        (n % 256) as u8,
        (n / 256) as u8,
        ((65535 - n) % 256) as u8,
        ((65535 - n) / 256) as u8,
    ]
}

/// Stored deflate blocks of at most 65535 bytes each carrying `data`.
pub open spec fn stored_chunks(data: Seq<u8>) -> Seq<u8>
    decreases data.len(),
{
    if data.len() <= 65535 {
        stored_header(true, data.len()) + data
    } else {
        stored_header(false, 65535) + data.take(65535) + stored_chunks(data.skip(65535))
    }
}

/// A zlib stream that stores `data` without compression.
pub open spec fn deflate_stored_spec(data: Seq<u8>) -> Seq<u8> {
    seq![0x78u8, 0x01u8] + stored_chunks(data) + be32(adler32_spec(data))
}

fn push_stored_header(out: &mut Vec<u8>, last: bool, n: usize)
    requires
        n <= 65535,
    ensures
        final(out)@ == old(out)@ + stored_header(last, n as nat),
{
    let ghost before = out@;
    out.push(if last { 1u8 } else { 0u8 });
    out.push((n % 256) as u8);
    out.push((n / 256) as u8);
    out.push(((65535 - n) % 256) as u8);
    out.push(((65535 - n) / 256) as u8);
    assert(out@ =~= before + stored_header(last, n as nat));
}

/// Wraps `data` in a zlib stream of stored blocks (used to write PNG image data).
pub fn deflate_stored(data: &[u8]) -> (out: Vec<u8>)
    ensures
        out@ == deflate_stored_spec(data@),
{
    let mut out: Vec<u8> = Vec::new();
    out.push(0x78);
    out.push(0x01);
    let n = data.len();
    let mut i: usize = 0;
    assert(data@.skip(0) =~= data@);
    loop
        invariant_except_break
            n == data.len(),
            i <= n,
            out@ + stored_chunks(data@.skip(i as int)) == seq![0x78u8, 0x01u8] + stored_chunks(data@),
        ensures
            out@ == seq![0x78u8, 0x01u8] + stored_chunks(data@),
        decreases n - i,
    {
        let ghost rest = data@.skip(i as int);
        let ghost before = out@;
        if n - i <= 65535 {
            push_stored_header(&mut out, true, n - i);
            let mut k: usize = i;
            while k < n
                invariant
                    i <= k <= n,
                    n == data.len(),
                    out@ == before + stored_header(true, (n - i) as nat) + data@.subrange(i as int, k as int),
                decreases n - k,
            {
                out.push(data[k]);
                k = k + 1;
                assert(data@.subrange(i as int, k as int) =~= data@.subrange(i as int, k - 1).push(data@[k - 1]));
            }
            assert(data@.subrange(i as int, n as int) =~= rest);
            assert(out@ =~= before + stored_chunks(rest));
            break;
        } else {
            push_stored_header(&mut out, false, 65535);
            let mut k: usize = i;
            while k < i + 65535
                invariant
                    i <= k <= i + 65535,
                    i + 65535 < n,
                    n == data.len(),
                    out@ == before + stored_header(false, 65535) + data@.subrange(i as int, k as int),
                decreases i + 65535 - k,
            {
                out.push(data[k]);
                k = k + 1;
                assert(data@.subrange(i as int, k as int) =~= data@.subrange(i as int, k - 1).push(data@[k - 1]));
            }
            assert(data@.subrange(i as int, i + 65535) =~= rest.take(65535));
            assert(rest.skip(65535) =~= data@.skip(i + 65535));
            assert(out@ + stored_chunks(data@.skip(i + 65535)) =~= before + stored_chunks(rest));
            i = i + 65535;
        }
    }
    let ghost body = out@;
    let trailer = be32_exec(adler32(data));
    out.push(trailer[0]);
    out.push(trailer[1]);
    out.push(trailer[2]);
    out.push(trailer[3]);
    assert(out@ =~= body + be32(adler32_spec(data@)));
    out
}

proof fn lemma_flag_byte_bits(x: u8)
    requires
        x <= 1,
    ensures
        (x >> 0u32) & 1u8 == x,
        (x >> 1u32) & 1u8 == 0,
        (x >> 2u32) & 1u8 == 0,
{
    assert(x <= 1 ==> (x >> 0u32) & 1u8 == x && (x >> 1u32) & 1u8 == 0 && (x >> 2u32) & 1u8 == 0)
        by (bit_vector);
}

proof fn lemma_stored_header_bits(z: Seq<u8>, p: int)
    requires
        0 <= p < z.len(),
        z[p] <= 1,
    ensures
        read_bits(z, 8 * p, 1) == Ok::<(nat, int), InflateError>((z[p] as nat, 8 * p + 1)),
        read_bits(z, 8 * p + 1, 2) == Ok::<(nat, int), InflateError>((0nat, 8 * p + 3)),
{
    lemma_flag_byte_bits(z[p]);
    assert((8 * p) / 8 == p && (8 * p) % 8 == 0);
    assert((8 * p + 1) / 8 == p && (8 * p + 1) % 8 == 1);
    assert((8 * p + 2) / 8 == p && (8 * p + 2) % 8 == 2);
    assert(bit_at(z, 8 * p) == z[p] as u32);
    assert(bit_at(z, 8 * p + 1) == 0);
    assert(bit_at(z, 8 * p + 2) == 0);
    assert(pow2(0) == 1);
    assert(pow2(1) == 2) by { reveal_with_fuel(pow2, 2); }
    assert(bits_value(z, 8 * p, 0) == 0);
    assert(bits_value(z, 8 * p, 1) == z[p] as nat);
    assert(bits_value(z, 8 * p + 1, 0) == 0);
    assert(bits_value(z, 8 * p + 1, 1) == 0);
    assert((8 * p + 1) + 2 - 1 == 8 * p + 2);
    assert(bits_value(z, 8 * p + 1, 2) == bits_value(z, 8 * p + 1, 1) + (bit_at(z, 8 * p + 2) as nat)
        * pow2(1));
    assert(bits_value(z, 8 * p + 1, 2) == 0);
}

proof fn lemma_inflate_stored_chunks(z: Seq<u8>, p: int, data: Seq<u8>, out: Seq<u8>)
    requires
        0 <= p,
        p + stored_chunks(data).len() <= z.len(),
        z.subrange(p, p + stored_chunks(data).len()) == stored_chunks(data),
    ensures
        inflate_blocks(z, 8 * p, out) == Ok::<Seq<u8>, InflateError>(out + data),
    decreases data.len(),
{
    let c = stored_chunks(data);
    assert(z[p] == c[0]);
    assert(z[p + 1] == c[1]);
    assert(z[p + 2] == c[2]);
    lemma_stored_header_bits(z, p);
    let a2 = 8 * p + 3;
    assert(a2 % 8 != 0 && a2 / 8 + 1 == p + 1);
    if data.len() <= 65535 {
        let n = data.len();
        assert(z[p + 1] as int + 256 * z[p + 2] as int == n);
        assert(z.subrange(p + 5, p + 5 + n) =~= data) by {
            assert forall|i: int| 0 <= i < n implies z.subrange(p + 5, p + 5 + n)[i] == data[i] by {
                assert(z[p + 5 + i] == c[5 + i]);
            }
        }
        assert(stored_block(z, a2, out) == Ok::<(int, Seq<u8>), InflateError>(
            (8 * (p + 5 + n), out + data),
        ));
        assert(block_body(z, 0, a2, out) == stored_block(z, a2, out));
        assert(block_step(z, 8 * p, out) == Ok::<(nat, int, Seq<u8>), InflateError>(
            (1nat, 8 * (p + 5 + n), out + data),
        ));
    } else {
        let rest = data.skip(65535);
        let head = data.take(65535);
        let p2 = p + 5 + 65535;
        assert(z[p + 1] as int + 256 * z[p + 2] as int == 65535);
        assert(z.subrange(p + 5, p2) =~= head) by {
            assert forall|i: int| 0 <= i < 65535 implies z.subrange(p + 5, p2)[i] == head[i] by {
                assert(z[p + 5 + i] == c[5 + i]);
            }
        }
        assert(stored_block(z, a2, out) == Ok::<(int, Seq<u8>), InflateError>(
            (8 * p2, out + head),
        ));
        assert(block_body(z, 0, a2, out) == stored_block(z, a2, out));
        assert(block_step(z, 8 * p, out) == Ok::<(nat, int, Seq<u8>), InflateError>(
            (0nat, 8 * p2, out + head),
        ));
        let c2 = stored_chunks(rest);
        assert(z.subrange(p2, p2 + c2.len()) =~= c2) by {
            assert forall|i: int| 0 <= i < c2.len() implies z.subrange(p2, p2 + c2.len())[i] == c2[i] by {
                assert(z[p2 + i] == c[5 + 65535 + i]);
            }
        }
        lemma_inflate_stored_chunks(z, p2, rest, out + head);
        assert(out + head + rest =~= out + data);
    }
}

/// Inflating a stream written by `deflate_stored` gives back exactly the stored bytes
/// (so a PNG image saved by the library decompresses to its pixel rows).
pub proof fn law_inflate_deflate_stored(data: Seq<u8>)
    ensures
        inflate_spec(deflate_stored_spec(data)) == Ok::<Seq<u8>, InflateError>(data),
{
    let z = deflate_stored_spec(data);
    let c = stored_chunks(data);
    assert(0x78u8 & 0x0Fu8 == 8) by (bit_vector);
    assert(z[0] == 0x78u8);
    assert(c.len() >= 5) by {
        if data.len() <= 65535 {
        } else {
        }
    }
    assert(z.subrange(2, 2 + c.len() as int) =~= c);
    lemma_inflate_stored_chunks(z, 2, data, seq![]);
    assert(seq![] + data =~= data);
}

/// Why a PNG file could not be decoded.
#[derive(Debug, Clone, Copy, PartialEq, Eq, Structural)]
pub enum PngError {
    NotPng,
    MissingIhdr,
    Interlaced,
    ZeroSize,
    UnsupportedDepth(u8, u8),
    Truncated,
    CorruptChunk(u8, u8, u8, u8),
    NoImageData,
    Compressed(InflateError),
    TruncatedImage,
    InvalidFilter,
    PaletteIndex,
}

/// The image header fields the decoder uses.
#[derive(Debug, Clone, Copy, PartialEq, Eq, Structural)]
pub struct Ihdr {
    pub width: usize,
    pub height: usize,
    pub bit_depth: u8,
    pub color_type: u8,
}

/// The big-endian 32-bit number at byte `i`.
pub open spec fn be32_at(data: Seq<u8>, i: int) -> nat {
    data[i] as nat * 16777216 + data[i + 1] as nat * 65536 + data[i + 2] as nat * 256 + data[i + 3] as nat
}

fn be32_read(data: &[u8], i: usize) -> (r: u32)
    requires
        i + 4 <= data@.len(),
    ensures
        r as nat == be32_at(data@, i as int),
{
    (data[i] as u32) * 16777216 + (data[i + 1] as u32) * 65536 + (data[i + 2] as u32) * 256 + (data[i + 3] as u32)
}

pub open spec fn png_signature() -> Seq<u8> {
    seq![0x89u8, 0x50, 0x4E, 0x47, 0x0D, 0x0A, 0x1A, 0x0A]
}

pub open spec fn kind_ihdr() -> Seq<u8> {
    seq![73u8, 72, 68, 82]
}

pub open spec fn kind_idat() -> Seq<u8> {
    seq![73u8, 68, 65, 84]
}

pub open spec fn kind_plte() -> Seq<u8> {
    seq![80u8, 76, 84, 69]
}

pub open spec fn kind_iend() -> Seq<u8> {
    seq![73u8, 69, 78, 68]
}

/// The (color type, bit depth) pairs the decoder reads.
pub open spec fn supported_format(color_type: u8, bit_depth: u8) -> bool {
    ||| (color_type == 0 || color_type == 2 || color_type == 4 || color_type == 6) && (bit_depth == 8
        || bit_depth == 16)
    ||| color_type == 3 && bit_depth == 8
}

/// The PNG signature and IHDR chunk at the start of a file.
pub open spec fn parse_ihdr_spec(data: Seq<u8>) -> Result<Ihdr, PngError> {
    if data.len() < 33 || data.take(8) != png_signature() {
        Err(PngError::NotPng)
    } else if data.subrange(12, 16) != kind_ihdr() {
        Err(PngError::MissingIhdr)
    } else if data[28] != 0 {
        Err(PngError::Interlaced)
    } else if be32_at(data, 16) == 0 || be32_at(data, 20) == 0 {
        Err(PngError::ZeroSize)
    } else if !supported_format(data[25], data[24]) {
        Err(PngError::UnsupportedDepth(data[24], data[25]))
    } else {
        Ok(
            Ihdr {
                width: be32_at(data, 16) as usize,
                height: be32_at(data, 20) as usize,
                bit_depth: data[24],
                color_type: data[25],
            },
        )
    }
}

fn slice_eq_at(data: &[u8], at: usize, want: &[u8]) -> (r: bool)
    requires
        at + want@.len() <= data@.len(),
    ensures
        r == (data@.subrange(at as int, at + want@.len()) == want@),
{
    let mut i: usize = 0;
    while i < want.len()
        invariant
            i <= want@.len(),
            at + want@.len() <= data@.len(),
            forall|j: int| 0 <= j < i ==> data@[at + j] == want@[j],
        decreases want.len() - i,
    {
        assert(at + i < data.len());
        if data[at + i] != want[i] {
            assert(data@.subrange(at as int, at + want@.len())[i as int] != want@[i as int]);
            return false;
        }
        i = i + 1;
    }
    assert(data@.subrange(at as int, at + want@.len()) =~= want@);
    true
}

/// Reads the PNG signature and image header.
pub fn parse_ihdr(data: &[u8]) -> (r: Result<Ihdr, PngError>)
    ensures
        r == parse_ihdr_spec(data@),
{
    if data.len() < 33 {
        return Err(PngError::NotPng);
    }
    let sig: [u8; 8] = [0x89, 0x50, 0x4E, 0x47, 0x0D, 0x0A, 0x1A, 0x0A];
    assert(sig@ =~= png_signature());
    if !slice_eq_at(data, 0, &sig) {
        assert(data@.subrange(0, 8) =~= data@.take(8));
        return Err(PngError::NotPng);
    }
    assert(data@.subrange(0, 8) =~= data@.take(8));
    let ihdr: [u8; 4] = [73, 72, 68, 82];
    assert(ihdr@ =~= kind_ihdr());
    if !slice_eq_at(data, 12, &ihdr) {
        return Err(PngError::MissingIhdr);
    }
    let width = be32_read(data, 16);
    let height = be32_read(data, 20);
    let bit_depth = data[24];
    let color_type = data[25];
    if data[28] != 0 {
        return Err(PngError::Interlaced);
    }
    if width == 0 || height == 0 {
        return Err(PngError::ZeroSize);
    }
    let ok = ((color_type == 0 || color_type == 2 || color_type == 4 || color_type == 6) && (bit_depth
        == 8 || bit_depth == 16)) || (color_type == 3 && bit_depth == 8);
    if !ok {
        return Err(PngError::UnsupportedDepth(bit_depth, color_type));
    }
    Ok(Ihdr { width: width as usize, height: height as usize, bit_depth, color_type })
}

/// Samples per pixel as stored for a color type.
pub open spec fn raw_channels_spec(color_type: u8) -> nat {
    if color_type == 0 || color_type == 3 {
        1
    } else if color_type == 4 {
        2
    } else if color_type == 2 {
        3
    } else {
        4
    }
}

/// Samples per pixel as stored for a color type.
pub fn raw_channels(color_type: u8) -> (n: usize)
    ensures
        n == raw_channels_spec(color_type),
{
    if color_type == 0 || color_type == 3 {
        1
    } else if color_type == 4 {
        2
    } else if color_type == 2 {
        3
    } else {
        4
    }
}

/// Channels of the decoded image: palette images expand to RGB.
pub open spec fn out_channels_spec(color_type: u8) -> nat {
    if color_type == 3 { 3 } else { raw_channels_spec(color_type) }
}

/// Channels of the decoded image: palette images expand to RGB.
pub fn out_channels(color_type: u8) -> (n: usize)
    ensures
        n == out_channels_spec(color_type),
{
    if color_type == 3 { 3 } else { raw_channels(color_type) }
}

pub open spec fn abs_int(v: int) -> int {
    if v < 0 { -v } else { v }
}

/// The Paeth predictor (PNG filter type 4).
pub open spec fn paeth_spec(a: int, b: int, c: int) -> int {
    let p = a + b - c;
    let pa = abs_int(p - a);
    let pb = abs_int(p - b);
    let pc = abs_int(p - c);
    if pa <= pb && pa <= pc { a } else if pb <= pc { b } else { c }
}

/// The Paeth predictor (PNG filter type 4).
pub fn paeth(a: i32, b: i32, c: i32) -> (r: i32)
    requires
        0 <= a <= 255,
        0 <= b <= 255,
        0 <= c <= 255,
    ensures
        r == paeth_spec(a as int, b as int, c as int),
{
    let p = a + b - c;
    let pa = if p - a < 0 { a - p } else { p - a };
    let pb = if p - b < 0 { b - p } else { p - b };
    let pc = if p - c < 0 { c - p } else { p - c };
    if pa <= pb && pa <= pc { a } else if pb <= pc { b } else { c }
}

/// Walks the chunks from byte `pos`, checking each CRC, collecting the IDAT bodies and the
/// last PLTE body, and stopping at IEND or when fewer than 8 bytes remain.
pub open spec fn png_chunks(data: Seq<u8>, pos: int, idat: Seq<u8>, palette: Seq<u8>) -> Result<
    (Seq<u8>, Seq<u8>),
    PngError,
>
    decreases data.len() - pos,
{
    if pos < 0 || pos + 8 > data.len() {
        Ok((idat, palette))
    } else {
        let len = be32_at(data, pos) as int;
        if pos + 12 + len > data.len() {
            Err(PngError::Truncated)
        } else {
            let kind = data.subrange(pos + 4, pos + 8);
            let body = data.subrange(pos + 8, pos + 8 + len);
            if crc32_spec(data.subrange(pos + 4, pos + 8 + len)) != be32_at(data, pos + 8 + len) {
                Err(PngError::CorruptChunk(kind[0], kind[1], kind[2], kind[3]))
            } else if kind == kind_idat() {
                png_chunks(data, pos + 12 + len, idat + body, palette)
            } else if kind == kind_plte() {
                png_chunks(data, pos + 12 + len, idat, body)
            } else if kind == kind_iend() {
                Ok((idat, palette))
            } else {
                png_chunks(data, pos + 12 + len, idat, palette)
            }
        }
    }
}

fn copy_range(data: &[u8], from: usize, to: usize) -> (v: Vec<u8>)
    requires
        from <= to <= data@.len(),
    ensures
        v@ == data@.subrange(from as int, to as int),
{
    let mut v: Vec<u8> = Vec::new();
    let mut i = from;
    while i < to
        invariant
            from <= i <= to,
            to <= data@.len(),
            v@ =~= data@.subrange(from as int, i as int),
        decreases to - i,
    {
        v.push(data[i]);
        i = i + 1;
    }
    v
}

fn collect_chunks(data: &[u8]) -> (r: Result<(Vec<u8>, Vec<u8>), PngError>)
    ensures
        match png_chunks(data@, 8, seq![], seq![]) {
            Ok((i, p)) => r matches Ok((iv, pv)) && iv@ == i && pv@ == p,
            Err(e) => r == Err::<(Vec<u8>, Vec<u8>), PngError>(e),
        },
{
    let mut idat: Vec<u8> = Vec::new();
    let mut palette: Vec<u8> = Vec::new();
    let mut pos: usize = 8;
    let ghost target = png_chunks(data@, 8, seq![], seq![]);
    let idat_kind: [u8; 4] = [73, 68, 65, 84];
    let plte_kind: [u8; 4] = [80, 76, 84, 69];
    let iend_kind: [u8; 4] = [73, 69, 78, 68];
    assert(idat_kind@ =~= kind_idat());
    assert(plte_kind@ =~= kind_plte());
    assert(iend_kind@ =~= kind_iend());
    while pos <= data.len() && data.len() - pos >= 8
        invariant
            pos >= 8,
            target == png_chunks(data@, pos as int, idat@, palette@),
            target == png_chunks(data@, 8, seq![], seq![]),
            idat_kind@ == kind_idat(),
            plte_kind@ == kind_plte(),
            iend_kind@ == kind_iend(),
        decreases data.len() - pos,
    {
        assert(data@.len() == data.len());
        let len = be32_read(data, pos) as usize;
        if data.len() - pos < 12 || len > data.len() - pos - 12 {
            assert(png_chunks(data@, pos as int, idat@, palette@) == Err::<(Seq<u8>, Seq<u8>), PngError>(
                PngError::Truncated,
            ));
            return Err(PngError::Truncated);
        }
        assert(pos + 12 + len <= data.len());
        let check = copy_range(data, pos + 4, pos + 8 + len);
        let crc = be32_read(data, pos + 8 + len);
        if crc32(check.as_slice()) != crc {
            let ghost kind = data@.subrange(pos + 4, pos + 8);
            assert(kind[0] == data@[pos + 4] && kind[1] == data@[pos + 5] && kind[2] == data@[pos + 6]
                && kind[3] == data@[pos + 7]);
            return Err(PngError::CorruptChunk(data[pos + 4], data[pos + 5], data[pos + 6], data[pos + 7]));
        }
        if slice_eq_at(data, pos + 4, &idat_kind) {
            let mut i = pos + 8;
            let ghost before = idat@;
            while i < pos + 8 + len
                invariant
                    pos + 8 <= i <= pos + 8 + len,
                    pos + 12 + len <= data@.len(),
                    data@.len() == data.len(),
                    idat@ =~= before + data@.subrange(pos + 8, i as int),
                decreases pos + 8 + len - i,
            {
                idat.push(data[i]);
                i = i + 1;
            }
        } else if slice_eq_at(data, pos + 4, &plte_kind) {
            palette = copy_range(data, pos + 8, pos + 8 + len);
        } else if slice_eq_at(data, pos + 4, &iend_kind) {
            return Ok((idat, palette));
        }
        pos = pos + 12 + len;
    }
    Ok((idat, palette))
}

/// The reconstructed value of filtered byte `x` of row `y`, given the bytes `lines`
/// reconstructed before it (PNG filter types 0 to 4), or `None` for an unknown filter.
pub open spec fn recon_byte(raw: Seq<u8>, lines: Seq<u8>, stride: int, bpp: int, y: int, x: int) -> Option<
    u8,
> {
    let k = lines.len() as int;
    let filter = raw[y * (stride + 1)];
    let cur = raw[y * (stride + 1) + 1 + x] as int;
    let left: int = if x >= bpp { lines[k - bpp] as int } else { 0 };
    let up: int = if y > 0 { lines[k - stride] as int } else { 0 };
    let corner: int = if x >= bpp && y > 0 { lines[k - stride - bpp] as int } else { 0 };
    if filter == 0 {
        Some(cur as u8)
    } else if filter == 1 {
        Some(((cur + left) % 256) as u8)
    } else if filter == 2 {
        Some(((cur + up) % 256) as u8)
    } else if filter == 3 {
        Some(((cur + (left + up) / 2) % 256) as u8)
    } else if filter == 4 {
        Some(((cur + paeth_spec(left, up, corner)) % 256) as u8)
    } else {
        None
    }
}

/// Reverses the scanline filters for all rows before `y` and the first `x` bytes of row `y`.
pub open spec fn unfilter(raw: Seq<u8>, stride: int, bpp: int, y: nat, x: nat) -> Result<
    Seq<u8>,
    PngError,
>
    decreases y, x,
{
    if x == 0 {
        if y == 0 {
            Ok(seq![])
        } else {
            unfilter(raw, stride, bpp, (y - 1) as nat, stride as nat)
        }
    } else {
        match unfilter(raw, stride, bpp, y, (x - 1) as nat) {
            Err(e) => Err(e),
            Ok(lines) => match recon_byte(raw, lines, stride, bpp, y as int, x - 1) {
                None => Err(PngError::InvalidFilter),
                Some(v) => Ok(lines.push(v)),
            },
        }
    }
}

pub proof fn lemma_unfilter_len(raw: Seq<u8>, stride: int, bpp: int, y: nat, x: nat)
    requires
        stride >= 0,
    ensures
        unfilter(raw, stride, bpp, y, x) matches Ok(lines) ==> lines.len() == y * stride + x,
    decreases y, x,
{
    if x == 0 {
        if y > 0 {
            lemma_unfilter_len(raw, stride, bpp, (y - 1) as nat, stride as nat);
            let ym = (y - 1) as int;
            assert(ym * stride + stride == (ym + 1) * stride) by (nonlinear_arith);
            assert(ym + 1 == y);
        } else {
            assert(0 * stride == 0);
        }
    } else {
        lemma_unfilter_len(raw, stride, bpp, y, (x - 1) as nat);
    }
}

proof fn lemma_row_index(y: int, x: int, h: int, stride: int)
    requires
        0 <= y < h,
        0 <= x < stride,
    ensures
        y * (stride + 1) + 1 + x < h * (stride + 1),
        stride + 1 <= h * (stride + 1),
        y >= 1 ==> y * stride >= stride,
        0 <= y * (stride + 1),
        y * stride + x < h * stride,
        (y + 1) * stride == y * stride + stride,
{
    assert(y * (stride + 1) + 1 + x < h * (stride + 1)) by (nonlinear_arith)
        requires
            0 <= y < h,
            0 <= x < stride,
    ;
    assert(stride + 1 <= h * (stride + 1)) by (nonlinear_arith)
        requires
            0 <= y < h,
            0 <= x < stride,
    ;
    assert(0 <= y * (stride + 1)) by (nonlinear_arith)
        requires
            0 <= y,
            0 <= stride,
    ;
    assert(y * stride + x < h * stride) by (nonlinear_arith)
        requires
            0 <= y < h,
            0 <= x < stride,
    ;
    assert((y + 1) * stride == y * stride + stride) by (nonlinear_arith);
    assert(y >= 1 ==> y * stride >= stride) by (nonlinear_arith)
        requires
            0 <= x < stride,
    ;
}

fn unfilter_exec(raw: &[u8], height: usize, stride: usize, bpp: usize) -> (r: Result<
    Vec<u8>,
    PngError,
>)
    requires
        stride >= 1,
        1 <= bpp <= 8,
        height * (stride + 1) <= raw@.len(),
    ensures
        match unfilter(raw@, stride as int, bpp as int, height as nat, 0) {
            Ok(lines) => r matches Ok(v) && v@ == lines,
            Err(e) => r == Err::<Vec<u8>, PngError>(e),
        },
{
    let mut lines: Vec<u8> = Vec::new();
    let ghost target = unfilter(raw@, stride as int, bpp as int, height as nat, 0);
    let mut y: usize = 0;
    while y < height
        invariant
            y <= height,
            stride >= 1,
            1 <= bpp <= 8,
            height * (stride + 1) <= raw@.len(),
            unfilter(raw@, stride as int, bpp as int, y as nat, 0) == Ok::<Seq<u8>, PngError>(lines@),
            lines@.len() == y * stride,
            target == unfilter(raw@, stride as int, bpp as int, height as nat, 0),
        decreases height - y,
    {
        proof {
            lemma_row_index(y as int, 0, height as int, stride as int);
            assert(unfilter(raw@, stride as int, bpp as int, (y + 1) as nat, 0) == unfilter(
                raw@,
                stride as int,
                bpp as int,
                y as nat,
                stride as nat,
            ));
        }
        assert(raw@.len() == raw.len());
        let row = y * (stride + 1);
        let filter = raw[row];
        let mut x: usize = 0;
        while x < stride
            invariant
                y < height,
                x <= stride,
                stride >= 1,
                1 <= bpp <= 8,
                row == y * (stride + 1),
                filter == raw@[row as int],
                height * (stride + 1) <= raw@.len(),
                unfilter(raw@, stride as int, bpp as int, y as nat, x as nat) == Ok::<Seq<u8>, PngError>(lines@),
                lines@.len() == y * stride + x,
                target == unfilter(raw@, stride as int, bpp as int, height as nat, 0),
                unfilter(raw@, stride as int, bpp as int, (y + 1) as nat, 0) == unfilter(
                    raw@,
                    stride as int,
                    bpp as int,
                    y as nat,
                    stride as nat,
                ),
            decreases stride - x,
        {
            proof {
                lemma_row_index(y as int, x as int, height as int, stride as int);
            }
            let k = lines.len();
            assert(raw@.len() == raw.len());
            let cur = raw[row + 1 + x] as i32;
            let left: i32 = if x >= bpp { lines[k - bpp] as i32 } else { 0 };
            let up: i32 = if y > 0 { lines[k - stride] as i32 } else { 0 };
            let corner: i32 = if x >= bpp && y > 0 { lines[k - stride - bpp] as i32 } else { 0 };
            let v: i32 = if filter == 0 {
                cur
            } else if filter == 1 {
                (cur + left) % 256
            } else if filter == 2 {
                (cur + up) % 256
            } else if filter == 3 {
                (cur + (left + up) / 2) % 256
            } else if filter == 4 {
                (cur + paeth(left, up, corner)) % 256
            } else {
                proof {
                    assert(recon_byte(raw@, lines@, stride as int, bpp as int, y as int, x as int) is None);
                    assert(unfilter(raw@, stride as int, bpp as int, y as nat, (x + 1) as nat) == Err::<Seq<u8>, PngError>(PngError::InvalidFilter));
                    lemma_unfilter_err_prop(raw@, stride as int, bpp as int, y as nat, (x + 1) as nat, height as nat);
                }
                return Err(PngError::InvalidFilter);
            };
            proof {
                assert(recon_byte(raw@, lines@, stride as int, bpp as int, y as int, x as int) == Some(v as u8));
            }
            lines.push(v as u8);
            x = x + 1;
        }
        y = y + 1;
    }
    Ok(lines)
}

proof fn lemma_unfilter_err_prop(raw: Seq<u8>, stride: int, bpp: int, y: nat, x: nat, h: nat)
    requires
        unfilter(raw, stride, bpp, y, x) is Err,
        y < h,
        x <= stride,
        stride >= 1,
    ensures
        unfilter(raw, stride, bpp, h, 0) == unfilter(raw, stride, bpp, y, x),
    decreases h - y, stride - x,
{
    if x < stride {
        assert(unfilter(raw, stride, bpp, y, (x + 1) as nat) == unfilter(raw, stride, bpp, y, x));
        lemma_unfilter_err_prop(raw, stride, bpp, y, (x + 1) as nat, h);
    } else if y + 1 < h {
        assert(unfilter(raw, stride, bpp, (y + 1) as nat, 0) == unfilter(raw, stride, bpp, y, x));
        assert(unfilter(raw, stride, bpp, (y + 1) as nat, 1) == unfilter(raw, stride, bpp, (y + 1) as nat, 0));
        lemma_unfilter_err_prop(raw, stride, bpp, (y + 1) as nat, 1, h);
    } else {
        assert(unfilter(raw, stride, bpp, (y + 1) as nat, 0) == unfilter(raw, stride, bpp, y, x));
    }
}

/// A decoded image: height, width, channels per pixel, and the samples in row-major order,
/// each from 0 to 255, or to 65535 when `sixteen` is set.
pub struct PngImage {
    pub height: usize,
    pub width: usize,
    pub channels: usize,
    pub sixteen: bool,
    pub samples: Vec<u16>,
}

/// The samples of pixel `x` of row `y`: palette entries are expanded to RGB, 16-bit
/// samples are read big-endian.
pub open spec fn pixel_samples(
    lines: Seq<u8>,
    palette: Seq<u8>,
    color_type: u8,
    sixteen: bool,
    channels: nat,
    stride: int,
    bpp: int,
    y: int,
    x: int,
) -> Result<Seq<u16>, PngError> {
    let base = y * stride + x * bpp;
    if color_type == 3 {
        let idx = lines[base] as int * 3;
        if idx + 2 >= palette.len() {
            Err(PngError::PaletteIndex)
        } else {
            Ok(seq![palette[idx] as u16, palette[idx + 1] as u16, palette[idx + 2] as u16])
        }
    } else {
        Ok(
            Seq::new(
                channels,
                |k: int|
                    if sixteen {
                        (lines[base + 2 * k] as int * 256 + lines[base + 2 * k + 1] as int) as u16
                    } else {
                        lines[base + k] as u16
                    },
            ),
        )
    }
}

/// The samples of the first `x` pixels of row `y`.
pub open spec fn row_samples(
    lines: Seq<u8>,
    palette: Seq<u8>,
    color_type: u8,
    sixteen: bool,
    channels: nat,
    stride: int,
    bpp: int,
    y: int,
    x: nat,
) -> Result<Seq<u16>, PngError>
    decreases x,
{
    if x == 0 {
        Ok(seq![])
    } else {
        match row_samples(lines, palette, color_type, sixteen, channels, stride, bpp, y, (x - 1) as nat) {
            Err(e) => Err(e),
            Ok(s) => match pixel_samples(lines, palette, color_type, sixteen, channels, stride, bpp, y, x - 1) {
                Err(e) => Err(e),
                Ok(p) => Ok(s + p),
            },
        }
    }
}

/// The samples of the first `y` rows, each `width` pixels wide.
pub open spec fn image_samples(
    lines: Seq<u8>,
    palette: Seq<u8>,
    color_type: u8,
    sixteen: bool,
    channels: nat,
    stride: int,
    bpp: int,
    width: nat,
    y: nat,
) -> Result<Seq<u16>, PngError>
    decreases y,
{
    if y == 0 {
        Ok(seq![])
    } else {
        match image_samples(lines, palette, color_type, sixteen, channels, stride, bpp, width, (y - 1) as nat) {
            Err(e) => Err(e),
            Ok(s) => match row_samples(lines, palette, color_type, sixteen, channels, stride, bpp, y - 1, width) {
                Err(e) => Err(e),
                Ok(r) => Ok(s + r),
            },
        }
    }
}

/// Decoding a PNG file to its header and samples: header, chunks, decompression,
/// unfiltering, then sample extraction, each failing as `PngError` says.
pub open spec fn png_decode_spec(data: Seq<u8>) -> Result<(Ihdr, Seq<u16>), PngError> {
    match parse_ihdr_spec(data) {
        Err(e) => Err(e),
        Ok(h) => match png_chunks(data, 8, seq![], seq![]) {
            Err(e) => Err(e),
            Ok((idat, palette)) => if idat.len() == 0 {
                Err(PngError::NoImageData)
            } else {
                match inflate_spec(idat) {
                    Err(e) => Err(PngError::Compressed(e)),
                    Ok(raw) => {
                        let channels = raw_channels_spec(h.color_type);
                        let sixteen = h.bit_depth == 16;
                        let bpp = channels * if sixteen { 2nat } else { 1nat };
                        let stride = h.width * bpp;
                        if raw.len() < h.height * (stride + 1) {
                            Err(PngError::TruncatedImage)
                        } else {
                            match unfilter(raw, stride as int, bpp as int, h.height as nat, 0) {
                                Err(e) => Err(e),
                                Ok(lines) => match image_samples(
                                    lines,
                                    palette,
                                    h.color_type,
                                    sixteen,
                                    channels,
                                    stride as int,
                                    bpp as int,
                                    h.width as nat,
                                    h.height as nat,
                                ) {
                                    Err(e) => Err(e),
                                    Ok(samples) => Ok((h, samples)),
                                },
                            }
                        }
                    },
                }
            },
        },
    }
}

proof fn lemma_pixel_index(y: int, x: int, h: int, w: int, bpp: int)
    requires
        0 <= y < h,
        0 <= x < w,
        1 <= bpp,
    ensures
        y * (w * bpp) + x * bpp + bpp <= h * (w * bpp),
        0 <= y * (w * bpp) + x * bpp,
{
    assert(x * bpp + bpp <= w * bpp) by (nonlinear_arith)
        requires
            0 <= x < w,
            1 <= bpp,
    ;
    assert(y * (w * bpp) + w * bpp <= h * (w * bpp)) by (nonlinear_arith)
        requires
            0 <= y < h,
            0 <= w * bpp,
    ;
    assert(0 <= y * (w * bpp) + x * bpp) by (nonlinear_arith)
        requires
            0 <= y,
            0 <= x,
            1 <= bpp,
            0 <= w,
    ;
}

fn pixel_exec(
    lines: &[u8],
    palette: &[u8],
    color_type: u8,
    sixteen: bool,
    channels: usize,
    base: usize,
    out: &mut Vec<u16>,
) -> (r: Result<(), PngError>)
    requires
        1 <= channels <= 4,
        sixteen ==> base + 2 * channels <= lines@.len(),
        !sixteen ==> base + channels <= lines@.len(),
        color_type == 3 ==> base < lines@.len(),
    ensures
        forall|stride: int, bpp: int, y: int, x: int|
            y * stride + x * bpp == base ==> match #[trigger] pixel_samples(
                lines@,
                palette@,
                color_type,
                sixteen,
                channels as nat,
                stride,
                bpp,
                y,
                x,
            ) {
                Ok(p) => r is Ok && final(out)@ == old(out)@ + p,
                Err(e) => r == Err::<(), PngError>(e),
            },
{
    if color_type == 3 {
        let idx = lines[base] as usize * 3;
        if idx + 2 >= palette.len() {
            return Err(PngError::PaletteIndex);
        }
        let ghost before = out@;
        out.push(palette[idx] as u16);
        out.push(palette[idx + 1] as u16);
        out.push(palette[idx + 2] as u16);
        assert(out@ =~= before + seq![palette@[idx as int] as u16, palette@[idx + 1] as u16, palette@[idx + 2] as u16]);
        Ok(())
    } else {
        let ghost before = out@;
        let ghost want = Seq::new(
            channels as nat,
            |k: int|
                if sixteen {
                    (lines@[base + 2 * k] as int * 256 + lines@[base + 2 * k + 1] as int) as u16
                } else {
                    lines@[base + k] as u16
                },
        );
        let mut k: usize = 0;
        while k < channels
            invariant
                k <= channels,
                1 <= channels <= 4,
                sixteen ==> base + 2 * channels <= lines@.len(),
                !sixteen ==> base + channels <= lines@.len(),
                lines@.len() == lines.len(),
                want.len() == channels,
                out@ =~= before + want.take(k as int),
                forall|j: int| 0 <= j < channels ==> #[trigger] want[j] == if sixteen {
                    (lines@[base + 2 * j] as int * 256 + lines@[base + 2 * j + 1] as int) as u16
                } else {
                    lines@[base + j] as u16
                },
            decreases channels - k,
        {
            let v: u16 = if sixteen {
                (lines[base + 2 * k] as u16) * 256 + (lines[base + 2 * k + 1] as u16)
            } else {
                lines[base + k] as u16
            };
            proof {
                assert(v == want[k as int]);
                assert(want.take(k + 1) =~= want.take(k as int).push(want[k as int]));
            }
            out.push(v);
            k = k + 1;
        }
        assert(want.take(channels as int) =~= want);
        Ok(())
    }
}

proof fn lemma_be32_bound(data: Seq<u8>, i: int)
    ensures
        be32_at(data, i) < 0x1_0000_0000,
{
}

/// Decodes a PNG file to its header and samples.
#[verifier::rlimit(40)]
pub fn decode_png_samples(data: &[u8]) -> (r: Result<PngImage, PngError>)
    ensures
        match png_decode_spec(data@) {
            Ok((h, samples)) => r matches Ok(img) && img.height == h.height && img.width == h.width
                && img.channels == out_channels_spec(h.color_type) && img.sixteen == (h.bit_depth == 16)
                && img.samples@ == samples,
            Err(e) => r matches Err(e2) && e2 == e,
        },
{
    let ihdr = match parse_ihdr(data) {
        Ok(h) => h,
        Err(e) => {
            return Err(e);
        },
    };
    let (idat, palette) = match collect_chunks(data) {
        Ok(t) => t,
        Err(e) => {
            return Err(e);
        },
    };
    if idat.len() == 0 {
        return Err(PngError::NoImageData);
    }
    let raw = match inflate(idat.as_slice()) {
        Ok(v) => v,
        Err(e) => {
            return Err(PngError::Compressed(e));
        },
    };
    let channels = raw_channels(ihdr.color_type);
    let sixteen = ihdr.bit_depth == 16;
    let sample_bytes: usize = if sixteen { 2 } else { 1 };
    let bpp = channels * sample_bytes;
    proof {
        lemma_be32_bound(data@, 16);
        lemma_be32_bound(data@, 20);
    }
    let w128 = ihdr.width as u128;
    let h128 = ihdr.height as u128;
    let b128 = bpp as u128;
    assert(w128 < 0x1_0000_0000 && h128 < 0x1_0000_0000);
    assert(w128 * b128 <= 0x1_0000_0000 * 8) by (nonlinear_arith)
        requires
            w128 < 0x1_0000_0000,
            b128 <= 8,
    ;
    let row128 = w128 * b128 + 1;
    assert(h128 * row128 <= 0x1_0000_0000 * (0x1_0000_0000 * 8 + 1)) by (nonlinear_arith)
        requires
            h128 < 0x1_0000_0000,
            row128 <= 0x1_0000_0000 * 8 + 1,
    ;
    let need: u128 = h128 * row128;
    if (raw.len() as u128) < need {
        return Err(PngError::TruncatedImage);
    }
    let width = ihdr.width;
    let height = ihdr.height;
    proof {
        assert(width >= 1 && height >= 1);
        assert((width as int) * (bpp as int) + 1 <= need) by (nonlinear_arith)
            requires
                height >= 1,
                need == (height as int) * ((width as int) * (bpp as int) + 1),
                width as int * bpp as int >= 0,
        ;
        assert(width as int * bpp as int >= 1) by (nonlinear_arith)
            requires
                width >= 1,
                bpp >= 1,
        ;
    }
    let stride = width * bpp;
    let lines = match unfilter_exec(raw.as_slice(), height, stride, bpp) {
        Ok(v) => v,
        Err(e) => {
            return Err(e);
        },
    };
    proof {
        lemma_unfilter_len(raw@, stride as int, bpp as int, height as nat, 0);
    }
    let out_c = out_channels(ihdr.color_type);
    let mut vals: Vec<u16> = Vec::new();
    let ghost all = image_samples(lines@, palette@, ihdr.color_type, sixteen, channels as nat, stride as int, bpp as int, width as nat, height as nat);
    assert(png_decode_spec(data@) == match all {
        Err(e) => Err(e),
        Ok(samples) => Ok::<(Ihdr, Seq<u16>), PngError>((ihdr, samples)),
    });
    let mut y: usize = 0;
    while y < height
        invariant
            y <= height,
            lines@.len() == height * stride,
            stride == width * bpp,
            1 <= bpp <= 8,
            1 <= channels <= 4,
            bpp == channels * (if sixteen { 2nat } else { 1nat }),
            image_samples(lines@, palette@, ihdr.color_type, sixteen, channels as nat, stride as int, bpp as int, width as nat, y as nat) == Ok::<Seq<u16>, PngError>(vals@),
            all == image_samples(lines@, palette@, ihdr.color_type, sixteen, channels as nat, stride as int, bpp as int, width as nat, height as nat),
            png_decode_spec(data@) == match all {
                Err(e) => Err(e),
                Ok(samples) => Ok::<(Ihdr, Seq<u16>), PngError>((ihdr, samples)),
            },
        decreases height - y,
    {
        let mut x: usize = 0;
        let ghost row_start = vals@;
        while x < width
            invariant
                y < height,
                x <= width,
                lines@.len() == height * stride,
                stride == width * bpp,
                1 <= bpp <= 8,
                1 <= channels <= 4,
                bpp == channels * (if sixteen { 2nat } else { 1nat }),
                image_samples(lines@, palette@, ihdr.color_type, sixteen, channels as nat, stride as int, bpp as int, width as nat, y as nat) == Ok::<Seq<u16>, PngError>(row_start),
                row_samples(lines@, palette@, ihdr.color_type, sixteen, channels as nat, stride as int, bpp as int, y as int, x as nat) matches Ok(r) && vals@ == row_start + r,
                all == image_samples(lines@, palette@, ihdr.color_type, sixteen, channels as nat, stride as int, bpp as int, width as nat, height as nat),
                png_decode_spec(data@) == match all {
                    Err(e) => Err(e),
                    Ok(samples) => Ok::<(Ihdr, Seq<u16>), PngError>((ihdr, samples)),
                },
            decreases width - x,
        {
            proof {
                lemma_pixel_index(y as int, x as int, height as int, width as int, bpp as int);
            }
            assert(lines@.len() == lines.len());
            let base = y * stride + x * bpp;
            let ghost before = vals@;
            match pixel_exec(lines.as_slice(), palette.as_slice(), ihdr.color_type, sixteen, channels, base, &mut vals) {
                Ok(()) => {},
                Err(e) => {
                    proof {
                        assert(pixel_samples(lines@, palette@, ihdr.color_type, sixteen, channels as nat, stride as int, bpp as int, y as int, x as int) == Err::<Seq<u16>, PngError>(e));
                        lemma_samples_err_prop(lines@, palette@, ihdr.color_type, sixteen, channels as nat, stride as int, bpp as int, width as nat, height as nat, y as nat, (x + 1) as nat);
                    }
                    return Err(e);
                },
            }
            proof {
                assert(pixel_samples(lines@, palette@, ihdr.color_type, sixteen, channels as nat, stride as int, bpp as int, y as int, x as int) is Ok);
            }
            x = x + 1;
        }
        y = y + 1;
    }
    Ok(PngImage { height, width, channels: out_c, sixteen, samples: vals })
}

proof fn lemma_samples_err_prop(
    lines: Seq<u8>,
    palette: Seq<u8>,
    color_type: u8,
    sixteen: bool,
    channels: nat,
    stride: int,
    bpp: int,
    width: nat,
    height: nat,
    y: nat,
    x: nat,
)
    requires
        y < height,
        x <= width,
        image_samples(lines, palette, color_type, sixteen, channels, stride, bpp, width, y) is Ok,
        row_samples(lines, palette, color_type, sixteen, channels, stride, bpp, y as int, x) is Err,
    ensures
        image_samples(lines, palette, color_type, sixteen, channels, stride, bpp, width, height)
            == row_samples(lines, palette, color_type, sixteen, channels, stride, bpp, y as int, x),
    decreases height - y, width - x,
{
    if x < width {
        assert(row_samples(lines, palette, color_type, sixteen, channels, stride, bpp, y as int, (x + 1) as nat)
            == row_samples(lines, palette, color_type, sixteen, channels, stride, bpp, y as int, x));
        lemma_samples_err_prop(lines, palette, color_type, sixteen, channels, stride, bpp, width, height, y, (x + 1) as nat);
    } else {
        assert(image_samples(lines, palette, color_type, sixteen, channels, stride, bpp, width, (y + 1) as nat)
            == row_samples(lines, palette, color_type, sixteen, channels, stride, bpp, y as int, x));
        lemma_image_err_prop(lines, palette, color_type, sixteen, channels, stride, bpp, width, height, (y + 1) as nat);
    }
}

proof fn lemma_image_err_prop(
    lines: Seq<u8>,
    palette: Seq<u8>,
    color_type: u8,
    sixteen: bool,
    channels: nat,
    stride: int,
    bpp: int,
    width: nat,
    height: nat,
    y: nat,
)
    requires
        y <= height,
        image_samples(lines, palette, color_type, sixteen, channels, stride, bpp, width, y) is Err,
    ensures
        image_samples(lines, palette, color_type, sixteen, channels, stride, bpp, width, height)
            == image_samples(lines, palette, color_type, sixteen, channels, stride, bpp, width, y),
    decreases height - y,
{
    if y < height {
        lemma_image_err_prop(lines, palette, color_type, sixteen, channels, stride, bpp, width, height, (y + 1) as nat);
    }
}

/// A PNG chunk: length, type, body, and the CRC of type and body.
pub open spec fn chunk_spec(kind: Seq<u8>, body: Seq<u8>) -> Seq<u8> {
    be32(body.len() as u32) + kind + body + be32(crc32_spec(kind + body))
}

/// Appends a chunk to `out`.
fn push_chunk(out: &mut Vec<u8>, kind: &[u8], body: &[u8])
    requires
        kind@.len() == 4,
    ensures
        final(out)@ == old(out)@ + chunk_spec(kind@, body@),
{
    let ghost before = out@;
    let len = be32_exec(body.len() as u32);
    out.push(len[0]);
    out.push(len[1]);
    out.push(len[2]);
    out.push(len[3]);
    let mut check: Vec<u8> = Vec::new();
    let mut i: usize = 0;
    while i < kind.len()
        invariant
            i <= kind@.len(),
            check@ =~= kind@.take(i as int),
            out@ =~= before + be32(body@.len() as u32) + kind@.take(i as int),
        decreases kind.len() - i,
    {
        out.push(kind[i]);
        check.push(kind[i]);
        i = i + 1;
    }
    let mut i: usize = 0;
    while i < body.len()
        invariant
            i <= body@.len(),
            kind@.take(kind@.len() as int) == kind@,
            check@ =~= kind@ + body@.take(i as int),
            out@ =~= before + be32(body@.len() as u32) + kind@ + body@.take(i as int),
        decreases body.len() - i,
    {
        out.push(body[i]);
        check.push(body[i]);
        i = i + 1;
    }
    assert(body@.take(body@.len() as int) =~= body@);
    let crc = be32_exec(crc32(check.as_slice()));
    out.push(crc[0]);
    out.push(crc[1]);
    out.push(crc[2]);
    out.push(crc[3]);
    assert(out@ =~= before + chunk_spec(kind@, body@));
}

/// The PNG color type written for a channel count: gray, RGB, or RGBA.
pub open spec fn color_type_for(channels: nat) -> u8 {
    if channels == 1 { 0 } else if channels == 3 { 2 } else { 6 }
}

/// The first `y` rows of `pixels`, each preceded by filter type 0.
pub open spec fn raw_rows(pixels: Seq<u8>, y: nat, stride: nat) -> Seq<u8>
    decreases y,
{
    if y == 0 {
        seq![]
    } else {
        raw_rows(pixels, (y - 1) as nat, stride) + seq![0u8] + pixels.subrange(
            (y - 1) * stride,
            (y * stride) as int,
        )
    }
}

/// The PNG file that stores an 8-bit image uncompressed.
pub open spec fn encode_png_spec(width: nat, height: nat, channels: nat, pixels: Seq<u8>) -> Seq<u8> {
    png_signature() + chunk_spec(
        kind_ihdr(),
        be32(width as u32) + be32(height as u32) + seq![8u8, color_type_for(channels), 0u8, 0u8, 0u8],
    ) + chunk_spec(kind_idat(), deflate_stored_spec(raw_rows(pixels, height, width * channels)))
        + chunk_spec(kind_iend(), seq![])
}

/// Writes an 8-bit image (1, 3 or 4 channels, row-major) as a PNG file.
pub fn encode_png(width: usize, height: usize, channels: usize, pixels: &[u8]) -> (out: Vec<u8>)
    requires
        width * channels * height <= pixels@.len(),
        height * (width * channels + 1) <= usize::MAX,
    ensures
        out@ == encode_png_spec(width as nat, height as nat, channels as nat, pixels@),
{
    let color_type: u8 = if channels == 1 { 0 } else if channels == 3 { 2 } else { 6 };
    proof {
        if height > 0 {
            assert(width * channels <= height * (width * channels + 1)) by (nonlinear_arith)
                requires
                    height >= 1,
            ;
        }
    }
    let stride = if height > 0 { width * channels } else { 0 };
    let ghost gstride = (width * channels) as nat;
    let mut raw: Vec<u8> = Vec::new();
    let mut y: usize = 0;
    while y < height
        invariant
            y <= height,
            height > 0 ==> stride == gstride,
            gstride * height <= pixels@.len(),
            raw@ == raw_rows(pixels@, y as nat, gstride),
        decreases height - y,
    {
        proof {
            assert((y + 1) * gstride <= height * gstride) by (nonlinear_arith)
                requires
                    y < height,
            ;
            assert(y * gstride + gstride == (y + 1) * gstride) by (nonlinear_arith);
            assert(height * gstride == gstride * height) by (nonlinear_arith);
        }
        let ghost before = raw@;
        raw.push(0);
        assert(pixels@.len() == pixels.len());
        assert(y * gstride <= height * gstride) by (nonlinear_arith)
            requires
                y < height,
        ;
        let start = y * stride;
        let mut x: usize = 0;
        while x < stride
            invariant
                x <= stride,
                stride == gstride,
                start == y * gstride,
                start + stride <= pixels@.len(),
                pixels@.len() == pixels.len(),
                raw@ =~= before + seq![0u8] + pixels@.subrange(start as int, start + x),
            decreases stride - x,
        {
            raw.push(pixels[start + x]);
            x = x + 1;
        }
        y = y + 1;
    }
    let mut out: Vec<u8> = vec![0x89, 0x50, 0x4E, 0x47, 0x0D, 0x0A, 0x1A, 0x0A];
    assert(out@ =~= png_signature());
    let w = be32_exec(#[verifier::truncate] (width as u32));
    let h = be32_exec(#[verifier::truncate] (height as u32));
    let ihdr: Vec<u8> = vec![w[0], w[1], w[2], w[3], h[0], h[1], h[2], h[3], 8, color_type, 0, 0, 0];
    assert(ihdr@ =~= be32(width as u32) + be32(height as u32) + seq![8u8, color_type_for(channels as nat), 0u8, 0u8, 0u8]);
    let ihdr_kind: [u8; 4] = [73, 72, 68, 82];
    let idat_kind: [u8; 4] = [73, 68, 65, 84];
    let iend_kind: [u8; 4] = [73, 69, 78, 68];
    assert(ihdr_kind@ =~= kind_ihdr());
    assert(idat_kind@ =~= kind_idat());
    assert(iend_kind@ =~= kind_iend());
    push_chunk(&mut out, &ihdr_kind, ihdr.as_slice());
    let idat = deflate_stored(raw.as_slice());
    push_chunk(&mut out, &idat_kind, idat.as_slice());
    let empty: Vec<u8> = Vec::new();
    push_chunk(&mut out, &iend_kind, empty.as_slice());
    assert(empty@ =~= Seq::<u8>::empty());
    out
}

/// Bytes widened to samples.
pub open spec fn widen(s: Seq<u8>) -> Seq<u16> {
    s.map_values(|b: u8| b as u16)
}

proof fn lemma_be32_roundtrip(v: u32)
    ensures
        be32(v)[0] as nat * 16777216 + be32(v)[1] as nat * 65536 + be32(v)[2] as nat * 256
            + be32(v)[3] as nat == v,
{
    assert(((v >> 24u32) as u8) as u32 * 16777216 + (((v >> 16u32) & 0xffu32) as u8) as u32 * 65536
        + (((v >> 8u32) & 0xffu32) as u8) as u32 * 256 + ((v & 0xffu32) as u8) as u32 == v) by (bit_vector);
}

proof fn lemma_chunk_at(z: Seq<u8>, pos: int, kind: Seq<u8>, body: Seq<u8>)
    requires
        0 <= pos,
        kind.len() == 4,
        body.len() < 0x1_0000_0000,
        pos + chunk_spec(kind, body).len() <= z.len(),
        z.subrange(pos, pos + chunk_spec(kind, body).len()) == chunk_spec(kind, body),
    ensures
        chunk_spec(kind, body).len() == 12 + body.len(),
        be32_at(z, pos) == body.len(),
        z.subrange(pos + 4, pos + 8) == kind,
        z.subrange(pos + 8, pos + 8 + body.len()) == body,
        z.subrange(pos + 4, pos + 8 + body.len()) == kind + body,
        be32_at(z, pos + 8 + body.len()) == crc32_spec(kind + body),
{
    let c = chunk_spec(kind, body);
    let n = body.len() as int;
    assert(c.len() == 12 + n);
    lemma_be32_roundtrip(body.len() as u32);
    lemma_be32_roundtrip(crc32_spec(kind + body));
    assert forall|i: int| 0 <= i < c.len() implies z[pos + i] == c[i] by {
        assert(z.subrange(pos, pos + c.len())[i] == c[i]);
    }
    assert(z[pos] == c[0] && z[pos + 1] == c[1] && z[pos + 2] == c[2] && z[pos + 3] == c[3]);
    assert(z.subrange(pos + 4, pos + 8) =~= kind) by {
        assert forall|i: int| 0 <= i < 4 implies z.subrange(pos + 4, pos + 8)[i] == kind[i] by {
            assert(z[pos + 4 + i] == c[4 + i]);
        }
    }
    assert(z.subrange(pos + 8, pos + 8 + n) =~= body) by {
        assert forall|i: int| 0 <= i < n implies z.subrange(pos + 8, pos + 8 + n)[i] == body[i] by {
            assert(z[pos + 8 + i] == c[8 + i]);
        }
    }
    assert(z.subrange(pos + 4, pos + 8 + n) =~= kind + body) by {
        assert forall|i: int| 0 <= i < 4 + n implies z.subrange(pos + 4, pos + 8 + n)[i] == (kind
            + body)[i] by {
            assert(z[pos + 4 + i] == c[4 + i]);
        }
    }
    assert(z[pos + 8 + n] == c[8 + n] && z[pos + 9 + n] == c[9 + n] && z[pos + 10 + n] == c[10
        + n] && z[pos + 11 + n] == c[11 + n]);
}

proof fn lemma_stored_chunks_len(data: Seq<u8>)
    ensures
        stored_chunks(data).len() <= 2 * data.len() + 5,
        stored_chunks(data).len() >= 5,
    decreases data.len(),
{
    if data.len() > 65535 {
        lemma_stored_chunks_len(data.skip(65535));
    }
}

proof fn lemma_raw_rows(pixels: Seq<u8>, y: nat, stride: nat)
    requires
        y * stride <= pixels.len(),
    ensures
        raw_rows(pixels, y, stride).len() == y * (stride + 1),
        forall|r: int, x: int|
            0 <= r < y && 0 <= x < stride ==> #[trigger] raw_rows(pixels, y, stride)[r * (stride + 1)
                + 1 + x] == pixels[r * stride + x],
        forall|r: int| 0 <= r < y ==> #[trigger] raw_rows(pixels, y, stride)[r * (stride + 1)] == 0,
    decreases y,
{
    if y > 0 {
        let ym = (y - 1) as nat;
        assert(ym * stride <= y * stride) by (nonlinear_arith)
            requires
                ym + 1 == y,
        ;
        assert(ym * stride + stride == y * stride) by (nonlinear_arith)
            requires
                ym + 1 == y,
        ;
        assert(ym * (stride + 1) + stride + 1 == y * (stride + 1)) by (nonlinear_arith)
            requires
                ym + 1 == y,
        ;
        lemma_raw_rows(pixels, ym, stride);
        let prev = raw_rows(pixels, ym, stride);
        let cur = raw_rows(pixels, y, stride);
        assert forall|r: int, x: int| 0 <= r < y && 0 <= x < stride implies #[trigger] cur[r * (stride
            + 1) + 1 + x] == pixels[r * stride + x] by {
            if r < ym {
                assert(r * (stride + 1) + 1 + x < ym * (stride + 1)) by (nonlinear_arith)
                    requires
                        0 <= r < ym,
                        0 <= x < stride,
                ;
                assert(cur[r * (stride + 1) + 1 + x] == prev[r * (stride + 1) + 1 + x]);
            } else {
                assert(r == ym);
                assert(cur[r * (stride + 1) + 1 + x] == pixels.subrange((ym * stride) as int, (y * stride) as int)[x]);
            }
        }
        assert forall|r: int| 0 <= r < y implies #[trigger] cur[r * (stride + 1)] == 0 by {
            if r < ym {
                assert(r * (stride + 1) < ym * (stride + 1)) by (nonlinear_arith)
                    requires
                        0 <= r < ym,
                ;
                assert(cur[r * (stride + 1)] == prev[r * (stride + 1)]);
            }
        }
    }
}

proof fn lemma_unfilter_plain(raw: Seq<u8>, pixels: Seq<u8>, stride: int, bpp: int, h: int, y: nat, x: nat)
    requires
        0 <= stride,
        x <= stride,
        y < h || (y == h && x == 0),
        h * stride <= pixels.len(),
        forall|r: int, c: int|
            0 <= r < h && 0 <= c < stride ==> #[trigger] raw[r * (stride + 1) + 1 + c] == pixels[r
                * stride + c],
        forall|r: int| 0 <= r < h ==> #[trigger] raw[r * (stride + 1)] == 0,
    ensures
        unfilter(raw, stride, bpp, y, x) == Ok::<Seq<u8>, PngError>(pixels.take(y * stride + x)),
    decreases y, x,
{
    if x == 0 {
        if y == 0 {
            assert(pixels.take(0) =~= Seq::<u8>::empty());
        } else {
            let ym = (y - 1) as nat;
            lemma_unfilter_plain(raw, pixels, stride, bpp, h, ym, stride as nat);
            assert(ym * stride + stride == y * stride) by (nonlinear_arith)
                requires
                    ym + 1 == y,
            ;
        }
    } else {
        let xm = (x - 1) as nat;
        lemma_unfilter_plain(raw, pixels, stride, bpp, h, y, xm);
        let yi = y as int;
        let xi = xm as int;
        assert(yi * stride + x <= h * stride) by (nonlinear_arith)
            requires
                yi < h,
                x <= stride,
        ;
        assert(0 <= yi * stride) by (nonlinear_arith)
            requires
                0 <= yi,
                0 <= stride,
        ;
        let lines = pixels.take(yi * stride + xi);
        assert(raw[yi * (stride + 1)] == 0);
        assert(raw[yi * (stride + 1) + 1 + xi] == pixels[yi * stride + xi]);
        assert(lines.len() == yi * stride + xi);
        assert(recon_byte(raw, lines, stride, bpp, yi, xi) == Some(pixels[yi * stride + xi]));
        assert(lines.push(pixels[yi * stride + xi]) =~= pixels.take(yi * stride + x));
    }
}

proof fn lemma_row_plain(pixels: Seq<u8>, color_type: u8, channels: int, width: int, y: int, x: nat)
    requires
        color_type != 3,
        channels >= 1,
        x <= width,
        0 <= y,
        y * (width * channels) + width * channels <= pixels.len(),
    ensures
        row_samples(pixels, seq![], color_type, false, channels as nat, width * channels, channels, y, x)
            == Ok::<Seq<u16>, PngError>(
            widen(pixels.subrange(y * (width * channels), y * (width * channels) + x * channels)),
        ),
    decreases x,
{
    let stride = width * channels;
    if x == 0 {
        assert(widen(pixels.subrange(y * stride, y * stride)) =~= Seq::<u16>::empty());
    } else {
        let xm = (x - 1) as nat;
        lemma_row_plain(pixels, color_type, channels, width, y, xm);
        assert(xm * channels + channels == x * channels) by (nonlinear_arith)
            requires
                xm + 1 == x,
        ;
        assert(x * channels <= width * channels) by (nonlinear_arith)
            requires
                x <= width,
                channels >= 1,
        ;
        assert(0 <= xm * channels) by (nonlinear_arith)
            requires
                channels >= 1,
        ;
        assert(0 <= y * stride) by (nonlinear_arith)
            requires
                0 <= y,
                0 <= stride,
                stride == width * channels,
                x <= width,
                channels >= 1,
        ;
        let base = y * stride + xm * channels;
        let p = pixel_samples(pixels, seq![], color_type, false, channels as nat, stride, channels, y, xm as int);
        match p {
            Ok(q) => {
                assert(q =~= widen(pixels.subrange(base, base + channels)));
            },
            Err(_) => {},
        }
        assert(widen(pixels.subrange(y * stride, base)) + widen(pixels.subrange(base, base + channels))
            =~= widen(pixels.subrange(y * stride, y * stride + x * channels)));
    }
}

proof fn lemma_samples_plain(pixels: Seq<u8>, color_type: u8, channels: int, width: int, h: int, y: nat)
    requires
        color_type != 3,
        channels >= 1,
        width >= 0,
        y <= h,
        pixels.len() == h * (width * channels),
    ensures
        image_samples(pixels, seq![], color_type, false, channels as nat, width * channels, channels, width as nat, y)
            == Ok::<Seq<u16>, PngError>(widen(pixels.take(y * (width * channels)))),
    decreases y,
{
    let stride = width * channels;
    assert(stride >= 0) by (nonlinear_arith)
        requires
            width >= 0,
            channels >= 1,
            stride == width * channels,
    ;
    if y == 0 {
        assert(widen(pixels.take(0)) =~= Seq::<u16>::empty());
    } else {
        let ym = (y - 1) as nat;
        lemma_samples_plain(pixels, color_type, channels, width, h, ym);
        assert(ym * stride + stride == y * stride) by (nonlinear_arith)
            requires
                ym + 1 == y,
        ;
        assert(y * stride <= h * stride) by (nonlinear_arith)
            requires
                y <= h,
                stride >= 0,
        ;
        assert(0 <= ym * stride) by (nonlinear_arith)
            requires
                stride >= 0,
        ;
        lemma_row_plain(pixels, color_type, channels, width, ym as int, width as nat);
        assert(widen(pixels.take(ym * stride)) + widen(pixels.subrange(ym * stride, ym * stride + width * channels))
            =~= widen(pixels.take(y * stride)));
    }
}

/// One step of the chunk walk over a well-formed chunk at `pos`.
proof fn lemma_chunk_step(z: Seq<u8>, pos: int, kind: Seq<u8>, body: Seq<u8>, idat: Seq<u8>, palette: Seq<u8>)
    requires
        0 <= pos,
        kind.len() == 4,
        body.len() < 0x1_0000_0000,
        pos + chunk_spec(kind, body).len() <= z.len(),
        z.subrange(pos, pos + chunk_spec(kind, body).len()) == chunk_spec(kind, body),
    ensures
        png_chunks(z, pos, idat, palette) == (if kind == kind_idat() {
            png_chunks(z, pos + 12 + body.len(), idat + body, palette)
        } else if kind == kind_plte() {
            png_chunks(z, pos + 12 + body.len(), idat, body)
        } else if kind == kind_iend() {
            Ok((idat, palette))
        } else {
            png_chunks(z, pos + 12 + body.len(), idat, palette)
        }),
{
    lemma_chunk_at(z, pos, kind, body);
}

/// A file made of the signature, an IHDR, one IDAT and an IEND chunk walks to that IDAT body.
#[verifier::rlimit(30)]
proof fn lemma_three_chunks(ihdr_body: Seq<u8>, idat: Seq<u8>)
    requires
        ihdr_body.len() == 13,
        idat.len() < 0xf000_0000,
    ensures
        ({
            let z = png_signature() + chunk_spec(kind_ihdr(), ihdr_body) + chunk_spec(kind_idat(), idat)
                + chunk_spec(kind_iend(), seq![]);
            &&& z.len() == 57 + idat.len()
            &&& z.take(8) == png_signature()
            &&& z.subrange(12, 16) == kind_ihdr()
            &&& z.subrange(16, 29) == ihdr_body
            &&& png_chunks(z, 8, seq![], seq![]) == Ok::<(Seq<u8>, Seq<u8>), PngError>((idat, seq![]))
        }),
{
    let c1 = chunk_spec(kind_ihdr(), ihdr_body);
    let c2 = chunk_spec(kind_idat(), idat);
    let c3 = chunk_spec(kind_iend(), seq![]);
    let z = png_signature() + c1 + c2 + c3;
    let l = idat.len() as int;
    assert(c1.len() == 25);
    assert(c2.len() == 12 + l);
    assert(c3.len() == 12);
    assert(z.subrange(8, 33) =~= c1);
    assert(z.subrange(33, 45 + l) =~= c2);
    assert(z.subrange(45 + l, 57 + l) =~= c3);
    assert(z.take(8) =~= png_signature());
    assert(z.subrange(12, 16) =~= kind_ihdr()) by {
        assert(z.subrange(12, 16) =~= c1.subrange(4, 8));
    }
    assert(z.subrange(16, 29) =~= ihdr_body) by {
        assert(z.subrange(16, 29) =~= c1.subrange(8, 21));
    }
    assert(kind_ihdr()[1] != kind_idat()[1] && kind_ihdr()[0] != kind_plte()[0] && kind_ihdr()[1]
        != kind_iend()[1]);
    assert(kind_iend()[1] != kind_idat()[1] && kind_iend()[0] != kind_plte()[0]);
    lemma_chunk_step(z, 45 + l, kind_iend(), seq![], idat, seq![]);
    assert(seq![] + idat =~= idat);
    lemma_chunk_step(z, 33, kind_idat(), idat, seq![], seq![]);
    lemma_chunk_step(z, 8, kind_ihdr(), ihdr_body, seq![], seq![]);
}

/// The header `encode_png` writes parses back to the image's size and format.
proof fn lemma_encoded_ihdr(z: Seq<u8>, width: nat, height: nat, channels: nat)
    requires
        channels == 1 || channels == 3 || channels == 4,
        1 <= width < 0x1_0000_0000,
        1 <= height < 0x1_0000_0000,
        z.len() >= 57,
        z.take(8) == png_signature(),
        z.subrange(12, 16) == kind_ihdr(),
        z.subrange(16, 29) == be32(width as u32) + be32(height as u32) + seq![
            8u8,
            color_type_for(channels),
            0u8,
            0u8,
            0u8,
        ],
    ensures
        parse_ihdr_spec(z) == Ok::<Ihdr, PngError>(
            Ihdr {
                width: width as usize,
                height: height as usize,
                bit_depth: 8,
                color_type: color_type_for(channels),
            },
        ),
{
    let body = z.subrange(16, 29);
    lemma_be32_roundtrip(width as u32);
    lemma_be32_roundtrip(height as u32);
    assert(z[16] == body[0] && z[17] == body[1] && z[18] == body[2] && z[19] == body[3]);
    assert(z[20] == body[4] && z[21] == body[5] && z[22] == body[6] && z[23] == body[7]);
    assert(z[24] == body[8] && z[25] == body[9] && z[28] == body[12]);
    assert(be32_at(z, 16) == width);
    assert(be32_at(z, 20) == height);
}

/// The filtered rows `encode_png` compresses unfilter to the pixels, whose samples are the
/// pixels widened.
proof fn lemma_plain_rows(width: nat, height: nat, channels: nat, pixels: Seq<u8>)
    requires
        channels == 1 || channels == 3 || channels == 4,
        pixels.len() == height * (width * channels),
    ensures
        raw_rows(pixels, height, width * channels).len() == height * (width * channels + 1),
        unfilter(raw_rows(pixels, height, width * channels), (width * channels) as int, channels as int, height, 0)
            == Ok::<Seq<u8>, PngError>(pixels),
        image_samples(
            pixels,
            seq![],
            color_type_for(channels),
            false,
            channels,
            (width * channels) as int,
            channels as int,
            width,
            height,
        ) == Ok::<Seq<u16>, PngError>(widen(pixels)),
{
    let stride = width * channels;
    let raw = raw_rows(pixels, height, stride);
    lemma_raw_rows(pixels, height, stride);
    lemma_unfilter_plain(raw, pixels, stride as int, channels as int, height as int, height, 0);
    assert(pixels.take((height * stride) as int) =~= pixels);
    lemma_samples_plain(pixels, color_type_for(channels), channels as int, width as int, height as int, height);
}

/// Decoding a PNG written by `encode_png` gives back its size, its channels and exactly its
/// pixels, for grayscale, RGB and RGBA images of non-zero size whose filtered rows fit in
/// 2^30 bytes.
#[verifier::rlimit(60)]
pub proof fn law_png_roundtrip(width: nat, height: nat, channels: nat, pixels: Seq<u8>)
    requires
        channels == 1 || channels == 3 || channels == 4,
        width >= 1,
        height >= 1,
        pixels.len() == height * (width * channels),
        height * (width * channels + 1) <= 0x4000_0000,
    ensures
        png_decode_spec(encode_png_spec(width, height, channels, pixels)) == Ok::<(Ihdr, Seq<u16>), PngError>(
            (
                Ihdr {
                    width: width as usize,
                    height: height as usize,
                    bit_depth: 8,
                    color_type: color_type_for(channels),
                },
                widen(pixels),
            ),
        ),
{
    let stride = width * channels;
    let ct = color_type_for(channels);
    assert(width <= height * (stride + 1) && height <= height * (stride + 1)) by (nonlinear_arith)
        requires
            width >= 1,
            height >= 1,
            channels >= 1,
            stride == width * channels,
    ;
    let raw = raw_rows(pixels, height, stride);
    lemma_plain_rows(width, height, channels, pixels);
    let idat = deflate_stored_spec(raw);
    lemma_stored_chunks_len(raw);
    let ihdr_body = be32(width as u32) + be32(height as u32) + seq![8u8, ct, 0u8, 0u8, 0u8];
    lemma_three_chunks(ihdr_body, idat);
    let z = encode_png_spec(width, height, channels, pixels);
    lemma_encoded_ihdr(z, width, height, channels);
    law_inflate_deflate_stored(raw);
    assert(raw_channels_spec(ct) == channels);
    assert((width as usize) as nat == width);
    assert((height as usize) as nat == height);
}

/// An image's height, width and channels from its array shape: `[h, w]` is grayscale,
/// `[h, w, c]` needs 1, 3 or 4 channels.
pub open spec fn image_shape_spec(shape: Seq<usize>) -> Option<(usize, usize, usize)> {
    if shape.len() == 2 {
        Some((shape[0], shape[1], 1))
    } else if shape.len() == 3 && (shape[2] == 1 || shape[2] == 3 || shape[2] == 4) {
        Some((shape[0], shape[1], shape[2]))
    } else {
        None
    }
}

/// Height, width and channels of an image array, or `None` for another shape.
pub fn image_shape(shape: &[usize]) -> (r: Option<(usize, usize, usize)>)
    ensures
        r == image_shape_spec(shape@),
{
    if shape.len() == 2 {
        Some((shape[0], shape[1], 1))
    } else if shape.len() == 3 && (shape[2] == 1 || shape[2] == 3 || shape[2] == 4) {
        Some((shape[0], shape[1], shape[2]))
    } else {
        None
    }
}

} // verus!
