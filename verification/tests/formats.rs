use vector::audio::{parse_wav, u16le, u32le, wav_header, wav_shape, WavError};
use vector::checks::{adler32, crc32, fnv64};
use vector::graph::Dtype;
use vector::image::{
    base64, decode_png_samples, deflate_stored, encode_png, image_shape, out_channels, paeth, parse_ihdr, raw_channels,
    PngError,
};
use vector::inflate::{inflate, InflateError};
use vector::npy::{npy_header, npy_intro, parse_npy_header, NpyError};
use vector::safetensors::{header_fits, header_len, json_escape, parse_meta, save_header, SaveTensor, StError};

const RGB_PNG: &[u8] = &[137, 80, 78, 71, 13, 10, 26, 10, 0, 0, 0, 13, 73, 72, 68, 82, 0, 0, 0, 2, 0, 0, 0, 2, 8, 2, 0, 0, 0, 253, 212, 154, 115, 0, 0, 0, 22, 73, 68, 65, 84, 120, 218, 99, 228, 18, 145, 99, 101, 101, 101, 98, 100, 100, 100, 98, 98, 2, 0, 3, 136, 0, 88, 97, 71, 39, 43, 0, 0, 0, 0, 73, 69, 78, 68, 174, 66, 96, 130];
const PALETTE_PNG: &[u8] = &[137, 80, 78, 71, 13, 10, 26, 10, 0, 0, 0, 13, 73, 72, 68, 82, 0, 0, 0, 2, 0, 0, 0, 1, 8, 3, 0, 0, 0, 195, 252, 143, 184, 0, 0, 0, 6, 80, 76, 84, 69, 255, 0, 0, 0, 255, 0, 210, 135, 239, 113, 0, 0, 0, 11, 73, 68, 65, 84, 120, 218, 99, 96, 100, 0, 0, 0, 5, 0, 2, 66, 194, 68, 159, 0, 0, 0, 0, 73, 69, 78, 68, 174, 66, 96, 130];
const GRAY16_PNG: &[u8] = &[137, 80, 78, 71, 13, 10, 26, 10, 0, 0, 0, 13, 73, 72, 68, 82, 0, 0, 0, 1, 0, 0, 0, 1, 16, 0, 0, 0, 0, 106, 238, 71, 22, 0, 0, 0, 11, 73, 68, 65, 84, 120, 218, 99, 16, 50, 1, 0, 0, 91, 0, 71, 5, 95, 108, 130, 0, 0, 0, 0, 73, 69, 78, 68, 174, 66, 96, 130];
const FIXED_ZLIB: &[u8] = &[120, 218, 203, 72, 205, 201, 201, 87, 200, 192, 78, 234, 40, 148, 231, 23, 229, 164, 40, 2, 0, 5, 113, 13, 122];
const DYNAMIC_ZLIB: &[u8] = &[120, 218, 93, 84, 1, 110, 195, 48, 8, 252, 138, 191, 230, 213, 94, 18, 109, 181, 171, 52, 155, 246, 252, 1, 7, 24, 34, 165, 73, 138, 129, 59, 224, 200, 118, 214, 86, 126, 251, 227, 154, 103, 153, 159, 229, 189, 215, 87, 47, 219, 89, 95, 123, 185, 206, 250, 232, 229, 218, 187, 90, 223, 63, 207, 116, 94, 71, 147, 31, 254, 61, 123, 29, 225, 0, 142, 72, 33, 71, 48, 56, 68, 176, 41, 250, 71, 189, 30, 136, 85, 3, 130, 97, 126, 214, 235, 60, 254, 212, 196, 68, 152, 22, 254, 1, 115, 81, 60, 134, 177, 106, 229, 154, 114, 237, 158, 134, 81, 53, 87, 32, 140, 195, 99, 120, 16, 12, 177, 13, 156, 82, 3, 183, 208, 50, 5, 139, 109, 145, 99, 36, 34, 92, 114, 160, 124, 126, 66, 247, 175, 126, 142, 254, 173, 104, 206, 28, 136, 14, 77, 125, 146, 10, 251, 120, 115, 39, 80, 67, 106, 194, 49, 66, 205, 8, 82, 78, 82, 24, 37, 160, 203, 65, 44, 116, 178, 85, 25, 168, 59, 243, 87, 11, 191, 50, 16, 249, 72, 18, 245, 72, 41, 34, 136, 220, 148, 227, 225, 141, 213, 100, 90, 17, 78, 3, 22, 3, 196, 22, 170, 82, 166, 82, 198, 229, 53, 186, 96, 184, 76, 109, 24, 143, 127, 230, 110, 72, 194, 168, 185, 140, 187, 164, 172, 246, 149, 137, 0, 212, 73, 121, 139, 151, 78, 14, 97, 198, 133, 64, 233, 78, 87, 148, 71, 66, 16, 26, 107, 192, 70, 17, 152, 38, 91, 139, 128, 53, 230, 10, 12, 44, 116, 239, 46, 212, 166, 75, 67, 105, 108, 196, 110, 96, 118, 65, 47, 120, 44, 34, 250, 230, 139, 51, 189, 202, 176, 188, 97, 89, 143, 97, 253, 110, 158, 222, 199, 188, 194, 16, 193, 35, 130, 143, 146, 246, 245, 131, 23, 143, 83, 166, 155, 116, 148, 229, 116, 27, 215, 12, 251, 21, 90, 150, 157, 237, 33, 36, 130, 192, 228, 59, 197, 149, 166, 46, 172, 53, 89, 253, 12, 178, 207, 98, 68, 143, 130, 253, 134, 60, 111, 163, 181, 165, 72, 53, 185, 128, 252, 235, 208, 238, 54, 159, 159, 145, 140, 10, 158, 89, 172, 248, 140, 180, 232, 14, 65, 74, 146, 56, 225, 153, 214, 205, 102, 100, 241, 97, 226, 116, 254, 15, 239, 62, 44, 126];

#[test]
fn crc32_check_value() {
    assert_eq!(crc32(b"123456789"), 0xCBF4_3926);
    assert_eq!(crc32(b""), 0);
}

#[test]
fn adler32_known_value() {
    assert_eq!(adler32(b"Wikipedia"), 0x11E6_0398);
    assert_eq!(adler32(b""), 1);
}

#[test]
fn fnv64_known_values() {
    assert_eq!(fnv64(b""), 0xcbf2_9ce4_8422_2325);
    assert_eq!(fnv64(b"a"), 0xaf63_dc4c_8601_ec8c);
    assert_eq!(fnv64(b"hello"), 0xa430_d846_80aa_bd0b);
}

#[test]
fn base64_pads_partial_groups() {
    assert_eq!(base64(b"Man"), "TWFu");
    assert_eq!(base64(b"Ma"), "TWE=");
    assert_eq!(base64(b"M"), "TQ==");
    assert_eq!(base64(b""), "");
    assert_eq!(base64(&[0xFF, 0xFE, 0xFD]), "//79");
}

#[test]
fn stored_deflate_round_trips() {
    let data: Vec<u8> = (0..70000u32).map(|i| (i * 7 % 256) as u8).collect();
    let z = deflate_stored(&data);
    assert_eq!(&z[..2], &[0x78, 0x01]);
    let tail = adler32(&data).to_be_bytes();
    assert_eq!(&z[z.len() - 4..], &tail);
    assert_eq!(inflate(&z).unwrap(), data);
    let empty = deflate_stored(b"");
    assert_eq!(empty, vec![0x78, 0x01, 1, 0, 0, 0xFF, 0xFF, 0, 0, 0, 1]);
    assert_eq!(inflate(&empty).unwrap(), Vec::<u8>::new());
}

#[test]
fn inflate_fixed_huffman_block() {
    assert_eq!(inflate(FIXED_ZLIB).unwrap(), b"hello hello hello hello hello, world!".to_vec());
}

#[test]
fn inflate_dynamic_huffman_block() {
    let out = inflate(DYNAMIC_ZLIB).unwrap();
    assert_eq!(out.len(), 1536);
    assert_eq!(crc32(&out), 0x6414_bfaa);
}

#[test]
fn inflate_errors() {
    assert_eq!(inflate(&[0x78]), Err(InflateError::Unsupported));
    assert_eq!(inflate(&[0x79, 0x01, 1, 0, 0, 0xFF, 0xFF]), Err(InflateError::Unsupported));
    assert_eq!(inflate(&[0x78, 0x01, 0x07, 0, 0, 0, 0]), Err(InflateError::InvalidBlock));
    assert_eq!(inflate(&[0x78, 0x01, 1, 5, 0, 0xFA, 0xFF, 1, 2]), Err(InflateError::Truncated));
}

#[test]
fn png_filters_are_undone() {
    let img = decode_png_samples(RGB_PNG).unwrap();
    assert_eq!((img.height, img.width, img.channels, img.sixteen), (2, 2, 3, false));
    assert_eq!(img.samples, vec![10, 20, 30, 15, 25, 35, 11, 21, 31, 17, 27, 37]);
}

#[test]
fn png_palette_is_expanded() {
    let img = decode_png_samples(PALETTE_PNG).unwrap();
    assert_eq!((img.height, img.width, img.channels), (1, 2, 3));
    assert_eq!(img.samples, vec![0, 255, 0, 255, 0, 0]);
}

#[test]
fn png_sixteen_bit_samples() {
    let img = decode_png_samples(GRAY16_PNG).unwrap();
    assert_eq!((img.height, img.width, img.channels, img.sixteen), (1, 1, 1, true));
    assert_eq!(img.samples, vec![0x1234]);
}

#[test]
fn png_encode_then_decode() {
    let pixels: Vec<u8> = (0..24u8).map(|v| v * 10).collect();
    let file = encode_png(4, 2, 3, &pixels);
    let img = decode_png_samples(&file).unwrap();
    assert_eq!((img.height, img.width, img.channels, img.sixteen), (2, 4, 3, false));
    let samples: Vec<u16> = pixels.iter().map(|&p| p as u16).collect();
    assert_eq!(img.samples, samples);
    let gray = encode_png(1, 1, 1, &[77]);
    assert_eq!(decode_png_samples(&gray).unwrap().samples, vec![77]);
    let rgba = encode_png(1, 1, 4, &[1, 2, 3, 4]);
    let img = decode_png_samples(&rgba).unwrap();
    assert_eq!(img.channels, 4);
    assert_eq!(img.samples, vec![1, 2, 3, 4]);
}

#[test]
fn png_errors() {
    assert_eq!(decode_png_samples(b"not a png").err(), Some(PngError::NotPng));
    let mut corrupt = RGB_PNG.to_vec();
    let n = corrupt.len();
    corrupt[n - 20] ^= 0xFF;
    assert!(matches!(decode_png_samples(&corrupt), Err(PngError::CorruptChunk(..))));
    let mut interlaced = encode_png(1, 1, 1, &[0]);
    interlaced[28] = 1;
    assert_eq!(parse_ihdr(&interlaced).err(), Some(PngError::Interlaced));
    let mut deep = encode_png(1, 1, 1, &[0]);
    deep[24] = 4;
    assert_eq!(parse_ihdr(&deep).err(), Some(PngError::UnsupportedDepth(4, 0)));
}

#[test]
fn png_header_fields() {
    let file = encode_png(5, 3, 3, &[0; 45]);
    let h = parse_ihdr(&file).unwrap();
    assert_eq!((h.width, h.height, h.bit_depth, h.color_type), (5, 3, 8, 2));
    assert_eq!(raw_channels(4), 2);
    assert_eq!(out_channels(3), 3);
    assert_eq!(raw_channels(3), 1);
    assert_eq!(paeth(10, 20, 15), 15);
    assert_eq!(paeth(10, 20, 12), 20);
}

#[test]
fn image_shapes() {
    assert_eq!(image_shape(&[4, 5]), Some((4, 5, 1)));
    assert_eq!(image_shape(&[4, 5, 3]), Some((4, 5, 3)));
    assert_eq!(image_shape(&[4, 5, 2]), None);
    assert_eq!(image_shape(&[4]), None);
}

#[test]
fn wav_header_round_trips() {
    let mut file = wav_header(2, 8000, 8);
    assert_eq!(file.len(), 44);
    file.extend([0u8; 8]);
    let w = parse_wav(&file).unwrap();
    assert_eq!((w.format, w.channels, w.rate, w.bits, w.data_start, w.data_len), (1, 2, 8000, 16, 44, 8));
    assert_eq!(wav_shape(&w).unwrap(), vec![2, 2]);
    let mut mono = wav_header(1, 16000, 6);
    mono.extend([0u8; 6]);
    let w = parse_wav(&mono).unwrap();
    assert_eq!(wav_shape(&w).unwrap(), vec![3]);
    assert_eq!(u16le(&mono, 22), 1);
    assert_eq!(u32le(&mono, 24), 16000);
}

#[test]
fn wav_errors() {
    assert_eq!(parse_wav(b"RIFF").err(), Some(WavError::NotWav));
    let mut no_data = wav_header(1, 8000, 0);
    no_data.truncate(36);
    assert_eq!(parse_wav(&no_data).err(), Some(WavError::MissingData));
    let mut truncated = wav_header(1, 8000, 100);
    truncated.extend([0u8; 10]);
    assert_eq!(parse_wav(&truncated).err(), Some(WavError::Truncated));
    let mut float8 = wav_header(1, 8000, 2);
    float8.extend([0u8; 2]);
    float8[20] = 3;
    float8[34] = 8;
    assert_eq!(parse_wav(&float8).err(), Some(WavError::UnsupportedEncoding(3, 8)));
    let mut empty = wav_header(2, 8000, 2);
    empty.extend([0u8; 2]);
    let w = parse_wav(&empty).unwrap();
    assert_eq!(wav_shape(&w).err(), Some(WavError::NoSamples));
}

fn npy_parts(file: &[u8]) -> (usize, &[u8]) {
    let width = npy_intro(&file[..8]).unwrap();
    let n = file[8] as usize + 256 * file[9] as usize;
    (width, &file[10..10 + n])
}

#[test]
fn npy_header_round_trips() {
    let file = npy_header(Dtype::F32, &[2, 3]);
    assert_eq!(file.len() % 64, 0);
    assert_eq!(&file[..8], b"\x93NUMPY\x01\x00");
    assert_eq!(file[file.len() - 1], b'\n');
    let (width, header) = npy_parts(&file);
    assert_eq!(width, 2);
    assert_eq!(parse_npy_header(header, width), Ok((vec![2, 3], Dtype::F32, file.len())));
    let one = npy_header(Dtype::F64, &[7]);
    let (width, header) = npy_parts(&one);
    assert_eq!(parse_npy_header(header, width), Ok((vec![7], Dtype::F64, one.len())));
    let scalar = npy_header(Dtype::F64, &[]);
    let (width, header) = npy_parts(&scalar);
    assert_eq!(parse_npy_header(header, width), Ok((vec![], Dtype::F64, scalar.len())));
}

#[test]
fn npy_header_text() {
    let file = npy_header(Dtype::F32, &[2, 3]);
    let text = String::from_utf8(file[10..].to_vec()).unwrap();
    assert!(text.starts_with("{'descr': '<f4', 'fortran_order': False, 'shape': (2, 3), }"));
    let one = npy_header(Dtype::F64, &[7]);
    let text = String::from_utf8(one[10..].to_vec()).unwrap();
    assert!(text.starts_with("{'descr': '<f8', 'fortran_order': False, 'shape': (7,), }"));
}

#[test]
fn npy_errors() {
    assert_eq!(npy_intro(b"NOTNUMPY"), Err(NpyError::NotNpy));
    assert_eq!(npy_intro(b"\x93NUMPY\x03\x00"), Err(NpyError::UnsupportedVersion(3)));
    assert_eq!(npy_intro(b"\x93NUMPY\x02\x00"), Ok(4));
    let h = b"{'descr': '<i4', 'fortran_order': False, 'shape': (2,), } ";
    assert_eq!(
        parse_npy_header(h, 2),
        Err(NpyError::UnsupportedDtype("{'descr': '<i4', 'fortran_order': False, 'shape': (2,), }".to_string()))
    );
    let h = b"{'descr': '<f4', 'fortran_order': True, 'shape': (2,), }";
    assert_eq!(parse_npy_header(h, 2), Err(NpyError::FortranOrder));
    let h = b"{'descr': '<f4', 'fortran_order': False, 'shape': 2, }";
    assert_eq!(parse_npy_header(h, 2), Err(NpyError::MalformedHeader(String::from_utf8(h.to_vec()).unwrap())));
    let h = b"{'descr': '<f4', 'fortran_order': False, 'shape': (2, x), }";
    assert_eq!(parse_npy_header(h, 2), Err(NpyError::MalformedShape(String::from_utf8(h.to_vec()).unwrap())));
    let h = b"{'descr': '<f8', 'fortran_order': False, 'shape': ( 4 , 5 ), }";
    assert_eq!(parse_npy_header(h, 4), Ok((vec![4, 5], Dtype::F64, 12 + h.len())));
}

fn st_header(text: &str) -> Vec<u8> {
    text.as_bytes().to_vec()
}

#[test]
fn safetensors_header_is_read() {
    let h = st_header(
        "{\"__metadata__\":{\"format\":\"pt\",\"n\":3},\"w\":{\"dtype\":\"F32\",\"shape\":[2,3],\"data_offsets\":[0,24]},\"b\":{\"dtype\":\"F64\",\"shape\":[],\"data_offsets\":[24,32]}}",
    );
    let file_len = 8 + h.len() + 32;
    let m = parse_meta(&h, file_len).unwrap();
    assert_eq!(m.data_start, 8 + h.len());
    assert_eq!(m.metadata, vec![("format".to_string(), "pt".to_string())]);
    assert_eq!(m.tensors.len(), 2);
    assert_eq!(m.tensors[0].name, "w");
    assert_eq!(m.tensors[0].dtype, Dtype::F32);
    assert_eq!(m.tensors[0].shape, vec![2, 3]);
    assert_eq!((m.tensors[0].begin, m.tensors[0].end), (0, 24));
    assert_eq!(m.tensors[1].name, "b");
    assert_eq!(m.tensors[1].shape, Vec::<usize>::new());
    assert_eq!((m.tensors[1].begin, m.tensors[1].end), (24, 32));
}

#[test]
fn safetensors_errors() {
    let ok = st_header("{\"w\":{\"dtype\":\"F32\",\"shape\":[2],\"data_offsets\":[0,8]}}");
    assert_eq!(parse_meta(&ok, 8 + ok.len() + 7).err(), Some(StError::InconsistentOffsets("w".to_string())));
    assert_eq!(parse_meta(&ok, 4).err(), Some(StError::NotSafetensors));
    assert_eq!(parse_meta(b"", 100).err(), Some(StError::NotSafetensors));
    let arr = st_header("[1]");
    assert_eq!(parse_meta(&arr, 100).err(), Some(StError::NotObject));
    let bad = st_header("{\"w\":{\"dtype\":\"I8\",\"shape\":[2],\"data_offsets\":[0,2]}}");
    assert_eq!(parse_meta(&bad, 200).err(), Some(StError::UnsupportedDtype("I8".to_string())));
    let missing = st_header("{\"w\":{\"dtype\":\"F32\",\"shape\":[2]}}");
    assert_eq!(parse_meta(&missing, 200).err(), Some(StError::MissingFields("w".to_string())));
    let entry = st_header("{\"w\":5}");
    assert_eq!(parse_meta(&entry, 200).err(), Some(StError::BadEntry("w".to_string())));
    let meta = st_header("{\"__metadata__\":[1]}");
    assert_eq!(parse_meta(&meta, 200).err(), Some(StError::BadMetadata));
    let shape = st_header("{\"w\":{\"dtype\":\"F32\",\"shape\":[-1],\"data_offsets\":[0,8]}}");
    assert_eq!(parse_meta(&shape, 200).err(), Some(StError::BadShape));
    let broken = st_header("{\"w\":");
    assert!(matches!(parse_meta(&broken, 200), Err(StError::Json(_))));
}

#[test]
fn safetensors_length_prefix() {
    assert_eq!(header_len(&[16, 1, 0, 0, 0, 0, 0, 0]), 272);
    assert!(header_fits(10, 18));
    assert!(!header_fits(11, 18));
    assert!(!header_fits(0, 18));
}

#[test]
fn safetensors_json_escape() {
    assert_eq!(json_escape("a\"b\\c\nd"), "a\\\"b\\\\c\\u000ad");
    assert_eq!(json_escape("plain"), "plain");
}

#[test]
fn safetensors_save_then_read() {
    let tensors = vec![
        SaveTensor { name: "w".to_string(), dtype: Dtype::F32, shape: vec![2, 3], nbytes: 24 },
        SaveTensor { name: "b\"x".to_string(), dtype: Dtype::F64, shape: vec![], nbytes: 8 },
    ];
    let metadata = vec![("k".to_string(), "v".to_string())];
    let pre = save_header(&metadata, &tensors);
    let n = header_len(&pre[..8]) as usize;
    assert_eq!(pre.len(), 8 + n);
    assert_eq!(n % 8, 0);
    let text = String::from_utf8(pre[8..].to_vec()).unwrap();
    assert_eq!(
        text.trim_end(),
        "{\"__metadata__\":{\"k\":\"v\"},\"w\":{\"dtype\":\"F32\",\"shape\":[2,3],\"data_offsets\":[0,24]},\"b\\\"x\":{\"dtype\":\"F64\",\"shape\":[],\"data_offsets\":[24,32]}}"
    );
    let m = parse_meta(&pre[8..], pre.len() + 32).unwrap();
    assert_eq!(m.metadata, metadata);
    assert_eq!(m.tensors.len(), 2);
    assert_eq!(m.tensors[1].name, "b\"x");
    assert_eq!((m.tensors[1].begin, m.tensors[1].end), (24, 32));
    let bare = save_header(&vec![], &vec![]);
    assert_eq!(bare, vec![8, 0, 0, 0, 0, 0, 0, 0, b'{', b'}', b' ', b' ', b' ', b' ', b' ', b' ']);
}
