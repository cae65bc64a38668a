use tiled::codec::{decode_base64, decode_gzip, decode_zlib, decode_zstd};
use tiled::data::{decode_csv, parse_base64};
use tiled::TiledError;

const RAW: [u8; 32] = [
    1, 0, 0, 0, 2, 0, 0, 0, 3, 0, 0, 0, 4, 0, 0, 0, 5, 0, 0, 0, 6, 0, 0, 0, 7, 0, 0, 0, 8, 0, 0, 0,
];

#[test]
fn base64_text_becomes_bytes() {
    let bytes = decode_base64(b"AQAAAAIAAAADAAAABAAAAAUAAAAGAAAABwAAAAgAAAA=").unwrap();
    assert_eq!(bytes, RAW.to_vec());
    assert_eq!(decode_base64(b"").unwrap(), Vec::<u8>::new());
    assert_eq!(decode_base64(b"aGVsbG8gd29ybGQ=").unwrap(), b"hello world".to_vec());
}

#[test]
fn bad_base64_is_a_base64_error() {
    match decode_base64(b"AQAA*AIA") {
        Err(TiledError::Base64DecodingError(e)) => {
            assert_eq!(e, base64::DecodeError::InvalidByte(4, b'*'))
        }
        other => panic!("{:?}", other),
    }
    assert!(matches!(decode_base64(b"A"), Err(TiledError::Base64DecodingError(_))));
}

#[test]
fn white_space_around_base64_is_left_out() {
    let text = "\n   AQAAAAIAAAADAAAABAAAAAUAAAAGAAAABwAAAAgAAAA=\n  ";
    assert_eq!(parse_base64(text).unwrap(), RAW.to_vec());
    assert_eq!(parse_base64("   ").unwrap(), Vec::<u8>::new());
    assert_eq!(parse_base64("\u{a0}AQAAAA==\u{2003}").unwrap(), vec![1, 0, 0, 0]);
    assert!(matches!(parse_base64("AQAA AAIA"), Err(TiledError::Base64DecodingError(_))));
    assert!(matches!(parse_base64("é"), Err(TiledError::Base64DecodingError(_))));
}

#[test]
fn zlib_streams_are_inflated() {
    let packed = base64::decode("eJxjZGBgYAJiZiBmAWJWIGYDYnYg5gBiAAIAACU=").unwrap();
    assert_ne!(packed, RAW.to_vec());
    assert_eq!(decode_zlib(packed).unwrap(), RAW.to_vec());
}

#[test]
fn gzip_streams_are_inflated() {
    let packed =
        base64::decode("H4sIAAAAAAACA2NkYGBgAmJmIGYBYlYgZgNidiDmAGIATLFdpyAAAAA=").unwrap();
    assert_ne!(packed, RAW.to_vec());
    assert_eq!(decode_gzip(packed).unwrap(), RAW.to_vec());
}

#[test]
fn zstd_frames_are_decompressed() {
    let packed = zstd::encode_all(&RAW[..], 3).unwrap();
    assert_ne!(packed, RAW.to_vec());
    assert_eq!(decode_zstd(packed).unwrap(), RAW.to_vec());
}

#[test]
fn what_is_no_stream_is_a_decompressing_error() {
    assert!(matches!(decode_zlib(RAW.to_vec()), Err(TiledError::DecompressingError(_))));
    assert!(matches!(decode_gzip(RAW.to_vec()), Err(TiledError::DecompressingError(_))));
    assert!(matches!(decode_zstd(RAW.to_vec()), Err(TiledError::DecompressingError(_))));
    assert!(matches!(decode_zlib(Vec::new()), Err(TiledError::DecompressingError(_))));
    assert!(matches!(decode_gzip(Vec::new()), Err(TiledError::DecompressingError(_))));
}

#[test]
fn a_decompressing_error_says_what_the_codec_said() {
    let text = |outcome: Result<Vec<u8>, TiledError>| match outcome {
        Err(TiledError::DecompressingError(e)) => e.to_string(),
        other => panic!("{:?}", other),
    };
    let mut decoder = libflate::non_blocking::zlib::Decoder::new(&RAW[..]);
    let mut out = Vec::new();
    let direct = std::io::Read::read_to_end(&mut decoder, &mut out).unwrap_err().to_string();
    assert_eq!(text(decode_zlib(RAW.to_vec())), direct);
    assert_eq!(text(decode_zlib(RAW.to_vec())), text(decode_zlib(RAW.to_vec())));
    assert_eq!(text(decode_gzip(RAW.to_vec())), text(decode_gzip(RAW.to_vec())));
    assert_eq!(text(decode_zstd(RAW.to_vec())), text(decode_zstd(RAW.to_vec())));
    assert_ne!(text(decode_zlib(Vec::new())), "");
}

#[test]
fn a_list_of_numbers_becomes_rows() {
    let grid = decode_csv(4, "1,2,3,4,5,6,7").unwrap();
    assert_eq!(grid.len(), 2);
    assert_eq!(grid[0].iter().map(|t| t.gid).collect::<Vec<u32>>(), vec![1, 2, 3, 4]);
    assert_eq!(grid[1].iter().map(|t| t.gid).collect::<Vec<u32>>(), vec![5, 6, 7]);
    match decode_csv(4, "1,2,three") {
        Err(TiledError::Other(m)) => {
            assert_eq!(m, "CSV tile data must be a list of unsigned 32-bit numbers")
        }
        other => panic!("{:?}", other),
    }
}

fn empty_blocks(count: usize) -> Vec<u8> {
    let mut blocks = Vec::new();
    for _ in 0..count {
        blocks.extend_from_slice(&[0x00, 0x00, 0x00, 0xff, 0xff]);
    }
    blocks.extend_from_slice(&[0x01, 0x00, 0x00, 0xff, 0xff]);
    blocks
}

#[test]
fn a_stream_of_many_empty_blocks_is_inflated() {
    let blocks = empty_blocks(300_000);
    let mut zlib = vec![0x78, 0x9c];
    zlib.extend_from_slice(&blocks);
    zlib.extend_from_slice(&[0, 0, 0, 1]);
    assert_eq!(decode_zlib(zlib).unwrap(), Vec::<u8>::new());
    let mut gzip = vec![0x1f, 0x8b, 0x08, 0, 0, 0, 0, 0, 0, 0x03];
    gzip.extend_from_slice(&blocks);
    gzip.extend_from_slice(&[0, 0, 0, 0, 0, 0, 0, 0]);
    assert_eq!(decode_gzip(gzip).unwrap(), Vec::<u8>::new());
}

#[test]
fn empty_blocks_between_full_ones_change_nothing() {
    let mut zlib = vec![0x78, 0x9c];
    for _ in 0..1000 {
        zlib.extend_from_slice(&[0x00, 0x00, 0x00, 0xff, 0xff]);
    }
    zlib.extend_from_slice(&[0x00, 0x04, 0x00, 0xfb, 0xff, 1, 0, 0, 0]);
    for _ in 0..1000 {
        zlib.extend_from_slice(&[0x00, 0x00, 0x00, 0xff, 0xff]);
    }
    zlib.extend_from_slice(&[0x01, 0x00, 0x00, 0xff, 0xff]);
    zlib.extend_from_slice(&[0x00, 0x08, 0x00, 0x02]);
    assert_eq!(decode_zlib(zlib).unwrap(), vec![1, 0, 0, 0]);
}
