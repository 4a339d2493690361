use exr::compression::htj2k::{
    compress_with_codec, compression_result, decompress, decompression_result,
    native_i32_samples, native_u16_samples,
};
use exr::error::Error;
use exr::math::{IntegerBounds, Vec2};
use numcodecs_jpeg2000::{Jpeg2000Codec, Jpeg2000CodecError, Jpeg2000CompressionMode};

fn lossless() -> Jpeg2000Codec {
    Jpeg2000Codec { mode: Jpeg2000CompressionMode::Lossless, version: Default::default() }
}

fn bounds(width: usize, height: usize) -> IntegerBounds {
    IntegerBounds { position: Vec2(0, 0), size: Vec2(width, height) }
}

fn invalid_text(result: Result<Vec<u8>, Error>) -> String {
    match result {
        Err(Error::Invalid(message)) => message,
        Ok(bytes) => panic!("expected an error, got {} bytes", bytes.len()),
    }
}

#[test]
fn decompress_empty_gives_empty() {
    let result = decompress(Vec::new(), bounds(4, 4), 32, false, None);
    assert_eq!(result.unwrap(), Vec::<u8>::new());
}

#[test]
fn decompress_garbage_reports_codec_failure() {
    let result = decompress(vec![1, 2, 3], bounds(1, 1), 2, true, Some(0));
    let message = invalid_text(result);
    assert!(message.starts_with("JPEG 2000 decompression failed: "), "{}", message);
}

#[test]
fn compress_empty_gives_empty() {
    let result = compress_with_codec(&lossless(), Vec::new(), bounds(0, 0));
    assert_eq!(result.unwrap(), Vec::<u8>::new());
}

#[test]
fn compress_rejects_three_bytes_per_sample() {
    let result = compress_with_codec(&lossless(), vec![0u8; 12], bounds(2, 2));
    assert_eq!(invalid_text(result), "Unsupported bytes per sample for JPEG 2000: 3 (expected 2 or 4)");
}

#[test]
fn compress_rejects_one_byte_per_sample() {
    // 7 bytes over 4 pixels: 1 byte per sample (rounded down)
    let result = compress_with_codec(&lossless(), vec![0u8; 7], bounds(2, 2));
    assert_eq!(invalid_text(result), "Unsupported bytes per sample for JPEG 2000: 1 (expected 2 or 4)");
}

#[test]
fn compress_rejects_many_bytes_per_sample() {
    let result = compress_with_codec(&lossless(), vec![0u8; 120], bounds(1, 1));
    assert_eq!(invalid_text(result), "Unsupported bytes per sample for JPEG 2000: 120 (expected 2 or 4)");
}

#[test]
fn lossless_u16_roundtrip() {
    let mut data = Vec::new();
    for v in [0u16, 1, 500, 65535, 1234, 42] {
        data.extend_from_slice(&v.to_ne_bytes());
    }
    let encoded = compress_with_codec(&lossless(), data.clone(), bounds(3, 2)).unwrap();
    assert!(!encoded.is_empty());
    let decoded = decompress(encoded, bounds(3, 2), data.len(), false, None).unwrap();
    assert_eq!(decoded, data);
}

#[test]
fn lossless_i32_roundtrip() {
    let mut data = Vec::new();
    for v in [0i32, -5, 70000, -1_000_000, 3, 16_000_000] {
        data.extend_from_slice(&v.to_ne_bytes());
    }
    let encoded = compress_with_codec(&lossless(), data.clone(), bounds(2, 3)).unwrap();
    let decoded = decompress(encoded, bounds(2, 3), data.len(), false, None).unwrap();
    assert_eq!(decoded, data);
}

#[test]
fn decompress_reports_size_mismatch() {
    let data: Vec<u8> = vec![1, 0, 2, 0, 3, 0, 4, 0];
    let encoded = compress_with_codec(&lossless(), data, bounds(2, 2)).unwrap();
    let result = decompress(encoded, bounds(2, 2), 10, false, None);
    assert_eq!(invalid_text(result), "Decompressed size mismatch: expected 10, got 8");
}

#[test]
fn rate_mode_gives_expected_size() {
    let codec = Jpeg2000Codec {
        mode: Jpeg2000CompressionMode::Rate { rate: 10.0 },
        version: Default::default(),
    };
    let mut data = Vec::new();
    for i in 0..256u16 {
        data.extend_from_slice(&(i * 100).to_ne_bytes());
    }
    let encoded = compress_with_codec(&codec, data.clone(), bounds(16, 16)).unwrap();
    let decoded = decompress(encoded, bounds(16, 16), data.len(), false, None).unwrap();
    assert_eq!(decoded.len(), data.len());
}

#[test]
fn decompression_result_passes_matching_bytes() {
    let result = decompression_result(Ok(vec![9, 8, 7]), 3);
    assert_eq!(result.unwrap(), vec![9, 8, 7]);
}

#[test]
fn decompression_result_reports_mismatch_with_decimal_sizes() {
    let result = decompression_result(Ok(vec![0u8; 1005]), 0);
    assert_eq!(invalid_text(result), "Decompressed size mismatch: expected 0, got 1005");
}

#[test]
fn decompression_result_reports_codec_error() {
    let result = decompression_result(Err(Jpeg2000CodecError::DecodeTooManySlices), 4);
    assert_eq!(
        invalid_text(result),
        "JPEG 2000 decompression failed: Jpeg2000 failed to decode from an excessive number of slices"
    );
}

#[test]
fn compression_result_passes_or_reports() {
    assert_eq!(compression_result(Ok(vec![1, 2])).unwrap(), vec![1, 2]);
    let result = compression_result(Err(Jpeg2000CodecError::DecodeTooManySlices));
    assert_eq!(
        invalid_text(result),
        "JPEG 2000 compression failed: Jpeg2000 failed to decode from an excessive number of slices"
    );
}

#[test]
fn native_samples_follow_machine_byte_order() {
    let data: Vec<u8> = vec![1, 2, 3, 4, 5, 6, 7, 8, 9];
    let u16s = native_u16_samples(&data, 4);
    assert_eq!(u16s, vec![
        u16::from_ne_bytes([1, 2]),
        u16::from_ne_bytes([3, 4]),
        u16::from_ne_bytes([5, 6]),
        u16::from_ne_bytes([7, 8]),
    ]);
    let i32s = native_i32_samples(&data, 2);
    assert_eq!(i32s, vec![i32::from_ne_bytes([1, 2, 3, 4]), i32::from_ne_bytes([5, 6, 7, 8])]);
    let high = native_i32_samples(&[0xff, 0xff, 0xff, 0xff], 1);
    assert_eq!(high, vec![-1]);
}

#[test]
fn decompress_of_unreadable_header_reports_codec_failure() {
    // the same announced shape as below, but no codec version: the header
    // cannot be read, so the decoder reports it
    let mut stream = vec![3u8, 1];
    stream.extend_from_slice(&[0x80, 0x80, 0x80, 0x80, 0x80, 0x80, 0x80, 0x80, 0x40]);
    let result = decompress(stream, bounds(1, 1), 8, false, None);
    assert_eq!(
        invalid_text(result),
        "JPEG 2000 decompression failed: Jpeg2000 failed to decode the header"
    );
}

#[test]
fn decompress_refuses_header_too_large_to_allocate() {
    // header: sample type U16 (3), one axis of 2^62 samples, codec version "0.1.0"
    let mut stream = vec![3u8, 1];
    stream.extend_from_slice(&[0x80, 0x80, 0x80, 0x80, 0x80, 0x80, 0x80, 0x80, 0x40]);
    stream.push(5);
    stream.extend_from_slice(b"0.1.0");
    let result = decompress(stream, bounds(1, 1), 8, false, None);
    assert_eq!(
        invalid_text(result),
        "JPEG 2000 decompression failed: the stream announces more samples than can be allocated"
    );
}

#[test]
fn decompress_refuses_empty_shape_with_huge_axes() {
    // header: U16, shape [0, 2^40, 2^40], codec version "0.1.0": no samples,
    // but the product of the non-zero axes overflows
    let mut stream = vec![3u8, 3, 0];
    stream.extend_from_slice(&[0x80, 0x80, 0x80, 0x80, 0x80, 0x20]);
    stream.extend_from_slice(&[0x80, 0x80, 0x80, 0x80, 0x80, 0x20]);
    stream.push(5);
    stream.extend_from_slice(b"0.1.0");
    let result = decompress(stream, bounds(1, 1), 0, false, None);
    assert_eq!(
        invalid_text(result),
        "JPEG 2000 decompression failed: the stream announces more samples than can be allocated"
    );
}

#[test]
fn decompress_decodes_before_checking_size() {
    // header: U16, shape [2, 2] (8 bytes), then a body that is not a stream:
    // the decoding failure is reported, whatever size is expected
    let stream = vec![3u8, 2, 2, 2, 0xff];
    for expected in [8usize, 9] {
        let result = decompress(stream.clone(), bounds(2, 2), expected, false, None);
        let message = invalid_text(result);
        assert!(message.starts_with("JPEG 2000 decompression failed: "), "{}", message);
    }
}

#[test]
fn decompress_of_empty_shape_with_large_axis_gives_empty() {
    // header: U16, shape [0, 2^62], codec version "0.1.0": no samples at all
    let mut stream = vec![3u8, 2, 0];
    stream.extend_from_slice(&[0x80, 0x80, 0x80, 0x80, 0x80, 0x80, 0x80, 0x80, 0x40]);
    stream.push(5);
    stream.extend_from_slice(b"0.1.0");
    let result = decompress(stream, bounds(1, 1), 0, false, None);
    assert_eq!(result.unwrap(), Vec::<u8>::new());
}

#[test]
fn compressed_block_decompresses_to_its_size_lossy() {
    // a lossy rate keeps the block's size: what compress wrote decodes to as
    // many bytes as the block had
    let codec = Jpeg2000Codec {
        mode: Jpeg2000CompressionMode::Rate { rate: 4.0 },
        version: Default::default(),
    };
    let data: Vec<u8> = (0..2 * 8 * 4).map(|i| (i * 7) as u8).collect();
    let encoded = compress_with_codec(&codec, data.clone(), bounds(8, 4)).unwrap();
    let decoded = decompress(encoded, bounds(8, 4), data.len(), false, None).unwrap();
    assert_eq!(decoded.len(), data.len());
}

#[test]
fn compress_refuses_samples_beyond_25_bits() {
    // 1.0f32 read as a signed 32-bit sample is far outside the codec's range
    let mut data = Vec::new();
    for v in [1.0f32, 0.5, 2.0, 0.0] {
        data.extend_from_slice(&v.to_ne_bytes());
    }
    let result = compress_with_codec(&lossless(), data, bounds(2, 2));
    let message = invalid_text(result);
    assert!(message.starts_with("JPEG 2000 compression failed: "), "{}", message);
}
