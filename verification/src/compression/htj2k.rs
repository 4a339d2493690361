//! HTJ2K (High-Throughput JPEG 2000) compression for EXR files.
//!
//! The pixel data of a block is handed to the JPEG 2000 codec of
//! `numcodecs_jpeg2000` (standard J2K through OpenJPEG) as one two-dimensional
//! array of samples: 16-bit samples for blocks of two bytes per sample, 32-bit
//! signed samples (the bit patterns of the stored values) for blocks of four
//! bytes per sample. The codec itself, which carries the compression rate, is
//! built by the caller.
use crate::error::Error;
use crate::math::IntegerBounds;
use crate::text::{append_decimal, decimal};
use lebe::io::ReadEndian;
use ndarray::Array;
use numcodecs::{AnyArrayDType, AnyCowArray, Codec, StaticCodecVersion};
use numcodecs_jpeg2000::{Jpeg2000Codec, Jpeg2000CodecError, Jpeg2000DType};
use vstd::prelude::*;
use vstd::string::*;

verus! {

/// A JPEG 2000 codec of `numcodecs_jpeg2000`, with its compression mode.
#[verifier::external_type_specification]
#[verifier::external_body]
pub struct ExJpeg2000Codec(Jpeg2000Codec);

/// An error of the JPEG 2000 codec of `numcodecs_jpeg2000`.
#[verifier::external_type_specification]
#[verifier::external_body]
pub struct ExJpeg2000CodecError(Jpeg2000CodecError);

/// The 16-bit value whose little-endian bytes are `b0, b1`.
pub open spec fn u16_le(b0: u8, b1: u8) -> u16 {
    (b0 + 256 * b1) as u16
}

/// The 16-bit value whose big-endian bytes are `b0, b1`.
pub open spec fn u16_be(b0: u8, b1: u8) -> u16 {
    (b1 + 256 * b0) as u16
}

/// The 32-bit value whose little-endian bytes are `b0, b1, b2, b3`.
pub open spec fn u32_le(b0: u8, b1: u8, b2: u8, b3: u8) -> u32 {
    (b0 + 256 * b1 + 65536 * b2 + 16777216 * b3) as u32
}

/// The 32-bit value whose big-endian bytes are `b0, b1, b2, b3`.
pub open spec fn u32_be(b0: u8, b1: u8, b2: u8, b3: u8) -> u32 {
    (b3 + 256 * b2 + 65536 * b1 + 16777216 * b0) as u32
}

/// The 16-bit value of the two bytes of `data` at `pos`, in little-endian
/// order if `little`, else in big-endian order.
pub open spec fn u16_at(data: Seq<u8>, pos: int, little: bool) -> u16 {
    if little {
        u16_le(data[pos], data[pos + 1])
    } else {
        u16_be(data[pos], data[pos + 1])
    }
}

/// The 32-bit value of the four bytes of `data` at `pos`, in little-endian
/// order if `little`, else in big-endian order.
pub open spec fn u32_at(data: Seq<u8>, pos: int, little: bool) -> u32 {
    if little {
        u32_le(data[pos], data[pos + 1], data[pos + 2], data[pos + 3])
    } else {
        u32_be(data[pos], data[pos + 1], data[pos + 2], data[pos + 3])
    }
}

/// The values of 16-bit samples, as integers.
pub open spec fn u16_values(v: Seq<u16>) -> Seq<int> {
    v.map_values(|x: u16| x as int)
}

/// The values of 32-bit signed samples, as integers.
pub open spec fn i32_values(v: Seq<i32>) -> Seq<int> {
    v.map_values(|x: i32| x as int)
}

/// Whether the machine lays out multi-byte numbers little-endian: the byte
/// order of the executing hardware, for which vstd's `endianness()` stands.
pub open spec fn native_little() -> bool {
    vstd::endian::endianness() is Little
}

/// `256` to the power `n`.
pub open spec fn pow256(n: nat) -> int
    decreases n,
{
    if n == 0 {
        1
    } else {
        256 * pow256((n - 1) as nat)
    }
}

/// Byte `j` (counted from the least significant) of the two's complement
/// representation of `v` in `size` bytes.
pub open spec fn byte_of(v: int, size: nat, j: nat) -> u8 {
    (((v % pow256(size)) / pow256(j)) % 256) as u8
}

/// The bytes of the samples `s`, `size` bytes each, in two's complement and
/// in the machine's byte order: how a decoded array is laid out in memory.
pub open spec fn native_layout(s: Seq<int>, size: nat) -> Seq<u8> {
    Seq::new(
        s.len() * size,
        |i: int|
            byte_of(
                s[i / size as int],
                size,
                if native_little() {
                    (i % size as int) as nat
                } else {
                    (size - 1 - i % size as int) as nat
                },
            ),
    )
}

/// Whether `s` holds the first `count` 16-bit samples of `data`, all read in
/// one byte order (little-endian if `little`).
pub open spec fn u16_samples_in_order(data: Seq<u8>, count: nat, little: bool, s: Seq<int>) -> bool {
    &&& s.len() == count
    &&& forall|k: int| 0 <= k < count ==> #[trigger] s[k] == u16_at(data, 2 * k, little) as int
}

/// Whether `s` holds the first `count` 32-bit words of `data`, all read in
/// one byte order (little-endian if `little`).
pub open spec fn u32_samples_in_order(data: Seq<u8>, count: nat, little: bool, s: Seq<u32>) -> bool {
    &&& s.len() == count
    &&& forall|k: int| 0 <= k < count ==> #[trigger] s[k] == u32_at(data, 4 * k, little)
}

/// Whether `s` holds the first `count` 32-bit samples of `data`, all read in
/// one byte order (little-endian if `little`), each as the signed value with
/// the same bits.
pub open spec fn i32_samples_in_order(data: Seq<u8>, count: nat, little: bool, s: Seq<int>) -> bool {
    &&& s.len() == count
    &&& forall|k: int|
        0 <= k < count ==> #[trigger] s[k] == (u32_at(data, 4 * k, little) as i32) as int
}

/// Whether some sample of `s` lies outside the 25-bit signed range that the
/// codec accepts for 32-bit samples.
pub open spec fn outside_25_bits(s: Seq<int>) -> bool {
    exists|k: int| 0 <= k < s.len() && (#[trigger] s[k] < -16777216 || s[k] > 16777215)
}

/// Text of the error for a block whose bytes per sample the codec cannot take.
pub open spec fn unsupported_sample_size_text(bytes_per_sample: nat) -> Seq<char> {
    "Unsupported bytes per sample for JPEG 2000: "@ + decimal(bytes_per_sample)
        + " (expected 2 or 4)"@
}

/// Text of the error for decoded data of another size than expected.
pub open spec fn size_mismatch_text(expected: nat, got: nat) -> Seq<char> {
    "Decompressed size mismatch: expected "@ + decimal(expected) + ", got "@ + decimal(got)
}

/// Text of the error for a stream whose header announces an array too
/// large to allocate.
pub open spec fn oversized_stream_text() -> Seq<char> {
    "JPEG 2000 decompression failed: the stream announces more samples than can be allocated"@
}

/// Text of the error that reports a failure `e` of the codec: `prefix`, then
/// the display text of `e`.
pub open spec fn codec_failure_text(
    text: Seq<char>,
    prefix: Seq<char>,
    e: &Jpeg2000CodecError,
) -> bool {
    exists|shown: String| to_string_from_display_ensures(e, shown) && text == prefix + shown@
}

/// Reads `count` 16-bit samples from the start of `data` in one call of
/// `lebe::io::ReadEndian::read_from_native_endian_into` on a slice of `u16`.
/// Claimed: all samples are read, in the machine's byte order (`native_little`).
#[verifier::external_body]
fn read_u16_samples(data: &[u8], count: usize) -> (samples: Vec<u16>)
    requires
        2 * count <= data.len(),
    ensures
        u16_samples_in_order(data@, count as nat, native_little(), u16_values(samples@)),
{
    let mut samples = vec![0u16; count];
    let mut reader: &[u8] = data;
    let _ = reader.read_from_native_endian_into(samples.as_mut_slice());
    samples
}

/// Reads `count` 32-bit samples from the start of `data` in one call of
/// `lebe::io::ReadEndian::read_from_native_endian_into` on a slice of `u32`.
/// Claimed: all samples are read, in the machine's byte order (`native_little`).
#[verifier::external_body]
fn read_u32_samples(data: &[u8], count: usize) -> (samples: Vec<u32>)
    requires
        4 * count <= data.len(),
    ensures
        u32_samples_in_order(data@, count as nat, native_little(), samples@),
{
    let mut samples = vec![0u32; count];
    let mut reader: &[u8] = data;
    let _ = reader.read_from_native_endian_into(samples.as_mut_slice());
    samples
}

/// The samples of a block, in the integer type that the codec receives.
enum Samples {
    /// Two bytes per sample.
    U16(Vec<u16>),
    /// Four bytes per sample, as the bit patterns of signed values.
    I32(Vec<i32>),
}

/// The values of `samples`, as integers.
spec fn sample_values(samples: Samples) -> Seq<int> {
    match samples {
        Samples::U16(v) => u16_values(v@),
        Samples::I32(v) => i32_values(v@),
    }
}

/// The number of `samples`.
spec fn sample_count(samples: Samples) -> nat {
    match samples {
        Samples::U16(v) => v.len() as nat,
        Samples::I32(v) => v.len() as nat,
    }
}

/// Whether the JPEG 2000 codec `codec` may return `encoded` for a `height` by
/// `width` array of `samples`, of 16 unsigned bits each if `two_bytes`, else
/// of 32 signed bits each. A relation, not a function: the encoder's rate
/// allocation computes in floating point, which need not agree to the bit
/// between machines.
pub uninterp spec fn jpeg2000_encodes(
    codec: Jpeg2000Codec,
    samples: Seq<int>,
    two_bytes: bool,
    width: nat,
    height: nat,
    encoded: Seq<u8>,
) -> bool;

/// Whether the JPEG 2000 codec `codec` may fail to encode a `height` by
/// `width` array of `samples` (16 unsigned bits each if `two_bytes`, else 32
/// signed bits each). A relation: the codec can also fail for want of memory.
pub uninterp spec fn jpeg2000_encode_fails(
    codec: Jpeg2000Codec,
    samples: Seq<int>,
    two_bytes: bool,
    width: nat,
    height: nat,
) -> bool;

/// The type of the samples that a JPEG 2000 stream of `numcodecs_jpeg2000`
/// holds.
#[derive(Debug, PartialEq, Eq)]
pub enum SampleType {
    I8,
    U8,
    I16,
    U16,
    I32,
    U32,
    I64,
    U64,
}

/// The header that the codec writes for a `height` by `width` block of
/// 16-bit samples if `two_bytes`, else of 32-bit signed samples.
pub open spec fn block_header(two_bytes: bool, width: nat, height: nat) -> Option<
    (SampleType, Seq<u64>),
> {
    Some(
        (
            if two_bytes {
                SampleType::U16
            } else {
                SampleType::I32
            },
            seq![height as u64, width as u64],
        ),
    )
}

/// Encodes `samples` as a `height` by `width` array with `Codec::encode` of
/// `codec` (which calls `numcodecs_jpeg2000::compress`), and returns the
/// encoded bytes (`AnyArray::as_bytes` of the byte array that the codec
/// returns). A shape that does not fit the samples is reported as
/// `Jpeg2000CodecError::UnsupportedDtype` of the samples' type.
/// Claimed:
/// - encoded bytes stand in `jpeg2000_encodes` with the codec, the samples,
///   their type and the shape, and start with the header that
///   `numcodecs_jpeg2000::compress` writes first: the sample type and the
///   shape `[height, width]`;
/// - a failure is the shape error (the number of samples is not
///   `width * height`, which `Array::from_shape_vec` refuses) or stands in
///   `jpeg2000_encode_fails`;
/// - 32-bit samples outside the 25-bit signed range always fail (the codec's
///   `Jpeg2000Error::DataOutOfRange`).
/// Whether the codec succeeds otherwise is left open.
#[verifier::external_body]
fn jpeg2000_encode(codec: &Jpeg2000Codec, samples: Samples, width: usize, height: usize) -> (encoded:
    Result<Vec<u8>, Jpeg2000CodecError>)
    ensures
        encoded matches Ok(bytes) ==> jpeg2000_encodes(
            *codec,
            sample_values(samples),
            samples is U16,
            width as nat,
            height as nat,
            bytes@,
        ),
        encoded matches Ok(bytes) ==> jpeg2000_header(bytes@) == block_header(
            samples is U16,
            width as nat,
            height as nat,
        ),
        encoded is Err ==> sample_count(samples) != width * height || jpeg2000_encode_fails(
            *codec,
            sample_values(samples),
            samples is U16,
            width as nat,
            height as nat,
        ),
        sample_count(samples) != width * height ==> encoded is Err,
        samples is I32 && outside_25_bits(sample_values(samples)) ==> encoded is Err,
{
    let array = match samples {
        Samples::U16(v) => Array::from_shape_vec((height, width), v).map(
            |a| AnyCowArray::U16(a.into_dyn().into()),
        ).map_err(|_| Jpeg2000CodecError::UnsupportedDtype(AnyArrayDType::U16))?,
        Samples::I32(v) => Array::from_shape_vec((height, width), v).map(
            |a| AnyCowArray::I32(a.into_dyn().into()),
        ).map_err(|_| Jpeg2000CodecError::UnsupportedDtype(AnyArrayDType::I32))?,
    };
    Ok(codec.encode(array)?.as_bytes().to_vec())
}

/// The number of bytes of one sample of type `t`.
pub open spec fn sample_size(t: SampleType) -> nat {
    match t {
        SampleType::I8 | SampleType::U8 => 1,
        SampleType::I16 | SampleType::U16 => 2,
        SampleType::I32 | SampleType::U32 => 4,
        SampleType::I64 | SampleType::U64 => 8,
    }
}

fn sample_size_of(t: &SampleType) -> (size: u64)
    ensures
        size == sample_size(*t),
{
    match t {
        SampleType::I8 | SampleType::U8 => 1,
        SampleType::I16 | SampleType::U16 => 2,
        SampleType::I32 | SampleType::U32 => 4,
        SampleType::I64 | SampleType::U64 => 8,
    }
}

/// The number of elements of an array of the given shape.
pub open spec fn shape_elements(shape: Seq<u64>) -> int
    decreases shape.len(),
{
    if shape.len() == 0 {
        1
    } else {
        shape_elements(shape.drop_last()) * shape.last()
    }
}

/// The product of the non-zero axis lengths of `shape`: what an array library
/// checks against `isize::MAX` before it allocates an array of that shape.
pub open spec fn nonzero_axes_product(shape: Seq<u64>) -> int
    decreases shape.len(),
{
    if shape.len() == 0 {
        1
    } else {
        nonzero_axes_product(shape.drop_last()) * (if shape.last() == 0 {
            1
        } else {
            shape.last() as int
        })
    }
}

/// The number of bytes of the samples that a stream header announces.
pub open spec fn header_byte_count(t: SampleType, shape: Seq<u64>) -> int {
    shape_elements(shape) * sample_size(t)
}

/// Whether the decoder can allocate the array that a stream header announces
/// without overflowing the limits of an allocation: the product of the
/// non-zero axes must not exceed `isize::MAX`, nor, where the array holds
/// samples, their number of bytes. An unreadable header is never allocated.
pub open spec fn header_allocatable(header: Option<(SampleType, Seq<u64>)>) -> bool {
    match header {
        None => true,
        Some((t, shape)) => if shape_elements(shape) == 0 {
            nonzero_axes_product(shape) <= isize::MAX
        } else {
            nonzero_axes_product(shape) * sample_size(t) <= isize::MAX
        },
    }
}

/// The sample type and shape that the header of the JPEG 2000 stream `encoded`
/// of `numcodecs_jpeg2000` announces, if the header can be read.
pub uninterp spec fn jpeg2000_header(encoded: Seq<u8>) -> Option<(SampleType, Seq<u64>)>;

/// Reads the header of a JPEG 2000 stream of `numcodecs_jpeg2000` with
/// `postcard::take_from_bytes`: the sample type (`Jpeg2000DType`), the array
/// shape and the codec version (`StaticCodecVersion<0, 1, 0>`, which refuses
/// incompatible versions), the fields that the codec's own header holds, in
/// its order. Claimed: the result is `jpeg2000_header` of the bytes.
#[verifier::external_body]
fn read_jpeg2000_header(encoded: &[u8]) -> (header: Option<(SampleType, Vec<u64>)>)
    ensures
        header is None <==> jpeg2000_header(encoded@) is None,
        header matches Some((t, shape)) ==> jpeg2000_header(encoded@) == Some((t, shape@)),
{
    let ((dtype, shape, _), _) = postcard::take_from_bytes::<
        (Jpeg2000DType, Vec<u64>, StaticCodecVersion<0, 1, 0>),
    >(encoded).ok()?;
    Some((match dtype {
        Jpeg2000DType::I8 => SampleType::I8,
        Jpeg2000DType::U8 => SampleType::U8,
        Jpeg2000DType::I16 => SampleType::I16,
        Jpeg2000DType::U16 => SampleType::U16,
        Jpeg2000DType::I32 => SampleType::I32,
        Jpeg2000DType::U32 => SampleType::U32,
        Jpeg2000DType::I64 => SampleType::I64,
        Jpeg2000DType::U64 => SampleType::U64,
    }, shape))
}

/// Whether `decoded` is a decoding of the JPEG 2000 stream `encoded`: the
/// samples of the stream, each laid out in the machine's byte order.
pub uninterp spec fn jpeg2000_decodes_to(encoded: Seq<u8>, decoded: Seq<u8>) -> bool;

/// Whether decoding the JPEG 2000 stream `encoded` may fail. A relation: the
/// decoder can also fail for want of memory.
pub uninterp spec fn jpeg2000_decode_fails(encoded: Seq<u8>) -> bool;

/// Decodes a JPEG 2000 stream with `numcodecs_jpeg2000::decompress` (what
/// `Codec::decode` of a `Jpeg2000Codec` does with a one-dimensional byte
/// array) and returns the decoded samples as bytes (`AnyArray::as_bytes`).
/// The decoder allocates the array that the stream's header announces and
/// panics where that allocation overflows its limits; `requires` keeps such
/// streams out.
/// Claimed: decoded bytes stand in `jpeg2000_decodes_to` with the stream,
/// come only from a stream whose header was read, as many as that header
/// announces, and are the in-memory layout of as many samples of the
/// header's type, in the machine's byte order; a failure stands in
/// `jpeg2000_decode_fails`. Whether decoding
/// succeeds is left open (OpenJPEG can fail for want of memory), and so are
/// the bytes beyond that relation, since they follow the machine's byte order.
#[verifier::external_body]
fn jpeg2000_decode(encoded: &[u8]) -> (decoded: Result<Vec<u8>, Jpeg2000CodecError>)
    requires
        header_allocatable(jpeg2000_header(encoded@)),
    ensures
        decoded matches Ok(bytes) ==> jpeg2000_decodes_to(encoded@, bytes@),
        decoded matches Ok(bytes) ==> (jpeg2000_header(encoded@) matches Some((t, shape))
            && bytes@.len() == header_byte_count(t, shape)),
        decoded matches Ok(bytes) ==> (jpeg2000_header(encoded@) matches Some((t, shape))
            && exists|samples: Seq<int>|
            samples.len() == shape_elements(shape) && #[trigger] native_layout(
                samples,
                sample_size(t),
            ) == bytes@),
        decoded is Err ==> jpeg2000_decode_fails(encoded@),
{
    numcodecs_jpeg2000::decompress(encoded).map(|array| array.as_bytes().to_vec())
}

/// Maps a failure `e` of the codec to an error whose text is `prefix`
/// followed by the display text of `e`.
fn codec_failure(prefix: &str, e: Jpeg2000CodecError) -> (error: Error)
    ensures
        error matches Error::Invalid(m) && codec_failure_text(m@, prefix@, &e),
{
    let shown = e.to_string();
    let mut message = String::from_str(prefix);
    message.append(shown.as_str());
    Error::Invalid(message)
}

/// Reads `count` samples of 16 bits from `data`, all in the machine's byte
/// order.
pub fn native_u16_samples(data: &[u8], count: usize) -> (samples: Vec<u16>)
    requires
        2 * count <= data.len(),
    ensures
        u16_samples_in_order(data@, count as nat, native_little(), u16_values(samples@)),
{
    read_u16_samples(data, count)
}

/// Reads `count` samples of 32 bits from `data`, all in the machine's byte
/// order, each reinterpreted as a signed value with the same bits.
pub fn native_i32_samples(data: &[u8], count: usize) -> (samples: Vec<i32>)
    requires
        4 * count <= data.len(),
    ensures
        i32_samples_in_order(data@, count as nat, native_little(), i32_values(samples@)),
{
    let words = read_u32_samples(data, count);
    let ghost little = native_little();
    let mut samples: Vec<i32> = Vec::new();
    let mut k: usize = 0;
    while k < count
        invariant
            k <= count,
            words.len() == count,
            samples.len() == k,
            forall|j: int| 0 <= j < count ==> #[trigger] words@[j] == u32_at(data@, 4 * j, little),
            forall|j: int| 0 <= j < k ==> #[trigger] samples@[j] == words@[j] as i32,
        decreases count - k,
    {
        samples.push(words[k] as i32);
        k = k + 1;
    }
    proof {
        let s = i32_values(samples@);
        assert forall|j: int| 0 <= j < count implies #[trigger] s[j] == (u32_at(data@, 4 * j, little)
            as i32) as int by {
            assert(samples@[j] == words@[j] as i32);
        }
        assert(i32_samples_in_order(data@, count as nat, little, s));
    }
    samples
}

/// Whether `encoded` is an outcome of encoding the `height` by `width` array
/// of samples `s` with `codec`: encoded bytes that stand in
/// `jpeg2000_encodes` and start with the block's header, or a failure that
/// stands in `jpeg2000_encode_fails`.
pub open spec fn encode_outcome(
    encoded: Result<Vec<u8>, Jpeg2000CodecError>,
    codec: Jpeg2000Codec,
    s: Seq<int>,
    two_bytes: bool,
    width: nat,
    height: nat,
) -> bool {
    match encoded {
        Ok(bytes) => jpeg2000_encodes(codec, s, two_bytes, width, height, bytes@) && jpeg2000_header(
            bytes@,
        ) == block_header(two_bytes, width, height),
        Err(_) => jpeg2000_encode_fails(codec, s, two_bytes, width, height),
    }
}

/// Whether `r` is what compression returns for an outcome of encoding the
/// `height` by `width` array of samples `s` with `codec`: the encoded bytes,
/// or an invalid-data error that reports the codec's failure.
pub open spec fn compress_outcome(
    r: Result<Vec<u8>, Error>,
    codec: Jpeg2000Codec,
    s: Seq<int>,
    two_bytes: bool,
    width: nat,
    height: nat,
) -> bool {
    match r {
        Ok(v) => jpeg2000_encodes(codec, s, two_bytes, width, height, v@) && jpeg2000_header(v@)
            == block_header(two_bytes, width, height),
        Err(Error::Invalid(m)) => jpeg2000_encode_fails(codec, s, two_bytes, width, height)
            && exists|e: Jpeg2000CodecError|
            codec_failure_text(m@, "JPEG 2000 compression failed: "@, &e),
    }
}

/// Encodes the first `width * height` samples of 16 bits of `data`, all in
/// the machine's byte order, as a `height` by `width` array; fails when
/// `data` holds fewer.
fn compress_u16_data(
    codec: &Jpeg2000Codec,
    data: &[u8],
    width: usize,
    height: usize,
) -> (encoded: Result<Vec<u8>, Jpeg2000CodecError>)
    requires
        width * height <= usize::MAX,
    ensures
        2 * (width * height) <= data.len() ==> exists|s: Seq<int>|
            #![trigger u16_samples_in_order(data@, (width * height) as nat, native_little(), s)]
            u16_samples_in_order(data@, (width * height) as nat, native_little(), s) && encode_outcome(
                encoded,
                *codec,
                s,
                true,
                width as nat,
                height as nat,
            ),
        2 * (width * height) > data.len() ==> encoded is Err,
{
    let count = width * height;
    if data.len() / 2 < count {
        // Too few bytes: the samples that can be read do not fill the shape,
        // which the codec refuses.
        let samples = native_u16_samples(data, data.len() / 2);
        return jpeg2000_encode(codec, Samples::U16(samples), width, height);
    }
    let samples = native_u16_samples(data, count);
    let ghost values = u16_values(samples@);
    let ghost little = native_little();
    let block = Samples::U16(samples);
    proof {
        assert(sample_values(block) == values);
        assert(sample_count(block) == count);
    }
    let encoded = jpeg2000_encode(codec, block, width, height);
    proof {
        assert(u16_samples_in_order(data@, (width * height) as nat, little, values) && encode_outcome(
            encoded,
            *codec,
            values,
            true,
            width as nat,
            height as nat,
        ));
    }
    encoded
}

/// Encodes the first `width * height` samples of 32 bits of `data`, all in
/// the machine's byte order and each as the signed value with the same bits,
/// as a `height` by `width` array; fails when `data` holds fewer, or when a
/// sample lies outside the codec's 25-bit signed range.
fn compress_i32_data(
    codec: &Jpeg2000Codec,
    data: &[u8],
    width: usize,
    height: usize,
) -> (encoded: Result<Vec<u8>, Jpeg2000CodecError>)
    requires
        width * height <= usize::MAX,
    ensures
        4 * (width * height) <= data.len() ==> exists|s: Seq<int>|
            #![trigger i32_samples_in_order(data@, (width * height) as nat, native_little(), s)]
            i32_samples_in_order(data@, (width * height) as nat, native_little(), s) && encode_outcome(
                encoded,
                *codec,
                s,
                false,
                width as nat,
                height as nat,
            ) && (outside_25_bits(s) ==> encoded is Err),
        4 * (width * height) > data.len() ==> encoded is Err,
{
    let count = width * height;
    if data.len() / 4 < count {
        // Too few bytes: the samples that can be read do not fill the shape,
        // which the codec refuses.
        let samples = native_i32_samples(data, data.len() / 4);
        return jpeg2000_encode(codec, Samples::I32(samples), width, height);
    }
    let samples = native_i32_samples(data, count);
    let ghost values = i32_values(samples@);
    let ghost little = native_little();
    let block = Samples::I32(samples);
    proof {
        assert(sample_values(block) == values);
        assert(sample_count(block) == count);
    }
    let encoded = jpeg2000_encode(codec, block, width, height);
    proof {
        assert(i32_samples_in_order(data@, (width * height) as nat, little, values) && encode_outcome(
            encoded,
            *codec,
            values,
            false,
            width as nat,
            height as nat,
        ) && (outside_25_bits(values) ==> encoded is Err));
    }
    encoded
}

proof fn lemma_cast_u32_to_i32(w: u32)
    ensures
        w >= 0x80000000 ==> (w as i32) as int == w as int - 0x100000000,
        w < 0x80000000 ==> (w as i32) as int == w as int,
{
    assert(w >= 0x80000000 ==> (w as i32) as i64 == (w as i64) - 0x100000000i64) by (bit_vector);
    assert(w < 0x80000000 ==> (w as i32) as i64 == (w as i64)) by (bit_vector);
}

proof fn lemma_pow256_small()
    ensures
        pow256(0) == 1,
        pow256(1) == 256,
        pow256(2) == 65536,
        pow256(3) == 16777216,
        pow256(4) == 0x100000000,
{
    assert(pow256(0) == 1);
    assert(pow256(1) == 256 * pow256(0));
    assert(pow256(2) == 256 * pow256(1));
    assert(pow256(3) == 256 * pow256(2));
    assert(pow256(4) == 256 * pow256(3));
}

/// The two bytes of a 16-bit value `v`, low then high.
#[verifier::spinoff_prover]
proof fn lemma_u16_bytes(v: int)
    requires
        0 <= v < 65536,
    ensures
        byte_of(v, 2, 0) == v % 256,
        byte_of(v, 2, 1) == v / 256,
        u16_le(byte_of(v, 2, 0), byte_of(v, 2, 1)) == v,
        u16_be(byte_of(v, 2, 1), byte_of(v, 2, 0)) == v,
{
    lemma_pow256_small();
    let lo = v % 256;
    let hi = v / 256;
    assert(v % 65536 == v) by {
        vstd::arithmetic::div_mod::lemma_small_mod(v as nat, 65536);
    }
    assert((v % 65536) / 1 == v);
    assert(0 <= lo < 256 && 0 <= hi < 256 && lo + 256 * hi == v) by {
        vstd::arithmetic::div_mod::lemma_fundamental_div_mod(v, 256);
    }
    assert(hi % 256 == hi) by {
        vstd::arithmetic::div_mod::lemma_small_mod(hi as nat, 256);
    }
    assert(lo % 256 == lo) by {
        vstd::arithmetic::div_mod::lemma_small_mod(lo as nat, 256);
    }
    assert(byte_of(v, 2, 0) == lo);
    assert(byte_of(v, 2, 1) == hi);
}

/// The four bytes of the 32-bit two's complement representation of `v`,
/// from the least significant: those of the word `w`, which is `v` taken
/// modulo 2^32.
#[verifier::spinoff_prover]
proof fn lemma_u32_bytes(v: int, w: int)
    requires
        i32::MIN <= v <= i32::MAX,
        w == v % 0x100000000,
    ensures
        0 <= w < 0x100000000,
        w == if v >= 0 {
            v
        } else {
            v + 0x100000000
        },
        byte_of(v, 4, 0) as int + 256 * byte_of(v, 4, 1) + 65536 * byte_of(v, 4, 2) + 16777216
            * byte_of(v, 4, 3) == w,
{
    lemma_pow256_small();
    assert(0 <= w < 0x100000000 && w == if v >= 0 {
        v
    } else {
        v + 0x100000000
    }) by {
        vstd::arithmetic::div_mod::lemma_fundamental_div_mod(v, 0x100000000);
    }
    let b0 = w % 256;
    let q0 = w / 256;
    let b1 = q0 % 256;
    let q1 = q0 / 256;
    let b2 = q1 % 256;
    let b3 = q1 / 256;
    assert(w == b0 + 256 * q0 && 0 <= b0 < 256) by {
        vstd::arithmetic::div_mod::lemma_fundamental_div_mod(w, 256);
    }
    assert(q0 == b1 + 256 * q1 && 0 <= b1 < 256) by {
        vstd::arithmetic::div_mod::lemma_fundamental_div_mod(q0, 256);
    }
    assert(q1 == b2 + 256 * b3 && 0 <= b2 < 256) by {
        vstd::arithmetic::div_mod::lemma_fundamental_div_mod(q1, 256);
    }
    assert(q1 == w / 65536) by {
        vstd::arithmetic::div_mod::lemma_div_denominator(w, 256, 256);
    }
    assert(b3 == w / 16777216) by {
        vstd::arithmetic::div_mod::lemma_div_denominator(w, 65536, 256);
    }
    assert(0 <= b3 < 256);
    assert(b3 % 256 == b3) by {
        vstd::arithmetic::div_mod::lemma_small_mod(b3 as nat, 256);
    }
    assert(w / 1 == w);
    assert(byte_of(v, 4, 0) == b0);
    assert(byte_of(v, 4, 1) == b1);
    assert(byte_of(v, 4, 2) == b2);
    assert(byte_of(v, 4, 3) == b3);
}

/// Law: compression reads 16-bit samples back exactly as decompression lays
/// them out. The bytes of any 16-bit samples `s`, laid out in the machine's
/// byte order, are read by compression (`native_u16_samples`,
/// `compress_with_codec`) as `s` itself.
pub proof fn lemma_u16_samples_read_back(s: Seq<int>)
    requires
        forall|k: int| 0 <= k < s.len() ==> 0 <= #[trigger] s[k] < 65536,
    ensures
        u16_samples_in_order(native_layout(s, 2), s.len(), native_little(), s),
{
    let data = native_layout(s, 2);
    assert forall|k: int| 0 <= k < s.len() implies #[trigger] s[k] == u16_at(
        data,
        2 * k,
        native_little(),
    ) as int by {
        let v = s[k];
        assert((2 * k) / 2 == k && (2 * k) % 2 == 0);
        assert((2 * k + 1) / 2 == k && (2 * k + 1) % 2 == 1);
        assert(2 * k + 1 < s.len() * 2);
        lemma_u16_bytes(v);
        if native_little() {
            assert(data[2 * k] == byte_of(v, 2, 0) && data[2 * k + 1] == byte_of(v, 2, 1));
        } else {
            assert(data[2 * k] == byte_of(v, 2, 1) && data[2 * k + 1] == byte_of(v, 2, 0));
        }
    }
}

/// Law: compression reads 32-bit samples back exactly as decompression lays
/// them out. The bytes of any 32-bit signed samples `s`, laid out in two's
/// complement in the machine's byte order, are read by compression
/// (`native_i32_samples`, `compress_with_codec`) as `s` itself, bit pattern
/// for bit pattern.
pub proof fn lemma_i32_samples_read_back(s: Seq<int>)
    requires
        forall|k: int| 0 <= k < s.len() ==> i32::MIN <= #[trigger] s[k] <= i32::MAX,
    ensures
        i32_samples_in_order(native_layout(s, 4), s.len(), native_little(), s),
{
    let data = native_layout(s, 4);
    assert forall|k: int| 0 <= k < s.len() implies #[trigger] s[k] == (u32_at(
        data,
        4 * k,
        native_little(),
    ) as i32) as int by {
        let v = s[k];
        let w = v % 0x100000000;
        lemma_u32_bytes(v, w);
        let b0 = byte_of(v, 4, 0);
        let b1 = byte_of(v, 4, 1);
        let b2 = byte_of(v, 4, 2);
        let b3 = byte_of(v, 4, 3);
        assert((4 * k) / 4 == k && (4 * k) % 4 == 0);
        assert((4 * k + 1) / 4 == k && (4 * k + 1) % 4 == 1);
        assert((4 * k + 2) / 4 == k && (4 * k + 2) % 4 == 2);
        assert((4 * k + 3) / 4 == k && (4 * k + 3) % 4 == 3);
        assert(4 * k + 3 < s.len() * 4);
        if native_little() {
            assert(data[4 * k] == b0 && data[4 * k + 1] == b1 && data[4 * k + 2] == b2 && data[4 * k
                + 3] == b3);
        } else {
            assert(data[4 * k] == b3 && data[4 * k + 1] == b2 && data[4 * k + 2] == b1 && data[4 * k
                + 3] == b0);
        }
        let word = u32_at(data, 4 * k, native_little());
        assert(word == w);
        lemma_cast_u32_to_i32(word);
    }
}

/// Law: the samples that compression hands to the codec are a function of the
/// block's bytes: two readings of the same bytes in the machine's byte order
/// give the same samples.
pub proof fn lemma_samples_read_are_determined(
    data: Seq<u8>,
    count: nat,
    s1: Seq<int>,
    s2: Seq<int>,
)
    ensures
        u16_samples_in_order(data, count, native_little(), s1) && u16_samples_in_order(
            data,
            count,
            native_little(),
            s2,
        ) ==> s1 == s2,
        i32_samples_in_order(data, count, native_little(), s1) && i32_samples_in_order(
            data,
            count,
            native_little(),
            s2,
        ) ==> s1 == s2,
{
    if u16_samples_in_order(data, count, native_little(), s1) && u16_samples_in_order(
        data,
        count,
        native_little(),
        s2,
    ) {
        assert(s1 =~= s2);
    }
    if i32_samples_in_order(data, count, native_little(), s1) && i32_samples_in_order(
        data,
        count,
        native_little(),
        s2,
    ) {
        assert(s1 =~= s2);
    }
}

/// What compression returns for the codec's outcome `encoded`: the encoded
/// bytes, or an invalid-data error that reports the codec's failure.
pub fn compression_result(encoded: Result<Vec<u8>, Jpeg2000CodecError>) -> (r: Result<
    Vec<u8>,
    Error,
>)
    ensures
        match encoded {
            Ok(bytes) => r matches Ok(v) && v@ == bytes@,
            Err(e) => r matches Err(Error::Invalid(m)) && codec_failure_text(
                m@,
                "JPEG 2000 compression failed: "@,
                &e,
            ),
        },
{
    match encoded {
        Ok(bytes) => Ok(bytes),
        Err(e) => Err(codec_failure("JPEG 2000 compression failed: ", e)),
    }
}

/// Compresses pixel data with `codec`, whose mode fixes the compression rate.
///
/// Empty data compresses to empty data. Otherwise the number of bytes per
/// sample is the data's length divided by the number of pixels of
/// `rectangle`: with 2 the data goes to the codec as 16-bit samples, with 4 as
/// 32-bit signed samples (all in the machine's byte order), and any other size
/// is refused. The codec receives the samples as a `height` by `width` array;
/// what it returns is returned, and its failure is reported as invalid data.
pub fn compress_with_codec(
    codec: &Jpeg2000Codec,
    uncompressed_ne: Vec<u8>,
    rectangle: IntegerBounds,
) -> (r: Result<Vec<u8>, Error>)
    requires
        uncompressed_ne.len() > 0 ==> 0 < rectangle.size.0 * rectangle.size.1 <= usize::MAX,
    ensures
        uncompressed_ne.len() == 0 ==> (r matches Ok(v) && v@.len() == 0),
        uncompressed_ne.len() > 0 ==> ({
            let width = rectangle.size.0;
            let height = rectangle.size.1;
            let pixels = (width * height) as nat;
            let bytes_per_sample = uncompressed_ne.len() as int / (width * height);
            &&& (bytes_per_sample != 2 && bytes_per_sample != 4) ==> (r matches Err(
                Error::Invalid(m),
            ) && m@ == unsupported_sample_size_text(bytes_per_sample as nat))
            &&& bytes_per_sample == 2 ==> exists|s: Seq<int>|
                #![trigger u16_samples_in_order(uncompressed_ne@, pixels, native_little(), s)]
                u16_samples_in_order(uncompressed_ne@, pixels, native_little(), s) && compress_outcome(
                    r,
                    *codec,
                    s,
                    true,
                    width as nat,
                    height as nat,
                )
            &&& bytes_per_sample == 4 ==> exists|s: Seq<int>|
                #![trigger i32_samples_in_order(uncompressed_ne@, pixels, native_little(), s)]
                i32_samples_in_order(uncompressed_ne@, pixels, native_little(), s) && compress_outcome(
                    r,
                    *codec,
                    s,
                    false,
                    width as nat,
                    height as nat,
                ) && (outside_25_bits(s) ==> r is Err)
        }),
{
    if uncompressed_ne.is_empty() {
        return Ok(Vec::new());
    }
    let width = rectangle.size.0;
    let height = rectangle.size.1;
    let total_pixels = width * height;

    let bytes_per_sample = uncompressed_ne.len() / total_pixels;
    proof {
        vstd::arithmetic::div_mod::lemma_fundamental_div_mod(
            uncompressed_ne.len() as int,
            total_pixels as int,
        );
        vstd::arithmetic::div_mod::lemma_mod_pos_bound(
            uncompressed_ne.len() as int,
            total_pixels as int,
        );
    }

    if bytes_per_sample == 2 {
        assert(2 * total_pixels <= uncompressed_ne.len()) by (nonlinear_arith)
            requires
                uncompressed_ne.len() == total_pixels * bytes_per_sample + uncompressed_ne.len()
                    % total_pixels,
                bytes_per_sample == 2,
                uncompressed_ne.len() % total_pixels >= 0,
        ;
        let encoded = compress_u16_data(codec, uncompressed_ne.as_slice(), width, height);
        let ghost pick = choose|s: Seq<int>|
            u16_samples_in_order(uncompressed_ne@, total_pixels as nat, native_little(), s) && encode_outcome(
                encoded,
                *codec,
                s,
                true,
                width as nat,
                height as nat,
            );
        let r = compression_result(encoded);
        proof {
            assert(u16_samples_in_order(uncompressed_ne@, total_pixels as nat, native_little(), pick)
                && compress_outcome(r, *codec, pick, true, width as nat, height as nat));
        }
        r
    } else if bytes_per_sample == 4 {
        assert(4 * total_pixels <= uncompressed_ne.len()) by (nonlinear_arith)
            requires
                uncompressed_ne.len() == total_pixels * bytes_per_sample + uncompressed_ne.len()
                    % total_pixels,
                bytes_per_sample == 4,
                uncompressed_ne.len() % total_pixels >= 0,
        ;
        let encoded = compress_i32_data(codec, uncompressed_ne.as_slice(), width, height);
        proof {
            assert(total_pixels as nat == (width * height) as nat);
            assert(exists|s: Seq<int>|
                #![trigger i32_samples_in_order(uncompressed_ne@, total_pixels as nat, native_little(), s)]
                i32_samples_in_order(uncompressed_ne@, total_pixels as nat, native_little(), s)
                    && encode_outcome(encoded, *codec, s, false, width as nat, height as nat) && (
                outside_25_bits(s) ==> encoded is Err));
        }
        let ghost pick = choose|s: Seq<int>|
            i32_samples_in_order(uncompressed_ne@, total_pixels as nat, native_little(), s) && encode_outcome(
                encoded,
                *codec,
                s,
                false,
                width as nat,
                height as nat,
            ) && (outside_25_bits(s) ==> encoded is Err);
        let r = compression_result(encoded);
        proof {
            assert(i32_samples_in_order(uncompressed_ne@, total_pixels as nat, native_little(), pick)
                && compress_outcome(r, *codec, pick, false, width as nat, height as nat) && (
            outside_25_bits(pick) ==> r is Err));
        }
        r
    } else {
        let mut message = String::from_str("Unsupported bytes per sample for JPEG 2000: ");
        append_decimal(&mut message, bytes_per_sample);
        message.append(" (expected 2 or 4)");
        Err(Error::Invalid(message))
    }
}

/// Law: what compression returns for a block announces, in its header, the
/// block's own size in bytes (bytes per sample times width times height), so
/// `decompress` of it with that many bytes expected neither refuses the
/// stream as too large to allocate nor reports a size mismatch, but decodes
/// it (where that many bytes fit in an allocation at all).
pub proof fn lemma_compressed_block_announces_its_size(
    encoded: Seq<u8>,
    two_bytes: bool,
    width: nat,
    height: nat,
)
    requires
        jpeg2000_header(encoded) == block_header(two_bytes, width, height),
        0 < width <= u64::MAX,
        0 < height <= u64::MAX,
        (if two_bytes {
            2int
        } else {
            4int
        }) * width * height <= isize::MAX,
    ensures
        header_allocatable(jpeg2000_header(encoded)),
        jpeg2000_header(encoded) matches Some((t, shape)) && header_byte_count(t, shape) == (if two_bytes {
            2int
        } else {
            4int
        }) * width * height,
{
    let shape = seq![height as u64, width as u64];
    let size: int = if two_bytes {
        2
    } else {
        4
    };
    let first = seq![height as u64];
    assert(shape.drop_last() == first);
    assert(shape.last() == width);
    assert(first.drop_last() == Seq::<u64>::empty());
    assert(first.last() == height);
    assert(shape_elements(Seq::<u64>::empty()) == 1);
    assert(nonzero_axes_product(Seq::<u64>::empty()) == 1);
    assert(shape_elements(first) == height);
    assert(nonzero_axes_product(first) == height);
    assert(shape_elements(shape) == height * width);
    assert(nonzero_axes_product(shape) == height * width);
    assert(height * width * size == size * width * height) by (nonlinear_arith);
    assert(height * width != 0) by (nonlinear_arith)
        requires
            width > 0,
            height > 0,
    ;
}

/// What decompression returns for the codec's outcome `decoded` when
/// `expected_byte_size` bytes are expected: the decoded bytes if there are
/// that many, else an invalid-data error that reports the size mismatch or the
/// codec's failure.
pub fn decompression_result(
    decoded: Result<Vec<u8>, Jpeg2000CodecError>,
    expected_byte_size: usize,
) -> (r: Result<Vec<u8>, Error>)
    ensures
        match decoded {
            Ok(bytes) => if bytes.len() == expected_byte_size {
                r matches Ok(v) && v@ == bytes@
            } else {
                r matches Err(Error::Invalid(m)) && m@ == size_mismatch_text(
                    expected_byte_size as nat,
                    bytes.len() as nat,
                )
            },
            Err(e) => r matches Err(Error::Invalid(m)) && codec_failure_text(
                m@,
                "JPEG 2000 decompression failed: "@,
                &e,
            ),
        },
{
    match decoded {
        Ok(bytes) => {
            if bytes.len() != expected_byte_size {
                Err(size_mismatch(expected_byte_size, bytes.len()))
            } else {
                Ok(bytes)
            }
        },
        Err(e) => Err(codec_failure("JPEG 2000 decompression failed: ", e)),
    }
}

/// The error for decoded data of `got` bytes where `expected` were expected.
fn size_mismatch(expected: usize, got: usize) -> (error: Error)
    ensures
        error matches Error::Invalid(m) && m@ == size_mismatch_text(expected as nat, got as nat),
{
    let mut message = String::from_str("Decompressed size mismatch: expected ");
    append_decimal(&mut message, expected);
    message.append(", got ");
    append_decimal(&mut message, got);
    Error::Invalid(message)
}

/// Every prefix of a shape has a positive product of non-zero axes, no larger
/// than that of the whole shape.
proof fn lemma_nonzero_axes_product_prefix(shape: Seq<u64>, k: int)
    requires
        0 <= k <= shape.len(),
    ensures
        1 <= nonzero_axes_product(shape.take(k)) <= nonzero_axes_product(shape),
    decreases shape.len(),
{
    if k == shape.len() {
        assert(shape.take(k) == shape);
        lemma_nonzero_axes_product_positive(shape);
    } else {
        let rest = shape.drop_last();
        lemma_nonzero_axes_product_prefix(rest, k);
        assert(rest.take(k) == shape.take(k));
        lemma_nonzero_axes_product_positive(rest);
        let f: int = if shape.last() == 0 {
            1
        } else {
            shape.last() as int
        };
        let a = nonzero_axes_product(rest);
        assert(a <= a * f) by (nonlinear_arith)
            requires
                a >= 1,
                f >= 1,
        ;
    }
}

/// The product of non-zero axes is positive, and bounds the number of
/// elements.
proof fn lemma_nonzero_axes_product_positive(shape: Seq<u64>)
    ensures
        nonzero_axes_product(shape) >= 1,
        0 <= shape_elements(shape) <= nonzero_axes_product(shape),
    decreases shape.len(),
{
    if shape.len() > 0 {
        let rest = shape.drop_last();
        lemma_nonzero_axes_product_positive(rest);
        let a = nonzero_axes_product(rest);
        let e = shape_elements(rest);
        let l = shape.last() as int;
        let f: int = if l == 0 {
            1
        } else {
            l
        };
        assert(a * f >= 1 && 0 <= e * l <= a * f) by (nonlinear_arith)
            requires
                a >= 1,
                0 <= e <= a,
                l >= 0,
                f >= 1,
                l == 0 || f == l,
        ;
    }
}

/// Whether the decoder can allocate the array that the header with sample
/// type `t` and `shape` announces.
fn header_fits_allocation(t: &SampleType, shape: &Vec<u64>) -> (fits: bool)
    ensures
        fits == header_allocatable(Some((*t, shape@))),
{
    let size = sample_size_of(t);
    let max: u64 = isize::MAX as u64;
    let mut nonzero: u64 = 1;
    let mut has_zero = false;
    let mut i: usize = 0;
    proof {
        assert(shape@.take(0) =~= Seq::<u64>::empty());
    }
    while i < shape.len()
        invariant
            i <= shape.len(),
            size == sample_size(*t),
            1 <= size <= 8,
            max == isize::MAX,
            nonzero == nonzero_axes_product(shape@.take(i as int)),
            1 <= nonzero <= max,
            shape_elements(shape@.take(i as int)) == if has_zero {
                0
            } else {
                nonzero as int
            },
        decreases shape.len() - i,
    {
        let axis = shape[i];
        proof {
            assert(shape@.take(i + 1).drop_last() == shape@.take(i as int));
            assert(shape@.take(i + 1).last() == axis);
        }
        if axis == 0 {
            has_zero = true;
        } else {
            if nonzero > max / axis {
                proof {
                    let p = nonzero as int * axis as int;
                    assert(p > max) by (nonlinear_arith)
                        requires
                            nonzero > max / axis,
                            axis > 0,
                            p == nonzero * axis,
                    ;
                    lemma_nonzero_axes_product_prefix(shape@, i + 1);
                    lemma_nonzero_axes_product_positive(shape@);
                    let whole = nonzero_axes_product(shape@);
                    assert(whole * size > max) by (nonlinear_arith)
                        requires
                            whole >= p,
                            p > max,
                            size >= 1,
                    ;
                }
                return false;
            }
            proof {
                assert(nonzero * axis <= max) by (nonlinear_arith)
                    requires
                        nonzero <= max / axis,
                        axis > 0,
                ;
                assert(nonzero * axis >= 1) by (nonlinear_arith)
                    requires
                        nonzero >= 1,
                        axis > 0,
                ;
            }
            nonzero = nonzero * axis;
        }
        i = i + 1;
    }
    proof {
        assert(shape@.take(shape.len() as int) == shape@);
    }
    if has_zero {
        true
    } else {
        proof {
            assert(nonzero <= max / size <==> nonzero * size <= max) by (nonlinear_arith)
                requires
                    size >= 1,
                    nonzero >= 1,
            ;
        }
        nonzero <= max / size
    }
}

/// Decompresses JPEG 2000 compressed pixel data.
///
/// Empty data decompresses to empty data. A stream whose header announces an
/// array too large to allocate is refused. Otherwise the stream is decoded,
/// and the decoded bytes are returned if there are exactly
/// `expected_byte_size` of them; a size mismatch and a failure of the codec
/// are reported as invalid data.
pub fn decompress(
    compressed_le: Vec<u8>,
    _rectangle: IntegerBounds,
    expected_byte_size: usize,
    _pedantic: bool,
    _resolution_level: Option<u32>,
) -> (r: Result<Vec<u8>, Error>)
    ensures
        compressed_le.len() == 0 ==> (r matches Ok(v) && v@.len() == 0),
        compressed_le.len() > 0 && !header_allocatable(jpeg2000_header(compressed_le@)) ==> (r matches Err(
            Error::Invalid(m),
        ) && m@ == oversized_stream_text()),
        compressed_le.len() > 0 && header_allocatable(jpeg2000_header(compressed_le@)) ==> match r {
            Ok(v) => {
                &&& v@.len() == expected_byte_size
                &&& jpeg2000_decodes_to(compressed_le@, v@)
                &&& (jpeg2000_header(compressed_le@) matches Some((t, shape)) && header_byte_count(
                    t,
                    shape,
                ) == expected_byte_size)
            },
            Err(Error::Invalid(m)) => {
                ||| (jpeg2000_header(compressed_le@) matches Some((t, shape)) && header_byte_count(
                    t,
                    shape,
                ) != expected_byte_size && m@ == size_mismatch_text(
                    expected_byte_size as nat,
                    header_byte_count(t, shape) as nat,
                ))
                ||| (jpeg2000_decode_fails(compressed_le@) && exists|c: Jpeg2000CodecError|
                    codec_failure_text(m@, "JPEG 2000 decompression failed: "@, &c))
            },
        },
{
    if compressed_le.is_empty() {
        return Ok(Vec::new());
    }
    match read_jpeg2000_header(compressed_le.as_slice()) {
        Some((t, shape)) => {
            if !header_fits_allocation(&t, &shape) {
                return Err(
                    Error::Invalid(
                        String::from_str(
                            "JPEG 2000 decompression failed: the stream announces more samples than can be allocated",
                        ),
                    ),
                );
            }
        },
        None => {},
    }
    let decoded = jpeg2000_decode(compressed_le.as_slice());
    decompression_result(decoded, expected_byte_size)
}

} // verus!
