//! The codecs: what a buffer becomes under each encoding, and how long that
//! is.
//!
//! The compressors themselves are outside code. What the zlib encoder does
//! with a buffer is known here by name (`zlib_stream`); of the Brotli
//! encoder nothing is known beforehand. Everything around the two calls is
//! verified.

use std::io::Write;
use vstd::prelude::*;
use crate::encoding::Encoding;

verus! {

/// Size of the buffer the Brotli writer collects its output in.
pub const BROTLI_BUFFER_SIZE: usize = 4096;

/// The highest Brotli quality.
pub const BROTLI_QUALITY: u32 = 11;

/// Base-two logarithm of the Brotli sliding window.
pub const BROTLI_WINDOW_BITS: u32 = 22;

/// `std::io::Error`, carried through as an opaque value.
#[verifier::external_type_specification]
#[verifier::external_body]
pub struct ExIoError(std::io::Error);

/// What becomes of `input` in flate2's `ZlibEncoder`, made with
/// `Compression::best()` over an empty vector, when `input` goes through
/// `write_all` and the encoder is finished: the bytes then written, or
/// `None` where the encoder reports a failure.
pub uninterp spec fn zlib_stream(input: Seq<u8>) -> Option<Seq<u8>>;

/// Runs `input` through `flate2::write::ZlibEncoder` (`new` with
/// `Compression::best()`, `write_all`, `finish`) into an empty vector.
///
/// Trusted: the encoder keeps no state between runs and works on its input
/// alone, in integers, without clock or chance. So whether it succeeds, and
/// what it hands back when it does, is a function of `input`, named
/// `zlib_stream`.
#[verifier::external_body]
fn zlib_encode(input: &[u8]) -> (outcome: Result<Vec<u8>, std::io::Error>)
    ensures
        outcome matches Ok(stream) ==> zlib_stream(input@) == Some(stream@),
        outcome is Err ==> zlib_stream(input@) is None,
{
    let mut encoder = flate2::write::ZlibEncoder::new(Vec::new(), flate2::Compression::best());
    encoder.write_all(input)?;
    encoder.finish()
}

/// Runs `input` through `brotli::CompressorWriter` (`new`, `write_all`,
/// `into_inner`) into an empty vector.
///
/// Trusted: the call returns. Nothing is claimed of what it returns: the
/// encoder weighs its choices in floating point, through logarithms whose
/// last digit the platform decides, so that its output has no name here.
/// `into_inner` reports no failure of its own. A writer whose `write_all`
/// failed is set aside without being dropped, because dropping it tries to
/// finish the stream and panics if that fails as well. The settings are
/// kept within the ranges the encoder documents.
#[verifier::external_body]
fn brotli_encode(input: &[u8], buffer_size: usize, quality: u32, window_bits: u32) -> (outcome:
    Result<Vec<u8>, std::io::Error>)
    requires
        quality <= 11,
        10 <= window_bits <= 24,
{
    let mut writer = brotli::CompressorWriter::new(Vec::new(), buffer_size, quality, window_bits);
    match writer.write_all(input) {
        Ok(()) => Ok(writer.into_inner()),
        Err(failure) => {
            std::mem::forget(writer);
            Err(failure)
        },
    }
}

/// A codec that could not complete, and which one it was.
#[derive(Debug)]
pub struct CodecError {
    /// The encoding that was being produced.
    pub encoding: Encoding,
    /// What the codec reported.
    pub source: std::io::Error,
}

/// One encoding and the number of bytes a buffer takes under it.
#[derive(Clone, Copy, Debug, PartialEq, Eq, Structural)]
pub struct SizeMeasurement {
    pub encoding: Encoding,
    pub size: usize,
}

/// What is known of a measurement before it is taken.
pub enum Forecast {
    /// Measuring succeeds and gives this size.
    Size(nat),
    /// Measuring fails.
    Failure,
    /// Neither success nor the size is known beforehand.
    Open,
}

/// What is known beforehand of measuring `buffer` under `encoding`. `Raw`
/// gives the length of the buffer. `Gzip` gives the length of the zlib
/// stream, or fails where the encoder does. `Brotli` is open.
pub open spec fn forecast(buffer: Seq<u8>, encoding: Encoding) -> Forecast {
    match encoding {
        Encoding::Raw => Forecast::Size(buffer.len()),
        Encoding::Gzip => match zlib_stream(buffer) {
            Some(stream) => Forecast::Size(stream.len()),
            None => Forecast::Failure,
        },
        Encoding::Brotli => Forecast::Open,
    }
}

/// Whether an outcome of measuring, a size or `None` for a failure, agrees
/// with what was known beforehand.
pub open spec fn agrees(known: Forecast, size: Option<nat>) -> bool {
    match known {
        Forecast::Size(n) => size == Some(n),
        Forecast::Failure => size is None,
        Forecast::Open => true,
    }
}

/// The size an outcome of `measure` holds, `None` for a failure.
pub open spec fn size_in(outcome: Result<usize, CodecError>) -> Option<nat> {
    match outcome {
        Ok(size) => Some(size as nat),
        Err(_) => None,
    }
}

/// Whether `m` can be the measurement of `buffer` under `encoding`.
pub open spec fn measures(m: SizeMeasurement, buffer: Seq<u8>, encoding: Encoding) -> bool {
    m.encoding == encoding && agrees(forecast(buffer, encoding), Some(m.size as nat))
}

/// Marks what a codec handed back with the encoding it was asked for: a
/// stream passes through, a failure becomes a `CodecError`.
pub fn tag_outcome(encoding: Encoding, outcome: Result<Vec<u8>, std::io::Error>) -> (tagged: Result<
    Vec<u8>,
    CodecError,
>)
    ensures
        tagged == match outcome {
            Ok(stream) => Ok::<Vec<u8>, CodecError>(stream),
            Err(source) => Err::<Vec<u8>, CodecError>(CodecError { encoding, source }),
        },
{
    match outcome {
        Ok(stream) => Ok(stream),
        Err(source) => Err(CodecError { encoding, source }),
    }
}

/// Compresses `input` to a Brotli stream at the highest quality, in one pass.
///
/// What the encoder gives is handed on as it is; a failure names `Brotli`.
pub fn brotli(input: &[u8]) -> (outcome: Result<Vec<u8>, CodecError>)
    ensures
        outcome matches Err(e) ==> e.encoding == Encoding::Brotli,
{
    tag_outcome(
        Encoding::Brotli,
        brotli_encode(input, BROTLI_BUFFER_SIZE, BROTLI_QUALITY, BROTLI_WINDOW_BITS),
    )
}

/// Compresses `input` to a zlib stream at the highest level, in one pass.
///
/// Succeeds exactly where the encoder does, with the stream it writes; a
/// failure names `Gzip`.
pub fn gzip(input: &[u8]) -> (outcome: Result<Vec<u8>, CodecError>)
    ensures
        outcome is Ok <==> zlib_stream(input@) is Some,
        outcome matches Ok(stream) ==> zlib_stream(input@) == Some(stream@),
        outcome matches Err(e) ==> e.encoding == Encoding::Gzip,
{
    tag_outcome(Encoding::Gzip, zlib_encode(input))
}

/// The length of an encoded stream, or the failure to produce one, passed
/// on as it is.
pub fn stream_len(outcome: Result<Vec<u8>, CodecError>) -> (size: Result<usize, CodecError>)
    ensures
        match outcome {
            Ok(stream) => size matches Ok(n) && n == stream@.len(),
            Err(e) => size == Err::<usize, CodecError>(e),
        },
{
    match outcome {
        Ok(stream) => Ok(stream.len()),
        Err(e) => Err(e),
    }
}

/// The number of bytes `buffer` takes under `encoding`.
///
/// `Raw` always succeeds and gives the length of `buffer`. `Gzip` succeeds
/// exactly where the zlib encoder does, and gives the length of its stream.
/// `Brotli` gives the length of whatever stream its encoder hands back. A
/// failure names the encoding. The buffer is read, never changed.
pub fn measure(buffer: &[u8], encoding: Encoding) -> (outcome: Result<usize, CodecError>)
    ensures
        agrees(forecast(buffer@, encoding), size_in(outcome)),
        outcome matches Err(e) ==> e.encoding == encoding,
{
    match encoding {
        Encoding::Raw => Ok(buffer.len()),
        Encoding::Gzip => stream_len(gzip(buffer)),
        Encoding::Brotli => stream_len(brotli(buffer)),
    }
}

/// Pairs the size of a measurement, or its failure, with the encoding it
/// was taken under.
pub fn size_measured(k: Encoding, outcome: Result<usize, CodecError>) -> (measured: Result<
    SizeMeasurement,
    CodecError,
>)
    ensures
        measured == match outcome {
            Ok(size) => Ok::<SizeMeasurement, CodecError>(SizeMeasurement { encoding: k, size }),
            Err(e) => Err::<SizeMeasurement, CodecError>(e),
        },
{
    match outcome {
        Ok(size) => Ok(SizeMeasurement { encoding: k, size }),
        Err(e) => Err(e),
    }
}

/// Measures `x` under the encoding `k` and pairs the size with `k`.
///
/// Succeeds and fails as `measure` does, with the same size.
pub fn get_sizes(x: Vec<u8>, k: Encoding) -> (measured: Result<SizeMeasurement, CodecError>)
    ensures
        agrees(
            forecast(x@, k),
            match measured {
                Ok(m) => Some(m.size as nat),
                Err(_) => None,
            },
        ),
        measured matches Ok(m) ==> m.encoding == k,
        measured matches Err(e) ==> e.encoding == k,
{
    size_measured(k, measure(x.as_slice(), k))
}

/// Measuring is repeatable wherever the outcome is known beforehand, as it
/// is under `Raw` and `Gzip`: two runs on one buffer under one encoding
/// either both fail or both give the same size.
pub proof fn lemma_measure_repeatable(
    buffer: Seq<u8>,
    encoding: Encoding,
    first: Option<nat>,
    second: Option<nat>,
)
    requires
        encoding != Encoding::Brotli,
        agrees(forecast(buffer, encoding), first),
        agrees(forecast(buffer, encoding), second),
    ensures
        first == second,
{
}

/// Under `Raw` the size is the length of the buffer, whatever the buffer.
pub proof fn lemma_raw_size(buffer: Seq<u8>, size: Option<nat>)
    requires
        agrees(forecast(buffer, Encoding::Raw), size),
    ensures
        size == Some(buffer.len()),
{
}

} // verus!
