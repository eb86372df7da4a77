use std::io::Read;

use sizr::compress::{
    brotli, get_sizes, gzip, measure, size_measured, stream_len, tag_outcome, CodecError,
    SizeMeasurement,
};
use sizr::encoding::Encoding;

fn inflate(stream: &[u8]) -> Vec<u8> {
    let mut plain = Vec::new();
    flate2::read::ZlibDecoder::new(stream).read_to_end(&mut plain).unwrap();
    plain
}

fn unbrotli(stream: &[u8]) -> Vec<u8> {
    let mut plain = Vec::new();
    brotli::Decompressor::new(stream, 4096).read_to_end(&mut plain).unwrap();
    plain
}

fn sample() -> Vec<u8> {
    let mut text = Vec::new();
    for i in 0..2000u32 {
        text.extend_from_slice(format!("line {} of the sample\n", i % 37).as_bytes());
    }
    text
}

#[test]
fn raw_size_is_the_buffer_length() {
    assert_eq!(measure(&[], Encoding::Raw).unwrap(), 0);
    assert_eq!(measure(&[7], Encoding::Raw).unwrap(), 1);
    assert_eq!(measure(&sample(), Encoding::Raw).unwrap(), sample().len());
}

#[test]
fn the_empty_buffer_has_a_size_under_every_codec() {
    let gz = measure(&[], Encoding::Gzip).unwrap();
    let br = measure(&[], Encoding::Brotli).unwrap();
    assert!(gz > 0);
    assert!(br > 0);
}

#[test]
fn gzip_writes_a_zlib_stream_of_the_input() {
    let input = sample();
    let stream = gzip(&input).unwrap();
    assert_ne!(stream, input);
    assert!(stream.len() < input.len());
    assert_eq!(inflate(&stream), input);
    assert_eq!(inflate(&gzip(&[]).unwrap()), Vec::<u8>::new());
}

#[test]
fn brotli_writes_a_brotli_stream_of_the_input() {
    let input = sample();
    let stream = brotli(&input).unwrap();
    assert_ne!(stream, input);
    assert!(stream.len() < input.len());
    assert_eq!(unbrotli(&stream), input);
    assert_eq!(unbrotli(&brotli(&[]).unwrap()), Vec::<u8>::new());
}

#[test]
fn measuring_twice_gives_the_same_size() {
    let input = sample();
    for encoding in [Encoding::Raw, Encoding::Gzip, Encoding::Brotli] {
        let first = measure(&input, encoding).unwrap();
        let second = measure(&input, encoding).unwrap();
        assert_eq!(first, second);
    }
    assert_eq!(gzip(&input).unwrap(), gzip(&input).unwrap());
    assert_eq!(brotli(&input).unwrap(), brotli(&input).unwrap());
}

#[test]
fn measure_gives_the_length_of_the_stream() {
    let input = sample();
    assert_eq!(measure(&input, Encoding::Gzip).unwrap(), gzip(&input).unwrap().len());
    assert_eq!(measure(&input, Encoding::Brotli).unwrap(), brotli(&input).unwrap().len());
}

#[test]
fn a_repetitive_buffer_shrinks_a_lot() {
    let input = vec![b'a'; 10_000];
    let raw = measure(&input, Encoding::Raw).unwrap();
    let gz = measure(&input, Encoding::Gzip).unwrap();
    let br = measure(&input, Encoding::Brotli).unwrap();
    assert_eq!(raw, 10_000);
    assert!(gz < 100);
    assert!(br < 100);
    assert!(br <= gz);
}

#[test]
fn get_sizes_pairs_the_size_with_its_encoding() {
    let input = sample();
    assert_eq!(
        get_sizes(input.clone(), Encoding::Raw).unwrap(),
        SizeMeasurement { encoding: Encoding::Raw, size: input.len() }
    );
    assert_eq!(
        get_sizes(input.clone(), Encoding::Gzip).unwrap(),
        SizeMeasurement { encoding: Encoding::Gzip, size: gzip(&input).unwrap().len() }
    );
    assert_eq!(
        get_sizes(input.clone(), Encoding::Brotli).unwrap(),
        SizeMeasurement { encoding: Encoding::Brotli, size: brotli(&input).unwrap().len() }
    );
}

#[test]
fn a_stream_passes_through_tagging() {
    let tagged = tag_outcome(Encoding::Gzip, Ok(vec![1, 2, 3]));
    assert_eq!(tagged.unwrap(), vec![1, 2, 3]);
}

#[test]
fn a_failure_is_tagged_with_its_encoding() {
    let failure = std::io::Error::new(std::io::ErrorKind::InvalidData, "Invalid Data");
    let tagged = tag_outcome(Encoding::Brotli, Err(failure));
    let error = tagged.unwrap_err();
    assert_eq!(error.encoding, Encoding::Brotli);
    assert_eq!(error.source.kind(), std::io::ErrorKind::InvalidData);
    assert_eq!(error.source.to_string(), "Invalid Data");
}

#[test]
fn stream_len_counts_the_bytes_of_a_stream() {
    assert_eq!(stream_len(Ok(vec![])).unwrap(), 0);
    assert_eq!(stream_len(Ok(vec![9, 9, 9, 9])).unwrap(), 4);
}

#[test]
fn stream_len_hands_a_failure_on() {
    let failure = CodecError {
        encoding: Encoding::Gzip,
        source: std::io::Error::new(std::io::ErrorKind::WriteZero, "nothing written"),
    };
    let error = stream_len(Err(failure)).unwrap_err();
    assert_eq!(error.encoding, Encoding::Gzip);
    assert_eq!(error.source.kind(), std::io::ErrorKind::WriteZero);
}

#[test]
fn size_measured_pairs_a_size_with_the_encoding() {
    assert_eq!(
        size_measured(Encoding::Brotli, Ok(17)).unwrap(),
        SizeMeasurement { encoding: Encoding::Brotli, size: 17 }
    );
    assert_eq!(
        size_measured(Encoding::Raw, Ok(0)).unwrap(),
        SizeMeasurement { encoding: Encoding::Raw, size: 0 }
    );
}

#[test]
fn size_measured_hands_a_failure_on() {
    let failure = CodecError {
        encoding: Encoding::Brotli,
        source: std::io::Error::new(std::io::ErrorKind::InvalidData, "Invalid Data"),
    };
    let error = size_measured(Encoding::Brotli, Err(failure)).unwrap_err();
    assert_eq!(error.encoding, Encoding::Brotli);
    assert_eq!(error.source.kind(), std::io::ErrorKind::InvalidData);
}

#[test]
fn gzip_succeeds_again_on_the_same_bytes() {
    for input in [Vec::new(), vec![0u8; 1], sample()] {
        let first = gzip(&input).unwrap();
        let second = gzip(&input.clone()).unwrap();
        assert_eq!(first, second);
        assert_eq!(get_sizes(input.clone(), Encoding::Gzip).unwrap().size, first.len());
    }
}
