use fast_stream::crc32::CRC32;
use fast_stream::deflate::{CompressionLevel, Deflate};
use fast_stream::error::StreamError;
use fast_stream::pin::Pin;
use fast_stream::stream::{Data, Stream};

#[test]
fn armed_crc32_sees_every_written_byte() {
    let data = b"123456789";
    let mut s = Stream::empty();
    s.init_crc32();
    s.write(data).unwrap();
    // 0xCBF43926 is the well-known CRC32 check value of "123456789"
    assert_eq!(s.crc32_value(), 0xCBF43926);
}

#[test]
fn crc32_consumed_returns_zero_second_time() {
    let data = b"123456789";
    let mut s = Stream::empty();
    s.init_crc32();
    s.write(data).unwrap();
    assert_eq!(s.crc32_value(), 0xCBF43926);
    assert_eq!(s.crc32_value(), 0);
    // re-arming starts over
    s.init_crc32();
    s.seek(0).unwrap();
    s.write(data).unwrap();
    assert_eq!(s.crc32_value(), 0xCBF43926);
}

#[test]
fn armed_sha1_matches_an_independent_digest() {
    let data = vec![1u8, 2, 3, 4, 5, 6, 7, 8, 9];
    let mut s = Stream::empty();
    s.init_sha();
    s.write(&data).unwrap();
    let ours = s.sha1_value();

    let mut hasher = <sha1::Sha1 as sha1::Digest>::new();
    sha1::Digest::update(&mut hasher, &data);
    let theirs: Vec<u8> = sha1::Digest::finalize(hasher).to_vec();
    assert_eq!(ours, theirs);
}

#[test]
fn armed_sha256_matches_an_independent_digest() {
    let data = b"stream contents";
    let mut s = Stream::empty();
    s.init_sha();
    s.write(data).unwrap();
    let ours = s.sha2_value();

    let mut hasher = <sha2::Sha256 as sha2::Digest>::new();
    sha2::Digest::update(&mut hasher, data);
    let theirs: Vec<u8> = sha2::Digest::finalize(hasher).to_vec();
    assert_eq!(ours, theirs);
}

#[test]
fn sha_values_empty_once_consumed() {
    let mut s = Stream::empty();
    s.init_sha();
    s.write(b"abc").unwrap();
    let first = s.sha1_value();
    assert_eq!(first.len(), 20);
    assert_eq!(s.sha1_value(), Vec::<u8>::new());
    let first = s.sha2_value();
    assert_eq!(first.len(), 32);
    assert_eq!(s.sha2_value(), Vec::<u8>::new());
}

#[test]
fn hash_computer_folds_in_existing_bytes() {
    let data = vec![9u8, 8, 7, 6];
    let mut s = Stream::new(Data::from_vec(data.clone()));
    s.seek(2).unwrap();
    s.init_sha();
    s.hash_computer().unwrap();
    assert_eq!(s.position().unwrap(), 2);
    let ours = s.sha1_value();

    let mut hasher = <sha1::Sha1 as sha1::Digest>::new();
    sha1::Digest::update(&mut hasher, &data);
    let theirs: Vec<u8> = sha1::Digest::finalize(hasher).to_vec();
    assert_eq!(ours, theirs);
}

#[test]
fn one_shot_crc32_of_entire_stream() {
    let mut s = Stream::new(Data::from_vec(b"123456789".to_vec()));
    s.seek(4).unwrap();
    let value = CRC32::crc32_value(&mut s).unwrap();
    assert_eq!(value, 0xCBF43926);
    // armed accumulators are untouched by the one-shot computation
    let mut s = Stream::new(Data::from_vec(b"123456789".to_vec()));
    s.init_crc32();
    s.write(b"xx").unwrap();
    let one_shot = CRC32::crc32_value(&mut s).unwrap();
    let armed = s.crc32_value();
    assert_ne!(one_shot, armed);
}

#[test]
fn compress_then_decompress_restores_content() {
    let data = b"hello hello hello hello hello hello".to_vec();
    let mut s = Stream::new(Data::from_vec(data.clone()));
    let clen = s.compress(&CompressionLevel::DefaultLevel).unwrap();
    assert_eq!(s.length(), clen);
    assert_ne!(s.copy_data().unwrap(), data);
    s.decompress().unwrap();
    assert_eq!(s.length(), data.len() as u64);
    assert_eq!(s.take_data().unwrap(), data);
}

#[test]
fn compress_matches_the_collaborator() {
    let data = b"the quick brown fox jumps over the lazy dog".to_vec();
    let mut s = Stream::new(Data::from_vec(data.clone()));
    s.compress(&CompressionLevel::BestSpeed).unwrap();
    let expected = miniz_oxide::deflate::compress_to_vec(&data, 1);
    assert_eq!(s.take_data().unwrap(), expected);
}

#[test]
fn compress_zlib_matches_the_collaborator() {
    let data = b"zlib zlib zlib zlib".to_vec();
    let mut s = Stream::new(Data::from_vec(data.clone()));
    s.compress_zlib(&CompressionLevel::BestCompression).unwrap();
    let expected = miniz_oxide::deflate::compress_to_vec_zlib(&data, 9);
    assert_eq!(s.take_data().unwrap(), expected);
}

#[test]
fn compress_resets_pins_and_empty_stays_empty() {
    let mut s = Stream::new(Data::from_vec(vec![1, 1, 1, 1]));
    s.pin().unwrap();
    s.compress(&CompressionLevel::DefaultLevel).unwrap();
    assert_eq!(s.un_pin(), Err(StreamError::NotFound));
    let mut s = Stream::empty();
    s.compress(&CompressionLevel::DefaultLevel).unwrap();
    assert_eq!(s.length(), 0);
}

#[test]
fn decompress_garbage_is_invalid_data() {
    let mut s = Stream::new(Data::from_vec(vec![0xFF, 0x00, 0xAB]));
    assert_eq!(s.decompress(), Err(StreamError::InvalidData));
    assert_eq!(s.take_data().unwrap(), vec![0xFF, 0x00, 0xAB]);
}

#[test]
fn is_zip_detects_the_magic() {
    let mut s = Stream::new(Data::from_vec(vec![0x50, 0x4B, 0x03, 0x04, 9, 9]));
    assert_eq!(s.is_zip().unwrap(), true);
    assert_eq!(s.position().unwrap(), 0);
    let mut s = Stream::new(Data::from_vec(vec![0x50, 0x4B, 0x05, 0x06]));
    assert_eq!(s.is_zip().unwrap(), false);
    let mut s = Stream::new(Data::from_vec(vec![0x50, 0x4B]));
    assert_eq!(s.is_zip(), Err(StreamError::UnexpectedEnd));
}

#[test]
fn compression_levels_map_to_numbers() {
    assert_eq!(CompressionLevel::NoCompression.level(), 0);
    assert_eq!(CompressionLevel::BestSpeed.level(), 1);
    assert_eq!(CompressionLevel::DefaultLevel.level(), 6);
    assert_eq!(CompressionLevel::BestCompression.level(), 9);
    assert_eq!(CompressionLevel::UberCompression.level(), 10);
    assert_eq!(CompressionLevel::DefaultCompression.level(), 0);
}
