use fast_stream::bytes::FromBytes;
use fast_stream::bytes::Bytes;
use fast_stream::cpu::Cpu;
use fast_stream::endian::Endian;
use fast_stream::error::StreamError;
use fast_stream::stream::{Data, Stream};

#[test]
fn u16_little_endian_layout() {
    let mut s = Stream::empty();
    s.write_value(0x1234u16).unwrap();
    assert_eq!(s.copy_data().unwrap(), vec![0x34, 0x12]);
    s.seek(0).unwrap();
    let back: u16 = s.read_value().unwrap();
    assert_eq!(back, 0x1234);
}

#[test]
fn u16_big_endian_layout() {
    let mut s = Stream::empty();
    s.with_big_endian();
    s.write_value(0x1234u16).unwrap();
    assert_eq!(s.copy_data().unwrap(), vec![0x12, 0x34]);
    s.seek(0).unwrap();
    let back: u16 = s.read_value().unwrap();
    assert_eq!(back, 0x1234);
}

#[test]
fn u32_round_trip_both_orders() {
    for endian in [Endian::Little, Endian::Big] {
        let mut s = Stream::empty();
        s.with_endian(endian);
        s.write_value(0xDEADBEEFu32).unwrap();
        assert_eq!(s.length(), 4);
        s.seek(0).unwrap();
        let back: u32 = s.read_value().unwrap();
        assert_eq!(back, 0xDEADBEEF);
    }
}

#[test]
fn u32_big_endian_layout() {
    let mut s = Stream::empty();
    s.with_big_endian();
    s.write_value(0x01020304u32).unwrap();
    assert_eq!(s.copy_data().unwrap(), vec![1, 2, 3, 4]);
}

#[test]
fn u64_and_u8_round_trip() {
    for endian in [Endian::Little, Endian::Big] {
        let mut s = Stream::empty();
        s.with_endian(endian);
        s.write_value(0x0123456789ABCDEFu64).unwrap();
        s.write_value(0x7Fu8).unwrap();
        s.seek(0).unwrap();
        let a: u64 = s.read_value().unwrap();
        let b: u8 = s.read_value().unwrap();
        assert_eq!(a, 0x0123456789ABCDEF);
        assert_eq!(b, 0x7F);
    }
}

#[test]
fn signed_values_round_trip() {
    for endian in [Endian::Little, Endian::Big] {
        let mut s = Stream::empty();
        s.with_endian(endian);
        s.write_value(-2i8).unwrap();
        s.write_value(-300i16).unwrap();
        s.write_value(-70000i32).unwrap();
        s.write_value(-5000000000i64).unwrap();
        s.seek(0).unwrap();
        let a: i8 = s.read_value().unwrap();
        let b: i16 = s.read_value().unwrap();
        let c: i32 = s.read_value().unwrap();
        let d: i64 = s.read_value().unwrap();
        assert_eq!(a, -2);
        assert_eq!(b, -300);
        assert_eq!(c, -70000);
        assert_eq!(d, -5000000000);
    }
}

#[test]
fn i16_little_endian_layout() {
    let mut s = Stream::empty();
    s.write_value(-2i16).unwrap();
    assert_eq!(s.copy_data().unwrap(), vec![0xFE, 0xFF]);
}

#[test]
fn bool_is_one_byte() {
    let mut s = Stream::empty();
    s.write_value(true).unwrap();
    s.write_value(false).unwrap();
    assert_eq!(s.copy_data().unwrap(), vec![1, 0]);
    s.seek(0).unwrap();
    let t: bool = s.read_value().unwrap();
    let f: bool = s.read_value().unwrap();
    assert!(t);
    assert!(!f);
}

#[test]
fn bool_decodes_only_one_as_true() {
    let mut s = Stream::new(Data::from_vec(vec![2]));
    let v: bool = s.read_value().unwrap();
    assert!(!v);
}

#[test]
fn string_is_null_terminated_utf8() {
    let mut s = Stream::empty();
    s.write_value(String::from("abc")).unwrap();
    assert_eq!(s.copy_data().unwrap(), vec![97, 98, 99, 0]);
    s.seek(0).unwrap();
    let back: String = s.read_value().unwrap();
    assert_eq!(back, "abc");
}

#[test]
fn string_multibyte_round_trip() {
    let mut s = Stream::empty();
    s.write_value(String::from("héllo✓")).unwrap();
    s.seek(0).unwrap();
    let back: String = s.read_value().unwrap();
    assert_eq!(back, "héllo✓");
}

#[test]
fn string_without_terminator_is_unexpected_end() {
    let mut s = Stream::new(Data::from_vec(vec![97, 98, 99]));
    let r: Result<String, StreamError> = s.read_value();
    assert_eq!(r, Err(StreamError::UnexpectedEnd));
}

#[test]
fn string_with_invalid_utf8_is_invalid_data() {
    let mut s = Stream::new(Data::from_vec(vec![0xFF, 0xFE, 0]));
    let r: Result<String, StreamError> = s.read_value();
    assert_eq!(r, Err(StreamError::InvalidData));
}

#[test]
fn short_input_is_unexpected_end() {
    let mut s = Stream::new(Data::from_vec(vec![1, 2]));
    let r: Result<u32, StreamError> = s.read_value();
    assert_eq!(r, Err(StreamError::UnexpectedEnd));
}

#[test]
fn vec_writes_raw_bytes() {
    let mut s = Stream::empty();
    s.write_value(vec![10u8, 20, 30]).unwrap();
    assert_eq!(s.copy_data().unwrap(), vec![10, 20, 30]);
}

#[test]
fn endianness_change_affects_only_later_values() {
    let mut s = Stream::empty();
    s.write_value(0x0102u16).unwrap();
    s.with_big_endian();
    s.write_value(0x0102u16).unwrap();
    assert_eq!(s.copy_data().unwrap(), vec![2, 1, 1, 2]);
}

#[test]
fn read_value_args_passes_arguments() {
    let mut s = Stream::new(Data::from_vec(vec![0x2A, 0]));
    let v: u8 = s.read_value_args(&Some(0u64)).unwrap();
    assert_eq!(v, 0x2A);
    let mut s = Stream::empty();
    s.write_value_args(0x2Au8, &Some(0u64)).unwrap();
    assert_eq!(s.copy_data().unwrap(), vec![0x2A]);
}

#[test]
fn cpu_encodes_as_its_discriminant() {
    let mut s = Stream::empty();
    s.write_value(Cpu::Arm).unwrap();
    assert_eq!(s.copy_data().unwrap(), vec![2, 0, 0, 0]);
    s.seek(0).unwrap();
    let back: Cpu = s.read_value().unwrap();
    assert_eq!(back, Cpu::Arm);
}

#[test]
fn cpu_unknown_discriminant_is_invalid_data() {
    let mut s = Stream::new(Data::from_vec(vec![3, 0, 0, 0]));
    let r: Result<Cpu, StreamError> = s.read_value();
    assert_eq!(r, Err(StreamError::InvalidData));
}

#[test]
fn cpu_num_conversions() {
    assert_eq!(Cpu::X84.to_num(), 1);
    assert_eq!(Cpu::Arm.to_num(), 2);
    assert_eq!(Cpu::from_num(1), Some(Cpu::X84));
    assert_eq!(Cpu::from_num(2), Some(Cpu::Arm));
    assert_eq!(Cpu::from_num(7), None);
}

#[test]
fn from_bytes_reads_fixed_arrays() {
    let a = <u16 as FromBytes<2>>::from_be_bytes([0x12, 0x34]);
    assert_eq!(a, 0x1234);
    let b = <u16 as FromBytes<2>>::from_le_bytes([0x12, 0x34]);
    assert_eq!(b, 0x3412);
    let c = <u32 as FromBytes<4>>::from_be_bytes([0, 0, 1, 2]);
    assert_eq!(c, 258);
    let d = <u32 as FromBytes<4>>::from_le_bytes([2, 1, 0, 0]);
    assert_eq!(d, 258);
    let e = <u64 as FromBytes<8>>::from_le_bytes([1, 0, 0, 0, 0, 0, 0, 0]);
    assert_eq!(e, 1);
    let f = <u64 as FromBytes<8>>::from_be_bytes([1, 0, 0, 0, 0, 0, 0, 0]);
    assert_eq!(f, 1u64 << 56);
}

#[test]
fn read_exact_size_exact_or_error() {
    let mut s = Stream::new(Data::from_vec(vec![1, 2, 3]));
    let v = s.read_exact_size(2).unwrap();
    assert_eq!(v, vec![1, 2]);
    assert_eq!(s.read_exact_size(2), Err(StreamError::UnexpectedEnd));
    let v = s.read_exact_size(1).unwrap();
    assert_eq!(v, vec![3]);
}

#[test]
fn four_byte_array_reads_raw() {
    let mut s = Stream::new(Data::from_vec(vec![0x50, 0x4B, 0x03, 0x04, 9]));
    let magic: [u8; 4] = s.read_value().unwrap();
    assert_eq!(magic, [0x50, 0x4B, 0x03, 0x04]);
    let r: Result<[u8; 4], StreamError> = s.read_value();
    assert_eq!(r, Err(StreamError::UnexpectedEnd));
}
