use fast_stream::length::Len;
use fast_stream::endian::Endian;
use fast_stream::error::StreamError;
use fast_stream::pin::Pin;
use fast_stream::stream::{Data, Stream};

#[test]
fn test_merge() {
    let mut data = Stream::new(Data::from_vec(vec![1, 2, 3]));
    data.seek_end().unwrap();
    let writer = Stream::new(Data::from_vec(vec![0, 0, 0]));
    data.merge(writer).unwrap();
    assert_eq!(data.length(), 6);
    assert_eq!(data.take_data().unwrap(), vec![1, 2, 3, 0, 0, 0]);
}

#[test]
fn test_write_vec() {
    let mut data = Stream::new(Data::from_vec(vec![1, 2, 3]));
    data.seek_end().unwrap();
    data.write_value(vec![0, 0, 0]).unwrap();
    assert_eq!(data.take_data().unwrap(), vec![1, 2, 3, 0, 0, 0]);
    let mut data = Stream::new(Data::from_vec(vec![1, 2, 3]));
    data.seek(0).unwrap();
    data.write_value(vec![0, 0, 0]).unwrap();
    assert_eq!(data.take_data().unwrap(), vec![0, 0, 0]);
    let mut data = Stream::new(Data::from_vec(vec![1, 2, 3]));
    data.seek(1).unwrap();
    data.write_value(vec![0, 0, 0]).unwrap();
    assert_eq!(data.take_data().unwrap(), vec![1, 0, 0, 0]);
    let mut data = Stream::new(Data::from_vec(vec![1, 2, 3]));
    data.seek(1).unwrap();
    data.write_value(vec![0]).unwrap();
    assert_eq!(data.take_data().unwrap(), vec![1, 0, 3]);
}

#[test]
fn write_at_end_grows_length() {
    let mut s = Stream::new(Data::from_vec(vec![1, 2, 3]));
    s.seek_end().unwrap();
    s.write(&[0, 0, 0]).unwrap();
    assert_eq!(s.length(), 6);
    assert_eq!(s.take_data().unwrap(), vec![1, 2, 3, 0, 0, 0]);
}

#[test]
fn write_inside_grows_by_overflow() {
    let mut s = Stream::new(Data::from_vec(vec![1, 2, 3]));
    s.seek(1).unwrap();
    s.write(&[0, 0, 0]).unwrap();
    assert_eq!(s.length(), 4);
    assert_eq!(s.take_data().unwrap(), vec![1, 0, 0, 0]);
}

#[test]
fn length_is_max_of_old_and_write_end() {
    // the length invariant, step by step over writes at varied positions
    let mut s = Stream::empty();
    s.write(&[9, 9, 9, 9]).unwrap();
    assert_eq!(s.length(), 4);
    s.seek(1).unwrap();
    s.write(&[8]).unwrap();
    assert_eq!(s.length(), 4);
    s.seek(3).unwrap();
    s.write(&[7, 7]).unwrap();
    assert_eq!(s.length(), 5);
    assert_eq!(s.take_data().unwrap(), vec![9, 8, 9, 7, 7]);
}

#[test]
fn pin_unpin_restores_position() {
    let mut s = Stream::new(Data::from_vec(vec![1, 2, 3, 4]));
    s.seek(2).unwrap();
    let saved = s.pin().unwrap();
    assert_eq!(saved, 2);
    s.seek(0).unwrap();
    let _ = s.read(4);
    let back = s.un_pin().unwrap();
    assert_eq!(back, 2);
    assert_eq!(s.position().unwrap(), 2);
}

#[test]
fn nested_pins_unwind_in_order() {
    let mut s = Stream::new(Data::from_vec(vec![1, 2, 3, 4, 5]));
    s.seek(1).unwrap();
    s.pin().unwrap();
    s.seek(3).unwrap();
    s.pin().unwrap();
    s.seek(5).unwrap();
    assert_eq!(s.un_pin().unwrap(), 3);
    assert_eq!(s.un_pin().unwrap(), 1);
    assert_eq!(s.position().unwrap(), 1);
}

#[test]
fn unpin_empty_stack_is_not_found() {
    let mut s = Stream::empty();
    assert_eq!(s.un_pin(), Err(StreamError::NotFound));
}

#[test]
fn un_pin_size_skips_redundant_seek() {
    let mut s = Stream::new(Data::from_vec(vec![0; 8]));
    s.seek(2).unwrap();
    s.pin().unwrap();
    s.write(&[1, 1, 1]).unwrap();
    // wrote exactly 3 bytes past the pin: cursor stays put
    s.un_pin_size(3).unwrap();
    assert_eq!(s.position().unwrap(), 5);
    // cursor elsewhere: it is put at pin + size
    s.seek(1).unwrap();
    s.pin().unwrap();
    s.seek(7).unwrap();
    s.un_pin_size(2).unwrap();
    assert_eq!(s.position().unwrap(), 3);
}

#[test]
fn clear_resets_everything() {
    let mut s = Stream::new(Data::from_vec(vec![1, 2, 3]));
    s.seek(2).unwrap();
    s.pin().unwrap();
    s.clear().unwrap();
    assert_eq!(s.length(), 0);
    assert!(s.is_empty());
    assert_eq!(s.position().unwrap(), 0);
    assert_eq!(s.un_pin(), Err(StreamError::NotFound));
}

#[test]
fn clone_stream_is_independent() {
    let mut s = Stream::new(Data::from_vec(vec![1, 2, 3]));
    s.with_big_endian();
    s.seek(2).unwrap();
    let mut copy = s.clone_stream().unwrap();
    assert_eq!(copy.endian, Endian::Big);
    assert_eq!(copy.length(), 3);
    assert_eq!(copy.position().unwrap(), 0);
    // the source keeps its cursor and bytes
    assert_eq!(s.position().unwrap(), 2);
    copy.seek_end().unwrap();
    copy.write(&[9]).unwrap();
    assert_eq!(copy.length(), 4);
    assert_eq!(s.length(), 3);
}

#[test]
fn copy_size_reads_a_region() {
    let mut s = Stream::new(Data::from_vec(vec![1, 2, 3, 4, 5]));
    s.seek(1).unwrap();
    let mut region = s.copy_size(3).unwrap();
    assert_eq!(region.take_data().unwrap(), vec![2, 3, 4]);
    assert_eq!(s.position().unwrap(), 4);
}

#[test]
fn copy_size_insufficient_source() {
    let mut s = Stream::new(Data::from_vec(vec![1, 2, 3]));
    s.seek(1).unwrap();
    let r = s.copy_size(5);
    assert!(matches!(r, Err(StreamError::InsufficientSource)));
    assert_eq!(s.position().unwrap(), 1);
}

#[test]
fn copy_size_from_copies_through_write_path() {
    let mut dst = Stream::new(Data::from_vec(vec![9, 9]));
    dst.seek(1).unwrap();
    let mut src = Stream::new(Data::from_vec(vec![1, 2, 3, 4]));
    src.seek(1).unwrap();
    dst.copy_size_from(&mut src, 2).unwrap();
    assert_eq!(dst.length(), 3);
    assert_eq!(dst.take_data().unwrap(), vec![9, 2, 3]);
    assert_eq!(src.position().unwrap(), 3);
}

#[test]
fn copy_size_from_insufficient() {
    let mut dst = Stream::empty();
    let mut src = Stream::new(Data::from_vec(vec![1]));
    assert_eq!(
        dst.copy_size_from(&mut src, 2),
        Err(StreamError::InsufficientSource)
    );
    assert_eq!(dst.length(), 0);
}

#[test]
fn copy_empty_keeps_backend_kind_and_endian() {
    let mut s = Stream::new(Data::from_vec(vec![1, 2, 3]));
    s.with_big_endian();
    let scratch = s.copy_empty().unwrap();
    assert_eq!(scratch.endian, Endian::Big);
    assert_eq!(scratch.length(), 0);
    let scratch = s.copy_empty_with_capacity(64).unwrap();
    assert_eq!(scratch.endian, Endian::Big);
    assert_eq!(scratch.length(), 0);
    let scratch = s.copy_empty_same_capacity().unwrap();
    assert_eq!(scratch.endian, Endian::Big);
    assert_eq!(scratch.length(), 0);
}

#[test]
fn take_data_leaves_an_empty_stream() {
    let mut s = Stream::new(Data::from_vec(vec![5, 6, 7]));
    let out = s.take_data().unwrap();
    assert_eq!(out, vec![5, 6, 7]);
    assert_eq!(s.length(), 0);
    assert!(s.is_empty());
}

#[test]
fn copy_data_does_not_disturb() {
    let mut s = Stream::new(Data::from_vec(vec![5, 6, 7]));
    s.seek(2).unwrap();
    let out = s.copy_data().unwrap();
    assert_eq!(out, vec![5, 6, 7]);
    assert_eq!(s.position().unwrap(), 2);
    assert_eq!(s.length(), 3);
}

#[test]
fn length_trait_measures_without_moving() {
    let mut s = Stream::new(Data::from_vec(vec![1, 2, 3, 4]));
    s.seek(2).unwrap();
    let len = Len::length(&mut s).unwrap();
    assert_eq!(len, 4);
    assert_eq!(s.position().unwrap(), 2);
}

#[test]
fn restore_rewinds() {
    let mut s = Stream::new(Data::from_vec(vec![1, 2, 3]));
    s.seek(2).unwrap();
    s.restore().unwrap();
    assert_eq!(s.position().unwrap(), 0);
    s.set_position(1).unwrap();
    assert_eq!(s.position().unwrap(), 1);
}

#[test]
fn capacity_and_empty_start_blank() {
    let s = Stream::empty();
    assert_eq!(s.length(), 0);
    let s = Stream::capacity(128);
    assert_eq!(s.length(), 0);
    assert_eq!(s.endian, Endian::Little);
}
