use fast_stream::align::Align;
use fast_stream::bytes::{Bytes, RangeBound};
use fast_stream::error::StreamError;
use fast_stream::pin::Pin;
use fast_stream::stream::{Data, Stream};

#[test]
fn test_vec_splice() {
    let mut stream = Stream::empty();
    stream.splice(0, vec![1, 2, 3]).unwrap();
    assert_eq!(stream.length(), 3);
    assert_eq!(stream.take_data().unwrap(), vec![1, 2, 3]);
}

#[test]
fn splice_shifts_the_tail() {
    let mut s = Stream::new(Data::from_vec(vec![1, 5, 6]));
    s.splice(1, vec![2, 3, 4]).unwrap();
    assert_eq!(s.length(), 6);
    assert_eq!(s.take_data().unwrap(), vec![1, 2, 3, 4, 5, 6]);
}

#[test]
fn splice_keeps_cursor_and_pins() {
    let mut s = Stream::new(Data::from_vec(vec![1, 2, 3]));
    s.seek(2).unwrap();
    s.pin().unwrap();
    s.splice(0, vec![9]).unwrap();
    assert_eq!(s.position().unwrap(), 2);
    assert_eq!(s.un_pin().unwrap(), 2);
}

#[test]
fn drain_removes_a_range() {
    let mut s = Stream::new(Data::from_vec(vec![1, 2, 3, 4, 5]));
    let removed = s
        .drain(RangeBound::Included(1), RangeBound::Excluded(3))
        .unwrap();
    assert_eq!(removed, vec![2, 3]);
    assert_eq!(s.length(), 3);
    assert_eq!(s.take_data().unwrap(), vec![1, 4, 5]);
}

#[test]
fn drain_unbounded_takes_everything() {
    let mut s = Stream::new(Data::from_vec(vec![1, 2, 3]));
    let removed = s
        .drain(RangeBound::Unbounded, RangeBound::Unbounded)
        .unwrap();
    assert_eq!(removed, vec![1, 2, 3]);
    assert_eq!(s.length(), 0);
}

#[test]
fn drain_included_end() {
    let mut s = Stream::new(Data::from_vec(vec![1, 2, 3, 4]));
    let removed = s
        .drain(RangeBound::Included(0), RangeBound::Included(1))
        .unwrap();
    assert_eq!(removed, vec![1, 2]);
    assert_eq!(s.take_data().unwrap(), vec![3, 4]);
}

#[test]
fn drain_start_after_end_is_invalid() {
    let mut s = Stream::new(Data::from_vec(vec![1, 2, 3]));
    assert_eq!(
        s.drain(RangeBound::Included(2), RangeBound::Excluded(1)),
        Err(StreamError::InvalidData)
    );
    assert_eq!(s.length(), 3);
}

#[test]
fn drain_past_the_end_is_invalid() {
    let mut s = Stream::new(Data::from_vec(vec![1, 2, 3]));
    assert_eq!(
        s.drain(RangeBound::Included(0), RangeBound::Excluded(4)),
        Err(StreamError::InvalidData)
    );
    assert_eq!(s.take_data().unwrap(), vec![1, 2, 3]);
}

#[test]
fn splice_then_drain_restores_the_original() {
    // the splice/drain inverse on concrete values
    let original = vec![10u8, 11, 12, 13];
    let inserted = vec![1u8, 2, 3];
    let mut s = Stream::new(Data::from_vec(original.clone()));
    s.splice(2, inserted.clone()).unwrap();
    let removed = s
        .drain(RangeBound::Included(2), RangeBound::Excluded(2 + inserted.len()))
        .unwrap();
    assert_eq!(removed, inserted);
    assert_eq!(s.length(), original.len() as u64);
    assert_eq!(s.take_data().unwrap(), original);
}

#[test]
fn insert_data_prepends() {
    let mut s = Stream::new(Data::from_vec(vec![4, 5, 6]));
    s.insert_data(&[1, 2, 3]).unwrap();
    assert_eq!(s.length(), 6);
    assert_eq!(s.take_data().unwrap(), vec![1, 2, 3, 4, 5, 6]);
}

#[test]
fn extend_from_slice_appends() {
    let mut s = Stream::new(Data::from_vec(vec![1]));
    s.seek(0).unwrap();
    s.extend_from_slice(&[2, 3]).unwrap();
    assert_eq!(s.length(), 3);
    assert_eq!(s.take_data().unwrap(), vec![1, 2, 3]);
}

#[test]
fn fill_size_pads_with_zeroes() {
    let mut s = Stream::new(Data::from_vec(vec![1, 2, 3, 4]));
    s.fill_size(10).unwrap();
    assert_eq!(s.length(), 10);
    assert_eq!(s.take_data().unwrap(), vec![1, 2, 3, 4, 0, 0, 0, 0, 0, 0]);
}

#[test]
fn fill_size_at_or_above_target_is_a_no_op() {
    let mut s = Stream::new(Data::from_vec(vec![1, 2, 3, 4]));
    s.fill_size(3).unwrap();
    assert_eq!(s.length(), 4);
    assert_eq!(s.take_data().unwrap(), vec![1, 2, 3, 4]);
}

#[test]
fn append_copies_the_rest_of_the_source() {
    let mut dst = Stream::new(Data::from_vec(vec![1, 2]));
    dst.seek_end().unwrap();
    let mut src = Stream::new(Data::from_vec(vec![8, 9, 10]));
    src.seek(1).unwrap();
    let copied = dst.append(&mut src).unwrap();
    assert_eq!(copied, 2);
    assert_eq!(dst.take_data().unwrap(), vec![1, 2, 9, 10]);
}

#[test]
fn align_pads_to_a_multiple() {
    let mut s = Stream::new(Data::from_vec(vec![1, 2, 3, 4, 5]));
    s.seek(1).unwrap();
    Align::align(&mut s, 4).unwrap();
    assert_eq!(s.length(), 8);
    assert_eq!(s.position().unwrap(), 1);
    assert_eq!(s.take_data().unwrap(), vec![1, 2, 3, 4, 5, 0, 0, 0]);
}

#[test]
fn align_on_a_multiple_is_a_no_op() {
    let mut s = Stream::new(Data::from_vec(vec![1, 2, 3, 4]));
    s.align(4).unwrap();
    assert_eq!(s.length(), 4);
    assert_eq!(s.take_data().unwrap(), vec![1, 2, 3, 4]);
}
