use bookworm::error::ErrorKind;
use bookworm::pager::Pager;
use bookworm::record::Record;
use bookworm::stream::ByteStream;

#[test]
fn encoding_layout_is_count_byte_then_flag_byte() {
    let mut pager = Pager::new(16, ByteStream::new());
    pager.push(&Record::new(7, true)).unwrap();
    pager.push(&Record::new(0, false)).unwrap();
    let first = pager.get_raw_page(0).unwrap();
    assert_eq!(&first[..2], &[7, 1]);
    assert!(first[2..].iter().all(|b| *b == 0));
    let second = pager.get_raw_page(1).unwrap();
    assert_eq!(&second[..2], &[0, 0]);
}

#[test]
fn decoding_reads_leading_bytes_and_ignores_padding() {
    let mut pager = Pager::new(16, ByteStream::new());
    pager.push_raw(&[]).unwrap();
    pager.write_raw_page(0, &[200, 1]).unwrap();
    assert_eq!(pager.get_page(0).unwrap(), Record::new(200, true));
    pager.write_raw_page(0, &[33, 0, 77, 99]).unwrap();
    assert_eq!(pager.get_page(0).unwrap(), Record::new(33, false));
}

#[test]
fn typed_sequence_stops_at_corrupt_page() {
    let mut pager = Pager::new(8, ByteStream::new());
    pager.push(&Record::new(1, true)).unwrap();
    pager.push(&Record::new(2, false)).unwrap();
    pager.push(&Record::new(3, true)).unwrap();
    pager.write_raw_page(1, &[9, 9]).unwrap();

    let mut iter = pager.iter(0);
    assert_eq!(iter.next().unwrap(), Record::new(1, true));
    assert_eq!(iter.next(), None);
    assert_eq!(iter.next(), None);
}

#[test]
fn checked_sequence_tells_corruption_from_exhaustion() {
    let mut pager = Pager::new(8, ByteStream::new());
    pager.push(&Record::new(1, true)).unwrap();
    pager.push(&Record::new(2, false)).unwrap();
    pager.write_raw_page(1, &[9, 9]).unwrap();

    let mut iter = pager.iter(0);
    assert_eq!(iter.next_checked().unwrap(), Some(Record::new(1, true)));
    let err = iter.next_checked().unwrap_err();
    assert_eq!(err.kind, ErrorKind::DecodeFailure);

    let mut exhausted = pager.iter(2);
    assert_eq!(exhausted.next_checked().unwrap(), None);
}

#[test]
fn consuming_typed_sequence_stops_at_corrupt_page() {
    let mut pager = Pager::new(8, ByteStream::new());
    pager.push(&Record::new(1, true)).unwrap();
    pager.push(&Record::new(2, false)).unwrap();
    pager.write_raw_page(0, &[9, 9]).unwrap();

    let mut iter = pager.into_iterator(0);
    assert_eq!(iter.next(), None);
}
