use bookworm::error::ErrorKind;
use bookworm::pager::Pager;
use bookworm::record::Record;
use bookworm::stream::ByteStream;
use bookworm::Bookworm;

#[test]
fn round_trip_write_typed() {
    let mut pager = Pager::new(1024, ByteStream::new());
    pager.push(&Record::new(0, false)).unwrap();
    let value = Record::new(200, true);
    pager.write_page(0, &value).unwrap();
    assert_eq!(pager.get_page(0).unwrap(), value);
}

#[test]
fn push_pop_inverse() {
    let mut bookworm = Bookworm::new(64, ByteStream::new(), ByteStream::new());
    bookworm.push(&Record::new(1, true)).unwrap();
    let value = Record::new(42, false);
    bookworm.push(&value).unwrap();
    assert_eq!(bookworm.pager.pages_count, 2);
    assert_eq!(bookworm.get_page(1).unwrap(), value);
    bookworm.pop().unwrap();
    assert_eq!(bookworm.pager.pages_count, 1);
    let err = bookworm.get_page(1).unwrap_err();
    assert_eq!(err.kind, ErrorKind::PageNotFound);
}

#[test]
fn iteration_yields_pushed_records_in_order() {
    let records = [
        Record::new(3, true),
        Record::new(1, false),
        Record::new(4, true),
        Record::new(1, true),
        Record::new(5, false),
    ];
    let mut pager = Pager::new(16, ByteStream::new());
    for r in &records {
        pager.push(r).unwrap();
    }
    let mut iter = pager.iter(0);
    for r in &records {
        assert_eq!(iter.next().unwrap(), *r);
    }
    assert_eq!(iter.next(), None);

    let mut consuming = pager.into_iterator(0);
    for r in &records {
        assert_eq!(consuming.next().unwrap(), *r);
    }
    assert_eq!(consuming.next(), None);
}

#[test]
fn delete_then_push_keeps_order() {
    let p0 = Record::new(10, true);
    let p1 = Record::new(11, false);
    let p2 = Record::new(12, true);
    let p3 = Record::new(13, false);
    let mut bookworm = Bookworm::new(32, ByteStream::new(), ByteStream::new());
    bookworm.push(&p0).unwrap();
    bookworm.push(&p1).unwrap();
    bookworm.push(&p2).unwrap();
    bookworm.delete(1).unwrap();
    assert_eq!(bookworm.pager.pages_count, 2);
    assert_eq!(bookworm.get_page(0).unwrap(), p0);
    assert_eq!(bookworm.get_page(1).unwrap(), p2);
    bookworm.push(&p3).unwrap();
    assert_eq!(bookworm.get_page(0).unwrap(), p0);
    assert_eq!(bookworm.get_page(1).unwrap(), p2);
    assert_eq!(bookworm.get_page(2).unwrap(), p3);
}

#[test]
fn reopen_recomputes_count_and_keeps_records() {
    let mut pager = Pager::new(128, ByteStream::new());
    let a = Record::new(7, true);
    let b = Record::new(8, false);
    pager.push(&a).unwrap();
    pager.push(&b).unwrap();
    let stream = pager.stream;
    assert_eq!(stream.data.len(), 256);
    let mut reopened = Pager::new(128, stream);
    assert_eq!(reopened.pages_count, 2);
    assert_eq!(reopened.get_page(0).unwrap(), a);
    assert_eq!(reopened.get_page(1).unwrap(), b);
}

#[test]
fn oversize_record_rejected_without_partial_write() {
    let mut pager = Pager::new(1, ByteStream::new());
    pager.push_raw(b"x").unwrap();
    let before = pager.get_raw_page(0).unwrap();
    let err = pager.write_page(0, &Record::new(9, true)).unwrap_err();
    assert_eq!(err.kind, ErrorKind::PageTooLarge);
    assert_eq!(pager.get_raw_page(0).unwrap(), before);
}

#[test]
fn oversize_raw_payload_rejected() {
    let mut pager = Pager::new(2, ByteStream::new());
    pager.push_raw(b"ab").unwrap();
    let err = pager.write_raw_page(0, b"abc").unwrap_err();
    assert_eq!(err.kind, ErrorKind::PageTooLarge);
    let err = pager.push_raw(b"abc").unwrap_err();
    assert_eq!(err.kind, ErrorKind::PageTooLarge);
    assert_eq!(pager.pages_count, 1);
}

#[test]
fn concrete_three_record_scenario() {
    let mut bookworm = Bookworm::new(1024, ByteStream::new(), ByteStream::new());
    let r0 = Record::new(10, true);
    let r1 = Record::new(15, false);
    let r2 = Record::new(20, true);
    bookworm.push(&r0).unwrap();
    bookworm.push(&r1).unwrap();
    bookworm.push(&r2).unwrap();
    assert_eq!(bookworm.get_page(0).unwrap(), r0);
    assert_eq!(bookworm.get_page(1).unwrap(), r1);
    assert_eq!(bookworm.get_page(2).unwrap(), r2);
    let err = bookworm.get_page(3).unwrap_err();
    assert_eq!(err.kind, ErrorKind::PageNotFound);
}
