use bookworm::error::BookwormError;
use bookworm::error::ErrorKind;
use bookworm::pager::Pager;
use bookworm::record::Record;
use bookworm::stream::ByteStream;
use bookworm::Bookworm;

#[test]
fn error_carries_kind_and_message() {
    let err = BookwormError::new(ErrorKind::IOFailure, "broken".to_string());
    assert_eq!(err.kind(), ErrorKind::IOFailure);
    assert_eq!(err.message, "broken");
}

#[test]
fn get_on_empty_store_is_page_not_found() {
    let mut pager = Pager::new(8, ByteStream::new());
    let err = pager.get_raw_page(0).unwrap_err();
    assert_eq!(err.kind, ErrorKind::PageNotFound);
    let err = pager.get_page(0).unwrap_err();
    assert_eq!(err.kind, ErrorKind::PageNotFound);
}

#[test]
fn write_past_count_is_page_not_found() {
    let mut pager = Pager::new(8, ByteStream::new());
    let err = pager.write_raw_page(0, b"a").unwrap_err();
    assert_eq!(err.kind, ErrorKind::PageNotFound);
    let err = pager.write_page(0, &Record::new(1, false)).unwrap_err();
    assert_eq!(err.kind, ErrorKind::PageNotFound);
}

#[test]
fn pop_on_empty_store_is_underflow() {
    let mut pager = Pager::new(8, ByteStream::new());
    let err = pager.pop().unwrap_err();
    assert_eq!(err.kind, ErrorKind::Underflow);
    assert_eq!(pager.pages_count, 0);
}

#[test]
fn delete_on_empty_store_is_underflow() {
    let mut bookworm = Bookworm::new(8, ByteStream::new(), ByteStream::new());
    let err = bookworm.delete(0).unwrap_err();
    assert_eq!(err.kind, ErrorKind::Underflow);
}

#[test]
fn delete_past_count_is_page_not_found() {
    let mut bookworm = Bookworm::new(8, ByteStream::new(), ByteStream::new());
    bookworm.push(&Record::new(1, true)).unwrap();
    let err = bookworm.delete(1).unwrap_err();
    assert_eq!(err.kind, ErrorKind::PageNotFound);
    assert_eq!(bookworm.pager.pages_count, 1);
}

#[test]
fn corrupt_page_is_decode_failure() {
    let mut pager = Pager::new(4, ByteStream::new());
    pager.push_raw(&[5, 9, 0, 0]).unwrap();
    let err = pager.get_page(0).unwrap_err();
    assert_eq!(err.kind, ErrorKind::DecodeFailure);
}

#[test]
fn short_page_is_decode_failure() {
    let mut pager = Pager::new(1, ByteStream::new());
    pager.push_raw(&[5]).unwrap();
    let err = pager.get_page(0).unwrap_err();
    assert_eq!(err.kind, ErrorKind::DecodeFailure);
}
