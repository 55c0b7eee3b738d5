use bookworm::pager::Pager;
use bookworm::record::Record;
use bookworm::stream::ByteStream;

#[test]
fn test_iter() {
    let data_source = ByteStream::new();
    let mut pager = Pager::new(128, data_source);
    let test_data_1 = Record::new(10, true);
    let test_data_2 = Record::new(12, false);
    pager.push(&test_data_1).unwrap();
    pager.push(&test_data_2).unwrap();
    let mut iter = pager.iter(0);
    assert_eq!(iter.next().unwrap(), test_data_1);
    assert_eq!(iter.next().unwrap(), test_data_2);
}

#[test]
fn test_raw_iter() {
    let data_source = ByteStream::new();
    let mut pager = Pager::new(128, data_source);
    pager.push_raw(b"apple").unwrap();
    pager.push_raw(b"grape").unwrap();
    let mut iter = pager.raw_iter(0);
    let first = &iter.next().unwrap();
    let second = &iter.next().unwrap();
    let parsed_first = String::from_utf8_lossy(first);
    let parsed_second = String::from_utf8_lossy(second);
    assert!(parsed_first.contains("apple"));
    assert!(parsed_second.contains("grape"));
}
