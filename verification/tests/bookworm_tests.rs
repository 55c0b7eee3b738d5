use bookworm::record::Record;
use bookworm::stream::ByteStream;
use bookworm::Bookworm;

#[test]
fn test_read_write() {
    let data_source = ByteStream::new();
    let swap = ByteStream::new();
    let mut bookworm = Bookworm::new(1024, data_source, swap);
    let test_data1 = Record::new(10, true);
    let test_data2 = Record::new(15, false);
    let test_data3 = Record::new(20, true);
    bookworm.push(&test_data1).unwrap();
    bookworm.push(&test_data2).unwrap();
    bookworm.push(&test_data3).unwrap();

    assert_eq!(bookworm.get_page(0).unwrap(), test_data1);
    assert_eq!(bookworm.get_page(1).unwrap(), test_data2);
    assert_eq!(bookworm.get_page(2).unwrap(), test_data3);
}

#[test]
fn test_iter_pages() {
    let data_source = ByteStream::new();
    let swap = ByteStream::new();
    let mut bookworm = Bookworm::new(1024, data_source, swap);
    bookworm.push(&Record::new(10, true)).unwrap();
    bookworm.push(&Record::new(14, false)).unwrap();
    bookworm.push(&Record::new(17, true)).unwrap();
    bookworm.push(&Record::new(6, false)).unwrap();

    let mut iterator = bookworm.into_iter();
    assert_eq!(iterator.next().unwrap(), Record::new(10, true));
    assert_eq!(iterator.next().unwrap(), Record::new(14, false));
    assert_eq!(iterator.next().unwrap(), Record::new(17, true));
    assert_eq!(iterator.next().unwrap(), Record::new(6, false));
    assert_eq!(iterator.next(), None);
}

#[test]
fn test_push() {
    let data_source = ByteStream::new();
    let swap = ByteStream::new();

    let mut bookworm = Bookworm::new(1024, data_source, swap);

    bookworm.push(&Record::new(10, true)).unwrap();
    bookworm.push(&Record::new(12, false)).unwrap();
    bookworm.push(&Record::new(6, true)).unwrap();

    let mut iterator = bookworm.into_iter();
    assert_eq!(iterator.next().unwrap(), Record::new(10, true));
    assert_eq!(iterator.next().unwrap(), Record::new(12, false));
    assert_eq!(iterator.next().unwrap(), Record::new(6, true));

    let data_source = iterator.into_stream();
    let mut bookworm = Bookworm::new(1024, data_source, ByteStream::new());
    bookworm.push(&Record::new(18, false)).unwrap();
    let mut iterator = bookworm.into_iter();
    assert_eq!(iterator.next().unwrap(), Record::new(10, true));
    assert_eq!(iterator.next().unwrap(), Record::new(12, false));
    assert_eq!(iterator.next().unwrap(), Record::new(6, true));
    assert_eq!(iterator.next().unwrap(), Record::new(18, false));
}

#[test]
fn test_remove_page() {
    let data_source = ByteStream::new();
    let swap = ByteStream::new();
    let mut pager = Bookworm::new(32, data_source, swap);
    let test_data = Record::new(10, true);
    pager.push(&test_data).unwrap();
    pager.get_page(0).unwrap();
    pager.pop().unwrap();
    pager.get_page(0).unwrap_err();
}

#[test]
fn test_delete_page() {
    let data_source = ByteStream::new();
    let swap = ByteStream::new();
    let mut bookworm = Bookworm::new(32, data_source, swap);

    bookworm.push(&Record::new(10, true)).unwrap();
    bookworm.push(&Record::new(12, false)).unwrap();
    bookworm.push(&Record::new(6, true)).unwrap();

    bookworm.delete(1).unwrap();
    let mut pages_iter = bookworm.into_iter();
    assert_eq!(pages_iter.next().unwrap(), Record::new(10, true));
    assert_eq!(pages_iter.next().unwrap(), Record::new(6, true));
}
