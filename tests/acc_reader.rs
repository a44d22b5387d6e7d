use acc_reader::{AccReader, ErrorKind, SeekFrom};

#[test]
fn test_acc_reader_read() {
    let inner: &[u8] = &[5, 6, 7, 0, 1, 2, 3];
    let mut reader = AccReader::new(inner);

    let mut buf = [0, 0];
    assert_eq!(reader.read(&mut buf).unwrap(), 2);
    assert_eq!(buf, [5, 6]);
    assert_eq!(reader.read(&mut buf).unwrap(), 2);
    assert_eq!(buf, [7, 0]);
    assert_eq!(reader.read(&mut buf).unwrap(), 2);
    assert_eq!(buf, [1, 2]);
    assert_eq!(reader.read(&mut buf).unwrap(), 1);
    assert_eq!(buf[0], 3);
}

#[test]
fn test_acc_reader_buf_read() {
    let inner: &[u8] = &[5, 6, 7, 0, 1, 2, 3, 4];
    let mut reader = AccReader::with_initial_capacity_and_increment(3, 3, inner);

    assert_eq!(reader.fill_buf().ok(), Some(&[5, 6, 7][..]));
    reader.consume(3);
    assert_eq!(reader.fill_buf().ok(), Some(&[0, 1, 2][..]));
    reader.consume(3);
    assert_eq!(reader.fill_buf().ok(), Some(&[3, 4][..]));
    reader.consume(2);
    assert_eq!(reader.fill_buf().ok(), Some(&[][..]));
}

#[test]
fn test_acc_reader_seek() {
    let inner: &[u8] = &[5, 6, 7, 0, 1, 2, 3, 4];
    let mut reader = AccReader::new(inner);

    let mut buf = [0, 0];

    assert_eq!(reader.seek(SeekFrom::Start(2)).unwrap(), 2);
    reader.read_exact(&mut buf).unwrap();
    assert_eq!(buf, [7, 0]);

    assert_eq!(reader.seek(SeekFrom::Current(-1)).unwrap(), 3);
    reader.read_exact(&mut buf).unwrap();
    assert_eq!(buf, [0, 1]);

    assert_eq!(reader.seek(SeekFrom::End(-3)).unwrap(), 5);
    reader.read_exact(&mut buf).unwrap();
    assert_eq!(buf, [2, 3]);

    // seek to beyond the end and to before the start
    assert_eq!(reader.seek(SeekFrom::End(3)).err().unwrap().kind(), ErrorKind::InvalidInput);
    assert_eq!(reader.seek(SeekFrom::Current(-128)).err().unwrap().kind(), ErrorKind::InvalidInput);

    // seek to the end from the start
    let mut reader = AccReader::new(inner);
    assert_eq!(reader.seek(SeekFrom::Start(inner.len() as u64)).unwrap(), inner.len() as u64);
    assert_eq!(reader.read(&mut buf).unwrap(), 0);

    // seek to beyond the end from the start
    let mut reader = AccReader::new(inner);
    assert_eq!(reader.seek(SeekFrom::Start(128)).err().unwrap().kind(), ErrorKind::InvalidInput);
}
