use acc_reader::{AccReader, Error, ErrorKind, SeekFrom, DEFAULT_BUF_INCREMENT};

const DATA: [u8; 8] = [5, 6, 7, 0, 1, 2, 3, 4];

fn read_all_by_twos(reader: &mut AccReader<&[u8]>) -> Vec<u8> {
    let mut all = Vec::new();
    let mut buf = [0u8; 2];
    loop {
        let n = reader.read(&mut buf).unwrap();
        if n == 0 {
            return all;
        }
        all.extend_from_slice(&buf[..n]);
    }
}

#[test]
fn replay_after_seeking_to_start() {
    let inner: &[u8] = &DATA;
    let mut reader = AccReader::new(inner);
    let first = read_all_by_twos(&mut reader);
    assert_eq!(first, DATA.to_vec());
    assert_eq!(reader.seek(SeekFrom::Start(0)).unwrap(), 0);
    let second = read_all_by_twos(&mut reader);
    assert_eq!(first, second);
}

#[test]
fn consume_clamps_to_buffered_bytes() {
    let inner: &[u8] = &DATA;
    let mut reader = AccReader::with_increment(3, inner);
    assert_eq!(reader.fill_buf().unwrap(), &[5, 6, 7][..]);
    reader.consume(100);
    assert_eq!(reader.seek(SeekFrom::Current(0)).unwrap(), 3);
    assert_eq!(reader.fill_buf().unwrap(), &[0, 1, 2][..]);
    reader.consume(1);
    assert_eq!(reader.fill_buf().unwrap(), &[1, 2][..]);
    assert_eq!(reader.seek(SeekFrom::Current(0)).unwrap(), 4);
}

#[test]
fn relative_seeks_add_up() {
    let inner: &[u8] = &DATA;
    let mut twice = AccReader::new(inner);
    assert_eq!(twice.seek(SeekFrom::Current(2)).unwrap(), 2);
    assert_eq!(twice.seek(SeekFrom::Current(3)).unwrap(), 5);
    let mut once = AccReader::new(inner);
    assert_eq!(once.seek(SeekFrom::Current(5)).unwrap(), 5);
    let mut a = [0u8; 3];
    let mut b = [0u8; 3];
    twice.read_exact(&mut a).unwrap();
    once.read_exact(&mut b).unwrap();
    assert_eq!(a, b);
    assert_eq!(a, [2, 3, 4]);
}

#[test]
fn end_seek_leaves_last_bytes() {
    let inner: &[u8] = &DATA;
    for k in 1..=8i64 {
        let mut reader = AccReader::new(inner);
        assert_eq!(reader.seek(SeekFrom::End(-k)).unwrap(), (8 - k) as u64);
        let mut out = Vec::new();
        assert_eq!(reader.read_to_end(&mut out).unwrap(), k as usize);
        assert_eq!(out, DATA[(8 - k) as usize..].to_vec());
    }
    let mut reader = AccReader::new(inner);
    assert!(matches!(reader.seek(SeekFrom::End(-9)), Err(Error::BeforeStart)));
    assert_eq!(reader.seek(SeekFrom::End(0)).unwrap(), 8);
}

#[test]
fn out_of_range_seeks_keep_the_cursor() {
    let inner: &[u8] = &DATA;
    let mut reader = AccReader::new(inner);
    assert_eq!(reader.seek(SeekFrom::Start(3)).unwrap(), 3);
    assert!(matches!(reader.seek(SeekFrom::Start(9)), Err(Error::BeyondEnd)));
    assert_eq!(reader.seek(SeekFrom::Current(0)).unwrap(), 3);
    assert!(matches!(reader.seek(SeekFrom::Current(-4)), Err(Error::BeforeStart)));
    assert_eq!(reader.seek(SeekFrom::Current(0)).unwrap(), 3);
    assert!(matches!(reader.seek(SeekFrom::Current(6)), Err(Error::BeyondEnd)));
    assert_eq!(reader.seek(SeekFrom::Current(0)).unwrap(), 3);
    assert!(matches!(reader.seek(SeekFrom::End(1)), Err(Error::BeyondEnd)));
    assert_eq!(reader.seek(SeekFrom::Current(0)).unwrap(), 3);
    let mut buf = [0u8; 2];
    reader.read_exact(&mut buf).unwrap();
    assert_eq!(buf, [0, 1]);
}

#[test]
fn raw_read_and_seek_scenario() {
    let inner: &[u8] = &DATA;
    let mut reader = AccReader::new(inner);
    let mut buf = [0u8; 2];
    assert_eq!(reader.seek(SeekFrom::Start(2)).unwrap(), 2);
    assert_eq!(reader.read(&mut buf).unwrap(), 2);
    assert_eq!(buf, [7, 0]);
    assert_eq!(reader.seek(SeekFrom::Current(-1)).unwrap(), 3);
    // one byte is buffered after the cursor: a raw read serves just that one
    assert_eq!(reader.read(&mut buf).unwrap(), 1);
    assert_eq!(buf[0], 0);
    assert_eq!(reader.seek(SeekFrom::Current(-1)).unwrap(), 3);
    reader.read_exact(&mut buf).unwrap();
    assert_eq!(buf, [0, 1]);
    assert_eq!(reader.seek(SeekFrom::End(-3)).unwrap(), 5);
    assert_eq!(reader.read(&mut buf).unwrap(), 2);
    assert_eq!(buf, [2, 3]);
    assert_eq!(reader.seek(SeekFrom::End(3)).err().unwrap().kind(), ErrorKind::InvalidInput);
    assert_eq!(reader.seek(SeekFrom::Current(-128)).err().unwrap().kind(), ErrorKind::InvalidInput);
}

#[test]
fn read_exact_past_the_end_fails() {
    let inner: &[u8] = &DATA;
    let mut reader = AccReader::new(inner);
    assert_eq!(reader.seek(SeekFrom::Start(6)).unwrap(), 6);
    let mut buf = [0u8; 3];
    let err = reader.read_exact(&mut buf).err().unwrap();
    assert_eq!(err.kind(), ErrorKind::UnexpectedEof);
    assert!(matches!(err, Error::UnexpectedEof));
    assert_eq!(reader.seek(SeekFrom::Current(0)).unwrap(), 8);
}

#[test]
fn empty_source() {
    let inner: &[u8] = &[];
    let mut reader = AccReader::new(inner);
    let mut buf = [0u8; 4];
    assert_eq!(reader.read(&mut buf).unwrap(), 0);
    assert_eq!(reader.fill_buf().unwrap(), &[][..]);
    assert_eq!(reader.seek(SeekFrom::End(0)).unwrap(), 0);
    assert_eq!(reader.seek(SeekFrom::Start(0)).unwrap(), 0);
    assert!(matches!(reader.seek(SeekFrom::Start(1)), Err(Error::BeyondEnd)));
    let mut out = Vec::new();
    assert_eq!(reader.read_to_end(&mut out).unwrap(), 0);
    assert!(out.is_empty());
}

#[test]
fn empty_destination_reads_nothing() {
    let inner: &[u8] = &DATA;
    let mut reader = AccReader::new(inner);
    let mut empty: [u8; 0] = [];
    assert_eq!(reader.read(&mut empty).unwrap(), 0);
    assert_eq!(reader.seek(SeekFrom::Current(0)).unwrap(), 0);
}

#[test]
fn default_increment_bounds_a_refill() {
    let data: Vec<u8> = (0..3000u32).map(|i| (i % 251) as u8).collect();
    let inner: &[u8] = &data;
    let mut reader = AccReader::new(inner);
    let got = reader.fill_buf().unwrap().to_vec();
    assert_eq!(got.len(), DEFAULT_BUF_INCREMENT);
    assert_eq!(got, data[..1024].to_vec());
}

#[test]
fn zero_increment_refills_nothing() {
    let inner: &[u8] = &DATA;
    let mut reader = AccReader::with_increment(0, inner);
    assert_eq!(reader.fill_buf().unwrap(), &[][..]);
    let mut buf = [0u8; 2];
    assert_eq!(reader.read(&mut buf).unwrap(), 2);
    assert_eq!(buf, [5, 6]);
}

#[test]
fn fill_buf_serves_bytes_read_by_a_seek() {
    let inner: &[u8] = &DATA;
    let mut reader = AccReader::with_initial_capacity(1, inner);
    assert_eq!(reader.seek(SeekFrom::Start(6)).unwrap(), 6);
    assert_eq!(reader.seek(SeekFrom::Start(1)).unwrap(), 1);
    assert_eq!(reader.fill_buf().unwrap(), &[6, 7, 0, 1, 2][..]);
}

#[test]
fn long_seek_reads_in_several_requests() {
    let data: Vec<u8> = (0..10000u32).map(|i| (i % 253) as u8).collect();
    let inner: &[u8] = &data;
    let mut reader = AccReader::new(inner);
    assert_eq!(reader.seek(SeekFrom::Start(9000)).unwrap(), 9000);
    let mut buf = [0u8; 2];
    reader.read_exact(&mut buf).unwrap();
    assert_eq!(buf, [data[9000], data[9001]]);
    assert_eq!(reader.seek(SeekFrom::End(-10000)).unwrap(), 0);
}

#[test]
fn into_inner_hands_back_the_source() {
    let inner: &[u8] = &[9, 8, 7, 6];
    let mut reader = AccReader::new(inner);
    let mut buf = [0u8; 1];
    assert_eq!(reader.read(&mut buf).unwrap(), 1);
    let rest: &[u8] = reader.into_inner();
    assert_eq!(rest, &[8, 7, 6][..]);
}

#[test]
fn buffered_read_leaves_the_rest_of_the_buffer() {
    let inner: &[u8] = &DATA;
    let mut reader = AccReader::new(inner);
    assert_eq!(reader.seek(SeekFrom::Start(3)).unwrap(), 3);
    assert_eq!(reader.seek(SeekFrom::Start(1)).unwrap(), 1);
    let mut buf = [9u8; 4];
    assert_eq!(reader.read(&mut buf).unwrap(), 2);
    assert_eq!(buf, [6, 7, 9, 9]);
}

#[test]
fn seeks_accumulate_up_to_their_target() {
    let inner: &[u8] = &DATA;
    let mut reader = AccReader::new(inner);
    assert_eq!(reader.seek(SeekFrom::Current(3)).unwrap(), 3);
    // exactly three bytes were taken from the source
    let rest: &[u8] = reader.into_inner();
    assert_eq!(rest, &DATA[3..]);

    let mut reader = AccReader::new(inner);
    assert!(matches!(reader.seek(SeekFrom::Start(20)), Err(Error::BeyondEnd)));
    // the bytes read while trying stay accumulated
    assert_eq!(reader.fill_buf().unwrap(), &DATA[..]);
    let rest: &[u8] = reader.into_inner();
    assert!(rest.is_empty());

    let mut reader = AccReader::new(inner);
    assert!(matches!(reader.seek(SeekFrom::End(i64::MIN)), Err(Error::BeforeStart)));
    assert_eq!(reader.seek(SeekFrom::Current(0)).unwrap(), 0);
    let rest: &[u8] = reader.into_inner();
    assert!(rest.is_empty());
}

#[test]
fn source_read_takes_what_it_delivers() {
    let inner: &[u8] = &DATA;
    let mut reader = AccReader::new(inner);
    let mut buf = [0u8; 5];
    assert_eq!(reader.read(&mut buf).unwrap(), 5);
    assert_eq!(buf, [5, 6, 7, 0, 1]);
    let rest: &[u8] = reader.into_inner();
    assert_eq!(rest, &DATA[5..]);
}
