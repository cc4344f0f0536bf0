use drg::error::Error;
use drg::reader::ByteReader;
use drg::reader::SeekFrom;

#[test]
fn limit_stops_reads_early() {
    let mut rdr = ByteReader::new(vec![1, 2, 3, 4, 5]);
    rdr.limit(2);
    assert_eq!(rdr.read(4), vec![1, 2]);
    assert!(rdr.at_end());
    assert_eq!(rdr.remaining_bytes(), 0);
    assert_eq!(rdr.available(), 0);
    rdr.unlimit();
    assert!(!rdr.at_end());
    assert_eq!(rdr.remaining_bytes(), 3);
    assert_eq!(rdr.position(), 2);
}

#[test]
fn limits_nest_and_pop_in_order() {
    let mut rdr = ByteReader::new(vec![0; 10]);
    rdr.limit(8);
    assert_eq!(rdr.take(1), Ok(vec![0]));
    rdr.limit(3);
    assert_eq!(rdr.remaining_bytes(), 3);
    rdr.unlimit();
    assert_eq!(rdr.remaining_bytes(), 7);
    rdr.unlimit();
    assert_eq!(rdr.remaining_bytes(), 9);
    // without a limit the reader is never at its end
    assert_eq!(rdr.take(9), Ok(vec![0; 9]));
    assert!(!rdr.at_end());
    rdr.unlimit();
    assert_eq!(rdr.remaining_bytes(), 0);
}

#[test]
fn a_limit_past_the_data_reads_to_the_end_of_the_data() {
    let mut rdr = ByteReader::new(vec![7, 8, 9]);
    rdr.limit(100);
    assert_eq!(rdr.available(), 3);
    assert_eq!(rdr.remaining_bytes(), 100);
    assert_eq!(rdr.read(10), vec![7, 8, 9]);
    assert!(!rdr.at_end());
}

#[test]
fn take_fails_without_moving() {
    let mut rdr = ByteReader::new(vec![1, 2, 3]);
    assert_eq!(rdr.take(4), Err(Error::PrematureEof));
    assert_eq!(rdr.position(), 0);
    assert_eq!(rdr.take(3), Ok(vec![1, 2, 3]));
    assert_eq!(rdr.take(0), Ok(vec![]));
    assert_eq!(rdr.take(1), Err(Error::PrematureEof));
}

#[test]
fn seek_moves_within_the_data() {
    let mut rdr = ByteReader::new(vec![1, 2, 3, 4]);
    assert_eq!(rdr.seek(SeekFrom::Start(3)), Ok(3));
    assert_eq!(rdr.read(1), vec![4]);
    assert_eq!(rdr.seek(SeekFrom::Current(-2)), Ok(2));
    assert_eq!(rdr.seek(SeekFrom::End(-4)), Ok(0));
    assert_eq!(rdr.seek(SeekFrom::End(0)), Ok(4));
    assert_eq!(rdr.seek(SeekFrom::End(1)), Err(Error::InvalidSeek));
    assert_eq!(rdr.seek(SeekFrom::Current(-5)), Err(Error::InvalidSeek));
    assert_eq!(rdr.seek(SeekFrom::Start(5)), Err(Error::InvalidSeek));
    assert_eq!(rdr.position(), 4);
}
