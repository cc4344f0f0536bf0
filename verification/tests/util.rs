use drg::error::Error;
use drg::reader::ByteReader;
use drg::util::bytes_eq;
use drg::util::get_array;
use drg::util::get_bool;
use drg::util::get_i32;
use drg::util::get_i64;
use drg::util::get_u16;
use drg::util::get_u32;
use drg::util::get_u64;
use drg::util::next_matches;
use drg::util::read_array;
use drg::util::read_bool;
use drg::util::read_byte_string;
use drg::util::read_bytes;
use drg::util::read_i32;
use drg::util::read_i64;
use drg::util::read_string;
use drg::util::read_u16;
use drg::util::read_u32;
use drg::util::read_u64;
use drg::util::read_u8;
use drg::util::str_eq;
use drg::util::write_bool;
use drg::util::write_byte_string;
use drg::util::write_bytes;
use drg::util::write_i32;
use drg::util::write_i64;
use drg::util::write_string;
use drg::util::write_u16;
use drg::util::write_u32;
use drg::util::write_u64;
use drg::util::write_u8;

#[test]
fn integers_are_written_least_significant_byte_first() {
    let mut out = vec![0xAA];
    write_u8(&mut out, 0x01);
    write_u16(&mut out, 0x0203);
    write_u32(&mut out, 0x04050607);
    write_u64(&mut out, 0x08090A0B0C0D0E0F);
    write_i32(&mut out, -2);
    write_i64(&mut out, -3);
    assert_eq!(
        out,
        vec![
            0xAA, 0x01, 0x03, 0x02, 0x07, 0x06, 0x05, 0x04, 0x0F, 0x0E, 0x0D, 0x0C, 0x0B, 0x0A,
            0x09, 0x08, 0xFE, 0xFF, 0xFF, 0xFF, 0xFD, 0xFF, 0xFF, 0xFF, 0xFF, 0xFF, 0xFF, 0xFF,
        ]
    );
}

#[test]
fn integers_are_read_least_significant_byte_first() {
    let bytes = vec![
        0x01, 0x03, 0x02, 0x07, 0x06, 0x05, 0x04, 0x0F, 0x0E, 0x0D, 0x0C, 0x0B, 0x0A, 0x09, 0x08,
        0xFE, 0xFF, 0xFF, 0xFF, 0xFD, 0xFF, 0xFF, 0xFF, 0xFF, 0xFF, 0xFF, 0xFF,
    ];
    let mut rdr = ByteReader::new(bytes);
    assert_eq!(read_u8(&mut rdr), Ok(0x01));
    assert_eq!(read_u16(&mut rdr), Ok(0x0203));
    assert_eq!(read_u32(&mut rdr), Ok(0x04050607));
    assert_eq!(read_u64(&mut rdr), Ok(0x08090A0B0C0D0E0F));
    assert_eq!(read_i32(&mut rdr), Ok(-2));
    assert_eq!(read_i64(&mut rdr), Ok(-3));
    assert_eq!(rdr.position(), 27);
    assert_eq!(read_u8(&mut rdr), Err(Error::PrematureEof));
}

#[test]
fn numbers_are_found_at_offsets_of_a_slice() {
    let seg = [0u8, 1, 2, 3, 4, 5, 6, 7, 8, 0xFF, 0xFF, 0xFF, 0xFF];
    assert_eq!(get_u16(&seg, 1), 0x0201);
    assert_eq!(get_u32(&seg, 1), 0x04030201);
    assert_eq!(get_u64(&seg, 1), 0x0807060504030201);
    assert_eq!(get_i32(&seg, 9), -1);
    assert_eq!(get_i64(&seg, 5), -0xF7F8F9FB);
    assert!(get_bool(&seg, 0));
    assert!(!get_bool(&[0, 0, 0, 0], 0));
    assert_eq!(get_array::<3>(&seg, 2), [2, 3, 4]);
}

#[test]
fn short_reads_fail_and_leave_the_reader() {
    let mut rdr = ByteReader::new(vec![1, 2, 3]);
    assert_eq!(read_u32(&mut rdr), Err(Error::PrematureEof));
    assert_eq!(read_u64(&mut rdr), Err(Error::PrematureEof));
    assert_eq!(read_i32(&mut rdr), Err(Error::PrematureEof));
    assert_eq!(read_bool(&mut rdr), Err(Error::PrematureEof));
    assert_eq!(read_bytes(&mut rdr, 4), Err(Error::PrematureEof));
    assert_eq!(read_array::<4>(&mut rdr), Err(Error::PrematureEof));
    assert_eq!(rdr.position(), 0);
    assert_eq!(read_array::<3>(&mut rdr), Ok([1, 2, 3]));
}

#[test]
fn booleans_take_four_bytes() {
    let mut out = vec![];
    write_bool(&mut out, true);
    write_bool(&mut out, false);
    assert_eq!(out, vec![1, 0, 0, 0, 0, 0, 0, 0]);
    let mut rdr = ByteReader::new(vec![0, 0, 0, 0, 0, 1, 0, 0]);
    assert_eq!(read_bool(&mut rdr), Ok(false));
    assert_eq!(read_bool(&mut rdr), Ok(true));
}

#[test]
fn strings_carry_their_length_and_a_terminator() {
    let mut out = vec![];
    assert_eq!(write_string(&mut out, "None"), Ok(()));
    assert_eq!(out, vec![5, 0, 0, 0, b'N', b'o', b'n', b'e', 0]);
    assert_eq!(write_byte_string(&mut out, &[]), Ok(()));
    assert_eq!(out[9..], [1, 0, 0, 0, 0]);
    let mut rdr = ByteReader::new(out);
    assert_eq!(read_string(&mut rdr), Ok("None".to_string()));
    assert_eq!(rdr.position(), 9);
    assert_eq!(read_byte_string(&mut rdr), Ok(vec![]));
    assert_eq!(rdr.position(), 14);
}

#[test]
fn strings_of_more_than_one_byte_per_char_count_bytes() {
    let mut out = vec![];
    assert_eq!(write_string(&mut out, "é"), Ok(()));
    assert_eq!(out, vec![3, 0, 0, 0, 0xC3, 0xA9, 0]);
    let mut rdr = ByteReader::new(out);
    assert_eq!(read_string(&mut rdr), Ok("é".to_string()));
}

#[test]
fn malformed_strings_are_refused() {
    // a length of zero leaves no room for the terminator
    let mut rdr = ByteReader::new(vec![0, 0, 0, 0, 0]);
    assert_eq!(read_byte_string(&mut rdr), Err(Error::EmptyString));
    // the length runs past the data
    let mut rdr = ByteReader::new(vec![3, 0, 0, 0, b'a', b'b']);
    assert_eq!(read_string(&mut rdr), Err(Error::PrematureEof));
    // the length itself is cut short
    let mut rdr = ByteReader::new(vec![3, 0]);
    assert_eq!(read_string(&mut rdr), Err(Error::PrematureEof));
    // not UTF-8
    let mut rdr = ByteReader::new(vec![2, 0, 0, 0, 0xFF, 0]);
    assert_eq!(read_string(&mut rdr), Err(Error::InvalidUtf8));
    // the same bytes are fine as a byte string
    let mut rdr = ByteReader::new(vec![2, 0, 0, 0, 0xFF, 0]);
    assert_eq!(read_byte_string(&mut rdr), Ok(vec![0xFF]));
}

#[test]
fn next_matches_peeks() {
    let mut rdr = ByteReader::new(vec![1, 2, 3, 4]);
    assert!(next_matches(&mut rdr, &[1, 2]));
    assert_eq!(rdr.position(), 0);
    assert!(!next_matches(&mut rdr, &[2, 3]));
    assert!(!next_matches(&mut rdr, &[1, 2, 3, 4, 5]));
    assert!(next_matches(&mut rdr, &[]));
    assert_eq!(rdr.position(), 0);
    assert_eq!(read_u8(&mut rdr), Ok(1));
    assert!(next_matches(&mut rdr, &[2, 3, 4]));
}

#[test]
fn byte_and_string_equality() {
    assert!(bytes_eq(&[1, 2], &[1, 2]));
    assert!(!bytes_eq(&[1, 2], &[1, 3]));
    assert!(!bytes_eq(&[1, 2], &[1, 2, 3]));
    assert!(bytes_eq(&[], &[]));
    assert!(str_eq("None", "None"));
    assert!(!str_eq("None", "none"));
    assert!(!str_eq("None", "Non"));
    let mut out = vec![9];
    write_bytes(&mut out, &[8, 7]);
    assert_eq!(out, vec![9, 8, 7]);
}
