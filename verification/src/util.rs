use vstd::prelude::*;
use vstd::bytes::spec_u16_from_le_bytes;
use vstd::bytes::spec_u16_to_le_bytes;
use vstd::bytes::spec_u32_from_le_bytes;
use vstd::bytes::spec_u32_to_le_bytes;
use vstd::bytes::spec_u64_from_le_bytes;
use vstd::bytes::spec_u64_to_le_bytes;
use vstd::bytes::lemma_auto_spec_u16_to_from_le_bytes;
use vstd::bytes::lemma_auto_spec_u32_to_from_le_bytes;
use vstd::bytes::lemma_auto_spec_u64_to_from_le_bytes;
use vstd::slice::slice_subrange;
use vstd::utf8::decode_utf8;
use vstd::utf8::encode_utf8;
use vstd::utf8::valid_utf8;
use vstd::utf8::encode_utf8_decode_utf8;
use vstd::utf8::decode_utf8_encode_utf8;
use vstd::utf8::encode_utf8_valid_utf8;
use byteorder::ByteOrder;
use byteorder::LittleEndian;
use crate::error::Error;
use crate::reader::ByteReader;
use crate::reader::ReaderView;
use crate::reader::SeekFrom;

verus! {

/* Little-endian integers */

pub open spec fn enc_u16(x: u16) -> Seq<u8> {
    spec_u16_to_le_bytes(x)
}

pub open spec fn enc_u32(x: u32) -> Seq<u8> {
    spec_u32_to_le_bytes(x)
}

pub open spec fn enc_u64(x: u64) -> Seq<u8> {
    spec_u64_to_le_bytes(x)
}

pub open spec fn enc_i32(x: i32) -> Seq<u8> {
    spec_u32_to_le_bytes(x as u32)
}

pub open spec fn enc_i64(x: i64) -> Seq<u8> {
    spec_u64_to_le_bytes(x as u64)
}

/// A boolean takes four bytes: the number 1 or 0.
pub open spec fn enc_bool(x: bool) -> Seq<u8> {
    enc_u32(if x { 1 } else { 0 })
}

/// The number that the two bytes from `k` on hold.
pub open spec fn u16_at(s: Seq<u8>, k: int) -> u16 {
    spec_u16_from_le_bytes(s.subrange(k, k + 2))
}

pub open spec fn u32_at(s: Seq<u8>, k: int) -> u32 {
    spec_u32_from_le_bytes(s.subrange(k, k + 4))
}

pub open spec fn u64_at(s: Seq<u8>, k: int) -> u64 {
    spec_u64_from_le_bytes(s.subrange(k, k + 8))
}

pub open spec fn i32_at(s: Seq<u8>, k: int) -> i32 {
    u32_at(s, k) as i32
}

pub open spec fn i64_at(s: Seq<u8>, k: int) -> i64 {
    u64_at(s, k) as i64
}

pub open spec fn bool_at(s: Seq<u8>, k: int) -> bool {
    u32_at(s, k) != 0
}

/// Decoding undoes encoding, and encoding undoes decoding, for every width.
pub proof fn lemma_le_round_trip()
    ensures
        forall|x: u16| #[trigger] enc_u16(x).len() == 2 && u16_at(enc_u16(x), 0) == x,
        forall|x: u32| #[trigger] enc_u32(x).len() == 4 && u32_at(enc_u32(x), 0) == x,
        forall|x: u64| #[trigger] enc_u64(x).len() == 8 && u64_at(enc_u64(x), 0) == x,
        forall|x: i32| #[trigger] enc_i32(x).len() == 4 && i32_at(enc_i32(x), 0) == x,
        forall|x: i64| #[trigger] enc_i64(x).len() == 8 && i64_at(enc_i64(x), 0) == x,
        forall|s: Seq<u8>| s.len() == 2 ==> #[trigger] enc_u16(u16_at(s, 0)) == s,
        forall|s: Seq<u8>| s.len() == 4 ==> #[trigger] enc_u32(u32_at(s, 0)) == s,
        forall|s: Seq<u8>| s.len() == 8 ==> #[trigger] enc_u64(u64_at(s, 0)) == s,
        forall|s: Seq<u8>| s.len() == 4 ==> #[trigger] enc_i32(i32_at(s, 0)) == s,
        forall|s: Seq<u8>| s.len() == 8 ==> #[trigger] enc_i64(i64_at(s, 0)) == s,
{
    lemma_auto_spec_u16_to_from_le_bytes();
    lemma_auto_spec_u32_to_from_le_bytes();
    lemma_auto_spec_u64_to_from_le_bytes();
    assert forall|x: u16| #[trigger] enc_u16(x).len() == 2 && u16_at(enc_u16(x), 0) == x by {
        assert(enc_u16(x).subrange(0, 2) =~= enc_u16(x));
    }
    assert forall|x: u32| #[trigger] enc_u32(x).len() == 4 && u32_at(enc_u32(x), 0) == x by {
        assert(enc_u32(x).subrange(0, 4) =~= enc_u32(x));
    }
    assert forall|x: u64| #[trigger] enc_u64(x).len() == 8 && u64_at(enc_u64(x), 0) == x by {
        assert(enc_u64(x).subrange(0, 8) =~= enc_u64(x));
    }
    assert forall|x: i32| #[trigger] enc_i32(x).len() == 4 && i32_at(enc_i32(x), 0) == x by {
        assert(enc_i32(x).subrange(0, 4) =~= enc_i32(x));
        assert((x as u32) as i32 == x) by (bit_vector);
    }
    assert forall|x: i64| #[trigger] enc_i64(x).len() == 8 && i64_at(enc_i64(x), 0) == x by {
        assert(enc_i64(x).subrange(0, 8) =~= enc_i64(x));
        assert((x as u64) as i64 == x) by (bit_vector);
    }
    assert forall|s: Seq<u8>| s.len() == 2 implies #[trigger] enc_u16(u16_at(s, 0)) == s by {
        assert(s.subrange(0, 2) =~= s);
    }
    assert forall|s: Seq<u8>| s.len() == 4 implies #[trigger] enc_u32(u32_at(s, 0)) == s by {
        assert(s.subrange(0, 4) =~= s);
    }
    assert forall|s: Seq<u8>| s.len() == 8 implies #[trigger] enc_u64(u64_at(s, 0)) == s by {
        assert(s.subrange(0, 8) =~= s);
    }
    assert forall|s: Seq<u8>| s.len() == 4 implies #[trigger] enc_i32(i32_at(s, 0)) == s by {
        assert(s.subrange(0, 4) =~= s);
        let u = u32_at(s, 0);
        assert((u as i32) as u32 == u) by (bit_vector);
    }
    assert forall|s: Seq<u8>| s.len() == 8 implies #[trigger] enc_i64(i64_at(s, 0)) == s by {
        assert(s.subrange(0, 8) =~= s);
        let u = u64_at(s, 0);
        assert((u as i64) as u64 == u) by (bit_vector);
    }
}

/// `byteorder::LittleEndian::read_u16`, whose result is not proved but
/// taken from the crate: the number that two bytes hold, least
/// significant byte first.
#[verifier::external_body]
fn le_read_u16(buf: &[u8]) -> (r: u16)
    requires
        buf@.len() == 2,
    ensures
        r == spec_u16_from_le_bytes(buf@),
{
    LittleEndian::read_u16(buf)
}

/// `byteorder::LittleEndian::read_u32`, whose result is not proved but
/// taken from the crate: the number that four bytes hold, least
/// significant byte first.
#[verifier::external_body]
fn le_read_u32(buf: &[u8]) -> (r: u32)
    requires
        buf@.len() == 4,
    ensures
        r == spec_u32_from_le_bytes(buf@),
{
    LittleEndian::read_u32(buf)
}

/// `byteorder::LittleEndian::read_u64`, whose result is not proved but
/// taken from the crate: the number that eight bytes hold, least
/// significant byte first.
#[verifier::external_body]
fn le_read_u64(buf: &[u8]) -> (r: u64)
    requires
        buf@.len() == 8,
    ensures
        r == spec_u64_from_le_bytes(buf@),
{
    LittleEndian::read_u64(buf)
}

/// `byteorder::LittleEndian::write_u16`, whose result is not proved but
/// taken from the crate: the two bytes of a number, least significant
/// byte first.
#[verifier::external_body]
fn le_write_u16(n: u16) -> (r: Vec<u8>)
    ensures
        r@ == spec_u16_to_le_bytes(n),
{
    let mut buf = vec![0u8; 2];
    LittleEndian::write_u16(&mut buf, n);
    buf
}

/// `byteorder::LittleEndian::write_u32`, whose result is not proved but
/// taken from the crate: the four bytes of a number, least significant
/// byte first.
#[verifier::external_body]
fn le_write_u32(n: u32) -> (r: Vec<u8>)
    ensures
        r@ == spec_u32_to_le_bytes(n),
{
    let mut buf = vec![0u8; 4];
    LittleEndian::write_u32(&mut buf, n);
    buf
}

/// `byteorder::LittleEndian::write_u64`, whose result is not proved but
/// taken from the crate: the eight bytes of a number, least significant
/// byte first.
#[verifier::external_body]
fn le_write_u64(n: u64) -> (r: Vec<u8>)
    ensures
        r@ == spec_u64_to_le_bytes(n),
{
    let mut buf = vec![0u8; 8];
    LittleEndian::write_u64(&mut buf, n);
    buf
}

/// `String::from_utf8`, whose result is not proved but taken from the
/// standard library: the string that the bytes encode, if and only if
/// they are UTF-8.
#[verifier::external_body]
fn string_from_utf8(bytes: Vec<u8>) -> (r: Option<String>)
    ensures
        r is Some <==> valid_utf8(bytes@),
        r matches Some(s) ==> s@ == decode_utf8(bytes@),
{
    String::from_utf8(bytes).ok()
}

/* Decoding at an offset of a slice */

pub fn get_u16(seg: &[u8], k: usize) -> (r: u16)
    requires
        k + 2 <= seg@.len(),
    ensures
        r == u16_at(seg@, k as int),
{
    let _ = seg.len();
    le_read_u16(slice_subrange(seg, k, k + 2))
}

pub fn get_u32(seg: &[u8], k: usize) -> (r: u32)
    requires
        k + 4 <= seg@.len(),
    ensures
        r == u32_at(seg@, k as int),
{
    let _ = seg.len();
    le_read_u32(slice_subrange(seg, k, k + 4))
}

pub fn get_u64(seg: &[u8], k: usize) -> (r: u64)
    requires
        k + 8 <= seg@.len(),
    ensures
        r == u64_at(seg@, k as int),
{
    let _ = seg.len();
    le_read_u64(slice_subrange(seg, k, k + 8))
}

pub fn get_i32(seg: &[u8], k: usize) -> (r: i32)
    requires
        k + 4 <= seg@.len(),
    ensures
        r == i32_at(seg@, k as int),
{
    let u = get_u32(seg, k);
    #[verifier::truncate]
    (u as i32)
}

pub fn get_i64(seg: &[u8], k: usize) -> (r: i64)
    requires
        k + 8 <= seg@.len(),
    ensures
        r == i64_at(seg@, k as int),
{
    let u = get_u64(seg, k);
    #[verifier::truncate]
    (u as i64)
}

pub fn get_bool(seg: &[u8], k: usize) -> (r: bool)
    requires
        k + 4 <= seg@.len(),
    ensures
        r == bool_at(seg@, k as int),
{
    get_u32(seg, k) != 0
}

/// The `N` bytes from `k` on, as an array.
pub fn get_array<const N: usize>(seg: &[u8], k: usize) -> (r: [u8; N])
    requires
        k + N <= seg@.len(),
    ensures
        r@ == seg@.subrange(k as int, k + N),
{
    let mut r = [0u8; N];
    let _ = seg.len();
    let mut i: usize = 0;
    while i < N
        invariant
            0 <= i <= N,
            k + N <= seg@.len() <= usize::MAX,
            r@.len() == N,
            forall|j: int| 0 <= j < i ==> r@[j] == seg@[k + j],
        decreases N - i,
    {
        r[i] = seg[k + i];
        i = i + 1;
    }
    assert(r@ =~= seg@.subrange(k as int, k + N));
    r
}

/// Whether two byte strings are the same.
pub fn bytes_eq(a: &[u8], b: &[u8]) -> (r: bool)
    ensures
        r == (a@ == b@),
{
    if a.len() != b.len() {
        return false;
    }
    let mut i: usize = 0;
    while i < a.len()
        invariant
            0 <= i <= a@.len(),
            a@.len() == b@.len(),
            forall|j: int| 0 <= j < i ==> a@[j] == b@[j],
        decreases a@.len() - i,
    {
        if a[i] != b[i] {
            return false;
        }
        i = i + 1;
    }
    assert(a@ =~= b@);
    true
}

/// Whether two strings are the same.
pub fn str_eq(a: &str, b: &str) -> (r: bool)
    ensures
        r == (a@ == b@),
{
    proof {
        encode_utf8_decode_utf8(a@);
        encode_utf8_decode_utf8(b@);
    }
    bytes_eq(a.as_bytes(), b.as_bytes())
}

/* Reading */

/// How many bytes lie between position `p` and the bound `e`.
pub open spec fn avail(p: int, e: int) -> int {
    if p <= e {
        e - p
    } else {
        0
    }
}

/// The `n` bytes of `d` from `p` on.
pub open spec fn span(d: Seq<u8>, p: int, n: int) -> Seq<u8> {
    if n <= 0 {
        Seq::empty()
    } else {
        d.subrange(p, p + n)
    }
}

/// A read that was asked to deliver `want` did so: on success the result
/// is the value and the reader stands behind it; on failure the result is
/// the error, and data and limits are untouched.
pub open spec fn reads<T>(
    pre: ReaderView,
    post: ReaderView,
    r: Result<T, Error>,
    want: Result<(T, int), Error>,
) -> bool {
    &&& post.data == pre.data
    &&& post.limits == pre.limits
    &&& match want {
        Ok((v, p)) => r == Ok::<T, Error>(v) && post.pos == p,
        Err(e) => r == Err::<T, Error>(e),
    }
}

/// As [`reads`], for a result that is described by its view.
pub open spec fn reads_as<T: View>(
    pre: ReaderView,
    post: ReaderView,
    r: Result<T, Error>,
    want: Result<(T::V, int), Error>,
) -> bool {
    &&& post.data == pre.data
    &&& post.limits == pre.limits
    &&& match want {
        Ok((v, p)) => r is Ok && r->Ok_0@ == v && post.pos == p,
        Err(e) => r == Err::<T, Error>(e),
    }
}

pub open spec fn parse_bytes(d: Seq<u8>, p: int, e: int, n: int) -> Result<(Seq<u8>, int), Error> {
    if n <= avail(p, e) {
        Ok((span(d, p, n), p + n))
    } else {
        Err(Error::PrematureEof)
    }
}

pub open spec fn parse_u8(d: Seq<u8>, p: int, e: int) -> Result<(u8, int), Error> {
    if 1 <= avail(p, e) {
        Ok((d[p], p + 1))
    } else {
        Err(Error::PrematureEof)
    }
}

pub open spec fn parse_u16(d: Seq<u8>, p: int, e: int) -> Result<(u16, int), Error> {
    if 2 <= avail(p, e) {
        Ok((u16_at(d, p), p + 2))
    } else {
        Err(Error::PrematureEof)
    }
}

pub open spec fn parse_u32(d: Seq<u8>, p: int, e: int) -> Result<(u32, int), Error> {
    if 4 <= avail(p, e) {
        Ok((u32_at(d, p), p + 4))
    } else {
        Err(Error::PrematureEof)
    }
}

pub open spec fn parse_u64(d: Seq<u8>, p: int, e: int) -> Result<(u64, int), Error> {
    if 8 <= avail(p, e) {
        Ok((u64_at(d, p), p + 8))
    } else {
        Err(Error::PrematureEof)
    }
}

pub open spec fn parse_i32(d: Seq<u8>, p: int, e: int) -> Result<(i32, int), Error> {
    if 4 <= avail(p, e) {
        Ok((i32_at(d, p), p + 4))
    } else {
        Err(Error::PrematureEof)
    }
}

pub open spec fn parse_i64(d: Seq<u8>, p: int, e: int) -> Result<(i64, int), Error> {
    if 8 <= avail(p, e) {
        Ok((i64_at(d, p), p + 8))
    } else {
        Err(Error::PrematureEof)
    }
}

pub open spec fn parse_bool(d: Seq<u8>, p: int, e: int) -> Result<(bool, int), Error> {
    if 4 <= avail(p, e) {
        Ok((bool_at(d, p), p + 4))
    } else {
        Err(Error::PrematureEof)
    }
}

/// A byte string is a length, counted with its terminator, then the bytes,
/// then the terminator.
pub open spec fn parse_byte_string(d: Seq<u8>, p: int, e: int) -> Result<(Seq<u8>, int), Error> {
    if 4 > avail(p, e) {
        Err(Error::PrematureEof)
    } else if u32_at(d, p) == 0 {
        Err(Error::EmptyString)
    } else if u32_at(d, p) > avail(p + 4, e) {
        Err(Error::PrematureEof)
    } else {
        Ok((span(d, p + 4, u32_at(d, p) - 1), p + 4 + u32_at(d, p)))
    }
}

/// A string is a byte string that holds UTF-8.
pub open spec fn parse_string(d: Seq<u8>, p: int, e: int) -> Result<(Seq<char>, int), Error> {
    match parse_byte_string(d, p, e) {
        Err(err) => Err(err),
        Ok((bytes, q)) => if valid_utf8(bytes) {
            Ok((decode_utf8(bytes), q))
        } else {
            Err(Error::InvalidUtf8)
        },
    }
}

/// Reads exactly `len` bytes.
pub fn read_bytes(rdr: &mut ByteReader, len: usize) -> (r: Result<Vec<u8>, Error>)
    ensures
        reads_as(
            old(rdr)@,
            final(rdr)@,
            r,
            parse_bytes(old(rdr)@.data, old(rdr)@.pos as int, old(rdr)@.bound(), len as int),
        ),
{
    rdr.take(len)
}

/// Reads exactly `N` bytes into an array.
pub fn read_array<const N: usize>(rdr: &mut ByteReader) -> (r: Result<[u8; N], Error>)
    ensures
        reads_as(
            old(rdr)@,
            final(rdr)@,
            r,
            parse_bytes(old(rdr)@.data, old(rdr)@.pos as int, old(rdr)@.bound(), N as int),
        ),
{
    let bytes = rdr.take(N)?;
    let a = get_array::<N>(bytes.as_slice(), 0);
    assert(bytes@.subrange(0, N as int) =~= bytes@);
    Ok(a)
}

pub fn read_u8(rdr: &mut ByteReader) -> (r: Result<u8, Error>)
    ensures
        reads(
            old(rdr)@,
            final(rdr)@,
            r,
            parse_u8(old(rdr)@.data, old(rdr)@.pos as int, old(rdr)@.bound()),
        ),
{
    let bytes = rdr.take(1)?;
    Ok(bytes[0])
}

pub fn read_u16(rdr: &mut ByteReader) -> (r: Result<u16, Error>)
    ensures
        reads(
            old(rdr)@,
            final(rdr)@,
            r,
            parse_u16(old(rdr)@.data, old(rdr)@.pos as int, old(rdr)@.bound()),
        ),
{
    let bytes = rdr.take(2)?;
    Ok(le_read_u16(bytes.as_slice()))
}

pub fn read_u32(rdr: &mut ByteReader) -> (r: Result<u32, Error>)
    ensures
        reads(
            old(rdr)@,
            final(rdr)@,
            r,
            parse_u32(old(rdr)@.data, old(rdr)@.pos as int, old(rdr)@.bound()),
        ),
{
    let bytes = rdr.take(4)?;
    Ok(le_read_u32(bytes.as_slice()))
}

pub fn read_u64(rdr: &mut ByteReader) -> (r: Result<u64, Error>)
    ensures
        reads(
            old(rdr)@,
            final(rdr)@,
            r,
            parse_u64(old(rdr)@.data, old(rdr)@.pos as int, old(rdr)@.bound()),
        ),
{
    let bytes = rdr.take(8)?;
    Ok(le_read_u64(bytes.as_slice()))
}

pub fn read_i32(rdr: &mut ByteReader) -> (r: Result<i32, Error>)
    ensures
        reads(
            old(rdr)@,
            final(rdr)@,
            r,
            parse_i32(old(rdr)@.data, old(rdr)@.pos as int, old(rdr)@.bound()),
        ),
{
    let u = read_u32(rdr)?;
    Ok(
        #[verifier::truncate]
        (u as i32),
    )
}

pub fn read_i64(rdr: &mut ByteReader) -> (r: Result<i64, Error>)
    ensures
        reads(
            old(rdr)@,
            final(rdr)@,
            r,
            parse_i64(old(rdr)@.data, old(rdr)@.pos as int, old(rdr)@.bound()),
        ),
{
    let u = read_u64(rdr)?;
    Ok(
        #[verifier::truncate]
        (u as i64),
    )
}

/// Reads a four-byte boolean: anything but zero is true.
pub fn read_bool(rdr: &mut ByteReader) -> (r: Result<bool, Error>)
    ensures
        reads(
            old(rdr)@,
            final(rdr)@,
            r,
            parse_bool(old(rdr)@.data, old(rdr)@.pos as int, old(rdr)@.bound()),
        ),
{
    let u = read_u32(rdr)?;
    Ok(u != 0)
}

/// Reads a length-prefixed, terminated byte string; the terminator is skipped.
pub fn read_byte_string(rdr: &mut ByteReader) -> (r: Result<Vec<u8>, Error>)
    ensures
        reads_as(
            old(rdr)@,
            final(rdr)@,
            r,
            parse_byte_string(old(rdr)@.data, old(rdr)@.pos as int, old(rdr)@.bound()),
        ),
{
    let length = read_u32(rdr)?;
    if length == 0 {
        return Err(Error::EmptyString);
    }
    if length as u64 > rdr.available() as u64 {
        return Err(Error::PrematureEof);
    }
    let n = length as usize;
    let chars = rdr.take(n - 1)?;
    let _ = rdr.take(1)?;
    Ok(chars)
}

/// Reads a length-prefixed, terminated string.
pub fn read_string(rdr: &mut ByteReader) -> (r: Result<String, Error>)
    ensures
        reads_as(
            old(rdr)@,
            final(rdr)@,
            r,
            parse_string(old(rdr)@.data, old(rdr)@.pos as int, old(rdr)@.bound()),
        ),
{
    let bytes = read_byte_string(rdr)?;
    match string_from_utf8(bytes) {
        Some(s) => Ok(s),
        None => Err(Error::InvalidUtf8),
    }
}

/// Whether the next bytes are `bytes`. The reader stays where it is.
pub fn next_matches(rdr: &mut ByteReader, bytes: &[u8]) -> (r: bool)
    ensures
        final(rdr)@ == old(rdr)@,
        r == (bytes@.len() <= old(rdr)@.available() && old(rdr)@.window(bytes@.len() as int)
            == bytes@),
{
    let start = rdr.position();
    match rdr.take(bytes.len()) {
        Ok(read) => {
            let eq = bytes_eq(bytes, read.as_slice());
            let back = rdr.seek(SeekFrom::Start(start));
            assert(back is Ok);
            eq
        },
        Err(_) => false,
    }
}

/* Writing */

/// A byte string as it is written: its length with the terminator, the
/// bytes, a zero.
pub open spec fn enc_byte_string(s: Seq<u8>) -> Seq<u8> {
    enc_u32((s.len() + 1) as u32) + s + seq![0u8]
}

/// A string as it is written: the byte string of its UTF-8 encoding.
pub open spec fn enc_string(s: Seq<char>) -> Seq<u8> {
    enc_byte_string(encode_utf8(s))
}

pub fn write_bytes(out: &mut Vec<u8>, bytes: &[u8])
    ensures
        final(out)@ == old(out)@ + bytes@,
{
    out.extend_from_slice(bytes);
}

pub fn write_u8(out: &mut Vec<u8>, val: u8)
    ensures
        final(out)@ == old(out)@ + seq![val],
{
    out.push(val);
    assert(out@ =~= old(out)@ + seq![val]);
}

pub fn write_u16(out: &mut Vec<u8>, val: u16)
    ensures
        final(out)@ == old(out)@ + enc_u16(val),
{
    let b = le_write_u16(val);
    out.extend_from_slice(b.as_slice());
}

pub fn write_u32(out: &mut Vec<u8>, val: u32)
    ensures
        final(out)@ == old(out)@ + enc_u32(val),
{
    let b = le_write_u32(val);
    out.extend_from_slice(b.as_slice());
}

pub fn write_u64(out: &mut Vec<u8>, val: u64)
    ensures
        final(out)@ == old(out)@ + enc_u64(val),
{
    let b = le_write_u64(val);
    out.extend_from_slice(b.as_slice());
}

pub fn write_i32(out: &mut Vec<u8>, val: i32)
    ensures
        final(out)@ == old(out)@ + enc_i32(val),
{
    write_u32(
        out,
        #[verifier::truncate]
        (val as u32),
    );
}

pub fn write_i64(out: &mut Vec<u8>, val: i64)
    ensures
        final(out)@ == old(out)@ + enc_i64(val),
{
    write_u64(
        out,
        #[verifier::truncate]
        (val as u64),
    );
}

pub fn write_bool(out: &mut Vec<u8>, val: bool)
    ensures
        final(out)@ == old(out)@ + enc_bool(val),
{
    write_u32(out, if val { 1 } else { 0 });
}

/// Writes a byte string with its length and terminator. A string whose
/// length with the terminator does not fit four bytes is refused, and
/// nothing is written.
pub fn write_byte_string(out: &mut Vec<u8>, bytes: &[u8]) -> (r: Result<(), Error>)
    ensures
        bytes@.len() < u32::MAX ==> r is Ok && final(out)@ == old(out)@ + enc_byte_string(bytes@),
        bytes@.len() >= u32::MAX ==> r == Err::<(), Error>(Error::TooLong) && final(out)@ == old(out)@,
{
    if bytes.len() as u64 >= u32::MAX as u64 {
        return Err(Error::TooLong);
    }
    let length = (bytes.len() + 1) as u32;
    write_u32(out, length);
    out.extend_from_slice(bytes);
    out.push(0);
    assert(out@ =~= old(out)@ + enc_byte_string(bytes@));
    Ok(())
}

pub fn write_string(out: &mut Vec<u8>, string: &str) -> (r: Result<(), Error>)
    ensures
        encode_utf8(string@).len() < u32::MAX ==> r is Ok && final(out)@ == old(out)@ + enc_string(
            string@,
        ),
        encode_utf8(string@).len() >= u32::MAX ==> r == Err::<(), Error>(Error::TooLong) && final(out)@ == old(out)@,
{
    write_byte_string(out, string.as_bytes())
}

/* What was written reads back */

/// Whether the bytes `b` lie in `d` from `p` on.
pub open spec fn lies_at(d: Seq<u8>, p: int, b: Seq<u8>) -> bool {
    0 <= p && p + b.len() <= d.len() && d.subrange(p, p + b.len()) == b
}

/// Where bytes lie, their first part lies, and their second part lies
/// behind it.
pub proof fn lemma_lies_at_split(d: Seq<u8>, p: int, a: Seq<u8>, b: Seq<u8>)
    requires
        lies_at(d, p, a + b),
    ensures
        lies_at(d, p, a),
        lies_at(d, p + a.len(), b),
{
    let whole = d.subrange(p, p + (a + b).len());
    assert(d.subrange(p, p + a.len()) =~= whole.subrange(0, a.len() as int));
    assert(whole.subrange(0, a.len() as int) =~= a);
    assert(d.subrange(p + a.len(), p + a.len() + b.len()) =~= whole.subrange(
        a.len() as int,
        (a + b).len() as int,
    ));
    assert(whole.subrange(a.len() as int, (a + b).len() as int) =~= b);
}

/// The first `n` of some runs of bytes, one after the other.
pub open spec fn concat_all(parts: Seq<Seq<u8>>, n: int) -> Seq<u8>
    decreases n,
{
    if n <= 0 {
        Seq::empty()
    } else {
        concat_all(parts, n - 1) + parts[n - 1]
    }
}

/// Where runs of bytes lie one after the other, each lies behind the
/// ones before it.
pub proof fn lemma_part_lies_at(d: Seq<u8>, p: int, parts: Seq<Seq<u8>>, n: int, k: int)
    requires
        lies_at(d, p, concat_all(parts, n)),
        0 <= k < n,
    ensures
        lies_at(d, p + concat_all(parts, k).len(), parts[k]),
        lies_at(d, p, concat_all(parts, k)),
        concat_all(parts, k + 1).len() <= concat_all(parts, n).len(),
        concat_all(parts, k + 1).len() == concat_all(parts, k).len() + parts[k].len(),
    decreases n - k,
{
    lemma_lies_at_split(d, p, concat_all(parts, n - 1), parts[n - 1]);
    if k < n - 1 {
        lemma_part_lies_at(d, p, parts, n - 1, k);
    }
}

/// A number within bytes that lie within others lies within the others.
pub proof fn lemma_u32_within(t: Seq<u8>, g: int, group: Seq<u8>, off: int)
    requires
        lies_at(t, g, group),
        0 <= off,
        off + 4 <= group.len(),
    ensures
        u32_at(t, g + off) == u32_at(group, off),
        i32_at(t, g + off) == i32_at(group, off),
        bool_at(t, g + off) == bool_at(group, off),
{
    assert(t.subrange(g + off, g + off + 4) =~= t.subrange(g, g + group.len()).subrange(
        off,
        off + 4,
    ));
}

pub proof fn lemma_u64_within(t: Seq<u8>, g: int, group: Seq<u8>, off: int)
    requires
        lies_at(t, g, group),
        0 <= off,
        off + 8 <= group.len(),
    ensures
        u64_at(t, g + off) == u64_at(group, off),
        i64_at(t, g + off) == i64_at(group, off),
{
    assert(t.subrange(g + off, g + off + 8) =~= t.subrange(g, g + group.len()).subrange(
        off,
        off + 8,
    ));
}

/// Bytes within bytes that lie within others lie within the others.
pub proof fn lemma_subrange_within(t: Seq<u8>, g: int, group: Seq<u8>, from: int, to: int)
    requires
        lies_at(t, g, group),
        0 <= from <= to <= group.len(),
    ensures
        t.subrange(g + from, g + to) == group.subrange(from, to),
{
    assert(t.subrange(g + from, g + to) =~= t.subrange(g, g + group.len()).subrange(from, to));
}

/// A byte that was written reads back.
pub proof fn lemma_u8_reads_back(d: Seq<u8>, p: int, e: int, x: u8)
    requires
        lies_at(d, p, seq![x]),
        p + 1 <= e,
    ensures
        parse_u8(d, p, e) == Ok::<(u8, int), Error>((x, p + 1)),
{
    assert(d.subrange(p, p + 1)[0] == x);
}

pub proof fn lemma_u16_reads_back(d: Seq<u8>, p: int, e: int, x: u16)
    requires
        lies_at(d, p, enc_u16(x)),
        p + 2 <= e,
    ensures
        parse_u16(d, p, e) == Ok::<(u16, int), Error>((x, p + 2)),
{
    lemma_le_round_trip();
    assert(enc_u16(x).subrange(0, 2) =~= enc_u16(x));
}

pub proof fn lemma_u32_reads_back(d: Seq<u8>, p: int, e: int, x: u32)
    requires
        lies_at(d, p, enc_u32(x)),
        p + 4 <= e,
    ensures
        parse_u32(d, p, e) == Ok::<(u32, int), Error>((x, p + 4)),
        u32_at(d, p) == x,
{
    lemma_le_round_trip();
    assert(enc_u32(x).subrange(0, 4) =~= enc_u32(x));
}

pub proof fn lemma_u64_reads_back(d: Seq<u8>, p: int, e: int, x: u64)
    requires
        lies_at(d, p, enc_u64(x)),
        p + 8 <= e,
    ensures
        parse_u64(d, p, e) == Ok::<(u64, int), Error>((x, p + 8)),
        u64_at(d, p) == x,
{
    lemma_le_round_trip();
    assert(enc_u64(x).subrange(0, 8) =~= enc_u64(x));
}

pub proof fn lemma_i32_reads_back(d: Seq<u8>, p: int, e: int, x: i32)
    requires
        lies_at(d, p, enc_i32(x)),
        p + 4 <= e,
    ensures
        parse_i32(d, p, e) == Ok::<(i32, int), Error>((x, p + 4)),
        i32_at(d, p) == x,
{
    lemma_le_round_trip();
    assert(enc_i32(x).subrange(0, 4) =~= enc_i32(x));
}

pub proof fn lemma_i64_reads_back(d: Seq<u8>, p: int, e: int, x: i64)
    requires
        lies_at(d, p, enc_i64(x)),
        p + 8 <= e,
    ensures
        parse_i64(d, p, e) == Ok::<(i64, int), Error>((x, p + 8)),
        i64_at(d, p) == x,
{
    lemma_le_round_trip();
    assert(enc_i64(x).subrange(0, 8) =~= enc_i64(x));
}

pub proof fn lemma_bool_reads_back(d: Seq<u8>, p: int, e: int, x: bool)
    requires
        lies_at(d, p, enc_bool(x)),
        p + 4 <= e,
    ensures
        parse_bool(d, p, e) == Ok::<(bool, int), Error>((x, p + 4)),
        bool_at(d, p) == x,
{
    lemma_u32_reads_back(
        d,
        p,
        e,
        if x {
            1
        } else {
            0
        },
    );
}

/// Bytes that were written read back.
pub proof fn lemma_bytes_read_back(d: Seq<u8>, p: int, e: int, b: Seq<u8>)
    requires
        lies_at(d, p, b),
        p + b.len() <= e,
    ensures
        parse_bytes(d, p, e, b.len() as int) == Ok::<(Seq<u8>, int), Error>((b, p + b.len())),
        span(d, p, b.len() as int) == b,
{
    assert(span(d, p, b.len() as int) =~= b);
}

/// A string that was written reads back.
pub proof fn lemma_string_reads_back(d: Seq<u8>, p: int, e: int, s: Seq<char>)
    requires
        encode_utf8(s).len() < u32::MAX,
        lies_at(d, p, enc_string(s)),
        p + enc_string(s).len() <= e,
    ensures
        parse_string(d, p, e) == Ok::<(Seq<char>, int), Error>((s, p + enc_string(s).len())),
        enc_string(s).len() == 4 + encode_utf8(s).len() + 1,
{
    lemma_le_round_trip();
    encode_utf8_decode_utf8(s);
    encode_utf8_valid_utf8(s);
    let b = encode_utf8(s);
    let n = (b.len() + 1) as u32;
    lemma_lies_at_split(d, p, enc_u32(n) + b, seq![0u8]);
    lemma_lies_at_split(d, p, enc_u32(n), b);
    lemma_u32_reads_back(d, p, e, n);
    lemma_bytes_read_back(d, p + 4, e, b);
}

} // verus!
