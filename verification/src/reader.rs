use vstd::prelude::*;
use vstd::slice::slice_subrange;
use vstd::slice::slice_to_vec;
use crate::error::Error;

verus! {

/// What a [`ByteReader`] is, mathematically: the bytes, the position of the
/// next byte to read, and the stack of soft limits (the last one is active).
pub struct ReaderView {
    pub data: Seq<u8>,
    pub pos: nat,
    pub limits: Seq<nat>,
}

impl ReaderView {
    /// The position at which reads stop: the active limit, but never past
    /// the end of the data.
    pub open spec fn bound(self) -> int {
        if self.limits.len() > 0 && self.limits.last() < self.data.len() {
            self.limits.last() as int
        } else {
            self.data.len() as int
        }
    }

    /// How many bytes a read can still deliver.
    pub open spec fn available(self) -> int {
        if self.pos <= self.bound() {
            self.bound() - self.pos
        } else {
            0
        }
    }

    /// The `n` bytes that follow the position.
    pub open spec fn window(self, n: int) -> Seq<u8> {
        if n <= 0 {
            Seq::empty()
        } else {
            self.data.subrange(self.pos as int, self.pos + n)
        }
    }

    /// The same reader at another position.
    pub open spec fn at(self, pos: int) -> ReaderView {
        ReaderView { data: self.data, pos: pos as nat, limits: self.limits }
    }
}

/// Where a seek starts from.
#[derive(Debug, Clone, Copy, PartialEq, Eq, Structural)]
pub enum SeekFrom {
    Start(u64),
    Current(i64),
    End(i64),
}

/// The position that a seek asks for.
pub open spec fn seek_target(v: ReaderView, from: SeekFrom) -> int {
    match from {
        SeekFrom::Start(p) => p as int,
        SeekFrom::Current(p) => v.pos + p,
        SeekFrom::End(p) => v.data.len() + p,
    }
}

/// The bytes and the position of the next one to read.
struct Cursor {
    vec: Vec<u8>,
    current: usize,
}

impl Cursor {
    /// The position never lies past the end of the bytes.
    #[verifier::type_invariant]
    spec fn in_range(&self) -> bool {
        self.current <= self.vec@.len()
    }
}

/// A seekable byte source with a stack of soft end-of-stream limits.
pub struct ByteReader {
    cursor: Cursor,
    limits: Vec<usize>,
}

impl View for ByteReader {
    type V = ReaderView;

    closed spec fn view(&self) -> ReaderView {
        ReaderView {
            data: self.cursor.vec@,
            pos: self.cursor.current as nat,
            limits: self.limits@.map_values(|l: usize| l as nat),
        }
    }
}

impl ByteReader {
    pub fn new(vec: Vec<u8>) -> (r: Self)
        ensures
            r@.data == vec@,
            r@.pos == 0,
            r@.limits.len() == 0,
    {
        Self { cursor: Cursor { vec, current: 0 }, limits: Vec::new() }
    }

    /// Makes `current + size` the active limit, keeping the earlier one below it.
    pub fn limit(&mut self, size: usize)
        requires
            old(self)@.pos + size <= usize::MAX,
        ensures
            final(self)@.data == old(self)@.data,
            final(self)@.pos == old(self)@.pos,
            final(self)@.limits == old(self)@.limits.push((old(self)@.pos + size) as nat),
    {
        let end: usize = self.cursor.current + size;
        self.limits.push(end);
        proof {
            assert(self.limits@.map_values(|l: usize| l as nat) =~= old(self).limits@.map_values(
                |l: usize| l as nat,
            ).push(end as nat));
        }
    }

    /// Drops the active limit; the one below it, if any, is active again.
    pub fn unlimit(&mut self)
        ensures
            final(self)@.data == old(self)@.data,
            final(self)@.pos == old(self)@.pos,
            final(self)@.limits == if old(self)@.limits.len() > 0 {
                old(self)@.limits.drop_last()
            } else {
                old(self)@.limits
            },
    {
        let _ = self.limits.pop();
        proof {
            if old(self).limits@.len() > 0 {
                assert(self.limits@.map_values(|l: usize| l as nat) =~= old(self).limits@.map_values(
                    |l: usize| l as nat,
                ).drop_last());
            }
        }
    }

    /// The position, which never lies past the end of the data.
    pub fn position(&self) -> (r: u64)
        ensures
            r == self@.pos,
            r <= self@.data.len() <= usize::MAX,
    {
        proof {
            use_type_invariant(&self.cursor);
        }
        let _ = self.cursor.vec.len();
        self.cursor.current as u64
    }

    /// Whether the position has reached the active limit. Without a limit
    /// the reader is never at its end.
    pub fn at_end(&self) -> (r: bool)
        ensures
            r == (self@.limits.len() > 0 && self@.pos >= self@.limits.last()),
    {
        let n = self.limits.len();
        if n == 0 {
            false
        } else {
            self.cursor.current >= self.limits[n - 1]
        }
    }

    /// The distance to the active limit, or to the end of the data without
    /// one; zero when the position is already past it.
    pub fn remaining_bytes(&self) -> (r: usize)
        ensures
            r == if self@.limits.len() > 0 {
                if self@.limits.last() >= self@.pos {
                    self@.limits.last() - self@.pos
                } else {
                    0
                }
            } else if self@.data.len() >= self@.pos {
                self@.data.len() - self@.pos
            } else {
                0
            },
    {
        let n = self.limits.len();
        let end = if n == 0 {
            self.cursor.vec.len()
        } else {
            self.limits[n - 1]
        };
        if end >= self.cursor.current {
            end - self.cursor.current
        } else {
            0
        }
    }

    /// How many bytes a read can still deliver: up to the active limit and
    /// never past the end of the data.
    pub fn available(&self) -> (r: usize)
        ensures
            r == self@.available(),
    {
        let n = self.limits.len();
        let len = self.cursor.vec.len();
        let bound = if n > 0 && self.limits[n - 1] < len {
            self.limits[n - 1]
        } else {
            len
        };
        if self.cursor.current <= bound {
            bound - self.cursor.current
        } else {
            0
        }
    }

    /// Reads up to `max` bytes, stopping early at the active limit.
    pub fn read(&mut self, max: usize) -> (r: Vec<u8>)
        ensures
            final(self)@ == old(self)@.at((old(self)@.pos + r@.len()) as int),
            r@.len() == if max <= old(self)@.available() {
                max as int
            } else {
                old(self)@.available()
            },
            r@ == old(self)@.window(r@.len() as int),
    {
        let avail = self.available();
        let n = if max <= avail {
            max
        } else {
            avail
        };
        if n == 0 {
            Vec::new()
        } else {
            let start = self.cursor.current;
            let len = self.cursor.vec.len();
            assert(start + n <= self@.bound() <= len);
            let r = slice_to_vec(slice_subrange(self.cursor.vec.as_slice(), start, start + n));
            self.cursor.current = start + n;
            r
        }
    }

    /// Reads exactly `n` bytes, or fails and leaves the reader where it was.
    pub fn take(&mut self, n: usize) -> (r: Result<Vec<u8>, Error>)
        ensures
            match r {
                Ok(bytes) => {
                    &&& n <= old(self)@.available()
                    &&& bytes@ == old(self)@.window(n as int)
                    &&& final(self)@ == old(self)@.at(old(self)@.pos + n)
                },
                Err(e) => {
                    &&& n > old(self)@.available()
                    &&& e == Error::PrematureEof
                    &&& final(self)@ == old(self)@
                },
            },
    {
        if n <= self.available() {
            Ok(self.read(n))
        } else {
            Err(Error::PrematureEof)
        }
    }

    /// Moves the position. Fails, changing nothing, when the target is
    /// negative or past the end of the data.
    pub fn seek(&mut self, from: SeekFrom) -> (r: Result<u64, Error>)
        ensures
            r is Ok ==> 0 <= seek_target(old(self)@, from) <= old(self)@.data.len(),
            r is Ok ==> r->Ok_0 == seek_target(old(self)@, from),
            r is Ok ==> final(self)@ == old(self)@.at(seek_target(old(self)@, from)),
            r is Err ==> !(0 <= seek_target(old(self)@, from) <= old(self)@.data.len()),
            r is Err ==> r->Err_0 == Error::InvalidSeek,
            r is Err ==> final(self)@ == old(self)@,
    {
        let target: Option<usize> = match from {
            SeekFrom::Start(p) => if p <= usize::MAX as u64 {
                Some(p as usize)
            } else {
                None
            },
            SeekFrom::Current(p) => offset_by(self.cursor.current, p),
            SeekFrom::End(p) => offset_by(self.cursor.vec.len(), p),
        };
        let len = self.cursor.vec.len();
        match target {
            Some(t) => {
                if t <= len {
                    self.cursor.current = t;
                    Ok(t as u64)
                } else {
                    assert(self@ == old(self)@);
                    Err(Error::InvalidSeek)
                }
            },
            None => {
                assert(self@ == old(self)@);
                Err(Error::InvalidSeek)
            },
        }
    }
}

/// `base + delta`, where that is a `usize`.
fn offset_by(base: usize, delta: i64) -> (r: Option<usize>)
    ensures
        r == if 0 <= base + delta <= usize::MAX {
            Some((base + delta) as usize)
        } else {
            None
        },
{
    if delta >= 0 {
        let d = delta as u64;
        if d <= (usize::MAX - base) as u64 {
            Some(base + d as usize)
        } else {
            None
        }
    } else {
        let d: u64 = if delta == i64::MIN {
            0x8000_0000_0000_0000u64
        } else {
            (-delta) as u64
        };
        if d <= base as u64 {
            Some(base - d as usize)
        } else {
            None
        }
    }
}

} // verus!
