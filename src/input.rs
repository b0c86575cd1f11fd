use vstd::prelude::*;

use crate::error::{GhwParseError, HeaderData};

verus! {

/// A byte buffer with a read position: the source that every decoder in this crate reads from.
pub struct Input {
    pub data: Vec<u8>,
    pub pos: usize,
}

impl Input {
    /// The read position never passes the end of the buffer.
    pub open spec fn wf(&self) -> bool {
        self.pos <= self.data@.len()
    }

    /// What is left to read.
    pub open spec fn rest(&self) -> Seq<u8> {
        self.data@.subrange(self.pos as int, self.data@.len() as int)
    }

    /// Both inputs read the same buffer.
    pub open spec fn same_data(&self, other: &Input) -> bool {
        self.data@ == other.data@
    }

    pub fn new(data: Vec<u8>) -> (r: Input)
        ensures
            r.data@ == data@,
            r.pos == 0,
            r.wf(),
    {
        Input { data, pos: 0 }
    }

    pub fn position(&self) -> (r: usize)
        ensures
            r == self.pos,
    {
        self.pos
    }

    pub fn len(&self) -> (r: usize)
        ensures
            r == self.data@.len(),
    {
        self.data.len()
    }

    /// Moves the read position to `pos`.
    pub fn seek(&mut self, pos: usize)
        requires
            pos <= old(self).data@.len(),
        ensures
            final(self).pos == pos,
            final(self).same_data(old(self)),
            final(self).wf(),
    {
        self.pos = pos;
    }
}

/// Reads one byte.
pub fn read_u8(input: &mut Input) -> (r: Result<u8, GhwParseError>)
    requires
        old(input).wf(),
    ensures
        final(input).wf(),
        final(input).same_data(old(input)),
        old(input).pos < old(input).data@.len() ==> r == Ok::<u8, GhwParseError>(
            old(input).data@[old(input).pos as int],
        ) && final(input).pos == old(input).pos + 1,
        old(input).pos >= old(input).data@.len() ==> r == Err::<u8, GhwParseError>(
            GhwParseError::UnexpectedEof,
        ) && final(input).pos == old(input).pos,
{
    if input.pos < input.data.len() {
        let b = input.data[input.pos];
        input.pos = input.pos + 1;
        Ok(b)
    } else {
        Err(GhwParseError::UnexpectedEof)
    }
}

/// Reads the next `n` bytes.
pub fn read_exact(input: &mut Input, n: usize) -> (r: Result<Vec<u8>, GhwParseError>)
    requires
        old(input).wf(),
    ensures
        final(input).wf(),
        final(input).same_data(old(input)),
        old(input).pos + n <= old(input).data@.len() ==> (r matches Ok(b) && b@ == old(
            input,
        ).data@.subrange(old(input).pos as int, old(input).pos + n) && final(input).pos
            == old(input).pos + n),
        old(input).pos + n > old(input).data@.len() ==> r == Err::<Vec<u8>, GhwParseError>(
            GhwParseError::UnexpectedEof,
        ),
{
    if n > input.data.len() - input.pos {
        return Err(GhwParseError::UnexpectedEof);
    }
    let start = input.pos;
    let len = input.data.len();
    let mut out: Vec<u8> = Vec::with_capacity(n);
    let mut i: usize = 0;
    while i < n
        invariant
            start + n <= len,
            len == input.data@.len(),
            i <= n,
            out@ == input.data@.subrange(start as int, start + i),
        decreases n - i,
    {
        out.push(input.data[start + i]);
        i = i + 1;
    }
    input.pos = start + n;
    Ok(out)
}

/// The unsigned value of four bytes in the given byte order.
pub open spec fn word32(b: Seq<u8>, big_endian: bool) -> int {
    if big_endian {
        b[3] + 0x100 * b[2] + 0x1_0000 * b[1] + 0x100_0000 * b[0]
    } else {
        b[0] + 0x100 * b[1] + 0x1_0000 * b[2] + 0x100_0000 * b[3]
    }
}

/// The unsigned value of eight bytes in the given byte order.
pub open spec fn word64(b: Seq<u8>, big_endian: bool) -> int {
    if big_endian {
        word32(b.subrange(4, 8), true) + 0x1_0000_0000 * word32(b.subrange(0, 4), true)
    } else {
        word32(b.subrange(0, 4), false) + 0x1_0000_0000 * word32(b.subrange(4, 8), false)
    }
}

/// Two's complement reading of a 32-bit word.
pub open spec fn signed32(u: int) -> int {
    if u >= 0x8000_0000 {
        u - 0x1_0000_0000
    } else {
        u
    }
}

/// Two's complement reading of a 64-bit word.
pub open spec fn signed64(u: int) -> int {
    if u >= 0x8000_0000_0000_0000 {
        u - 0x1_0000_0000_0000_0000
    } else {
        u
    }
}

fn word32_of(b: &[u8], at: usize, big_endian: bool) -> (r: u32)
    requires
        at + 4 <= b@.len(),
    ensures
        r == word32(b@.subrange(at as int, at + 4), big_endian),
{
    let _len = b.len();
    let (b0, b1, b2, b3) = if big_endian {
        (b[at + 3] as u32, b[at + 2] as u32, b[at + 1] as u32, b[at] as u32)
    } else {
        (b[at] as u32, b[at + 1] as u32, b[at + 2] as u32, b[at + 3] as u32)
    };
    b0 + 0x100 * b1 + 0x1_0000 * b2 + 0x100_0000 * b3
}

impl HeaderData {
    /// Reads a signed 32-bit integer, in the file's byte order, from the front of `b`.
    pub fn read_i32(&self, b: &[u8]) -> (r: Result<i32, GhwParseError>)
        ensures
            b@.len() >= 4 ==> r == Ok::<i32, GhwParseError>(
                signed32(word32(b@.subrange(0, 4), self.big_endian)) as i32,
            ),
            b@.len() < 4 ==> r == Err::<i32, GhwParseError>(GhwParseError::UnexpectedEof),
    {
        if b.len() < 4 {
            return Err(GhwParseError::UnexpectedEof);
        }
        let u = word32_of(b, 0, self.big_endian);
        if u >= 0x8000_0000 {
            Ok((u as i64 - 0x1_0000_0000i64) as i32)
        } else {
            Ok(u as i32)
        }
    }

    /// Reads a 32-bit count or offset, which must not be negative, from the front of `b`.
    pub fn read_u32(&self, b: &[u8]) -> (r: Result<u32, GhwParseError>)
        ensures
            b@.len() >= 4 && word32(b@.subrange(0, 4), self.big_endian) < 0x8000_0000 ==> r
                == Ok::<u32, GhwParseError>(word32(b@.subrange(0, 4), self.big_endian) as u32),
            b@.len() >= 4 && word32(b@.subrange(0, 4), self.big_endian) >= 0x8000_0000 ==> r
                == Err::<u32, GhwParseError>(
                GhwParseError::ExpectedPositiveInteger(
                    signed32(word32(b@.subrange(0, 4), self.big_endian)) as i64,
                ),
            ),
            b@.len() < 4 ==> r == Err::<u32, GhwParseError>(GhwParseError::UnexpectedEof),
    {
        let ii = self.read_i32(b)?;
        if ii >= 0 {
            Ok(ii as u32)
        } else {
            Err(GhwParseError::ExpectedPositiveInteger(ii as i64))
        }
    }

    /// Reads a signed 64-bit integer, in the file's byte order, from the front of `b`.
    pub fn read_i64(&self, b: &[u8]) -> (r: Result<i64, GhwParseError>)
        ensures
            b@.len() >= 8 ==> r == Ok::<i64, GhwParseError>(
                signed64(word64(b@.subrange(0, 8), self.big_endian)) as i64,
            ),
            b@.len() < 8 ==> r == Err::<i64, GhwParseError>(GhwParseError::UnexpectedEof),
    {
        if b.len() < 8 {
            return Err(GhwParseError::UnexpectedEof);
        }
        let (hi, lo) = if self.big_endian {
            (word32_of(b, 0, true), word32_of(b, 4, true))
        } else {
            (word32_of(b, 4, false), word32_of(b, 0, false))
        };
        proof {
            let s = b@.subrange(0, 8);
            assert(s.subrange(0, 4) =~= b@.subrange(0, 4));
            assert(s.subrange(4, 8) =~= b@.subrange(4, 8));
        }
        if hi >= 0x8000_0000 {
            let top: i64 = (hi - 0x8000_0000) as i64;
            Ok(top * 0x1_0000_0000i64 + lo as i64 - 0x7fff_ffff_ffff_ffffi64 - 1)
        } else {
            Ok((hi as i64) * 0x1_0000_0000i64 + lo as i64)
        }
    }
}

} // verus!
