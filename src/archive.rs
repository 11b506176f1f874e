//! Positioned little-endian reads over a byte buffer, and the matching writes.
use byteorder::{ByteOrder, LittleEndian};
use vstd::prelude::*;

use crate::error::Error;

verus! {

/// The value of four bytes read least significant first.
pub open spec fn le_u32(b0: u8, b1: u8, b2: u8, b3: u8) -> nat {
    b0 as nat + 256 * (b1 as nat) + 65536 * (b2 as nat) + 16777216 * (b3 as nat)
}

/// The four bytes of `n`, least significant first.
pub open spec fn le_bytes_u32(n: u32) -> Seq<u8> {
    seq![
        (n % 256) as u8,
        ((n / 256) % 256) as u8,
        ((n / 65536) % 256) as u8,
        (n / 16777216) as u8,
    ]
}

/// The four bytes of `n` in two's complement, least significant first.
pub open spec fn le_bytes_i32(n: i32) -> Seq<u8> {
    le_bytes_u32(n as u32)
}

/// The value of the four bytes of `s` that start at `at`.
pub open spec fn u32_at(s: Seq<u8>, at: int) -> u32 {
    le_u32(s[at], s[at + 1], s[at + 2], s[at + 3]) as u32
}

/// The two's complement value of the four bytes of `s` that start at `at`.
pub open spec fn i32_at(s: Seq<u8>, at: int) -> i32 {
    u32_at(s, at) as i32
}

/// Reading back the bytes of a `u32` gives the same `u32`.
pub proof fn lemma_u32_round_trip(n: u32)
    ensures
        u32_at(le_bytes_u32(n), 0) == n,
{
    let b = le_bytes_u32(n);
    assert(b[0] as nat + 256 * (b[1] as nat) + 65536 * (b[2] as nat) + 16777216 * (b[3] as nat)
        == n as nat) by (nonlinear_arith)
        requires
            b[0] == (n % 256) as u8,
            b[1] == ((n / 256) % 256) as u8,
            b[2] == ((n / 65536) % 256) as u8,
            b[3] == (n / 16777216) as u8,
    {
    }
}

/// Writing back the value of four bytes gives the same four bytes.
pub proof fn lemma_u32_bytes_round_trip(s: Seq<u8>, at: int)
    requires
        0 <= at,
        at + 4 <= s.len(),
    ensures
        le_bytes_u32(u32_at(s, at)) == s.subrange(at, at + 4),
{
    let b0 = s[at] as u32;
    let b1 = s[at + 1] as u32;
    let b2 = s[at + 2] as u32;
    let b3 = s[at + 3] as u32;
    let n = u32_at(s, at);
    assert(n == b0 + 256 * b1 + 65536 * b2 + 16777216 * b3);
    assert(b0 < 256 && b1 < 256 && b2 < 256 && b3 < 256);
    assert(n % 256 == b0 && (n / 256) % 256 == b1 && (n / 65536) % 256 == b2 && n / 16777216
        == b3) by (bit_vector)
        requires
            b0 < 256 && b1 < 256 && b2 < 256 && b3 < 256,
            n == b0 + 256 * b1 + 65536 * b2 + 16777216 * b3,
    ;
    assert(le_bytes_u32(n) =~= s.subrange(at, at + 4));
}

/// Four bytes that spell `n` read back as `n`.
pub proof fn lemma_u32_at(s: Seq<u8>, at: int, n: u32)
    requires
        0 <= at,
        at + 4 <= s.len(),
        s.subrange(at, at + 4) == le_bytes_u32(n),
    ensures
        u32_at(s, at) == n,
{
    lemma_u32_round_trip(n);
    let b = le_bytes_u32(n);
    assert(s[at] == s.subrange(at, at + 4)[0]);
    assert(s[at + 1] == s.subrange(at, at + 4)[1]);
    assert(s[at + 2] == s.subrange(at, at + 4)[2]);
    assert(s[at + 3] == s.subrange(at, at + 4)[3]);
}

/// Four bytes that spell `v` in two's complement read back as `v`.
pub proof fn lemma_i32_at(s: Seq<u8>, at: int, v: i32)
    requires
        0 <= at,
        at + 4 <= s.len(),
        s.subrange(at, at + 4) == le_bytes_i32(v),
    ensures
        i32_at(s, at) == v,
{
    lemma_u32_at(s, at, v as u32);
    assert((v as u32) as i32 == v) by (bit_vector);
}

/// Relies on byteorder's `LittleEndian::read_u32`: the first four bytes, least significant first.
#[verifier::external_body]
fn read_le_u32(buf: &[u8]) -> (r: u32)
    requires
        buf@.len() >= 4,
    ensures
        r as nat == le_u32(buf@[0], buf@[1], buf@[2], buf@[3]),
{
    LittleEndian::read_u32(buf)
}

/// Relies on byteorder's `LittleEndian::write_u32`: the four bytes of `n`, least significant first.
#[verifier::external_body]
fn write_le_u32(n: u32) -> (r: [u8; 4])
    ensures
        r@ == le_bytes_u32(n),
{
    let mut buf = [0u8; 4];
    LittleEndian::write_u32(&mut buf, n);
    buf
}


/// A read cursor over a byte buffer.
pub struct Reader {
    pub data: Vec<u8>,
    pub pos: usize,
}

impl Reader {
    /// The cursor never stands past the end of the buffer.
    pub open spec fn wf(&self) -> bool {
        self.pos <= self.data@.len()
    }

    /// The bytes not read yet.
    pub open spec fn rest(&self) -> Seq<u8> {
        self.data@.subrange(self.pos as int, self.data@.len() as int)
    }

    /// A cursor at the start of `data`.
    pub fn new(data: Vec<u8>) -> (r: Reader)
        ensures
            r.wf(),
            r.data@ == data@,
            r.pos == 0,
    {
        Reader { data, pos: 0 }
    }

    pub fn position(&self) -> (r: usize)
        ensures
            r == self.pos,
    {
        self.pos
    }

    /// Moves the cursor to `pos`; a position past the end is refused.
    pub fn set_position(&mut self, pos: usize) -> (r: Result<(), Error>)
        requires
            old(self).wf(),
        ensures
            final(self).wf(),
            final(self).data == old(self).data,
            pos <= old(self).data@.len() ==> r is Ok && final(self).pos == pos,
            pos > old(self).data@.len() ==> r == Err::<(), Error>(Error::UnexpectedEof { offset: pos })
                && final(self).pos == old(self).pos,
    {
        if pos <= self.data.len() {
            self.pos = pos;
            Ok(())
        } else {
            Err(Error::UnexpectedEof { offset: pos })
        }
    }

    /// Reads one byte.
    pub fn read_u8(&mut self) -> (r: Result<u8, Error>)
        requires
            old(self).wf(),
        ensures
            final(self).wf(),
            final(self).data == old(self).data,
            old(self).pos + 1 <= old(self).data@.len() ==> r == Ok::<u8, Error>(
                old(self).data@[old(self).pos as int],
            ) && final(self).pos == old(self).pos + 1,
            old(self).pos + 1 > old(self).data@.len() ==> r == Err::<u8, Error>(
                Error::UnexpectedEof { offset: old(self).pos },
            ) && final(self).pos == old(self).pos,
    {
        if self.pos < self.data.len() {
            let b = self.data[self.pos];
            self.pos = self.pos + 1;
            Ok(b)
        } else {
            Err(Error::UnexpectedEof { offset: self.pos })
        }
    }

    /// Reads a little-endian `u32`.
    pub fn read_u32(&mut self) -> (r: Result<u32, Error>)
        requires
            old(self).wf(),
        ensures
            final(self).wf(),
            final(self).data == old(self).data,
            old(self).pos + 4 <= old(self).data@.len() ==> r == Ok::<u32, Error>(
                u32_at(old(self).data@, old(self).pos as int),
            ) && final(self).pos == old(self).pos + 4,
            old(self).pos + 4 > old(self).data@.len() ==> r == Err::<u32, Error>(
                Error::UnexpectedEof { offset: old(self).pos },
            ) && final(self).pos == old(self).pos,
    {
        if self.data.len() - self.pos >= 4 {
            let end = self.pos + 4;
            let v = read_le_u32(&self.data.as_slice()[self.pos..end]);
            self.pos = end;
            Ok(v)
        } else {
            Err(Error::UnexpectedEof { offset: self.pos })
        }
    }

    /// Reads a little-endian `i32` in two's complement.
    pub fn read_i32(&mut self) -> (r: Result<i32, Error>)
        requires
            old(self).wf(),
        ensures
            final(self).wf(),
            final(self).data == old(self).data,
            old(self).pos + 4 <= old(self).data@.len() ==> r == Ok::<i32, Error>(
                i32_at(old(self).data@, old(self).pos as int),
            ) && final(self).pos == old(self).pos + 4,
            old(self).pos + 4 > old(self).data@.len() ==> r == Err::<i32, Error>(
                Error::UnexpectedEof { offset: old(self).pos },
            ) && final(self).pos == old(self).pos,
    {
        match self.read_u32() {
            Ok(v) => Ok(v as i32),
            Err(e) => Err(e),
        }
    }

    /// Reads the next `n` bytes as they stand.
    pub fn read_bytes(&mut self, n: usize) -> (r: Result<Vec<u8>, Error>)
        requires
            old(self).wf(),
        ensures
            final(self).wf(),
            final(self).data == old(self).data,
            old(self).pos + n <= old(self).data@.len() ==> r is Ok
                && r->Ok_0@ == old(self).data@.subrange(old(self).pos as int, old(self).pos + n)
                && final(self).pos == old(self).pos + n,
            old(self).pos + n > old(self).data@.len() ==> r == Err::<Vec<u8>, Error>(
                Error::UnexpectedEof { offset: old(self).pos },
            ) && final(self).pos == old(self).pos,
    {
        if self.data.len() - self.pos < n {
            return Err(Error::UnexpectedEof { offset: self.pos });
        }
        let start = self.pos;
        let end = start + n;
        let mut out: Vec<u8> = Vec::new();
        let mut i: usize = start;
        while i < end
            invariant
                start <= i <= end,
                end <= self.data@.len(),
                out@ == self.data@.subrange(start as int, i as int),
            decreases end - i,
        {
            out.push(self.data[i]);
            i = i + 1;
            assert(out@ =~= self.data@.subrange(start as int, i as int));
        }
        self.pos = end;
        Ok(out)
    }
}

/// Appends the four little-endian bytes of `n`.
pub fn write_u32(out: &mut Vec<u8>, n: u32)
    ensures
        final(out)@ == old(out)@ + le_bytes_u32(n),
{
    let b = write_le_u32(n);
    let ghost before = out@;
    out.push(b[0]);
    out.push(b[1]);
    out.push(b[2]);
    out.push(b[3]);
    assert(out@ =~= before + le_bytes_u32(n));
}

/// Appends the four little-endian two's complement bytes of `n`.
pub fn write_i32(out: &mut Vec<u8>, n: i32)
    ensures
        final(out)@ == old(out)@ + le_bytes_i32(n),
{
    write_u32(out, n as u32);
}

/// Appends one byte.
pub fn write_u8(out: &mut Vec<u8>, b: u8)
    ensures
        final(out)@ == old(out)@.push(b),
{
    out.push(b);
}

/// Appends `bytes` as they stand.
pub fn write_bytes(out: &mut Vec<u8>, bytes: &Vec<u8>)
    ensures
        final(out)@ == old(out)@ + bytes@,
{
    let ghost before = out@;
    let mut i: usize = 0;
    while i < bytes.len()
        invariant
            i <= bytes@.len(),
            out@ == before + bytes@.subrange(0, i as int),
        decreases bytes@.len() - i,
    {
        out.push(bytes[i]);
        i = i + 1;
        assert(out@ =~= before + bytes@.subrange(0, i as int));
    }
    assert(bytes@.subrange(0, bytes@.len() as int) =~= bytes@);
}

} // verus!
