use vstd::prelude::*;
use crate::error::{Error, ReadError, eof, out_of_bounds};

verus! {

/// The byte at `p`.
pub open spec fn u8_at(d: Seq<u8>, p: int) -> u8 {
    d[p]
}

/// Two's complement reading of a byte.
pub open spec fn i8_of(v: u8) -> i8 {
    if v >= 0x80 { (v - 0x100) as i8 } else { v as i8 }
}

/// The big-endian `u16` that starts at `p`.
pub open spec fn u16_at(d: Seq<u8>, p: int) -> u16 {
    (d[p] as int * 256 + d[p + 1] as int) as u16
}

/// Two's complement reading of a 16-bit word.
pub open spec fn i16_of(v: u16) -> i16 {
    if v >= 0x8000 { (v - 0x10000) as i16 } else { v as i16 }
}

/// The big-endian `i16` that starts at `p`.
pub open spec fn i16_at(d: Seq<u8>, p: int) -> i16 {
    i16_of(u16_at(d, p))
}

/// The big-endian `u32` that starts at `p`.
pub open spec fn u32_at(d: Seq<u8>, p: int) -> u32 {
    (u16_at(d, p) as int * 0x10000 + u16_at(d, p + 2) as int) as u32
}

/// The big-endian `u64` that starts at `p`.
pub open spec fn u64_at(d: Seq<u8>, p: int) -> u64 {
    (u32_at(d, p) as int * 0x1_0000_0000 + u32_at(d, p + 4) as int) as u64
}

/// The big-endian `i64` that starts at `p`.
pub open spec fn i64_at(d: Seq<u8>, p: int) -> i64 {
    let v = u64_at(d, p) as int;
    if v >= 0x8000_0000_0000_0000 { (v - 0x1_0000_0000_0000_0000) as i64 } else { v as i64 }
}

/// `n` consecutive big-endian `u16` values starting at `p`.
pub open spec fn u16_seq(d: Seq<u8>, p: int, n: int) -> Seq<u16> {
    Seq::new(n as nat, |i: int| u16_at(d, p + 2 * i))
}

/// `n` consecutive big-endian `i16` values starting at `p`.
pub open spec fn i16_seq(d: Seq<u8>, p: int, n: int) -> Seq<i16> {
    Seq::new(n as nat, |i: int| i16_at(d, p + 2 * i))
}

/// `n` consecutive big-endian `u32` values starting at `p`.
pub open spec fn u32_seq(d: Seq<u8>, p: int, n: int) -> Seq<u32> {
    Seq::new(n as nat, |i: int| u32_at(d, p + 4 * i))
}

/// Whether `n` bytes starting at `p` lie inside the data.
pub open spec fn fits(d: Seq<u8>, p: int, n: int) -> bool {
    0 <= p && p + n <= d.len()
}

/// A signed 2.14 fixed-point number, kept as its raw 16 bits.
#[derive(Debug, Clone, Copy, PartialEq, Eq, Structural)]
pub struct F2Dot14(pub i16);

/// A reading position in a borrowed byte buffer. Reads are big-endian, as in every
/// OpenType table, and advance the position; a read or a seek that would leave the
/// buffer fails and leaves the cursor as it was.
pub struct Cursor<'a> {
    pub data: &'a [u8],
    pub pos: usize,
}

impl<'a> Cursor<'a> {
    /// The bytes the cursor reads.
    pub open spec fn bytes(&self) -> Seq<u8> {
        self.data@
    }

    /// A cursor over `data` placed at `pos`.
    pub fn set(data: &'a [u8], pos: usize) -> (c: Cursor<'a>)
        ensures
            c.data@ == data@,
            c.pos == pos,
    {
        Cursor { data, pos }
    }

    /// The current position.
    pub fn position(&self) -> (p: usize)
        ensures
            p == self.pos,
    {
        self.pos
    }

    /// The length of the data.
    pub fn size(&self) -> (n: usize)
        ensures
            n == self.data@.len(),
    {
        self.data.len()
    }

    /// Moves to `pos`; fails when `pos` lies past the end of the data.
    pub fn seek(&mut self, pos: usize) -> (r: Result<(), Error>)
        ensures
            final(self).data@ == old(self).data@,
            r is Ok <==> pos <= old(self).data@.len(),
            r is Ok ==> final(self).pos == pos,
            r is Err ==> final(self).pos == old(self).pos && r == Err::<(), Error>(out_of_bounds()),
    {
        if pos <= self.data.len() {
            self.pos = pos;
            Ok(())
        } else {
            Err(Error::ReadError(ReadError::OutOfBounds))
        }
    }

    /// Moves to `base + off`; fails when that lies past the end of the data.
    pub fn seek_rel(&mut self, base: usize, off: usize) -> (r: Result<(), Error>)
        ensures
            final(self).data@ == old(self).data@,
            r is Ok <==> base + off <= old(self).data@.len(),
            r is Ok ==> final(self).pos == base + off,
            r is Err ==> final(self).pos == old(self).pos && r == Err::<(), Error>(out_of_bounds()),
    {
        if off <= self.data.len() && base <= self.data.len() - off {
            self.pos = base + off;
            Ok(())
        } else {
            Err(Error::ReadError(ReadError::OutOfBounds))
        }
    }

    /// Checks that `n` more bytes can be read, without moving.
    pub fn require(&self, n: usize) -> (r: Result<(), Error>)
        ensures
            r is Ok <==> fits(self.data@, self.pos as int, n as int),
            r is Err ==> r == Err::<(), Error>(eof()),
    {
        if self.has(n) { Ok(()) } else { Err(Error::ReadError(ReadError::UnexpectedEof)) }
    }

    /// Whether `n` more bytes can be read.
    fn has(&self, n: usize) -> (b: bool)
        ensures
            b == fits(self.data@, self.pos as int, n as int),
    {
        n <= self.data.len() && self.pos <= self.data.len() - n
    }

    pub fn read_u8(&mut self) -> (r: Result<u8, Error>)
        ensures
            final(self).data@ == old(self).data@,
            r is Ok <==> fits(old(self).data@, old(self).pos as int, 1),
            r matches Ok(v) ==> v == u8_at(old(self).data@, old(self).pos as int)
                && final(self).pos == old(self).pos + 1,
            r is Err ==> final(self).pos == old(self).pos && r == Err::<u8, Error>(eof()),
    {
        if !self.has(1) {
            return Err(Error::ReadError(ReadError::UnexpectedEof));
        }
        let v = self.data[self.pos];
        self.pos = self.pos + 1;
        Ok(v)
    }

    pub fn read_i8(&mut self) -> (r: Result<i8, Error>)
        ensures
            final(self).data@ == old(self).data@,
            r is Ok <==> fits(old(self).data@, old(self).pos as int, 1),
            r matches Ok(v) ==> v == i8_of(u8_at(old(self).data@, old(self).pos as int))
                && final(self).pos == old(self).pos + 1,
            r is Err ==> final(self).pos == old(self).pos && r == Err::<i8, Error>(eof()),
    {
        let v = self.read_u8()?;
        if v >= 0x80 {
            Ok((v as i16 - 0x100) as i8)
        } else {
            Ok(v as i8)
        }
    }

    pub fn read_u16(&mut self) -> (r: Result<u16, Error>)
        ensures
            final(self).data@ == old(self).data@,
            r is Ok <==> fits(old(self).data@, old(self).pos as int, 2),
            r matches Ok(v) ==> v == u16_at(old(self).data@, old(self).pos as int)
                && final(self).pos == old(self).pos + 2,
            r is Err ==> final(self).pos == old(self).pos && r == Err::<u16, Error>(eof()),
    {
        if !self.has(2) {
            return Err(Error::ReadError(ReadError::UnexpectedEof));
        }
        let hi = self.data[self.pos] as u16;
        let lo = self.data[self.pos + 1] as u16;
        self.pos = self.pos + 2;
        Ok(hi * 256 + lo)
    }

    pub fn read_i16(&mut self) -> (r: Result<i16, Error>)
        ensures
            final(self).data@ == old(self).data@,
            r is Ok <==> fits(old(self).data@, old(self).pos as int, 2),
            r matches Ok(v) ==> v == i16_at(old(self).data@, old(self).pos as int)
                && final(self).pos == old(self).pos + 2,
            r is Err ==> final(self).pos == old(self).pos && r == Err::<i16, Error>(eof()),
    {
        let v = self.read_u16()?;
        if v >= 0x8000 {
            Ok((v as i32 - 0x10000) as i16)
        } else {
            Ok(v as i16)
        }
    }

    pub fn read_u32(&mut self) -> (r: Result<u32, Error>)
        ensures
            final(self).data@ == old(self).data@,
            r is Ok <==> fits(old(self).data@, old(self).pos as int, 4),
            r matches Ok(v) ==> v == u32_at(old(self).data@, old(self).pos as int)
                && final(self).pos == old(self).pos + 4,
            r is Err ==> final(self).pos == old(self).pos && r == Err::<u32, Error>(eof()),
    {
        if !self.has(4) {
            return Err(Error::ReadError(ReadError::UnexpectedEof));
        }
        let hi = self.read_u16()?;
        let lo = self.read_u16()?;
        Ok(hi as u32 * 0x10000 + lo as u32)
    }

    pub fn read_i64(&mut self) -> (r: Result<i64, Error>)
        ensures
            final(self).data@ == old(self).data@,
            r is Ok <==> fits(old(self).data@, old(self).pos as int, 8),
            r matches Ok(v) ==> v == i64_at(old(self).data@, old(self).pos as int)
                && final(self).pos == old(self).pos + 8,
            r is Err ==> final(self).pos == old(self).pos && r == Err::<i64, Error>(eof()),
    {
        if !self.has(8) {
            return Err(Error::ReadError(ReadError::UnexpectedEof));
        }
        let hi = self.read_u32()?;
        let lo = self.read_u32()?;
        let v: u64 = hi as u64 * 0x1_0000_0000 + lo as u64;
        if v >= 0x8000_0000_0000_0000 {
            Ok((v as i128 - 0x1_0000_0000_0000_0000) as i64)
        } else {
            Ok(v as i64)
        }
    }

    pub fn read_f2dot14(&mut self) -> (r: Result<F2Dot14, Error>)
        ensures
            final(self).data@ == old(self).data@,
            r is Ok <==> fits(old(self).data@, old(self).pos as int, 2),
            r matches Ok(v) ==> v.0 == i16_at(old(self).data@, old(self).pos as int)
                && final(self).pos == old(self).pos + 2,
            r is Err ==> final(self).pos == old(self).pos && r == Err::<F2Dot14, Error>(eof()),
    {
        let v = self.read_i16()?;
        Ok(F2Dot14(v))
    }

    /// Reads `n` consecutive `u16` values.
    pub fn read_u16_array(&mut self, n: usize) -> (r: Result<Vec<u16>, Error>)
        ensures
            final(self).data@ == old(self).data@,
            r is Ok <==> fits(old(self).data@, old(self).pos as int, 2 * n),
            r matches Ok(v) ==> v@ == u16_seq(old(self).data@, old(self).pos as int, n as int)
                && final(self).pos == old(self).pos + 2 * n,
            r is Err ==> final(self).pos == old(self).pos && r == Err::<Vec<u16>, Error>(eof()),
    {
        if n > self.data.len() / 2 || !self.has(2 * n) {
            return Err(Error::ReadError(ReadError::UnexpectedEof));
        }
        let start = self.pos;
        let mut out: Vec<u16> = Vec::with_capacity(n);
        let mut i: usize = 0;
        while i < n
            invariant
                i <= n,
                self.data@ == old(self).data@,
                self.pos == start + 2 * i,
                start == old(self).pos,
                fits(self.data@, start as int, 2 * n),
                out@ == u16_seq(self.data@, start as int, i as int),
            decreases n - i,
        {
            let v = self.read_u16()?;
            out.push(v);
            i = i + 1;
            assert(out@ =~= u16_seq(self.data@, start as int, i as int));
        }
        Ok(out)
    }

    /// Reads `n` consecutive `u32` values.
    pub fn read_u32_array(&mut self, n: usize) -> (r: Result<Vec<u32>, Error>)
        ensures
            final(self).data@ == old(self).data@,
            r is Ok <==> fits(old(self).data@, old(self).pos as int, 4 * n),
            r matches Ok(v) ==> v@ == u32_seq(old(self).data@, old(self).pos as int, n as int)
                && final(self).pos == old(self).pos + 4 * n,
            r is Err ==> final(self).pos == old(self).pos && r == Err::<Vec<u32>, Error>(eof()),
    {
        if n > self.data.len() / 4 || !self.has(4 * n) {
            return Err(Error::ReadError(ReadError::UnexpectedEof));
        }
        let start = self.pos;
        let mut out: Vec<u32> = Vec::with_capacity(n);
        let mut i: usize = 0;
        while i < n
            invariant
                i <= n,
                self.data@ == old(self).data@,
                self.pos == start + 4 * i,
                start == old(self).pos,
                fits(self.data@, start as int, 4 * n),
                out@ == u32_seq(self.data@, start as int, i as int),
            decreases n - i,
        {
            let v = self.read_u32()?;
            out.push(v);
            i = i + 1;
            assert(out@ =~= u32_seq(self.data@, start as int, i as int));
        }
        Ok(out)
    }

    /// Reads `n` consecutive `i16` values.
    pub fn read_i16_array(&mut self, n: usize) -> (r: Result<Vec<i16>, Error>)
        ensures
            final(self).data@ == old(self).data@,
            r is Ok <==> fits(old(self).data@, old(self).pos as int, 2 * n),
            r matches Ok(v) ==> v@ == i16_seq(old(self).data@, old(self).pos as int, n as int)
                && final(self).pos == old(self).pos + 2 * n,
            r is Err ==> final(self).pos == old(self).pos && r == Err::<Vec<i16>, Error>(eof()),
    {
        if n > self.data.len() / 2 || !self.has(2 * n) {
            return Err(Error::ReadError(ReadError::UnexpectedEof));
        }
        let start = self.pos;
        let mut out: Vec<i16> = Vec::with_capacity(n);
        let mut i: usize = 0;
        while i < n
            invariant
                i <= n,
                self.data@ == old(self).data@,
                self.pos == start + 2 * i,
                start == old(self).pos,
                fits(self.data@, start as int, 2 * n),
                out@ == i16_seq(self.data@, start as int, i as int),
            decreases n - i,
        {
            let v = self.read_i16()?;
            out.push(v);
            i = i + 1;
            assert(out@ =~= i16_seq(self.data@, start as int, i as int));
        }
        Ok(out)
    }
}

} // verus!
