//! Big-endian integers in byte sequences, and a cursor that reads them.

use crate::types::TplError;
use vstd::prelude::*;
use vstd::slice::{slice_subrange, slice_to_vec};

verus! {

/// The 16-bit integer stored big-endian at `at`.
pub open spec fn be_u16(s: Seq<u8>, at: int) -> u16 {
    (s[at] as int * 0x100 + s[at + 1] as int) as u16
}

/// The 32-bit integer stored big-endian at `at`.
pub open spec fn be_u32(s: Seq<u8>, at: int) -> u32 {
    (s[at] as int * 0x100_0000 + s[at + 1] as int * 0x1_0000 + s[at + 2] as int * 0x100 + s[at
        + 3] as int) as u32
}

/// The two bytes that store `v` big-endian.
pub open spec fn u16_bytes(v: u16) -> Seq<u8> {
    seq![(v / 0x100) as u8, (v % 0x100) as u8]
}

/// The four bytes that store `v` big-endian.
pub open spec fn u32_bytes(v: u32) -> Seq<u8> {
    seq![
        (v / 0x100_0000) as u8,
        ((v / 0x1_0000) % 0x100) as u8,
        ((v / 0x100) % 0x100) as u8,
        (v % 0x100) as u8,
    ]
}

/// `n` bytes of zero.
pub open spec fn zeros(n: int) -> Seq<u8> {
    Seq::new(n as nat, |i: int| 0u8)
}

/// An integer is read back from the bytes that store it.
pub proof fn lemma_be_u16_of_bytes(s: Seq<u8>, at: int, v: u16)
    requires
        0 <= at,
        at + 2 <= s.len(),
        s.subrange(at, at + 2) == u16_bytes(v),
    ensures
        be_u16(s, at) == v,
{
    assert(s[at] == s.subrange(at, at + 2)[0]);
    assert(s[at + 1] == s.subrange(at, at + 2)[1]);
}

/// An integer is read back from the bytes that store it.
pub proof fn lemma_be_u32_of_bytes(s: Seq<u8>, at: int, v: u32)
    requires
        0 <= at,
        at + 4 <= s.len(),
        s.subrange(at, at + 4) == u32_bytes(v),
    ensures
        be_u32(s, at) == v,
{
    assert(s[at] == s.subrange(at, at + 4)[0]);
    assert(s[at + 1] == s.subrange(at, at + 4)[1]);
    assert(s[at + 2] == s.subrange(at, at + 4)[2]);
    assert(s[at + 3] == s.subrange(at, at + 4)[3]);
}

/// Bytes appended to appended bytes are appended in one piece.
pub proof fn lemma_appended(start: Seq<u8>, done: Seq<u8>, more: Seq<u8>)
    ensures
        (start + done) + more == start + (done + more),
{
    assert((start + done) + more =~= start + (done + more));
}

/// Appends `v` big-endian.
pub fn put_u16(out: &mut Vec<u8>, v: u16)
    ensures
        final(out)@ == old(out)@ + u16_bytes(v),
{
    out.push((v / 0x100) as u8);
    out.push((v % 0x100) as u8);
    assert(out@ =~= old(out)@ + u16_bytes(v));
}

/// Appends `v` big-endian.
pub fn put_u32(out: &mut Vec<u8>, v: u32)
    ensures
        final(out)@ == old(out)@ + u32_bytes(v),
{
    out.push((v / 0x100_0000) as u8);
    out.push(((v / 0x1_0000) % 0x100) as u8);
    out.push(((v / 0x100) % 0x100) as u8);
    out.push((v % 0x100) as u8);
    assert(out@ =~= old(out)@ + u32_bytes(v));
}

/// A read position in a sequence of bytes. The position never lies past the
/// end of the bytes.
pub struct ByteCursor<'a> {
    data: &'a [u8],
    pos: usize,
}

impl<'a> ByteCursor<'a> {
    #[verifier::type_invariant]
    spec fn in_bounds(self) -> bool {
        self.pos <= self.data@.len()
    }

    /// The bytes that the cursor reads.
    pub closed spec fn bytes(&self) -> Seq<u8> {
        self.data@
    }

    /// The position of the cursor.
    pub closed spec fn offset(&self) -> int {
        self.pos as int
    }

    /// A cursor at the start of `data`.
    pub fn new(data: &'a [u8]) -> (r: Self)
        ensures
            r.bytes() == data@,
            r.offset() == 0,
    {
        ByteCursor { data, pos: 0 }
    }

    /// The position of the cursor, which is never past the end.
    pub fn stream_position(&self) -> (r: usize)
        ensures
            r == self.offset(),
            r <= self.bytes().len(),
    {
        proof {
            use_type_invariant(self);
        }
        self.pos
    }

    /// Number of bytes from the position to the end.
    pub fn remaining(&self) -> (r: usize)
        ensures
            r == self.bytes().len() - self.offset(),
    {
        proof {
            use_type_invariant(self);
        }
        self.data.len() - self.pos
    }

    /// Moves to position `to`. A position past the end is an `IOError` and
    /// leaves the cursor where it was.
    pub fn seek(&mut self, to: usize) -> (r: Result<(), TplError>)
        ensures
            final(self).bytes() == old(self).bytes(),
            r is Ok <==> to <= old(self).bytes().len(),
            r is Ok ==> final(self).offset() == to,
            r is Err ==> r == Err::<(), TplError>(TplError::IOError) && final(self).offset() == old(self).offset(),
    {
        if to <= self.data.len() {
            self.pos = to;
            Ok(())
        } else {
            Err(TplError::IOError)
        }
    }

    /// Reads one byte. At the end it is an `IOError` and the cursor stays.
    pub fn read_u8(&mut self) -> (r: Result<u8, TplError>)
        ensures
            final(self).bytes() == old(self).bytes(),
            r is Ok <==> old(self).offset() + 1 <= old(self).bytes().len(),
            r matches Ok(v) ==> v == old(self).bytes()[old(self).offset()] && final(self).offset()
                == old(self).offset() + 1,
            r is Err ==> r == Err::<u8, TplError>(TplError::IOError) && final(self).offset() == old(self).offset(),
    {
        proof {
            use_type_invariant(&*self);
        }
        if self.data.len() - self.pos < 1 {
            return Err(TplError::IOError);
        }
        let v = self.data[self.pos];
        self.pos = self.pos + 1;
        Ok(v)
    }

    /// Reads a big-endian 16-bit integer. With fewer than two bytes left it
    /// is an `IOError` and the cursor stays.
    pub fn read_u16(&mut self) -> (r: Result<u16, TplError>)
        ensures
            final(self).bytes() == old(self).bytes(),
            r is Ok <==> old(self).offset() + 2 <= old(self).bytes().len(),
            r matches Ok(v) ==> v == be_u16(old(self).bytes(), old(self).offset()) && final(self).offset() == old(self).offset() + 2,
            r is Err ==> r == Err::<u16, TplError>(TplError::IOError) && final(self).offset()
                == old(self).offset(),
    {
        proof {
            use_type_invariant(&*self);
        }
        if self.data.len() - self.pos < 2 {
            return Err(TplError::IOError);
        }
        let b0 = self.data[self.pos] as u16;
        let b1 = self.data[self.pos + 1] as u16;
        self.pos = self.pos + 2;
        Ok(b0 * 0x100 + b1)
    }

    /// Reads a big-endian 32-bit integer. With fewer than four bytes left it
    /// is an `IOError` and the cursor stays.
    pub fn read_u32(&mut self) -> (r: Result<u32, TplError>)
        ensures
            final(self).bytes() == old(self).bytes(),
            r is Ok <==> old(self).offset() + 4 <= old(self).bytes().len(),
            r matches Ok(v) ==> v == be_u32(old(self).bytes(), old(self).offset()) && final(self).offset() == old(self).offset() + 4,
            r is Err ==> r == Err::<u32, TplError>(TplError::IOError) && final(self).offset()
                == old(self).offset(),
    {
        proof {
            use_type_invariant(&*self);
        }
        if self.data.len() - self.pos < 4 {
            return Err(TplError::IOError);
        }
        let b0 = self.data[self.pos] as u32;
        let b1 = self.data[self.pos + 1] as u32;
        let b2 = self.data[self.pos + 2] as u32;
        let b3 = self.data[self.pos + 3] as u32;
        self.pos = self.pos + 4;
        Ok(b0 * 0x100_0000 + b1 * 0x1_0000 + b2 * 0x100 + b3)
    }

    /// Reads `n` bytes. With fewer than `n` bytes left it is an `IOError`
    /// and the cursor stays.
    pub fn read_exact(&mut self, n: usize) -> (r: Result<Vec<u8>, TplError>)
        ensures
            final(self).bytes() == old(self).bytes(),
            r is Ok <==> old(self).offset() + n <= old(self).bytes().len(),
            r matches Ok(v) ==> v@ == old(self).bytes().subrange(
                old(self).offset(),
                old(self).offset() + n,
            ) && final(self).offset() == old(self).offset() + n,
            r is Err ==> r == Err::<Vec<u8>, TplError>(TplError::IOError) && final(self).offset()
                == old(self).offset(),
    {
        proof {
            use_type_invariant(&*self);
        }
        if self.data.len() - self.pos < n {
            return Err(TplError::IOError);
        }
        let v = slice_to_vec(slice_subrange(self.data, self.pos, self.pos + n));
        self.pos = self.pos + n;
        Ok(v)
    }
}

/// Appends a byte.
pub fn put_u8(out: &mut Vec<u8>, v: u8)
    ensures
        final(out)@ == old(out)@ + seq![v],
{
    out.push(v);
    assert(out@ =~= old(out)@ + seq![v]);
}

} // verus!
