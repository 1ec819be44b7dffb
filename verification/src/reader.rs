//! A cursor over an owned byte buffer: little-endian primitive reads and a
//! null-terminated string read, each advancing the cursor and failing with
//! `Error::Truncated` when too few bytes remain.

use vstd::prelude::*;

use crate::errors::Error;

verus! {

/// The unsigned 16-bit little-endian value stored at `p`.
pub open spec fn le16(s: Seq<u8>, p: int) -> u16 {
    (s[p] as int + s[p + 1] as int * 0x100) as u16
}

/// The unsigned 32-bit little-endian value stored at `p`.
pub open spec fn le32(s: Seq<u8>, p: int) -> u32 {
    (s[p] as int + s[p + 1] as int * 0x100 + s[p + 2] as int * 0x10000 + s[p + 3] as int
        * 0x1000000) as u32
}

/// The unsigned 64-bit little-endian value stored at `p`.
pub open spec fn le64(s: Seq<u8>, p: int) -> u64 {
    (s[p] as int + s[p + 1] as int * 0x100 + s[p + 2] as int * 0x10000 + s[p + 3] as int
        * 0x1000000 + s[p + 4] as int * 0x100000000 + s[p + 5] as int * 0x10000000000 + s[p
        + 6] as int * 0x1000000000000 + s[p + 7] as int * 0x100000000000000) as u64
}

/// The signed 16-bit little-endian value stored at `p`.
pub open spec fn le16_i(s: Seq<u8>, p: int) -> i16 {
    le16(s, p) as i16
}

/// The signed 32-bit little-endian value stored at `p`.
pub open spec fn le32_i(s: Seq<u8>, p: int) -> i32 {
    le32(s, p) as i32
}

/// The index of the first zero byte at or after `p`, or the buffer length
/// when there is none.
pub open spec fn nul_pos(s: Seq<u8>, p: int) -> int
    decreases s.len() - p,
{
    if p < 0 || p >= s.len() {
        s.len() as int
    } else if s[p] == 0 {
        p
    } else {
        nul_pos(s, p + 1)
    }
}

/// A scan that saw no zero byte in `[p, q)` and stopped at a zero byte or at
/// the end of the buffer has found `nul_pos`.
pub proof fn lemma_nul_pos_found(s: Seq<u8>, p: int, q: int)
    requires
        0 <= p <= q <= s.len(),
        forall|i: int| p <= i < q ==> s[i] != 0,
        q == s.len() || s[q] == 0,
    ensures
        nul_pos(s, p) == q,
    decreases q - p,
{
    if p < q {
        lemma_nul_pos_found(s, p + 1, q);
    }
}

/// The bytes a null-terminated string read at `p` collects: everything up to
/// the first zero byte, or to the end of the buffer when there is none.
pub open spec fn str_bytes(s: Seq<u8>, p: int) -> Seq<u8> {
    if 0 <= p <= s.len() {
        s.subrange(p, nul_pos(s, p))
    } else {
        Seq::empty()
    }
}

/// The cursor position after a null-terminated string read at `p`: past the
/// terminator when one was found, else the end of the buffer.
pub open spec fn str_end(s: Seq<u8>, p: int) -> int {
    if nul_pos(s, p) < s.len() {
        nul_pos(s, p) + 1
    } else {
        s.len() as int
    }
}

/// The characters that lossy UTF-8 decoding yields for the given bytes.
pub uninterp spec fn utf8_lossy_of(bytes: Seq<u8>) -> Seq<char>;

/// Relies on String::from_utf8_lossy: decodes bytes as UTF-8 with invalid
/// sequences replaced by U+FFFD, a pure function of the bytes alone.
#[verifier::external_body]
fn utf8_lossy(bytes: &Vec<u8>) -> (r: String)
    ensures
        r@ == utf8_lossy_of(bytes@),
{
    String::from_utf8_lossy(bytes).into_owned()
}

/// An owned byte buffer with a read cursor.
pub struct Reader {
    data: Vec<u8>,
    pos: usize,
}

/// A cursor that can read a null-terminated string: bytes are collected up
/// to the first zero byte (consumed, not included) or to the end of the
/// buffer, then decoded as lossy UTF-8. This read never fails.
pub trait ReadString {
    /// The underlying bytes.
    spec fn buf(&self) -> Seq<u8>;

    /// The read cursor.
    spec fn cursor(&self) -> int;

    /// The cursor sits inside the buffer.
    spec fn cursor_ok(&self) -> bool;

    fn read_string(&mut self) -> (r: Result<String, Error>)
        requires
            old(self).cursor_ok(),
        ensures
            final(self).cursor_ok(),
            final(self).buf() == old(self).buf(),
            final(self).cursor() == str_end(old(self).buf(), old(self).cursor()),
            r is Ok,
            r->Ok_0@ == utf8_lossy_of(str_bytes(old(self).buf(), old(self).cursor())),
    ;
}

impl Reader {
    /// The buffer under the cursor.
    pub closed spec fn bytes(&self) -> Seq<u8> {
        self.data@
    }

    /// The cursor, as a position in `bytes()`.
    pub closed spec fn position(&self) -> int {
        self.pos as int
    }

    /// The cursor never passes the end of the buffer.
    pub closed spec fn wf(&self) -> bool {
        self.pos <= self.data.len()
    }

    pub fn new(data: Vec<u8>) -> (r: Reader)
        ensures
            r.wf(),
            r.bytes() == data@,
            r.position() == 0,
    {
        Reader { data, pos: 0 }
    }

    /// How many bytes remain past the cursor.
    pub fn remaining(&self) -> (n: usize)
        requires
            self.wf(),
        ensures
            n == self.bytes().len() - self.position(),
    {
        self.data.len() - self.pos
    }

    pub fn read_u8(&mut self) -> (r: Result<u8, Error>)
        requires
            old(self).wf(),
        ensures
            final(self).wf(),
            final(self).bytes() == old(self).bytes(),
            if old(self).position() + 1 <= old(self).bytes().len() {
                r == Ok::<u8, Error>(old(self).bytes()[old(self).position()])
                    && final(self).position() == old(self).position() + 1
            } else {
                r == Err::<u8, Error>(Error::Truncated) && final(self).position() == old(self).position()
            },
    {
        if self.data.len() - self.pos >= 1 {
            let b = self.data[self.pos];
            self.pos = self.pos + 1;
            Ok(b)
        } else {
            Err(Error::Truncated)
        }
    }

    pub fn read_u16_le(&mut self) -> (r: Result<u16, Error>)
        requires
            old(self).wf(),
        ensures
            final(self).wf(),
            final(self).bytes() == old(self).bytes(),
            if old(self).position() + 2 <= old(self).bytes().len() {
                r == Ok::<u16, Error>(le16(old(self).bytes(), old(self).position())) && final(self).position() == old(self).position() + 2
            } else {
                r == Err::<u16, Error>(Error::Truncated) && final(self).position() == old(self).position()
            },
    {
        if self.data.len() - self.pos >= 2 {
            let b0 = self.data[self.pos];
            let b1 = self.data[self.pos + 1];
            self.pos = self.pos + 2;
            Ok(b0 as u16 + b1 as u16 * 0x100)
        } else {
            Err(Error::Truncated)
        }
    }

    pub fn read_i16_le(&mut self) -> (r: Result<i16, Error>)
        requires
            old(self).wf(),
        ensures
            final(self).wf(),
            final(self).bytes() == old(self).bytes(),
            if old(self).position() + 2 <= old(self).bytes().len() {
                r == Ok::<i16, Error>(le16_i(old(self).bytes(), old(self).position())) && final(self).position() == old(self).position() + 2
            } else {
                r == Err::<i16, Error>(Error::Truncated) && final(self).position() == old(self).position()
            },
    {
        match self.read_u16_le() {
            Ok(v) => Ok(v as i16),
            Err(e) => Err(e),
        }
    }

    pub fn read_u32_le(&mut self) -> (r: Result<u32, Error>)
        requires
            old(self).wf(),
        ensures
            final(self).wf(),
            final(self).bytes() == old(self).bytes(),
            if old(self).position() + 4 <= old(self).bytes().len() {
                r == Ok::<u32, Error>(le32(old(self).bytes(), old(self).position())) && final(self).position() == old(self).position() + 4
            } else {
                r == Err::<u32, Error>(Error::Truncated) && final(self).position() == old(self).position()
            },
    {
        if self.data.len() - self.pos >= 4 {
            let b0 = self.data[self.pos];
            let b1 = self.data[self.pos + 1];
            let b2 = self.data[self.pos + 2];
            let b3 = self.data[self.pos + 3];
            self.pos = self.pos + 4;
            Ok(b0 as u32 + b1 as u32 * 0x100 + b2 as u32 * 0x10000 + b3 as u32 * 0x1000000)
        } else {
            Err(Error::Truncated)
        }
    }

    pub fn read_i32_le(&mut self) -> (r: Result<i32, Error>)
        requires
            old(self).wf(),
        ensures
            final(self).wf(),
            final(self).bytes() == old(self).bytes(),
            if old(self).position() + 4 <= old(self).bytes().len() {
                r == Ok::<i32, Error>(le32_i(old(self).bytes(), old(self).position())) && final(self).position() == old(self).position() + 4
            } else {
                r == Err::<i32, Error>(Error::Truncated) && final(self).position() == old(self).position()
            },
    {
        match self.read_u32_le() {
            Ok(v) => Ok(v as i32),
            Err(e) => Err(e),
        }
    }

    pub fn read_u64_le(&mut self) -> (r: Result<u64, Error>)
        requires
            old(self).wf(),
        ensures
            final(self).wf(),
            final(self).bytes() == old(self).bytes(),
            if old(self).position() + 8 <= old(self).bytes().len() {
                r == Ok::<u64, Error>(le64(old(self).bytes(), old(self).position())) && final(self).position() == old(self).position() + 8
            } else {
                r == Err::<u64, Error>(Error::Truncated) && final(self).position() == old(self).position()
            },
    {
        if self.data.len() - self.pos >= 8 {
            let b0 = self.data[self.pos];
            let b1 = self.data[self.pos + 1];
            let b2 = self.data[self.pos + 2];
            let b3 = self.data[self.pos + 3];
            let b4 = self.data[self.pos + 4];
            let b5 = self.data[self.pos + 5];
            let b6 = self.data[self.pos + 6];
            let b7 = self.data[self.pos + 7];
            self.pos = self.pos + 8;
            Ok(
                b0 as u64 + b1 as u64 * 0x100 + b2 as u64 * 0x10000 + b3 as u64 * 0x1000000
                    + b4 as u64 * 0x100000000 + b5 as u64 * 0x10000000000 + b6 as u64
                    * 0x1000000000000 + b7 as u64 * 0x100000000000000,
            )
        } else {
            Err(Error::Truncated)
        }
    }
}

impl Reader {
    /// Reads a null-terminated string, and unlike `ReadString::read_string`
    /// fails with `Error::Truncated` when no terminator arrives before the
    /// end of the buffer. The rules decoder uses this: a list cut off
    /// mid-string must surface as an error, not as a shortened string.
    pub fn read_string_strict(&mut self) -> (r: Result<String, Error>)
        requires
            old(self).wf(),
        ensures
            final(self).wf(),
            final(self).bytes() == old(self).bytes(),
            if nul_pos(old(self).bytes(), old(self).position()) < old(self).bytes().len() {
                final(self).position() == nul_pos(old(self).bytes(), old(self).position()) + 1
                    && r is Ok && r->Ok_0@ == utf8_lossy_of(
                    str_bytes(old(self).bytes(), old(self).position()),
                )
            } else {
                r == Err::<String, Error>(Error::Truncated) && final(self).position() == old(
                    self,
                ).position()
            },
    {
        let ghost s = self.data@;
        let ghost p0 = self.pos as int;
        let start = self.pos;
        let mut res: Vec<u8> = Vec::new();
        let mut done = false;
        while !done && self.pos < self.data.len()
            invariant
                s == old(self).bytes(),
                p0 == old(self).position(),
                0 <= p0,
                start as int == p0,
                self.data@ == s,
                self.pos <= self.data.len(),
                p0 <= self.pos as int <= s.len(),
                !done ==> res@ == s.subrange(p0, self.pos as int),
                !done ==> forall|i: int| p0 <= i < self.pos as int ==> s[i] != 0,
                done ==> p0 < self.pos as int && s[self.pos as int - 1] == 0,
                done ==> res@ == s.subrange(p0, self.pos as int - 1),
                done ==> forall|i: int| p0 <= i < self.pos as int - 1 ==> s[i] != 0,
            decreases s.len() - self.pos + (if done {
                0int
            } else {
                1int
            }),
        {
            let ghost prev = self.pos as int;
            let b = self.data[self.pos];
            self.pos = self.pos + 1;
            if b == 0 {
                done = true;
            } else {
                res.push(b);
                proof {
                    assert(s.subrange(p0, prev + 1) =~= s.subrange(p0, prev).push(s[prev]));
                }
            }
        }
        if done {
            proof {
                lemma_nul_pos_found(s, p0, self.pos as int - 1);
            }
            Ok(utf8_lossy(&res))
        } else {
            proof {
                lemma_nul_pos_found(s, p0, self.pos as int);
            }
            self.pos = start;
            Err(Error::Truncated)
        }
    }

    /// Consumes and returns everything from the cursor to the end of the
    /// buffer. Never fails; at the end of the buffer it yields nothing.
    pub fn read_remaining(&mut self) -> (r: Vec<u8>)
        requires
            old(self).wf(),
        ensures
            final(self).wf(),
            final(self).bytes() == old(self).bytes(),
            final(self).position() == old(self).bytes().len(),
            r@ == old(self).bytes().subrange(
                old(self).position(),
                old(self).bytes().len() as int,
            ),
    {
        let ghost s = self.data@;
        let ghost p0 = self.pos as int;
        let mut res: Vec<u8> = Vec::new();
        while self.pos < self.data.len()
            invariant
                s == old(self).bytes(),
                p0 == old(self).position(),
                0 <= p0,
                self.data@ == s,
                self.pos <= self.data.len(),
                p0 <= self.pos as int <= s.len(),
                res@ == s.subrange(p0, self.pos as int),
            decreases s.len() - self.pos,
        {
            let ghost prev = self.pos as int;
            let b = self.data[self.pos];
            self.pos = self.pos + 1;
            res.push(b);
            proof {
                assert(s.subrange(p0, prev + 1) =~= s.subrange(p0, prev).push(s[prev]));
            }
        }
        res
    }
}

impl ReadString for Reader {
    open spec fn buf(&self) -> Seq<u8> {
        self.bytes()
    }

    open spec fn cursor(&self) -> int {
        self.position()
    }

    open spec fn cursor_ok(&self) -> bool {
        self.wf()
    }

    fn read_string(&mut self) -> (r: Result<String, Error>) {
        let ghost s = self.data@;
        let ghost p0 = self.pos as int;
        let mut res: Vec<u8> = Vec::new();
        let mut done = false;
        while !done && self.pos < self.data.len()
            invariant
                s == old(self).bytes(),
                p0 == old(self).position(),
                0 <= p0,
                self.data@ == s,
                self.pos <= self.data.len(),
                p0 <= self.pos as int <= s.len(),
                !done ==> res@ == s.subrange(p0, self.pos as int),
                !done ==> forall|i: int| p0 <= i < self.pos as int ==> s[i] != 0,
                done ==> p0 < self.pos as int && s[self.pos as int - 1] == 0,
                done ==> res@ == s.subrange(p0, self.pos as int - 1),
                done ==> forall|i: int| p0 <= i < self.pos as int - 1 ==> s[i] != 0,
            decreases s.len() - self.pos + (if done {
                0int
            } else {
                1int
            }),
        {
            let ghost prev = self.pos as int;
            let b = self.data[self.pos];
            self.pos = self.pos + 1;
            if b == 0 {
                done = true;
            } else {
                res.push(b);
                proof {
                    assert(s.subrange(p0, prev + 1) =~= s.subrange(p0, prev).push(s[prev]));
                }
            }
        }
        proof {
            if done {
                lemma_nul_pos_found(s, p0, self.pos as int - 1);
            } else {
                lemma_nul_pos_found(s, p0, self.pos as int);
            }
        }
        Ok(utf8_lossy(&res))
    }
}

} // verus!
