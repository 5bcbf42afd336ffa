use vstd::prelude::*;

use crate::errors::DecodeError;

verus! {

/// Little-endian 16-bit value stored at offset `i` of `b`.
pub open spec fn spec_u16_le(b: Seq<u8>, i: int) -> u16 {
    ((b[i] as int) + (b[i + 1] as int) * 0x100) as u16
}

/// Little-endian 32-bit value stored at offset `i` of `b`.
pub open spec fn spec_u32_le(b: Seq<u8>, i: int) -> u32 {
    ((b[i] as int) + (b[i + 1] as int) * 0x100 + (b[i + 2] as int) * 0x10000 + (b[i + 3] as int)
        * 0x1000000) as u32
}

/// Big-endian 32-bit value stored at offset `i` of `b`.
pub open spec fn spec_u32_be(b: Seq<u8>, i: int) -> u32 {
    ((b[i + 3] as int) + (b[i + 2] as int) * 0x100 + (b[i + 1] as int) * 0x10000 + (b[i] as int)
        * 0x1000000) as u32
}

/// 32-bit value at offset `i` of `b`, decoded with the byte order that the
/// container selected.
pub open spec fn spec_u32(b: Seq<u8>, i: int, little: bool) -> u32 {
    if little {
        spec_u32_le(b, i)
    } else {
        spec_u32_be(b, i)
    }
}

/// A read cursor over a byte buffer. Reads advance the position; skips and
/// seeks clamp the position to the end of the buffer, so a position past the
/// data is never held and a read there reports the end of the stream, exactly
/// as a read after an overlong seek would.
pub struct Stream<'a> {
    data: &'a Vec<u8>,
    pos: usize,
}

impl<'a> Stream<'a> {
    /// The whole underlying buffer.
    pub closed spec fn d(&self) -> Seq<u8> {
        self.data@
    }

    /// Current read position.
    pub closed spec fn p(&self) -> int {
        self.pos as int
    }

    /// The position never passes the end of the buffer.
    pub open spec fn wf(&self) -> bool {
        0 <= self.p() <= self.d().len()
    }

    pub fn new(data: &'a Vec<u8>) -> (r: Stream<'a>)
        ensures
            r.wf(),
            r.d() == data@,
            r.p() == 0,
    {
        Stream { data, pos: 0 }
    }

    /// Number of bytes between the position and the end of the buffer.
    pub fn remaining(&self) -> (r: usize)
        requires
            self.wf(),
        ensures
            r == self.d().len() - self.p(),
    {
        self.data.len() - self.pos
    }

    /// Current read position.
    pub fn tell(&self) -> (r: usize)
        ensures
            r == self.p(),
    {
        self.pos
    }

    /// Advances the position by `n` bytes, clamping at the end of the buffer.
    pub fn skip(&mut self, n: usize)
        requires
            old(self).wf(),
        ensures
            final(self).wf(),
            final(self).d() == old(self).d(),
            final(self).p() == if old(self).p() + n <= old(self).d().len() {
                old(self).p() + n
            } else {
                old(self).d().len() as int
            },
    {
        let rest = self.data.len() - self.pos;
        if n <= rest {
            self.pos = self.pos + n;
        } else {
            self.pos = self.data.len();
        }
    }

    /// Moves the position to `base + off`, clamping at the end of the buffer.
    pub fn seek_from(&mut self, base: usize, off: usize)
        requires
            old(self).wf(),
            base <= old(self).d().len(),
        ensures
            final(self).wf(),
            final(self).d() == old(self).d(),
            final(self).p() == if base + off <= old(self).d().len() {
                base + off
            } else {
                old(self).d().len() as int
            },
    {
        let rest = self.data.len() - base;
        if off <= rest {
            self.pos = base + off;
        } else {
            self.pos = self.data.len();
        }
    }

    /// Moves the position to `p`, clamping at the end of the buffer.
    pub fn seek_to(&mut self, p: usize)
        requires
            old(self).wf(),
        ensures
            final(self).wf(),
            final(self).d() == old(self).d(),
            final(self).p() == if p <= old(self).d().len() {
                p as int
            } else {
                old(self).d().len() as int
            },
    {
        if p <= self.data.len() {
            self.pos = p;
        } else {
            self.pos = self.data.len();
        }
    }

    /// Reads one byte.
    pub fn read_u8(&mut self) -> (r: Result<u8, DecodeError>)
        requires
            old(self).wf(),
        ensures
            final(self).wf(),
            final(self).d() == old(self).d(),
            match r {
                Ok(v) => {
                    &&& old(self).p() + 1 <= old(self).d().len()
                    &&& v == old(self).d()[old(self).p()]
                    &&& final(self).p() == old(self).p() + 1
                },
                Err(e) => {
                    &&& e == DecodeError::UnexpectedEnd
                    &&& old(self).p() + 1 > old(self).d().len()
                    &&& final(self).p() == old(self).p()
                },
            },
    {
        if self.pos < self.data.len() {
            let v = self.data[self.pos];
            self.pos = self.pos + 1;
            Ok(v)
        } else {
            Err(DecodeError::UnexpectedEnd)
        }
    }

    /// Reads a little-endian 16-bit value.
    pub fn read_u16_le(&mut self) -> (r: Result<u16, DecodeError>)
        requires
            old(self).wf(),
        ensures
            final(self).wf(),
            final(self).d() == old(self).d(),
            match r {
                Ok(v) => {
                    &&& old(self).p() + 2 <= old(self).d().len()
                    &&& v == spec_u16_le(old(self).d(), old(self).p())
                    &&& final(self).p() == old(self).p() + 2
                },
                Err(e) => {
                    &&& e == DecodeError::UnexpectedEnd
                    &&& old(self).p() + 2 > old(self).d().len()
                    &&& final(self).p() == old(self).p()
                },
            },
    {
        if self.data.len() - self.pos >= 2 {
            let b0 = self.data[self.pos] as u16;
            let b1 = self.data[self.pos + 1] as u16;
            self.pos = self.pos + 2;
            Ok(b0 + b1 * 0x100)
        } else {
            Err(DecodeError::UnexpectedEnd)
        }
    }

    /// Reads a little-endian 32-bit value.
    pub fn read_u32_le(&mut self) -> (r: Result<u32, DecodeError>)
        requires
            old(self).wf(),
        ensures
            final(self).wf(),
            final(self).d() == old(self).d(),
            match r {
                Ok(v) => {
                    &&& old(self).p() + 4 <= old(self).d().len()
                    &&& v == spec_u32_le(old(self).d(), old(self).p())
                    &&& final(self).p() == old(self).p() + 4
                },
                Err(e) => {
                    &&& e == DecodeError::UnexpectedEnd
                    &&& old(self).p() + 4 > old(self).d().len()
                    &&& final(self).p() == old(self).p()
                },
            },
    {
        if self.data.len() - self.pos >= 4 {
            let b0 = self.data[self.pos] as u32;
            let b1 = self.data[self.pos + 1] as u32;
            let b2 = self.data[self.pos + 2] as u32;
            let b3 = self.data[self.pos + 3] as u32;
            self.pos = self.pos + 4;
            Ok(b0 + b1 * 0x100 + b2 * 0x10000 + b3 * 0x1000000)
        } else {
            Err(DecodeError::UnexpectedEnd)
        }
    }

    /// Reads a 32-bit value in the byte order selected by `little`.
    pub fn read_u32(&mut self, little: bool) -> (r: Result<u32, DecodeError>)
        requires
            old(self).wf(),
        ensures
            final(self).wf(),
            final(self).d() == old(self).d(),
            match r {
                Ok(v) => {
                    &&& old(self).p() + 4 <= old(self).d().len()
                    &&& v == spec_u32(old(self).d(), old(self).p(), little)
                    &&& final(self).p() == old(self).p() + 4
                },
                Err(e) => {
                    &&& e == DecodeError::UnexpectedEnd
                    &&& old(self).p() + 4 > old(self).d().len()
                    &&& final(self).p() == old(self).p()
                },
            },
    {
        if self.data.len() - self.pos >= 4 {
            let b0 = self.data[self.pos] as u32;
            let b1 = self.data[self.pos + 1] as u32;
            let b2 = self.data[self.pos + 2] as u32;
            let b3 = self.data[self.pos + 3] as u32;
            self.pos = self.pos + 4;
            if little {
                Ok(b0 + b1 * 0x100 + b2 * 0x10000 + b3 * 0x1000000)
            } else {
                Ok(b3 + b2 * 0x100 + b1 * 0x10000 + b0 * 0x1000000)
            }
        } else {
            Err(DecodeError::UnexpectedEnd)
        }
    }

    /// Reads exactly `n` raw bytes.
    pub fn read_bytes(&mut self, n: usize) -> (r: Result<Vec<u8>, DecodeError>)
        requires
            old(self).wf(),
        ensures
            final(self).wf(),
            final(self).d() == old(self).d(),
            match r {
                Ok(v) => {
                    &&& old(self).p() + n <= old(self).d().len()
                    &&& v@ == old(self).d().subrange(old(self).p(), old(self).p() + n)
                    &&& final(self).p() == old(self).p() + n
                },
                Err(e) => {
                    &&& e == DecodeError::UnexpectedEnd
                    &&& old(self).p() + n > old(self).d().len()
                    &&& final(self).p() == old(self).p()
                },
            },
    {
        if self.data.len() - self.pos >= n {
            let end: usize = self.pos + n;
            let mut v: Vec<u8> = Vec::new();
            let mut j: usize = self.pos;
            while j < end
                invariant
                    self.wf(),
                    self.data@ == old(self).d(),
                    self.pos == old(self).p(),
                    old(self).p() <= j <= end,
                    end == old(self).p() + n,
                    end <= self.data@.len(),
                    v@ == self.data@.subrange(old(self).p(), j as int),
                decreases end - j,
            {
                v.push(self.data[j]);
                proof {
                    assert(v@ =~= self.data@.subrange(old(self).p(), j + 1));
                }
                j = j + 1;
            }
            self.pos = end;
            Ok(v)
        } else {
            Err(DecodeError::UnexpectedEnd)
        }
    }
}

} // verus!
