//! A big-endian bit reader over an H.263 bitstream held in memory, and the
//! errors of the H.263 decoder.

use vstd::prelude::*;
use vstd::arithmetic::power2::{pow2, lemma_pow2_unfold, lemma_pow2_strictly_increases};

verus! {

/// Errors of the H.263 decoder.
#[derive(Debug, Clone, Copy, PartialEq, Eq, Structural)]
pub enum Error {
    /// The bitstream holds a record that breaks the syntax.
    InvalidBitstream,
    /// The bitstream ended in the middle of a record.
    EndOfFile,
    /// An inter-coded block came without a reference picture to predict it from.
    UncodedIFrameBlocks,
    /// A picture gave no source format, and none could be taken over from
    /// the picture before it.
    PictureFormatMissing,
}

/// Bit `i` of the stream, counting from the most significant bit of the
/// first byte.
pub open spec fn bit_at(data: Seq<u8>, i: int) -> nat {
    ((data[i / 8] >> ((7 - i % 8) as u8)) & 1u8) as nat
}

/// The unsigned number that the `n` bits starting at bit `pos` spell, most
/// significant bit first.
pub open spec fn bits_value(data: Seq<u8>, pos: int, n: nat) -> nat
    decreases n,
{
    if n == 0 {
        0
    } else {
        bits_value(data, pos, (n - 1) as nat) * 2 + bit_at(data, pos + n - 1)
    }
}

/// The number of bits in the stream.
pub open spec fn bit_len(data: Seq<u8>) -> int {
    (data.len() * 8) as int
}

/// A value of `n` bits is less than two to the `n`.
pub proof fn lemma_bits_value_bound(data: Seq<u8>, pos: int, n: nat)
    ensures
        bits_value(data, pos, n) < pow2(n),
    decreases n,
{
    vstd::arithmetic::power2::lemma_pow2_pos(n);
    if n > 0 {
        lemma_bits_value_bound(data, pos, (n - 1) as nat);
        let b = data[(pos + n - 1) / 8];
        let s = (7 - (pos + n - 1) % 8) as u8;
        assert((b >> s) & 1u8 <= 1u8) by (bit_vector);
        lemma_pow2_unfold(n);
    }
}

/// A reader of bits from a byte buffer, most significant bit first.
pub struct H263Reader {
    data: Vec<u8>,
    /// The position of the next bit to read.
    pos: usize,
}

impl H263Reader {
    /// The bytes being read.
    pub closed spec fn data(&self) -> Seq<u8> {
        self.data@
    }

    /// The position, in bits, of the next bit to read.
    pub closed spec fn position(&self) -> int {
        self.pos as int
    }

    /// The position lies within the stream, whose bit count fits a `usize`.
    pub open spec fn wf(&self) -> bool {
        &&& 0 <= self.position() <= bit_len(self.data())
        &&& bit_len(self.data()) <= usize::MAX
    }

    /// A reader at the start of `data`.
    pub fn new(data: Vec<u8>) -> (r: Self)
        requires
            data@.len() * 8 <= usize::MAX,
        ensures
            r.wf(),
            r.data() == data@,
            r.position() == 0,
    {
        Self { data, pos: 0 }
    }

    /// The position, in bits, of the next bit to read.
    pub fn bit_position(&self) -> (r: usize)
        ensures
            r == self.position(),
    {
        self.pos
    }

    /// Moves back (or on) to a position within the stream.
    pub fn set_bit_position(&mut self, pos: usize)
        requires
            old(self).wf(),
            pos <= bit_len(old(self).data()),
        ensures
            final(self).wf(),
            final(self).data() == old(self).data(),
            final(self).position() == pos,
    {
        self.pos = pos;
    }

    /// Reads `n` bits as an unsigned number. At the end of the stream it
    /// fails and reads nothing.
    pub fn read_bits(&mut self, n: u32) -> (r: Result<u32, Error>)
        requires
            old(self).wf(),
            n <= 32,
        ensures
            final(self).wf(),
            final(self).data() == old(self).data(),
            old(self).position() + n <= bit_len(old(self).data()) ==> {
                &&& r == Ok::<u32, Error>(bits_value(old(self).data(), old(self).position(), n as nat) as u32)
                &&& final(self).position() == old(self).position() + n
            },
            old(self).position() + n > bit_len(old(self).data()) ==> {
                &&& r == Err::<u32, Error>(Error::EndOfFile)
                &&& final(self).position() == old(self).position()
            },
            r matches Ok(v) ==> v < pow2(n as nat),
            old(self).position() + n <= bit_len(old(self).data()) ==> bits_value(
                old(self).data(),
                old(self).position(),
                n as nat,
            ) < pow2(n as nat),
    {
        if self.data.len() * 8 - self.pos < n as usize {
            return Err(Error::EndOfFile);
        }
        let start = self.pos;
        let mut v: u32 = 0;
        let mut k: u32 = 0;
        while k < n
            invariant
                self.wf(),
                start == self.pos,
                start + n <= bit_len(self.data()),
                k <= n <= 32,
                v == bits_value(self.data(), start as int, k as nat),
            decreases n - k,
        {
            let i = start + k as usize;
            let b = (self.data[i / 8] >> ((7 - i % 8) as u8)) & 1u8;
            proof {
                lemma_bits_value_bound(self.data(), start as int, k as nat);
                lemma_pow2_strictly_increases(k as nat, 32);
                vstd::arithmetic::power2::lemma2_to64();
                let byte = self.data@[(i / 8) as int];
                let sh = (7 - i % 8) as u8;
                assert(b <= 1u8) by (bit_vector)
                    requires b == (byte >> sh) & 1u8;
            }
            v = v * 2 + b as u32;
            k = k + 1;
        }
        proof {
            lemma_bits_value_bound(self.data(), start as int, n as nat);
        }
        self.pos = start + n as usize;
        Ok(v)
    }

    /// Reads a byte's worth of bits.
    pub fn read_u8(&mut self) -> (r: Result<u8, Error>)
        requires
            old(self).wf(),
        ensures
            final(self).wf(),
            final(self).data() == old(self).data(),
            old(self).position() + 8 <= bit_len(old(self).data()) ==> {
                &&& r == Ok::<u8, Error>(bits_value(old(self).data(), old(self).position(), 8) as u8)
                &&& final(self).position() == old(self).position() + 8
            },
            old(self).position() + 8 > bit_len(old(self).data()) ==> {
                &&& r == Err::<u8, Error>(Error::EndOfFile)
                &&& final(self).position() == old(self).position()
            },
    {
        proof {
            vstd::arithmetic::power2::lemma2_to64();
            lemma_bits_value_bound(self.data(), self.position(), 8);
        }
        match self.read_bits(8) {
            Ok(v) => Ok(v as u8),
            Err(e) => Err(e),
        }
    }

    /// Skips to the next byte boundary, unless already on one.
    pub fn skip_to_alignment(&mut self)
        requires
            old(self).wf(),
        ensures
            final(self).wf(),
            final(self).data() == old(self).data(),
            final(self).position() == if old(self).position() % 8 == 0 {
                old(self).position()
            } else {
                old(self).position() - old(self).position() % 8 + 8
            },
    {
        let rem = self.pos % 8;
        if rem != 0 {
            self.pos = self.pos - rem + 8;
        }
    }
}

} // verus!
