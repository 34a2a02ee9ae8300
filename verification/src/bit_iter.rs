//! Bit/byte stream adapters: bytes unpacked to bits and bits packed back to
//! bytes, least significant bit first.

use vstd::prelude::*;
use crate::coding::nth_bit;

verus! {

/// The byte eight bits starting at `p` stand for, missing bits read as 0.
pub open spec fn spec_pack_byte(bits: Seq<bool>, p: int) -> u8 {
    ((if 0 <= p < bits.len() && bits[p] {
        1int
    } else {
        0
    }) + (if 0 <= p + 1 < bits.len() && bits[p + 1] {
        2int
    } else {
        0
    }) + (if 0 <= p + 2 < bits.len() && bits[p + 2] {
        4int
    } else {
        0
    }) + (if 0 <= p + 3 < bits.len() && bits[p + 3] {
        8int
    } else {
        0
    }) + (if 0 <= p + 4 < bits.len() && bits[p + 4] {
        16int
    } else {
        0
    }) + (if 0 <= p + 5 < bits.len() && bits[p + 5] {
        32int
    } else {
        0
    }) + (if 0 <= p + 6 < bits.len() && bits[p + 6] {
        64int
    } else {
        0
    }) + (if 0 <= p + 7 < bits.len() && bits[p + 7] {
        128int
    } else {
        0
    })) as u8
}

/// Packs a bit stream into bytes, eight at a time; a final short group is
/// padded with zeros.
pub struct BitToByteIter {
    bits: Vec<bool>,
    pos: usize,
}

impl BitToByteIter {
    /// The bit stream being packed.
    pub closed spec fn bits_spec(self) -> Seq<bool> {
        self.bits@
    }

    /// The read position in the stream.
    pub closed spec fn pos_spec(self) -> int {
        self.pos as int
    }

    /// Bits not yet packed.
    pub open spec fn remaining(self) -> int {
        self.bits_spec().len() - self.pos_spec()
    }

    pub closed spec fn wf(self) -> bool {
        self.pos <= self.bits@.len()
    }

    pub fn new(bits: Vec<bool>) -> (r: Self)
        ensures
            r.wf(),
            r.bits_spec() == bits@,
            r.pos_spec() == 0,
    {
        Self { bits, pos: 0 }
    }

    /// The next byte, or nothing once every bit is consumed.
    #[verifier::rlimit(100)]
    pub fn next(&mut self) -> (r: Option<u8>)
        requires
            old(self).wf(),
        ensures
            final(self).wf(),
            final(self).bits_spec() == old(self).bits_spec(),
            old(self).remaining() == 0 ==> r is None && final(self).pos_spec() == old(
                self,
            ).pos_spec(),
            old(self).remaining() > 0 ==> r == Some(
                spec_pack_byte(old(self).bits_spec(), old(self).pos_spec()),
            ) && final(self).pos_spec() == (if old(self).remaining() >= 8 {
                old(self).pos_spec() + 8
            } else {
                old(self).bits_spec().len() as int
            }),
    {
        if self.pos >= self.bits.len() {
            return None;
        }
        let p = self.pos;
        let n = self.bits.len();
        let b0 = self.bits[p];
        let b1 = n - p > 1 && self.bits[p + 1];
        let b2 = n - p > 2 && self.bits[p + 2];
        let b3 = n - p > 3 && self.bits[p + 3];
        let b4 = n - p > 4 && self.bits[p + 4];
        let b5 = n - p > 5 && self.bits[p + 5];
        let b6 = n - p > 6 && self.bits[p + 6];
        let b7 = n - p > 7 && self.bits[p + 7];
        let ret: u8 = (if b0 {
            1u8
        } else {
            0
        }) + (if b1 {
            2u8
        } else {
            0
        }) + (if b2 {
            4u8
        } else {
            0
        }) + (if b3 {
            8u8
        } else {
            0
        }) + (if b4 {
            16u8
        } else {
            0
        }) + (if b5 {
            32u8
        } else {
            0
        }) + (if b6 {
            64u8
        } else {
            0
        }) + (if b7 {
            128u8
        } else {
            0
        });
        self.pos = if n - p >= 8 {
            p + 8
        } else {
            n
        };
        Some(ret)
    }
}

/// The eight bits of a byte, least significant first.
pub open spec fn spec_byte_bits(b: u8) -> Seq<bool> {
    Seq::new(8, |i: int| nth_bit(b as u16, i))
}

/// The bits of a byte sequence, in order.
pub open spec fn spec_bytes_bits(s: Seq<u8>) -> Seq<bool>
    decreases s.len(),
{
    if s.len() == 0 {
        Seq::empty()
    } else {
        spec_byte_bits(s[0]) + spec_bytes_bits(s.skip(1))
    }
}

proof fn lemma_u8_bit(b: u8, i: u8)
    by (bit_vector)
    requires
        i < 8,
    ensures
        (((b >> i) & 1) == 1) == ((((b as u16) >> (i as u16)) & 1) == 1),
{
}

/// Unpacks bytes into bits, least significant first.
pub struct ByteToBitIter {
    bytes: Vec<u8>,
    pos: usize,
    buffer: u8,
    index: u8,
}

impl ByteToBitIter {
    /// Bits of the loaded byte not yet emitted.
    pub closed spec fn buffered(self) -> Seq<bool> {
        Seq::new((8 - self.index) as nat, |i: int| nth_bit(self.buffer as u16, self.index + i))
    }

    /// Bits still to come: the loaded byte's tail, then the unread bytes.
    pub closed spec fn pending(self) -> Seq<bool> {
        self.buffered() + spec_bytes_bits(self.bytes@.skip(self.pos as int))
    }

    /// Bits still to come.
    pub open spec fn remaining(self) -> int {
        self.pending().len() as int
    }

    pub closed spec fn wf(self) -> bool {
        self.index <= 8 && self.pos <= self.bytes@.len()
    }

    pub fn new(bytes: Vec<u8>) -> (r: Self)
        ensures
            r.wf(),
            r.pending() == spec_bytes_bits(bytes@),
    {
        let r = Self { bytes, pos: 0, buffer: 0, index: 8 };
        proof {
            assert(r.buffered() =~= Seq::<bool>::empty());
            assert(r.bytes@.skip(0) =~= r.bytes@);
            assert(r.pending() =~= spec_bytes_bits(r.bytes@));
        }
        r
    }

    /// The next bit of the stream, or nothing once every byte is spent.
    pub fn next(&mut self) -> (r: Option<bool>)
        requires
            old(self).wf(),
        ensures
            final(self).wf(),
            old(self).pending().len() == 0 ==> r is None && final(self).pending()
                == old(self).pending(),
            old(self).pending().len() > 0 ==> r == Some(old(self).pending()[0])
                && final(self).pending() == old(self).pending().skip(1),
    {
        if self.index == 8 {
            proof {
                assert(old(self).buffered() =~= Seq::<bool>::empty());
            }
            if self.pos < self.bytes.len() {
                let loaded = self.bytes[self.pos];
                proof {
                    let s = self.bytes@;
                    let p = self.pos as int;
                    assert(s.skip(p)[0] == loaded);
                    assert(s.skip(p).skip(1) =~= s.skip(p + 1));
                    assert(spec_bytes_bits(s.skip(p)) == spec_byte_bits(loaded)
                        + spec_bytes_bits(s.skip(p + 1)));
                }
                self.buffer = loaded;
                self.pos = self.pos + 1;
                self.index = 0;
                proof {
                    assert(self.buffered() =~= spec_byte_bits(loaded));
                    assert(self.pending() =~= old(self).pending());
                }
            } else {
                proof {
                    assert(self.bytes@.skip(self.pos as int) =~= Seq::<u8>::empty());
                    assert(old(self).pending().len() == 0);
                }
                return None;
            }
        }
        let index = self.index;
        let bit = ((self.buffer >> index) & 1) == 1;
        self.index = index + 1;
        proof {
            lemma_u8_bit(self.buffer, index);
            assert(self.buffered() =~= Seq::new(
                (8 - index) as nat,
                |i: int| nth_bit(self.buffer as u16, index + i),
            ).skip(1));
            assert(self.pending() =~= old(self).pending().skip(1));
        }
        Some(bit)
    }
}

} // verus!
