//! A fixed-size packet viewed as a set of bits: an iterator that walks the
//! bits out and a receiver that fills them back in, least significant bit
//! of each byte first.

use vstd::prelude::*;

verus! {

/// Bits in one packet.
pub const DATA_PACK_SIZE: usize = 64;

/// Bytes in one packet.
pub const DATA_PACK_BYTES: usize = 8;

pub type DataPack = [u8; 8];

/// Bit `i` of a packet, counting within each byte from the least
/// significant end.
pub open spec fn pack_bit(s: Seq<u8>, i: int) -> bool {
    (s[i / 8] >> ((i % 8) as u8)) & 1 == 1
}

/// All bits of a packet, in order.
pub open spec fn pack_bits(s: Seq<u8>) -> Seq<bool> {
    Seq::new(DATA_PACK_SIZE as nat, |i: int| pack_bit(s, i))
}

/// Walks a packet's bits out in order.
pub struct BitIter {
    inner: DataPack,
    count: usize,
}

impl BitIter {
    /// The packet being read.
    pub closed spec fn pack(self) -> Seq<u8> {
        self.inner@
    }

    /// How many bits have been yielded.
    pub closed spec fn count_spec(self) -> int {
        self.count as int
    }

    pub fn new(inner: DataPack) -> (r: Self)
        ensures
            r.pack() == inner@,
            r.count_spec() == 0,
    {
        Self { inner, count: 0 }
    }

    /// The next bit, or nothing once all are out.
    pub fn next(&mut self) -> (r: Option<bool>)
        ensures
            final(self).pack() == old(self).pack(),
            old(self).count_spec() >= DATA_PACK_SIZE ==> r is None && final(self).count_spec()
                == old(self).count_spec(),
            old(self).count_spec() < DATA_PACK_SIZE ==> r == Some(
                pack_bit(old(self).pack(), old(self).count_spec()),
            ) && final(self).count_spec() == old(self).count_spec() + 1,
    {
        if self.count < DATA_PACK_SIZE {
            let byte = self.inner[self.count / 8];
            let ret = (byte >> ((self.count % 8) as u8)) & 1 == 1;
            self.count = self.count + 1;
            Some(ret)
        } else {
            None
        }
    }
}

proof fn lemma_u8_set_bit(b: u8, r: u8, v: u8, j: u8)
    by (bit_vector)
    requires
        r < 8,
        j < 8,
        v == 0 || v == 1,
    ensures
        (((b | (v << r)) >> j) & 1 == 1) == (((b >> j) & 1 == 1) || (j == r && v == 1)),
{
}

/// Fills a packet's bits back in, in order.
#[derive(Copy, Clone)]
pub struct BitReceive {
    inner: DataPack,
    count: usize,
}

impl BitReceive {
    /// The bits of the packet under assembly.
    pub closed spec fn bits(self) -> Seq<bool> {
        pack_bits(self.inner@)
    }

    /// How many bits have been filled in.
    pub closed spec fn count_spec(self) -> int {
        self.count as int
    }

    /// Bits not yet filled in are still clear.
    pub closed spec fn wf(self) -> bool {
        self.count <= DATA_PACK_SIZE && forall|i: int|
            self.count <= i < DATA_PACK_SIZE ==> !self.bits()[i]
    }

    pub fn new() -> (r: Self)
        ensures
            r.wf(),
            r.count_spec() == 0,
            forall|i: int| 0 <= i < DATA_PACK_SIZE ==> !r.bits()[i],
    {
        let r = Self { inner: [0u8; 8], count: 0 };
        proof {
            assert forall|i: int| 0 <= i < DATA_PACK_SIZE implies !r.bits()[i] by {
                let j = (i % 8) as u8;
                assert((0u8 >> j) & 1 == 0) by (bit_vector);
            }
        }
        r
    }

    /// Set the next bit; the new fill count comes back.
    pub fn push(&mut self, bit: bool) -> (r: usize)
        requires
            old(self).wf(),
            old(self).count_spec() < DATA_PACK_SIZE,
        ensures
            final(self).wf(),
            final(self).count_spec() == old(self).count_spec() + 1,
            final(self).bits() == old(self).bits().update(old(self).count_spec(), bit),
            r == final(self).count_spec(),
    {
        let ghost prev = *old(self);
        let byte_index = self.count / 8;
        let bit_index = (self.count % 8) as u8;
        let v: u8 = if bit {
            1
        } else {
            0
        };
        let b = self.inner[byte_index];
        self.inner[byte_index] = b | (v << bit_index);
        self.count = self.count + 1;
        proof {
            let c = prev.count as int;
            assert forall|i: int| 0 <= i < DATA_PACK_SIZE implies self.bits()[i] == prev.bits(
            ).update(c, bit)[i] by {
                let j = (i % 8) as u8;
                assert(0 <= i / 8 < 8 && j < 8);
                if i / 8 == c / 8 {
                    lemma_u8_set_bit(b, bit_index, v, j);
                    if i != c {
                        assert(i % 8 != c % 8);
                    } else {
                        assert(!prev.bits()[c]);
                        assert(j == bit_index);
                    }
                }
            }
            assert(self.bits() =~= prev.bits().update(c, bit));
        }
        self.count
    }

    /// The assembled packet.
    pub fn into_array(self) -> (r: DataPack)
        ensures
            pack_bits(r@) == self.bits(),
    {
        self.inner
    }
}

} // verus!
