//! CRC-framed fixed packets: a byte stream cut into packets that carry
//! their size, a running sequence number, the payload, and a CRC-8; and the
//! validator that unwraps them.

use vstd::prelude::*;
use crate::bit_set::{DataPack, DATA_PACK_BYTES};
use crate::utils::{crc8_checksum, crc8_fold};

verus! {

/// Payload bytes one packet can carry: the size byte, the sequence byte and
/// the CRC take the rest.
pub const PAYLOAD_SIZE: usize = 5;

/// The CRC-8 of a byte slice, as the packets carry it.
fn crc_generate(data: &[u8]) -> (crc: u8)
    ensures
        crc == crc8_fold(data@),
{
    crc8_checksum(data)
}

/// Cuts a byte stream into CRC-framed packets: byte 0 the packet size,
/// byte 1 a running sequence number, then the payload, then the CRC over
/// everything before it.
pub struct FileRead {
    data: Vec<u8>,
    pos: usize,
    count: u8,
}

impl FileRead {
    /// The stream being packed.
    pub closed spec fn data_spec(self) -> Seq<u8> {
        self.data@
    }

    /// The read position in the stream.
    pub closed spec fn pos_spec(self) -> int {
        self.pos as int
    }

    /// The next packet's sequence number.
    pub closed spec fn count_spec(self) -> int {
        self.count as int
    }

    pub closed spec fn wf(self) -> bool {
        self.pos <= self.data@.len()
    }

    pub fn new(data: Vec<u8>) -> (r: Self)
        ensures
            r.wf(),
            r.data_spec() == data@,
            r.pos_spec() == 0,
            r.count_spec() == 0,
    {
        Self { data, pos: 0, count: 0 }
    }

    /// The next packet, or nothing once the stream is spent.  A full
    /// payload makes a full packet; the last, shorter packet declares its
    /// own size, with the CRC right after the payload.
    pub fn next(&mut self) -> (r: Option<DataPack>)
        requires
            old(self).wf(),
        ensures
            final(self).wf(),
            final(self).data_spec() == old(self).data_spec(),
            old(self).pos_spec() >= old(self).data_spec().len() ==> r is None
                && final(self).pos_spec() == old(self).pos_spec(),
            old(self).pos_spec() < old(self).data_spec().len() ==> (r matches Some(p) && {
                let n = if old(self).data_spec().len() - old(self).pos_spec() >= PAYLOAD_SIZE {
                    PAYLOAD_SIZE as int
                } else {
                    old(self).data_spec().len() - old(self).pos_spec()
                };
                let size = if n == PAYLOAD_SIZE {
                    DATA_PACK_BYTES as int
                } else {
                    n + 3
                };
                &&& p@[0] == size
                &&& p@[1] == old(self).count_spec()
                &&& p@.subrange(2, 2 + n) == old(self).data_spec().subrange(
                    old(self).pos_spec(),
                    old(self).pos_spec() + n,
                )
                &&& p@[size - 1] == crc8_fold(p@.take(size - 1))
                &&& final(self).pos_spec() == old(self).pos_spec() + n
                &&& final(self).count_spec() == (old(self).count_spec() + 1) % 256
            }),
    {
        if self.pos >= self.data.len() {
            return None;
        }
        let n = if self.data.len() - self.pos >= PAYLOAD_SIZE {
            PAYLOAD_SIZE
        } else {
            self.data.len() - self.pos
        };
        let size = if n == PAYLOAD_SIZE {
            DATA_PACK_BYTES
        } else {
            n + 3
        };
        let mut ret: DataPack = [0u8; 8];
        ret[0] = size as u8;
        let seq_no = self.count;
        self.count = self.count.wrapping_add(1);
        ret[1] = seq_no;
        proof {
            assert(seq_no.wrapping_add(1) == ((seq_no + 1) % 256) as u8) by (bit_vector);
        }
        let mut j: usize = 0;
        while j < n
            invariant
                j <= n,
                self.wf(),
                self.data@.len() <= usize::MAX,
                n <= PAYLOAD_SIZE,
                self.pos + n <= self.data@.len(),
                ret@.len() == 8,
                ret@[0] == size,
                ret@[1] == old(self).count_spec(),
                size <= DATA_PACK_BYTES,
                forall|k: int| 0 <= k < j ==> #[trigger] ret@[2 + k] == self.data@[self.pos + k],
                self.pos == old(self).pos_spec(),
                self.data@ == old(self).data_spec(),
            decreases n - j,
        {
            ret[2 + j] = self.data[self.pos + j];
            j = j + 1;
        }
        self.pos = self.pos + n;
        let mut prefix: Vec<u8> = Vec::new();
        let mut i: usize = 0;
        while i < size - 1
            invariant
                i <= size - 1,
                size <= DATA_PACK_BYTES,
                size >= 3,
                ret@.len() == 8,
                prefix@.len() == i,
                forall|k: int| 0 <= k < i ==> prefix@[k] == ret@[k],
            decreases size - 1 - i,
        {
            prefix.push(ret[i]);
            i = i + 1;
        }
        proof {
            assert(prefix@ =~= ret@.take(size - 1));
        }
        let crc = crc_generate(prefix.as_slice());
        let ghost ret0 = ret@;
        ret[size - 1] = crc;
        proof {
            assert(ret@.take(size - 1) =~= prefix@);
            assert forall|k: int|
                0 <= k < n implies #[trigger] ret@.subrange(2, 2 + n as int)[k] == old(
                self,
            ).data_spec().subrange(old(self).pos_spec(), old(self).pos_spec() + n)[k] by {
                assert(2 + k < size - 1 || (n == PAYLOAD_SIZE && 2 + k < 7));
                assert(ret@[2 + k] == ret0[2 + k]);
            }
            assert(ret@.subrange(2, 2 + n as int) =~= old(self).data_spec().subrange(
                old(self).pos_spec(),
                old(self).pos_spec() + n,
            ));
        }
        Some(ret)
    }
}

/// Validate a received packet: its declared size must fit, and the CRC over
/// everything before it must match.  The framed bytes come back, or nothing
/// for a corrupt packet.
pub fn crc_unwrap(data: &DataPack) -> (r: Option<Vec<u8>>)
    ensures
        ({
            let size = data@[0] as int;
            if 1 <= size <= DATA_PACK_BYTES && crc8_fold(data@.take(size - 1)) == data@[size - 1] {
                r matches Some(p) && p@ == data@.take(size)
            } else {
                r is None
            }
        }),
{
    let size = data[0] as usize;
    if 1 <= size && size <= DATA_PACK_BYTES {
        let mut prefix: Vec<u8> = Vec::new();
        let mut i: usize = 0;
        while i < size - 1
            invariant
                size <= DATA_PACK_BYTES,
                i <= size - 1,
                prefix@.len() == i,
                forall|k: int| 0 <= k < i ==> prefix@[k] == data@[k],
            decreases size - 1 - i,
        {
            prefix.push(data[i]);
            i = i + 1;
        }
        proof {
            assert(prefix@ =~= data@.take(size - 1));
        }
        if crc_generate(prefix.as_slice()) == data[size - 1] {
            let mut whole: Vec<u8> = Vec::new();
            let mut k: usize = 0;
            while k < size
                invariant
                    size <= DATA_PACK_BYTES,
                    k <= size,
                    whole@.len() == k,
                    forall|j: int| 0 <= j < k ==> whole@[j] == data@[j],
                decreases size - k,
            {
                whole.push(data[k]);
                k = k + 1;
            }
            proof {
                assert(whole@ =~= data@.take(size as int));
            }
            Some(whole)
        } else {
            None
        }
    } else {
        None
    }
}

} // verus!
