//! The IPv4 header, as the link carries it: twenty bytes, multi-byte fields
//! little-endian, with a ones'-complement checksum over the header.

use vstd::prelude::*;
use crate::utils::{
    le_pair, lemma_ones_checksum_insert, ones_complete_checksum, slice_to_le_u16,
    spec_ones_checksum,
};

verus! {

pub type Address = [u8; 4];

pub const UNSPECIFIED: Address = [0x00, 0x00, 0x00, 0x00];

pub const BROADCAST: Address = [0xff, 0xff, 0xff, 0xff];

/// Bytes in the fixed header.
pub const HEADER_LEN: usize = 20;

pub const VERSION: u8 = 4;

/// The flag/offset word: do-not-fragment in bit 1, more-fragments in bit 2,
/// the fragment offset in the bits above them.
pub open spec fn spec_fragment_word(do_not_fragment: bool, more_fragment: bool, offset: u16) -> u16 {
    ((if do_not_fragment {
        2int
    } else {
        0
    }) + (if more_fragment {
        4int
    } else {
        0
    }) + offset) as u16
}

/// The header bytes before the checksum is inserted: its field stays zero.
pub open spec fn spec_ipv4_bytes_nosum(
    differentiated_services: u8,
    total_length: int,
    identification: u16,
    fragment: u16,
    time_to_live: u8,
    protocol: u8,
    src_ip: Address,
    dest_ip: Address,
) -> Seq<u8> {
    seq![
        0x54u8,
        differentiated_services,
        ((total_length % 256) as u8),
        ((total_length / 256) as u8),
        (identification % 256) as u8,
        (identification / 256) as u8,
        (fragment % 256) as u8,
        (fragment / 256) as u8,
        time_to_live,
        protocol,
        0u8,
        0u8,
        src_ip[0],
        src_ip[1],
        src_ip[2],
        src_ip[3],
        dest_ip[0],
        dest_ip[1],
        dest_ip[2],
        dest_ip[3],
    ]
}

/// The finished header: the ones'-complement checksum of the zero-checksum
/// bytes, inserted little-endian at bytes 10 and 11.
pub open spec fn spec_ipv4_header(
    differentiated_services: u8,
    total_length: int,
    identification: u16,
    fragment: u16,
    time_to_live: u8,
    protocol: u8,
    src_ip: Address,
    dest_ip: Address,
) -> Seq<u8> {
    let base = spec_ipv4_bytes_nosum(
        differentiated_services,
        total_length,
        identification,
        fragment,
        time_to_live,
        protocol,
        src_ip,
        dest_ip,
    );
    let checksum = spec_ones_checksum(base);
    base.update(10, (checksum % 256) as u8).update(11, (checksum / 256) as u8)
}

pub struct Header {
    inner: Vec<u8>,
}

impl View for Header {
    type V = Seq<u8>;

    closed spec fn view(&self) -> Seq<u8> {
        self.inner@
    }
}

impl Header {
    pub open spec fn wf(self) -> bool {
        self@.len() == HEADER_LEN
    }

    fn assemble_fragment(do_not_fragment: bool, more_fragment: bool, offset: u16) -> (r: u16)
        requires
            offset % 8 == 0,
        ensures
            r == spec_fragment_word(do_not_fragment, more_fragment, offset),
    {
        let flags: u16 = (if do_not_fragment {
            2u16
        } else {
            0u16
        }) + (if more_fragment {
            4u16
        } else {
            0u16
        });
        proof {
            assert(offset % 8 == 0 ==> offset + 6 <= 0xffff) by (bit_vector);
        }
        flags + offset
    }

    /// Build a header.  The payload is cut down to what the transmission
    /// unit leaves after the header, rounded to a multiple of eight; a cut
    /// payload sets more-fragments.  The checksum goes in last.
    #[verifier::rlimit(60)]
    pub fn new(
        differentiated_services: u8,
        maximum_transmit_unit: usize,
        payload_length: usize,
        identification: u16,
        do_not_fragment: bool,
        offset: u16,
        time_to_live: u8,
        protocol: u8,
        src_ip: Address,
        dest_ip: Address,
    ) -> (r: Self)
        requires
            HEADER_LEN + 8 <= maximum_transmit_unit <= 0xffff,
            payload_length + HEADER_LEN <= 0xffff,
            offset % 8 == 0,
        ensures
            r.wf(),
            ({
                let max_payload = (maximum_transmit_unit - HEADER_LEN) / 8 * 8;
                let total_length = if max_payload < payload_length {
                    max_payload + HEADER_LEN
                } else {
                    payload_length + HEADER_LEN
                };
                r@ == spec_ipv4_header(
                    differentiated_services,
                    total_length,
                    identification,
                    spec_fragment_word(do_not_fragment, max_payload < payload_length, offset),
                    time_to_live,
                    protocol,
                    src_ip,
                    dest_ip,
                )
            }),
            (r@[0] >> 4) * 4 == HEADER_LEN,
            spec_ones_checksum(r@) == 0,
    {
        let max_payload_length = (maximum_transmit_unit - HEADER_LEN) / 8 * 8;
        let (total_length, more_fragment) = if max_payload_length < payload_length {
            (max_payload_length + HEADER_LEN, true)
        } else {
            (payload_length + HEADER_LEN, false)
        };
        let fragment = Self::assemble_fragment(do_not_fragment, more_fragment, offset);
        let total = total_length as u16;
        let mut inner: Vec<u8> = Vec::new();
        inner.push(0x54);
        inner.push(differentiated_services);
        inner.push((total % 256) as u8);
        inner.push((total / 256) as u8);
        inner.push((identification % 256) as u8);
        inner.push((identification / 256) as u8);
        inner.push((fragment % 256) as u8);
        inner.push((fragment / 256) as u8);
        inner.push(time_to_live);
        inner.push(protocol);
        inner.push(0);
        inner.push(0);
        inner.push(src_ip[0]);
        inner.push(src_ip[1]);
        inner.push(src_ip[2]);
        inner.push(src_ip[3]);
        inner.push(dest_ip[0]);
        inner.push(dest_ip[1]);
        inner.push(dest_ip[2]);
        inner.push(dest_ip[3]);
        proof {
            assert(inner@ =~= spec_ipv4_bytes_nosum(
                differentiated_services,
                total_length as int,
                identification,
                fragment,
                time_to_live,
                protocol,
                src_ip,
                dest_ip,
            ));
        }
        let ghost base = inner@;
        let checksum = ones_complete_checksum(inner.as_slice());
        inner.set(10, (checksum % 256) as u8);
        inner.set(11, (checksum / 256) as u8);
        proof {
            lemma_ones_checksum_insert(base);
            assert(inner@ =~= base.update(10, (checksum % 256) as u8).update(
                11,
                (checksum / 256) as u8,
            ));
            assert(inner@[0] == 0x54);
            assert((0x54u8 >> 4) == 5) by (bit_vector);
        }
        let r = Self { inner };
        proof {
            assert(r@ =~= spec_ipv4_header(
                differentiated_services,
                (if (maximum_transmit_unit - HEADER_LEN) / 8 * 8 < payload_length {
                    (maximum_transmit_unit - HEADER_LEN) / 8 * 8 + HEADER_LEN
                } else {
                    payload_length + HEADER_LEN
                }),
                identification,
                spec_fragment_word(
                    do_not_fragment,
                    (maximum_transmit_unit - HEADER_LEN) / 8 * 8 < payload_length,
                    offset,
                ),
                time_to_live,
                protocol,
                src_ip,
                dest_ip,
            ));
        }
        r
    }

    /// Adopt the first twenty bytes of a received buffer.
    pub fn from_slice(data: &[u8]) -> (r: Self)
        requires
            data@.len() >= HEADER_LEN,
        ensures
            r.wf(),
            r@ == data@.take(HEADER_LEN as int),
    {
        let mut inner: Vec<u8> = Vec::new();
        let mut i: usize = 0;
        while i < HEADER_LEN
            invariant
                i <= HEADER_LEN,
                data@.len() >= HEADER_LEN,
                inner@.len() == i,
                forall|j: int| 0 <= j < i ==> inner@[j] == data@[j],
            decreases HEADER_LEN - i,
        {
            inner.push(data[i]);
            i = i + 1;
        }
        let r = Self { inner };
        proof {
            assert(r@ =~= data@.take(HEADER_LEN as int));
        }
        r
    }

    pub fn get_version(&self) -> (r: u8)
        requires
            self.wf(),
        ensures
            r == self@[0] & 0x0f,
    {
        self.inner[0] & 0x0f
    }

    pub fn get_header_length(&self) -> (r: usize)
        requires
            self.wf(),
        ensures
            r == (self@[0] >> 4) * 4,
    {
        ((self.inner[0] >> 4) as usize) * 4
    }

    pub fn get_differential_service(&self) -> (r: u8)
        requires
            self.wf(),
        ensures
            r == self@[1],
    {
        self.inner[1]
    }

    pub fn get_total_length(&self) -> (r: usize)
        requires
            self.wf(),
        ensures
            r == le_pair(self@[2], self@[3]),
    {
        slice_to_le_u16(&self.inner.as_slice()[2..4]) as usize
    }

    /// The payload bytes the total length leaves after the header.
    pub fn get_payload_length(&self) -> (r: usize)
        requires
            self.wf(),
            (self@[0] >> 4) * 4 <= le_pair(self@[2], self@[3]),
        ensures
            r == le_pair(self@[2], self@[3]) - (self@[0] >> 4) * 4,
    {
        self.get_total_length() - self.get_header_length()
    }

    pub fn get_identification(&self) -> (r: u16)
        requires
            self.wf(),
        ensures
            r == le_pair(self@[4], self@[5]),
    {
        slice_to_le_u16(&self.inner.as_slice()[4..6])
    }

    pub fn get_do_not_fragment(&self) -> (r: bool)
        requires
            self.wf(),
        ensures
            r == (le_pair(self@[6], self@[7]) & 2 > 0),
    {
        (slice_to_le_u16(&self.inner.as_slice()[6..8]) & 0b0000000000000010) > 0
    }

    pub fn get_more_fragment(&self) -> (r: bool)
        requires
            self.wf(),
        ensures
            r == (le_pair(self@[6], self@[7]) & 4 > 0),
    {
        (slice_to_le_u16(&self.inner.as_slice()[6..8]) & 0b0000000000000100) > 0
    }

    pub fn get_fragment_offset(&self) -> (r: u16)
        requires
            self.wf(),
        ensures
            r == le_pair(self@[6], self@[7]) & 0xfff8,
    {
        slice_to_le_u16(&self.inner.as_slice()[6..8]) & 0b1111111111111000
    }

    pub fn get_time_to_live(&self) -> (r: u8)
        requires
            self.wf(),
        ensures
            r == self@[8],
    {
        self.inner[8]
    }

    pub fn get_protocol(&self) -> (r: u8)
        requires
            self.wf(),
        ensures
            r == self@[9],
    {
        self.inner[9]
    }

    pub fn get_src_ip(&self) -> (r: Address)
        requires
            self.wf(),
        ensures
            r@ == self@.subrange(12, 16),
    {
        let r: Address = [self.inner[12], self.inner[13], self.inner[14], self.inner[15]];
        proof {
            assert(r@ =~= self@.subrange(12, 16));
        }
        r
    }

    pub fn get_dest_ip(&self) -> (r: Address)
        requires
            self.wf(),
        ensures
            r@ == self@.subrange(16, 20),
    {
        let r: Address = [self.inner[16], self.inner[17], self.inner[18], self.inner[19]];
        proof {
            assert(r@ =~= self@.subrange(16, 20));
        }
        r
    }

    /// Recompute the ones'-complement checksum over the declared header
    /// range; a header whose declared length overruns the buffer fails.
    pub fn checksum(&self) -> (r: bool)
        requires
            self.wf(),
        ensures
            r == ((self@[0] >> 4) * 4 <= HEADER_LEN && spec_ones_checksum(
                self@.take(((self@[0] >> 4) * 4) as int),
            ) == 0),
    {
        let header_length = self.get_header_length();
        if header_length > HEADER_LEN {
            return false;
        }
        let mut prefix: Vec<u8> = Vec::new();
        let mut i: usize = 0;
        while i < header_length
            invariant
                i <= header_length,
                header_length <= HEADER_LEN,
                self.wf(),
                prefix@.len() == i,
                forall|j: int| 0 <= j < i ==> prefix@[j] == self@[j],
            decreases header_length - i,
        {
            prefix.push(self.inner[i]);
            i = i + 1;
        }
        proof {
            assert(prefix@ =~= self@.take(header_length as int));
        }
        ones_complete_checksum(prefix.as_slice()) == 0
    }

    pub fn get_slice(&self) -> (r: &[u8])
        ensures
            r@ == self@,
    {
        self.inner.as_slice()
    }
}

} // verus!
