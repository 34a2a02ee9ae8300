//! The UDP header: eight bytes of ports, length, and an unused checksum,
//! little-endian as the link carries them.

use vstd::prelude::*;
use crate::utils::{le_pair, slice_to_le_u16};

verus! {

/// The IP protocol number of UDP.
pub const PROTOCOL: u8 = 17;

/// Bytes in a UDP header.
pub const HEADER_LEN: usize = 8;

/// The bytes of a UDP header for the given ports and payload length.
pub open spec fn spec_udp_header(src_port: u16, dest_port: u16, payload_length: int) -> Seq<u8> {
    seq![
        (src_port % 256) as u8,
        (src_port / 256) as u8,
        (dest_port % 256) as u8,
        (dest_port / 256) as u8,
        (((payload_length + HEADER_LEN) % 256) as u8),
        (((payload_length + HEADER_LEN) / 256) as u8),
        0u8,
        0u8,
    ]
}

pub struct Header {
    inner: Vec<u8>,
}

impl View for Header {
    type V = Seq<u8>;

    closed spec fn view(&self) -> Seq<u8> {
        self.inner@
    }
}

impl Header {
    pub open spec fn wf(self) -> bool {
        self@.len() == HEADER_LEN
    }

    /// Build a header: ports and the length field, which counts the header
    /// itself; the checksum stays zero (unused).
    pub fn new(src_port: u16, dest_port: u16, payload_length: usize) -> (r: Self)
        requires
            payload_length + HEADER_LEN <= 0xffff,
        ensures
            r.wf(),
            r@ == spec_udp_header(src_port, dest_port, payload_length as int),
    {
        let mut inner: Vec<u8> = Vec::new();
        inner.push((src_port % 256) as u8);
        inner.push((src_port / 256) as u8);
        inner.push((dest_port % 256) as u8);
        inner.push((dest_port / 256) as u8);
        let length = (payload_length + HEADER_LEN) as u16;
        inner.push((length % 256) as u8);
        inner.push((length / 256) as u8);
        inner.push(0);
        inner.push(0);
        let r = Self { inner };
        proof {
            assert(r@ =~= spec_udp_header(src_port, dest_port, payload_length as int));
        }
        r
    }

    /// Adopt the first eight bytes of a received buffer.
    pub fn from_slice(data: &[u8]) -> (r: Self)
        requires
            data@.len() >= HEADER_LEN,
        ensures
            r.wf(),
            r@ == data@.take(HEADER_LEN as int),
    {
        let mut inner: Vec<u8> = Vec::new();
        let mut i: usize = 0;
        while i < HEADER_LEN
            invariant
                i <= HEADER_LEN,
                data@.len() >= HEADER_LEN,
                inner@.len() == i,
                forall|j: int| 0 <= j < i ==> inner@[j] == data@[j],
            decreases HEADER_LEN - i,
        {
            inner.push(data[i]);
            i = i + 1;
        }
        let r = Self { inner };
        proof {
            assert(r@ =~= data@.take(HEADER_LEN as int));
        }
        r
    }

    pub fn get_src_port(&self) -> (r: u16)
        requires
            self.wf(),
        ensures
            r == le_pair(self@[0], self@[1]),
    {
        slice_to_le_u16(&self.inner.as_slice()[0..2])
    }

    pub fn get_dest_port(&self) -> (r: u16)
        requires
            self.wf(),
        ensures
            r == le_pair(self@[2], self@[3]),
    {
        slice_to_le_u16(&self.inner.as_slice()[2..4])
    }

    /// The length field: payload plus the header itself.
    pub fn get_length(&self) -> (r: usize)
        requires
            self.wf(),
        ensures
            r == le_pair(self@[4], self@[5]),
    {
        slice_to_le_u16(&self.inner.as_slice()[4..6]) as usize
    }

    pub fn get_checksum(&self) -> (r: u16)
        requires
            self.wf(),
        ensures
            r == le_pair(self@[6], self@[7]),
    {
        slice_to_le_u16(&self.inner.as_slice()[6..8])
    }

    pub fn get_slice(&self) -> (r: &[u8])
        ensures
            r@ == self@,
    {
        self.inner.as_slice()
    }
}

} // verus!
