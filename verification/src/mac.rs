//! MAC frames: a fixed-capacity byte buffer holding addresses, opcode, tag,
//! an optional payload, and a trailing checksum.
//!
//! Layout: byte 0 carries the source address in its low nibble and the
//! destination in its high nibble; byte 1 carries the opcode low and the tag
//! high.  A DATA frame continues with a length byte, the payload, and a
//! CRC-16; every other frame ends with a single CRC-8 byte.

use vstd::prelude::*;
use crate::utils::{crc8_checksum, crc8_fold, crc16_checksum, crc16_of, lemma_crc8_self_check};

verus! {

pub type MacAddress = u8;

/// Index of the address byte.
pub const MAC_INDEX: usize = 0;

/// Index of the opcode/tag byte.
pub const OP_INDEX: usize = 1;

/// Bytes of header before the length field.
pub const MAC_DATA_SIZE: usize = 2;

/// The broadcast destination address.
pub const BROADCAST_MAC: u8 = 0b1111;

pub const OP_DATA: u8 = 0b0000;

pub const OP_PING_REQ: u8 = 0b0001;

pub const OP_PING_REPLY: u8 = 0b0010;

pub const OP_ACK: u8 = 0b1111;

/// Longest payload a DATA frame can carry.
pub const PAYLOAD_MAX: usize = 251;

/// Capacity of the frame buffer: header, length byte, payload, CRC-16.
pub const MAC_FRAME_MAX: usize = 256;

pub type MacFrameRaw = [u8; 256];

/// The source address held in the frame bytes.
pub open spec fn spec_src(s: Seq<u8>) -> u8 {
    s[0] & 0x0f
}

/// The destination address held in the frame bytes.
pub open spec fn spec_dest(s: Seq<u8>) -> u8 {
    (s[0] >> 4) & 0x0f
}

/// The opcode held in the frame bytes.
pub open spec fn spec_op(s: Seq<u8>) -> u8 {
    s[1] & 0x0f
}

/// The tag held in the frame bytes.
pub open spec fn spec_tag(s: Seq<u8>) -> u8 {
    (s[1] >> 4) & 0x0f
}

pub open spec fn spec_is_data(s: Seq<u8>) -> bool {
    spec_op(s) == OP_DATA
}

pub open spec fn spec_is_ack(s: Seq<u8>) -> bool {
    spec_op(s) == OP_ACK
}

pub open spec fn spec_to_broadcast(s: Seq<u8>) -> bool {
    spec_dest(s) == BROADCAST_MAC
}

/// The payload byte count the frame declares.
pub open spec fn spec_payload_size(s: Seq<u8>) -> int {
    if spec_is_data(s) {
        s[2] as int
    } else {
        0
    }
}

/// Bytes covered by the checksum: header, and for DATA the length and payload.
pub open spec fn spec_size(s: Seq<u8>) -> int {
    MAC_DATA_SIZE + if spec_is_data(s) {
        s[2] + 1
    } else {
        0int
    }
}

/// Trailing checksum width: CRC-16 for DATA, CRC-8 otherwise.
pub open spec fn spec_crc_size(s: Seq<u8>) -> int {
    if spec_is_data(s) {
        2
    } else {
        1
    }
}

/// Bytes of the frame on the wire, checksum included.
pub open spec fn spec_total_size(s: Seq<u8>) -> int {
    spec_size(s) + spec_crc_size(s)
}

/// The payload bytes of a DATA frame; empty for control frames.
pub open spec fn spec_payload(s: Seq<u8>) -> Seq<u8> {
    if spec_is_data(s) {
        s.subrange(3, 3 + s[2] as int)
    } else {
        Seq::empty()
    }
}

/// The on-wire bytes fold to a zero checksum remainder.
pub open spec fn spec_crc_ok(s: Seq<u8>) -> bool {
    if spec_is_data(s) {
        crc16_of(s.take(spec_total_size(s))) == 0
    } else {
        crc8_fold(s.take(spec_total_size(s))) == 0
    }
}

/// What `check` decides: a zero checksum remainder, and a destination that is
/// this station or broadcast.
pub open spec fn spec_check(s: Seq<u8>, mac_addr: u8) -> bool {
    spec_crc_ok(s) && (spec_dest(s) == mac_addr || spec_dest(s) == BROADCAST_MAC)
}

#[derive(Copy, Clone)]
pub struct MacFrame {
    inner: MacFrameRaw,
}

impl View for MacFrame {
    type V = Seq<u8>;

    closed spec fn view(&self) -> Seq<u8> {
        self.inner@
    }
}

impl MacFrame {
    /// A frame whose declared payload fits the buffer, so that every size
    /// derived from it stays within bounds.
    pub open spec fn wf(self) -> bool {
        self@.len() == MAC_FRAME_MAX && (spec_is_data(self@) ==> self@[2] <= PAYLOAD_MAX)
    }

    /// A zeroed frame buffer.
    pub fn new() -> (r: Self)
        ensures
            r.wf(),
            r@.len() == MAC_FRAME_MAX,
            forall|i: int| 0 <= i < MAC_FRAME_MAX ==> r@[i] == 0,
    {
        let r = Self { inner: [0u8; 256] };
        proof {
            assert(0u8 & 0x0f == 0) by (bit_vector);
        }
        r
    }

    fn set_src(&mut self, val: MacAddress)
        requires
            old(self)@.len() == MAC_FRAME_MAX,
        ensures
            final(self)@.len() == MAC_FRAME_MAX,
            spec_src(final(self)@) == val & 0x0f,
            spec_dest(final(self)@) == spec_dest(old(self)@),
            forall|i: int| 1 <= i < MAC_FRAME_MAX ==> final(self)@[i] == old(self)@[i],
    {
        let b = self.inner[0];
        let nb = (b & 0xf0) | (val & 0x0f);
        self.inner[0] = nb;
        proof {
            assert(((b & 0xf0) | (val & 0x0f)) & 0x0f == val & 0x0f) by (bit_vector);
            assert((((b & 0xf0) | (val & 0x0f)) >> 4) & 0x0f == (b >> 4) & 0x0f) by (bit_vector);
        }
    }

    fn set_dest(&mut self, val: MacAddress)
        requires
            old(self)@.len() == MAC_FRAME_MAX,
        ensures
            final(self)@.len() == MAC_FRAME_MAX,
            spec_dest(final(self)@) == val & 0x0f,
            spec_src(final(self)@) == spec_src(old(self)@),
            forall|i: int| 1 <= i < MAC_FRAME_MAX ==> final(self)@[i] == old(self)@[i],
    {
        let b = self.inner[0];
        let nb = (b & 0x0f) | ((val & 0x0f) << 4);
        self.inner[0] = nb;
        proof {
            assert((((b & 0x0f) | ((val & 0x0f) << 4)) >> 4) & 0x0f == val & 0x0f)
                by (bit_vector);
            assert(((b & 0x0f) | ((val & 0x0f) << 4)) & 0x0f == b & 0x0f) by (bit_vector);
        }
    }

    fn set_op(&mut self, val: u8)
        requires
            old(self)@.len() == MAC_FRAME_MAX,
        ensures
            final(self)@.len() == MAC_FRAME_MAX,
            spec_op(final(self)@) == val & 0x0f,
            spec_tag(final(self)@) == spec_tag(old(self)@),
            final(self)@[0] == old(self)@[0],
            forall|i: int| 2 <= i < MAC_FRAME_MAX ==> final(self)@[i] == old(self)@[i],
    {
        let b = self.inner[1];
        let nb = (b & 0xf0) | (val & 0x0f);
        self.inner[1] = nb;
        proof {
            assert(((b & 0xf0) | (val & 0x0f)) & 0x0f == val & 0x0f) by (bit_vector);
            assert((((b & 0xf0) | (val & 0x0f)) >> 4) & 0x0f == (b >> 4) & 0x0f) by (bit_vector);
        }
    }

    fn set_tag(&mut self, val: u8)
        requires
            old(self)@.len() == MAC_FRAME_MAX,
        ensures
            final(self)@.len() == MAC_FRAME_MAX,
            spec_tag(final(self)@) == val & 0x0f,
            spec_op(final(self)@) == spec_op(old(self)@),
            final(self)@[0] == old(self)@[0],
            forall|i: int| 2 <= i < MAC_FRAME_MAX ==> final(self)@[i] == old(self)@[i],
    {
        let b = self.inner[1];
        let nb = (b & 0x0f) | ((val & 0x0f) << 4);
        self.inner[1] = nb;
        proof {
            assert((((b & 0x0f) | ((val & 0x0f) << 4)) >> 4) & 0x0f == val & 0x0f)
                by (bit_vector);
            assert(((b & 0x0f) | ((val & 0x0f) << 4)) & 0x0f == b & 0x0f) by (bit_vector);
        }
    }

    fn set_pay_load(&mut self, data: &[u8])
        requires
            old(self)@.len() == MAC_FRAME_MAX,
            data@.len() <= PAYLOAD_MAX,
        ensures
            final(self)@.len() == MAC_FRAME_MAX,
            final(self)@[0] == old(self)@[0],
            final(self)@[1] == old(self)@[1],
            final(self)@[2] == data@.len(),
            final(self)@.subrange(3, 3 + data@.len() as int) == data@,
            forall|i: int|
                3 + data@.len() <= i < MAC_FRAME_MAX ==> final(self)@[i] == old(self)@[i],
    {
        let size = data.len();
        self.inner[2] = size as u8;
        let mut i: usize = 0;
        while i < size
            invariant
                i <= size,
                size == data@.len(),
                size <= PAYLOAD_MAX,
                self@.len() == MAC_FRAME_MAX,
                self@[0] == old(self)@[0],
                self@[1] == old(self)@[1],
                self@[2] == data@.len(),
                forall|k: int| 0 <= k < i ==> self@[3 + k] == data@[k],
                forall|k: int| 3 + size <= k < MAC_FRAME_MAX ==> self@[k] == old(self)@[k],
            decreases size - i,
        {
            self.inner[3 + i] = data[i];
            i = i + 1;
        }
        proof {
            assert(self@.subrange(3, 3 + data@.len() as int) =~= data@);
        }
    }

    /// Copy of the first `k` frame bytes.
    pub(crate) fn prefix_vec(&self, k: usize) -> (v: Vec<u8>)
        requires
            self@.len() == MAC_FRAME_MAX,
            k <= MAC_FRAME_MAX,
        ensures
            v@ == self@.take(k as int),
    {
        let mut v: Vec<u8> = Vec::new();
        let mut i: usize = 0;
        while i < k
            invariant
                i <= k,
                k <= MAC_FRAME_MAX,
                self@.len() == MAC_FRAME_MAX,
                v@.len() == i,
                forall|j: int| 0 <= j < i ==> v@[j] == self@[j],
            decreases k - i,
        {
            v.push(self.inner[i]);
            i = i + 1;
        }
        proof {
            assert(v@ =~= self@.take(k as int));
        }
        v
    }

    /// Append the checksum the opcode calls for over the bytes before it.
    fn generate_crc(&mut self)
        requires
            old(self).wf(),
        ensures
            final(self).wf(),
            spec_crc_ok(final(self)@),
            forall|i: int| 0 <= i < spec_size(old(self)@) ==> final(self)@[i] == old(self)@[i],
            spec_size(final(self)@) == spec_size(old(self)@),
            spec_is_data(final(self)@) == spec_is_data(old(self)@),
    {
        let size = self.get_size();
        if self.is_data() {
            let buf = self.prefix_vec(size);
            let crc = crc16_checksum(buf.as_slice());
            proof {
                assert(crc & 0xff < 256 && crc >> 8 < 256) by (bit_vector);
            }
            self.inner[size] = (crc & 0xff) as u8;
            self.inner[size + 1] = (crc >> 8) as u8;
            proof {
                assert(self@.take(spec_total_size(self@)) =~= buf@.push((crc & 0xff) as u8).push(
                    (crc >> 8) as u8,
                ));
            }
        } else {
            let buf = self.prefix_vec(size);
            let crc = crc8_checksum(buf.as_slice());
            self.inner[size] = crc;
            proof {
                lemma_crc8_self_check(buf@);
                assert(self@.take(spec_total_size(self@)) =~= buf@.push(crc));
            }
        }
    }

    /// A DATA frame carrying `data`, checksummed with CRC-16.
    pub fn new_data(src: u8, dest: u8, tag: u8, data: &[u8]) -> (r: Self)
        requires
            data@.len() <= PAYLOAD_MAX,
        ensures
            r.wf(),
            spec_src(r@) == src & 0x0f,
            spec_dest(r@) == dest & 0x0f,
            spec_op(r@) == OP_DATA,
            spec_tag(r@) == tag & 0x0f,
            spec_is_data(r@),
            spec_payload_size(r@) == data@.len(),
            spec_payload(r@) == data@,
            spec_crc_ok(r@),
    {
        let mut result = Self::new();
        result.set_src(src);
        result.set_dest(dest);
        result.set_op(OP_DATA);
        result.set_tag(tag);
        result.set_pay_load(data);
        proof {
            assert(OP_DATA & 0x0f == OP_DATA) by (bit_vector);
        }
        result.generate_crc();
        proof {
            assert(spec_payload(result@) =~= data@);
        }
        result
    }

    /// An ACK frame for the given tag, checksummed with CRC-8.
    pub fn new_ack(src: u8, dest: u8, tag: u8) -> (r: Self)
        ensures
            r.wf(),
            spec_src(r@) == src & 0x0f,
            spec_dest(r@) == dest & 0x0f,
            spec_op(r@) == OP_ACK,
            spec_tag(r@) == tag & 0x0f,
            spec_crc_ok(r@),
    {
        let mut result = Self::new();
        result.set_src(src);
        result.set_dest(dest);
        result.set_op(OP_ACK);
        result.set_tag(tag);
        proof {
            assert(OP_ACK & 0x0f == OP_ACK && OP_ACK != OP_DATA) by (bit_vector);
        }
        result.generate_crc();
        result
    }

    /// A PING_REQ frame, checksummed with CRC-8.
    pub fn new_ping_request(src: u8, dest: u8, tag: u8) -> (r: Self)
        ensures
            r.wf(),
            spec_src(r@) == src & 0x0f,
            spec_dest(r@) == dest & 0x0f,
            spec_op(r@) == OP_PING_REQ,
            spec_tag(r@) == tag & 0x0f,
            spec_crc_ok(r@),
    {
        let mut result = Self::new();
        result.set_src(src);
        result.set_dest(dest);
        result.set_op(OP_PING_REQ);
        result.set_tag(tag);
        proof {
            assert(OP_PING_REQ & 0x0f == OP_PING_REQ && OP_PING_REQ != OP_DATA) by (bit_vector);
        }
        result.generate_crc();
        result
    }

    /// A PING_REPLY frame, checksummed with CRC-8.
    pub fn new_ping_reply(src: u8, dest: u8, tag: u8) -> (r: Self)
        ensures
            r.wf(),
            spec_src(r@) == src & 0x0f,
            spec_dest(r@) == dest & 0x0f,
            spec_op(r@) == OP_PING_REPLY,
            spec_tag(r@) == tag & 0x0f,
            spec_crc_ok(r@),
    {
        let mut result = Self::new();
        result.set_src(src);
        result.set_dest(dest);
        result.set_op(OP_PING_REPLY);
        result.set_tag(tag);
        proof {
            assert(OP_PING_REPLY & 0x0f == OP_PING_REPLY && OP_PING_REPLY != OP_DATA)
                by (bit_vector);
        }
        result.generate_crc();
        result
    }

    /// Adopt a raw buffer, as the demodulator hands frames over.
    pub fn from_raw(inner: MacFrameRaw) -> (r: Self)
        requires
            spec_is_data(inner@) ==> inner@[2] <= PAYLOAD_MAX,
        ensures
            r@ == inner@,
            r.wf(),
    {
        Self { inner }
    }

    pub fn into_raw(self) -> (r: MacFrameRaw)
        ensures
            r@ == self@,
    {
        self.inner
    }

    /// Header and payload byte count, the range the checksum covers.
    pub fn get_size(&self) -> (r: usize)
        requires
            self@.len() == MAC_FRAME_MAX,
        ensures
            r == spec_size(self@),
    {
        if self.is_data() {
            MAC_DATA_SIZE + self.inner[2] as usize + 1
        } else {
            MAC_DATA_SIZE
        }
    }

    /// Width of the trailing checksum.
    pub fn get_crc_size(&self) -> (r: usize)
        requires
            self@.len() == MAC_FRAME_MAX,
        ensures
            r == spec_crc_size(self@),
    {
        if self.is_data() {
            2
        } else {
            1
        }
    }

    /// Bytes of the frame on the wire, checksum included.
    pub fn get_total_size(&self) -> (r: usize)
        requires
            self@.len() == MAC_FRAME_MAX,
        ensures
            r == spec_total_size(self@),
    {
        self.get_size() + self.get_crc_size()
    }

    /// The declared payload length; zero for control frames.
    pub fn get_payload_size(&self) -> (r: usize)
        requires
            self@.len() == MAC_FRAME_MAX,
        ensures
            r == spec_payload_size(self@),
    {
        if self.is_data() {
            self.inner[2] as usize
        } else {
            0
        }
    }

    pub fn get_src(&self) -> (r: MacAddress)
        requires
            self@.len() == MAC_FRAME_MAX,
        ensures
            r == spec_src(self@),
    {
        self.inner[0] & 0x0f
    }

    pub fn get_dest(&self) -> (r: MacAddress)
        requires
            self@.len() == MAC_FRAME_MAX,
        ensures
            r == spec_dest(self@),
    {
        (self.inner[0] >> 4) & 0x0f
    }

    pub fn get_op(&self) -> (r: u8)
        requires
            self@.len() == MAC_FRAME_MAX,
        ensures
            r == spec_op(self@),
    {
        self.inner[1] & 0x0f
    }

    pub fn get_tag(&self) -> (r: u8)
        requires
            self@.len() == MAC_FRAME_MAX,
        ensures
            r == spec_tag(self@),
    {
        (self.inner[1] >> 4) & 0x0f
    }

    pub fn to_broadcast(&self) -> (r: bool)
        requires
            self@.len() == MAC_FRAME_MAX,
        ensures
            r == spec_to_broadcast(self@),
    {
        self.get_dest() == BROADCAST_MAC
    }

    pub fn is_ack(&self) -> (r: bool)
        requires
            self@.len() == MAC_FRAME_MAX,
        ensures
            r == spec_is_ack(self@),
    {
        self.get_op() == OP_ACK
    }

    pub fn is_data(&self) -> (r: bool)
        requires
            self@.len() == MAC_FRAME_MAX,
        ensures
            r == spec_is_data(self@),
    {
        self.get_op() == OP_DATA
    }

    pub fn is_ping_request(&self) -> (r: bool)
        requires
            self@.len() == MAC_FRAME_MAX,
        ensures
            r == (spec_op(self@) == OP_PING_REQ),
    {
        self.get_op() == OP_PING_REQ
    }

    /// Recompute the checksum over the on-wire bytes and test the destination.
    pub fn check(&self, mac_addr: u8) -> (r: bool)
        requires
            self.wf(),
        ensures
            r == spec_check(self@, mac_addr),
    {
        let total = self.get_total_size();
        let buf = self.prefix_vec(total);
        let crc_flag = if self.is_data() {
            crc16_checksum(buf.as_slice()) == 0
        } else {
            crc8_checksum(buf.as_slice()) == 0
        };
        crc_flag && (self.get_dest() == mac_addr || self.get_dest() == BROADCAST_MAC)
    }

    /// Copy of the payload bytes.
    pub fn unwrap(&self) -> (r: Vec<u8>)
        requires
            self.wf(),
        ensures
            r@ == spec_payload(self@),
    {
        let size = self.get_payload_size();
        let mut r: Vec<u8> = Vec::new();
        let mut i: usize = 0;
        while i < size
            invariant
                i <= size,
                self@.len() == MAC_FRAME_MAX,
                size == spec_payload_size(self@),
                size + 3 <= MAC_FRAME_MAX,
                r@.len() == i,
                forall|k: int| 0 <= k < i ==> r@[k] == self@[3 + k],
            decreases size - i,
        {
            r.push(self.inner[3 + i]);
            i = i + 1;
        }
        proof {
            assert(r@ =~= spec_payload(self@));
        }
        r
    }
}

/// Law: a frame that carries a valid checksum is accepted by `check` at its
/// own destination, and at every station when sent to broadcast.  Each `new_*`
/// constructor establishes `spec_crc_ok`, and `check` decides exactly
/// `spec_check`, so a freshly built frame always passes at its destination.
pub proof fn lemma_check_roundtrip(s: Seq<u8>, addr: u8)
    requires
        spec_crc_ok(s),
        spec_dest(s) == addr || spec_dest(s) == BROADCAST_MAC,
    ensures
        spec_check(s, addr),
{
}

} // verus!
