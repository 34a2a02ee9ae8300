//! Per-peer stop-and-wait tags: allocation on the send path, duplicate
//! suppression on the receive path.
//!
//! Each peer and direction carries an eight-bit counter; the low four bits
//! travel in the frame.  A unicast DATA frame is delivered only when its tag
//! equals the expected counter's low nibble; anything else from that peer is
//! a retransmission the sender did not learn had been acknowledged, and is
//! discarded.

use vstd::prelude::*;
use crate::mac::{spec_payload, spec_src, spec_tag, MacAddress, MacFrame, BROADCAST_MAC};

verus! {

/// The per-peer tag counters of one station.
pub struct PeerTags {
    send_tag: Vec<u8>,
    recv_tag: Vec<u8>,
}

impl PeerTags {
    pub closed spec fn wf(self) -> bool {
        self.send_tag@.len() == 16 && self.recv_tag@.len() == 16
    }

    /// The outbound counters, one per peer address.
    pub closed spec fn send_tags(self) -> Seq<u8> {
        self.send_tag@
    }

    /// The expected inbound counters, one per peer address.
    pub closed spec fn recv_tags(self) -> Seq<u8> {
        self.recv_tag@
    }

    pub fn new() -> (r: Self)
        ensures
            r.wf(),
            forall|i: int| 0 <= i < 16 ==> r.send_tags()[i] == 0,
            forall|i: int| 0 <= i < 16 ==> r.recv_tags()[i] == 0,
    {
        let mut send_tag: Vec<u8> = Vec::new();
        let mut recv_tag: Vec<u8> = Vec::new();
        let mut i: usize = 0;
        while i < 16
            invariant
                i <= 16,
                send_tag@.len() == i,
                recv_tag@.len() == i,
                forall|j: int| 0 <= j < i ==> send_tag@[j] == 0,
                forall|j: int| 0 <= j < i ==> recv_tag@[j] == 0,
            decreases 16 - i,
        {
            send_tag.push(0);
            recv_tag.push(0);
            i = i + 1;
        }
        PeerTags { send_tag, recv_tag }
    }

    /// The current outbound counter for `dest`.
    pub fn current_send_tag(&self, dest: MacAddress) -> (tag: u8)
        requires
            self.wf(),
            dest < 16,
        ensures
            tag == self.send_tags()[dest as int],
    {
        self.send_tag[dest as usize]
    }

    /// Advance the outbound counter for `dest`, wrapping at 256.
    pub fn bump_send_tag(&mut self, dest: MacAddress)
        requires
            old(self).wf(),
            dest < 16,
        ensures
            final(self).wf(),
            final(self).send_tags() == old(self).send_tags().update(
                dest as int,
                (((old(self).send_tags()[dest as int] + 1) % 256) as u8),
            ),
            final(self).recv_tags() == old(self).recv_tags(),
    {
        let tag = self.send_tag[dest as usize];
        self.send_tag.set(dest as usize, tag.wrapping_add(1));
        proof {
            assert(tag.wrapping_add(1) == ((tag + 1) % 256) as u8) by (bit_vector);
        }
    }

    /// Allocate the tag a fresh outbound DATA frame carries: broadcast
    /// frames always use tag 0; a unicast frame takes the peer's counter,
    /// which then advances.
    pub fn alloc_send_tag(&mut self, dest: MacAddress) -> (tag: u8)
        requires
            old(self).wf(),
            dest < 16,
        ensures
            final(self).wf(),
            final(self).recv_tags() == old(self).recv_tags(),
            dest == BROADCAST_MAC ==> tag == 0 && final(self).send_tags()
                == old(self).send_tags(),
            dest != BROADCAST_MAC ==> tag == old(self).send_tags()[dest as int]
                && final(self).send_tags() == old(self).send_tags().update(
                dest as int,
                (((old(self).send_tags()[dest as int] + 1) % 256) as u8),
            ),
    {
        if dest == BROADCAST_MAC {
            0
        } else {
            let tag = self.current_send_tag(dest);
            self.bump_send_tag(dest);
            tag
        }
    }

    /// What the receive path accepts: the source is the peer we wait for,
    /// and the tag equals the expected counter's low nibble.
    pub open spec fn spec_accepts(self, expected_src: MacAddress, s: Seq<u8>) -> bool {
        spec_src(s) == expected_src && spec_tag(s) == (self.recv_tags()[spec_src(s) as int]
            & 0x0f)
    }

    /// Deliver a received DATA frame once: the payload comes out and the
    /// expected counter advances exactly when source and tag match; any
    /// other frame is discarded as a duplicate and the state stays put.
    pub fn accept(&mut self, expected_src: MacAddress, frame: &MacFrame) -> (r: Option<Vec<u8>>)
        requires
            old(self).wf(),
            frame.wf(),
        ensures
            final(self).wf(),
            final(self).send_tags() == old(self).send_tags(),
            old(self).spec_accepts(expected_src, frame@) ==> (r matches Some(p) && p@
                == spec_payload(frame@) && final(self).recv_tags()
                == old(self).recv_tags().update(
                spec_src(frame@) as int,
                (((old(self).recv_tags()[spec_src(frame@) as int] + 1) % 256) as u8),
            )),
            !old(self).spec_accepts(expected_src, frame@) ==> r is None && final(self).recv_tags()
                == old(self).recv_tags(),
    {
        let src = frame.get_src();
        let tag = frame.get_tag();
        proof {
            let b = frame@[0];
            assert(b & 0x0f < 16) by (bit_vector);
        }
        let expected = self.recv_tag[src as usize];
        if src == expected_src && tag == expected & 0x0f {
            self.recv_tag.set(src as usize, expected.wrapping_add(1));
            proof {
                assert(expected.wrapping_add(1) == ((expected + 1) % 256) as u8) by (bit_vector);
            }
            Some(frame.unwrap())
        } else {
            None
        }
    }
}

/// Whether a ping notification answers the request we sent: the peer is the
/// one we pinged and the tag is our counter's low nibble.
pub fn ping_reply_matches(pair: (u8, u8), dest: MacAddress, send_tag: u8) -> (r: bool)
    ensures
        r == (pair.0 == dest && pair.1 == (send_tag & 0x0f)),
{
    pair.0 == dest && pair.1 == (send_tag & 0x0f)
}

/// Law: tag monotonicity.  When a frame is accepted at counter value `e`,
/// its tag is `e & 0x0f` and the counter moves to `e + 1` (mod 256); the
/// next accepted tag is therefore the successor mod 16.  Delivered tags
/// follow `initial, initial + 1, ...` mod 16, with no gaps and no
/// duplicates.
pub proof fn lemma_tag_monotonic(e: u8)
    by (bit_vector)
    ensures
        (((e + 1) % 256) as u8) & 0x0f == ((e & 0x0f) + 1) % 16,
{
}

/// The expected counter after `i` accepted deliveries from one peer.
pub open spec fn counter_after(e: u8, i: nat) -> u8
    decreases i,
{
    if i == 0 {
        e
    } else {
        (((counter_after(e, (i - 1) as nat) + 1) % 256) as u8)
    }
}

/// Law: tag monotonicity over a whole run.  After `i` deliveries the
/// accepted tag is the `i`-th successor of the initial tag mod 16, so the
/// delivered tags are `initial, initial + 1, ...` mod 16 with no gaps.
pub proof fn lemma_tag_run(e: u8, i: nat)
    ensures
        (counter_after(e, i) & 0x0f) == ((e & 0x0f) + i) % 16,
    decreases i,
{
    assert(e & 0x0f < 16) by (bit_vector);
    if i > 0 {
        lemma_tag_run(e, (i - 1) as nat);
        lemma_tag_monotonic(counter_after(e, (i - 1) as nat));
        assert((((e & 0x0f) + (i - 1)) % 16 + 1) % 16 == ((e & 0x0f) + i) % 16)
            by (nonlinear_arith)
            requires
                i >= 1,
        ;
    }
}

/// Law: a delivered tag stays rejected for the next fifteen deliveries:
/// only after the tag space wraps can the same tag be accepted again.
pub proof fn lemma_duplicate_window(e: u8, i: nat)
    requires
        1 <= i < 16,
    ensures
        (e & 0x0f) != (counter_after(e, i) & 0x0f),
{
    lemma_tag_run(e, i);
    assert(e & 0x0f < 16) by (bit_vector);
    assert(((e & 0x0f) + i) % 16 != (e & 0x0f)) by (nonlinear_arith)
        requires
            0 <= (e & 0x0f) < 16,
            1 <= i < 16,
    ;
}

/// Law: duplicate suppression.  A retransmission carries the tag that was
/// just accepted, and the advanced counter's low nibble differs from it, so
/// `accept` rejects every retransmission of a delivered frame until the
/// counter wraps.
pub proof fn lemma_duplicate_rejected(e: u8, tag: u8)
    by (bit_vector)
    requires
        tag == e & 0x0f,
    ensures
        tag != (((e + 1) % 256) as u8) & 0x0f,
{
}

} // verus!
