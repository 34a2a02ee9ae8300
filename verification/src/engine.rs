//! The MAC engine: a CSMA/CA send state machine for the output callback and
//! a dispatcher for the input callback.
//!
//! The output side owns one frame in flight.  From `Idle` it serves, in
//! priority order, pending ACKs, pending ping replies, a backed-off frame
//! whose wait has elapsed, and finally a fresh application frame — and only
//! while the channel is free.  `Sending` copies modulated samples into the
//! output buffer, deferring to a randomized backoff when the channel goes
//! busy mid-frame.  `WaitAck` counts down the acknowledgement window and
//! backs off on timeout.  Retransmission reuses the same frame bytes and
//! tag, repeats without a cap, and saturates the backoff exponent at
//! `BACK_OFF_CAP`; a PING_REQ is answered by a PING_REPLY and needs no
//! separate ACK.  The input side pushes samples through the demodulator,
//! classifies completed frames by opcode, and reports edges of the
//! carrier-sense flag.

use vstd::prelude::*;
use crate::mac::{
    spec_check, spec_crc_ok, spec_dest, spec_is_data, spec_op, spec_payload_size, spec_src,
    spec_tag, spec_to_broadcast, spec_total_size, MacFrame, OP_ACK, OP_DATA, OP_PING_REPLY,
    OP_PING_REQ,
};
use crate::modem::{
    demod_yielded_bytes, demod_yields, modulate, next_count, spec_env_step, spec_modulate,
    window_shift, Demodulator,
};
use rand::Rng;

verus! {

/// Samples to wait for an ACK before backing off.
pub const ACK_TIMEOUT: usize = 1100;

/// Samples in one backoff slot.
pub const BACK_OFF_WINDOW: usize = 500;

/// Idle gap, in samples, after a completed exchange.
pub const FRAME_INTERVAL: usize = 50;

/// Cap on the backoff exponent.
pub const BACK_OFF_CAP: usize = 4;

/// Relies on `rand::Rng::gen_range` over `0..bound`: a sample drawn from
/// the range, strictly below its end.  It panics only on an empty range,
/// which the precondition rules out.
#[verifier::external_body]
fn random_below(bound: usize) -> (r: usize)
    requires
        1 <= bound,
    ensures
        r < bound,
{
    rand::thread_rng().gen_range(0..bound)
}

/// Slots the backoff may draw from after `count` attempts: `2^min(4, count)`.
pub open spec fn spec_backoff_slots(count: int) -> int {
    if count <= 0 {
        1
    } else if count == 1 {
        2
    } else if count == 2 {
        4
    } else if count == 3 {
        8
    } else {
        16
    }
}

/// A randomized backoff wait: a whole number of slots, fewer than
/// `2^min(4, count)` of them.  Frames without a retransmission obligation
/// wait zero slots.
fn backoff_delay(is_data: bool, count: usize) -> (r: usize)
    ensures
        !is_data ==> r == 0,
        r % BACK_OFF_WINDOW == 0,
        r < spec_backoff_slots(count as int) * BACK_OFF_WINDOW,
{
    let exponent = if count < BACK_OFF_CAP {
        count
    } else {
        BACK_OFF_CAP
    };
    let maximum: usize = if exponent == 0 {
        1
    } else if exponent == 1 {
        2
    } else if exponent == 2 {
        4
    } else if exponent == 3 {
        8
    } else {
        16
    };
    let slots = if is_data {
        random_below(maximum)
    } else {
        0
    };
    slots * BACK_OFF_WINDOW
}

/// Law: however many attempts a frame has seen, the random deferral spans
/// at most sixteen backoff slots, so a backlogged station re-contends for
/// the channel within a bounded window and is never starved by its own
/// backoff state.
pub proof fn lemma_backoff_bounded(count: int)
    ensures
        spec_backoff_slots(count) <= 16,
{
}

/// A buffer of silence.
fn zeros(len: usize) -> (out: Vec<i16>)
    ensures
        out@.len() == len,
        forall|k: int| 0 <= k < len ==> out@[k] == 0i16,
{
    let mut out: Vec<i16> = Vec::new();
    let mut k: usize = 0;
    while k < len
        invariant
            k <= len,
            out@.len() == k,
            forall|j: int| 0 <= j < k ==> out@[j] == 0i16,
        decreases len - k,
    {
        out.push(0);
        k = k + 1;
    }
    out
}

enum SendState {
    Idle(usize),
    Sending(MacFrame, Vec<i16>, usize, usize),
    WaitAck(MacFrame, usize, usize),
}

/// The send state machine's position, as the contracts speak of it.
#[verifier::ext_equal]
pub enum EngineState {
    Idle { wait: int },
    Sending { frame: Seq<u8>, cursor: int, count: int },
    WaitAck { frame: Seq<u8>, remaining: int, count: int },
}

/// One deferred frame: its bytes, its remaining wait, its attempt count.
#[verifier::ext_equal]
pub struct BackoffEntry {
    pub frame: Seq<u8>,
    pub wait: int,
    pub count: int,
}

/// The whole observable engine state.
#[verifier::ext_equal]
pub struct EngineView {
    pub state: EngineState,
    pub backoff: Option<BackoffEntry>,
    pub pending: Option<Seq<u8>>,
    pub ack_send: Seq<(u8, u8)>,
    pub ping: Seq<(u8, u8)>,
    pub ack_recv: Seq<(u8, u8)>,
    pub throughput: int,
}

/// Subtraction that stops at zero, as the sample timers count down.
pub open spec fn spec_sat_sub(a: int, b: int) -> int {
    if a >= b {
        a - b
    } else {
        0
    }
}

/// One callback's tick of the backoff timer.
pub open spec fn spec_tick_backoff(b: Option<BackoffEntry>, len: int) -> Option<BackoffEntry> {
    match b {
        Some(e) => Some(BackoffEntry { wait: spec_sat_sub(e.wait, len), ..e }),
        None => None,
    }
}

/// A control frame answering `pair`, as `new_ack` and `new_ping_reply`
/// build it: our station as source, the pair's peer and tag, a valid CRC.
pub open spec fn spec_control_reply(s: Seq<u8>, op: u8, station: u8, pair: (u8, u8)) -> bool {
    &&& spec_src(s) == station & 0x0f
    &&& spec_dest(s) == pair.0 & 0x0f
    &&& spec_op(s) == op
    &&& spec_tag(s) == pair.1 & 0x0f
    &&& spec_crc_ok(s)
}

/// A deferred frame: the same bytes and attempt count, waiting a whole
/// number of backoff slots below `2^min(4, count)`; frames without a
/// retransmission obligation wait zero slots.
pub open spec fn spec_deferred(b: Option<BackoffEntry>, frame: Seq<u8>, count: int) -> bool {
    &&& b is Some
    &&& b->Some_0.frame == frame
    &&& b->Some_0.count == count
    &&& b->Some_0.wait % (BACK_OFF_WINDOW as int) == 0
    &&& b->Some_0.wait < spec_backoff_slots(count) * BACK_OFF_WINDOW
    &&& (!spec_is_data(frame) ==> b->Some_0.wait == 0)
}

/// Whether a completed emission enters the acknowledgement window: only
/// unicast DATA and PING_REQ are awaited; broadcast frames never are.
pub open spec fn spec_awaits_ack(frame: Seq<u8>) -> bool {
    (spec_is_data(frame) || spec_op(frame) == OP_PING_REQ) && !spec_to_broadcast(frame)
}

/// Whether the acknowledgement queue holds the ACK this frame waits for.
pub open spec fn spec_acks_frame(q: Seq<(u8, u8)>, frame: Seq<u8>) -> bool {
    exists|i: int| 0 <= i < q.len() && q[i] == (spec_dest(frame), spec_tag(frame))
}

/// The throughput counter after one acknowledged frame, saturating.
pub open spec fn spec_throughput_add(t: int, frame: Seq<u8>) -> int {
    if t + 8 * spec_payload_size(frame) <= u64::MAX {
        t + 8 * spec_payload_size(frame)
    } else {
        u64::MAX as int
    }
}

/// What the idle step does, given the pre-state's queues (its `state` field
/// is not read): once the wait elapses on a free channel, serve in priority
/// order a pending ACK, a pending ping reply, the deferred frame if its
/// wait reached zero (attempt count advanced), then a fresh application
/// frame; otherwise stay idle and discard stale ACK requests.
pub open spec fn spec_idle_effect(
    pre: EngineView,
    post: EngineView,
    station: u8,
    channel_free: bool,
    len: int,
    wait: int,
) -> bool {
    let t1 = spec_sat_sub(wait, len);
    if !(t1 == 0 && channel_free) {
        post == (EngineView {
            state: EngineState::Idle { wait: t1 },
            ack_send: Seq::empty(),
            ..pre
        })
    } else if pre.ack_send.len() > 0 {
        &&& post == (EngineView { state: post.state, ack_send: pre.ack_send.skip(1), ..pre })
        &&& (post.state matches EngineState::Sending { frame, cursor, count } && cursor == 0
            && count == 0 && spec_control_reply(frame, OP_ACK, station, pre.ack_send[0]))
    } else if pre.ping.len() > 0 {
        &&& post == (EngineView { state: post.state, ping: pre.ping.skip(1), ..pre })
        &&& (post.state matches EngineState::Sending { frame, cursor, count } && cursor == 0
            && count == 0 && spec_control_reply(frame, OP_PING_REPLY, station, pre.ping[0]))
    } else if pre.backoff is Some {
        if pre.backoff->Some_0.wait == 0 {
            post == (EngineView {
                state: EngineState::Sending {
                    frame: pre.backoff->Some_0.frame,
                    cursor: 0,
                    count: next_count(pre.backoff->Some_0.count),
                },
                backoff: None,
                ..pre
            })
        } else {
            post == (EngineView { state: EngineState::Idle { wait: t1 }, ..pre })
        }
    } else if pre.pending is Some {
        post == (EngineView {
            state: EngineState::Sending { frame: pre.pending->Some_0, cursor: 0, count: 0 },
            pending: None,
            ..pre
        })
    } else {
        post == (EngineView { state: EngineState::Idle { wait: t1 }, ..pre })
    }
}

/// What the emission step does (the pre-state's `state` field is not read):
/// on a free channel the cursor advances by the buffer, and a finished
/// unicast DATA or PING_REQ enters the acknowledgement window while
/// anything else returns to idle; on a busy channel a DATA or PING_REQ
/// frame is deferred with a randomized wait, a PING_REPLY is deferred with
/// no wait, and a colliding ACK is discarded outright.
pub open spec fn spec_sending_effect(
    pre: EngineView,
    post: EngineView,
    channel_free: bool,
    len: int,
    frame: Seq<u8>,
    cursor: int,
    count: int,
) -> bool {
    let pcm = spec_modulate(frame);
    if channel_free {
        if cursor + len < pcm.len() {
            post == (EngineView {
                state: EngineState::Sending { frame, cursor: cursor + len, count },
                ..pre
            })
        } else if spec_awaits_ack(frame) {
            post == (EngineView {
                state: EngineState::WaitAck { frame, remaining: ACK_TIMEOUT as int, count },
                ..pre
            })
        } else {
            post == (EngineView { state: EngineState::Idle { wait: 0 }, ..pre })
        }
    } else {
        if spec_is_data(frame) || spec_op(frame) == OP_PING_REQ {
            &&& post == (EngineView {
                state: EngineState::Idle { wait: 0 },
                backoff: post.backoff,
                ..pre
            })
            &&& spec_deferred(post.backoff, frame, count)
        } else if spec_op(frame) != OP_ACK {
            post == (EngineView {
                state: EngineState::Idle { wait: 0 },
                backoff: Some(BackoffEntry { frame, wait: 0, count }),
                ..pre
            })
        } else {
            post == (EngineView { state: EngineState::Idle { wait: 0 }, ..pre })
        }
    }
}

/// What the acknowledgement window does (the pre-state's `state` field is
/// not read): a matching `(dest, tag)` pair in the queue ends the exchange
/// with the idle gap and the payload counted; no match drains the queue and
/// keeps waiting; an expired window defers the same frame, bytes and count
/// untouched, for retransmission.
pub open spec fn spec_wait_ack_effect(
    pre: EngineView,
    post: EngineView,
    len: int,
    frame: Seq<u8>,
    time: int,
    count: int,
) -> bool {
    let t1 = spec_sat_sub(time, len);
    if t1 == 0 {
        &&& post == (EngineView {
            state: EngineState::Idle { wait: 0 },
            backoff: post.backoff,
            ..pre
        })
        &&& spec_deferred(post.backoff, frame, count)
    } else if spec_acks_frame(pre.ack_recv, frame) {
        post == (EngineView {
            state: EngineState::Idle { wait: FRAME_INTERVAL as int },
            ack_recv: post.ack_recv,
            throughput: spec_throughput_add(pre.throughput, frame),
            ..pre
        })
    } else {
        post == (EngineView {
            state: EngineState::WaitAck { frame, remaining: t1, count },
            ack_recv: Seq::empty(),
            ..pre
        })
    }
}

/// The output-side state machine.  The audio host's callback hands it the
/// carrier-sense reading and a buffer length; it hands back the samples to
/// play.
pub struct SendEngine {
    mac_addr: u8,
    state: SendState,
    backoff: Option<(MacFrame, usize, usize)>,
    pending_frame: Option<MacFrame>,
    ack_send_queue: Vec<(u8, u8)>,
    ping_queue: Vec<(u8, u8)>,
    ack_recv_queue: Vec<(u8, u8)>,
    acked_bits: u64,
}

impl View for SendEngine {
    type V = EngineView;

    closed spec fn view(&self) -> EngineView {
        EngineView {
            state: match self.state {
                SendState::Idle(t) => EngineState::Idle { wait: t as int },
                SendState::Sending(f, _, cursor, count) => EngineState::Sending {
                    frame: f@,
                    cursor: cursor as int,
                    count: count as int,
                },
                SendState::WaitAck(f, remaining, count) => EngineState::WaitAck {
                    frame: f@,
                    remaining: remaining as int,
                    count: count as int,
                },
            },
            backoff: match self.backoff {
                Some((f, wait, count)) => Some(
                    BackoffEntry { frame: f@, wait: wait as int, count: count as int },
                ),
                None => None,
            },
            pending: match self.pending_frame {
                Some(f) => Some(f@),
                None => None,
            },
            ack_send: self.ack_send_queue@,
            ping: self.ping_queue@,
            ack_recv: self.ack_recv_queue@,
            throughput: self.acked_bits as int,
        }
    }
}

impl SendEngine {
    pub closed spec fn wf(self) -> bool {
        &&& match self.state {
            SendState::Idle(_) => true,
            SendState::Sending(f, pcm, cursor, _) => f.wf() && cursor <= pcm@.len() && pcm@
                == spec_modulate(f@),
            SendState::WaitAck(f, _, _) => f.wf(),
        }
        &&& match self.backoff {
            Some((f, _, _)) => f.wf(),
            None => true,
        }
        &&& match self.pending_frame {
            Some(f) => f.wf(),
            None => true,
        }
    }

    /// The station address this engine stamps on control frames.
    pub closed spec fn station(self) -> u8 {
        self.mac_addr
    }

    /// Whether a frame is being emitted.
    pub open spec fn sending(self) -> bool {
        self@.state is Sending
    }

    /// The PCM of the frame being emitted.
    pub open spec fn sending_pcm(self) -> Seq<i16> {
        match self@.state {
            EngineState::Sending { frame, .. } => spec_modulate(frame),
            _ => Seq::empty(),
        }
    }

    /// How many samples of the emission have already been played.
    pub open spec fn sending_cursor(self) -> int {
        match self@.state {
            EngineState::Sending { cursor, .. } => cursor,
            _ => 0,
        }
    }

    /// Whether the engine sits in the acknowledgement window.
    pub open spec fn waiting_ack(self) -> bool {
        self@.state is WaitAck
    }

    /// Whether a deferred frame waits in the backoff buffer.
    pub open spec fn backed_off(self) -> bool {
        self@.backoff is Some
    }

    /// Whether the application slot is free.
    pub open spec fn can_accept(self) -> bool {
        self@.pending is None
    }

    /// Payload bits acknowledged so far, for throughput accounting.
    pub open spec fn throughput(self) -> int {
        self@.throughput
    }

    pub fn new(mac_addr: u8) -> (r: Self)
        ensures
            r.wf(),
            r.station() == mac_addr,
            r@ == (EngineView {
                state: EngineState::Idle { wait: 0 },
                backoff: None,
                pending: None,
                ack_send: Seq::empty(),
                ping: Seq::empty(),
                ack_recv: Seq::empty(),
                throughput: 0,
            }),
    {
        let r = SendEngine {
            mac_addr,
            state: SendState::Idle(0),
            backoff: None,
            pending_frame: None,
            ack_send_queue: Vec::new(),
            ping_queue: Vec::new(),
            ack_recv_queue: Vec::new(),
            acked_bits: 0,
        };
        proof {
            assert(r@ =~~= (EngineView {
                state: EngineState::Idle { wait: 0 },
                backoff: None,
                pending: None,
                ack_send: Seq::empty(),
                ping: Seq::empty(),
                ack_recv: Seq::empty(),
                throughput: 0,
            }));
        }
        r
    }

    /// Payload bits acknowledged so far, for throughput accounting.
    pub fn throughput_bits(&self) -> (r: u64)
        ensures
            r == self.throughput(),
    {
        self.acked_bits
    }

    /// The receive side asks for an ACK to `(dest, tag)`: the pair joins the
    /// back of the ACK queue and nothing else moves.
    pub fn notify_ack_send(&mut self, dest: u8, tag: u8)
        requires
            old(self).wf(),
        ensures
            final(self).wf(),
            final(self).station() == old(self).station(),
            final(self)@ == (EngineView {
                ack_send: old(self)@.ack_send.push((dest, tag)),
                ..old(self)@
            }),
    {
        self.ack_send_queue.push((dest, tag));
        proof {
            assert(self@ =~~= (EngineView {
                ack_send: old(self)@.ack_send.push((dest, tag)),
                ..old(self)@
            }));
        }
    }

    /// The receive side asks for a PING_REPLY to `(dest, tag)`: the pair
    /// joins the back of the ping queue and nothing else moves.
    pub fn notify_ping(&mut self, dest: u8, tag: u8)
        requires
            old(self).wf(),
        ensures
            final(self).wf(),
            final(self).station() == old(self).station(),
            final(self)@ == (EngineView { ping: old(self)@.ping.push((dest, tag)), ..old(self)@ }),
    {
        self.ping_queue.push((dest, tag));
        proof {
            assert(self@ =~~= (EngineView { ping: old(self)@.ping.push((dest, tag)), ..old(self)@ }));
        }
    }

    /// The receive side saw an ACK from `src` for `tag`: the pair joins the
    /// back of the acknowledgement queue and nothing else moves.
    pub fn notify_ack_recv(&mut self, src: u8, tag: u8)
        requires
            old(self).wf(),
        ensures
            final(self).wf(),
            final(self).station() == old(self).station(),
            final(self)@ == (EngineView {
                ack_recv: old(self)@.ack_recv.push((src, tag)),
                ..old(self)@
            }),
    {
        self.ack_recv_queue.push((src, tag));
        proof {
            assert(self@ =~~= (EngineView {
                ack_recv: old(self)@.ack_recv.push((src, tag)),
                ..old(self)@
            }));
        }
    }

    /// Whether a frame is being emitted.
    pub fn is_sending(&self) -> (r: bool)
        ensures
            r == self.sending(),
    {
        matches!(self.state, SendState::Sending(..))
    }

    /// Whether the engine sits in the acknowledgement window.
    pub fn is_waiting_ack(&self) -> (r: bool)
        ensures
            r == self.waiting_ack(),
    {
        matches!(self.state, SendState::WaitAck(..))
    }

    /// Whether a deferred frame waits in the backoff buffer.
    pub fn has_backoff(&self) -> (r: bool)
        ensures
            r == self.backed_off(),
    {
        self.backoff.is_some()
    }

    /// Whether a fresh application frame can be taken.
    pub fn can_accept_frame(&self) -> (r: bool)
        ensures
            r == self.can_accept(),
    {
        self.pending_frame.is_none()
    }

    /// Hand over one application frame: it fills the pending slot, nothing
    /// else moves, and it is emitted once the channel is free and everything
    /// of higher priority has been served.
    pub fn submit_frame(&mut self, frame: MacFrame)
        requires
            old(self).wf(),
            old(self).can_accept(),
            frame.wf(),
        ensures
            final(self).wf(),
            final(self).station() == old(self).station(),
            final(self)@ == (EngineView { pending: Some(frame@), ..old(self)@ }),
    {
        self.pending_frame = Some(frame);
        proof {
            assert(self@ =~~= (EngineView { pending: Some(frame@), ..old(self)@ }));
        }
    }

    fn start_sending(&mut self, frame: MacFrame, count: usize)
        requires
            old(self).wf(),
            frame.wf(),
        ensures
            final(self).wf(),
            final(self).station() == old(self).station(),
            final(self)@ == (EngineView {
                state: EngineState::Sending { frame: frame@, cursor: 0, count: count as int },
                ..old(self)@
            }),
    {
        let pcm = modulate(frame);
        self.state = SendState::Sending(frame, pcm, 0, count);
        proof {
            assert(self@ =~~= (EngineView {
                state: EngineState::Sending { frame: frame@, cursor: 0, count: count as int },
                ..old(self)@
            }));
        }
    }

    /// The idle step: once the wait has elapsed and the channel is free,
    /// serve the queues in priority order; while the channel is busy or the
    /// gap runs, discard stale ACK requests.
    fn idle_step(&mut self, channel_free: bool, len: usize, time: usize)
        requires
            old(self).wf(),
        ensures
            final(self).wf(),
            final(self).station() == old(self).station(),
            !channel_free ==> !final(self).sending(),
            spec_idle_effect(
                old(self)@,
                final(self)@,
                old(self).station(),
                channel_free,
                len as int,
                time as int,
            ),
    {
        let ghost pre = self@;
        let time = time.saturating_sub(len);
        self.state = SendState::Idle(time);
        if time == 0 && channel_free {
            if self.ack_send_queue.len() > 0 {
                let (dest, tag) = self.ack_send_queue.remove(0);
                let frame = MacFrame::new_ack(self.mac_addr, dest, tag);
                self.start_sending(frame, 0);
                proof {
                    assert(self@.ack_send =~= pre.ack_send.skip(1));
                    assert(self@ =~~= (EngineView {
                        state: self@.state,
                        ack_send: pre.ack_send.skip(1),
                        ..pre
                    }));
                }
            } else if self.ping_queue.len() > 0 {
                let (dest, tag) = self.ping_queue.remove(0);
                let frame = MacFrame::new_ping_reply(self.mac_addr, dest, tag);
                self.start_sending(frame, 0);
                proof {
                    assert(self@.ping =~= pre.ping.skip(1));
                    assert(self@ =~~= (EngineView {
                        state: self@.state,
                        ping: pre.ping.skip(1),
                        ..pre
                    }));
                }
            } else if let Some((frame, wait, count)) = self.backoff {
                if wait == 0 {
                    self.backoff = None;
                    let retry = if count < usize::MAX {
                        count + 1
                    } else {
                        count
                    };
                    self.start_sending(frame, retry);
                    proof {
                        assert(self@ =~~= (EngineView {
                            state: EngineState::Sending {
                                frame: frame@,
                                cursor: 0,
                                count: next_count(count as int),
                            },
                            backoff: None,
                            ..pre
                        }));
                    }
                } else {
                    proof {
                        assert(self@ =~~= (EngineView {
                            state: EngineState::Idle { wait: 0 },
                            ..pre
                        }));
                    }
                }
            } else if let Some(frame) = self.pending_frame {
                self.pending_frame = None;
                self.start_sending(frame, 0);
                proof {
                    assert(self@ =~~= (EngineView {
                        state: EngineState::Sending { frame: frame@, cursor: 0, count: 0 },
                        pending: None,
                        ..pre
                    }));
                }
            } else {
                proof {
                    assert(self@ =~~= (EngineView { state: EngineState::Idle { wait: 0 }, ..pre }));
                }
            }
        } else {
            // Stale by the time the channel clears: drop them and let the
            // peers retransmit.
            self.ack_send_queue.clear();
            proof {
                assert(self@ =~~= (EngineView {
                    state: EngineState::Idle { wait: time as int },
                    ack_send: Seq::empty(),
                    ..pre
                }));
            }
        }
    }

    /// The emission step: copy samples from the modulated frame while the
    /// channel stays free; on a busy channel defer the frame to the backoff
    /// buffer (dropping a colliding ACK) and fall back to idle.
    #[verifier::rlimit(60)]
    fn sending_step(
        &mut self,
        channel_free: bool,
        len: usize,
        frame: MacFrame,
        pcm: Vec<i16>,
        cursor: usize,
        count: usize,
    ) -> (out: Vec<i16>)
        requires
            old(self).wf(),
            frame.wf(),
            cursor <= pcm@.len(),
            pcm@ == spec_modulate(frame@),
        ensures
            final(self).wf(),
            final(self).station() == old(self).station(),
            out@.len() == len,
            !channel_free ==> !final(self).sending(),
            channel_free ==> forall|k: int|
                0 <= k < len ==> out@[k] == (if cursor + k < pcm@.len() {
                    pcm@[cursor + k]
                } else {
                    0i16
                }),
            !channel_free ==> forall|k: int| 0 <= k < len ==> out@[k] == 0i16,
            spec_sending_effect(
                old(self)@,
                final(self)@,
                channel_free,
                len as int,
                frame@,
                cursor as int,
                count as int,
            ),
    {
        let ghost pre = self@;
        if channel_free {
            let mut out: Vec<i16> = Vec::new();
            let mut cur = cursor;
            let mut k: usize = 0;
            while k < len
                invariant
                    k <= len,
                    cursor <= cur <= pcm@.len(),
                    cur == if cursor + k <= pcm@.len() {
                        cursor + k
                    } else {
                        pcm@.len() as int
                    },
                    out@.len() == k,
                    forall|j: int|
                        0 <= j < k ==> out@[j] == (if cursor + j < pcm@.len() {
                            pcm@[cursor + j]
                        } else {
                            0i16
                        }),
                decreases len - k,
            {
                if cur < pcm.len() {
                    out.push(pcm[cur]);
                    cur = cur + 1;
                } else {
                    out.push(0);
                }
                k = k + 1;
            }
            if cur == pcm.len() {
                if (frame.is_data() || frame.is_ping_request()) && !frame.to_broadcast() {
                    self.state = SendState::WaitAck(frame, ACK_TIMEOUT, count);
                    proof {
                        assert(self@ =~~= (EngineView {
                            state: EngineState::WaitAck {
                                frame: frame@,
                                remaining: ACK_TIMEOUT as int,
                                count: count as int,
                            },
                            ..pre
                        }));
                    }
                } else {
                    self.state = SendState::Idle(0);
                    proof {
                        assert(self@ =~~= (EngineView {
                            state: EngineState::Idle { wait: 0 },
                            ..pre
                        }));
                    }
                }
            } else {
                self.state = SendState::Sending(frame, pcm, cur, count);
                proof {
                    assert(self@ =~~= (EngineView {
                        state: EngineState::Sending {
                            frame: frame@,
                            cursor: cursor + len,
                            count: count as int,
                        },
                        ..pre
                    }));
                }
            }
            out
        } else {
            if frame.is_data() || frame.is_ping_request() {
                let delay = backoff_delay(frame.is_data(), count);
                self.backoff = Some((frame, delay, count));
            } else if !frame.is_ack() {
                self.backoff = Some((frame, 0, count));
            }
            self.state = SendState::Idle(0);
            proof {
                if spec_is_data(frame@) || spec_op(frame@) == OP_PING_REQ {
                    assert(self@ =~~= (EngineView {
                        state: EngineState::Idle { wait: 0 },
                        backoff: self@.backoff,
                        ..pre
                    }));
                } else if spec_op(frame@) != OP_ACK {
                    assert(self@ =~~= (EngineView {
                        state: EngineState::Idle { wait: 0 },
                        backoff: Some(
                            BackoffEntry { frame: frame@, wait: 0, count: count as int },
                        ),
                        ..pre
                    }));
                } else {
                    assert(self@ =~~= (EngineView {
                        state: EngineState::Idle { wait: 0 },
                        ..pre
                    }));
                }
            }
            zeros(len)
        }
    }

    /// The acknowledgement window: a matching ACK ends the exchange; an
    /// expired window defers the frame to a randomized backoff.
    fn wait_ack_step(&mut self, len: usize, frame: MacFrame, time: usize, count: usize)
        requires
            old(self).wf(),
            frame.wf(),
        ensures
            final(self).wf(),
            final(self).station() == old(self).station(),
            !final(self).sending(),
            spec_wait_ack_effect(
                old(self)@,
                final(self)@,
                len as int,
                frame@,
                time as int,
                count as int,
            ),
    {
        let ghost pre = self@;
        let time = time.saturating_sub(len);
        if time > 0 {
            let mut matched = false;
            let ghost q0 = self.ack_recv_queue@;
            while self.ack_recv_queue.len() > 0 && !matched
                invariant
                    old(self).wf(),
                    frame.wf(),
                    self.state == old(self).state,
                    self.backoff == old(self).backoff,
                    self.pending_frame == old(self).pending_frame,
                    self.ack_send_queue == old(self).ack_send_queue,
                    self.ping_queue == old(self).ping_queue,
                    self.acked_bits == old(self).acked_bits,
                    self.mac_addr == old(self).mac_addr,
                    matched ==> spec_acks_frame(q0, frame@),
                    !matched ==> (spec_acks_frame(q0, frame@) <==> spec_acks_frame(
                        self.ack_recv_queue@,
                        frame@,
                    )),
                decreases self.ack_recv_queue@.len(),
            {
                let ghost qk = self.ack_recv_queue@;
                let (src, tag) = self.ack_recv_queue.remove(0);
                if src == frame.get_dest() && tag == frame.get_tag() {
                    matched = true;
                } else {
                    proof {
                        assert(forall|i: int|
                            0 <= i < self.ack_recv_queue@.len() ==> self.ack_recv_queue@[i]
                                == qk[i + 1]);
                        assert(spec_acks_frame(qk, frame@) <==> spec_acks_frame(
                            self.ack_recv_queue@,
                            frame@,
                        )) by {
                            if spec_acks_frame(qk, frame@) {
                                let i = choose|i: int|
                                    0 <= i < qk.len() && qk[i] == (
                                    spec_dest(frame@),
                                    spec_tag(frame@),
                                );
                                assert(i >= 1);
                                assert(self.ack_recv_queue@[i - 1] == qk[i]);
                            }
                            if spec_acks_frame(self.ack_recv_queue@, frame@) {
                                let i = choose|i: int|
                                    0 <= i < self.ack_recv_queue@.len()
                                        && self.ack_recv_queue@[i] == (
                                    spec_dest(frame@),
                                    spec_tag(frame@),
                                );
                                assert(qk[i + 1] == self.ack_recv_queue@[i]);
                            }
                        }
                    }
                }
            }
            if matched {
                let payload_bits = (frame.get_payload_size() as u64) * 8;
                self.acked_bits = self.acked_bits.saturating_add(payload_bits);
                self.state = SendState::Idle(FRAME_INTERVAL);
                proof {
                    assert(self@ =~~= (EngineView {
                        state: EngineState::Idle { wait: FRAME_INTERVAL as int },
                        ack_recv: self@.ack_recv,
                        throughput: spec_throughput_add(pre.throughput, frame@),
                        ..pre
                    }));
                }
            } else {
                self.state = SendState::WaitAck(frame, time, count);
                proof {
                    assert(self.ack_recv_queue@ =~= Seq::<(u8, u8)>::empty());
                    assert(self@ =~~= (EngineView {
                        state: EngineState::WaitAck {
                            frame: frame@,
                            remaining: time as int,
                            count: count as int,
                        },
                        ack_recv: Seq::empty(),
                        ..pre
                    }));
                }
            }
        } else {
            let delay = backoff_delay(frame.is_data(), count);
            self.backoff = Some((frame, delay, count));
            self.state = SendState::Idle(0);
            proof {
                assert(self@ =~~= (EngineView {
                    state: EngineState::Idle { wait: 0 },
                    backoff: self@.backoff,
                    ..pre
                }));
            }
        }
    }

    /// One output callback: fill `len` samples.  The backoff timer ticks
    /// down by the buffer length, then the state machine takes one step as
    /// the `spec_*_effect` predicates describe.  A new emission starts only
    /// while the channel is read free; when the channel is busy the engine
    /// never ends the callback in `Sending`.
    pub fn fill(&mut self, channel_free: bool, len: usize) -> (out: Vec<i16>)
        requires
            old(self).wf(),
        ensures
            final(self).wf(),
            final(self).station() == old(self).station(),
            out@.len() == len,
            !channel_free ==> !final(self).sending(),
            (old(self).sending() && channel_free) ==> forall|k: int|
                0 <= k < len ==> out@[k] == (if old(self).sending_cursor() + k < old(
                    self,
                ).sending_pcm().len() {
                    old(self).sending_pcm()[old(self).sending_cursor() + k]
                } else {
                    0i16
                }),
            !(old(self).sending() && channel_free) ==> forall|k: int|
                0 <= k < len ==> out@[k] == 0i16,
            ({
                let mid = (EngineView {
                    backoff: spec_tick_backoff(old(self)@.backoff, len as int),
                    ..old(self)@
                });
                match old(self)@.state {
                    EngineState::Idle { wait } => spec_idle_effect(
                        mid,
                        final(self)@,
                        old(self).station(),
                        channel_free,
                        len as int,
                        wait,
                    ),
                    EngineState::Sending { frame, cursor, count } => spec_sending_effect(
                        mid,
                        final(self)@,
                        channel_free,
                        len as int,
                        frame,
                        cursor,
                        count,
                    ),
                    EngineState::WaitAck { frame, remaining, count } => spec_wait_ack_effect(
                        mid,
                        final(self)@,
                        len as int,
                        frame,
                        remaining,
                        count,
                    ),
                }
            }),
    {
        let ghost pre = self@;
        if let Some((frame, time, count)) = self.backoff {
            self.backoff = Some((frame, time.saturating_sub(len), count));
        }
        proof {
            assert(self@ =~~= (EngineView {
                backoff: spec_tick_backoff(pre.backoff, len as int),
                ..pre
            }));
        }
        let ghost mid = self@;
        let mut st = SendState::Idle(0);
        core::mem::swap(&mut st, &mut self.state);
        proof {
            assert(self@ =~~= (EngineView { state: EngineState::Idle { wait: 0 }, ..mid }));
        }
        match st {
            SendState::Idle(time) => {
                self.idle_step(channel_free, len, time);
                proof {
                    assert(spec_idle_effect(
                        mid,
                        self@,
                        old(self).station(),
                        channel_free,
                        len as int,
                        time as int,
                    ));
                }
                zeros(len)
            },
            SendState::Sending(frame, pcm, cursor, count) => {
                self.sending_step(channel_free, len, frame, pcm, cursor, count)
            },
            SendState::WaitAck(frame, time, count) => {
                self.wait_ack_step(len, frame, time, count);
                zeros(len)
            },
        }
    }
}

/// What one completed, address-checked frame does to the engine's channels.
pub struct RecvOutput {
    /// An ACK (or PING_REPLY standing in for one) arrived for this pair.
    pub ack_recv: Option<(u8, u8)>,
    /// A unicast DATA frame arrived; answer it with an ACK to this pair.
    pub ack_send: Option<(u8, u8)>,
    /// A DATA frame to hand to the application.
    pub deliver: Option<MacFrame>,
    /// A PING_REQ arrived; answer it with a PING_REPLY to this pair.
    pub ping_request: Option<(u8, u8)>,
    /// A PING_REPLY arrived for this pair.
    pub ping_reply: Option<(u8, u8)>,
    /// The carrier-sense flag flipped: the new channel-free value.
    pub busy_changed: Option<bool>,
}

impl RecvOutput {
    pub open spec fn quiet(self) -> bool {
        &&& self.ack_recv is None
        &&& self.ack_send is None
        &&& self.deliver is None
        &&& self.ping_request is None
        &&& self.ping_reply is None
    }

    fn none() -> (r: Self)
        ensures
            r.quiet(),
            r.busy_changed is None,
    {
        RecvOutput {
            ack_recv: None,
            ack_send: None,
            deliver: None,
            ping_request: None,
            ping_reply: None,
            busy_changed: None,
        }
    }
}

/// What the dispatcher hands each channel for one address-checked frame.
pub open spec fn spec_dispatch(r: RecvOutput, s: Seq<u8>, station: u8) -> bool {
    let pair = (spec_src(s), spec_tag(s));
    &&& r.ack_recv == (if spec_op(s) == OP_ACK || spec_op(s) == OP_PING_REPLY {
        Some(pair)
    } else {
        Option::<(u8, u8)>::None
    })
    &&& r.ack_send == (if spec_is_data(s) && !spec_to_broadcast(s) {
        Some(pair)
    } else {
        Option::<(u8, u8)>::None
    })
    &&& (r.deliver is Some <==> spec_is_data(s))
    &&& (r.deliver matches Some(f) ==> f.wf() && spec_total_size(f@) == s.len() && f@.take(
        spec_total_size(f@),
    ) == s)
    &&& r.ping_request == (if spec_op(s) == OP_PING_REQ {
        Some(pair)
    } else {
        Option::<(u8, u8)>::None
    })
    &&& r.ping_reply == (if spec_op(s) == OP_PING_REPLY {
        Some(pair)
    } else {
        Option::<(u8, u8)>::None
    })
}

/// Dispatch one verified frame by opcode.  ACKs feed the send side's
/// acknowledgement channel; unicast DATA is delivered and acknowledged;
/// broadcast DATA is delivered and never acknowledged; PING_REQ asks for a
/// reply; PING_REPLY acknowledges our request and wakes the pinger.
pub fn classify(frame: MacFrame, mac_addr: u8) -> (r: RecvOutput)
    requires
        frame.wf(),
    ensures
        r.busy_changed is None,
        !spec_check(frame@, mac_addr) ==> r.quiet(),
        spec_check(frame@, mac_addr) ==> {
            let pair = (spec_src(frame@), spec_tag(frame@));
            &&& r.ack_recv == (if spec_op(frame@) == OP_ACK || spec_op(frame@) == OP_PING_REPLY {
                Some(pair)
            } else {
                Option::<(u8, u8)>::None
            })
            &&& r.ack_send == (if spec_is_data(frame@) && !spec_to_broadcast(frame@) {
                Some(pair)
            } else {
                Option::<(u8, u8)>::None
            })
            &&& r.deliver == (if spec_is_data(frame@) {
                Some(frame)
            } else {
                Option::<MacFrame>::None
            })
            &&& r.ping_request == (if spec_op(frame@) == OP_PING_REQ {
                Some(pair)
            } else {
                Option::<(u8, u8)>::None
            })
            &&& r.ping_reply == (if spec_op(frame@) == OP_PING_REPLY {
                Some(pair)
            } else {
                Option::<(u8, u8)>::None
            })
        },
{
    let mut r = RecvOutput::none();
    if !frame.check(mac_addr) {
        return r;
    }
    let pair = (frame.get_src(), frame.get_tag());
    let op = frame.get_op();
    if op == OP_ACK {
        r.ack_recv = Some(pair);
    } else if op == OP_DATA {
        if !frame.to_broadcast() {
            r.ack_send = Some(pair);
        }
        r.deliver = Some(frame);
    } else if op == OP_PING_REQ {
        r.ping_request = Some(pair);
    } else if op == OP_PING_REPLY {
        r.ack_recv = Some(pair);
        r.ping_reply = Some(pair);
    }
    r
}

/// The input-side engine: demodulates samples, dispatches frames, and
/// watches for carrier-sense edges.
pub struct InputEngine {
    demodulator: Demodulator,
    mac_addr: u8,
    channel_active: bool,
}

impl InputEngine {
    pub closed spec fn wf(self) -> bool {
        self.demodulator.wf()
    }

    /// The channel-activity level last stored.
    pub closed spec fn channel_active(self) -> bool {
        self.channel_active
    }

    /// The demodulator this engine feeds.
    pub closed spec fn demod(self) -> Demodulator {
        self.demodulator
    }

    /// The station address this engine filters for.
    pub closed spec fn mac_addr_spec(self) -> u8 {
        self.mac_addr
    }

    pub fn new(mac_addr: u8) -> (r: Self)
        ensures
            r.wf(),
            !r.channel_active(),
            r.mac_addr_spec() == mac_addr,
            !r.demod().receiving(),
            r.demod().envelope() == 0,
    {
        InputEngine { demodulator: Demodulator::new(mac_addr), mac_addr, channel_active: false }
    }

    /// One input sample: demodulate one step, dispatch the completed frame
    /// if this sample yields one, and store the demodulator's activity
    /// reading, reporting an edge as the new channel-free value.
    pub fn push_sample(&mut self, item: i16) -> (r: RecvOutput)
        requires
            old(self).wf(),
        ensures
            final(self).wf(),
            final(self).mac_addr_spec() == old(self).mac_addr_spec(),
            // Dispatch: a completed, address-checked frame goes to exactly
            // the channels `spec_dispatch` names; anything else stays quiet.
            !demod_yields(old(self).demod(), item) ==> r.quiet(),
            (demod_yields(old(self).demod(), item) && !spec_check(
                demod_yielded_bytes(old(self).demod(), item),
                old(self).mac_addr_spec(),
            )) ==> r.quiet(),
            (demod_yields(old(self).demod(), item) && spec_check(
                demod_yielded_bytes(old(self).demod(), item),
                old(self).mac_addr_spec(),
            )) ==> spec_dispatch(
                r,
                demod_yielded_bytes(old(self).demod(), item),
                old(self).mac_addr_spec(),
            ),
            // The demodulator advances exactly one sample (its own contract
            // pins the rest of the step).
            final(self).demod().envelope() == spec_env_step(old(self).demod().envelope(), item),
            !old(self).demod().receiving() ==> final(self).demod().window() == window_shift(
                old(self).demod().window(),
                item,
            ),
            demod_yields(old(self).demod(), item) ==> !final(self).demod().receiving(),
            // Carrier sense: the stored level equals the demodulator's
            // reading after the sample; an edge reports the new free value.
            final(self).channel_active() == final(self).demod().spec_is_active(),
            r.busy_changed matches Some(free) ==> free == !final(self).channel_active()
                && final(self).channel_active() != old(self).channel_active(),
            r.busy_changed is None ==> final(self).channel_active() == old(
                self,
            ).channel_active(),
    {
        let ghost pre_demod = self.demodulator;
        let mut r = match self.demodulator.push_back(item) {
            Some(frame) => {
                proof {
                    let bytes = demod_yielded_bytes(pre_demod, item);
                    assert(frame@.take(spec_total_size(frame@)) == bytes);
                    assert(bytes.len() == spec_total_size(frame@) >= 3);
                    assert(frame@[0] == bytes[0] && frame@[1] == bytes[1] && frame@[2]
                        == bytes[2]);
                    assert(spec_total_size(bytes) == spec_total_size(frame@));
                    assert(bytes.take(spec_total_size(bytes)) =~= bytes);
                    assert(spec_check(frame@, self.mac_addr) == spec_check(
                        bytes,
                        self.mac_addr,
                    ));
                }
                classify(frame, self.mac_addr)
            },
            None => RecvOutput::none(),
        };
        let active = self.demodulator.is_active();
        if active != self.channel_active {
            self.channel_active = active;
            r.busy_changed = Some(!active);
        }
        r
    }
}

} // verus!
