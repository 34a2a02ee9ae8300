//! End-to-end exchanges over a simulated shared channel: the send engines
//! fill audio buffers, every station hears the attenuated sum, and the input
//! engines dispatch what they decode.

use athernet::engine::{InputEngine, SendEngine};
use athernet::link::{ping_reply_matches, PeerTags};
use athernet::mac::{MacFrame, BROADCAST_MAC};

/// Samples per simulated audio callback.
const BUF: usize = 128;

/// Callbacks per 200 ms at 48 kHz.
const CALLBACKS_200MS: usize = 75;

struct Host {
    addr: u8,
    send: SendEngine,
    input: InputEngine,
    tags: PeerTags,
    expect_from: u8,
    channel_free: bool,
    delivered: Vec<Vec<u8>>,
    ping_replies: Vec<(u8, u8)>,
    ever_backed_off: bool,
    ever_waited_ack: bool,
}

impl Host {
    fn new(addr: u8, expect_from: u8) -> Self {
        Host {
            addr,
            send: SendEngine::new(addr),
            input: InputEngine::new(addr),
            tags: PeerTags::new(),
            expect_from,
            channel_free: true,
            delivered: Vec::new(),
            ping_replies: Vec::new(),
            ever_backed_off: false,
            ever_waited_ack: false,
        }
    }

    fn hear(&mut self, sample: i16) {
        let out = self.input.push_sample(sample);
        if let Some((src, tag)) = out.ack_recv {
            self.send.notify_ack_recv(src, tag);
        }
        if let Some((src, tag)) = out.ack_send {
            self.send.notify_ack_send(src, tag);
        }
        if let Some((src, tag)) = out.ping_request {
            self.send.notify_ping(src, tag);
        }
        if let Some(pair) = out.ping_reply {
            self.ping_replies.push(pair);
        }
        if let Some(frame) = out.deliver {
            if let Some(payload) = self.tags.accept(self.expect_from, &frame) {
                self.delivered.push(payload);
            }
        }
        if let Some(free) = out.busy_changed {
            self.channel_free = free;
        }
    }
}

/// One audio callback: every engine fills a buffer, the channel sums and
/// attenuates them, and every station hears the same mix.
fn step(hosts: &mut [Host]) {
    let mut outs: Vec<Vec<i16>> = Vec::new();
    for h in hosts.iter_mut() {
        let free = h.channel_free;
        let out = h.send.fill(free, BUF);
        assert_eq!(out.len(), BUF);
        if !free {
            // Channel-busy correctness: a busy read never leaves the engine
            // emitting, and the buffer stays silent.
            assert!(!h.send.is_sending());
            assert!(out.iter().all(|&s| s == 0));
        }
        h.ever_backed_off = h.ever_backed_off || h.send.has_backoff();
        h.ever_waited_ack = h.ever_waited_ack || h.send.is_waiting_ack();
        outs.push(out);
    }
    for k in 0..BUF {
        let mix: i32 = outs.iter().map(|o| o[k] as i32).sum();
        let sample = (mix / 8) as i16;
        for h in hosts.iter_mut() {
            h.hear(sample);
        }
    }
}

#[test]
fn loopback_data() {
    // Host A sends [0x41, 0x42, 0x43] to host B; within 200 ms B's receive
    // path returns exactly that payload.
    let mut a = Host::new(0x1, 0x2);
    let mut b = Host::new(0x2, 0x1);
    let tag = a.tags.alloc_send_tag(0x2);
    a.send
        .submit_frame(MacFrame::new_data(0x1, 0x2, tag, &[0x41, 0x42, 0x43]));
    let mut hosts = vec![a, b];
    for _ in 0..CALLBACKS_200MS {
        step(&mut hosts);
    }
    assert_eq!(hosts[1].delivered, vec![vec![0x41, 0x42, 0x43]]);
}

#[test]
fn ack_ends_retransmission() {
    // A full exchange between two stations: B delivers once and A's
    // acknowledgement window closes.
    let mut a = Host::new(0x1, 0x3);
    let mut b = Host::new(0x3, 0x1);
    let tag = a.tags.alloc_send_tag(0x3);
    a.send
        .submit_frame(MacFrame::new_data(0x1, 0x3, tag, &[0x10, 0x20]));
    let mut hosts = vec![a, b];
    for _ in 0..200 {
        step(&mut hosts);
    }
    assert_eq!(hosts[1].delivered, vec![vec![0x10, 0x20]]);
    assert!(hosts[0].ever_waited_ack);
    assert!(!hosts[0].send.is_waiting_ack());
    assert!(!hosts[0].send.is_sending());
    assert!(!hosts[0].send.has_backoff());
    // Two payload bytes were acknowledged.
    assert_eq!(hosts[0].send.throughput_bits(), 16);
}

#[test]
fn ack_retransmission_delivers_once() {
    // The first ACK is lost; the sender retransmits, the receiver delivers
    // the payload exactly once, and the fresh ACK ends the exchange.
    let mut a = Host::new(0x1, 0x3);
    let mut b = Host::new(0x3, 0x1);
    let tag = a.tags.alloc_send_tag(0x3);
    a.send
        .submit_frame(MacFrame::new_data(0x1, 0x3, tag, &[0x77]));
    let mut first_ack_dropped = false;
    let mut dropping = false;
    for _ in 0..600 {
        let a_free = a.channel_free;
        let b_free = b.channel_free;
        let a_out = a.send.fill(a_free, BUF);
        let b_out = b.send.fill(b_free, BUF);
        // B's first emission is the ACK; it is lost on the way to A.
        if !first_ack_dropped && !dropping && b.send.is_sending() {
            dropping = true;
        }
        for k in 0..BUF {
            let mix = (a_out[k] as i32 + b_out[k] as i32) / 8;
            let a_in = if dropping {
                (a_out[k] as i32 / 8) as i16
            } else {
                mix as i16
            };
            a.hear(a_in);
            b.hear(mix as i16);
        }
        if dropping && !b.send.is_sending() {
            dropping = false;
            first_ack_dropped = true;
        }
        if first_ack_dropped && !a.send.is_waiting_ack() && !a.send.is_sending()
            && !a.send.has_backoff() && !b.send.is_sending() {
            break;
        }
    }
    assert!(first_ack_dropped, "the first ACK was never emitted");
    assert_eq!(b.delivered, vec![vec![0x77]]);
    assert!(!a.send.is_waiting_ack());
    assert!(!a.send.has_backoff());
}

#[test]
fn collision_backs_off_and_both_deliver() {
    // Two senders begin within the same callback; backoff separates them and
    // both frames eventually arrive, each delivered once.
    let mut a = Host::new(0x1, 0x3);
    let mut b = Host::new(0x3, 0x1);
    let tag_a = a.tags.alloc_send_tag(0x3);
    let tag_b = b.tags.alloc_send_tag(0x1);
    a.send
        .submit_frame(MacFrame::new_data(0x1, 0x3, tag_a, &[0xA1, 0xA2]));
    b.send
        .submit_frame(MacFrame::new_data(0x3, 0x1, tag_b, &[0xB1]));
    let mut hosts = vec![a, b];
    let mut rounds = 0;
    while rounds < 20_000 && !(hosts[0].delivered.len() == 1 && hosts[1].delivered.len() == 1) {
        step(&mut hosts);
        rounds += 1;
    }
    assert_eq!(hosts[1].delivered, vec![vec![0xA1, 0xA2]]);
    assert_eq!(hosts[0].delivered, vec![vec![0xB1]]);
    assert!(hosts[0].ever_backed_off || hosts[1].ever_backed_off);
}

#[test]
fn broadcast_reaches_all_without_acks() {
    // A broadcast DATA frame is delivered by every listener and acknowledged
    // by none.
    let mut a = Host::new(0x1, 0x1);
    let mut b = Host::new(0x2, 0x1);
    let mut c = Host::new(0x3, 0x1);
    let tag = a.tags.alloc_send_tag(BROADCAST_MAC);
    a.send
        .submit_frame(MacFrame::new_data(0x1, BROADCAST_MAC, tag, &[0x5A, 0x5B]));
    let mut hosts = vec![a, b, c];
    for _ in 0..CALLBACKS_200MS {
        step(&mut hosts);
        // No listener ever turns around with an ACK, and the sender never
        // waits for one.
        assert!(!hosts[1].send.is_sending());
        assert!(!hosts[2].send.is_sending());
        assert!(!hosts[0].send.is_waiting_ack());
    }
    assert_eq!(hosts[1].delivered, vec![vec![0x5A, 0x5B]]);
    assert_eq!(hosts[2].delivered, vec![vec![0x5A, 0x5B]]);
}

#[test]
fn ping_round_trip() {
    // A ping: the peer answers with PING_REPLY and the initiator sees it
    // well inside the two-second window.
    let mut a = Host::new(0x1, 0x3);
    let mut b = Host::new(0x3, 0x1);
    let tag = a.tags.current_send_tag(0x3);
    a.send
        .submit_frame(MacFrame::new_ping_request(0x1, 0x3, tag));
    let mut hosts = vec![a, b];
    let mut elapsed_callbacks = None;
    for round in 0..750 {
        step(&mut hosts);
        if hosts[0]
            .ping_replies
            .iter()
            .any(|&p| ping_reply_matches(p, 0x3, tag))
        {
            elapsed_callbacks = Some(round + 1);
            break;
        }
    }
    let elapsed = elapsed_callbacks.expect("the ping reply must arrive");
    // Positive and under two seconds (750 callbacks of 128 samples).
    assert!(elapsed > 0 && elapsed < 750);
}

#[test]
fn continuous_load_is_shared() {
    // Two peers under continuous offered load: channel arbitration lets
    // both make progress; neither starves.
    let mut a = Host::new(0x1, 0x3);
    let mut b = Host::new(0x3, 0x1);
    let mut hosts = vec![a, b];
    for _ in 0..6_000 {
        for (me, peer) in [(0usize, 0x3u8), (1usize, 0x1u8)] {
            if hosts[me].send.can_accept_frame() {
                let addr = hosts[me].addr;
                let tag = hosts[me].tags.alloc_send_tag(peer);
                let frame = MacFrame::new_data(addr, peer, tag, &[addr]);
                hosts[me].send.submit_frame(frame);
            }
        }
        step(&mut hosts);
    }
    let to_b = hosts[1].delivered.len();
    let to_a = hosts[0].delivered.len();
    assert!(to_b >= 2, "station 1 starved: {} deliveries", to_b);
    assert!(to_a >= 2, "station 3 starved: {} deliveries", to_a);
}

#[test]
fn busy_channel_defers_emission() {
    // An engine that reads the channel busy mid-frame stops emitting and
    // moves the frame to the backoff buffer.
    let mut engine = SendEngine::new(0x1);
    engine.submit_frame(MacFrame::new_data(0x1, 0x3, 0, &[1, 2, 3]));
    let silent = engine.fill(true, BUF);
    assert!(silent.iter().all(|&s| s == 0));
    assert!(engine.is_sending());
    let first = engine.fill(true, BUF);
    assert!(first.iter().any(|&s| s != 0));
    let deferred = engine.fill(false, BUF);
    assert!(deferred.iter().all(|&s| s == 0));
    assert!(!engine.is_sending());
    assert!(engine.has_backoff());
}

#[test]
fn stale_ack_requests_dropped_while_busy() {
    // ACK-send requests queued while the channel is busy are discarded: the
    // peer will retransmit and elicit a fresh one.
    let mut engine = SendEngine::new(0x1);
    engine.notify_ack_send(0x3, 0x0);
    let out = engine.fill(false, BUF);
    assert!(out.iter().all(|&s| s == 0));
    // Once the channel clears there is nothing left to send.
    engine.fill(true, BUF);
    assert!(!engine.is_sending());
}
