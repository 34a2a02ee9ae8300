//! Modulation and demodulation over a clean, attenuated channel.

use athernet::coding::CodingError;
use athernet::mac::MacFrame;
use athernet::modem::{modulate, BitReceive, Demodulator};

/// A transmit-to-receive path loses most of its level; the demodulator's
/// thresholds expect received levels well under the emitted full scale.
fn attenuate(sample: i16) -> i16 {
    sample / 8
}

#[test]
fn modulate_length() {
    let frame = MacFrame::new_data(0x1, 0x2, 0x0, &[0x41, 0x42, 0x43]);
    // 8 frame bytes make 80 line bits after the 7-bit preamble; each of the
    // 87 + 5 windows emits 3 samples.
    let pcm = modulate(frame);
    assert_eq!(pcm.len(), (7 + 80 + 5) * 3);
}

#[test]
fn modulate_is_silent_outside_pulses() {
    let frame = MacFrame::new_ack(0x1, 0x2, 0x0);
    let pcm = modulate(frame);
    assert!(pcm.iter().any(|&s| s != 0));
    assert!(pcm.iter().all(|&s| s.abs() <= 26419));
}

#[test]
fn demodulator_recovers_data_frame() {
    let frame = MacFrame::new_data(0x1, 0x2, 0x9, &[0xDE, 0xAD, 0xBE, 0xEF]);
    let pcm = modulate(frame);
    let mut demodulator = Demodulator::new(0x2);
    let mut got = None;
    for &s in pcm.iter() {
        if let Some(f) = demodulator.push_back(attenuate(s)) {
            got = Some(f);
        }
    }
    let recovered = got.expect("the frame must be recovered");
    assert!(recovered.check(0x2));
    assert_eq!(recovered.get_src(), 0x1);
    assert_eq!(recovered.get_tag(), 0x9);
    assert_eq!(recovered.unwrap(), vec![0xDE, 0xAD, 0xBE, 0xEF]);
}

#[test]
fn demodulator_recovers_control_frame() {
    let frame = MacFrame::new_ack(0x3, 0x1, 0x7);
    let pcm = modulate(frame);
    let mut demodulator = Demodulator::new(0x1);
    let mut got = None;
    for &s in pcm.iter() {
        if let Some(f) = demodulator.push_back(attenuate(s)) {
            got = Some(f);
        }
    }
    let recovered = got.expect("the ACK must be recovered");
    assert!(recovered.is_ack());
    assert!(recovered.check(0x1));
    assert_eq!(recovered.get_tag(), 0x7);
}

#[test]
fn channel_goes_active_for_foreign_frame_only() {
    let frame = MacFrame::new_data(0x3, 0x2, 0x0, &[1, 2, 3]);
    let pcm = modulate(frame);

    // A third station hears a foreign frame: the channel reads active for
    // essentially the whole reception.
    let mut listener = Demodulator::new(0x2);
    let mut listener_active = 0usize;
    for &s in pcm.iter() {
        listener.push_back(attenuate(s));
        if listener.is_active() {
            listener_active += 1;
        }
    }
    assert!(listener_active > 100);
    assert!(!listener.is_active());

    // The sender hears its own echo: once the source byte is decoded the
    // channel reads free again, so only the short window between lock and
    // the first byte may count as active.
    let mut sender = Demodulator::new(0x3);
    let mut sender_active = 0usize;
    for &s in pcm.iter() {
        sender.push_back(attenuate(s));
        if sender.is_active() {
            sender_active += 1;
        }
    }
    assert!(sender_active <= 30);
    assert!(!sender.is_active());
    assert!(sender_active < listener_active);
}

#[test]
fn oversize_frame_rejected_by_assembler() {
    // A declared payload past the buffer capacity is a framing error.
    let mut sink = BitReceive::new();
    assert!(sink.push(0x21).is_none());
    assert!(sink.push(0x00).is_none());
    assert!(matches!(
        sink.push(0xFF),
        Some(Err(CodingError::OversizeFrame))
    ));
}

#[test]
fn assembler_completes_control_frame() {
    let ack = MacFrame::new_ack(0x3, 0x1, 0x7);
    let raw = ack.into_raw();
    let mut sink = BitReceive::new();
    assert!(sink.push(raw[0]).is_none());
    assert!(sink.push(raw[1]).is_none());
    let done = sink.push(raw[2]).expect("three bytes complete an ACK");
    let frame = match done {
        Ok(frame) => frame,
        Err(_) => panic!("a declared size within capacity"),
    };
    assert!(frame.is_ack());
    assert!(frame.check(0x1));
}

#[test]
fn preamble_false_positive_rejection() {
    // Ten seconds of uniform white noise at 48 kHz: no frame may appear.
    let mut demodulator = Demodulator::new(0x2);
    let mut state: u64 = 0x853c49e6748fea9b;
    for _ in 0..480_000 {
        state = state
            .wrapping_mul(6364136223846793005)
            .wrapping_add(1442695040888963407);
        let sample = (state >> 33) as u16 as i16;
        assert!(demodulator.push_back(sample).is_none());
    }
}
