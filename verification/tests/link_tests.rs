//! Per-peer tags: allocation order, duplicate suppression, wrapping.

use athernet::link::{ping_reply_matches, PeerTags};
use athernet::mac::{MacFrame, BROADCAST_MAC};

#[test]
fn send_tags_count_up_per_peer() {
    let mut tags = PeerTags::new();
    assert_eq!(tags.alloc_send_tag(0x2), 0);
    assert_eq!(tags.alloc_send_tag(0x2), 1);
    assert_eq!(tags.alloc_send_tag(0x2), 2);
    // Another peer keeps its own counter.
    assert_eq!(tags.alloc_send_tag(0x3), 0);
    assert_eq!(tags.alloc_send_tag(0x2), 3);
}

#[test]
fn broadcast_tag_is_always_zero() {
    let mut tags = PeerTags::new();
    assert_eq!(tags.alloc_send_tag(BROADCAST_MAC), 0);
    assert_eq!(tags.alloc_send_tag(BROADCAST_MAC), 0);
    // Broadcast does not advance any unicast counter.
    assert_eq!(tags.alloc_send_tag(0xE), 0);
}

#[test]
fn tags_observed_in_order_mod_16() {
    // Tag monotonicity: delivered tags follow initial, initial+1, ... mod 16.
    let mut tags = PeerTags::new();
    for round in 0..40u32 {
        let expected_tag = (round % 16) as u8;
        let frame = MacFrame::new_data(0x3, 0x1, expected_tag, &[round as u8]);
        let delivered = tags.accept(0x3, &frame);
        assert_eq!(delivered, Some(vec![round as u8]), "round {}", round);
    }
}

#[test]
fn duplicate_retransmission_delivered_once() {
    // Duplicate suppression: the same DATA frame accepted once, then dropped.
    let mut tags = PeerTags::new();
    let frame = MacFrame::new_data(0x3, 0x1, 0x0, &[0xAA, 0xBB]);
    assert_eq!(tags.accept(0x3, &frame), Some(vec![0xAA, 0xBB]));
    for _ in 0..5 {
        assert_eq!(tags.accept(0x3, &frame), None);
    }
    // The successor tag is still accepted afterwards.
    let next = MacFrame::new_data(0x3, 0x1, 0x1, &[0xCC]);
    assert_eq!(tags.accept(0x3, &next), Some(vec![0xCC]));
}

#[test]
fn accept_filters_source_and_tag() {
    let mut tags = PeerTags::new();
    let wrong_src = MacFrame::new_data(0x4, 0x1, 0x0, &[1]);
    assert_eq!(tags.accept(0x3, &wrong_src), None);
    let wrong_tag = MacFrame::new_data(0x3, 0x1, 0x7, &[1]);
    assert_eq!(tags.accept(0x3, &wrong_tag), None);
    let right = MacFrame::new_data(0x3, 0x1, 0x0, &[1]);
    assert_eq!(tags.accept(0x3, &right), Some(vec![1]));
}

#[test]
fn ping_reply_matching() {
    assert!(ping_reply_matches((0x3, 0x5), 0x3, 0x5));
    assert!(ping_reply_matches((0x3, 0x5), 0x3, 0xF5));
    assert!(!ping_reply_matches((0x2, 0x5), 0x3, 0x5));
    assert!(!ping_reply_matches((0x3, 0x4), 0x3, 0x5));
}

#[test]
fn current_and_bump_send_tag() {
    let mut tags = PeerTags::new();
    assert_eq!(tags.current_send_tag(0x3), 0);
    tags.bump_send_tag(0x3);
    assert_eq!(tags.current_send_tag(0x3), 1);
    for _ in 0..255 {
        tags.bump_send_tag(0x3);
    }
    // The eight-bit counter wraps.
    assert_eq!(tags.current_send_tag(0x3), 0);
}
