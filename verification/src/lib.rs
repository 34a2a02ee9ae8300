//! An acoustic link layer: frames carried over PCM audio samples.
//!
//! The physical layer encodes frame bytes with a 4B/5B line code and NRZI,
//! shapes each line bit into pulse-filtered BPSK samples, and recovers frames
//! by preamble correlation and symbol integration.  The link layer frames
//! payloads with CRC-protected headers, arbitrates the shared channel with
//! CSMA/CA, and provides stop-and-wait retransmission with per-peer tags.

pub mod bit_iter;
pub mod bit_set;
pub mod coding;
pub mod crc;
pub mod engine;
pub mod ipv4;
pub mod link;
pub mod mac;
pub mod modem;
pub mod udp;
pub mod utils;
pub mod wire;
