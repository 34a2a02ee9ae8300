//! The 4B/5B and NRZI codecs, bit adapters, and CRC-framed packets.

use athernet::bit_iter::{BitToByteIter, ByteToBitIter};
use athernet::bit_set::{BitIter, BitReceive};
use athernet::coding::{decode_4b_5b, decode_5b, decode_nrzi, encode_4b_5b, encode_5b,
                       encode_nrzi, CodingError};
use athernet::crc::{crc_unwrap, FileRead};

#[test]
fn five_bit_code_roundtrip() {
    for v in 0..16u8 {
        let word = encode_5b(v).unwrap();
        assert!(word < 32);
        assert_eq!(decode_5b(word), Some(v));
    }
}

#[test]
fn five_bit_table_values() {
    assert_eq!(encode_5b(0x0), Some(20));
    assert_eq!(encode_5b(0x1), Some(9));
    assert_eq!(encode_5b(0x4), Some(25));
    assert_eq!(encode_5b(0xF), Some(23));
    assert_eq!(encode_5b(16), None);
    assert_eq!(encode_5b(0xFF), None);
}

#[test]
fn five_bit_decode_rejects_non_image() {
    let image: Vec<u8> = (0..16).map(|v| encode_5b(v).unwrap()).collect();
    for w in 0..32u8 {
        if image.contains(&w) {
            assert!(decode_5b(w).is_some());
        } else {
            assert_eq!(decode_5b(w), None, "word {} should be rejected", w);
        }
    }
}

/// The ten line bits a byte encodes to, low nibble's word first, LSB first.
fn byte_bits(byte: u8) -> Vec<bool> {
    let lo = encode_5b(byte & 0x0f).unwrap();
    let hi = encode_5b(byte >> 4).unwrap();
    let mut bits = Vec::new();
    for i in 0..5 {
        bits.push((lo >> i) & 1 == 1);
    }
    for i in 0..5 {
        bits.push((hi >> i) & 1 == 1);
    }
    bits
}

#[test]
fn encoder_streams_line_bits() {
    let bytes = vec![0xA5u8, 0x3C, 0x00, 0xFF];
    let mut expected = Vec::new();
    for &b in bytes.iter() {
        expected.extend(byte_bits(b));
    }
    let mut enc = encode_4b_5b(bytes);
    let mut got = Vec::new();
    while let Some(bit) = enc.next() {
        got.push(bit);
    }
    assert_eq!(got, expected);
}

#[test]
fn nrzi_encoder_flips_on_ones() {
    let mut enc = encode_nrzi(encode_4b_5b(vec![0x12]), false);
    let mut levels = Vec::new();
    while let Some(level) = enc.next() {
        levels.push(level);
    }
    let bits = byte_bits(0x12);
    let mut last = false;
    let expected: Vec<bool> = bits
        .iter()
        .map(|&b| {
            last ^= b;
            last
        })
        .collect();
    assert_eq!(levels, expected);
}

#[test]
fn stream_decode_inverts_stream_encode() {
    let bytes = vec![0x00u8, 0x11, 0xAB, 0xFF, 0x42];
    let mut enc = encode_nrzi(encode_4b_5b(bytes.clone()), false);
    let mut nrzi = decode_nrzi(false);
    let mut grouper = decode_4b_5b();
    let mut got = Vec::new();
    while let Some(level) = enc.next() {
        let bit = nrzi.push(level);
        if let Some(result) = grouper.push(bit) {
            got.push(result.expect("line words must be in the data image"));
        }
    }
    assert_eq!(got, bytes);
}

#[test]
fn group_decoder_reports_bad_word() {
    let mut grouper = decode_4b_5b();
    let mut outcome = None;
    // Ten zero bits make the all-zero word, which is not in the data image.
    for _ in 0..10 {
        outcome = grouper.push(false);
    }
    assert_eq!(outcome, Some(Err(CodingError::InvalidSymbol)));
}

#[test]
fn nrzi_decoder_roundtrip_any_initial_level() {
    let bits = [true, false, false, true, true, true, false];
    for &init in [false, true].iter() {
        let mut last = init;
        let levels: Vec<bool> = bits
            .iter()
            .map(|&b| {
                last ^= b;
                last
            })
            .collect();
        let mut dec = decode_nrzi(init);
        let got: Vec<bool> = levels.iter().map(|&l| dec.push(l)).collect();
        assert_eq!(got.as_slice(), &bits);
    }
}

#[test]
fn bit_byte_adapters_roundtrip() {
    let bytes = vec![0x00u8, 0xFF, 0x5A, 0x13];
    let mut to_bits = ByteToBitIter::new(bytes.clone());
    let mut bits = Vec::new();
    while let Some(b) = to_bits.next() {
        bits.push(b);
    }
    assert_eq!(bits.len(), 32);
    let mut to_bytes = BitToByteIter::new(bits);
    let mut got = Vec::new();
    while let Some(b) = to_bytes.next() {
        got.push(b);
    }
    assert_eq!(got, bytes);
}

#[test]
fn bit_packer_pads_short_tail() {
    let mut to_bytes = BitToByteIter::new(vec![true, false, true]);
    assert_eq!(to_bytes.next(), Some(0b101));
    assert_eq!(to_bytes.next(), None);
}

#[test]
fn bit_set_roundtrip() {
    let pack = [0x12u8, 0x34, 0x56, 0x78, 0x9A, 0xBC, 0xDE, 0xF0];
    let mut iter = BitIter::new(pack);
    let mut sink = BitReceive::new();
    let mut filled = 0;
    while let Some(bit) = iter.next() {
        filled = sink.push(bit);
    }
    assert_eq!(filled, 64);
    assert_eq!(sink.into_array(), pack);
}

#[test]
fn file_read_packets_unwrap() {
    let data: Vec<u8> = (0..13u8).collect();
    let mut reader = FileRead::new(data.clone());
    let mut recovered = Vec::new();
    let mut seq = Vec::new();
    while let Some(pack) = reader.next() {
        let framed = crc_unwrap(&pack).expect("fresh packets carry a valid CRC");
        seq.push(framed[1]);
        recovered.extend_from_slice(&framed[2..framed.len() - 1]);
    }
    assert_eq!(recovered, data);
    assert_eq!(seq, vec![0, 1, 2]);
}

#[test]
fn crc_unwrap_rejects_corruption() {
    let mut reader = FileRead::new(vec![1, 2, 3]);
    let mut pack = reader.next().unwrap();
    assert!(crc_unwrap(&pack).is_some());
    pack[2] ^= 0x40;
    assert!(crc_unwrap(&pack).is_none());
    let zeroed = [0u8; 8];
    assert!(crc_unwrap(&zeroed).is_none());
}
