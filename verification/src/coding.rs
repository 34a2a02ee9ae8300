//! Line coding: the 4B/5B code and NRZI.
//!
//! Each 4-bit nibble travels as a 5-bit word drawn from a table that keeps
//! transitions frequent; any 5-bit word outside the table's image is a line
//! error.  Over the 4B/5B stream, NRZI maps a 1 to a level flip and a 0 to a
//! held level.

use vstd::prelude::*;

verus! {

/// A line error: a received 5-bit word outside the data image.
#[derive(Copy, Clone, PartialEq, Eq, Structural, Debug)]
pub enum CodingError {
    InvalidSymbol,
    OversizeFrame,
}

/// The 5-bit word the table assigns to nibble `value` (zero off the table).
pub open spec fn spec_encode_word(value: u8) -> u8 {
    match value {
        0x0 => 20,
        0x1 => 9,
        0x2 => 10,
        0x3 => 11,
        0x4 => 25,
        0x5 => 13,
        0x6 => 14,
        0x7 => 15,
        0x8 => 26,
        0x9 => 17,
        0xa => 18,
        0xb => 19,
        0xc => 27,
        0xd => 21,
        0xe => 22,
        0xf => 23,
        _ => 0,
    }
}

pub open spec fn spec_encode_5b(value: u8) -> Option<u8> {
    if value <= 0x0f {
        Some(spec_encode_word(value))
    } else {
        None
    }
}

/// The nibble a received 5-bit word stands for, if it is in the data image.
pub open spec fn spec_decode_5b(value: u8) -> Option<u8> {
    match value {
        9 => Some(0x1),
        10 => Some(0x2),
        11 => Some(0x3),
        13 => Some(0x5),
        14 => Some(0x6),
        15 => Some(0x7),
        17 => Some(0x9),
        18 => Some(0xa),
        19 => Some(0xb),
        20 => Some(0x0),
        21 => Some(0xd),
        22 => Some(0xe),
        23 => Some(0xf),
        25 => Some(0x4),
        26 => Some(0x8),
        27 => Some(0xc),
        _ => None,
    }
}

/// Map a nibble to its 5-bit line word.
pub fn encode_5b(value: u8) -> (r: Option<u8>)
    ensures
        r == spec_encode_5b(value),
{
    if value > 0x0f {
        return None;
    }
    let word: u8 = match value {
        0x0 => 20,
        0x1 => 9,
        0x2 => 10,
        0x3 => 11,
        0x4 => 25,
        0x5 => 13,
        0x6 => 14,
        0x7 => 15,
        0x8 => 26,
        0x9 => 17,
        0xa => 18,
        0xb => 19,
        0xc => 27,
        0xd => 21,
        0xe => 22,
        _ => 23,
    };
    Some(word)
}

/// Map a received 5-bit word back to its nibble; words outside the data
/// image decode to nothing.
pub fn decode_5b(value: u8) -> (r: Option<u8>)
    ensures
        r == spec_decode_5b(value),
{
    match value {
        9 => Some(0x1),
        10 => Some(0x2),
        11 => Some(0x3),
        13 => Some(0x5),
        14 => Some(0x6),
        15 => Some(0x7),
        17 => Some(0x9),
        18 => Some(0xa),
        19 => Some(0xb),
        20 => Some(0x0),
        21 => Some(0xd),
        22 => Some(0xe),
        23 => Some(0xf),
        25 => Some(0x4),
        26 => Some(0x8),
        27 => Some(0xc),
        _ => None,
    }
}

/// Law: the 5-bit code is a bijection between nibbles and its data image.
/// Decoding any encoded nibble gives the nibble back, and a word decodes
/// only when some nibble encodes to it; every other 5-bit word is rejected.
pub proof fn lemma_5b_code_image()
    ensures
        forall|v: u8| v <= 0x0f ==> spec_decode_5b(#[trigger] spec_encode_word(v)) == Some(v),
        forall|w: u8|
            #[trigger] spec_decode_5b(w) matches Some(v) ==> v <= 0x0f && spec_encode_word(v)
                == w,
{
}

/// Bit `i` of a 16-bit accumulator, counting from the least significant end.
pub open spec fn nth_bit(w: u16, i: int) -> bool {
    (w >> (i as u16)) & 1 == 1
}

/// The five line bits of a word, least significant first.
pub open spec fn word_bits(w: u16) -> Seq<bool> {
    Seq::new(5, |i: int| nth_bit(w, i))
}

/// The ten line bits a byte becomes: the low nibble's word, then the high's.
pub open spec fn byte_line_bits(b: u8) -> Seq<bool> {
    word_bits(spec_encode_word(b & 0x0f) as u16) + word_bits(spec_encode_word(b >> 4) as u16)
}

/// The line bits of a byte sequence, in order.
pub open spec fn bytes_line_bits(s: Seq<u8>) -> Seq<bool>
    decreases s.len(),
{
    if s.len() == 0 {
        Seq::empty()
    } else {
        byte_line_bits(s[0]) + bytes_line_bits(s.skip(1))
    }
}

/// The value of five line bits, least significant first.
pub open spec fn bits_word(bits: Seq<bool>) -> u8 {
    ((if bits[0] {
        1int
    } else {
        0
    }) + (if bits[1] {
        2int
    } else {
        0
    }) + (if bits[2] {
        4int
    } else {
        0
    }) + (if bits[3] {
        8int
    } else {
        0
    }) + (if bits[4] {
        16int
    } else {
        0
    })) as u8
}

/// The byte ten line bits stand for, if both words are in the data image.
pub open spec fn spec_decode_byte(bits: Seq<bool>) -> Option<u8> {
    match spec_decode_5b(bits_word(bits.take(5))) {
        Some(first) => match spec_decode_5b(bits_word(bits.skip(5))) {
            Some(second) => Some((first + second * 16) as u8),
            None => None,
        },
        None => None,
    }
}

/// The bytes a line-bit sequence stands for, ten bits at a time; an
/// incomplete group or a word off the table decodes to nothing.
pub open spec fn spec_decode_bits(bits: Seq<bool>) -> Option<Seq<u8>>
    decreases bits.len(),
{
    if bits.len() == 0 {
        Some(Seq::empty())
    } else if bits.len() < 10 {
        None
    } else {
        match spec_decode_byte(bits.take(10)) {
            Some(b) => match spec_decode_bits(bits.skip(10)) {
                Some(rest) => Some(seq![b] + rest),
                None => None,
            },
            None => None,
        }
    }
}

proof fn lemma_word_bits_value(w: u16)
    requires
        w < 32,
    ensures
        bits_word(word_bits(w)) == w,
{
    assert((if (w >> 0u16) & 1 == 1 {
        1int
    } else {
        0
    }) + (if (w >> 1u16) & 1 == 1 {
        2int
    } else {
        0
    }) + (if (w >> 2u16) & 1 == 1 {
        4int
    } else {
        0
    }) + (if (w >> 3u16) & 1 == 1 {
        8int
    } else {
        0
    }) + (if (w >> 4u16) & 1 == 1 {
        16int
    } else {
        0
    }) == w) by (bit_vector)
        requires
            w < 32,
    ;
}

/// Law: decoding a byte's ten line bits gives the byte back.
pub proof fn lemma_byte_roundtrip(b: u8)
    ensures
        spec_decode_byte(byte_line_bits(b)) == Some(b),
{
    let lo = spec_encode_word(b & 0x0f);
    let hi = spec_encode_word(b >> 4);
    assert(b & 0x0f <= 0x0f && b >> 4 <= 0x0f) by (bit_vector);
    lemma_word_bits_value(lo as u16);
    lemma_word_bits_value(hi as u16);
    assert(byte_line_bits(b).take(5) =~= word_bits(lo as u16));
    assert(byte_line_bits(b).skip(5) =~= word_bits(hi as u16));
    lemma_5b_code_image();
    assert((b & 0x0f) + (b >> 4) * 16 == b) by (bit_vector);
}

/// Law: 4B/5B round trip.  The line bits of any byte sequence decode back
/// to exactly that sequence.
pub proof fn lemma_4b5b_roundtrip(bytes: Seq<u8>)
    ensures
        spec_decode_bits(bytes_line_bits(bytes)) == Some(bytes),
    decreases bytes.len(),
{
    if bytes.len() == 0 {
        assert(bytes_line_bits(bytes).len() == 0);
        assert(bytes =~= Seq::<u8>::empty());
    } else {
        let bits = bytes_line_bits(bytes);
        assert(byte_line_bits(bytes[0]).len() == 10);
        assert(bits.take(10) =~= byte_line_bits(bytes[0]));
        assert(bits.skip(10) =~= bytes_line_bits(bytes.skip(1)));
        lemma_byte_roundtrip(bytes[0]);
        lemma_4b5b_roundtrip(bytes.skip(1));
        assert(seq![bytes[0]] + bytes.skip(1) =~= bytes);
    }
}

/// NRZI encoding: each 1 flips the line level, each 0 holds it; the output
/// is the level after each input bit.
pub open spec fn nrzi_encode(bits: Seq<bool>, last: bool) -> Seq<bool>
    decreases bits.len(),
{
    if bits.len() == 0 {
        Seq::empty()
    } else {
        seq![last ^ bits[0]] + nrzi_encode(bits.skip(1), last ^ bits[0])
    }
}

/// NRZI decoding: a bit is 1 exactly when the level changed.
pub open spec fn nrzi_decode(bits: Seq<bool>, last: bool) -> Seq<bool>
    decreases bits.len(),
{
    if bits.len() == 0 {
        Seq::empty()
    } else {
        seq![last ^ bits[0]] + nrzi_decode(bits.skip(1), bits[0])
    }
}

/// Law: NRZI round trip.  For any bit sequence and any initial line level,
/// decoding the encoded levels with the same initial level gives the bits
/// back.
pub proof fn lemma_nrzi_roundtrip(bits: Seq<bool>, last: bool)
    ensures
        nrzi_decode(nrzi_encode(bits, last), last) == bits,
    decreases bits.len(),
{
    if bits.len() == 0 {
        assert(nrzi_decode(nrzi_encode(bits, last), last) =~= bits);
    } else {
        let enc = nrzi_encode(bits, last);
        assert(enc[0] == last ^ bits[0]);
        assert(enc.skip(1) =~= nrzi_encode(bits.skip(1), last ^ bits[0]));
        lemma_nrzi_roundtrip(bits.skip(1), last ^ bits[0]);
        assert(last ^ (last ^ bits[0]) == bits[0]);
        assert(nrzi_decode(enc, last) =~= bits);
    }
}

/// Law: the whole line code round trips.  NRZI-decoding the emitted levels
/// from the same initial line and regrouping the 4B/5B words gives back
/// exactly the bytes that were encoded.
pub proof fn lemma_codec_roundtrip(bytes: Seq<u8>, last: bool)
    ensures
        spec_decode_bits(nrzi_decode(nrzi_encode(bytes_line_bits(bytes), last), last)) == Some(
            bytes,
        ),
{
    lemma_nrzi_roundtrip(bytes_line_bits(bytes), last);
    lemma_4b5b_roundtrip(bytes);
}

/// Each byte contributes exactly ten line bits.
pub proof fn lemma_line_bits_len(s: Seq<u8>)
    ensures
        bytes_line_bits(s).len() == 10 * s.len(),
    decreases s.len(),
{
    if s.len() > 0 {
        lemma_line_bits_len(s.skip(1));
    }
}

/// NRZI keeps the stream length.
pub proof fn lemma_nrzi_len(bits: Seq<bool>, last: bool)
    ensures
        nrzi_encode(bits, last).len() == bits.len(),
    decreases bits.len(),
{
    if bits.len() > 0 {
        lemma_nrzi_len(bits.skip(1), last ^ bits[0]);
    }
}

proof fn lemma_load_bit(first: u16, second: u16, i: u16)
    by (bit_vector)
    requires
        first < 32,
        second < 32,
        i < 10,
    ensures
        ((first | (second << 5)) >> i) & 1 == (if i < 5 {
            (first >> i) & 1
        } else {
            (second >> ((i - 5) as u16)) & 1
        }),
{
}

/// Streaming 4B/5B encoder: pulls bytes, pushes out one line bit at a time.
pub struct Encode4B5B {
    bytes: Vec<u8>,
    pos: usize,
    buffer: u16,
    index: u16,
}

impl Encode4B5B {
    /// Line bits loaded in the buffer and not yet emitted.
    pub closed spec fn buffered(self) -> Seq<bool> {
        Seq::new((10 - self.index) as nat, |i: int| nth_bit(self.buffer, self.index + i))
    }

    /// Every line bit still to come: buffered bits, then the unread bytes.
    pub closed spec fn pending(self) -> Seq<bool> {
        self.buffered() + bytes_line_bits(self.bytes@.skip(self.pos as int))
    }

    pub closed spec fn wf(self) -> bool {
        self.index <= 10 && self.pos <= self.bytes@.len()
    }

    pub fn new(iter: Vec<u8>) -> (r: Self)
        ensures
            r.wf(),
            r.pending() == bytes_line_bits(iter@),
    {
        let r = Self { bytes: iter, pos: 0, buffer: 0, index: 10 };
        proof {
            assert(r.buffered() =~= Seq::<bool>::empty());
            assert(r.bytes@.skip(0) =~= r.bytes@);
            assert(r.pending() =~= bytes_line_bits(r.bytes@));
        }
        r
    }

    /// The next line bit, if any input remains.
    pub fn next(&mut self) -> (r: Option<bool>)
        requires
            old(self).wf(),
        ensures
            final(self).wf(),
            old(self).pending().len() == 0 ==> r is None && final(self).pending()
                == old(self).pending(),
            old(self).pending().len() > 0 ==> r == Some(old(self).pending()[0])
                && final(self).pending() == old(self).pending().skip(1),
    {
        if self.index == 10 {
            proof {
                assert(old(self).buffered() =~= Seq::<bool>::empty());
            }
            if self.pos < self.bytes.len() {
                let next_byte = self.bytes[self.pos];
                proof {
                    assert(next_byte & 0x0f <= 0x0f && next_byte >> 4 <= 0x0f) by (bit_vector);
                }
                self.pos = self.pos + 1;
                let first = encode_5b(next_byte & 0x0f).unwrap();
                let second = encode_5b(next_byte >> 4).unwrap();
                self.buffer = (first as u16) | ((second as u16) << 5);
                self.index = 0;
                proof {
                    assert forall|i: int| 0 <= i < 10 implies self.buffered()[i] == byte_line_bits(
                        next_byte,
                    )[i] by {
                        lemma_load_bit(first as u16, second as u16, i as u16);
                        if i < 5 {
                            assert(nth_bit(first as u16, i) == word_bits(first as u16)[i]);
                        } else {
                            assert(nth_bit(second as u16, i - 5) == word_bits(second as u16)[i
                                - 5]);
                        }
                    }
                    assert(self.buffered() =~= byte_line_bits(next_byte));
                    let s = self.bytes@;
                    let p = old(self).pos as int;
                    assert(s.skip(p)[0] == next_byte);
                    assert(s.skip(p).skip(1) =~= s.skip(p + 1));
                    assert(bytes_line_bits(s.skip(p)) == byte_line_bits(next_byte)
                        + bytes_line_bits(s.skip(p + 1)));
                    assert(self.pending() =~= old(self).pending());
                }
            } else {
                proof {
                    assert(self.bytes@.skip(self.pos as int) =~= Seq::<u8>::empty());
                    assert(old(self).pending().len() == 0);
                }
                return None;
            }
        }
        let index = self.index;
        let bit = (self.buffer >> index) & 1 == 1;
        self.index = self.index + 1;
        proof {
            assert(self.buffered() =~= Seq::new(
                (10 - index - 1) as nat,
                |i: int| nth_bit(self.buffer, index + 1 + i),
            ));
            assert(self.pending() =~= old(self).pending().skip(1)) by {
                assert(self.buffered() =~= Seq::new(
                    (10 - index) as nat,
                    |i: int| nth_bit(self.buffer, index + i),
                ).skip(1));
            }
        }
        Some(bit)
    }
}

/// A 4B/5B encoder over the given bytes.
pub fn encode_4b_5b(iter: Vec<u8>) -> (r: Encode4B5B)
    ensures
        r.wf(),
        r.pending() == bytes_line_bits(iter@),
{
    Encode4B5B::new(iter)
}

/// Streaming NRZI encoder over the 4B/5B bit stream.
pub struct EncodeNRZI {
    iter: Encode4B5B,
    last: bool,
}

impl EncodeNRZI {
    /// The line levels still to be emitted.
    pub closed spec fn pending(self) -> Seq<bool> {
        nrzi_encode(self.iter.pending(), self.last)
    }

    pub closed spec fn wf(self) -> bool {
        self.iter.wf()
    }

    pub fn new(iter: Encode4B5B, last: bool) -> (r: Self)
        requires
            iter.wf(),
        ensures
            r.wf(),
            r.pending() == nrzi_encode(iter.pending(), last),
    {
        Self { iter, last }
    }

    /// The next line level, if any input remains.
    pub fn next(&mut self) -> (r: Option<bool>)
        requires
            old(self).wf(),
        ensures
            final(self).wf(),
            old(self).pending().len() == 0 ==> r is None && final(self).pending()
                == old(self).pending(),
            old(self).pending().len() > 0 ==> r == Some(old(self).pending()[0])
                && final(self).pending() == old(self).pending().skip(1),
    {
        proof {
            lemma_nrzi_len(old(self).iter.pending(), old(self).last);
        }
        match self.iter.next() {
            Some(item) => {
                proof {
                    let bits = old(self).iter.pending();
                    assert(old(self).pending()[0] == old(self).last ^ bits[0]);
                    assert(old(self).pending().skip(1) =~= nrzi_encode(
                        bits.skip(1),
                        old(self).last ^ bits[0],
                    ));
                }
                self.last = self.last ^ item;
                Some(self.last)
            },
            None => None,
        }
    }
}

/// An NRZI encoder with the given initial line level.
pub fn encode_nrzi(iter: Encode4B5B, last: bool) -> (r: EncodeNRZI)
    requires
        iter.wf(),
    ensures
        r.wf(),
        r.pending() == nrzi_encode(iter.pending(), last),
{
    EncodeNRZI::new(iter, last)
}

/// Streaming NRZI decoder: one level in, one data bit out.
#[derive(Copy, Clone)]
pub struct DecodeNRZI {
    last: bool,
}

impl DecodeNRZI {
    /// The line level last observed.
    pub closed spec fn line_state(self) -> bool {
        self.last
    }

    pub fn new(last: bool) -> (r: Self)
        ensures
            r.line_state() == last,
    {
        Self { last }
    }

    /// Decode one line level: the data bit is 1 exactly when the level moved.
    pub fn push(&mut self, item: bool) -> (r: bool)
        ensures
            r == (old(self).line_state() ^ item),
            final(self).line_state() == item,
    {
        let result = self.last ^ item;
        self.last = item;
        result
    }
}

/// An NRZI decoder with the given initial line level.
pub fn decode_nrzi(last: bool) -> (r: DecodeNRZI)
    ensures
        r.line_state() == last,
{
    DecodeNRZI::new(last)
}

proof fn lemma_low_word(buf: u16)
    by (bit_vector)
    ensures
        (if (buf >> 0) & 1 == 1 {
            1int
        } else {
            0
        }) + (if (buf >> 1) & 1 == 1 {
            2int
        } else {
            0
        }) + (if (buf >> 2) & 1 == 1 {
            4int
        } else {
            0
        }) + (if (buf >> 3) & 1 == 1 {
            8int
        } else {
            0
        }) + (if (buf >> 4) & 1 == 1 {
            16int
        } else {
            0
        }) == buf & 0x1f,
        (if (buf >> 5) & 1 == 1 {
            1int
        } else {
            0
        }) + (if (buf >> 6) & 1 == 1 {
            2int
        } else {
            0
        }) + (if (buf >> 7) & 1 == 1 {
            4int
        } else {
            0
        }) + (if (buf >> 8) & 1 == 1 {
            8int
        } else {
            0
        }) + (if (buf >> 9) & 1 == 1 {
            16int
        } else {
            0
        }) == (buf >> 5) & 0x1f,
{
}

proof fn lemma_push_bit(buf0: u16, index: u16, bitval: u16, j: u16)
    by (bit_vector)
    requires
        (buf0 >> index) == 0,
        bitval == 0 || bitval == 1,
        index < 10,
        j < 16,
    ensures
        (((buf0 | (bitval << index)) >> j) & 1 == 1) == (if j == index {
            bitval == 1
        } else {
            (buf0 >> j) & 1 == 1
        }),
{
}

proof fn lemma_push_top(buf0: u16, index: u16, bitval: u16)
    by (bit_vector)
    requires
        (buf0 >> index) == 0,
        bitval == 0 || bitval == 1,
        index < 10,
    ensures
        ((buf0 | (bitval << index)) >> ((index + 1) as u16)) == 0,
{
}

/// Streaming 4B/5B decoder: collects ten line bits, then yields the byte
/// they stand for, or a line error for a word off the table.
#[derive(Copy, Clone)]
pub struct Decode4B5B {
    buffer: u16,
    index: u16,
}

impl Decode4B5B {
    /// The line bits collected toward the current ten-bit group.
    pub closed spec fn collected(self) -> Seq<bool> {
        Seq::new(self.index as nat, |i: int| nth_bit(self.buffer, i))
    }

    pub closed spec fn wf(self) -> bool {
        self.index <= 9 && (self.buffer >> self.index) == 0
    }

    pub fn new() -> (r: Self)
        ensures
            r.wf(),
            r.collected() == Seq::<bool>::empty(),
    {
        let r = Self { buffer: 0, index: 0 };
        proof {
            assert(0u16 >> 0 == 0) by (bit_vector);
            assert(r.collected() =~= Seq::<bool>::empty());
        }
        r
    }

    /// Feed one line bit.  Nothing comes out until a group of ten is
    /// complete; the tenth bit yields its byte, or the line error.
    pub fn push(&mut self, item: bool) -> (r: Option<Result<u8, CodingError>>)
        requires
            old(self).wf(),
        ensures
            final(self).wf(),
            ({
                let bits = old(self).collected().push(item);
                if bits.len() < 10 {
                    r is None && final(self).collected() == bits
                } else {
                    final(self).collected() == Seq::<bool>::empty() && r == Some(
                        match spec_decode_byte(bits) {
                            Some(b) => Result::<u8, CodingError>::Ok(b),
                            None => Result::<u8, CodingError>::Err(CodingError::InvalidSymbol),
                        },
                    )
                }
            }),
    {
        let ghost prev = *old(self);
        let bitval: u16 = if item {
            1
        } else {
            0
        };
        let index = self.index;
        self.buffer = self.buffer | (bitval << index);
        self.index = index + 1;
        proof {
            let buf0 = prev.buffer;
            let buf1 = (buf0 | (bitval << index)) as u16;
            assert(self.buffer == buf1);
            assert forall|i: int| 0 <= i < index + 1 implies self.collected()[i] == prev.collected(
            ).push(item)[i] by {
                lemma_push_bit(buf0, index, bitval, i as u16);
                assert(nth_bit(buf1, i) == (if i == index {
                    item
                } else {
                    nth_bit(buf0, i)
                }));
            }
            assert(self.collected() =~= prev.collected().push(item));
            lemma_push_top(buf0, index, bitval);
        }
        if self.index == 10 {
            let group = self.buffer;
            let ghost bits = self.collected();
            let first = decode_5b((group & 0x1f) as u8);
            let second = decode_5b(((group >> 5) & 0x1f) as u8);
            self.buffer = 0;
            self.index = 0;
            proof {
                assert(group & 0x1f < 32 && (group >> 5) & 0x1f < 32) by (bit_vector);
                lemma_low_word(group);
                assert(bits.take(5) =~= Seq::new(5, |i: int| nth_bit(group, i)));
                assert(bits.skip(5) =~= Seq::new(5, |i: int| nth_bit(group, 5 + i)));
                assert(bits_word(bits.take(5)) == (group & 0x1f) as u8);
                assert(bits_word(bits.skip(5)) == ((group >> 5) & 0x1f) as u8);
                assert(0u16 >> 0 == 0) by (bit_vector);
                assert(self.collected() =~= Seq::<bool>::empty());
            }
            match (first, second) {
                (Some(f), Some(s)) => {
                    proof {
                        lemma_5b_code_image();
                        assert(f <= 0x0f && s <= 0x0f);
                        assert(f | (s << 4) == f + s * 16) by (bit_vector)
                            requires
                                f <= 0x0f && s <= 0x0f,
                        ;
                    }
                    Some(Ok(f | (s << 4)))
                },
                _ => Some(Err(CodingError::InvalidSymbol)),
            }
        } else {
            None
        }
    }
}

/// While a group is assembling, at most nine bits are collected.
pub proof fn lemma_collected_bound(d: Decode4B5B)
    requires
        d.wf(),
    ensures
        d.collected().len() <= 9,
{
}

/// A 4B/5B decoder with an empty group.
pub fn decode_4b_5b() -> (r: Decode4B5B)
    ensures
        r.wf(),
        r.collected() == Seq::<bool>::empty(),
{
    Decode4B5B::new()
}

} // verus!
