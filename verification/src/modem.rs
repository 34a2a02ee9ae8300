//! The physical-layer modem: pulse-shaped BPSK modulation and the streaming
//! demodulator.
//!
//! Each line bit occupies `SYMBOL_LEN` PCM samples.  A bit rides a sinc-like
//! pulse spread over `EXPANSION` symbol periods, so neighbouring bits overlap
//! and the emitted sample is the signed sum of the taps they contribute.  The
//! demodulator watches a rolling envelope, locks on the preamble, integrates
//! each symbol's sign, and feeds the recovered line bits through the
//! NRZI/4B5B decoder chain until a whole frame is assembled.

use vstd::prelude::*;
use crate::coding::{
    bytes_line_bits, decode_4b_5b, decode_nrzi, encode_4b_5b, encode_nrzi, lemma_collected_bound,
    lemma_line_bits_len, lemma_nrzi_len, nrzi_encode, spec_decode_byte, CodingError, Decode4B5B,
    DecodeNRZI,
};
use crate::mac::{spec_total_size, MacFrame, MacFrameRaw, MAC_FRAME_MAX, OP_DATA};

verus! {

/// PCM samples per line bit.
pub const SYMBOL_LEN: usize = 3;

/// Symbol periods a single pulse spreads over.
pub const EXPANSION: usize = 5;

/// Length of the pulse kernel in samples.
pub const PULSE_LEN: usize = 15;

/// The pulse-shaping kernel: a truncated sinc sampled every third of a
/// symbol period, scaled to half the 16-bit range.  Zero at every symbol
/// centre but its own, so neighbouring bits do not disturb the centre tap.
pub open spec fn pulse_spec(k: int) -> int {
    if k == 2 {
        -2709
    } else if k == 3 {
        -3387
    } else if k == 5 {
        6774
    } else if k == 6 {
        13549
    } else if k == 7 {
        16383
    } else if k == 8 {
        13549
    } else if k == 9 {
        6774
    } else if k == 11 {
        -3387
    } else if k == 12 {
        -2709
    } else {
        0
    }
}

/// The pulse kernel tap at offset `k`.
pub fn pulse(k: usize) -> (r: i16)
    ensures
        r as int == pulse_spec(k as int),
{
    match k {
        2 => -2709,
        3 => -3387,
        5 => 6774,
        6 => 13549,
        7 => 16383,
        8 => 13549,
        9 => 6774,
        11 => -3387,
        12 => -2709,
        _ => 0,
    }
}

/// The sign a line bit contributes: +1 for a high level, -1 for a low one,
/// 0 outside the stream.
pub open spec fn sgn(bits: Seq<bool>, t: int) -> int {
    if 0 <= t < bits.len() {
        if bits[t] {
            1
        } else {
            -1
        }
    } else {
        0
    }
}

/// The PCM sample at phase `i` of window `n`: five pulse taps, one per
/// symbol period the kernel spans, each signed by the bit it belongs to.
pub open spec fn pcm_at(bits: Seq<bool>, n: int, i: int) -> int {
    pulse_spec(12 + i) * sgn(bits, n - 5) + pulse_spec(9 + i) * sgn(bits, n - 4) + pulse_spec(
        6 + i,
    ) * sgn(bits, n - 3) + pulse_spec(3 + i) * sgn(bits, n - 2) + pulse_spec(i) * sgn(bits, n - 1)
}

/// The fixed synchronization pattern sent before every frame: a seven-element
/// Barker-like word (autocorrelation peak 7, sidelobes at most 2).  The exact
/// Barker-7 word cannot serve here: the correlator locks on the last three
/// symbol peaks, and any two equal neighbouring levels bury a peak under the
/// pulse sidelobes, so the word is reshaped to end in alternating levels with
/// guard levels that keep every earlier window from locking.  It ends low, so
/// the NRZI stream starts from a low line.
pub open spec fn preamble_bits() -> Seq<bool> {
    seq![false, true, true, true, false, true, false]
}

/// The line levels a frame is emitted as: the preamble, then the NRZI view
/// of the 4B/5B bits of its on-wire bytes, starting from a low line.
pub open spec fn frame_line_levels(s: Seq<u8>) -> Seq<bool> {
    preamble_bits() + nrzi_encode(bytes_line_bits(s.take(spec_total_size(s))), false)
}

/// One pulse tap: the kernel value for period `j`, signed by bit `n-5+j`.
fn shape_tap(bits: &Vec<bool>, n: usize, j: usize, i: usize) -> (t: i32)
    requires
        j < 5,
        i < 3,
        1 <= n <= bits@.len() + 5,
        bits@.len() <= usize::MAX - 9,
    ensures
        t == pulse_spec((4 - j) * 3 + i) * sgn(bits@, n - 5 + j),
        t == pulse_spec((4 - j) * 3 + i) || t == -pulse_spec((4 - j) * 3 + i) || t == 0,
{
    let p = pulse((4 - j) * 3 + i) as i32;
    if n + j >= 5 && n + j - 5 < bits.len() {
        if bits[n + j - 5] {
            p
        } else {
            -p
        }
    } else {
        0
    }
}

/// The emitted PCM sample at phase `i` of window `n`.  The per-phase tap
/// magnitudes sum below the 16-bit range, so the value fits a sample.
fn shape_sample(bits: &Vec<bool>, n: usize, i: usize) -> (s: i16)
    requires
        i < 3,
        1 <= n <= bits@.len() + 5,
        bits@.len() <= usize::MAX - 9,
    ensures
        s as int == pcm_at(bits@, n as int, i as int),
{
    let t0 = shape_tap(bits, n, 0, i);
    let t1 = shape_tap(bits, n, 1, i);
    let t2 = shape_tap(bits, n, 2, i);
    let t3 = shape_tap(bits, n, 3, i);
    let t4 = shape_tap(bits, n, 4, i);
    let sum = t0 + t1 + t2 + t3 + t4;
    proof {
        if i == 0 {
            assert(pulse_spec(12) == -2709 && pulse_spec(9) == 6774 && pulse_spec(6) == 13549
                && pulse_spec(3) == -3387 && pulse_spec(0) == 0);
        } else if i == 1 {
            assert(pulse_spec(13) == 0 && pulse_spec(10) == 0 && pulse_spec(7) == 16383
                && pulse_spec(4) == 0 && pulse_spec(1) == 0);
        } else {
            assert(pulse_spec(14) == 0 && pulse_spec(11) == -3387 && pulse_spec(8) == 13549
                && pulse_spec(5) == 6774 && pulse_spec(2) == -2709);
        }
        assert(-26419 <= sum <= 26419);
    }
    sum as i16
}

/// The PCM samples a frame is emitted as: one window per line bit plus the
/// kernel tail, each window shaped into three samples.
pub open spec fn spec_modulate(s: Seq<u8>) -> Seq<i16> {
    let levels = frame_line_levels(s);
    Seq::new(((levels.len() + 5) * 3) as nat, |k: int| pcm_at(levels, k / 3 + 1, k % 3) as i16)
}

/// Modulate a frame to PCM: the preamble and the frame's line levels, each
/// window of five neighbouring bits shaped into three samples.
pub fn modulate(frame: MacFrame) -> (r: Vec<i16>)
    requires
        frame.wf(),
    ensures
        r@ == spec_modulate(frame@),
{
    let total = frame.get_total_size();
    let bytes = frame.prefix_vec(total);
    let enc4 = encode_4b_5b(bytes);
    let mut enc = encode_nrzi(enc4, false);
    let ghost levels = frame_line_levels(frame@);
    let mut bits: Vec<bool> = Vec::new();
    bits.push(false);
    bits.push(true);
    bits.push(true);
    bits.push(true);
    bits.push(false);
    bits.push(true);
    bits.push(false);
    proof {
        assert(bits@ =~= preamble_bits());
        assert(levels =~= bits@ + enc.pending());
        lemma_line_bits_len(frame@.take(spec_total_size(frame@)));
        lemma_nrzi_len(bytes_line_bits(frame@.take(spec_total_size(frame@))), false);
        assert(levels.len() <= 7 + 10 * 256);
    }
    loop
        invariant
            enc.wf(),
            levels =~= bits@ + enc.pending(),
            levels.len() <= 3000,
        ensures
            bits@ == levels,
        decreases enc.pending().len(),
    {
        let ghost pend0 = enc.pending();
        let ghost bits0 = bits@;
        match enc.next() {
            Some(b) => {
                bits.push(b);
                proof {
                    assert(bits@ + enc.pending() =~= bits0 + pend0);
                }
            },
            None => {
                proof {
                    assert(bits@ =~= levels);
                }
                break ;
            },
        }
    }
    let n_windows = bits.len() + 5;
    let mut r: Vec<i16> = Vec::new();
    let mut n: usize = 1;
    while n <= n_windows
        invariant
            bits@ == levels,
            levels.len() <= 3000,
            n_windows == levels.len() + 5,
            1 <= n <= n_windows + 1,
            r@.len() == (n - 1) * 3,
            forall|k: int| 0 <= k < r@.len() ==> r@[k] as int == pcm_at(levels, k / 3 + 1, k % 3),
        decreases n_windows + 1 - n,
    {
        let s0 = shape_sample(&bits, n, 0);
        let s1 = shape_sample(&bits, n, 1);
        let s2 = shape_sample(&bits, n, 2);
        r.push(s0);
        r.push(s1);
        r.push(s2);
        proof {
            let m = n as int;
            assert((3 * (m - 1) + 0) / 3 == m - 1 && (3 * (m - 1) + 0) % 3 == 0 && (3 * (m - 1)
                + 1) / 3 == m - 1 && (3 * (m - 1) + 1) % 3 == 1 && (3 * (m - 1) + 2) / 3 == m - 1
                && (3 * (m - 1) + 2) % 3 == 2) by (nonlinear_arith)
                requires
                    1 <= m,
            ;
        }
        n = n + 1;
    }
    proof {
        assert(r@ =~= spec_modulate(frame@));
    }
    r
}

/// Assembles decoded bytes into a raw frame.  The declared opcode and
/// length say how many bytes the frame takes; assembly completes when the
/// count reaches it.
#[derive(Copy, Clone)]
pub struct BitReceive {
    inner: MacFrameRaw,
    count: usize,
}

impl BitReceive {
    /// The bytes assembled so far.
    pub closed spec fn bytes(self) -> Seq<u8> {
        self.inner@.take(self.count as int)
    }

    /// Still assembling: the count has not reached the declared frame size,
    /// and that size fits the buffer.
    pub closed spec fn wf(self) -> bool {
        &&& self.count <= MAC_FRAME_MAX
        &&& self.count >= 3 ==> (self.count < spec_total_size(self.bytes()) && spec_total_size(
            self.bytes(),
        ) <= MAC_FRAME_MAX)
    }

    pub fn new() -> (r: Self)
        ensures
            r.wf(),
            r.bytes() == Seq::<u8>::empty(),
    {
        let r = Self { inner: [0u8; 256], count: 0 };
        proof {
            assert(r.bytes() =~= Seq::<u8>::empty());
        }
        r
    }

    /// The byte count so far and the first byte, for the carrier-sense path.
    pub fn peak(&self) -> (r: (usize, u8))
        requires
            self.wf(),
        ensures
            r.0 == self.bytes().len(),
            r.0 > 0 ==> r.1 == self.bytes()[0],
    {
        (self.count, self.inner[0])
    }

    /// Append one byte.  Nothing comes out until the declared size is
    /// reached; then the raw frame, or an error for a size past the buffer.
    pub fn push(&mut self, item: u8) -> (r: Option<Result<MacFrame, CodingError>>)
        requires
            old(self).wf(),
        ensures
            ({
                let bytes = old(self).bytes().push(item);
                &&& final(self).bytes() == bytes
                &&& bytes.len() < 3 ==> r is None && final(self).wf()
                &&& bytes.len() >= 3 && spec_total_size(bytes) > MAC_FRAME_MAX ==> r == Some(
                    Result::<MacFrame, CodingError>::Err(CodingError::OversizeFrame),
                )
                &&& bytes.len() >= 3 && spec_total_size(bytes) <= MAC_FRAME_MAX && bytes.len()
                    < spec_total_size(bytes) ==> r is None && final(self).wf()
                &&& bytes.len() >= 3 && spec_total_size(bytes) <= MAC_FRAME_MAX && bytes.len()
                    >= spec_total_size(bytes) ==> (r matches Some(Ok(f)) && f.wf()
                    && spec_total_size(f@) == bytes.len() && f@.take(spec_total_size(f@))
                    == bytes)
            }),
    {
        let ghost prev = *old(self);
        self.inner[self.count] = item;
        self.count = self.count + 1;
        proof {
            assert(self.bytes() =~= prev.bytes().push(item));
        }
        if self.count < 3 {
            None
        } else {
            let size = 2 + (if self.inner[1] & 0x0f == OP_DATA {
                self.inner[2] as usize + 1 + 2
            } else {
                1
            });
            proof {
                assert(self.bytes()[1] == self.inner@[1] && self.bytes()[2] == self.inner@[2]);
                assert(size == spec_total_size(self.bytes()));
            }
            if size > MAC_FRAME_MAX {
                Some(Err(CodingError::OversizeFrame))
            } else if self.count < size {
                None
            } else {
                let frame = MacFrame::from_raw(self.inner);
                proof {
                    assert(spec_total_size(frame@) == spec_total_size(self.bytes()));
                    assert(frame@.take(spec_total_size(frame@)) =~= self.bytes());
                }
                Some(Ok(frame))
            }
        }
    }
}

/// The receive decoder chain: NRZI, then 4B/5B grouping, then frame
/// assembly, exactly inverse to the emission chain.
#[derive(Copy, Clone)]
pub struct FrameDecoder {
    nrzi: DecodeNRZI,
    grouper: Decode4B5B,
    sink: BitReceive,
}

impl FrameDecoder {
    /// The line level last observed.
    pub closed spec fn line_state(self) -> bool {
        self.nrzi.line_state()
    }

    /// Line bits collected toward the current ten-bit group.
    pub closed spec fn collected(self) -> Seq<bool> {
        self.grouper.collected()
    }

    /// Frame bytes assembled so far.
    pub closed spec fn bytes(self) -> Seq<u8> {
        self.sink.bytes()
    }

    pub closed spec fn wf(self) -> bool {
        self.grouper.wf() && self.sink.wf()
    }

    /// Feed one line level.  A completed group becomes a byte; the byte that
    /// completes the frame yields it.
    pub fn push(&mut self, item: bool) -> (r: Option<Result<MacFrame, CodingError>>)
        requires
            old(self).wf(),
        ensures
            final(self).line_state() == item,
            ({
                let bit = old(self).line_state() ^ item;
                let bits = old(self).collected().push(bit);
                &&& bits.len() < 10 ==> r is None && final(self).wf() && final(self).collected()
                    == bits && final(self).bytes() == old(self).bytes()
                &&& bits.len() == 10 && spec_decode_byte(bits) is None ==> r == Some(
                    Result::<MacFrame, CodingError>::Err(CodingError::InvalidSymbol),
                )
                &&& (bits.len() == 10 && spec_decode_byte(bits) is Some) ==> ({
                    let bytes = old(self).bytes().push(spec_decode_byte(bits)->Some_0);
                    &&& final(self).collected() == Seq::<bool>::empty()
                    &&& bytes.len() < 3 ==> r is None && final(self).wf() && final(self).bytes()
                        == bytes
                    &&& bytes.len() >= 3 && spec_total_size(bytes) > MAC_FRAME_MAX ==> r == Some(
                        Result::<MacFrame, CodingError>::Err(CodingError::OversizeFrame),
                    )
                    &&& bytes.len() >= 3 && spec_total_size(bytes) <= MAC_FRAME_MAX && bytes.len()
                        < spec_total_size(bytes) ==> r is None && final(self).wf()
                        && final(self).bytes() == bytes
                    &&& bytes.len() >= 3 && spec_total_size(bytes) <= MAC_FRAME_MAX && bytes.len()
                        >= spec_total_size(bytes) ==> (r matches Some(Ok(f)) && f.wf()
                        && spec_total_size(f@) == bytes.len() && f@.take(spec_total_size(f@))
                        == bytes)
                })
            }),
    {
        proof {
            lemma_collected_bound(self.grouper);
        }
        let bit = self.nrzi.push(item);
        match self.grouper.push(bit) {
            None => None,
            Some(Err(e)) => Some(Err(e)),
            Some(Ok(byte)) => self.sink.push(byte),
        }
    }

    /// The byte count so far and the first byte, for the carrier-sense path.
    pub fn peak(&self) -> (r: (usize, u8))
        requires
            self.wf(),
        ensures
            r.0 == self.bytes().len(),
            r.0 > 0 ==> r.1 == self.bytes()[0],
    {
        self.sink.peak()
    }
}

/// A fresh decoder chain with the given initial line level.
pub fn decoder(init: bool) -> (r: FrameDecoder)
    ensures
        r.wf(),
        r.line_state() == init,
        r.collected() == Seq::<bool>::empty(),
        r.bytes() == Seq::<u8>::empty(),
{
    FrameDecoder { nrzi: decode_nrzi(init), grouper: decode_4b_5b(), sink: BitReceive::new() }
}

/// While a frame is assembling, at most nine bits of a group are collected.
proof fn lemma_decoder_bound(d: FrameDecoder)
    requires
        d.wf(),
    ensures
        d.collected().len() <= 9,
{
    lemma_collected_bound(d.grouper);
}

/// Samples of preamble the correlation window holds.
pub const PREAMBLE_LEN: usize = 9;

/// Decay divisor of the rolling envelope.
pub const MOVING_AVERAGE: i64 = 4;

/// Envelope level above which the channel counts as carrying a signal.
pub const ACTIVE_THRESHOLD: i64 = 1024;

/// Envelope level above which reception is abandoned as jammed.
pub const JAMMING_THRESHOLD: i64 = 4096;

pub open spec fn abs_int(v: int) -> int {
    if v < 0 {
        -v
    } else {
        v
    }
}

/// The magnitude of a PCM sample, widened so the most negative sample fits.
fn abs_sample(v: i16) -> (r: i32)
    ensures
        r == abs_int(v as int),
{
    if v < 0 {
        -(v as i32)
    } else {
        v as i32
    }
}

enum DemodulateState {
    Wait,
    Receive(usize, i32, FrameDecoder),
}

/// One decay step of the rolling envelope.
pub open spec fn spec_env_step(envelope: int, item: i16) -> int {
    (envelope * 3 + abs_int(item as int)) / 4
}

/// The correlation window after one sample: the oldest sample leaves once
/// the window is full.
pub open spec fn window_shift(w: Seq<i16>, item: i16) -> Seq<i16> {
    if w.len() == PREAMBLE_LEN {
        w.skip(1).push(item)
    } else {
        w.push(item)
    }
}

/// The three symbol centres of a full window are local extrema.
pub open spec fn spec_peaked(w: Seq<i16>) -> bool {
    &&& abs_int(w[1] as int) > abs_int(w[0] as int)
    &&& abs_int(w[1] as int) > abs_int(w[2] as int)
    &&& abs_int(w[4] as int) > abs_int(w[3] as int)
    &&& abs_int(w[4] as int) > abs_int(w[5] as int)
    &&& abs_int(w[7] as int) > abs_int(w[6] as int)
    &&& abs_int(w[7] as int) > abs_int(w[8] as int)
}

/// The mean magnitude of the three symbol centres: the lock amplitude.
pub open spec fn spec_lock_level(w: Seq<i16>) -> int {
    (abs_int(w[1] as int) + abs_int(w[4] as int) + abs_int(w[7] as int)) / 3
}

/// The mean deviation of the centre magnitudes from the lock amplitude.
pub open spec fn spec_lock_spread(w: Seq<i16>) -> int {
    let level = spec_lock_level(w);
    (abs_int(abs_int(w[1] as int) - level) + abs_int(abs_int(w[4] as int) - level) + abs_int(
        abs_int(w[7] as int) - level,
    )) / 3
}

/// The alternation of the centre signs fixes the line polarity: the last
/// centre's level becomes the NRZI decoder's initial line state.
pub open spec fn spec_lock_polarity(w: Seq<i16>) -> Option<bool> {
    if w[1] < 0 && w[4] > 0 && w[7] < 0 {
        Some(false)
    } else if w[1] > 0 && w[4] < 0 && w[7] > 0 {
        Some(true)
    } else {
        None
    }
}

/// When the waiting automaton locks: a full window, an envelope above the
/// activity threshold, three alternating local extrema of similar magnitude.
pub open spec fn spec_locks(w: Seq<i16>, envelope: int) -> bool {
    &&& w.len() == PREAMBLE_LEN
    &&& envelope > ACTIVE_THRESHOLD
    &&& spec_peaked(w)
    &&& spec_lock_spread(w) * 4 < spec_lock_level(w)
    &&& spec_lock_polarity(w) is Some
}

/// The symbol counter after one sample; it saturates rather than wrap.
pub open spec fn next_count(c: int) -> int {
    if c < usize::MAX {
        c + 1
    } else {
        c
    }
}

/// The stream automaton that turns PCM samples back into frames.
pub struct Demodulator {
    window: Vec<i16>,
    state: DemodulateState,
    moving_average: i64,
    mac_addr: u8,
}

/// Whether this sample is a symbol centre of an undisturbed reception: the
/// automaton is locked, the envelope stays under the jamming level, and the
/// saturating sample count reaches a symbol boundary.
pub open spec fn demod_symbol_due(pre: Demodulator, item: i16) -> bool {
    &&& pre.receiving()
    &&& spec_env_step(pre.envelope(), item) <= JAMMING_THRESHOLD
    &&& next_count(pre.symbol_count()) % (SYMBOL_LEN as int) == 0
}

/// Whether the symbol's magnitude stays within half the lock amplitude.
pub open spec fn demod_in_tolerance(pre: Demodulator, item: i16) -> bool {
    abs_int(abs_int(item as int) - pre.lock_level()) * 2 <= pre.lock_level()
}

/// The line bit this symbol decodes to: a level change under NRZI.
pub open spec fn demod_bit(pre: Demodulator, item: i16) -> bool {
    pre.chain_line() ^ (item > 0)
}

/// The ten-bit group after this symbol's bit joins it.
pub open spec fn demod_group(pre: Demodulator, item: i16) -> Seq<bool> {
    pre.chain_collected().push(demod_bit(pre, item))
}

/// The assembled frame bytes after this symbol, once its group decodes.
pub open spec fn demod_yielded_bytes(pre: Demodulator, item: i16) -> Seq<u8> {
    pre.chain_bytes().push(spec_decode_byte(demod_group(pre, item))->Some_0)
}

/// When one pushed sample completes a frame: an in-tolerance symbol centre
/// finishes a ten-bit group, the group decodes to a byte, and that byte
/// brings the assembly up to the declared frame size within capacity.
pub open spec fn demod_yields(pre: Demodulator, item: i16) -> bool {
    &&& demod_symbol_due(pre, item)
    &&& demod_in_tolerance(pre, item)
    &&& demod_group(pre, item).len() == 10
    &&& spec_decode_byte(demod_group(pre, item)) is Some
    &&& demod_yielded_bytes(pre, item).len() >= 3
    &&& spec_total_size(demod_yielded_bytes(pre, item)) <= MAC_FRAME_MAX
    &&& demod_yielded_bytes(pre, item).len() >= spec_total_size(demod_yielded_bytes(pre, item))
}

impl Demodulator {
    pub closed spec fn wf(self) -> bool {
        &&& self.window@.len() <= PREAMBLE_LEN
        &&& 0 <= self.moving_average <= 32768
        &&& match self.state {
            DemodulateState::Wait => true,
            DemodulateState::Receive(_, avg, dec) => dec.wf() && 0 <= avg <= 32768,
        }
    }

    /// The rolling envelope estimate.
    pub closed spec fn envelope(self) -> int {
        self.moving_average as int
    }

    /// The correlation window of recent samples.
    pub closed spec fn window(self) -> Seq<i16> {
        self.window@
    }

    /// Whether the automaton is locked on an incoming frame.
    pub closed spec fn receiving(self) -> bool {
        self.state is Receive
    }

    /// Samples seen since the lock; zero while waiting.
    pub closed spec fn symbol_count(self) -> int {
        match self.state {
            DemodulateState::Wait => 0,
            DemodulateState::Receive(count, _, _) => count as int,
        }
    }

    /// The amplitude established at lock time; zero while waiting.
    pub closed spec fn lock_level(self) -> int {
        match self.state {
            DemodulateState::Wait => 0,
            DemodulateState::Receive(_, avg, _) => avg as int,
        }
    }

    /// The decoder chain's line state; low while waiting.
    pub closed spec fn chain_line(self) -> bool {
        match self.state {
            DemodulateState::Wait => false,
            DemodulateState::Receive(_, _, dec) => dec.line_state(),
        }
    }

    /// The decoder chain's collected group bits; empty while waiting.
    pub closed spec fn chain_collected(self) -> Seq<bool> {
        match self.state {
            DemodulateState::Wait => Seq::empty(),
            DemodulateState::Receive(_, _, dec) => dec.collected(),
        }
    }

    /// The decoder chain's assembled frame bytes; empty while waiting.
    pub closed spec fn chain_bytes(self) -> Seq<u8> {
        match self.state {
            DemodulateState::Wait => Seq::empty(),
            DemodulateState::Receive(_, _, dec) => dec.bytes(),
        }
    }

    /// What `is_active` decides: a jamming-level envelope, or an incoming
    /// frame that is not this station's own echo.  A frame whose source
    /// decodes to the local address would be our own transmission heard
    /// back, and must not count as a busy channel.
    pub closed spec fn spec_is_active(self) -> bool {
        self.moving_average > JAMMING_THRESHOLD || match self.state {
            DemodulateState::Wait => false,
            DemodulateState::Receive(_, _, dec) => dec.bytes().len() == 0 || (dec.bytes()[0]
                & 0x0f) != self.mac_addr,
        }
    }

    /// One decay step of the rolling envelope.
    fn moving_average(last: i64, new: i64) -> (r: i64)
        requires
            0 <= last <= 32768,
            0 <= new <= 32768,
        ensures
            r == (last * 3 + new) / 4,
            0 <= r <= 32768,
    {
        (last * (MOVING_AVERAGE - 1) + new) / MOVING_AVERAGE
    }

    pub fn new(mac_addr: u8) -> (r: Self)
        ensures
            r.wf(),
            !r.receiving(),
            r.envelope() == 0,
            r.window() == Seq::<i16>::empty(),
            !r.spec_is_active(),
    {
        Self {
            window: Vec::new(),
            state: DemodulateState::Wait,
            moving_average: 0,
            mac_addr,
        }
    }

    /// Whether the channel carries someone else's signal.
    pub fn is_active(&self) -> (r: bool)
        requires
            self.wf(),
        ensures
            r == self.spec_is_active(),
    {
        if self.moving_average > JAMMING_THRESHOLD {
            return true;
        }
        match &self.state {
            DemodulateState::Receive(_, _, dec) => {
                let (count, first) = dec.peak();
                count == 0 || first & 0x0f != self.mac_addr
            },
            DemodulateState::Wait => false,
        }
    }

    /// The waiting automaton scans for the preamble: on the lock condition
    /// it enters `Receive` at count one, with the centre magnitudes' mean as
    /// the lock amplitude and a fresh decoder chain whose line starts at the
    /// detected polarity.
    fn wait_step(&mut self)
        requires
            old(self).wf(),
            !old(self).receiving(),
        ensures
            final(self).wf(),
            final(self).window() == old(self).window(),
            final(self).envelope() == old(self).envelope(),
            if spec_locks(old(self).window(), old(self).envelope()) {
                &&& final(self).receiving()
                &&& final(self).symbol_count() == 1
                &&& final(self).lock_level() == spec_lock_level(old(self).window())
                &&& final(self).chain_line() == spec_lock_polarity(old(self).window())->Some_0
                &&& final(self).chain_collected() == Seq::<bool>::empty()
                &&& final(self).chain_bytes() == Seq::<u8>::empty()
            } else {
                !final(self).receiving()
            },
    {
        if self.window.len() == PREAMBLE_LEN && self.moving_average > ACTIVE_THRESHOLD {
            let m1 = abs_sample(self.window[1]);
            let m4 = abs_sample(self.window[4]);
            let m7 = abs_sample(self.window[7]);
            let peaked = m1 > abs_sample(self.window[0]) && m1 > abs_sample(self.window[2]) && m4
                > abs_sample(self.window[3]) && m4 > abs_sample(self.window[5]) && m7 > abs_sample(
                self.window[6],
            ) && m7 > abs_sample(self.window[8]);
            if peaked {
                let v0 = self.window[1];
                let v1 = self.window[4];
                let v2 = self.window[7];
                let avg = (m1 + m4 + m7) / 3;
                let d0 = if m1 > avg {
                    m1 - avg
                } else {
                    avg - m1
                };
                let d1 = if m4 > avg {
                    m4 - avg
                } else {
                    avg - m4
                };
                let d2 = if m7 > avg {
                    m7 - avg
                } else {
                    avg - m7
                };
                let var = (d0 + d1 + d2) / 3;
                if var * 4 < avg {
                    if v0 < 0 && v1 > 0 && v2 < 0 {
                        self.state = DemodulateState::Receive(1, avg, decoder(false));
                    } else if v0 > 0 && v1 < 0 && v2 > 0 {
                        self.state = DemodulateState::Receive(1, avg, decoder(true));
                    }
                }
            }
        }
    }

    /// One sample of a locked reception.  A jamming envelope or an
    /// out-of-tolerance symbol discards the partial frame locally with no
    /// upward signal; an in-tolerance symbol centre feeds the level's sign
    /// to the decoder chain, and the byte that reaches the declared size
    /// yields the frame.
    #[verifier::rlimit(100)]
    fn receive_step(&mut self, item: i16, count: usize, avg: i32, dec: FrameDecoder) -> (r:
        Option<MacFrame>)
        requires
            old(self).wf(),
            !old(self).receiving(),
            dec.wf(),
            0 <= avg <= 32768,
        ensures
            final(self).wf(),
            final(self).envelope() == old(self).envelope(),
            old(self).envelope() > JAMMING_THRESHOLD ==> r is None && !final(self).receiving()
                && final(self).window().len() == 0,
            old(self).envelope() <= JAMMING_THRESHOLD ==> ({
                let c1 = next_count(count as int);
                let tol = abs_int(abs_int(item as int) - avg) * 2 <= avg;
                let bit = dec.line_state() ^ (item > 0);
                let group = dec.collected().push(bit);
                let bytes = dec.bytes().push(spec_decode_byte(group)->Some_0);
                &&& c1 % (SYMBOL_LEN as int) != 0 ==> r is None && final(self).receiving()
                    && final(self).symbol_count() == c1 && final(self).lock_level() == avg
                    && final(self).chain_line() == dec.line_state() && final(self).chain_collected() == dec.collected() && final(self).chain_bytes() == dec.bytes()
                    && final(self).window() == old(self).window()
                &&& (c1 % (SYMBOL_LEN as int) == 0 && !tol) ==> r is None && !final(self).receiving() && final(self).window().len() == 0
                &&& (c1 % (SYMBOL_LEN as int) == 0 && tol && group.len() < 10) ==> r is None
                    && final(self).receiving() && final(self).symbol_count() == c1 && final(self).lock_level() == avg && final(self).chain_line() == (item > 0) && final(self).chain_collected() == group && final(self).chain_bytes() == dec.bytes() && final(self).window() == old(self).window()
                &&& (c1 % (SYMBOL_LEN as int) == 0 && tol && group.len() == 10
                    && spec_decode_byte(group) is None) ==> r is None && !final(self).receiving()
                    && final(self).window().len() == 0
                &&& (c1 % (SYMBOL_LEN as int) == 0 && tol && group.len() == 10
                    && spec_decode_byte(group) is Some && (bytes.len() < 3 || (spec_total_size(
                    bytes,
                ) <= MAC_FRAME_MAX && bytes.len() < spec_total_size(bytes)))) ==> r is None
                    && final(self).receiving() && final(self).symbol_count() == c1 && final(self).lock_level() == avg && final(self).chain_line() == (item > 0) && final(self).chain_collected() == Seq::<bool>::empty() && final(self).chain_bytes() == bytes
                    && final(self).window() == old(self).window()
                &&& (c1 % (SYMBOL_LEN as int) == 0 && tol && group.len() == 10
                    && spec_decode_byte(group) is Some && bytes.len() >= 3 && spec_total_size(
                    bytes,
                ) > MAC_FRAME_MAX) ==> r is None && !final(self).receiving() && final(self).window().len() == 0
                &&& (c1 % (SYMBOL_LEN as int) == 0 && tol && group.len() == 10
                    && spec_decode_byte(group) is Some && bytes.len() >= 3 && spec_total_size(
                    bytes,
                ) <= MAC_FRAME_MAX && bytes.len() >= spec_total_size(bytes)) ==> (r matches Some(f)
                    && f.wf() && spec_total_size(f@) == bytes.len() && f@.take(
                    spec_total_size(f@),
                ) == bytes && !final(self).receiving() && final(self).window().len() == 0)
            }),
    {
        if self.moving_average > JAMMING_THRESHOLD {
            self.window.clear();
            return None;
        }
        let count = if count < usize::MAX {
            count + 1
        } else {
            count
        };
        let mut dec = dec;
        if count % SYMBOL_LEN == 0 {
            let magnitude = abs_sample(item);
            let excursion = if magnitude > avg {
                magnitude - avg
            } else {
                avg - magnitude
            };
            if excursion * 2 > avg {
                self.window.clear();
                return None;
            }
            proof {
                lemma_decoder_bound(dec);
            }
            match dec.push(item > 0) {
                Some(result) => {
                    self.window.clear();
                    match result {
                        Ok(frame) => Some(frame),
                        Err(_) => None,
                    }
                },
                None => {
                    self.state = DemodulateState::Receive(count, avg, dec);
                    None
                },
            }
        } else {
            self.state = DemodulateState::Receive(count, avg, dec);
            None
        }
    }

    /// Consume one PCM sample.  While waiting, scan for the preamble lock;
    /// while locked, integrate each symbol centre into the decoder chain,
    /// aborting to the wait state on a jammed channel, an amplitude far from
    /// the lock level, or a line error.  A frame comes out exactly when the
    /// sample completes one (`demod_yields`).
    pub fn push_back(&mut self, item: i16) -> (r: Option<MacFrame>)
        requires
            old(self).wf(),
        ensures
            final(self).wf(),
            final(self).envelope() == spec_env_step(old(self).envelope(), item),
            !old(self).receiving() ==> r is None && final(self).window() == window_shift(
                old(self).window(),
                item,
            ) && (if spec_locks(
                window_shift(old(self).window(), item),
                spec_env_step(old(self).envelope(), item),
            ) {
                &&& final(self).receiving()
                &&& final(self).symbol_count() == 1
                &&& final(self).lock_level() == spec_lock_level(
                    window_shift(old(self).window(), item),
                )
                &&& final(self).chain_line() == spec_lock_polarity(
                    window_shift(old(self).window(), item),
                )->Some_0
                &&& final(self).chain_collected() == Seq::<bool>::empty()
                &&& final(self).chain_bytes() == Seq::<u8>::empty()
            } else {
                !final(self).receiving()
            }),
            (old(self).receiving() && spec_env_step(old(self).envelope(), item)
                > JAMMING_THRESHOLD) ==> r is None && !final(self).receiving() && final(self).window().len() == 0,
            (old(self).receiving() && spec_env_step(old(self).envelope(), item)
                <= JAMMING_THRESHOLD && next_count(old(self).symbol_count()) % (
            SYMBOL_LEN as int) != 0) ==> r is None && final(self).receiving() && final(self).symbol_count() == next_count(old(self).symbol_count()) && final(self).lock_level()
                == old(self).lock_level() && final(self).chain_line() == old(self).chain_line()
                && final(self).chain_collected() == old(self).chain_collected() && final(self).chain_bytes() == old(self).chain_bytes() && final(self).window() == window_shift(
                old(self).window(),
                item,
            ),
            (demod_symbol_due(*old(self), item) && !demod_in_tolerance(*old(self), item)) ==> r
                is None && !final(self).receiving() && final(self).window().len() == 0,
            (demod_symbol_due(*old(self), item) && demod_in_tolerance(*old(self), item)
                && demod_group(*old(self), item).len() < 10) ==> r is None && final(self).receiving() && final(self).symbol_count() == next_count(old(self).symbol_count())
                && final(self).lock_level() == old(self).lock_level() && final(self).chain_line()
                == (item > 0) && final(self).chain_collected() == demod_group(*old(self), item)
                && final(self).chain_bytes() == old(self).chain_bytes() && final(self).window()
                == window_shift(old(self).window(), item),
            (demod_symbol_due(*old(self), item) && demod_in_tolerance(*old(self), item)
                && demod_group(*old(self), item).len() == 10 && spec_decode_byte(
                demod_group(*old(self), item),
            ) is None) ==> r is None && !final(self).receiving() && final(self).window().len()
                == 0,
            (demod_symbol_due(*old(self), item) && demod_in_tolerance(*old(self), item)
                && demod_group(*old(self), item).len() == 10 && spec_decode_byte(
                demod_group(*old(self), item),
            ) is Some && (demod_yielded_bytes(*old(self), item).len() < 3 || (spec_total_size(
                demod_yielded_bytes(*old(self), item),
            ) <= MAC_FRAME_MAX && demod_yielded_bytes(*old(self), item).len() < spec_total_size(
                demod_yielded_bytes(*old(self), item),
            )))) ==> r is None && final(self).receiving() && final(self).symbol_count()
                == next_count(old(self).symbol_count()) && final(self).lock_level() == old(self).lock_level() && final(self).chain_line() == (item > 0) && final(self).chain_collected() == Seq::<bool>::empty() && final(self).chain_bytes()
                == demod_yielded_bytes(*old(self), item) && final(self).window() == window_shift(
                old(self).window(),
                item,
            ),
            (demod_symbol_due(*old(self), item) && demod_in_tolerance(*old(self), item)
                && demod_group(*old(self), item).len() == 10 && spec_decode_byte(
                demod_group(*old(self), item),
            ) is Some && demod_yielded_bytes(*old(self), item).len() >= 3 && spec_total_size(
                demod_yielded_bytes(*old(self), item),
            ) > MAC_FRAME_MAX) ==> r is None && !final(self).receiving() && final(self).window().len() == 0,
            r is Some <==> demod_yields(*old(self), item),
            demod_yields(*old(self), item) ==> (r matches Some(f) && f.wf() && spec_total_size(
                f@,
            ) == demod_yielded_bytes(*old(self), item).len() && f@.take(spec_total_size(f@))
                == demod_yielded_bytes(*old(self), item) && !final(self).receiving() && final(self).window().len() == 0),
    {
        let ghost pre = *old(self);
        if self.window.len() == PREAMBLE_LEN {
            self.window.remove(0);
        }
        self.window.push(item);
        proof {
            assert(self.window@ =~= window_shift(pre.window(), item));
        }
        self.moving_average = Self::moving_average(self.moving_average, abs_sample(item) as i64);
        let mut st = DemodulateState::Wait;
        core::mem::swap(&mut st, &mut self.state);
        match st {
            DemodulateState::Wait => {
                self.wait_step();
                None
            },
            DemodulateState::Receive(count, avg, dec) => {
                proof {
                    lemma_decoder_bound(dec);
                    assert(pre.symbol_count() == count as int);
                    assert(pre.lock_level() == avg as int);
                    assert(pre.chain_line() == dec.line_state());
                    assert(pre.chain_collected() == dec.collected());
                    assert(pre.chain_bytes() == dec.bytes());
                }
                self.receive_step(item, count, avg, dec)
            },
        }
    }
}

} // verus!
