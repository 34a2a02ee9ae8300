//! Checksums shared by the frame layer and the datagram helpers: a
//! table-driven CRC-8 (polynomial 0x31), the CRC-16/ARC of the `crc16` crate
//! behind a trusted wrapper, a ones'-complement checksum, and little-endian
//! readers.

use vstd::prelude::*;

verus! {

/// One shift-and-reduce round of the CRC-8 with polynomial 0x31.
pub open spec fn crc8_shift_step(crc: u8) -> u8 {
    if crc & 0x80 != 0 {
        (crc << 1) ^ 0x31
    } else {
        crc << 1
    }
}

/// `n` shift-and-reduce rounds applied to `crc`.
pub open spec fn crc8_shifts(crc: u8, n: nat) -> u8
    decreases n,
{
    if n == 0 {
        crc
    } else {
        crc8_shift_step(crc8_shifts(crc, (n - 1) as nat))
    }
}

/// The CRC-8 table entry for byte `i`: nine rounds, as the table generator runs.
pub open spec fn crc8_table_spec(i: u8) -> u8 {
    crc8_shifts(i, 9)
}

/// The CRC-8 of a byte sequence: start from zero, fold each byte through the table.
pub open spec fn crc8_fold(s: Seq<u8>) -> u8
    decreases s.len(),
{
    if s.len() == 0 {
        0
    } else {
        crc8_table_spec(crc8_fold(s.drop_last()) ^ s.last())
    }
}

/// Build the 256-entry CRC-8 table.
pub fn create_crc_table() -> (table: Vec<u8>)
    ensures
        table@.len() == 256,
        forall|i: int| 0 <= i < 256 ==> table@[i] == crc8_table_spec(i as u8),
{
    let mut table: Vec<u8> = Vec::new();
    let mut i: usize = 0;
    while i < 256
        invariant
            i <= 256,
            table@.len() == i,
            forall|k: int| 0 <= k < i ==> table@[k] == crc8_table_spec(k as u8),
        decreases 256 - i,
    {
        let mut crc: u8 = i as u8;
        let mut round: usize = 0;
        while round < 9
            invariant
                round <= 9,
                crc == crc8_shifts(i as u8, round as nat),
            decreases 9 - round,
        {
            crc = if crc & 0x80 != 0 {
                (crc << 1u8) ^ 0x31
            } else {
                crc << 1u8
            };
            round = round + 1;
        }
        table.push(crc);
        i = i + 1;
    }
    table
}

/// The CRC-8 of `data`, polynomial 0x31, zero initial value.
pub fn crc8_checksum(data: &[u8]) -> (crc: u8)
    ensures
        crc == crc8_fold(data@),
{
    let table = create_crc_table();
    let mut crc: u8 = 0;
    let mut idx: usize = 0;
    while idx < data.len()
        invariant
            idx <= data@.len(),
            table@.len() == 256,
            forall|k: int| 0 <= k < 256 ==> table@[k] == crc8_table_spec(k as u8),
            crc == crc8_fold(data@.take(idx as int)),
        decreases data@.len() - idx,
    {
        let byte = data[idx];
        crc = table[(crc ^ byte) as usize];
        proof {
            assert(data@.take(idx + 1).drop_last() =~= data@.take(idx as int));
            assert(data@.take(idx + 1).last() == data@[idx as int]);
        }
        idx = idx + 1;
    }
    proof {
        assert(data@.take(data@.len() as int) =~= data@);
    }
    crc
}

/// Shift-and-reduce rounds never move zero: every bit stays clear.
proof fn lemma_crc8_shifts_zero(n: nat)
    ensures
        crc8_shifts(0, n) == 0,
    decreases n,
{
    if n > 0 {
        lemma_crc8_shifts_zero((n - 1) as nat);
        assert(0u8 & 0x80 == 0 && 0u8 << 1 == 0) by (bit_vector);
    }
}

/// Appending a sequence's own CRC-8 drives the folded remainder to zero:
/// the final table lookup is at index `crc ^ crc == 0`, whose entry is zero.
pub proof fn lemma_crc8_self_check(s: Seq<u8>)
    ensures
        crc8_fold(s.push(crc8_fold(s))) == 0,
{
    let c = crc8_fold(s);
    assert(s.push(c).drop_last() =~= s);
    assert(s.push(c).last() == c);
    assert(c ^ c == 0) by (bit_vector);
    lemma_crc8_shifts_zero(9);
}

/// What `crc16::State::<ARC>::calculate` returns for a byte sequence.
pub uninterp spec fn crc16_of(data: Seq<u8>) -> u16;

/// Relies on `crc16::State::<ARC>::calculate`: the CRC-16/ARC checksum, a
/// function of the bytes alone.  The second clause is the remainder property
/// visible in the crate's table-driven fold: its table entry for index zero is
/// zero, so feeding the low and then the high checksum byte back into the
/// state cancels it, and the flushed result is zero.
#[verifier::external_body]
pub fn crc16_checksum(data: &[u8]) -> (crc: u16)
    ensures
        crc == crc16_of(data@),
        crc16_of(data@.push((crc & 0xff) as u8).push((crc >> 8) as u8)) == 0,
{
    crc16::State::<crc16::ARC>::calculate(data)
}

/// A 16-bit one's-complement addition: wrap the carry back into the low bits.
pub open spec fn ones_add(a: u16, b: u16) -> u16 {
    if a + b > 0xffff {
        (a + b - 0x10000 + 1) as u16
    } else {
        (a + b) as u16
    }
}

/// The little-endian 16-bit value of two bytes.
pub open spec fn le_pair(lo: u8, hi: u8) -> u16 {
    (lo + hi * 256) as u16
}

/// The one's-complement sum of the first `n` little-endian pairs of `s`.
pub open spec fn ones_fold(s: Seq<u8>, n: int) -> u16
    decreases n,
{
    if n <= 0 {
        0
    } else {
        ones_add(ones_fold(s, n - 1), le_pair(s[2 * (n - 1)], s[2 * (n - 1) + 1]))
    }
}

/// The ones'-complement checksum of `s`: the complement of the pairwise sum.
pub open spec fn spec_ones_checksum(s: Seq<u8>) -> u16 {
    0xffff ^ ones_fold(s, s.len() as int / 2)
}

/// The one's-complement checksum over 16-bit little-endian words, as IPv4 uses it.
pub fn ones_complete_checksum(data: &[u8]) -> (checksum: u16)
    ensures
        checksum == spec_ones_checksum(data@),
{
    let mut checksum: u16 = 0;
    let mut i: usize = 0;
    let pairs = data.len() / 2;
    while i < pairs
        invariant
            i <= pairs,
            data@.len() <= usize::MAX,
            pairs == data@.len() as int / 2,
            checksum == ones_fold(data@, i as int),
        decreases pairs - i,
    {
        assert(2 * i + 1 < data@.len());
        let value: u32 = data[2 * i] as u32 + (data[2 * i + 1] as u32) * 256;
        let sum: u32 = checksum as u32 + value;
        checksum = if sum > 0xffff {
            (sum - 0x10000 + 1) as u16
        } else {
            sum as u16
        };
        i = i + 1;
    }
    0xffff ^ checksum
}

proof fn lemma_fold_prefix_eq(s1: Seq<u8>, s2: Seq<u8>, n: int)
    requires
        forall|i: int| 0 <= i < 2 * n ==> s1[i] == s2[i],
    ensures
        ones_fold(s1, n) == ones_fold(s2, n),
    decreases n,
{
    if n > 0 {
        lemma_fold_prefix_eq(s1, s2, n - 1);
    }
}

/// Folding the same remaining pairs keeps two accumulators congruent modulo
/// 0xffff and keeps a positive accumulator positive.
proof fn lemma_fold_shifted(s1: Seq<u8>, s2: Seq<u8>, from: int, n: int, c: u16)
    requires
        0 <= from <= n,
        forall|i: int| 2 * from <= i < 2 * n ==> s1[i] == s2[i],
        (ones_fold(s1, from) as int) % 0xffff == ((ones_fold(s2, from) + c) as int) % 0xffff,
        ones_fold(s1, from) >= 1,
    ensures
        (ones_fold(s1, n) as int) % 0xffff == ((ones_fold(s2, n) + c) as int) % 0xffff,
        ones_fold(s1, n) >= 1,
    decreases n - from,
{
    if n > from {
        lemma_fold_shifted(s1, s2, from, n - 1, c);
        let a = ones_fold(s1, n - 1);
        let b = ones_fold(s2, n - 1);
        let p = le_pair(s1[2 * (n - 1)], s1[2 * (n - 1) + 1]);
        assert(le_pair(s2[2 * (n - 1)], s2[2 * (n - 1) + 1]) == p);
        assert((ones_add(a, p) as int) % 0xffff == ((a + p) as int) % 0xffff) by (nonlinear_arith)
            requires
                ones_add(a, p) == (if a + p > 0xffff {
                    (a + p - 0x10000 + 1) as u16
                } else {
                    (a + p) as u16
                }),
        ;
        assert((ones_add(b, p) as int) % 0xffff == ((b + p) as int) % 0xffff) by (nonlinear_arith)
            requires
                ones_add(b, p) == (if b + p > 0xffff {
                    (b + p - 0x10000 + 1) as u16
                } else {
                    (b + p) as u16
                }),
        ;
        assert(((a + p) as int) % 0xffff == ((b + p + c) as int) % 0xffff) by (nonlinear_arith)
            requires
                (a as int) % 0xffff == ((b + c) as int) % 0xffff,
                0 <= a,
                0 <= b + c,
                0 <= p,
        ;
        assert(((ones_add(b, p) + c) as int) % 0xffff == ((b + p + c) as int) % 0xffff)
            by (nonlinear_arith)
            requires
                (ones_add(b, p) as int) % 0xffff == ((b + p) as int) % 0xffff,
                0 <= ones_add(b, p),
                0 <= c,
        ;
    }
}

/// Law: inserting a ones'-complement checksum into the pair it was computed
/// over drives the whole checksum to zero, so a receiver's verification
/// accepts every header built this way.
pub proof fn lemma_ones_checksum_insert(s: Seq<u8>)
    requires
        s.len() == 20,
        s[10] == 0,
        s[11] == 0,
    ensures
        ({
            let c = spec_ones_checksum(s);
            spec_ones_checksum(s.update(10, (c % 256) as u8).update(11, (c / 256) as u8)) == 0
        }),
{
    let f = ones_fold(s, 10);
    let c = spec_ones_checksum(s);
    assert(c == (0xffff - f) as u16) by (bit_vector)
        requires
            c == 0xffff ^ f,
    ;
    let h = s.update(10, (c % 256) as u8).update(11, (c / 256) as u8);
    if c == 0 {
        assert(h =~= s);
        assert(0xffffu16 ^ f == 0xffffu16 ^ f);
    } else {
        lemma_fold_prefix_eq(h, s, 5);
        let f5 = ones_fold(s, 5);
        assert(le_pair(h[10], h[11]) == c);
        assert(le_pair(s[10], s[11]) == 0);
        assert(ones_fold(h, 6) == ones_add(f5, c));
        assert(ones_fold(s, 6) == ones_add(f5, 0));
        assert(ones_add(f5, 0) == f5);
        assert(ones_fold(h, 6) >= 1);
        assert((ones_fold(h, 6) as int) % 0xffff == ((ones_fold(s, 6) + c) as int) % 0xffff)
            by (nonlinear_arith)
            requires
                ones_fold(h, 6) == (if f5 + c > 0xffff {
                    (f5 + c - 0x10000 + 1) as u16
                } else {
                    (f5 + c) as u16
                }),
                ones_fold(s, 6) == f5,
        ;
        lemma_fold_shifted(h, s, 6, 10, c);
        let total = ones_fold(h, 10);
        assert(f + c == 0xffff);
        assert((total as int) % 0xffff == (0xffffint) % 0xffff) by (nonlinear_arith)
            requires
                (total as int) % 0xffff == ((f + c) as int) % 0xffff,
                f + c == 0xffff,
        ;
        assert(total == 0xffff) by (nonlinear_arith)
            requires
                (total as int) % 0xffff == 0,
                1 <= total <= 0xffff,
        ;
        assert(0xffffu16 ^ 0xffffu16 == 0) by (bit_vector);
        assert(h.len() == 20);
    }
}

/// The little-endian 16-bit integer held in a 2-byte slice.
pub fn slice_to_le_u16(value: &[u8]) -> (r: u16)
    requires
        value@.len() == 2,
    ensures
        r == le_pair(value@[0], value@[1]),
{
    value[0] as u16 + value[1] as u16 * 256
}

/// The little-endian 32-bit integer held in a 4-byte slice.
pub fn slice_to_le_u32(value: &[u8]) -> (r: u32)
    requires
        value@.len() == 4,
    ensures
        r == value@[0] + value@[1] * 0x100 + value@[2] * 0x10000 + value@[3] * 0x1000000,
{
    value[0] as u32 + value[1] as u32 * 0x100 + value[2] as u32 * 0x10000 + value[3] as u32
        * 0x1000000
}

} // verus!
