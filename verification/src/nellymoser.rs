//! The integer half of the Nellymoser block decoder: the band exponents
//! and coefficient codes read from a block, and the bit allocation.

use vstd::prelude::*;
use vstd::arithmetic::power2::pow2;
use vstd::std_specs::bits::u32_leading_zeros;
use bitstream_io::{BitRead, BitReader, LittleEndian};
use std::io::Cursor;

verus! {

pub const NELLY_BUF_LEN: usize = 128;
pub const NELLY_FILL_LEN: usize = 124;
pub const NELLY_BIT_CAP: i16 = 6;

pub const NELLY_BANDS: usize = 23;
pub const NELLY_BLOCK_LEN: usize = 64;

/// The exponent of the first band, by its six-bit code.
pub const NELLY_INIT_TABLE: [u16; 64] = [
    3134, 5342, 6870, 7792, 8569, 9185, 9744, 10191, 10631, 11061, 11434, 11770, 12116, 12513,
    12925, 13300, 13674, 14027, 14352, 14716, 15117, 15477, 15824, 16157, 16513, 16804, 17090,
    17401, 17679, 17948, 18238, 18520, 18764, 19078, 19381, 19640, 19921, 20205, 20500, 20813,
    21162, 21465, 21794, 22137, 22453, 22756, 23067, 23350, 23636, 23926, 24227, 24521, 24819,
    25107, 25414, 25730, 26120, 26497, 26895, 27344, 27877, 28463, 29426, 31355,
];

/// The change of exponent from one band to the next, by its five-bit code.
pub const NELLY_DELTA_TABLE: [i16; 32] = [
    -11725, -9420, -7910, -6801, -5948, -5233, -4599, -4039, -3507, -3030, -2596, -2170, -1774,
    -1383, -1016, -660, -329, -1, 337, 696, 1085, 1512, 1962, 2433, 2968, 3569, 4314, 5279, 6622,
    8154, 10076, 12975,
];

pub const NELLY_HEADER_BITS: u32 = 116;
pub const NELLY_DETAIL_BITS: i32 = 198;

/// The bits that the first `n` coefficients take up in the block: the
/// allotted count of each that is allotted any.
pub open spec fn used_bits(bits: Seq<i32>, n: int) -> int
    decreases n,
{
    if n <= 0 {
        0
    } else {
        used_bits(bits, n - 1) + if bits[n - 1] > 0 { bits[n - 1] as int } else { 0 }
    }
}

proof fn lemma_used_bits_monotone(bits: Seq<i32>, m: int, n: int)
    requires
        0 <= m <= n,
    ensures
        used_bits(bits, m) <= used_bits(bits, n),
    decreases n - m,
{
    if m < n {
        lemma_used_bits_monotone(bits, m, n - 1);
    }
}

/// Reads the quantized coefficients of one half (`half` 0 or 1) of a
/// block: the half's detail bits start after the header, one after the
/// other, and coefficient `j` takes `bits[j]` of them (none where it is
/// allotted none, and then reads as 0).
pub fn coefficient_codes(block: &[u8; NELLY_BLOCK_LEN], half: u32, bits: &[i32; NELLY_BUF_LEN]) -> (r: [u32; NELLY_FILL_LEN])
    requires
        half <= 1,
        forall|j: int| 0 <= j < NELLY_FILL_LEN ==> #[trigger] bits[j] <= 8,
        NELLY_HEADER_BITS + half * NELLY_DETAIL_BITS + used_bits(bits@, NELLY_FILL_LEN as int) <= 8 * NELLY_BLOCK_LEN,
    ensures
        forall|j: int| 0 <= j < NELLY_FILL_LEN ==> #[trigger] r[j] == if bits[j] <= 0 {
            0
        } else {
            bits_le(
                block@,
                NELLY_HEADER_BITS + half * NELLY_DETAIL_BITS + used_bits(bits@, j),
                bits[j] as nat,
            )
        },
{
    let mut r = [0u32; NELLY_FILL_LEN];
    let mut pos: u32 = NELLY_HEADER_BITS + half * (NELLY_DETAIL_BITS as u32);
    let mut j: usize = 0;
    while j < NELLY_FILL_LEN
        invariant
            j <= NELLY_FILL_LEN,
            half <= 1,
            forall|k: int| 0 <= k < NELLY_FILL_LEN ==> #[trigger] bits[k] <= 8,
            NELLY_HEADER_BITS + half * NELLY_DETAIL_BITS + used_bits(bits@, NELLY_FILL_LEN as int) <= 8 * NELLY_BLOCK_LEN,
            pos == NELLY_HEADER_BITS + half * NELLY_DETAIL_BITS + used_bits(bits@, j as int),
            forall|k: int| j <= k < NELLY_FILL_LEN ==> #[trigger] r[k] == 0,
            forall|k: int| 0 <= k < j ==> #[trigger] r[k] == if bits[k] <= 0 {
                0
            } else {
                bits_le(
                    block@,
                    NELLY_HEADER_BITS + half * NELLY_DETAIL_BITS + used_bits(bits@, k),
                    bits[k] as nat,
                )
            },
        decreases NELLY_FILL_LEN - j,
    {
        proof {
            lemma_used_bits_monotone(bits@, j as int + 1, NELLY_FILL_LEN as int);
        }
        let b = bits[j];
        if b > 0 {
            r[j] = read_bits_le(block, pos, b as u32);
            pos = pos + b as u32;
        }
        j = j + 1;
    }
    r
}

/// Bit `i` of `data`, counting from the least significant bit of the first
/// byte.
pub open spec fn bit_le(data: Seq<u8>, i: int) -> nat {
    ((data[i / 8] as u32 >> (i % 8) as u32) & 1u32) as nat
}

/// The value of `n` bits of `data` from bit `pos`, the first of them the
/// least significant.
pub open spec fn bits_le(data: Seq<u8>, pos: int, n: nat) -> nat
    decreases n,
{
    if n == 0 {
        0
    } else {
        bit_le(data, pos) + 2 * bits_le(data, pos + 1, (n - 1) as nat)
    }
}

/// Reads `n` bits from bit `pos` of `block`, least significant bit first,
/// with `bitstream_io`'s little-endian `BitReader`: a reader over the block
/// skips `pos` bits (`BitRead::skip`) and reads `n` (`BitRead::read`).
/// Claimed: within the block, the value is that of the bits, the first read
/// the least significant, as the crate's documented examples show.
#[verifier::external_body]
fn read_bits_le(block: &[u8], pos: u32, n: u32) -> (r: u32)
    requires
        n <= 32,
        pos + n <= 8 * block@.len(),
    ensures
        r == bits_le(block@, pos as int, n as nat),
{
    let mut reader = BitReader::endian(Cursor::new(block), LittleEndian);
    match reader.skip(pos) {
        Ok(()) => {},
        Err(_) => return 0,
    }
    match reader.read::<u32>(n) {
        Ok(v) => v,
        Err(_) => 0,
    }
}

proof fn lemma_bits_le_bound(data: Seq<u8>, pos: int, n: nat)
    ensures
        bits_le(data, pos, n) < pow2(n),
    decreases n,
{
    vstd::arithmetic::power2::lemma2_to64();
    if n > 0 {
        lemma_bits_le_bound(data, pos + 1, (n - 1) as nat);
        vstd::arithmetic::power2::lemma_pow2_unfold(n);
        assert(forall|x: u32, k: u32| #[trigger] ((x >> k) & 1u32) <= 1u32) by (bit_vector);
        let x = data[pos / 8] as u32;
        let k = (pos % 8) as u32;
        assert(((x >> k) & 1u32) <= 1u32);
        assert(bit_le(data, pos) <= 1);
    }
}

/// The exponent of band `i`.
pub open spec fn band_exponent(block: Seq<u8>, i: int) -> int
    decreases i,
{
    if i <= 0 {
        NELLY_INIT_TABLE[bits_le(block, 0, 6) as int] as int
    } else {
        band_exponent(block, i - 1) + NELLY_DELTA_TABLE[bits_le(block, 6 + 5 * (i - 1), 5) as int] as int
    }
}

/// Reads the band exponents from a block's header.
pub fn band_values(block: &[u8; NELLY_BLOCK_LEN]) -> (r: [i32; NELLY_BANDS])
    ensures
        forall|i: int| 0 <= i < NELLY_BANDS ==> r[i] == band_exponent(block@, i),
        forall|i: int| 0 <= i < NELLY_BANDS ==> -254816 <= #[trigger] r[i] <= 316805,
{
    let mut r = [0i32; NELLY_BANDS];
    proof {
        vstd::arithmetic::power2::lemma2_to64();
        lemma_bits_le_bound(block@, 0, 6);
    }
    let code = read_bits_le(block, 0, 6);
    let mut val: i32 = NELLY_INIT_TABLE[code as usize] as i32;
    r[0] = val;
    let mut i: usize = 1;
    while i < NELLY_BANDS
        invariant
            1 <= i <= NELLY_BANDS,
            val == band_exponent(block@, i - 1),
            3134 - 11725 * (i - 1) <= val <= 31355 + 12975 * (i - 1),
            forall|k: int| 0 <= k < i ==> r[k] == band_exponent(block@, k),
            forall|k: int| 0 <= k < i ==> -254816 <= #[trigger] r[k] <= 316805,
        decreases NELLY_BANDS - i,
    {
        proof {
            vstd::arithmetic::power2::lemma2_to64();
            lemma_bits_le_bound(block@, 6 + 5 * (i - 1), 5);
        }
        let code = read_bits_le(block, (6 + 5 * (i - 1)) as u32, 5);
        let d = NELLY_DELTA_TABLE[code as usize];
        assert(-11725 <= d <= 12975) by {
            assert(forall|k: int| 0 <= k < 32 ==> -11725 <= #[trigger] NELLY_DELTA_TABLE[k] <= 12975);
        }
        val = val + d as i32;
        r[i] = val;
        i = i + 1;
    }
    r
}

/// Shifts left by a positive amount, or right (arithmetically) by the
/// negated amount otherwise.
pub fn signed_shift(i: i32, shift: i32) -> (r: i32)
    requires
        -32 < shift < 32,
    ensures
        r == if shift > 0 {
            i << shift
        } else {
            i >> -shift
        },
{
    if shift > 0 {
        i << shift
    } else {
        i >> -shift
    }
}

/// The bits allotted to a coefficient of exponent `v`: the exponent less
/// the offset, scaled down by `2^shift` with rounding, clamped to
/// `0..=NELLY_BIT_CAP`.
pub open spec fn coeff_bits(v: i16, shift: i16, off: i16) -> i32 {
    let d = (v as i32 - off as i32) as i32;
    let b = (((d >> ((shift - 1) as i32)) + 1) as i32) >> 1i32;
    if b < 0 {
        0
    } else if b > NELLY_BIT_CAP as i32 {
        NELLY_BIT_CAP as i32
    } else {
        b
    }
}

/// The bits allotted to the first `n` coefficients.
pub open spec fn bits_total(buf: Seq<i16>, shift: i16, off: i16, n: nat) -> int
    decreases n,
{
    if n == 0 {
        0
    } else {
        bits_total(buf, shift, off, (n - 1) as nat) + coeff_bits(buf[n - 1], shift, off)
    }
}

proof fn lemma_bits_total_bound(buf: Seq<i16>, shift: i16, off: i16, n: nat)
    ensures
        0 <= bits_total(buf, shift, off, n) <= n * NELLY_BIT_CAP,
    decreases n,
{
    if n > 0 {
        lemma_bits_total_bound(buf, shift, off, (n - 1) as nat);
    }
}

/// The bits allotted to the coefficients that carry data.
pub fn sum_bits(buf: [i16; NELLY_BUF_LEN], shift: i16, off: i16) -> (r: i32)
    requires
        1 <= shift <= 32,
    ensures
        r == bits_total(buf@, shift, off, NELLY_FILL_LEN as nat),
        0 <= r <= NELLY_FILL_LEN * NELLY_BIT_CAP,
{
    let mut ret: i32 = 0;
    let mut i: usize = 0;
    while i < NELLY_FILL_LEN
        invariant
            1 <= shift <= 32,
            i <= NELLY_FILL_LEN,
            ret == bits_total(buf@, shift, off, i as nat),
        decreases NELLY_FILL_LEN - i,
    {
        proof {
            lemma_bits_total_bound(buf@, shift, off, i as nat);
        }
        let b = buf[i] as i32 - off as i32;
        let s = (shift - 1) as i32;
        let ghost su = s as u32;
        assert(-65536 <= b >> su <= 65536) by (bit_vector)
            requires -65536 <= b <= 65536, su < 32u32;
        assert(b >> s == b >> su);
        let b = ((b >> s) + 1) >> 1;
        ret = ret + if b < 0 {
            0
        } else if b > NELLY_BIT_CAP as i32 {
            NELLY_BIT_CAP as i32
        } else {
            b
        };
        i = i + 1;
    }
    proof {
        lemma_bits_total_bound(buf@, shift, off, NELLY_FILL_LEN as nat);
    }
    ret
}

/// The bits allotted to each coefficient that carries data, for the
/// exponents `sbuf` scaled down by `2^shift` less the offset (see
/// `coeff_bits`); none for the rest.
pub open spec fn allotted(sbuf: Seq<i16>, shift: i16, off: i32) -> Seq<i32> {
    Seq::new(
        NELLY_BUF_LEN as nat,
        |i: int| if i < NELLY_FILL_LEN { coeff_bits_wide(sbuf[i], shift, off) } else { 0 },
    )
}

/// `coeff_bits` for an offset of any `i32`.
pub open spec fn coeff_bits_wide(v: i16, shift: i16, off: i32) -> i32 {
    let d = (v as i32 - off) as i32;
    let b = (((d >> ((shift - 1) as i32)) + 1) as i32) >> 1i32;
    if b < 0 {
        0
    } else if b > NELLY_BIT_CAP as i32 {
        NELLY_BIT_CAP as i32
    } else {
        b
    }
}

/// The sum of the first `n` entries.
pub open spec fn total(b: Seq<i32>, n: int) -> int
    decreases n,
{
    if n <= 0 {
        0
    } else {
        total(b, n - 1) + b[n - 1]
    }
}

proof fn lemma_allotted_total(sbuf: Seq<i16>, shift: i16, off: i32, n: int)
    requires
        0 <= n <= NELLY_FILL_LEN,
        i16::MIN <= off <= i16::MAX,
    ensures
        total(allotted(sbuf, shift, off), n) == bits_total(sbuf, shift, off as i16, n as nat),
    decreases n,
{
    if n > 0 {
        lemma_allotted_total(sbuf, shift, off, n - 1);
    }
}

/// Allots each coefficient that carries data its bits for the offset
/// `small_off` that the search settled on: its scaled exponent less the
/// offset, rounded and clamped to `0..=NELLY_BIT_CAP`.
pub fn allot_bits(sbuf: &[i16; NELLY_BUF_LEN], shift_saved: i16, small_off: i32) -> (r: [i32; NELLY_BUF_LEN])
    requires
        2 <= shift_saved <= 32,
        forall|i: int| 0 <= i < NELLY_FILL_LEN ==> i32::MIN <= #[trigger] sbuf[i] - small_off <= i32::MAX,
    ensures
        r@ == allotted(sbuf@, shift_saved, small_off),
        forall|i: int| 0 <= i < NELLY_BUF_LEN ==> 0 <= #[trigger] r[i] <= NELLY_BIT_CAP,
        i16::MIN <= small_off <= i16::MAX ==> total(r@, NELLY_FILL_LEN as int) == bits_total(
            sbuf@,
            shift_saved,
            small_off as i16,
            NELLY_FILL_LEN as nat,
        ),
{
    let mut bits = [0i32; NELLY_BUF_LEN];
    let mut i: usize = 0;
    while i < NELLY_FILL_LEN
        invariant
            i <= NELLY_FILL_LEN,
            2 <= shift_saved <= 32,
            forall|k: int| 0 <= k < NELLY_FILL_LEN ==> i32::MIN <= #[trigger] sbuf[k] - small_off <= i32::MAX,
            forall|k: int| 0 <= k < i ==> #[trigger] bits[k] == coeff_bits_wide(sbuf[k], shift_saved, small_off),
            forall|k: int| i <= k < NELLY_BUF_LEN ==> #[trigger] bits[k] == 0,
        decreases NELLY_FILL_LEN - i,
    {
        let mut tmp = sbuf[i] as i32 - small_off;
        let s = (shift_saved - 1) as i32;
        let ghost su = s as u32;
        let ghost t0 = tmp;
        assert(t0 >> su <= i32::MAX / 2 && t0 >> su >= i32::MIN / 2) by (bit_vector)
            requires 1u32 <= su < 32u32;
        assert(tmp >> s == t0 >> su);
        tmp = ((tmp >> s) + 1) >> 1;
        bits[i] = if tmp < 0 {
            0
        } else if tmp > NELLY_BIT_CAP as i32 {
            NELLY_BIT_CAP as i32
        } else {
            tmp
        };
        i = i + 1;
    }
    assert(bits@ =~= allotted(sbuf@, shift_saved, small_off));
    proof {
        if i16::MIN <= small_off <= i16::MAX {
            lemma_allotted_total(sbuf@, shift_saved, small_off, NELLY_FILL_LEN as int);
        }
    }
    bits
}

/// The bits coefficient `k` keeps when an allotment of more than
/// `NELLY_DETAIL_BITS` is cut down: what is left of the budget after the
/// coefficients before it, at most its own.
pub open spec fn kept_bits(bits: Seq<i32>, k: int) -> int {
    let left = NELLY_DETAIL_BITS - total(bits, k);
    if left <= 0 {
        0
    } else if left < bits[k] {
        left
    } else {
        bits[k] as int
    }
}

proof fn lemma_total_monotone(b: Seq<i32>, m: int, n: int)
    requires
        0 <= m <= n <= b.len(),
        forall|k: int| 0 <= k < b.len() ==> 0 <= #[trigger] b[k],
    ensures
        total(b, m) <= total(b, n),
    decreases n - m,
{
    if m < n {
        lemma_total_monotone(b, m, n - 1);
    }
}

/// The running totals of the kept bits follow the budget: below the point
/// where the allotment reaches it they are those of the allotment, and from
/// there on the budget itself.
proof fn lemma_kept_total(bits: Seq<i32>, r: Seq<i32>, n: int)
    requires
        0 <= n <= NELLY_FILL_LEN,
        bits.len() == NELLY_BUF_LEN,
        r.len() == NELLY_BUF_LEN,
        forall|k: int| 0 <= k < NELLY_BUF_LEN ==> 0 <= #[trigger] bits[k],
        forall|k: int| 0 <= k < NELLY_FILL_LEN ==> #[trigger] r[k] == kept_bits(bits, k),
    ensures
        total(r, n) == if total(bits, n) <= NELLY_DETAIL_BITS { total(bits, n) } else { NELLY_DETAIL_BITS as int },
    decreases n,
{
    if n > 0 {
        lemma_kept_total(bits, r, n - 1);
        lemma_total_monotone(bits, n - 1, n);
    }
}

/// Cuts an allotment of more than `NELLY_DETAIL_BITS` down to exactly that
/// many: coefficients keep their bits in order until the budget runs out;
/// the one where it runs out keeps what is left, and those after it none.
pub fn trim_bits(bits: &mut [i32; NELLY_BUF_LEN])
    requires
        forall|k: int| 0 <= k < NELLY_BUF_LEN ==> 0 <= #[trigger] old(bits)[k],
        forall|k: int| NELLY_FILL_LEN <= k < NELLY_BUF_LEN ==> #[trigger] old(bits)[k] == 0,
        total(old(bits)@, NELLY_FILL_LEN as int) >= NELLY_DETAIL_BITS,
        forall|k: int| 0 <= k < NELLY_BUF_LEN ==> #[trigger] old(bits)[k] <= NELLY_BIT_CAP,
    ensures
        forall|k: int| 0 <= k < NELLY_FILL_LEN ==> #[trigger] final(bits)[k] == kept_bits(old(bits)@, k),
        forall|k: int| NELLY_FILL_LEN <= k < NELLY_BUF_LEN ==> #[trigger] final(bits)[k] == old(bits)[k],
        total(final(bits)@, NELLY_FILL_LEN as int) == NELLY_DETAIL_BITS,
        forall|k: int| 0 <= k < NELLY_BUF_LEN ==> 0 <= #[trigger] final(bits)[k] <= old(bits)[k],
{
    let ghost b = bits@;
    let mut i: usize = 0;
    let mut tmp: i32 = 0;
    proof {
        lemma_total_monotone(b, NELLY_FILL_LEN as int, NELLY_BUF_LEN as int);
    }
    while tmp < NELLY_DETAIL_BITS
        invariant
            bits@ == b,
            b.len() == NELLY_BUF_LEN,
            forall|k: int| 0 <= k < NELLY_BUF_LEN ==> 0 <= #[trigger] b[k] <= NELLY_BIT_CAP,
            forall|k: int| NELLY_FILL_LEN <= k < NELLY_BUF_LEN ==> #[trigger] b[k] == 0,
            total(b, NELLY_FILL_LEN as int) >= NELLY_DETAIL_BITS,
            i <= NELLY_FILL_LEN,
            tmp == total(b, i as int),
            i > 0 ==> total(b, i - 1) < NELLY_DETAIL_BITS,
        decreases NELLY_FILL_LEN - i,
    {
        proof {
            if i == NELLY_FILL_LEN {
                assert(false);
            }
        }
        tmp = tmp + bits[i];
        i = i + 1;
    }
    bits[i - 1] = bits[i - 1] - (tmp - NELLY_DETAIL_BITS);
    let cut = i;
    while i < NELLY_FILL_LEN
        invariant
            cut <= i <= NELLY_FILL_LEN,
            1 <= cut,
            b.len() == NELLY_BUF_LEN,
            total(b, cut as int) >= NELLY_DETAIL_BITS,
            total(b, cut - 1) < NELLY_DETAIL_BITS,
            forall|k: int| 0 <= k < cut - 1 ==> #[trigger] bits[k] == b[k],
            bits[cut - 1] == b[cut - 1] - (total(b, cut as int) - NELLY_DETAIL_BITS),
            forall|k: int| cut <= k < i ==> #[trigger] bits[k] == 0,
            forall|k: int| i <= k < NELLY_BUF_LEN ==> #[trigger] bits[k] == b[k],
        decreases NELLY_FILL_LEN - i,
    {
        bits[i] = 0;
        i = i + 1;
    }
    proof {
        assert forall|k: int| 0 <= k < NELLY_FILL_LEN implies #[trigger] bits[k] == kept_bits(b, k) by {
            if k < cut - 1 {
                lemma_total_monotone(b, k + 1, cut - 1);
            } else if k >= cut {
                lemma_total_monotone(b, cut as int, k);
            }
        }
        lemma_kept_total(b, bits@, NELLY_FILL_LEN as int);
    }
}

pub const NELLY_BASE_OFF: i32 = 4228;
pub const NELLY_BASE_SHIFT: i16 = 19;

/// What `signed_shift(i, shift)` gives.
pub open spec fn shifted(i: i32, shift: i32) -> i32 {
    if shift > 0 {
        i << shift
    } else {
        i >> -shift
    }
}

/// The exponent `headroom` returns for `v`.
pub open spec fn head_shift(v: i32) -> int {
    if v == 0 {
        31
    } else {
        u32_leading_zeros(magnitude(v) as u32) - 1
    }
}

/// The sum of the first `n` scaled exponents.
pub open spec fn exponent_sum(sbuf: Seq<i16>, n: int) -> int
    decreases n,
{
    if n <= 0 {
        0
    } else {
        exponent_sum(sbuf, n - 1) + sbuf[n - 1]
    }
}

/// Scaled exponents as the decoder makes them: three quarters of an `i16`.
pub open spec fn scaled_ok(sbuf: Seq<i16>) -> bool {
    &&& sbuf.len() == NELLY_BUF_LEN
    &&& forall|i: int| 0 <= i < NELLY_BUF_LEN ==> -24576 <= #[trigger] sbuf[i] <= 24575
}

proof fn lemma_exponent_sum_bound(sbuf: Seq<i16>, n: int)
    requires
        scaled_ok(sbuf),
        0 <= n <= NELLY_BUF_LEN,
    ensures
        -24576 * n <= exponent_sum(sbuf, n) <= 24575 * n,
    decreases n,
{
    if n > 0 {
        lemma_exponent_sum_bound(sbuf, n - 1);
    }
}

/// The budget less all the scaled exponents, as the decoder computes it
/// (the budget shifted left in an `i32`).
pub open spec fn budget_gap(sbuf: Seq<i16>, shift_saved: i16) -> i32 {
    (exponent_sum(sbuf, NELLY_BUF_LEN as int) - (NELLY_DETAIL_BITS << (shift_saved as i32))) as i32
}

/// The offset the search starts from: the gap normalized by `headroom`,
/// scaled by `NELLY_BASE_OFF` and shifted back.
pub open spec fn first_offset(sbuf: Seq<i16>, shift_saved: i16) -> i32 {
    let gap = budget_gap(sbuf, shift_saved);
    let h = head_shift(gap);
    let norm = (gap * pow2(h as nat)) as i32;
    let off = ((NELLY_BASE_OFF * (norm >> 16i32)) as i32) >> 15i32;
    shifted(off, (12 - h) as i32)
}

/// Ranges of the shifts and scalings the bit allocation makes.
proof fn lemma_scaling_ranges()
    by (bit_vector)
    ensures
        forall|n: i32| #![trigger n >> 16i32] -32768 <= n >> 16i32 <= 32767,
        forall|n: i32| #![trigger ((4228i32 * n) as i32) >> 15i32]
            -32768 <= n <= 32767 ==> -4228 <= ((4228i32 * n) as i32) >> 15i32 <= 4228,
        forall|n: i32| #![trigger ((n * 4228i32) as i32) >> 15i32]
            -32768 < n < 32768 ==> -4228 <= ((n * 4228i32) as i32) >> 15i32 <= 4228,
        forall|o: i32, k: u32| #![trigger o << k]
            -4228 <= o <= 4228 && k <= 17 ==> -0x2200_0000 <= o << k <= 0x2200_0000,
        forall|o: i32, k: u32| #![trigger o >> k]
            -4228 <= o <= 4228 ==> -4228 <= o >> k <= 4228,
        forall|t: i32| #![trigger t >> 2i32] -98304 <= t <= 98301 ==> -24576 <= t >> 2i32 <= 24575,
{
}

/// Computes the offset the search starts from.
fn first_offset_exec(sbuf: &[i16; NELLY_BUF_LEN], shift_saved: i16) -> (r: i32)
    requires
        scaled_ok(sbuf@),
        7 <= shift_saved <= 26,
    ensures
        r == first_offset(sbuf@, shift_saved),
        -0x2200_0000 <= r <= 0x2200_0000,
{
    let mut sum: i32 = 0;
    let mut i: usize = 0;
    while i < NELLY_BUF_LEN
        invariant
            i <= NELLY_BUF_LEN,
            scaled_ok(sbuf@),
            sum == exponent_sum(sbuf@, i as int),
        decreases NELLY_BUF_LEN - i,
    {
        proof {
            lemma_exponent_sum_bound(sbuf@, i as int);
        }
        sum = sum + sbuf[i] as i32;
        i = i + 1;
    }
    proof {
        lemma_exponent_sum_bound(sbuf@, NELLY_BUF_LEN as int);
    }
    let shift: i16 = shift_saved;
    let budget: i32 = NELLY_DETAIL_BITS << (shift as i32);
    let ghost sh = shift as u32;
    assert(budget == 198i32 << sh);
    assert(-1946157056 <= budget <= 1660944384) by (bit_vector)
        requires
            budget == 198i32 << sh,
            7 <= sh <= 26,
    ;
    sum = sum - budget;
    let ghost gap = sum;
    let h = headroom(&mut sum);
    proof {
        vstd::arithmetic::power2::lemma2_to64();
    }
    let ghost norm = sum;
    proof {
        lemma_scaling_ranges();
    }
    assert(-32768 <= norm >> 16i32 <= 32767);
    let mut small_off: i32 = (NELLY_BASE_OFF * (sum >> 16)) >> 15;
    let ghost so = small_off;
    assert(-4228 <= so <= 4228);
    let shift2: i16 = 12 - h as i16;
    small_off = signed_shift(small_off, shift2 as i32);
    assert(gap == budget_gap(sbuf@, shift_saved));
    assert(h == head_shift(gap));
    assert(norm == (gap * pow2(h as nat)) as i32);
    assert(so == ((NELLY_BASE_OFF * (norm >> 16i32)) as i32) >> 15i32);
    assert(small_off == shifted(so, (12 - h) as i32));
    proof {
        if shift2 > 0 {
            let su = shift2 as u32;
            assert(small_off == so << su);
            assert(-0x2200_0000 <= so << su <= 0x2200_0000);
        } else {
            let su = (-shift2) as u32;
            assert(small_off == so >> su);
            assert(-4228 <= so >> su <= 4228);
        }
    }
    small_off
}

/// `off` doubled until its magnitude passes 16383 (with at most `fuel`
/// doublings), and how many doublings that took.
pub open spec fn grown(off: int, fuel: nat) -> (int, int)
    decreases fuel,
{
    if fuel == 0 || off > 16383 || off < -16383 {
        (off, 0)
    } else {
        let g = grown(off * 2, (fuel - 1) as nat);
        (g.0, g.1 + 1)
    }
}

/// The step by which the search moves the offset, from how far the bits
/// at the first offset miss the budget: that miss doubled into 15 bits,
/// scaled by `NELLY_BASE_OFF` and shifted back.
pub open spec fn search_step(bitsum: i32, shift_saved: i16) -> i32 {
    let g = grown(bitsum - NELLY_DETAIL_BITS, 15);
    let off = ((g.0 * NELLY_BASE_OFF) as i32) >> 15i32;
    shifted(off, (shift_saved - (NELLY_BASE_SHIFT + g.1 - 15)) as i32)
}

/// The bits that coefficients with the given scaled exponents are allotted
/// at offset `off` (read as an `i16`).
pub open spec fn bits_at(sbuf: Seq<i16>, shift_saved: i16, off: i32) -> i32 {
    bits_total(sbuf, shift_saved, off as i16, NELLY_FILL_LEN as nat) as i32
}

/// The sweep from step `j` on (state: offset, offset before, their bits,
/// last step): the offset moves by `step` until the bits cross the budget
/// or 19 steps are done; `None` where the offset overflows.
pub open spec fn sweep(
    sbuf: Seq<i16>,
    shift_saved: i16,
    step: i32,
    j: int,
    st: (i32, i32, i32, i32, int),
) -> Option<(i32, i32, i32, i32, int)>
    decreases 20 - j,
{
    if j >= 20 {
        Some(st)
    } else {
        let ns = st.0 + step;
        if ns < i32::MIN || ns > i32::MAX {
            None
        } else {
            let nb = bits_at(sbuf, shift_saved, ns as i32);
            let st2 = (ns as i32, st.0, nb, st.2, j);
            if (nb - NELLY_DETAIL_BITS) * (st.2 - NELLY_DETAIL_BITS) <= 0 {
                Some(st2)
            } else {
                sweep(sbuf, shift_saved, step, j + 1, st2)
            }
        }
    }
}

/// The bisection (state: offset above the budget and its bits, offset
/// below and its bits, the last bits, steps so far): halve between the two
/// until the bits hit the budget or 20 steps are done in all; `None` where
/// the sum of the offsets overflows.
pub open spec fn bisect(
    sbuf: Seq<i16>,
    shift_saved: i16,
    st: (i32, i32, i32, i32, i32, int),
) -> Option<(i32, i32, i32, i32, i32, int)>
    decreases 20 - st.5,
{
    if !(st.4 != NELLY_DETAIL_BITS && st.5 <= 19) || st.5 < 0 {
        Some(st)
    } else {
        let sum = st.0 + st.2;
        if sum < i32::MIN || sum > i32::MAX {
            None
        } else {
            let off = (sum as i32) >> 1i32;
            let nb = bits_at(sbuf, shift_saved, off);
            let st2 = if nb > NELLY_DETAIL_BITS {
                (off, nb, st.2, st.3, nb, st.5 + 1)
            } else {
                (st.0, st.1, off, nb, nb, st.5 + 1)
            };
            bisect(sbuf, shift_saved, st2)
        }
    }
}

/// The magnitude of an integer.
pub open spec fn abs_int(v: int) -> int {
    if v < 0 { -v } else { v }
}

/// The offset the bit allocation settles on, and the bits it allots: the
/// first offset where that hits the budget; else a sweep in steps until the
/// bits cross the budget, then a bisection, and whichever of the two ends
/// comes closer to the budget (the lower on a tie). `None` where the
/// arithmetic overflows.
pub open spec fn settled_offset(sbuf: Seq<i16>, shift_saved: i16) -> Option<(i32, i32)> {
    let so = first_offset(sbuf, shift_saved);
    let b = bits_at(sbuf, shift_saved, so);
    if b == NELLY_DETAIL_BITS {
        Some((so, b))
    } else {
        match sweep(sbuf, shift_saved, search_step(b, shift_saved), 1, (so, so, b, b, 0)) {
            None => None,
            Some(st) => {
                let start = if st.2 > NELLY_DETAIL_BITS {
                    (st.0, st.2, st.1, st.3, st.2, st.4)
                } else {
                    (st.1, st.3, st.0, st.2, st.2, st.4)
                };
                match bisect(sbuf, shift_saved, start) {
                    None => None,
                    Some(e) => if abs_int(e.1 - NELLY_DETAIL_BITS) >= abs_int(e.3 - NELLY_DETAIL_BITS) {
                        Some((e.2, e.3))
                    } else {
                        Some((e.0, e.1))
                    },
                }
            },
        }
    }
}

/// The bits each coefficient is allotted: those at the settled offset,
/// cut down to the budget where they exceed it; `None` where the decoder's
/// arithmetic overflows or the cut runs past the coefficients.
pub open spec fn allocation(sbuf: Seq<i16>, shift_saved: i16) -> Option<Seq<i32>> {
    match settled_offset(sbuf, shift_saved) {
        None => None,
        Some((off, bitsum)) => {
            if exists|i: int| 0 <= i < NELLY_FILL_LEN && !(i32::MIN <= #[trigger] sbuf[i] - off <= i32::MAX) {
                None
            } else {
                let b = allotted(sbuf, shift_saved, off);
                if bitsum > NELLY_DETAIL_BITS {
                    if total(b, NELLY_FILL_LEN as int) < NELLY_DETAIL_BITS {
                        None
                    } else {
                        Some(Seq::new(NELLY_BUF_LEN as nat, |k: int| if k < NELLY_FILL_LEN { kept_bits(b, k) as i32 } else { b[k] }))
                    }
                } else {
                    Some(b)
                }
            }
        },
    }
}

fn abs_i32(v: i32) -> (r: i32)
    requires
        v != i32::MIN,
    ensures
        r == abs_int(v as int),
{
    if v < 0 { -v } else { v }
}

spec fn two_pow(n: nat) -> int
    decreases n,
{
    if n == 0 { 1 } else { 2 * two_pow((n - 1) as nat) }
}

/// Doubles the miss until it passes 15 bits, and scales it into the step.
fn search_step_exec(bitsum: i32, shift_saved: i16) -> (r: i32)
    requires
        0 <= bitsum <= 744,
        bitsum != NELLY_DETAIL_BITS,
        7 <= shift_saved <= 26,
    ensures
        r == search_step(bitsum, shift_saved),
        -0x2200_0000 <= r <= 0x2200_0000,
{
    let mut off = bitsum - NELLY_DETAIL_BITS;
    let mut shift: i16 = 0;
    let ghost off0 = off as int;
    let ghost mut p: int = 1;
    while -16383 <= off && off <= 16383
        invariant
            0 <= shift <= 14,
            1 <= abs_int(off0) <= 546,
            p == two_pow(shift as nat),
            abs_int(off as int) == abs_int(off0) * p,
            (off as int) == off0 * p,
            grown(off as int, (15 - shift) as nat).0 == grown(off0, 15).0,
            grown(off as int, (15 - shift) as nat).1 + shift == grown(off0, 15).1,
            off0 == bitsum - NELLY_DETAIL_BITS,
            abs_int(off as int) <= 32766,
        decreases 15 - shift,
    {
        proof {
            reveal_with_fuel(two_pow, 16);
            if shift >= 14 {
                assert(p == 16384);
                assert(abs_int(off as int) >= 16384) by (nonlinear_arith)
                    requires
                        abs_int(off as int) == abs_int(off0) * p,
                        abs_int(off0) >= 1,
                        p == 16384,
                ;
            }
            assert((off as int) * 2 == off0 * (p * 2)) by (nonlinear_arith)
                requires
                    (off as int) == off0 * p,
            ;
            assert(abs_int(off0) * (p * 2) == abs_int(off as int) * 2) by (nonlinear_arith)
                requires
                    abs_int(off as int) == abs_int(off0) * p,
            ;
            assert(abs_int(off as int * 2) == 2 * abs_int(off as int));
            assert(abs_int(off as int) >= 1) by (nonlinear_arith)
                requires
                    abs_int(off as int) == abs_int(off0) * p,
                    abs_int(off0) >= 1,
                    p >= 1,
            ;
        }
        off = off * 2;
        shift = shift + 1;
        proof {
            p = p * 2;
        }
    }
    proof {
        reveal_with_fuel(two_pow, 16);
        if shift < 5 {
            assert(p <= 16);
            assert(abs_int(off as int) <= 546 * 16) by (nonlinear_arith)
                requires
                    abs_int(off as int) == abs_int(off0) * p,
                    abs_int(off0) <= 546,
                    p <= 16,
                    p >= 1,
            ;
        }
        assert(abs_int(off as int) <= 546 * 16384) by (nonlinear_arith)
            requires
                abs_int(off as int) == abs_int(off0) * p,
                abs_int(off0) <= 546,
                p <= 16384,
                p >= 1,
        ;
    }
    let ghost g = grown(bitsum - NELLY_DETAIL_BITS, 15);
    assert(g == (off as int, shift as int)) by {
        assert(grown(off as int, (15 - shift) as nat) == (off as int, 0int));
    }
    assert(shift >= 5);
    let ghost o2 = off;
    off = (off * NELLY_BASE_OFF) >> 15;
    let ghost o3 = off;
    proof {
        lemma_scaling_ranges();
    }
    assert(-4228 <= o3 <= 4228);
    let s2: i16 = shift_saved - (NELLY_BASE_SHIFT + shift - 15);
    let r = signed_shift(off, s2 as i32);
    proof {
        if s2 > 0 {
            let su = s2 as u32;
            assert(r == o3 << su);
            assert(-0x2200_0000 <= o3 << su <= 0x2200_0000);
        } else {
            let su = (-s2) as u32;
            assert(r == o3 >> su);
            assert(-4228 <= o3 >> su <= 4228);
        }
    }
    r
}

/// Finds the offset at which the coefficients' bits come closest to the
/// budget, and the bits allotted there; `None` where the offsets overflow.
fn search_offset(sbuf: &[i16; NELLY_BUF_LEN], shift_saved: i16) -> (r: Option<(i32, i32)>)
    requires
        scaled_ok(sbuf@),
        7 <= shift_saved <= 26,
    ensures
        r == settled_offset(sbuf@, shift_saved),
        r matches Some(v) ==> v.1 == bits_at(sbuf@, shift_saved, v.0) && 0 <= v.1 <= 744,
{
    let mut small_off = first_offset_exec(sbuf, shift_saved);
    let mut bitsum = sum_bits(*sbuf, shift_saved, small_off as i16);
    if bitsum != NELLY_DETAIL_BITS {
        let mut off = search_step_exec(bitsum, shift_saved);
        let step = off;
        let mut last_off = small_off;
        let mut last_bitsum = bitsum;
        let mut last_j: i32 = 0;
        let ghost init = (small_off, small_off, bitsum, bitsum, 0int);
        let ghost swept = sweep(sbuf@, shift_saved, step, 1, init);
        let mut j: i32 = 1;
        while j < 20
            invariant_except_break
                1 <= j <= 20,
                sweep(sbuf@, shift_saved, step, j as int, (small_off, last_off, bitsum, last_bitsum, last_j as int)) == swept,
            invariant
                7 <= shift_saved <= 26,
                swept == sweep(sbuf@, shift_saved, step, 1, init),
                swept is None ==> settled_offset(sbuf@, shift_saved) is None,
                0 <= bitsum <= 744,
                0 <= last_bitsum <= 744,
                0 <= last_j < 20,
                bitsum == bits_at(sbuf@, shift_saved, small_off),
                last_bitsum == bits_at(sbuf@, shift_saved, last_off),
            ensures
                swept == Some((small_off, last_off, bitsum, last_bitsum, last_j as int)),
            decreases 20 - j,
        {
            let ghost st = (small_off, last_off, bitsum, last_bitsum, last_j as int);
            last_off = small_off;
            small_off = match small_off.checked_add(step) {
                Some(v) => v,
                None => {
                    assert(sweep(sbuf@, shift_saved, step, j as int, st) is None);
                    return None;
                },
            };
            last_bitsum = bitsum;
            last_j = j;
            bitsum = sum_bits(*sbuf, shift_saved, small_off as i16);
            assert(-600000 <= (bitsum - NELLY_DETAIL_BITS) * (last_bitsum - NELLY_DETAIL_BITS) <= 600000)
                by (nonlinear_arith)
                requires
                    0 <= bitsum <= 744,
                    0 <= last_bitsum <= 744,
            ;
            if (bitsum - NELLY_DETAIL_BITS) * (last_bitsum - NELLY_DETAIL_BITS) <= 0 {
                break;
            }
            j = j + 1;
        }
        let mut big_off;
        let mut big_bitsum;
        let mut small_bitsum;
        if bitsum > NELLY_DETAIL_BITS {
            big_off = small_off;
            small_off = last_off;
            big_bitsum = bitsum;
            small_bitsum = last_bitsum;
        } else {
            big_off = last_off;
            big_bitsum = last_bitsum;
            small_bitsum = bitsum;
        }
        let ghost start = (big_off, big_bitsum, small_off, small_bitsum, bitsum, last_j as int);
        let ghost ended = bisect(sbuf@, shift_saved, start);

        while bitsum != NELLY_DETAIL_BITS && last_j <= 19
            invariant
                7 <= shift_saved <= 26,
                bisect(sbuf@, shift_saved, (big_off, big_bitsum, small_off, small_bitsum, bitsum, last_j as int)) == ended,
                ended is None ==> settled_offset(sbuf@, shift_saved) is None,
                0 <= last_j <= 20,
                0 <= bitsum <= 744,
                0 <= big_bitsum <= 744,
                0 <= small_bitsum <= 744,
                big_bitsum == bits_at(sbuf@, shift_saved, big_off),
                small_bitsum == bits_at(sbuf@, shift_saved, small_off),
            decreases 20 - last_j,
        {
            let ghost st = (big_off, big_bitsum, small_off, small_bitsum, bitsum, last_j as int);
            off = match big_off.checked_add(small_off) {
                Some(v) => v >> 1,
                None => {
                    assert(bisect(sbuf@, shift_saved, st) is None);
                    return None;
                },
            };
            bitsum = sum_bits(*sbuf, shift_saved, off as i16);
            if bitsum > NELLY_DETAIL_BITS {
                big_off = off;
                big_bitsum = bitsum;
            } else {
                small_off = off;
                small_bitsum = bitsum;
            }
            last_j = last_j + 1;
        }
        if abs_i32(big_bitsum - NELLY_DETAIL_BITS) >= abs_i32(small_bitsum - NELLY_DETAIL_BITS) {
            bitsum = small_bitsum;
        } else {
            small_off = big_off;
            bitsum = big_bitsum;
        }
    }
    Some((small_off, bitsum))
}

/// Allots each coefficient its bits: the offset is searched for at which
/// the bits come closest to the budget, each coefficient gets its bits at
/// that offset, and where they exceed the budget they are cut down to it.
/// `None` where the arithmetic of the search overflows, or the bits to cut
/// run short of the budget.
pub fn allocate_bits(sbuf: &[i16; NELLY_BUF_LEN], shift_saved: i16) -> (r: Option<[i32; NELLY_BUF_LEN]>)
    requires
        scaled_ok(sbuf@),
        7 <= shift_saved <= 26,
    ensures
        r is None <==> allocation(sbuf@, shift_saved) is None,
        r matches Some(b) ==> {
            &&& allocation(sbuf@, shift_saved) == Some(b@)
            &&& forall|i: int| 0 <= i < NELLY_BUF_LEN ==> 0 <= #[trigger] b[i] <= NELLY_BIT_CAP
            &&& ({
                let (off, bitsum) = settled_offset(sbuf@, shift_saved)->0;
                bitsum > NELLY_DETAIL_BITS || (i16::MIN <= off <= i16::MAX)
            }) ==> total(b@, NELLY_FILL_LEN as int) <= NELLY_DETAIL_BITS
        },
{
    let (small_off, bitsum) = match search_offset(sbuf, shift_saved) {
        Some(v) => v,
        None => return None,
    };
    let mut i: usize = 0;
    while i < NELLY_FILL_LEN
        invariant
            i <= NELLY_FILL_LEN,
            settled_offset(sbuf@, shift_saved) == Some((small_off, bitsum)),
            forall|k: int| 0 <= k < i ==> i32::MIN <= #[trigger] sbuf[k] - small_off <= i32::MAX,
        decreases NELLY_FILL_LEN - i,
    {
        if (sbuf[i] as i32).checked_sub(small_off).is_none() {
            assert(!(i32::MIN <= sbuf[i as int] - small_off <= i32::MAX));
            return None;
        }
        i = i + 1;
    }
    let mut bits = allot_bits(sbuf, shift_saved, small_off);
    if bitsum > NELLY_DETAIL_BITS {
        let mut sum: i32 = 0;
        let mut k: usize = 0;
        while k < NELLY_FILL_LEN
            invariant
                k <= NELLY_FILL_LEN,
                forall|m: int| 0 <= m < NELLY_BUF_LEN ==> 0 <= #[trigger] bits[m] <= NELLY_BIT_CAP,
                sum == total(bits@, k as int),
                0 <= sum <= 6 * k,
            decreases NELLY_FILL_LEN - k,
        {
            sum = sum + bits[k];
            k = k + 1;
        }
        if sum < NELLY_DETAIL_BITS {
            return None;
        }
        trim_bits(&mut bits);
        assert(bits@ =~= allocation(sbuf@, shift_saved)->0);
    } else {
        proof {
            lemma_bits_total_bound(sbuf@, shift_saved, small_off as i16, NELLY_FILL_LEN as nat);
            if i16::MIN <= small_off <= i16::MAX {
                assert(total(bits@, NELLY_FILL_LEN as int) == bitsum);
            }
        }
    }
    Some(bits)
}

/// The largest of the first `n` exponents, and 0 if it is larger.
pub open spec fn max_exponent(buf: Seq<i32>, n: int) -> i32
    decreases n,
{
    if n <= 0 {
        0
    } else {
        let m = max_exponent(buf, n - 1);
        if buf[n - 1] > m { buf[n - 1] } else { m }
    }
}

/// The shift that brings the largest exponent to 15 bits.
pub open spec fn exponent_shift(buf: Seq<i32>) -> int {
    head_shift(max_exponent(buf, NELLY_BUF_LEN as int)) - 16
}

/// Exponent `v` scaled by `2^shift` into an `i16`, then by three quarters.
pub open spec fn scaled_exponent(v: i32, shift: int) -> i16 {
    (((3 * (shifted(v, shift as i32) as i16)) as i32) >> 2i32) as i16
}

proof fn lemma_max_exponent_bound(buf: Seq<i32>, n: int)
    requires
        0 <= n <= buf.len(),
        forall|i: int| 0 <= i < buf.len() ==> #[trigger] buf[i] <= 316805,
    ensures
        0 <= max_exponent(buf, n) <= 316805,
    decreases n,
{
    if n > 0 {
        lemma_max_exponent_bound(buf, n - 1);
    }
}

/// Scales the exponents so that the largest takes 15 bits, and takes three
/// quarters of each of those that carry data; also gives the shift that the
/// bit allocation scales back by (the scaling shift plus 11).
pub fn scale_exponents(buf: &[i32; NELLY_BUF_LEN]) -> (r: ([i16; NELLY_BUF_LEN], i16))
    requires
        forall|i: int| 0 <= i < NELLY_BUF_LEN ==> #[trigger] buf[i] <= 316805,
    ensures
        scaled_ok(r.0@),
        forall|i: int| 0 <= i < NELLY_FILL_LEN ==> #[trigger] r.0[i] == scaled_exponent(buf[i], exponent_shift(buf@)),
        forall|i: int| NELLY_FILL_LEN <= i < NELLY_BUF_LEN ==> #[trigger] r.0[i] == 0,
        r.1 == exponent_shift(buf@) + 11,
        7 <= r.1 <= 26,
{
    let mut max: i32 = 0;
    let mut i: usize = 0;
    while i < NELLY_BUF_LEN
        invariant
            i <= NELLY_BUF_LEN,
            max == max_exponent(buf@, i as int),
        decreases NELLY_BUF_LEN - i,
    {
        if buf[i] > max {
            max = buf[i];
        }
        i = i + 1;
    }
    proof {
        lemma_max_exponent_bound(buf@, NELLY_BUF_LEN as int);
    }
    let ghost m = max;
    let h = headroom(&mut max);
    proof {
        if m != 0 {
            vstd::std_specs::bits::axiom_u32_leading_zeros(m as u32);
            assert((m as u32) >> 19u32 == 0u32) by (bit_vector)
                requires (m as u32) <= 316805u32;
            assert(u32_leading_zeros(m as u32) >= 13) by {
                let lz = u32_leading_zeros(m as u32);
                if lz < 13 {
                    let b = (31 - lz) as u32;
                    assert(((m as u32) >> b) & 1u32 != 0u32);
                    assert((m as u32) >> b == 0u32) by (bit_vector)
                        requires
                            (m as u32) >> 19u32 == 0u32,
                            19u32 <= b < 32u32,
                    ;
                    assert(0u32 & 1u32 == 0u32) by (bit_vector);
                }
            }
        }
    }
    let shift: i16 = h as i16 - 16;
    let mut sbuf = [0i16; NELLY_BUF_LEN];
    let mut i: usize = 0;
    while i < NELLY_FILL_LEN
        invariant
            i <= NELLY_FILL_LEN,
            -4 <= shift <= 15,
            shift == exponent_shift(buf@),
            forall|k: int| 0 <= k < i ==> #[trigger] sbuf[k] == scaled_exponent(buf[k], shift as int),
            forall|k: int| i <= k < NELLY_BUF_LEN ==> #[trigger] sbuf[k] == 0,
            forall|k: int| 0 <= k < NELLY_BUF_LEN ==> -24576 <= #[trigger] sbuf[k] <= 24575,
        decreases NELLY_FILL_LEN - i,
    {
        let v = signed_shift(buf[i], shift as i32) as i16;
        let q: i16 = ((3 * v as i32) >> 2) as i16;
        let ghost vv = v;
        let ghost t: i32 = (3 * vv as i32) as i32;
        proof {
            lemma_scaling_ranges();
        }
        assert(-24576 <= (t >> 2i32) <= 24575);
        sbuf[i] = q;
        i = i + 1;
    }
    (sbuf, shift + 11)
}

/// The magnitude of `v`.
pub open spec fn magnitude(v: i32) -> int {
    if v < 0 {
        -v
    } else {
        v as int
    }
}

/// Scales `la` up by the largest power of two that keeps it within an
/// `i32` with a bit to spare, and returns that power's exponent (31 for
/// zero, which stays zero).
pub fn headroom(la: &mut i32) -> (r: i32)
    requires
        *old(la) != i32::MIN,
    ensures
        *old(la) == 0 ==> r == 31 && *final(la) == 0,
        *old(la) != 0 ==> {
            &&& r == u32_leading_zeros(magnitude(*old(la)) as u32) - 1
            &&& 0 <= r <= 30
            &&& *final(la) == *old(la) * pow2(r as nat)
            &&& 0x4000_0000 <= magnitude(*final(la)) < 0x8000_0000
        },
{
    if *la == 0 {
        return 31;
    }

    let a: u32 = if *la < 0 { (-*la) as u32 } else { *la as u32 };
    let lz = a.leading_zeros();
    proof {
        vstd::std_specs::bits::axiom_u32_leading_zeros(a);
        lemma_normalize(a, lz);
    }
    let l = lz as i32 - 1;
    let scale = (1u32 << (l as u32)) as i32;
    proof {
        vstd::arithmetic::power2::lemma_pow2_strictly_increases(l as nat, 31);
        vstd::arithmetic::power2::lemma2_to64();
        vstd::bits::lemma_u32_shl_is_mul(1u32, l as u32);
        assert(magnitude(*la) * pow2(l as nat) < 0x8000_0000);
        assert(*la * pow2(l as nat) == if *la < 0 { -(magnitude(*la) * pow2(l as nat)) } else {
            magnitude(*la) * pow2(l as nat)
        }) by (nonlinear_arith);
    }
    *la = *la * scale;
    l
}

/// A non-zero value below `2^31` with `lz` leading zeros lies in
/// `2^(31 - lz) .. 2^(32 - lz)`, so scaling it by `2^(lz - 1)` brings it
/// into `2^30 .. 2^31`.
proof fn lemma_normalize(a: u32, lz: u32)
    requires
        0 < a < 0x8000_0000,
        lz == u32_leading_zeros(a),
    ensures
        1 <= lz <= 31,
        pow2((31 - lz) as nat) <= a < pow2((32 - lz) as nat),
        0x4000_0000 <= a * pow2((lz - 1) as nat) < 0x8000_0000,
{
    vstd::arithmetic::power2::lemma2_to64();
    vstd::std_specs::bits::axiom_u32_leading_zeros(a);
    assert(a >> 31u32 == 0u32) by (bit_vector)
        requires a < 0x8000_0000u32;
    assert(0u32 & 1u32 == 0u32) by (bit_vector);
    assert(lz != 0);
    let lo = (31 - lz) as u32;
    let hi = (32 - lz) as u32;
    assert((a >> lo) & 1u32 != 0u32);
    assert(a >> hi == 0);
    vstd::bits::lemma_u32_shr_is_div(a, lo);
    vstd::bits::lemma_u32_shr_is_div(a, hi);
    assert((a >> lo) != 0u32) by (bit_vector)
        requires (a >> lo) & 1u32 != 0u32;
    vstd::arithmetic::power2::lemma_pow2_pos(lo as nat);
    vstd::arithmetic::power2::lemma_pow2_pos(hi as nat);
    assert(pow2(lo as nat) <= a) by (nonlinear_arith)
        requires a as nat / pow2(lo as nat) != 0, pow2(lo as nat) > 0;
    assert(a < pow2(hi as nat)) by (nonlinear_arith)
        requires a as nat / pow2(hi as nat) == 0, pow2(hi as nat) > 0;
    vstd::arithmetic::power2::lemma_pow2_adds(lo as nat, (lz - 1) as nat);
    vstd::arithmetic::power2::lemma_pow2_adds(hi as nat, (lz - 1) as nat);
    assert(pow2(lo as nat) * pow2((lz - 1) as nat) <= a * pow2((lz - 1) as nat)) by (nonlinear_arith)
        requires pow2(lo as nat) <= a;
    assert(a * pow2((lz - 1) as nat) < pow2(hi as nat) * pow2((lz - 1) as nat)) by (nonlinear_arith)
        requires a < pow2(hi as nat), pow2((lz - 1) as nat) > 0;
    vstd::arithmetic::power2::lemma_pow2_pos((lz - 1) as nat);
}

} // verus!
