use ruffle::nellymoser::{headroom, signed_shift, sum_bits, NELLY_BUF_LEN};

#[test]
fn signed_shift_both_ways() {
    assert_eq!(signed_shift(5, 2), 20);
    assert_eq!(signed_shift(20, -2), 5);
    assert_eq!(signed_shift(-7, -1), -4);
    assert_eq!(signed_shift(7, 0), 7);
    assert_eq!(signed_shift(1, 31), i32::MIN);
    assert_eq!(signed_shift(-1, -31), -1);
}

#[test]
fn sum_bits_rounds_and_clamps() {
    let zeros = [0i16; NELLY_BUF_LEN];
    assert_eq!(sum_bits(zeros, 1, 0), 0);
    let tens = [10i16; NELLY_BUF_LEN];
    // ((10 >> 0) + 1) >> 1 = 5 for each of the 124 filled coefficients
    assert_eq!(sum_bits(tens, 1, 0), 124 * 5);
    let big = [100i16; NELLY_BUF_LEN];
    assert_eq!(sum_bits(big, 1, 0), 124 * 6);
    // the offset is taken off first; negative results count as zero
    assert_eq!(sum_bits(tens, 1, 20), 0);
    // ((40 - 8) >> 3 + 1) >> 1 = 2
    let forties = [40i16; NELLY_BUF_LEN];
    assert_eq!(sum_bits(forties, 4, 8), 124 * 2);
}

#[test]
fn sum_bits_ignores_the_last_coefficients() {
    let mut buf = [0i16; NELLY_BUF_LEN];
    for v in buf.iter_mut().skip(124) {
        *v = 1000;
    }
    assert_eq!(sum_bits(buf, 1, 0), 0);
    buf[0] = 9;
    assert_eq!(sum_bits(buf, 1, 0), 5);
}

#[test]
fn headroom_normalizes() {
    let mut zero = 0;
    assert_eq!(headroom(&mut zero), 31);
    assert_eq!(zero, 0);
    let mut one = 1;
    assert_eq!(headroom(&mut one), 30);
    assert_eq!(one, 1 << 30);
    let mut neg = -3;
    assert_eq!(headroom(&mut neg), 29);
    assert_eq!(neg, -3 * (1 << 29));
    let mut top = 0x4000_0000;
    assert_eq!(headroom(&mut top), 0);
    assert_eq!(top, 0x4000_0000);
    let mut max = i32::MAX;
    assert_eq!(headroom(&mut max), 0);
    let mut v = 12345;
    let l = headroom(&mut v);
    assert_eq!(v, 12345 << l);
    assert!(v >= 0x4000_0000);
}


use ruffle::nellymoser::{
    allocate_bits, band_values, coefficient_codes, scale_exponents, NELLY_BANDS, NELLY_DELTA_TABLE,
    NELLY_FILL_LEN, NELLY_INIT_TABLE,
};

const BAND_SIZES: [usize; NELLY_BANDS] = [
    2, 2, 2, 2, 2, 2, 2, 2, 2, 3, 3, 4, 4, 5, 6, 6, 7, 8, 9, 10, 12, 14, 15,
];

/// Bit `i` of the block, least significant first.
fn bit(block: &[u8], i: usize) -> u32 {
    ((block[i / 8] >> (i % 8)) & 1) as u32
}

fn bits_at(block: &[u8], pos: usize, n: usize) -> u32 {
    (0..n).map(|k| bit(block, pos + k) << k).sum()
}

#[test]
fn band_values_of_a_zero_block() {
    let r = band_values(&[0u8; 64]);
    for i in 0..NELLY_BANDS {
        assert_eq!(r[i], 3134 - 11725 * i as i32);
    }
}

#[test]
fn band_values_read_codes_least_significant_bit_first() {
    let mut block = [0u8; 64];
    block[0] = 0b1100_0001; // first code 1, next code starts with bits 1, 1
    block[1] = 0b0000_0001; // ... then 1: second code 0b00111 = 7
    let r = band_values(&block);
    assert_eq!(r[0], NELLY_INIT_TABLE[1] as i32);
    assert_eq!(r[1], NELLY_INIT_TABLE[1] as i32 + NELLY_DELTA_TABLE[7] as i32);
}

#[test]
fn coefficient_codes_follow_the_header() {
    let mut block = [0u8; 64];
    for (i, b) in block.iter_mut().enumerate() {
        *b = (i as u8).wrapping_mul(37).wrapping_add(11);
    }
    let mut bits = [0i32; 128];
    bits[0] = 3;
    bits[2] = 5;
    bits[5] = 1;
    for half in 0..2u32 {
        let codes = coefficient_codes(&block, half, &bits);
        let start = 116 + half as usize * 198;
        assert_eq!(codes[0], bits_at(&block, start, 3));
        assert_eq!(codes[1], 0);
        assert_eq!(codes[2], bits_at(&block, start + 3, 5));
        assert_eq!(codes[5], bits_at(&block, start + 8, 1));
    }
}

fn reference_headroom(la: &mut i32) -> i32 {
    if *la == 0 {
        return 31;
    }
    let l = la.abs().leading_zeros() as i32 - 1;
    *la *= 1 << l;
    l
}

fn reference_shift(i: i32, shift: i32) -> i32 {
    if shift > 0 { i << shift } else { i >> -shift }
}

fn reference_sum_bits(buf: &[i16; 128], shift: i16, off: i16) -> i32 {
    buf[0..124].iter().fold(0i32, |ret, &i| {
        let b = i as i32 - off as i32;
        let b = ((b >> (shift - 1)) + 1) >> 1;
        ret + b.clamp(0, 6)
    })
}

/// The bit allocation written out plainly, with checked additions where
/// the offsets could overflow.
fn reference_bits(values: &[i32; NELLY_BANDS]) -> Option<[i32; 128]> {
    let mut buf = [0i32; 128];
    let mut ptr = 0;
    for i in 0..NELLY_BANDS {
        for _ in 0..BAND_SIZES[i] {
            buf[ptr] = values[i];
            ptr += 1;
        }
    }
    let mut max = buf.iter().fold(0, |a, &b| a.max(b));
    let mut shift = reference_headroom(&mut max) as i16 - 16;
    let mut sbuf = [0i16; 128];
    for i in 0..124 {
        sbuf[i] = reference_shift(buf[i], shift as i32) as i16;
        sbuf[i] = ((3 * sbuf[i] as i32) >> 2) as i16;
    }
    let mut sum: i32 = sbuf.iter().map(|&s| s as i32).sum();
    shift += 11;
    let shift_saved = shift;
    sum -= 198i32 << shift;
    shift += reference_headroom(&mut sum) as i16;
    let mut small_off = (4228 * (sum >> 16)) >> 15;
    shift = shift_saved - (19 + shift - 31);
    small_off = reference_shift(small_off, shift as i32);
    let mut bitsum = reference_sum_bits(&sbuf, shift_saved, small_off as i16);
    if bitsum != 198 {
        let mut off = bitsum - 198;
        shift = 0;
        while off.abs() <= 16383 {
            off *= 2;
            shift += 1;
        }
        off = (off * 4228) >> 15;
        shift = shift_saved - (19 + shift - 15);
        off = reference_shift(off, shift as i32);
        let mut last_off = small_off;
        let mut last_bitsum = bitsum;
        let mut last_j = 0;
        for j in 1..20 {
            last_off = small_off;
            small_off = small_off.checked_add(off)?;
            last_bitsum = bitsum;
            last_j = j;
            bitsum = reference_sum_bits(&sbuf, shift_saved, small_off as i16);
            if (bitsum - 198) * (last_bitsum - 198) <= 0 {
                break;
            }
        }
        let (mut big_off, mut big_bitsum, mut small_bitsum);
        if bitsum > 198 {
            big_off = small_off;
            small_off = last_off;
            big_bitsum = bitsum;
            small_bitsum = last_bitsum;
        } else {
            big_off = last_off;
            big_bitsum = last_bitsum;
            small_bitsum = bitsum;
        }
        while bitsum != 198 && last_j <= 19 {
            off = big_off.checked_add(small_off)? >> 1;
            bitsum = reference_sum_bits(&sbuf, shift_saved, off as i16);
            if bitsum > 198 {
                big_off = off;
                big_bitsum = bitsum;
            } else {
                small_off = off;
                small_bitsum = bitsum;
            }
            last_j += 1;
        }
        if (big_bitsum - 198).abs() >= (small_bitsum - 198).abs() {
            bitsum = small_bitsum;
        } else {
            small_off = big_off;
            bitsum = big_bitsum;
        }
    }
    let mut bits = [0i32; 128];
    for i in 0..124 {
        let tmp = (sbuf[i] as i32).checked_sub(small_off)?;
        let tmp = ((tmp >> (shift_saved - 1)) + 1) >> 1;
        bits[i] = tmp.clamp(0, 6);
    }
    if bitsum > 198 {
        let mut i = 0;
        let mut tmp = 0;
        while tmp < 198 {
            if i >= 124 {
                return None;
            }
            tmp += bits[i];
            i += 1;
        }
        bits[i - 1] -= tmp - 198;
        while i < 124 {
            bits[i] = 0;
            i += 1;
        }
    }
    Some(bits)
}

fn allocate(values: &[i32; NELLY_BANDS]) -> Option<[i32; 128]> {
    let mut exponents = [0i32; 128];
    let mut ptr = 0;
    for i in 0..NELLY_BANDS {
        for _ in 0..BAND_SIZES[i] {
            exponents[ptr] = values[i];
            ptr += 1;
        }
    }
    let (sbuf, shift_saved) = scale_exponents(&exponents);
    allocate_bits(&sbuf, shift_saved)
}

#[test]
fn bit_allocation_matches_the_plain_algorithm() {
    let mut seed: u64 = 0x1234_5678;
    let mut allotted = 0;
    for round in 0..3000 {
        let mut block = [0u8; 64];
        for b in block.iter_mut() {
            seed = seed.wrapping_mul(6364136223846793005).wrapping_add(1442695040888963407);
            *b = (seed >> 33) as u8;
        }
        if round % 3 == 0 {
            // also blocks whose exponents fall steeply
            block[0] = 0x3F;
            for b in block[1..15].iter_mut() {
                *b &= 0x21;
            }
        }
        let values = band_values(&block);
        let expected = reference_bits(&values);
        let got = allocate(&values);
        assert_eq!(got, expected);
        if let Some(bits) = got {
            allotted += 1;
            assert!(bits.iter().all(|&b| (0..=6).contains(&b)));
        }
    }
    assert!(allotted > 0);
}

#[test]
fn a_flat_spectrum_uses_the_whole_budget_at_most() {
    let values = [20000i32; NELLY_BANDS];
    let bits = allocate(&values).unwrap();
    let total: i32 = bits[..NELLY_FILL_LEN].iter().sum();
    assert!(total <= 198);
    assert!(total >= 150);
    assert!(bits[124..].iter().all(|&b| b == 0));
}
