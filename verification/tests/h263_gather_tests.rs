use ruffle::h263_gather::gather;
use ruffle::h263_reader::Error;
use ruffle::h263_state::{DecoderOption, H263State};
use ruffle::h263_types::{DecodedPicture, HalfPel, MacroblockType, MotionVector};

fn reference() -> DecodedPicture {
    let mut luma = Vec::new();
    for row in 0..16u32 {
        for col in 0..16u32 {
            luma.push((col * 3 + row * 11) as u8);
        }
    }
    let mut cb = Vec::new();
    let mut cr = Vec::new();
    for row in 0..8u32 {
        for col in 0..8u32 {
            cb.push((col * 2 + row * 10) as u8);
            cr.push((200 - col - row * 5) as u8);
        }
    }
    DecodedPicture {
        luma,
        chroma_b: cb,
        chroma_r: cr,
        luma_samples_per_row: 16,
        chroma_samples_per_row: 8,
    }
}

fn blank() -> DecodedPicture {
    DecodedPicture {
        luma: vec![0; 256],
        chroma_b: vec![0; 64],
        chroma_r: vec![0; 64],
        luma_samples_per_row: 16,
        chroma_samples_per_row: 8,
    }
}

fn mv(x: i16, y: i16) -> MotionVector {
    MotionVector(HalfPel(x), HalfPel(y))
}

fn at(plane: &[u8], spr: usize, col: i32, row: i32) -> u8 {
    let height = (plane.len() / spr) as i32;
    let c = col.clamp(0, spr as i32 - 1) as usize;
    let r = row.clamp(0, height - 1) as usize;
    plane[c + r * spr]
}

#[test]
fn halfpel_split_rounds_down() {
    assert_eq!(HalfPel(4).into_lerp_parameters(), (2, false));
    assert_eq!(HalfPel(3).into_lerp_parameters(), (1, true));
    assert_eq!(HalfPel(-3).into_lerp_parameters(), (-2, true));
    assert_eq!(HalfPel(-4).into_lerp_parameters(), (-2, false));
    assert_eq!(HalfPel(i16::MIN).into_lerp_parameters(), (-16384, false));
    assert_eq!(HalfPel(i16::MAX).into_lerp_parameters(), (16383, true));
}

#[test]
fn chroma_vector_rounding() {
    let cases = [(0, 0), (2, 0), (3, 1), (13, 1), (14, 2), (16, 2), (19, 3), (-19, -3), (-14, -2), (32, 4)];
    for (sum, expected) in cases {
        assert_eq!(HalfPel(sum).average_sum_of_halfpels(), HalfPel(expected), "sum {}", sum);
    }
    let m = MotionVector(HalfPel(35), HalfPel(-2)).average_sum_of_mvs();
    assert_eq!(m, mv(5, 0));
}

#[test]
fn zero_vectors_copy_the_reference() {
    let r = reference();
    let mut p = blank();
    let result = gather(&[MacroblockType::Inter], Some(&r), &[[mv(0, 0); 4]], 1, &mut p);
    assert_eq!(result, Ok(()));
    assert_eq!(p.luma, r.luma);
    assert_eq!(p.chroma_b, r.chroma_b);
    assert_eq!(p.chroma_r, r.chroma_r);
}

#[test]
fn whole_pixel_vectors_shift_and_clamp() {
    let r = reference();
    let mut p = blank();
    // block 0 right by one pixel, block 3 up by one pixel
    let vectors = [[mv(2, 0), mv(0, 0), mv(0, 0), mv(0, -2)]];
    gather(&[MacroblockType::InterQ], Some(&r), &vectors, 1, &mut p).unwrap();
    for row in 0..16 {
        for col in 0..16 {
            let expected = if col < 8 && row < 8 {
                at(&r.luma, 16, col + 1, row)
            } else if col >= 8 && row >= 8 {
                at(&r.luma, 16, col, row - 1)
            } else {
                at(&r.luma, 16, col, row)
            };
            assert_eq!(p.luma[(col + row * 16) as usize], expected, "at {} {}", col, row);
        }
    }
    // chroma vector: sums (2, -2) give (0, 0)
    assert_eq!(p.chroma_b, r.chroma_b);
}

#[test]
fn half_pixel_vectors_interpolate() {
    let r = reference();
    let mut p = blank();
    let vectors = [[mv(1, 0), mv(0, 1), mv(1, 1), mv(-1, -1)]];
    gather(&[MacroblockType::Inter4V], Some(&r), &vectors, 1, &mut p).unwrap();
    let avg2 = |a: u8, b: u8| ((a as u16 + b as u16 + 1) / 2) as u8;
    let avg4 = |a: u8, b: u8, c: u8, d: u8| ((a as u16 + b as u16 + c as u16 + d as u16 + 2) / 4) as u8;
    for row in 0..16 {
        for col in 0..16 {
            let s = |dc: i32, dr: i32| at(&r.luma, 16, col + dc, row + dr);
            let expected = match (col < 8, row < 8) {
                (true, true) => avg2(s(0, 0), s(1, 0)),
                (false, true) => avg2(s(0, 0), s(0, 1)),
                (true, false) => avg4(s(0, 0), s(1, 0), s(0, 1), s(1, 1)),
                (false, false) => avg4(s(-1, -1), s(0, -1), s(-1, 0), s(0, 0)),
            };
            assert_eq!(p.luma[(col + row * 16) as usize], expected, "at {} {}", col, row);
        }
    }
}

#[test]
fn chroma_follows_the_summed_vector() {
    let r = reference();
    let mut p = blank();
    // luma sums are 32 half pixels across: two chroma pixels right
    let vectors = [[mv(8, 0); 4]];
    gather(&[MacroblockType::Inter4Vq], Some(&r), &vectors, 1, &mut p).unwrap();
    for row in 0..8 {
        for col in 0..8 {
            assert_eq!(p.chroma_b[(col + row * 8) as usize], at(&r.chroma_b, 8, col + 2, row));
            assert_eq!(p.chroma_r[(col + row * 8) as usize], at(&r.chroma_r, 8, col + 2, row));
        }
    }
}

#[test]
fn intra_macroblocks_are_left_alone() {
    let r = reference();
    let mut p = blank();
    let result = gather(&[MacroblockType::Intra, MacroblockType::IntraQ], Some(&r), &[[mv(0, 0); 4]; 2], 1, &mut p);
    assert_eq!(result, Ok(()));
    assert_eq!(p.luma, vec![0; 256]);
}

#[test]
fn inter_without_reference_is_an_error() {
    let mut p = blank();
    let result = gather(&[MacroblockType::Intra, MacroblockType::Inter], None, &[[mv(0, 0); 4]; 2], 1, &mut p);
    assert_eq!(result, Err(Error::UncodedIFrameBlocks));
    assert_eq!(p.luma, vec![0; 256]);
    let ok = gather(&[MacroblockType::Intra], None, &[[mv(0, 0); 4]], 1, &mut p);
    assert_eq!(ok, Ok(()));
}

#[test]
fn macroblocks_beyond_vectors_are_skipped() {
    let r = reference();
    let mut p = blank();
    let result = gather(&[MacroblockType::Intra, MacroblockType::Inter], Some(&r), &[[mv(0, 0); 4]], 1, &mut p);
    assert_eq!(result, Ok(()));
    assert_eq!(p.luma, vec![0; 256]);
}

#[test]
fn second_macroblock_of_a_row() {
    // a 32x16 picture: two macroblocks side by side
    let mut luma = Vec::new();
    for row in 0..16u32 {
        for col in 0..32u32 {
            luma.push((col + row * 7) as u8);
        }
    }
    let r = DecodedPicture {
        luma: luma.clone(),
        chroma_b: vec![1; 128],
        chroma_r: vec![2; 128],
        luma_samples_per_row: 32,
        chroma_samples_per_row: 16,
    };
    let mut p = DecodedPicture {
        luma: vec![0; 512],
        chroma_b: vec![0; 128],
        chroma_r: vec![0; 128],
        luma_samples_per_row: 32,
        chroma_samples_per_row: 16,
    };
    gather(&[MacroblockType::Intra, MacroblockType::Inter], Some(&r), &[[mv(0, 0); 4]; 2], 2, &mut p).unwrap();
    for row in 0..16usize {
        for col in 0..32usize {
            let expected = if col >= 16 { luma[col + row * 32] } else { 0 };
            assert_eq!(p.luma[col + row * 32], expected);
        }
    }
    for row in 0..8usize {
        for col in 0..16usize {
            assert_eq!(p.chroma_b[col + row * 16], if col >= 8 { 1 } else { 0 });
        }
    }
}

#[test]
fn new_state_has_no_picture() {
    let state = H263State::new(DecoderOption { sorenson_spark_bitstream: true, use_scalability_mode: false });
    assert!(state.get_last_picture().is_none());
}
