use ruffle::h263_picture::{
    decode_cpcfc, decode_cpfmt, decode_cpm_and_psbi, decode_picture, decode_plusptype, decode_ptype,
};
use ruffle::h263_reader::{Error, H263Reader};
use ruffle::h263_types::{
    CustomPictureFormat, PictureOption, PictureTypeCode, PixelAspectRatio, SourceFormat,
};

/// Packs a string of `0` and `1` (other characters ignored) into bytes,
/// most significant bit first, padding the last byte with zeros.
fn bits(s: &str) -> Vec<u8> {
    let mut out = Vec::new();
    let mut n = 0;
    for c in s.chars().filter(|c| *c == '0' || *c == '1') {
        if n % 8 == 0 {
            out.push(0);
        }
        if c == '1' {
            let last = out.len() - 1;
            out[last] |= 0x80 >> (n % 8);
        }
        n += 1;
    }
    out
}

fn reader(s: &str) -> H263Reader {
    H263Reader::new(bits(s))
}

#[test]
fn read_bits_msb_first() {
    let mut r = H263Reader::new(vec![0b1011_0010, 0xFF]);
    assert_eq!(r.read_bits(3), Ok(0b101));
    assert_eq!(r.read_bits(5), Ok(0b10010));
    assert_eq!(r.bit_position(), 8);
    assert_eq!(r.read_u8(), Ok(0xFF));
    assert_eq!(r.read_bits(1), Err(Error::EndOfFile));
    assert_eq!(r.bit_position(), 16);
}

#[test]
fn read_bits_at_end_reads_nothing() {
    let mut r = H263Reader::new(vec![0xAB]);
    assert_eq!(r.read_bits(4), Ok(0xA));
    assert_eq!(r.read_bits(5), Err(Error::EndOfFile));
    assert_eq!(r.bit_position(), 4);
    assert_eq!(r.read_bits(4), Ok(0xB));
    assert_eq!(r.read_bits(0), Ok(0));
}

#[test]
fn read_32_bits() {
    let mut r = H263Reader::new(vec![0xDE, 0xAD, 0xBE, 0xEF]);
    assert_eq!(r.read_bits(32), Ok(0xDEADBEEF));
}

#[test]
fn skip_to_alignment_rounds_up() {
    let mut r = H263Reader::new(vec![0, 0, 0]);
    r.skip_to_alignment();
    assert_eq!(r.bit_position(), 0);
    r.set_bit_position(3);
    r.skip_to_alignment();
    assert_eq!(r.bit_position(), 8);
    r.set_bit_position(24);
    r.skip_to_alignment();
    assert_eq!(r.bit_position(), 24);
}

#[test]
fn ptype_with_format_and_type() {
    // 10 | split 1, camera 0, freeze 1 | QCIF 010 | I 1, UMV 0, SAC 1, AP 1, PB 0
    let mut r = reader("10 1 0 1 010  1 0 1 1 0");
    let (options, rest) = decode_ptype(&mut r).expect("valid PTYPE");
    assert!(options.use_split_screen);
    assert!(!options.use_document_camera);
    assert!(options.release_full_picture_freeze);
    assert!(!options.unrestricted_motion_vectors);
    assert!(options.syntax_based_arithmetic_coding);
    assert!(options.advanced_prediction);
    assert!(!options.deblocking_filter);
    assert_eq!(rest, Some((SourceFormat::QuarterCIF, PictureTypeCode::IFrame)));
    assert_eq!(r.bit_position(), 13);
}

#[test]
fn ptype_pb_frame_wins() {
    let mut r = reader("10 000 001  1 0 0 0 1");
    let (_, rest) = decode_ptype(&mut r).unwrap();
    assert_eq!(rest, Some((SourceFormat::SubQCIF, PictureTypeCode::PBFrame)));
}

#[test]
fn ptype_extended_leaves_plusptype() {
    let mut r = reader("10 0 1 0 111  11111");
    let (options, rest) = decode_ptype(&mut r).unwrap();
    assert!(options.use_document_camera);
    assert_eq!(rest, None);
    assert_eq!(r.bit_position(), 8);
}

#[test]
fn ptype_errors_rewind() {
    let mut bad_marker = reader("11 000 001  00000");
    assert_eq!(decode_ptype(&mut bad_marker), Err(Error::InvalidBitstream));
    assert_eq!(bad_marker.bit_position(), 0);
    let mut bad_format = reader("10 000 000  00000");
    assert_eq!(decode_ptype(&mut bad_format), Err(Error::InvalidBitstream));
    let mut short = reader("10 000 011");
    assert_eq!(decode_ptype(&mut short), Err(Error::EndOfFile));
    assert_eq!(short.bit_position(), 0);
    let mut reserved = reader("10 000 110  00000");
    assert_eq!(decode_ptype(&mut reserved).unwrap().1, Some((SourceFormat::Reserved, PictureTypeCode::PFrame)));
}

#[test]
fn plusptype_with_opptype() {
    // UFEP 001; OPPTYPE: custom format 110, clock 1, UMV 1, SAC 0, AP 0, AIC 0,
    // DF 1, SS 0, RPS 0, ISD 0, AIV 0, MQ 0, 1000; MPPTYPE: P 001, RPR 0,
    // RRU 1, RTYPE 1, 001
    let mut r = reader("001  110 1 1 0 0 0 1 0 0 0 0 0 1000  001 0 1 1 001");
    let (options, format, picture_type, followers) = decode_plusptype(&mut r).expect("valid");
    assert!(options.unrestricted_motion_vectors);
    assert!(options.deblocking_filter);
    assert!(options.reduced_resolution_update);
    assert!(options.rounding_type_one);
    assert!(!options.syntax_based_arithmetic_coding);
    assert!(!options.reference_picture_resampling);
    assert_eq!(format, None);
    assert_eq!(picture_type, PictureTypeCode::PFrame);
    assert!(followers.has_custom_format);
    assert!(followers.has_custom_clock);
    assert_eq!(r.bit_position(), 30);
}

#[test]
fn plusptype_without_opptype() {
    let mut r = reader("000  111 1 0 0 001");
    let (options, format, picture_type, followers) = decode_plusptype(&mut r).unwrap();
    assert!(options.reference_picture_resampling);
    assert!(!options.rounding_type_one);
    assert_eq!(format, None);
    assert_eq!(picture_type, PictureTypeCode::Reserved(7));
    assert!(!followers.has_custom_format && !followers.has_custom_clock);
    assert_eq!(r.bit_position(), 12);
}

#[test]
fn plusptype_formats_from_opptype() {
    let mut r = reader("001  011 0 0 0 0 0 0 0 0 0 0 0 1000  000 0 0 0 001");
    let (_, format, picture_type, _) = decode_plusptype(&mut r).unwrap();
    assert_eq!(format, Some(SourceFormat::FullCIF));
    assert_eq!(picture_type, PictureTypeCode::IFrame);
}

#[test]
fn plusptype_errors_rewind() {
    let mut ufep = reader("010 000000000");
    assert_eq!(decode_plusptype(&mut ufep), Err(Error::InvalidBitstream));
    assert_eq!(ufep.bit_position(), 0);
    let mut opp_tail = reader("001  000 0 0 0 0 0 0 0 0 0 0 0 1001  000 0 0 0 001");
    assert_eq!(decode_plusptype(&mut opp_tail), Err(Error::InvalidBitstream));
    assert_eq!(opp_tail.bit_position(), 0);
    let mut mpp_tail = reader("000  000 0 0 0 011");
    assert_eq!(decode_plusptype(&mut mpp_tail), Err(Error::InvalidBitstream));
    assert_eq!(mpp_tail.bit_position(), 0);
    let mut short = H263Reader::new(vec![0b0000_0000]);
    assert_eq!(decode_plusptype(&mut short), Err(Error::EndOfFile));
    assert_eq!(short.bit_position(), 0);
}

#[test]
fn cpm_and_psbi() {
    let mut with = reader("1 10");
    assert_eq!(decode_cpm_and_psbi(&mut with), Ok(Some(2)));
    assert_eq!(with.bit_position(), 3);
    let mut without = reader("0");
    assert_eq!(decode_cpm_and_psbi(&mut without), Ok(None));
    assert_eq!(without.bit_position(), 1);
}

#[test]
fn cpfmt_standard_ratio() {
    // PAR 0010, width indication 000001011, marker 1, unused 0, height 00001001
    let mut r = reader("0010 000001011 1 0 00001001");
    let f = decode_cpfmt(&mut r).unwrap();
    assert_eq!(f.pixel_aspect_ratio, PixelAspectRatio::Par12_11);
    assert_eq!(f.picture_width_indication, 11);
    assert_eq!(f.picture_height_indication, 9);
    assert_eq!(r.bit_position(), 23);
}

#[test]
fn cpfmt_extended_and_reserved_ratios() {
    let mut ext = reader("1111 000000001 1 0 00000001  00000101 00000111");
    let f = decode_cpfmt(&mut ext).unwrap();
    assert_eq!(f.pixel_aspect_ratio, PixelAspectRatio::Extended { par_width: 5, par_height: 7 });
    assert_eq!(ext.bit_position(), 39);
    let mut zero = reader("1111 000000001 1 0 00000001  00000000 00000111");
    assert_eq!(decode_cpfmt(&mut zero), Err(Error::InvalidBitstream));
    assert_eq!(zero.bit_position(), 0);
    let mut reserved = reader("0110 000000001 1 0 00000001");
    assert_eq!(decode_cpfmt(&mut reserved).unwrap().pixel_aspect_ratio, PixelAspectRatio::Reserved(6));
    let mut no_marker = reader("0001 000000001 0 0 00000001");
    assert_eq!(decode_cpfmt(&mut no_marker), Err(Error::InvalidBitstream));
    let mut forbidden = reader("0000 000000001 1 0 00000001");
    assert_eq!(decode_cpfmt(&mut forbidden), Err(Error::InvalidBitstream));
}

#[test]
fn cpfmt_width_indication_keeps_low_byte() {
    // width indication 100000011 does not fit a byte: its low 8 bits remain
    let mut r = reader("0001 100000011 1 0 00000001");
    assert_eq!(decode_cpfmt(&mut r).unwrap().picture_width_indication, 0b0000_0011);
}

#[test]
fn cpcfc_clock() {
    let mut r = H263Reader::new(vec![0x85]);
    let c = decode_cpcfc(&mut r).unwrap();
    assert!(c.times_1001);
    assert_eq!(c.divisor, 5);
    let mut empty = H263Reader::new(vec![]);
    assert_eq!(decode_cpcfc(&mut empty), Err(Error::EndOfFile));
}

const PSC: &str = "0000000000000000 100000";

#[test]
fn picture_header_is_read() {
    let stream = format!("{} 00000101 10 000 010 1 0 0 0 0", PSC);
    let mut r = reader(&stream);
    let p = decode_picture(&mut r).unwrap().unwrap();
    assert_eq!(p.temporal_reference, 5);
    assert_eq!(p.format, Some(SourceFormat::QuarterCIF));
    assert_eq!(p.picture_type, PictureTypeCode::IFrame);
    assert_eq!(p.options, PictureOption::empty());
    assert!(!p.has_plusptype);
    assert!(!p.has_opptype);
    assert_eq!(p.multiplex_bitstream, None);
    assert_eq!(p.picture_clock, None);
    assert_eq!(r.bit_position(), 22 + 8 + 8 + 5);
}

#[test]
fn picture_without_start_code_is_none() {
    let mut r = reader("0000000000000000 100001 00000000 00000000");
    assert_eq!(decode_picture(&mut r), Ok(None));
    assert_eq!(r.bit_position(), 0);
}

#[test]
fn picture_errors_come_from_records() {
    let truncated = format!("{} 00000101", PSC);
    let mut r = reader(&truncated);
    assert_eq!(decode_picture(&mut r), Err(Error::EndOfFile));
    assert_eq!(r.bit_position(), 0);
    let bad_ptype = format!("{} 00000101 11 000 010 00000", PSC);
    let mut b = reader(&bad_ptype);
    assert_eq!(decode_picture(&mut b), Err(Error::InvalidBitstream));
}

#[test]
fn picture_with_plusptype_and_followers() {
    // PTYPE says PLUSPTYPE follows; it announces a custom format and clock;
    // CPM 0; CPFMT; CPCFC; two more temporal reference bits.
    let stream = format!(
        "{} 00000001 10 000 111  001 110 1 0 0 0 0 0 0 0 0 0 0 1000 001 0 0 0 001  0  \
         0001 000000001 1 0 00000001  10000001  11",
        PSC
    );
    let mut r = reader(&stream);
    let p = decode_picture(&mut r).unwrap().unwrap();
    assert_eq!(p.temporal_reference, 3 * 256 + 1);
    assert!(p.has_plusptype);
    assert!(p.has_opptype);
    assert_eq!(p.picture_type, PictureTypeCode::PFrame);
    assert_eq!(p.multiplex_bitstream, Some(None));
    assert_eq!(p.options, PictureOption::empty());
    assert_eq!(
        p.format,
        Some(SourceFormat::Extended(CustomPictureFormat {
            pixel_aspect_ratio: PixelAspectRatio::Square,
            picture_width_indication: 1,
            picture_height_indication: 1,
        }))
    );
    let clock = p.picture_clock.unwrap();
    assert!(clock.times_1001);
    assert_eq!(clock.divisor, 1);
    assert_eq!(r.bit_position(), 22 + 8 + 8 + 30 + 1 + 23 + 8 + 2);
    let cut = format!(
        "{} 00000001 10 000 111  001 110 1 0 0 0 0 0 0 0 0 0 0 1000 001 0 0 0 001  0  \
         0001 000000001 1 0 00000001  10000001",
        PSC
    );
    let mut c = reader(&cut);
    // padding of the last byte supplies the two bits, or not
    let expected_len = bits(&cut).len() * 8;
    let used = 22 + 8 + 8 + 30 + 1 + 23 + 8;
    let result = decode_picture(&mut c);
    if expected_len >= used + 2 {
        assert_eq!(result.unwrap().unwrap().temporal_reference, 1);
    } else {
        assert_eq!(result, Err(Error::EndOfFile));
    }
}

#[test]
fn picture_from_unaligned_position() {
    let stream = format!("101 00000 {} 00000101 10 000 010 1 0 0 0 0", PSC);
    let mut r = reader(&stream);
    r.set_bit_position(3);
    let p = decode_picture(&mut r).unwrap().unwrap();
    assert_eq!(p.temporal_reference, 5);
    assert_eq!(r.bit_position(), 8 + 22 + 8 + 8 + 5);
}
