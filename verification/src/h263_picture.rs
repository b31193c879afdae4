//! Picture-layer decoder: the records of an H.263 picture header.
//!
//! Each decoder reads one record. When it fails, the reader is left where
//! it was. The `*_spec` functions state, for a stream and a position, what
//! each decoder returns and where it leaves the reader.

use vstd::prelude::*;
use vstd::arithmetic::power2::pow2;
use crate::h263_reader::{H263Reader, Error, bits_value, bit_len};
use crate::h263_types::{
    PictureOption, PixelAspectRatio, CustomPictureFormat, SourceFormat, PictureTypeCode,
    CustomPictureClock, PlusPTypeFollower, Picture, options_union,
};

verus! {

/// The information imparted by a `PTYPE` record.
///
/// If the optional portion of this type is `None`, that signals that a
/// `PLUSPTYPE` immediately follows the `PTYPE` record.
pub type PType = (PictureOption, Option<(SourceFormat, PictureTypeCode)>);

/// The information imparted by a `PLUSPTYPE` record.
pub type PlusPType = (PictureOption, Option<SourceFormat>, PictureTypeCode, PlusPTypeFollower);

/// The `n` bits (at most eight) at `pos`, as a byte.
pub open spec fn field8(data: Seq<u8>, pos: int, n: nat) -> u8 {
    bits_value(data, pos, n) as u8
}

/// The options that the high and (where present) low bits of `PTYPE` set.
pub open spec fn ptype_options(hi: u8, lo: Option<u8>) -> PictureOption {
    PictureOption {
        use_split_screen: hi & 0x20 != 0,
        use_document_camera: hi & 0x10 != 0,
        release_full_picture_freeze: hi & 0x08 != 0,
        unrestricted_motion_vectors: (lo matches Some(l) && l & 0x08 != 0),
        syntax_based_arithmetic_coding: (lo matches Some(l) && l & 0x04 != 0),
        advanced_prediction: (lo matches Some(l) && l & 0x02 != 0),
        advanced_intra_coding: false,
        deblocking_filter: false,
        slice_structured: false,
        reference_picture_selection: false,
        independent_segment_decoding: false,
        alternative_inter_vlc: false,
        modified_quantization: false,
        reference_picture_resampling: false,
        reduced_resolution_update: false,
        rounding_type_one: false,
    }
}

/// The source format that the three low bits of `PTYPE`'s high byte name (1 to 6).
pub open spec fn ptype_format(f: u8) -> SourceFormat {
    if f == 1 {
        SourceFormat::SubQCIF
    } else if f == 2 {
        SourceFormat::QuarterCIF
    } else if f == 3 {
        SourceFormat::FullCIF
    } else if f == 4 {
        SourceFormat::FourCIF
    } else if f == 5 {
        SourceFormat::SixteenCIF
    } else {
        SourceFormat::Reserved
    }
}

/// The picture type that the five low bits of `PTYPE` name.
pub open spec fn ptype_code(lo: u8) -> PictureTypeCode {
    if lo & 0x01 != 0 {
        PictureTypeCode::PBFrame
    } else if lo & 0x10 != 0 {
        PictureTypeCode::IFrame
    } else {
        PictureTypeCode::PFrame
    }
}

/// What `decode_ptype` returns at `pos`, and where it leaves the reader.
pub open spec fn ptype_spec(data: Seq<u8>, pos: int) -> (Result<PType, Error>, int) {
    if pos + 8 > bit_len(data) {
        (Err(Error::EndOfFile), pos)
    } else {
        let hi = field8(data, pos, 8);
        if hi & 0xC0 != 0x80 || hi & 0x07 == 0 {
            (Err(Error::InvalidBitstream), pos)
        } else if hi & 0x07 == 7 {
            (Ok((ptype_options(hi, None), None)), pos + 8)
        } else if pos + 13 > bit_len(data) {
            (Err(Error::EndOfFile), pos)
        } else {
            let lo = field8(data, pos + 8, 5);
            (
                Ok((ptype_options(hi, Some(lo)), Some((ptype_format(hi & 0x07), ptype_code(lo))))),
                pos + 13,
            )
        }
    }
}

/// Decodes the first 8 bits of `PTYPE`.
pub fn decode_ptype(reader: &mut H263Reader) -> (r: Result<PType, Error>)
    requires
        old(reader).wf(),
    ensures
        final(reader).wf(),
        final(reader).data() == old(reader).data(),
        (r, final(reader).position()) == ptype_spec(old(reader).data(), old(reader).position()),
{
    let start = reader.bit_position();
    let mut options = PictureOption::empty();

    let high_ptype_bits = match reader.read_u8() {
        Ok(v) => v,
        Err(e) => return Err(e),
    };
    if high_ptype_bits & 0xC0 != 0x80 {
        reader.set_bit_position(start);
        return Err(Error::InvalidBitstream);
    }

    if high_ptype_bits & 0x20 != 0 {
        options.use_split_screen = true;
    }

    if high_ptype_bits & 0x10 != 0 {
        options.use_document_camera = true;
    }

    if high_ptype_bits & 0x08 != 0 {
        options.release_full_picture_freeze = true;
    }

    let format_bits = high_ptype_bits & 0x07;
    assert(format_bits <= 7) by (bit_vector)
        requires format_bits == high_ptype_bits & 0x07;
    let source_format = if format_bits == 0 {
        reader.set_bit_position(start);
        return Err(Error::InvalidBitstream);
    } else if format_bits == 1 {
        SourceFormat::SubQCIF
    } else if format_bits == 2 {
        SourceFormat::QuarterCIF
    } else if format_bits == 3 {
        SourceFormat::FullCIF
    } else if format_bits == 4 {
        SourceFormat::FourCIF
    } else if format_bits == 5 {
        SourceFormat::SixteenCIF
    } else if format_bits == 6 {
        SourceFormat::Reserved
    } else {
        return Ok((options, None));
    };

    let ghost lo_pos = reader.position();
    let low_ptype_bits: u8 = match reader.read_bits(5) {
        Ok(v) => {
            proof {
                vstd::arithmetic::power2::lemma2_to64();
                crate::h263_reader::lemma_bits_value_bound(reader.data(), lo_pos, 5);
            }
            v as u8
        },
        Err(e) => {
            reader.set_bit_position(start);
            return Err(e);
        },
    };
    let mut picture_type = if low_ptype_bits & 0x10 != 0 {
        PictureTypeCode::IFrame
    } else {
        PictureTypeCode::PFrame
    };

    if low_ptype_bits & 0x08 != 0 {
        options.unrestricted_motion_vectors = true;
    }

    if low_ptype_bits & 0x04 != 0 {
        options.syntax_based_arithmetic_coding = true;
    }

    if low_ptype_bits & 0x02 != 0 {
        options.advanced_prediction = true;
    }

    if low_ptype_bits & 0x01 != 0 {
        picture_type = PictureTypeCode::PBFrame;
    }

    Ok((options, Some((source_format, picture_type))))
}

/// The options that `OPPTYPE` (where present) sets.
pub open spec fn opptype_options(opp: Option<u32>) -> PictureOption {
    PictureOption {
        use_split_screen: false,
        use_document_camera: false,
        release_full_picture_freeze: false,
        unrestricted_motion_vectors: (opp matches Some(o) && o & 0x02000 != 0),
        syntax_based_arithmetic_coding: (opp matches Some(o) && o & 0x01000 != 0),
        advanced_prediction: (opp matches Some(o) && o & 0x00800 != 0),
        advanced_intra_coding: (opp matches Some(o) && o & 0x00400 != 0),
        deblocking_filter: (opp matches Some(o) && o & 0x00200 != 0),
        slice_structured: (opp matches Some(o) && o & 0x00100 != 0),
        reference_picture_selection: (opp matches Some(o) && o & 0x00080 != 0),
        independent_segment_decoding: (opp matches Some(o) && o & 0x00040 != 0),
        alternative_inter_vlc: (opp matches Some(o) && o & 0x00020 != 0),
        modified_quantization: (opp matches Some(o) && o & 0x00010 != 0),
        reference_picture_resampling: false,
        reduced_resolution_update: false,
        rounding_type_one: false,
    }
}

/// The options that `MPPTYPE` sets.
pub open spec fn mpptype_options(mpp: u16) -> PictureOption {
    PictureOption {
        use_split_screen: false,
        use_document_camera: false,
        release_full_picture_freeze: false,
        unrestricted_motion_vectors: false,
        syntax_based_arithmetic_coding: false,
        advanced_prediction: false,
        advanced_intra_coding: false,
        deblocking_filter: false,
        slice_structured: false,
        reference_picture_selection: false,
        independent_segment_decoding: false,
        alternative_inter_vlc: false,
        modified_quantization: false,
        reference_picture_resampling: mpp & 0x020 != 0,
        reduced_resolution_update: mpp & 0x010 != 0,
        rounding_type_one: mpp & 0x008 != 0,
    }
}

/// The source format that `OPPTYPE` (where present) names; none for a
/// custom one, which a `CPFMT` record follows.
pub open spec fn opptype_format(opp: Option<u32>) -> Option<SourceFormat> {
    match opp {
        None => None,
        Some(o) => {
            let f = (o & 0x38000) >> 15;
            if f == 1 {
                Some(SourceFormat::SubQCIF)
            } else if f == 2 {
                Some(SourceFormat::QuarterCIF)
            } else if f == 3 {
                Some(SourceFormat::FullCIF)
            } else if f == 4 {
                Some(SourceFormat::FourCIF)
            } else if f == 5 {
                Some(SourceFormat::SixteenCIF)
            } else if f == 6 {
                None
            } else {
                Some(SourceFormat::Reserved)
            }
        },
    }
}

/// The records that `OPPTYPE` (where present) announces.
pub open spec fn opptype_followers(opp: Option<u32>) -> PlusPTypeFollower {
    PlusPTypeFollower {
        has_custom_format: (opp matches Some(o) && (o & 0x38000) >> 15 == 6),
        has_custom_clock: (opp matches Some(o) && o & 0x04000 != 0),
        has_motion_vector_range: false,
        has_slice_structured_submode: false,
        may_have_reference_layer_number: false,
        has_reference_picture_selection: false,
        may_have_temporal_reference: false,
    }
}

/// The picture type that `MPPTYPE` names.
pub open spec fn mpptype_code(mpp: u16) -> PictureTypeCode {
    let t = (mpp & 0x1C0) >> 6;
    if t == 0 {
        PictureTypeCode::IFrame
    } else if t == 1 {
        PictureTypeCode::PFrame
    } else if t == 2 {
        PictureTypeCode::ImprovedPBFrame
    } else if t == 3 {
        PictureTypeCode::BFrame
    } else if t == 4 {
        PictureTypeCode::EIFrame
    } else if t == 5 {
        PictureTypeCode::EPFrame
    } else {
        PictureTypeCode::Reserved(t as u8)
    }
}

/// What `decode_plusptype` returns at `pos`, and where it leaves the reader:
/// a three-bit `UFEP` of 0 or 1; when 1, an 18-bit `OPPTYPE` ending in
/// `1000`; then a 9-bit `MPPTYPE` ending in `001`.
pub open spec fn plusptype_spec(data: Seq<u8>, pos: int) -> (Result<PlusPType, Error>, int) {
    let n = bit_len(data);
    if pos + 3 > n {
        (Err(Error::EndOfFile), pos)
    } else {
        let ufep = bits_value(data, pos, 3);
        if ufep > 1 {
            (Err(Error::InvalidBitstream), pos)
        } else if ufep == 1 && pos + 21 > n {
            (Err(Error::EndOfFile), pos)
        } else if ufep == 1 && (bits_value(data, pos + 3, 18) as u32) & 0xF != 0x8 {
            (Err(Error::InvalidBitstream), pos)
        } else {
            let opp: Option<u32> = if ufep == 1 {
                Some(bits_value(data, pos + 3, 18) as u32)
            } else {
                None
            };
            let q = if ufep == 1 { pos + 21 } else { pos + 3 };
            if q + 9 > n {
                (Err(Error::EndOfFile), pos)
            } else {
                let mpp = bits_value(data, q, 9) as u16;
                if mpp & 0x007 != 0x1 {
                    (Err(Error::InvalidBitstream), pos)
                } else {
                    (
                        Ok(
                            (
                                options_union(opptype_options(opp), mpptype_options(mpp)),
                                opptype_format(opp),
                                mpptype_code(mpp),
                                opptype_followers(opp),
                            ),
                        ),
                        q + 9,
                    )
                }
            }
        }
    }
}

/// The options, source format and followers that an `OPPTYPE` announces.
fn opptype_fields(opptype: u32) -> (r: (PictureOption, Option<SourceFormat>, PlusPTypeFollower))
    ensures
        r == (
            opptype_options(Some(opptype)),
            opptype_format(Some(opptype)),
            opptype_followers(Some(opptype)),
        ),
{
    let mut options = PictureOption::empty();
    let mut followers = PlusPTypeFollower {
        has_custom_format: false,
        has_custom_clock: false,
        has_motion_vector_range: false,
        has_slice_structured_submode: false,
        may_have_reference_layer_number: false,
        has_reference_picture_selection: false,
        may_have_temporal_reference: false,
    };

    let format_bits = (opptype & 0x38000) >> 15;
    let source_format = if format_bits == 0 {
        Some(SourceFormat::Reserved)
    } else if format_bits == 1 {
        Some(SourceFormat::SubQCIF)
    } else if format_bits == 2 {
        Some(SourceFormat::QuarterCIF)
    } else if format_bits == 3 {
        Some(SourceFormat::FullCIF)
    } else if format_bits == 4 {
        Some(SourceFormat::FourCIF)
    } else if format_bits == 5 {
        Some(SourceFormat::SixteenCIF)
    } else if format_bits == 6 {
        followers.has_custom_format = true;
        None
    } else {
        Some(SourceFormat::Reserved)
    };

    if opptype & 0x04000 != 0 {
        followers.has_custom_clock = true;
    }

    if opptype & 0x02000 != 0 {
        options.unrestricted_motion_vectors = true;
    }

    if opptype & 0x01000 != 0 {
        options.syntax_based_arithmetic_coding = true;
    }

    if opptype & 0x00800 != 0 {
        options.advanced_prediction = true;
    }

    if opptype & 0x00400 != 0 {
        options.advanced_intra_coding = true;
    }

    if opptype & 0x00200 != 0 {
        options.deblocking_filter = true;
    }

    if opptype & 0x00100 != 0 {
        options.slice_structured = true;
    }

    if opptype & 0x00080 != 0 {
        options.reference_picture_selection = true;
    }

    if opptype & 0x00040 != 0 {
        options.independent_segment_decoding = true;
    }

    if opptype & 0x00020 != 0 {
        options.alternative_inter_vlc = true;
    }

    if opptype & 0x00010 != 0 {
        options.modified_quantization = true;
    }

    (options, source_format, followers)
}

/// The options and picture type that an `MPPTYPE` announces.
fn mpptype_fields(mpptype: u16) -> (r: (PictureOption, PictureTypeCode))
    ensures
        r == (mpptype_options(mpptype), mpptype_code(mpptype)),
{
    let mut options = PictureOption::empty();
    let type_bits = (mpptype & 0x1C0) >> 6;
    let picture_type = if type_bits == 0 {
        PictureTypeCode::IFrame
    } else if type_bits == 1 {
        PictureTypeCode::PFrame
    } else if type_bits == 2 {
        PictureTypeCode::ImprovedPBFrame
    } else if type_bits == 3 {
        PictureTypeCode::BFrame
    } else if type_bits == 4 {
        PictureTypeCode::EIFrame
    } else if type_bits == 5 {
        PictureTypeCode::EPFrame
    } else {
        PictureTypeCode::Reserved(type_bits as u8)
    };

    if mpptype & 0x020 != 0 {
        options.reference_picture_resampling = true;
    }

    if mpptype & 0x010 != 0 {
        options.reduced_resolution_update = true;
    }

    if mpptype & 0x008 != 0 {
        options.rounding_type_one = true;
    }

    (options, picture_type)
}

/// Attempts to read a `PLUSPTYPE` record from the bitstream.
pub fn decode_plusptype(reader: &mut H263Reader) -> (r: Result<PlusPType, Error>)
    requires
        old(reader).wf(),
    ensures
        final(reader).wf(),
        final(reader).data() == old(reader).data(),
        (r, final(reader).position()) == plusptype_spec(old(reader).data(), old(reader).position()),
{
    let start = reader.bit_position();
    proof {
        vstd::arithmetic::power2::lemma2_to64();
    }
    let ufep = match reader.read_bits(3) {
        Ok(v) => v,
        Err(e) => return Err(e),
    };
    let has_opptype = if ufep == 0 {
        false
    } else if ufep == 1 {
        true
    } else {
        reader.set_bit_position(start);
        return Err(Error::InvalidBitstream);
    };

    let (opp_options, source_format, followers) = if has_opptype {
        let opptype: u32 = match reader.read_bits(18) {
            Ok(v) => v,
            Err(e) => {
                reader.set_bit_position(start);
                return Err(e);
            },
        };

        // OPPTYPE should end in bits 1000 as per H.263 5.1.4.2
        if (opptype & 0xF) != 0x8 {
            reader.set_bit_position(start);
            return Err(Error::InvalidBitstream);
        }
        opptype_fields(opptype)
    } else {
        let no_followers = PlusPTypeFollower {
            has_custom_format: false,
            has_custom_clock: false,
            has_motion_vector_range: false,
            has_slice_structured_submode: false,
            may_have_reference_layer_number: false,
            has_reference_picture_selection: false,
            may_have_temporal_reference: false,
        };
        (PictureOption::empty(), None, no_followers)
    };

    let mpptype: u16 = match reader.read_bits(9) {
        Ok(v) => v as u16,
        Err(e) => {
            reader.set_bit_position(start);
            return Err(e);
        },
    };

    // MPPTYPE should end in bits 001 as per H.263 5.1.4.3
    if mpptype & 0x007 != 0x1 {
        reader.set_bit_position(start);
        return Err(Error::InvalidBitstream);
    }

    let (mpp_options, picture_type) = mpptype_fields(mpptype);

    Ok((opp_options.union(mpp_options), source_format, picture_type, followers))
}

/// What `decode_cpm_and_psbi` returns at `pos`, and where it leaves the
/// reader: a `CPM` bit, and when it is set a two-bit `PSBI`.
pub open spec fn cpm_spec(data: Seq<u8>, pos: int) -> (Result<Option<u8>, Error>, int) {
    if pos + 1 > bit_len(data) {
        (Err(Error::EndOfFile), pos)
    } else if bits_value(data, pos, 1) != 0 {
        if pos + 3 > bit_len(data) {
            (Err(Error::EndOfFile), pos)
        } else {
            (Ok(Some(field8(data, pos + 1, 2))), pos + 3)
        }
    } else {
        (Ok(None), pos + 1)
    }
}

/// Attempts to read `CPM` and `PSBI` records from the bitstream.
///
/// The placement of this record changes based on whether or not a `PLUSPTYPE`
/// is present in the bitstream. If it is present, then this function should
/// be called immediately after parsing it. Otherwise, this function should be
/// called after parsing `PQUANT`.
pub fn decode_cpm_and_psbi(reader: &mut H263Reader) -> (r: Result<Option<u8>, Error>)
    requires
        old(reader).wf(),
    ensures
        final(reader).wf(),
        final(reader).data() == old(reader).data(),
        (r, final(reader).position()) == cpm_spec(old(reader).data(), old(reader).position()),
{
    let start = reader.bit_position();
    proof {
        vstd::arithmetic::power2::lemma2_to64();
    }
    let cpm = match reader.read_bits(1) {
        Ok(v) => v,
        Err(e) => return Err(e),
    };
    if cpm != 0 {
        match reader.read_bits(2) {
            Ok(v) => Ok(Some(v as u8)),
            Err(e) => {
                reader.set_bit_position(start);
                Err(e)
            },
        }
    } else {
        Ok(None)
    }
}

/// The pixel aspect ratio that the four-bit code of `CPFMT` names (other
/// than 0 and 15).
pub open spec fn par_of(code: u32) -> PixelAspectRatio {
    if code == 1 {
        PixelAspectRatio::Square
    } else if code == 2 {
        PixelAspectRatio::Par12_11
    } else if code == 3 {
        PixelAspectRatio::Par10_11
    } else if code == 4 {
        PixelAspectRatio::Par16_11
    } else if code == 5 {
        PixelAspectRatio::Par40_33
    } else {
        PixelAspectRatio::Reserved(code as u8)
    }
}

/// The custom format that a `CPFMT` word and a pixel aspect ratio give.
pub open spec fn custom_format(cpfmt: u32, par: PixelAspectRatio) -> CustomPictureFormat {
    CustomPictureFormat {
        pixel_aspect_ratio: par,
        picture_width_indication: ((cpfmt & 0x07FC00) >> 10) as u8,
        picture_height_indication: (cpfmt & 0x0000FF) as u8,
    }
}

/// What `decode_cpfmt` returns at `pos`, and where it leaves the reader: a
/// 23-bit `CPFMT` with its marker bit set and a pixel aspect ratio code
/// other than 0; for code 15, two non-zero bytes of extended ratio follow.
pub open spec fn cpfmt_spec(data: Seq<u8>, pos: int) -> (Result<CustomPictureFormat, Error>, int) {
    if pos + 23 > bit_len(data) {
        (Err(Error::EndOfFile), pos)
    } else {
        let cpfmt = bits_value(data, pos, 23) as u32;
        let code = (cpfmt & 0x780000) >> 19;
        if cpfmt & 0x000200 == 0 || code == 0 {
            (Err(Error::InvalidBitstream), pos)
        } else if code == 15 {
            if pos + 39 > bit_len(data) {
                (Err(Error::EndOfFile), pos)
            } else {
                let w = field8(data, pos + 23, 8);
                let h = field8(data, pos + 31, 8);
                if w == 0 || h == 0 {
                    (Err(Error::InvalidBitstream), pos)
                } else {
                    (
                        Ok(
                            custom_format(
                                cpfmt,
                                PixelAspectRatio::Extended { par_width: w, par_height: h },
                            ),
                        ),
                        pos + 39,
                    )
                }
            }
        } else {
            (Ok(custom_format(cpfmt, par_of(code))), pos + 23)
        }
    }
}

/// Attempts to read `CPFMT` from the bitstream.
pub fn decode_cpfmt(reader: &mut H263Reader) -> (r: Result<CustomPictureFormat, Error>)
    requires
        old(reader).wf(),
    ensures
        final(reader).wf(),
        final(reader).data() == old(reader).data(),
        (r, final(reader).position()) == cpfmt_spec(old(reader).data(), old(reader).position()),
{
    let start = reader.bit_position();
    let cpfmt: u32 = match reader.read_bits(23) {
        Ok(v) => v,
        Err(e) => return Err(e),
    };

    if cpfmt & 0x000200 == 0 {
        reader.set_bit_position(start);
        return Err(Error::InvalidBitstream);
    }

    let code = (cpfmt & 0x780000) >> 19;
    let pixel_aspect_ratio = if code == 0 {
        reader.set_bit_position(start);
        return Err(Error::InvalidBitstream);
    } else if code == 1 {
        PixelAspectRatio::Square
    } else if code == 2 {
        PixelAspectRatio::Par12_11
    } else if code == 3 {
        PixelAspectRatio::Par10_11
    } else if code == 4 {
        PixelAspectRatio::Par16_11
    } else if code == 5 {
        PixelAspectRatio::Par40_33
    } else if code == 15 {
        let par_width = match reader.read_u8() {
            Ok(v) => v,
            Err(e) => {
                reader.set_bit_position(start);
                return Err(e);
            },
        };
        let par_height = match reader.read_u8() {
            Ok(v) => v,
            Err(e) => {
                reader.set_bit_position(start);
                return Err(e);
            },
        };

        if par_width == 0 || par_height == 0 {
            reader.set_bit_position(start);
            return Err(Error::InvalidBitstream);
        }

        PixelAspectRatio::Extended { par_width, par_height }
    } else {
        PixelAspectRatio::Reserved(code as u8)
    };

    let picture_width_indication = ((cpfmt & 0x07FC00) >> 10) as u8;
    let picture_height_indication = (cpfmt & 0x0000FF) as u8;

    Ok(CustomPictureFormat { pixel_aspect_ratio, picture_width_indication, picture_height_indication })
}

/// What `decode_cpcfc` returns at `pos`, and where it leaves the reader: one
/// byte, whose top bit is the 1001 flag and whose other bits the divisor.
pub open spec fn cpcfc_spec(data: Seq<u8>, pos: int) -> (Result<CustomPictureClock, Error>, int) {
    if pos + 8 > bit_len(data) {
        (Err(Error::EndOfFile), pos)
    } else {
        let c = field8(data, pos, 8);
        (Ok(CustomPictureClock { times_1001: c & 0x80 != 0, divisor: c & 0x7F }), pos + 8)
    }
}

/// Attempts to read `CPCFC` from the bitstream.
pub fn decode_cpcfc(reader: &mut H263Reader) -> (r: Result<CustomPictureClock, Error>)
    requires
        old(reader).wf(),
    ensures
        final(reader).wf(),
        final(reader).data() == old(reader).data(),
        (r, final(reader).position()) == cpcfc_spec(old(reader).data(), old(reader).position()),
{
    let cpcfc = match reader.read_u8() {
        Ok(v) => v,
        Err(e) => return Err(e),
    };

    Ok(CustomPictureClock { times_1001: cpcfc & 0x80 != 0, divisor: cpcfc & 0x7F })
}

/// The first byte boundary at or after `pos`.
pub open spec fn aligned(pos: int) -> int {
    if pos % 8 == 0 {
        pos
    } else {
        pos - pos % 8 + 8
    }
}

/// No records follow: what a plain `PTYPE` announces.
pub open spec fn no_followers() -> PlusPTypeFollower {
    PlusPTypeFollower {
        has_custom_format: false,
        has_custom_clock: false,
        has_motion_vector_range: false,
        has_slice_structured_submode: false,
        may_have_reference_layer_number: false,
        has_reference_picture_selection: false,
        may_have_temporal_reference: false,
    }
}

/// The header fields read before the records that `PLUSPTYPE`'s followers
/// announce.
#[derive(Debug, Clone, Copy, PartialEq, Eq, Structural)]
pub struct HeaderStart {
    pub low_tr: u8,
    pub options: PictureOption,
    pub format: Option<SourceFormat>,
    pub picture_type: PictureTypeCode,
    pub has_plusptype: bool,
    pub has_opptype: bool,
    pub multiplex_bitstream: Option<Option<u8>>,
    pub followers: PlusPTypeFollower,
}

/// The picture that the header fields make, with its temporal reference
/// and clock.
pub open spec fn picture_of(h: HeaderStart, format: Option<SourceFormat>, temporal_reference: u16, picture_clock: Option<CustomPictureClock>) -> Picture {
    Picture {
        temporal_reference,
        has_plusptype: h.has_plusptype,
        has_opptype: h.has_opptype,
        format,
        options: h.options,
        picture_type: h.picture_type,
        multiplex_bitstream: h.multiplex_bitstream,
        picture_clock,
    }
}

/// What the records that `PLUSPTYPE`'s followers announce, read from `pos`,
/// make of a picture header, and where reading stops: a `CPFMT` gives the
/// format, a `CPCFC` the clock and two more (high) bits of temporal
/// reference.
pub open spec fn followers_spec(data: Seq<u8>, pos: int, h: HeaderStart) -> (Result<Option<Picture>, Error>, int) {
    let (format, after_format): (Result<Option<SourceFormat>, Error>, int) = if h.followers.has_custom_format {
        match cpfmt_spec(data, pos) {
            (Err(e), q) => (Err(e), q),
            (Ok(c), q) => (Ok(Some(SourceFormat::Extended(c))), q),
        }
    } else {
        (Ok(h.format), pos)
    };
    match format {
        Err(e) => (Err(e), pos),
        Ok(f) => {
            if h.followers.has_custom_clock {
                match cpcfc_spec(data, after_format) {
                    (Err(e), _) => (Err(e), pos),
                    (Ok(clock), q) => if q + 2 > bit_len(data) {
                        (Err(Error::EndOfFile), pos)
                    } else {
                        let tr = (bits_value(data, q, 2) * 256 + h.low_tr) as u16;
                        (Ok(Some(picture_of(h, f, tr, Some(clock)))), q + 2)
                    },
                }
            } else {
                (Ok(Some(picture_of(h, f, h.low_tr as u16, None))), after_format)
            }
        },
    }
}

/// What `decode_picture` returns at `pos`, and where a picture ends: after
/// skipping to a byte boundary, no picture unless a 22-bit picture start
/// code `0x20` is there; then a byte of temporal reference, `PTYPE`, and
/// where it says so, `PLUSPTYPE` (whose options join those of `PTYPE`) and
/// `CPM`/`PSBI`, and the records its followers announce. An error where a
/// record fails; else the picture.
pub open spec fn picture_spec(data: Seq<u8>, pos: int) -> (Result<Option<Picture>, Error>, int) {
    let a = aligned(pos);
    if a + 22 > bit_len(data) {
        (Err(Error::EndOfFile), pos)
    } else if bits_value(data, a, 22) != 0x20 {
        (Ok(None), pos)
    } else if a + 30 > bit_len(data) {
        (Err(Error::EndOfFile), pos)
    } else {
        let low_tr = field8(data, a + 22, 8);
        match ptype_spec(data, a + 30) {
            (Err(e), _) => (Err(e), pos),
            (Ok((options, Some((format, picture_type)))), q) => followers_spec(
                data,
                q,
                HeaderStart {
                    low_tr,
                    options,
                    format: Some(format),
                    picture_type,
                    has_plusptype: false,
                    has_opptype: false,
                    multiplex_bitstream: None,
                    followers: no_followers(),
                },
            ),
            (Ok((options, None)), q) => match plusptype_spec(data, q) {
                (Err(e), _) => (Err(e), pos),
                (Ok((extra, format, picture_type, followers)), q2) => match cpm_spec(data, q2) {
                    (Err(e), _) => (Err(e), pos),
                    (Ok(mb), q3) => followers_spec(
                        data,
                        q3,
                        HeaderStart {
                            low_tr,
                            options: options_union(options, extra),
                            format,
                            picture_type,
                            has_plusptype: true,
                            has_opptype: format is Some || followers.has_custom_format,
                            multiplex_bitstream: Some(mb),
                            followers,
                        },
                    ),
                },
            },
        }
    }
}

/// Reads a picture record; where it yields a picture, the reader is left
/// after it.
#[verifier::rlimit(40)]
fn read_picture(reader: &mut H263Reader) -> (r: Result<Option<Picture>, Error>)
    requires
        old(reader).wf(),
    ensures
        final(reader).wf(),
        final(reader).data() == old(reader).data(),
        r == picture_spec(old(reader).data(), old(reader).position()).0,
        r is Ok && r->Ok_0 is Some ==> final(reader).position() == picture_spec(
            old(reader).data(),
            old(reader).position(),
        ).1,
{
    proof {
        vstd::arithmetic::power2::lemma2_to64();
    }
    reader.skip_to_alignment();

    let psc: u32 = match reader.read_bits(22) {
        Ok(v) => v,
        Err(e) => return Err(e),
    };
    if psc != 0x000020 {
        return Ok(None);
    }

    let low_tr = match reader.read_u8() {
        Ok(v) => v,
        Err(e) => return Err(e),
    };
    let (mut options, maybe_format_and_type) = match decode_ptype(reader) {
        Ok(v) => v,
        Err(e) => return Err(e),
    };
    let mut multiplex_bitstream = None;
    let mut has_plusptype = false;
    let mut has_opptype = false;
    let (mut format, picture_type, followers) = match maybe_format_and_type {
        Some((format, picture_type)) => {
            let none = PlusPTypeFollower {
                has_custom_format: false,
                has_custom_clock: false,
                has_motion_vector_range: false,
                has_slice_structured_submode: false,
                may_have_reference_layer_number: false,
                has_reference_picture_selection: false,
                may_have_temporal_reference: false,
            };
            (Some(format), picture_type, none)
        },
        None => {
            let (extra_options, maybe_format, picture_type, followers) = match decode_plusptype(
                reader,
            ) {
                Ok(v) => v,
                Err(e) => return Err(e),
            };

            options = options.union(extra_options);
            has_plusptype = true;
            // `OPPTYPE` either names a source format or announces a custom one.
            has_opptype = maybe_format.is_some() || followers.has_custom_format;

            multiplex_bitstream = Some(
                match decode_cpm_and_psbi(reader) {
                    Ok(v) => v,
                    Err(e) => return Err(e),
                },
            );

            (maybe_format, picture_type, followers)
        },
    };

    let h = HeaderStart {
        low_tr,
        options,
        format,
        picture_type,
        has_plusptype,
        has_opptype,
        multiplex_bitstream,
        followers,
    };
    read_followers(reader, h)
}

/// Reads the records that the header's followers announce and makes the
/// picture.
fn read_followers(reader: &mut H263Reader, h: HeaderStart) -> (r: Result<Option<Picture>, Error>)
    requires
        old(reader).wf(),
    ensures
        final(reader).wf(),
        final(reader).data() == old(reader).data(),
        r == followers_spec(old(reader).data(), old(reader).position(), h).0,
        r is Ok && r->Ok_0 is Some ==> final(reader).position() == followers_spec(
            old(reader).data(),
            old(reader).position(),
            h,
        ).1,
{
    proof {
        vstd::arithmetic::power2::lemma2_to64();
    }
    let mut format = h.format;
    if h.followers.has_custom_format {
        format = Some(
            SourceFormat::Extended(
                match decode_cpfmt(reader) {
                    Ok(v) => v,
                    Err(e) => return Err(e),
                },
            ),
        );
    }

    let picture_clock = if h.followers.has_custom_clock {
        Some(
            match decode_cpcfc(reader) {
                Ok(v) => v,
                Err(e) => return Err(e),
            },
        )
    } else {
        None
    };

    let low_tr = h.low_tr;
    let temporal_reference = if picture_clock.is_some() {
        let high_tr: u16 = match reader.read_bits(2) {
            Ok(v) => {
                let ghost g = v;
                assert((v as u16) << 8u16 == g * 256 && ((v as u16) << 8u16) & 0xFF == 0) by (bit_vector)
                    requires
                        g == v,
                        v < 4,
                ;
                (v as u16) << 8
            },
            Err(e) => return Err(e),
        };
        let lo: u16 = low_tr as u16;
        assert(high_tr | lo == high_tr + lo) by (bit_vector)
            requires
                high_tr & 0xFF == 0,
                lo <= 0xFF,
        ;
        high_tr | lo
    } else {
        low_tr as u16
    };

    Ok(Some(Picture {
        temporal_reference,
        has_plusptype: h.has_plusptype,
        has_opptype: h.has_opptype,
        format,
        options: h.options,
        picture_type: h.picture_type,
        multiplex_bitstream: h.multiplex_bitstream,
        picture_clock,
    }))
}

/// Attempts to read a picture record from an H.263 bitstream.
///
/// If no valid picture record could be found at the current position in the
/// reader's bitstream, this function returns `None` and leaves the reader at
/// the same position. A picture leaves the reader after its header; an
/// error leaves it where it was.
pub fn decode_picture(reader: &mut H263Reader) -> (r: Result<Option<Picture>, Error>)
    requires
        old(reader).wf(),
    ensures
        final(reader).wf(),
        final(reader).data() == old(reader).data(),
        r == picture_spec(old(reader).data(), old(reader).position()).0,
        final(reader).position() == if r is Ok && r->Ok_0 is Some {
            picture_spec(old(reader).data(), old(reader).position()).1
        } else {
            old(reader).position()
        },
{
    let start = reader.bit_position();
    let result = read_picture(reader);
    match result {
        Ok(Some(_)) => {},
        _ => reader.set_bit_position(start),
    }
    result
}

/// A record that fails to decode leaves the reader where it was, and one
/// that decodes moves it forward.
pub proof fn lemma_records_rewind_on_failure(data: Seq<u8>, pos: int)
    ensures
        ptype_spec(data, pos).0 is Err ==> ptype_spec(data, pos).1 == pos,
        ptype_spec(data, pos).0 is Ok ==> ptype_spec(data, pos).1 > pos,
        plusptype_spec(data, pos).0 is Err ==> plusptype_spec(data, pos).1 == pos,
        plusptype_spec(data, pos).0 is Ok ==> plusptype_spec(data, pos).1 > pos,
        cpm_spec(data, pos).0 is Err ==> cpm_spec(data, pos).1 == pos,
        cpm_spec(data, pos).0 is Ok ==> cpm_spec(data, pos).1 > pos,
        cpfmt_spec(data, pos).0 is Err ==> cpfmt_spec(data, pos).1 == pos,
        cpfmt_spec(data, pos).0 is Ok ==> cpfmt_spec(data, pos).1 > pos,
        cpcfc_spec(data, pos).0 is Err ==> cpcfc_spec(data, pos).1 == pos,
        cpcfc_spec(data, pos).0 is Ok ==> cpcfc_spec(data, pos).1 > pos,
{
}

/// The luma size of the standard source formats (H.263 Table 1): sub-QCIF
/// is 128 by 96; QCIF, CIF, 4CIF and 16CIF are 176 by 144 doubled in each
/// dimension from one to the next. No size for the other formats.
pub open spec fn standard_size(f: SourceFormat) -> Option<(int, int)> {
    match f {
        SourceFormat::SubQCIF => Some((128, 96)),
        SourceFormat::QuarterCIF => Some((176, 144)),
        SourceFormat::FullCIF => Some((352, 288)),
        SourceFormat::FourCIF => Some((704, 576)),
        SourceFormat::SixteenCIF => Some((1408, 1152)),
        _ => None,
    }
}

/// The size that three source-format bits name: 1 is sub-QCIF; 2 to 5 are
/// QCIF to 16CIF, each doubling the width and height of the one before; the
/// other codes name no standard size.
pub open spec fn size_of_code(code: int) -> Option<(int, int)> {
    if code == 1 {
        Some((128, 96))
    } else if 2 <= code <= 5 {
        Some((88 * (pow2((code - 1) as nat) as int), 72 * (pow2((code - 1) as nat) as int)))
    } else {
        None
    }
}

/// The source format that `PTYPE` gives is the one its three format bits
/// name: its picture size is the size those bits stand for.
pub proof fn lemma_ptype_format_size(data: Seq<u8>, pos: int)
    requires
        ptype_spec(data, pos).0 matches Ok((_, Some(_))),
    ensures
        standard_size(ptype_spec(data, pos).0->Ok_0.1->Some_0.0) == size_of_code(
            (field8(data, pos, 8) & 0x07) as int,
        ),
{
    vstd::arithmetic::power2::lemma2_to64();
    let hi = field8(data, pos, 8);
    assert(hi & 0x07 <= 7) by (bit_vector);
}

/// The source format that `OPPTYPE` gives is the one its three format bits
/// name (where they name one): its picture size is the size those bits
/// stand for.
pub proof fn lemma_opptype_format_size(o: u32)
    requires
        opptype_format(Some(o)) is Some,
    ensures
        standard_size(opptype_format(Some(o))->Some_0) == size_of_code(((o & 0x38000) >> 15) as int),
{
    vstd::arithmetic::power2::lemma2_to64();
    assert((o & 0x38000) >> 15 <= 7) by (bit_vector);
}

} // verus!
