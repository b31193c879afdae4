//! Values carried by H.263 picture headers.

use vstd::prelude::*;

verus! {

/// Options that a picture header switches on.
#[derive(Debug, Clone, Copy, PartialEq, Eq, Structural)]
pub struct PictureOption {
    pub use_split_screen: bool,
    pub use_document_camera: bool,
    pub release_full_picture_freeze: bool,
    pub unrestricted_motion_vectors: bool,
    pub syntax_based_arithmetic_coding: bool,
    pub advanced_prediction: bool,
    pub advanced_intra_coding: bool,
    pub deblocking_filter: bool,
    pub slice_structured: bool,
    pub reference_picture_selection: bool,
    pub independent_segment_decoding: bool,
    pub alternative_inter_vlc: bool,
    pub modified_quantization: bool,
    pub reference_picture_resampling: bool,
    pub reduced_resolution_update: bool,
    pub rounding_type_one: bool,
}

/// No option at all.
pub open spec fn no_options() -> PictureOption {
    PictureOption {
        use_split_screen: false,
        use_document_camera: false,
        release_full_picture_freeze: false,
        unrestricted_motion_vectors: false,
        syntax_based_arithmetic_coding: false,
        advanced_prediction: false,
        advanced_intra_coding: false,
        deblocking_filter: false,
        slice_structured: false,
        reference_picture_selection: false,
        independent_segment_decoding: false,
        alternative_inter_vlc: false,
        modified_quantization: false,
        reference_picture_resampling: false,
        reduced_resolution_update: false,
        rounding_type_one: false,
    }
}

/// The options set in either of two sets.
pub open spec fn options_union(a: PictureOption, b: PictureOption) -> PictureOption {
    PictureOption {
        use_split_screen: a.use_split_screen || b.use_split_screen,
        use_document_camera: a.use_document_camera || b.use_document_camera,
        release_full_picture_freeze: a.release_full_picture_freeze
            || b.release_full_picture_freeze,
        unrestricted_motion_vectors: a.unrestricted_motion_vectors
            || b.unrestricted_motion_vectors,
        syntax_based_arithmetic_coding: a.syntax_based_arithmetic_coding
            || b.syntax_based_arithmetic_coding,
        advanced_prediction: a.advanced_prediction || b.advanced_prediction,
        advanced_intra_coding: a.advanced_intra_coding || b.advanced_intra_coding,
        deblocking_filter: a.deblocking_filter || b.deblocking_filter,
        slice_structured: a.slice_structured || b.slice_structured,
        reference_picture_selection: a.reference_picture_selection
            || b.reference_picture_selection,
        independent_segment_decoding: a.independent_segment_decoding
            || b.independent_segment_decoding,
        alternative_inter_vlc: a.alternative_inter_vlc || b.alternative_inter_vlc,
        modified_quantization: a.modified_quantization || b.modified_quantization,
        reference_picture_resampling: a.reference_picture_resampling
            || b.reference_picture_resampling,
        reduced_resolution_update: a.reduced_resolution_update || b.reduced_resolution_update,
        rounding_type_one: a.rounding_type_one || b.rounding_type_one,
    }
}

/// The options set in both of two sets.
pub open spec fn options_intersection(a: PictureOption, b: PictureOption) -> PictureOption {
    PictureOption {
        use_split_screen: a.use_split_screen && b.use_split_screen,
        use_document_camera: a.use_document_camera && b.use_document_camera,
        release_full_picture_freeze: a.release_full_picture_freeze && b.release_full_picture_freeze,
        unrestricted_motion_vectors: a.unrestricted_motion_vectors && b.unrestricted_motion_vectors,
        syntax_based_arithmetic_coding: a.syntax_based_arithmetic_coding && b.syntax_based_arithmetic_coding,
        advanced_prediction: a.advanced_prediction && b.advanced_prediction,
        advanced_intra_coding: a.advanced_intra_coding && b.advanced_intra_coding,
        deblocking_filter: a.deblocking_filter && b.deblocking_filter,
        slice_structured: a.slice_structured && b.slice_structured,
        reference_picture_selection: a.reference_picture_selection && b.reference_picture_selection,
        independent_segment_decoding: a.independent_segment_decoding && b.independent_segment_decoding,
        alternative_inter_vlc: a.alternative_inter_vlc && b.alternative_inter_vlc,
        modified_quantization: a.modified_quantization && b.modified_quantization,
        reference_picture_resampling: a.reference_picture_resampling && b.reference_picture_resampling,
        reduced_resolution_update: a.reduced_resolution_update && b.reduced_resolution_update,
        rounding_type_one: a.rounding_type_one && b.rounding_type_one,
    }
}

/// The options that a set leaves out.
pub open spec fn options_complement(a: PictureOption) -> PictureOption {
    PictureOption {
        use_split_screen: !a.use_split_screen,
        use_document_camera: !a.use_document_camera,
        release_full_picture_freeze: !a.release_full_picture_freeze,
        unrestricted_motion_vectors: !a.unrestricted_motion_vectors,
        syntax_based_arithmetic_coding: !a.syntax_based_arithmetic_coding,
        advanced_prediction: !a.advanced_prediction,
        advanced_intra_coding: !a.advanced_intra_coding,
        deblocking_filter: !a.deblocking_filter,
        slice_structured: !a.slice_structured,
        reference_picture_selection: !a.reference_picture_selection,
        independent_segment_decoding: !a.independent_segment_decoding,
        alternative_inter_vlc: !a.alternative_inter_vlc,
        modified_quantization: !a.modified_quantization,
        reference_picture_resampling: !a.reference_picture_resampling,
        reduced_resolution_update: !a.reduced_resolution_update,
        rounding_type_one: !a.rounding_type_one,
    }
}

/// Each option as `running` has it where `carried` holds it, and as `fresh`
/// has it elsewhere.
pub open spec fn carry_options(fresh: PictureOption, running: PictureOption, carried: PictureOption) -> PictureOption {
    PictureOption {
        use_split_screen: if carried.use_split_screen { running.use_split_screen } else { fresh.use_split_screen },
        use_document_camera: if carried.use_document_camera { running.use_document_camera } else { fresh.use_document_camera },
        release_full_picture_freeze: if carried.release_full_picture_freeze { running.release_full_picture_freeze } else { fresh.release_full_picture_freeze },
        unrestricted_motion_vectors: if carried.unrestricted_motion_vectors { running.unrestricted_motion_vectors } else { fresh.unrestricted_motion_vectors },
        syntax_based_arithmetic_coding: if carried.syntax_based_arithmetic_coding { running.syntax_based_arithmetic_coding } else { fresh.syntax_based_arithmetic_coding },
        advanced_prediction: if carried.advanced_prediction { running.advanced_prediction } else { fresh.advanced_prediction },
        advanced_intra_coding: if carried.advanced_intra_coding { running.advanced_intra_coding } else { fresh.advanced_intra_coding },
        deblocking_filter: if carried.deblocking_filter { running.deblocking_filter } else { fresh.deblocking_filter },
        slice_structured: if carried.slice_structured { running.slice_structured } else { fresh.slice_structured },
        reference_picture_selection: if carried.reference_picture_selection { running.reference_picture_selection } else { fresh.reference_picture_selection },
        independent_segment_decoding: if carried.independent_segment_decoding { running.independent_segment_decoding } else { fresh.independent_segment_decoding },
        alternative_inter_vlc: if carried.alternative_inter_vlc { running.alternative_inter_vlc } else { fresh.alternative_inter_vlc },
        modified_quantization: if carried.modified_quantization { running.modified_quantization } else { fresh.modified_quantization },
        reference_picture_resampling: if carried.reference_picture_resampling { running.reference_picture_resampling } else { fresh.reference_picture_resampling },
        reduced_resolution_update: if carried.reduced_resolution_update { running.reduced_resolution_update } else { fresh.reduced_resolution_update },
        rounding_type_one: if carried.rounding_type_one { running.rounding_type_one } else { fresh.rounding_type_one },
    }
}

/// The options that the optional part of `PLUSPTYPE` (`OPPTYPE`) carries.
pub open spec fn opptype_option_set() -> PictureOption {
    PictureOption {
        use_split_screen: false,
        use_document_camera: false,
        release_full_picture_freeze: false,
        unrestricted_motion_vectors: true,
        syntax_based_arithmetic_coding: true,
        advanced_prediction: true,
        advanced_intra_coding: true,
        deblocking_filter: true,
        slice_structured: true,
        reference_picture_selection: true,
        independent_segment_decoding: true,
        alternative_inter_vlc: true,
        modified_quantization: true,
        reference_picture_resampling: false,
        reduced_resolution_update: false,
        rounding_type_one: false,
    }
}

/// The options that the mandatory part of `PLUSPTYPE` (`MPPTYPE`) carries.
pub open spec fn mpptype_option_set() -> PictureOption {
    PictureOption {
        use_split_screen: false,
        use_document_camera: false,
        release_full_picture_freeze: false,
        unrestricted_motion_vectors: false,
        syntax_based_arithmetic_coding: false,
        advanced_prediction: false,
        advanced_intra_coding: false,
        deblocking_filter: false,
        slice_structured: false,
        reference_picture_selection: false,
        independent_segment_decoding: false,
        alternative_inter_vlc: false,
        modified_quantization: false,
        reference_picture_resampling: true,
        reduced_resolution_update: true,
        rounding_type_one: true,
    }
}

impl PictureOption {
    /// No option at all.
    pub fn empty() -> (r: Self)
        ensures
            r == no_options(),
    {
        PictureOption {
            use_split_screen: false,
            use_document_camera: false,
            release_full_picture_freeze: false,
            unrestricted_motion_vectors: false,
            syntax_based_arithmetic_coding: false,
            advanced_prediction: false,
            advanced_intra_coding: false,
            deblocking_filter: false,
            slice_structured: false,
            reference_picture_selection: false,
            independent_segment_decoding: false,
            alternative_inter_vlc: false,
            modified_quantization: false,
            reference_picture_resampling: false,
            reduced_resolution_update: false,
            rounding_type_one: false,
        }
    }

    /// The options set here or in `other`.
    pub fn union(self, other: Self) -> (r: Self)
        ensures
            r == options_union(self, other),
    {
        PictureOption {
            use_split_screen: self.use_split_screen || other.use_split_screen,
            use_document_camera: self.use_document_camera || other.use_document_camera,
            release_full_picture_freeze: self.release_full_picture_freeze
                || other.release_full_picture_freeze,
            unrestricted_motion_vectors: self.unrestricted_motion_vectors
                || other.unrestricted_motion_vectors,
            syntax_based_arithmetic_coding: self.syntax_based_arithmetic_coding
                || other.syntax_based_arithmetic_coding,
            advanced_prediction: self.advanced_prediction || other.advanced_prediction,
            advanced_intra_coding: self.advanced_intra_coding || other.advanced_intra_coding,
            deblocking_filter: self.deblocking_filter || other.deblocking_filter,
            slice_structured: self.slice_structured || other.slice_structured,
            reference_picture_selection: self.reference_picture_selection
                || other.reference_picture_selection,
            independent_segment_decoding: self.independent_segment_decoding
                || other.independent_segment_decoding,
            alternative_inter_vlc: self.alternative_inter_vlc || other.alternative_inter_vlc,
            modified_quantization: self.modified_quantization || other.modified_quantization,
            reference_picture_resampling: self.reference_picture_resampling
                || other.reference_picture_resampling,
            reduced_resolution_update: self.reduced_resolution_update
                || other.reduced_resolution_update,
            rounding_type_one: self.rounding_type_one || other.rounding_type_one,
        }
    }

    /// The options set both here and in `other`.
    pub fn intersection(self, other: Self) -> (r: Self)
        ensures
            r == options_intersection(self, other),
    {
        PictureOption {
            use_split_screen: self.use_split_screen && other.use_split_screen,
            use_document_camera: self.use_document_camera && other.use_document_camera,
            release_full_picture_freeze: self.release_full_picture_freeze && other.release_full_picture_freeze,
            unrestricted_motion_vectors: self.unrestricted_motion_vectors && other.unrestricted_motion_vectors,
            syntax_based_arithmetic_coding: self.syntax_based_arithmetic_coding && other.syntax_based_arithmetic_coding,
            advanced_prediction: self.advanced_prediction && other.advanced_prediction,
            advanced_intra_coding: self.advanced_intra_coding && other.advanced_intra_coding,
            deblocking_filter: self.deblocking_filter && other.deblocking_filter,
            slice_structured: self.slice_structured && other.slice_structured,
            reference_picture_selection: self.reference_picture_selection && other.reference_picture_selection,
            independent_segment_decoding: self.independent_segment_decoding && other.independent_segment_decoding,
            alternative_inter_vlc: self.alternative_inter_vlc && other.alternative_inter_vlc,
            modified_quantization: self.modified_quantization && other.modified_quantization,
            reference_picture_resampling: self.reference_picture_resampling && other.reference_picture_resampling,
            reduced_resolution_update: self.reduced_resolution_update && other.reduced_resolution_update,
            rounding_type_one: self.rounding_type_one && other.rounding_type_one,
        }
    }

    /// The options not set here.
    pub fn complement(self) -> (r: Self)
        ensures
            r == options_complement(self),
    {
        PictureOption {
            use_split_screen: !self.use_split_screen,
            use_document_camera: !self.use_document_camera,
            release_full_picture_freeze: !self.release_full_picture_freeze,
            unrestricted_motion_vectors: !self.unrestricted_motion_vectors,
            syntax_based_arithmetic_coding: !self.syntax_based_arithmetic_coding,
            advanced_prediction: !self.advanced_prediction,
            advanced_intra_coding: !self.advanced_intra_coding,
            deblocking_filter: !self.deblocking_filter,
            slice_structured: !self.slice_structured,
            reference_picture_selection: !self.reference_picture_selection,
            independent_segment_decoding: !self.independent_segment_decoding,
            alternative_inter_vlc: !self.alternative_inter_vlc,
            modified_quantization: !self.modified_quantization,
            reference_picture_resampling: !self.reference_picture_resampling,
            reduced_resolution_update: !self.reduced_resolution_update,
            rounding_type_one: !self.rounding_type_one,
        }
    }

    /// The options that the optional part of `PLUSPTYPE` (`OPPTYPE`) carries.
    pub fn opptype_options() -> (r: Self)
        ensures
            r == opptype_option_set(),
    {
        PictureOption {
            use_split_screen: false,
            use_document_camera: false,
            release_full_picture_freeze: false,
            unrestricted_motion_vectors: true,
            syntax_based_arithmetic_coding: true,
            advanced_prediction: true,
            advanced_intra_coding: true,
            deblocking_filter: true,
            slice_structured: true,
            reference_picture_selection: true,
            independent_segment_decoding: true,
            alternative_inter_vlc: true,
            modified_quantization: true,
            reference_picture_resampling: false,
            reduced_resolution_update: false,
            rounding_type_one: false,
        }
    }

    /// The options that the mandatory part of `PLUSPTYPE` (`MPPTYPE`) carries.
    pub fn mpptype_options() -> (r: Self)
        ensures
            r == mpptype_option_set(),
    {
        PictureOption {
            use_split_screen: false,
            use_document_camera: false,
            release_full_picture_freeze: false,
            unrestricted_motion_vectors: false,
            syntax_based_arithmetic_coding: false,
            advanced_prediction: false,
            advanced_intra_coding: false,
            deblocking_filter: false,
            slice_structured: false,
            reference_picture_selection: false,
            independent_segment_decoding: false,
            alternative_inter_vlc: false,
            modified_quantization: false,
            reference_picture_resampling: true,
            reduced_resolution_update: true,
            rounding_type_one: true,
        }
    }
}

/// The pixel aspect ratio of a custom picture format.
#[derive(Debug, Clone, Copy, PartialEq, Eq, Structural)]
pub enum PixelAspectRatio {
    Square,
    Par12_11,
    Par10_11,
    Par16_11,
    Par40_33,
    Reserved(u8),
    Extended { par_width: u8, par_height: u8 },
}

/// A picture format given by its own dimensions.
#[derive(Debug, Clone, Copy, PartialEq, Eq, Structural)]
pub struct CustomPictureFormat {
    pub pixel_aspect_ratio: PixelAspectRatio,
    pub picture_width_indication: u8,
    pub picture_height_indication: u8,
}

/// The size of the pictures of a stream.
#[derive(Debug, Clone, Copy, PartialEq, Eq, Structural)]
pub enum SourceFormat {
    SubQCIF,
    QuarterCIF,
    FullCIF,
    FourCIF,
    SixteenCIF,
    Reserved,
    Extended(CustomPictureFormat),
}

/// How a picture is coded.
#[derive(Debug, Clone, Copy, PartialEq, Eq, Structural)]
pub enum PictureTypeCode {
    IFrame,
    PFrame,
    PBFrame,
    ImprovedPBFrame,
    BFrame,
    EIFrame,
    EPFrame,
    Reserved(u8),
}

/// A picture clock frequency other than the standard one.
#[derive(Debug, Clone, Copy, PartialEq, Eq, Structural)]
pub struct CustomPictureClock {
    pub times_1001: bool,
    pub divisor: u8,
}

/// Indicates which fields follow `PLUSPTYPE`.
#[derive(Debug, Clone, Copy, PartialEq, Eq, Structural)]
pub struct PlusPTypeFollower {
    pub has_custom_format: bool,
    pub has_custom_clock: bool,
    pub has_motion_vector_range: bool,
    pub has_slice_structured_submode: bool,
    pub may_have_reference_layer_number: bool,
    pub has_reference_picture_selection: bool,
    pub may_have_temporal_reference: bool,
}

/// A picture header.
#[derive(Debug, Clone, Copy, PartialEq, Eq, Structural)]
pub struct Picture {
    pub temporal_reference: u16,
    /// Whether the header used `PLUSPTYPE` rather than a plain `PTYPE`.
    pub has_plusptype: bool,
    /// Whether `PLUSPTYPE` carried its optional part, `OPPTYPE`.
    pub has_opptype: bool,
    pub format: Option<SourceFormat>,
    pub options: PictureOption,
    pub picture_type: PictureTypeCode,
    pub multiplex_bitstream: Option<Option<u8>>,
    pub picture_clock: Option<CustomPictureClock>,
}

/// A motion vector component, in half-pixel units.
#[derive(Debug, Clone, Copy, PartialEq, Eq, Structural)]
pub struct HalfPel(pub i16);

/// The whole-pixel offset of a half-pixel value, rounded down.
pub open spec fn halfpel_whole(v: int) -> int {
    if v % 2 == 0 {
        v / 2
    } else {
        (v - 1) / 2
    }
}

/// The rounding that H.263 gives a sixteenth of a pixel when it turns it
/// into half pixels.
pub open spec fn sixteenth_to_half(f: int) -> int {
    if f < 3 {
        0
    } else if f < 14 {
        1
    } else {
        2
    }
}

/// The chroma component, in half pixels, of the sum of four luma components:
/// the sum counts sixteenths of a chroma pixel, rounded as H.263 rounds
/// them, symmetrically about zero.
pub open spec fn chroma_component(sum: int) -> int {
    let a = if sum < 0 { -sum } else { sum };
    let r = (a / 16) * 2 + sixteenth_to_half(a % 16);
    if sum < 0 {
        -r
    } else {
        r
    }
}

impl HalfPel {
    /// Splits the value into a whole-pixel offset (rounded down) and whether
    /// half a pixel more must be interpolated.
    pub fn into_lerp_parameters(self) -> (r: (i16, bool))
        ensures
            r.0 == halfpel_whole(self.0 as int),
            r.1 == (self.0 % 2 != 0),
            r.0 * 2 + (if r.1 { 1int } else { 0int }) == self.0,
    {
        if self.0 % 2 == 0 {
            (self.0 / 2, false)
        } else {
            ((self.0 - 1) / 2, true)
        }
    }

    /// The chroma component for a sum of four luma components.
    pub fn average_sum_of_halfpels(self) -> (r: Self)
        ensures
            r.0 == chroma_component(self.0 as int),
    {
        let s = self.0 as i32;
        let a: i32 = if s < 0 { -s } else { s };
        let f = a % 16;
        let t: i32 = if f < 3 { 0 } else if f < 14 { 1 } else { 2 };
        let r = (a / 16) * 2 + t;
        if s < 0 {
            HalfPel((-r) as i16)
        } else {
            HalfPel(r as i16)
        }
    }
}

/// A motion vector: horizontal and vertical half-pixel components.
#[derive(Debug, Clone, Copy, PartialEq, Eq, Structural)]
pub struct MotionVector(pub HalfPel, pub HalfPel);

/// The whole-pixel offset and half-pixel flag of each component.
pub type LerpParameters = ((i16, bool), (i16, bool));

impl MotionVector {
    /// The whole-pixel offset and half-pixel flag of each component.
    pub fn into_lerp_parameters(self) -> (r: LerpParameters)
        ensures
            r.0.0 == halfpel_whole(self.0.0 as int),
            r.0.1 == (self.0.0 % 2 != 0),
            r.1.0 == halfpel_whole(self.1.0 as int),
            r.1.1 == (self.1.0 % 2 != 0),
    {
        (self.0.into_lerp_parameters(), self.1.into_lerp_parameters())
    }

    /// The chroma vector for the sum of the four luma vectors of a macroblock.
    pub fn average_sum_of_mvs(self) -> (r: Self)
        ensures
            r.0.0 == chroma_component(self.0.0 as int),
            r.1.0 == chroma_component(self.1.0 as int),
    {
        MotionVector(self.0.average_sum_of_halfpels(), self.1.average_sum_of_halfpels())
    }
}

/// How a macroblock is coded.
#[derive(Debug, Clone, Copy, PartialEq, Eq, Structural)]
pub enum MacroblockType {
    Inter,
    InterQ,
    Inter4V,
    Inter4Vq,
    Intra,
    IntraQ,
}

impl MacroblockType {
    /// Whether the macroblock is predicted from a reference picture.
    pub open spec fn spec_is_inter(self) -> bool {
        match self {
            MacroblockType::Inter | MacroblockType::InterQ | MacroblockType::Inter4V
            | MacroblockType::Inter4Vq => true,
            _ => false,
        }
    }

    /// Whether the macroblock is predicted from a reference picture.
    pub fn is_inter(self) -> (r: bool)
        ensures
            r == self.spec_is_inter(),
    {
        match self {
            MacroblockType::Inter | MacroblockType::InterQ | MacroblockType::Inter4V
            | MacroblockType::Inter4Vq => true,
            _ => false,
        }
    }
}

/// A decoded picture: a luma plane and two chroma planes, each stored row
/// by row.
pub struct DecodedPicture {
    pub luma: Vec<u8>,
    pub chroma_b: Vec<u8>,
    pub chroma_r: Vec<u8>,
    pub luma_samples_per_row: usize,
    pub chroma_samples_per_row: usize,
}

impl DecodedPicture {
    pub fn as_luma(&self) -> (r: &[u8])
        ensures
            r@ == self.luma@,
    {
        self.luma.as_slice()
    }

    pub fn as_chroma_b(&self) -> (r: &[u8])
        ensures
            r@ == self.chroma_b@,
    {
        self.chroma_b.as_slice()
    }

    pub fn as_chroma_r(&self) -> (r: &[u8])
        ensures
            r@ == self.chroma_r@,
    {
        self.chroma_r.as_slice()
    }

    pub fn as_luma_mut(&mut self) -> (r: &mut [u8])
        ensures
            r@ == old(self).luma@,
            final(self).luma@ == final(r)@,
            final(self).chroma_b == old(self).chroma_b,
            final(self).chroma_r == old(self).chroma_r,
            final(self).luma_samples_per_row == old(self).luma_samples_per_row,
            final(self).chroma_samples_per_row == old(self).chroma_samples_per_row,
    {
        self.luma.as_mut_slice()
    }

    pub fn as_chroma_b_mut(&mut self) -> (r: &mut [u8])
        ensures
            r@ == old(self).chroma_b@,
            final(self).chroma_b@ == final(r)@,
            final(self).luma == old(self).luma,
            final(self).chroma_r == old(self).chroma_r,
            final(self).luma_samples_per_row == old(self).luma_samples_per_row,
            final(self).chroma_samples_per_row == old(self).chroma_samples_per_row,
    {
        self.chroma_b.as_mut_slice()
    }

    pub fn as_chroma_r_mut(&mut self) -> (r: &mut [u8])
        ensures
            r@ == old(self).chroma_r@,
            final(self).chroma_r@ == final(r)@,
            final(self).luma == old(self).luma,
            final(self).chroma_b == old(self).chroma_b,
            final(self).luma_samples_per_row == old(self).luma_samples_per_row,
            final(self).chroma_samples_per_row == old(self).chroma_samples_per_row,
    {
        self.chroma_r.as_mut_slice()
    }

    pub fn luma_samples_per_row(&self) -> (r: usize)
        ensures
            r == self.luma_samples_per_row,
    {
        self.luma_samples_per_row
    }

    pub fn chroma_samples_per_row(&self) -> (r: usize)
        ensures
            r == self.chroma_samples_per_row,
    {
        self.chroma_samples_per_row
    }
}

} // verus!
