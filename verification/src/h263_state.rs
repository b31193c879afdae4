//! The state an H.263 decoder keeps between pictures.

use vstd::prelude::*;
use std::collections::HashMap;
use crate::h263_types::{
    PictureOption, DecodedPicture, Picture, PictureTypeCode, SourceFormat, no_options,
    carry_options, opptype_option_set, mpptype_option_set, options_union,
};
use crate::h263_reader::Error;

verus! {

broadcast use vstd::std_specs::hash::group_hash_axioms;

/// Options which influence the decoding of a bitstream.
#[derive(Debug, Clone, Copy, PartialEq, Eq, Structural)]
pub struct DecoderOption {
    /// Attempt to decode the video as a Sorenson Spark bitstream.
    ///
    /// Sorenson Spark is a modified H.263 video format notably used in early
    /// iterations of Macromedia Flash Player. It was replaced with On2 VP6,
    /// and later on, standard H.264.
    pub sorenson_spark_bitstream: bool,
    /// Whether or not the use of Annex O's Temporal, SNR, and Spatial
    /// Scalability mode has been negotiated.
    pub use_scalability_mode: bool,
}

/// The temporal reference that stands for "no picture decoded yet".
pub const NO_PICTURE: u16 = 0xFFFF;

/// All state necessary to decode a successive series of H.263 pictures.
pub struct H263State {
    /// External decoder options enabled on this decoder.
    decoder_options: DecoderOption,
    /// The temporal reference of the last decoded picture.
    last_picture: u16,
    /// All currently in-force picture options as of the last decoded frame.
    running_options: PictureOption,
    /// All previously-encoded reference pictures.
    reference_picture: HashMap<u16, DecodedPicture>,
}

impl H263State {
    /// The decoder options in force.
    pub closed spec fn spec_decoder_options(&self) -> DecoderOption {
        self.decoder_options
    }

    /// The temporal reference of the last decoded picture, or `NO_PICTURE`.
    pub closed spec fn spec_last_picture(&self) -> u16 {
        self.last_picture
    }

    /// The picture options in force as of the last decoded picture.
    pub closed spec fn spec_running_options(&self) -> PictureOption {
        self.running_options
    }

    /// The reference pictures, by temporal reference.
    pub closed spec fn reference_pictures(&self) -> Map<u16, DecodedPicture> {
        self.reference_picture@
    }

    /// Construct a new `H263State`.
    pub fn new(decoder_options: DecoderOption) -> (r: Self)
        ensures
            r.spec_decoder_options() == decoder_options,
            r.spec_last_picture() == NO_PICTURE,
            r.spec_running_options() == no_options(),
            r.reference_pictures() == Map::<u16, DecodedPicture>::empty(),
    {
        Self {
            decoder_options,
            last_picture: NO_PICTURE,
            running_options: PictureOption::empty(),
            reference_picture: HashMap::new(),
        }
    }

    /// Get the last picture decoded in the bitstream.
    ///
    /// If `None`, then no pictures have yet to be decoded.
    pub fn get_last_picture(&self) -> (r: Option<&DecodedPicture>)
        ensures
            self.spec_last_picture() == NO_PICTURE ==> r is None,
            self.spec_last_picture() != NO_PICTURE ==> match r {
                Some(p) => self.reference_pictures().contains_key(self.spec_last_picture())
                    && *p == self.reference_pictures()[self.spec_last_picture()],
                None => !self.reference_pictures().contains_key(self.spec_last_picture()),
            },
    {
        if self.last_picture == NO_PICTURE {
            None
        } else {
            self.reference_picture.get(&self.last_picture)
        }
    }

    /// Files a freshly decoded picture under its temporal reference as the
    /// last picture. An I-frame first drops every older reference picture:
    /// nothing is predicted backwards across it.
    pub fn record_picture(&mut self, temporal_reference: u16, picture_type: PictureTypeCode, picture: DecodedPicture)
        ensures
            picture_recorded(*old(self), *final(self), temporal_reference, picture_type, picture),
    {
        if matches!(picture_type, PictureTypeCode::IFrame) {
            self.reference_picture = HashMap::new();
        }
        self.last_picture = temporal_reference;
        self.reference_picture.insert(self.last_picture, picture);
    }
}

/// `after` is `before` with `picture` filed under `temporal_reference` as
/// the last picture, the older pictures dropped first for an I-frame.
pub open spec fn picture_recorded(
    before: H263State,
    after: H263State,
    temporal_reference: u16,
    picture_type: PictureTypeCode,
    picture: DecodedPicture,
) -> bool {
    &&& after.spec_decoder_options() == before.spec_decoder_options()
    &&& after.spec_running_options() == before.spec_running_options()
    &&& after.spec_last_picture() == temporal_reference
    &&& after.reference_pictures() == (if picture_type == PictureTypeCode::IFrame {
        Map::<u16, DecodedPicture>::empty()
    } else {
        before.reference_pictures()
    }).insert(temporal_reference, picture)
}

/// Once a picture has been recorded, it is the last picture: the decoder
/// state yields it next.
pub proof fn lemma_recorded_picture_is_last(
    before: H263State,
    after: H263State,
    temporal_reference: u16,
    picture_type: PictureTypeCode,
    picture: DecodedPicture,
)
    requires
        picture_recorded(before, after, temporal_reference, picture_type, picture),
        temporal_reference != NO_PICTURE,
    ensures
        after.spec_last_picture() != NO_PICTURE,
        after.reference_pictures().contains_key(after.spec_last_picture()),
        after.reference_pictures()[after.spec_last_picture()] == picture,
{
}

/// After an I-frame the decoder holds that picture alone; after any other
/// picture it still holds every earlier reference picture under another
/// temporal reference.
pub proof fn lemma_references_after_recording(
    before: H263State,
    after: H263State,
    temporal_reference: u16,
    picture_type: PictureTypeCode,
    picture: DecodedPicture,
    other: u16,
)
    requires
        picture_recorded(before, after, temporal_reference, picture_type, picture),
        other != temporal_reference,
    ensures
        picture_type == PictureTypeCode::IFrame ==> !after.reference_pictures().contains_key(other),
        picture_type != PictureTypeCode::IFrame ==> (
            after.reference_pictures().contains_key(other) == before.reference_pictures().contains_key(other)
            && (before.reference_pictures().contains_key(other) ==> after.reference_pictures()[other] == before.reference_pictures()[other])),
{
}

/// The options in force for the next picture. A header with the whole of
/// `PLUSPTYPE`, `OPPTYPE` included, sets every option; one with `PLUSPTYPE`
/// but no `OPPTYPE` keeps the `OPPTYPE` options that were in force; one with
/// a plain `PTYPE` keeps both the `OPPTYPE` and the `MPPTYPE` options in
/// force.
pub open spec fn running_options_after(picture: Picture, running: PictureOption) -> PictureOption {
    if picture.has_plusptype && picture.has_opptype {
        picture.options
    } else if picture.has_plusptype {
        carry_options(picture.options, running, opptype_option_set())
    } else {
        carry_options(picture.options, running, options_union(opptype_option_set(), mpptype_option_set()))
    }
}

/// Works out the options in force for the next picture from its header and
/// the options in force until now.
pub fn next_running_options(picture: &Picture, running: PictureOption) -> (r: PictureOption)
    ensures
        r == running_options_after(*picture, running),
{
    let opptype = PictureOption::opptype_options();
    if picture.has_plusptype && picture.has_opptype {
        picture.options
    } else if picture.has_plusptype {
        picture.options.intersection(opptype.complement()).union(running.intersection(opptype))
    } else {
        let mpptype = PictureOption::mpptype_options();
        picture.options.intersection(opptype.complement()).intersection(mpptype.complement()).union(
            running.intersection(opptype.union(mpptype)),
        )
    }
}

/// The source format of the next picture: its own, or else, for a picture
/// other than an I-frame, that of the last picture.
pub open spec fn format_for(picture: Picture, last_format: Option<SourceFormat>) -> Result<SourceFormat, Error> {
    match picture.format {
        Some(f) => Ok(f),
        None => if picture.picture_type == PictureTypeCode::IFrame {
            Err(Error::PictureFormatMissing)
        } else {
            match last_format {
                Some(f) => Ok(f),
                None => Err(Error::PictureFormatMissing),
            }
        },
    }
}

/// Picks the source format of the next picture, given the format of the last
/// picture decoded (if any). An I-frame must give its own.
pub fn picture_format(picture: &Picture, last_format: Option<SourceFormat>) -> (r: Result<SourceFormat, Error>)
    ensures
        r == format_for(*picture, last_format),
{
    if let Some(format) = picture.format {
        Ok(format)
    } else if matches!(picture.picture_type, PictureTypeCode::IFrame) {
        Err(Error::PictureFormatMissing)
    } else if let Some(ref_format) = last_format {
        Ok(ref_format)
    } else {
        Err(Error::PictureFormatMissing)
    }
}

/// The quantizer of a macroblock: the one in force, moved by the
/// macroblock's `DQUANT` (if any), kept within 1 to 31.
pub fn macroblock_quantizer(in_force_quantizer: u8, d_quantizer: Option<i8>) -> (r: i16)
    ensures
        r == ({
            let q = in_force_quantizer + match d_quantizer { Some(d) => d as int, None => 0int };
            if q < 1 { 1int } else if q > 31 { 31int } else { q }
        }),
        1 <= r <= 31,
{
    let d: i16 = match d_quantizer {
        Some(d) => d as i16,
        None => 0,
    };
    let q: i16 = in_force_quantizer as i16 + d;
    let lower: i16 = if q > 1 { q } else { 1 };
    if lower < 31 { lower } else { 31 }
}

} // verus!
