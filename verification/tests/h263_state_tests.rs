use ruffle::h263_reader::Error;
use ruffle::h263_state::{
    macroblock_quantizer, next_running_options, picture_format, DecoderOption, H263State,
};
use ruffle::h263_types::{
    CustomPictureFormat, DecodedPicture, Picture, PictureOption, PictureTypeCode, PixelAspectRatio,
    SourceFormat,
};

fn flat(value: u8) -> DecodedPicture {
    DecodedPicture {
        luma: vec![value; 256],
        chroma_b: vec![value; 64],
        chroma_r: vec![value; 64],
        luma_samples_per_row: 16,
        chroma_samples_per_row: 8,
    }
}

fn state() -> H263State {
    H263State::new(DecoderOption { sorenson_spark_bitstream: true, use_scalability_mode: false })
}

fn picture(
    format: Option<SourceFormat>,
    picture_type: PictureTypeCode,
    has_plusptype: bool,
    has_opptype: bool,
    options: PictureOption,
) -> Picture {
    Picture {
        temporal_reference: 3,
        has_plusptype,
        has_opptype,
        format,
        options,
        picture_type,
        multiplex_bitstream: None,
        picture_clock: None,
    }
}

#[test]
fn a_recorded_picture_becomes_the_last_picture() {
    let mut s = state();
    s.record_picture(4, PictureTypeCode::IFrame, flat(9));
    assert_eq!(s.get_last_picture().unwrap().luma[0], 9);
    s.record_picture(5, PictureTypeCode::PFrame, flat(7));
    assert_eq!(s.get_last_picture().unwrap().luma[0], 7);
    s.record_picture(4, PictureTypeCode::PFrame, flat(1));
    assert_eq!(s.get_last_picture().unwrap().luma[255], 1);
}

#[test]
fn format_comes_from_the_picture_or_the_last_one() {
    let cif = Some(SourceFormat::FullCIF);
    let custom = SourceFormat::Extended(CustomPictureFormat {
        pixel_aspect_ratio: PixelAspectRatio::Square,
        picture_width_indication: 10,
        picture_height_indication: 20,
    });
    let none = PictureOption::empty();
    assert_eq!(picture_format(&picture(cif, PictureTypeCode::IFrame, false, false, none), None), Ok(SourceFormat::FullCIF));
    assert_eq!(picture_format(&picture(cif, PictureTypeCode::PFrame, false, false, none), Some(custom)), Ok(SourceFormat::FullCIF));
    assert_eq!(picture_format(&picture(None, PictureTypeCode::PFrame, true, false, none), Some(custom)), Ok(custom));
    assert_eq!(picture_format(&picture(None, PictureTypeCode::IFrame, true, false, none), Some(custom)), Err(Error::PictureFormatMissing));
    assert_eq!(picture_format(&picture(None, PictureTypeCode::BFrame, true, false, none), None), Err(Error::PictureFormatMissing));
}

fn all_options() -> PictureOption {
    PictureOption::empty().complement()
}

#[test]
fn full_plusptype_sets_every_option() {
    let mut fresh = PictureOption::empty();
    fresh.deblocking_filter = true;
    let r = next_running_options(&picture(None, PictureTypeCode::PFrame, true, true, fresh), all_options());
    assert_eq!(r, fresh);
}

#[test]
fn plusptype_without_opptype_keeps_opptype_options() {
    let mut fresh = PictureOption::empty();
    fresh.rounding_type_one = true;
    fresh.use_split_screen = true;
    fresh.advanced_prediction = true;
    let mut running = PictureOption::empty();
    running.deblocking_filter = true;
    running.reduced_resolution_update = true;
    let r = next_running_options(&picture(None, PictureTypeCode::PFrame, true, false, fresh), running);
    let mut expected = PictureOption::empty();
    expected.rounding_type_one = true;
    expected.use_split_screen = true;
    expected.deblocking_filter = true;
    assert_eq!(r, expected);
}

#[test]
fn plain_ptype_keeps_opptype_and_mpptype_options() {
    let mut fresh = PictureOption::empty();
    fresh.rounding_type_one = true;
    fresh.use_document_camera = true;
    let mut running = PictureOption::empty();
    running.reduced_resolution_update = true;
    running.modified_quantization = true;
    running.use_split_screen = true;
    let r = next_running_options(&picture(None, PictureTypeCode::PFrame, false, false, fresh), running);
    let mut expected = PictureOption::empty();
    expected.use_document_camera = true;
    expected.reduced_resolution_update = true;
    expected.modified_quantization = true;
    assert_eq!(r, expected);
}

#[test]
fn macroblock_quantizer_stays_within_range() {
    assert_eq!(macroblock_quantizer(10, None), 10);
    assert_eq!(macroblock_quantizer(10, Some(-2)), 8);
    assert_eq!(macroblock_quantizer(1, Some(-2)), 1);
    assert_eq!(macroblock_quantizer(30, Some(2)), 31);
    assert_eq!(macroblock_quantizer(255, Some(-128)), 31);
    assert_eq!(macroblock_quantizer(0, Some(0)), 1);
}
