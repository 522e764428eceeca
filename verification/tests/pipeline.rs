use pgsmod::decode::DecodeError;
use pgsmod::geometry::Diagnostic;
use pgsmod::inventory::{FormatViolation, ObjectHandle};
use pgsmod::pipeline::{crop_stream, CropError};
use pgsmod::transform::CropSettings;

fn composition(height: u16, y: u16) -> Vec<u8> {
    let [height_hi, height_lo] = height.to_be_bytes();
    let [y_hi, y_lo] = y.to_be_bytes();
    vec![
        0x50, 0x47, 0, 0, 0, 1, 0, 0, 0, 1, 0x16, 0x00, 0x13, // header
        0x07, 0x80, height_hi, height_lo, 0x10, 0x00, 0x01, 0x80, 0x00, 0x00, 0x01, // composition
        0x00, 0x07, 0x00, 0x00, 0x03, 0x5C, y_hi, y_lo, // object
    ]
}

fn object_definition() -> Vec<u8> {
    vec![
        0x50, 0x47, 0, 0, 0, 1, 0, 0, 0, 1, 0x15, 0x00, 0x0D, // header
        0x00, 0x07, 0x00, 0xC0, 0x00, 0x00, 0x06, 0x00, 0xC8, 0x00, 0x64, // fixed fields
        0x12, 0x34, // data
    ]
}

fn palette() -> Vec<u8> {
    vec![0x50, 0x47, 0, 0, 0, 1, 0, 0, 0, 1, 0x14, 0x00, 0x02, 0x00, 0x00]
}

fn end() -> Vec<u8> {
    vec![0x50, 0x47, 0, 0, 0, 1, 0, 0, 0, 1, 0x80, 0x00, 0x00]
}

fn stream(parts: &[Vec<u8>]) -> Vec<u8> {
    parts.concat()
}

fn settings() -> CropSettings {
    CropSettings { width: 1920, height: 800, margin: 30 }
}

#[test]
fn end_to_end_bytes_follow_the_crop() {
    let input = stream(&[composition(1080, 500), palette(), object_definition(), end()]);
    let mut diagnostics = Vec::new();
    assert_eq!(
        crop_stream(&input, &settings(), &mut diagnostics),
        Ok(stream(&[composition(800, 360), palette(), object_definition(), end()]))
    );
    assert_eq!(diagnostics, vec![Diagnostic::NewResolution { width: 1920, height: 1080 }]);
}

#[test]
fn stream_without_overlays_comes_back_byte_identical() {
    let input = stream(&[palette(), object_definition(), end(), end()]);
    let mut diagnostics = Vec::new();
    assert_eq!(crop_stream(&input, &settings(), &mut diagnostics), Ok(input));
    assert_eq!(diagnostics, vec![]);
}

#[test]
fn empty_input_gives_empty_output() {
    let mut diagnostics = Vec::new();
    assert_eq!(crop_stream(&[], &settings(), &mut diagnostics), Ok(vec![]));
}

#[test]
fn malformed_input_gives_no_output() {
    let mut diagnostics = Vec::new();
    let mut input = stream(&[composition(1080, 500), object_definition()]);
    input.pop();
    assert_eq!(
        crop_stream(&input, &settings(), &mut diagnostics),
        Err(CropError::Bitstream(DecodeError::Truncated))
    );
    let mut input = stream(&[composition(1080, 500), object_definition()]);
    input[32] = 0x51;
    assert_eq!(
        crop_stream(&input, &settings(), &mut diagnostics),
        Err(CropError::Bitstream(DecodeError::BadMagic))
    );
    input[32] = 0x50;
    input[42] = 0x18;
    assert_eq!(
        crop_stream(&input, &settings(), &mut diagnostics),
        Err(CropError::Bitstream(DecodeError::UnknownType))
    );
    input[42] = 0x80;
    assert_eq!(
        crop_stream(&input, &settings(), &mut diagnostics),
        Err(CropError::Bitstream(DecodeError::LengthMismatch))
    );
    assert_eq!(diagnostics, vec![]);
}

#[test]
fn duplicate_object_gives_no_output() {
    let input = stream(&[composition(1080, 500), object_definition(), object_definition()]);
    let mut diagnostics = Vec::new();
    assert_eq!(
        crop_stream(&input, &settings(), &mut diagnostics),
        Err(CropError::Format(FormatViolation::DuplicateObject(ObjectHandle {
            composition_id: 1,
            object_id: 7
        })))
    );
    assert_eq!(diagnostics, vec![]);
}

#[test]
fn unresolved_object_gives_no_output() {
    let input = stream(&[object_definition(), composition(1080, 500), end()]);
    let mut diagnostics = Vec::new();
    assert_eq!(
        crop_stream(&input, &settings(), &mut diagnostics),
        Err(CropError::Format(FormatViolation::UnresolvedObject(ObjectHandle {
            composition_id: 1,
            object_id: 7
        })))
    );
    assert_eq!(diagnostics, vec![]);
}

#[test]
fn duplicate_is_found_before_an_unresolved_object() {
    let input = stream(&[object_definition(), object_definition(), composition(1080, 500)]);
    let mut diagnostics = Vec::new();
    assert_eq!(
        crop_stream(&input, &settings(), &mut diagnostics),
        Err(CropError::Format(FormatViolation::DuplicateObject(ObjectHandle {
            composition_id: 0,
            object_id: 7
        })))
    );
}

#[test]
fn crop_to_the_frame_itself_changes_no_byte() {
    let input = stream(&[composition(1080, 500), palette(), object_definition(), end()]);
    let mut diagnostics = Vec::new();
    let settings = CropSettings { width: 1920, height: 1080, margin: 0 };
    assert_eq!(crop_stream(&input, &settings, &mut diagnostics), Ok(input));
    assert_eq!(diagnostics, vec![Diagnostic::NewResolution { width: 1920, height: 1080 }]);
}

#[test]
fn diagnostics_of_the_repositioned_segments_survive_a_refusal() {
    let mut unresolved = composition(1080, 500);
    unresolved[25] = 0x08;
    let input = stream(&[composition(1080, 500), object_definition(), unresolved]);
    let mut diagnostics = Vec::new();
    let settings = CropSettings { width: 1920, height: 150, margin: 30 };
    assert_eq!(
        crop_stream(&input, &settings, &mut diagnostics),
        Err(CropError::Format(FormatViolation::UnresolvedObject(ObjectHandle {
            composition_id: 1,
            object_id: 8
        })))
    );
    assert_eq!(
        diagnostics,
        vec![Diagnostic::NewResolution { width: 1920, height: 1080 }, Diagnostic::CannotFit]
    );
}
