use pgsmod::decode::{decode_segment, decode_stream, DecodeError};
use pgsmod::encode::{encode_segment, encode_stream, EncodeError};
use pgsmod::model::{
    CompositionObject, CropRect, ObjectDefinition, PresentationComposition, Segment, SegmentBody,
    WindowDef,
};

fn composition_bytes() -> Vec<u8> {
    vec![
        0x50, 0x47, 0x00, 0x01, 0x02, 0x03, 0xFF, 0xFE, 0xFD, 0xFC, 0x16, 0x00, 0x23, // header
        0x07, 0x80, 0x04, 0x38, 0x10, 0x01, 0x02, 0x80, 0x00, 0x05, 0x02, // composition
        0x00, 0x07, 0x01, 0x40, 0x03, 0x5C, 0x01, 0xF4, // object without crop
        0x12, 0x34, 0x02, 0xC0, 0x00, 0x0A, 0x00, 0x14, // object with crop
        0x00, 0x01, 0x00, 0x02, 0x00, 0x30, 0x00, 0x40, // its crop rectangle
    ]
}

fn composition_segment() -> Segment {
    Segment {
        pts: 0x0001_0203,
        dts: 0xFFFE_FDFC,
        body: SegmentBody::PresentationComposition(PresentationComposition {
            width: 1920,
            height: 1080,
            frame_rate: 0x10,
            composition_id: 0x0102,
            state: 0x80,
            palette_update: 0,
            palette_id: 5,
            objects: vec![
                CompositionObject {
                    object_id: 7,
                    window_id: 1,
                    flags: 0x40,
                    x: 860,
                    y: 500,
                    crop: None,
                },
                CompositionObject {
                    object_id: 0x1234,
                    window_id: 2,
                    flags: 0xC0,
                    x: 10,
                    y: 20,
                    crop: Some(CropRect { x: 1, y: 2, width: 0x30, height: 0x40 }),
                },
            ],
        }),
    }
}

fn windows_bytes() -> Vec<u8> {
    vec![
        0x50, 0x47, 0, 0, 0, 1, 0, 0, 0, 2, 0x17, 0x00, 0x13, // header
        0x02, // count
        0x00, 0x00, 0x64, 0x00, 0xC8, 0x01, 0x2C, 0x01, 0x90, // window 0
        0x01, 0x07, 0x80, 0x04, 0x38, 0xFF, 0xFF, 0x00, 0x00, // window 1
    ]
}

fn windows_segment() -> Segment {
    Segment {
        pts: 1,
        dts: 2,
        body: SegmentBody::WindowDefinition(vec![
            WindowDef { id: 0, x: 100, y: 200, width: 300, height: 400 },
            WindowDef { id: 1, x: 1920, y: 1080, width: 65535, height: 0 },
        ]),
    }
}

fn object_bytes() -> Vec<u8> {
    vec![
        0x50, 0x47, 0, 0, 0, 3, 0, 0, 0, 4, 0x15, 0x00, 0x0E, // header
        0x00, 0x07, 0x01, 0xC0, 0x01, 0x02, 0x03, 0x00, 0xC8, 0x00, 0x64, // fixed fields
        0xAA, 0xBB, 0xCC, // data
    ]
}

fn object_segment() -> Segment {
    Segment {
        pts: 3,
        dts: 4,
        body: SegmentBody::ObjectDefinition(ObjectDefinition {
            id: 7,
            version: 1,
            sequence: 0xC0,
            data_length: 0x01_0203,
            width: 200,
            height: 100,
            data: vec![0xAA, 0xBB, 0xCC],
        }),
    }
}

fn palette_bytes() -> Vec<u8> {
    vec![0x50, 0x47, 0, 0, 0, 5, 0, 0, 0, 6, 0x14, 0x00, 0x07, 0, 0, 1, 16, 128, 128, 255]
}

fn palette_segment() -> Segment {
    Segment {
        pts: 5,
        dts: 6,
        body: SegmentBody::PaletteDefinition(vec![0, 0, 1, 16, 128, 128, 255]),
    }
}

fn end_bytes() -> Vec<u8> {
    vec![0x50, 0x47, 0, 0, 0, 7, 0, 0, 0, 8, 0x80, 0x00, 0x00]
}

fn end_segment() -> Segment {
    Segment { pts: 7, dts: 8, body: SegmentBody::EndOfDisplaySet }
}

fn encoded(segment: &Segment) -> Result<Vec<u8>, EncodeError> {
    let mut out = Vec::new();
    encode_segment(segment, &mut out).map(|()| out)
}

fn empty_composition(objects: Vec<CompositionObject>) -> Segment {
    Segment {
        pts: 0,
        dts: 0,
        body: SegmentBody::PresentationComposition(PresentationComposition {
            width: 0,
            height: 0,
            frame_rate: 0,
            composition_id: 0,
            state: 0,
            palette_update: 0,
            palette_id: 0,
            objects,
        }),
    }
}

fn plain_object() -> CompositionObject {
    CompositionObject { object_id: 1, window_id: 0, flags: 0, x: 0, y: 0, crop: None }
}

#[test]
fn decode_composition() {
    let bytes = composition_bytes();
    assert_eq!(decode_segment(&bytes), Ok(Some((composition_segment(), bytes.len()))));
}

#[test]
fn decode_window_definition() {
    let bytes = windows_bytes();
    assert_eq!(decode_segment(&bytes), Ok(Some((windows_segment(), bytes.len()))));
}

#[test]
fn decode_object_definition() {
    let bytes = object_bytes();
    assert_eq!(decode_segment(&bytes), Ok(Some((object_segment(), bytes.len()))));
}

#[test]
fn decode_palette_definition() {
    let bytes = palette_bytes();
    assert_eq!(decode_segment(&bytes), Ok(Some((palette_segment(), bytes.len()))));
}

#[test]
fn decode_end_of_display_set() {
    let bytes = end_bytes();
    assert_eq!(decode_segment(&bytes), Ok(Some((end_segment(), 13))));
}

#[test]
fn decode_reads_one_segment_and_leaves_the_rest() {
    let mut bytes = end_bytes();
    bytes.extend_from_slice(&[0xDE, 0xAD]);
    assert_eq!(decode_segment(&bytes), Ok(Some((end_segment(), 13))));
    let mut bytes = object_bytes();
    bytes.extend_from_slice(&palette_bytes());
    assert_eq!(decode_segment(&bytes), Ok(Some((object_segment(), 27))));
}

#[test]
fn encode_composition() {
    assert_eq!(encoded(&composition_segment()), Ok(composition_bytes()));
}

#[test]
fn encode_window_definition() {
    assert_eq!(encoded(&windows_segment()), Ok(windows_bytes()));
}

#[test]
fn encode_object_definition() {
    assert_eq!(encoded(&object_segment()), Ok(object_bytes()));
}

#[test]
fn encode_palette_definition() {
    assert_eq!(encoded(&palette_segment()), Ok(palette_bytes()));
}

#[test]
fn encode_end_of_display_set() {
    assert_eq!(encoded(&end_segment()), Ok(end_bytes()));
}

#[test]
fn encode_appends_to_what_is_there() {
    let mut out = vec![1, 2, 3];
    assert_eq!(encode_segment(&end_segment(), &mut out), Ok(()));
    let mut expected = vec![1, 2, 3];
    expected.extend_from_slice(&end_bytes());
    assert_eq!(out, expected);
}

#[test]
fn body_length_follows_the_body() {
    let mut segment = palette_segment();
    segment.body = SegmentBody::PaletteDefinition(vec![9; 300]);
    let bytes = encoded(&segment).unwrap();
    assert_eq!(bytes.len(), 313);
    assert_eq!(&bytes[11..13], &[0x01, 0x2C]);
    let mut segment = composition_segment();
    if let SegmentBody::PresentationComposition(pc) = &mut segment.body {
        pc.objects.pop();
    }
    let bytes = encoded(&segment).unwrap();
    assert_eq!(&bytes[11..13], &[0x00, 0x13]);
    assert_eq!(bytes[23], 1);
    assert_eq!(bytes.len(), 32);
}

#[test]
fn segment_round_trip_is_byte_identical() {
    let all =
        [composition_bytes(), windows_bytes(), object_bytes(), palette_bytes(), end_bytes()];
    for bytes in all {
        let (segment, used) = decode_segment(&bytes).unwrap().unwrap();
        assert_eq!(used, bytes.len());
        assert_eq!(encoded(&segment), Ok(bytes));
    }
}

#[test]
fn segment_read_back_is_the_segment_written() {
    for segment in [
        composition_segment(),
        windows_segment(),
        object_segment(),
        palette_segment(),
        end_segment(),
    ] {
        let bytes = encoded(&segment).unwrap();
        assert_eq!(decode_segment(&bytes), Ok(Some((segment, bytes.len()))));
    }
}

#[test]
fn reserved_flag_bits_and_unread_fields_pass_through() {
    let mut bytes = composition_bytes();
    bytes[17] = 0xAB; // frame rate
    bytes[20] = 0x55; // state
    bytes[21] = 0x66; // palette update
    bytes[27] = 0x7F; // flags of the first object, no crop bit
    bytes[35] = 0xFF; // flags of the second object, crop bit set
    let (segment, _) = decode_segment(&bytes).unwrap().unwrap();
    assert_eq!(encoded(&segment), Ok(bytes));
}

#[test]
fn end_of_input_is_no_segment() {
    assert_eq!(decode_segment(&[]), Ok(None));
}

#[test]
fn input_that_ends_in_the_header_is_truncated() {
    let bytes = end_bytes();
    for n in 1..13 {
        assert_eq!(decode_segment(&bytes[..n]), Err(DecodeError::Truncated));
    }
    assert_eq!(decode_segment(&[0x00]), Err(DecodeError::Truncated));
}

#[test]
fn input_that_ends_in_the_body_is_truncated() {
    let bytes = composition_bytes();
    for n in 13..bytes.len() {
        assert_eq!(decode_segment(&bytes[..n]), Err(DecodeError::Truncated));
    }
}

#[test]
fn wrong_magic_is_refused() {
    let mut bytes = end_bytes();
    bytes[0] = 0x51;
    assert_eq!(decode_segment(&bytes), Err(DecodeError::BadMagic));
    let mut bytes = end_bytes();
    bytes[1] = 0x50;
    assert_eq!(decode_segment(&bytes), Err(DecodeError::BadMagic));
    assert_eq!(decode_segment(&[0x47, 0x50]), Err(DecodeError::BadMagic));
    assert_eq!(decode_segment(&[0x00, 0x00, 0x00]), Err(DecodeError::BadMagic));
}

#[test]
fn unknown_type_code_is_refused() {
    for code in [0x00u8, 0x13, 0x18, 0x7F, 0x81, 0xFF] {
        let mut bytes = end_bytes();
        bytes[10] = code;
        assert_eq!(decode_segment(&bytes), Err(DecodeError::UnknownType));
    }
    let mut bytes = end_bytes();
    bytes[10] = 0x42;
    bytes[12] = 0x05;
    assert_eq!(decode_segment(&bytes), Err(DecodeError::UnknownType));
}

#[test]
fn end_with_a_body_is_a_length_mismatch() {
    let mut bytes = end_bytes();
    bytes[12] = 1;
    bytes.push(0);
    assert_eq!(decode_segment(&bytes), Err(DecodeError::LengthMismatch));
}

#[test]
fn composition_shorter_than_its_fixed_fields_is_a_length_mismatch() {
    let mut bytes = composition_bytes();
    bytes[12] = 10;
    assert_eq!(decode_segment(&bytes), Err(DecodeError::LengthMismatch));
}

#[test]
fn composition_with_fewer_bytes_than_its_objects_is_a_length_mismatch() {
    let mut bytes = composition_bytes();
    bytes[12] = 0x22;
    assert_eq!(decode_segment(&bytes), Err(DecodeError::LengthMismatch));
    let mut bytes = composition_bytes();
    bytes[23] = 3;
    assert_eq!(decode_segment(&bytes), Err(DecodeError::LengthMismatch));
    let mut bytes = composition_bytes();
    bytes[27] = 0x80;
    bytes[43] = 0x80;
    assert_eq!(decode_segment(&bytes), Err(DecodeError::LengthMismatch));
}

#[test]
fn crop_bit_decides_where_the_next_object_begins() {
    let mut bytes = composition_bytes();
    bytes[27] = 0x80;
    let (segment, used) = decode_segment(&bytes).unwrap().unwrap();
    assert_eq!(used, bytes.len());
    let mut expected = composition_segment();
    if let SegmentBody::PresentationComposition(pc) = &mut expected.body {
        pc.objects = vec![
            CompositionObject {
                object_id: 7,
                window_id: 1,
                flags: 0x80,
                x: 860,
                y: 500,
                crop: Some(CropRect { x: 0x1234, y: 0x02C0, width: 10, height: 20 }),
            },
            CompositionObject {
                object_id: 1,
                window_id: 0,
                flags: 0x02,
                x: 0x30,
                y: 0x40,
                crop: None,
            },
        ];
    }
    assert_eq!(segment, expected);
}

#[test]
fn composition_with_more_bytes_than_its_objects_is_a_length_mismatch() {
    let mut bytes = composition_bytes();
    bytes[23] = 1;
    assert_eq!(decode_segment(&bytes), Err(DecodeError::LengthMismatch));
    let mut bytes = composition_bytes();
    bytes[35] = 0x00;
    assert_eq!(decode_segment(&bytes), Err(DecodeError::LengthMismatch));
    let mut bytes = composition_bytes();
    bytes[12] = 0x24;
    bytes.push(0);
    assert_eq!(decode_segment(&bytes), Err(DecodeError::LengthMismatch));
}

#[test]
fn window_definition_of_wrong_length_is_a_length_mismatch() {
    let mut bytes = windows_bytes();
    bytes[13] = 1;
    assert_eq!(decode_segment(&bytes), Err(DecodeError::LengthMismatch));
    let mut bytes = windows_bytes();
    bytes[13] = 3;
    assert_eq!(decode_segment(&bytes), Err(DecodeError::LengthMismatch));
    let mut bytes = end_bytes();
    bytes[10] = 0x17;
    assert_eq!(decode_segment(&bytes), Err(DecodeError::LengthMismatch));
}

#[test]
fn object_definition_shorter_than_its_fixed_fields_is_a_length_mismatch() {
    let mut bytes = object_bytes();
    bytes[12] = 10;
    assert_eq!(decode_segment(&bytes), Err(DecodeError::LengthMismatch));
    bytes[12] = 11;
    let (segment, used) = decode_segment(&bytes).unwrap().unwrap();
    assert_eq!(used, 24);
    let mut expected = object_segment();
    if let SegmentBody::ObjectDefinition(od) = &mut expected.body {
        od.data.clear();
    }
    assert_eq!(segment, expected);
}

#[test]
fn empty_bodies_that_are_allowed() {
    let mut bytes = end_bytes();
    bytes[10] = 0x14;
    assert_eq!(
        decode_segment(&bytes),
        Ok(Some((Segment { pts: 7, dts: 8, body: SegmentBody::PaletteDefinition(vec![]) }, 13)))
    );
    let mut bytes = end_bytes();
    bytes[10] = 0x17;
    bytes[12] = 1;
    bytes.push(0);
    assert_eq!(
        decode_segment(&bytes),
        Ok(Some((Segment { pts: 7, dts: 8, body: SegmentBody::WindowDefinition(vec![]) }, 14)))
    );
}

#[test]
fn empty_stream_is_no_segments() {
    assert_eq!(decode_stream(&[]), Ok(vec![]));
    assert_eq!(encode_stream(&vec![]), Ok(vec![]));
}

#[test]
fn stream_round_trip_is_byte_identical() {
    let mut bytes = Vec::new();
    bytes.extend_from_slice(&composition_bytes());
    bytes.extend_from_slice(&windows_bytes());
    bytes.extend_from_slice(&palette_bytes());
    bytes.extend_from_slice(&object_bytes());
    bytes.extend_from_slice(&end_bytes());
    let segments = decode_stream(&bytes).unwrap();
    assert_eq!(
        segments,
        vec![
            composition_segment(),
            windows_segment(),
            palette_segment(),
            object_segment(),
            end_segment()
        ]
    );
    assert_eq!(encode_stream(&segments), Ok(bytes));
}

#[test]
fn stream_that_ends_inside_a_segment_is_truncated() {
    let mut bytes = end_bytes();
    bytes.extend_from_slice(&palette_bytes());
    for n in 14..bytes.len() {
        assert_eq!(decode_stream(&bytes[..n]), Err(DecodeError::Truncated));
    }
    assert_eq!(decode_stream(&bytes[..13]), Ok(vec![end_segment()]));
}

#[test]
fn stream_reports_the_first_error() {
    let mut bytes = end_bytes();
    bytes.extend_from_slice(&[0x50, 0x47, 0, 0, 0, 0, 0, 0, 0, 0, 0x99, 0, 0]);
    bytes.extend_from_slice(&[0x00, 0x00]);
    assert_eq!(decode_stream(&bytes), Err(DecodeError::UnknownType));
    let mut bytes = end_bytes();
    bytes.extend_from_slice(&[0x00, 0x00]);
    bytes.extend_from_slice(&[0x50, 0x47, 0, 0, 0, 0, 0, 0, 0, 0, 0x99, 0, 0]);
    assert_eq!(decode_stream(&bytes), Err(DecodeError::BadMagic));
    let mut bytes = end_bytes();
    bytes.extend_from_slice(&[0x50, 0x47, 0, 0, 0, 0, 0, 0, 0, 0, 0x80, 0, 1, 0]);
    assert_eq!(decode_stream(&bytes), Err(DecodeError::LengthMismatch));
}

#[test]
fn too_many_objects_are_refused() {
    assert_eq!(
        encoded(&empty_composition(vec![plain_object(); 256])),
        Err(EncodeError::TooManyObjects)
    );
    let bytes = encoded(&empty_composition(vec![plain_object(); 255])).unwrap();
    assert_eq!(bytes.len(), 13 + 11 + 255 * 8);
    assert_eq!(&bytes[11..13], &[0x08, 0x03]);
    assert_eq!(bytes[23], 255);
    assert_eq!(decode_segment(&bytes).unwrap().unwrap().1, bytes.len());
}

#[test]
fn crop_rectangle_must_agree_with_the_flags() {
    let mut unannounced = plain_object();
    unannounced.crop = Some(CropRect { x: 0, y: 0, width: 1, height: 1 });
    assert_eq!(
        encoded(&empty_composition(vec![plain_object(), unannounced])),
        Err(EncodeError::CropFlagMismatch)
    );
    let mut missing = plain_object();
    missing.flags = 0x80;
    assert_eq!(
        encoded(&empty_composition(vec![missing])),
        Err(EncodeError::CropFlagMismatch)
    );
    let mut both = vec![unannounced; 256];
    both[0] = plain_object();
    assert_eq!(encoded(&empty_composition(both)), Err(EncodeError::TooManyObjects));
}

#[test]
fn too_many_windows_are_refused() {
    let window = WindowDef { id: 0, x: 0, y: 0, width: 0, height: 0 };
    let segment =
        Segment { pts: 0, dts: 0, body: SegmentBody::WindowDefinition(vec![window; 256]) };
    assert_eq!(encoded(&segment), Err(EncodeError::TooManyWindows));
    let segment =
        Segment { pts: 0, dts: 0, body: SegmentBody::WindowDefinition(vec![window; 255]) };
    let bytes = encoded(&segment).unwrap();
    assert_eq!(bytes.len(), 13 + 1 + 255 * 9);
    assert_eq!(decode_segment(&bytes), Ok(Some((segment, bytes.len()))));
}

#[test]
fn data_length_must_fit_in_three_bytes() {
    let mut segment = object_segment();
    if let SegmentBody::ObjectDefinition(od) = &mut segment.body {
        od.data_length = 0x100_0000;
    }
    assert_eq!(encoded(&segment), Err(EncodeError::DataLengthTooLarge));
    if let SegmentBody::ObjectDefinition(od) = &mut segment.body {
        od.data_length = 0xFF_FFFF;
    }
    let bytes = encoded(&segment).unwrap();
    assert_eq!(&bytes[17..20], &[0xFF, 0xFF, 0xFF]);
    if let SegmentBody::ObjectDefinition(od) = &mut segment.body {
        od.data_length = 0x100_0000;
        od.data = vec![0; 70000];
    }
    assert_eq!(encoded(&segment), Err(EncodeError::DataLengthTooLarge));
}

#[test]
fn body_must_fit_the_length_field() {
    let mut segment = object_segment();
    if let SegmentBody::ObjectDefinition(od) = &mut segment.body {
        od.data = vec![0; 65525];
    }
    assert_eq!(encoded(&segment), Err(EncodeError::BodyTooLong));
    if let SegmentBody::ObjectDefinition(od) = &mut segment.body {
        od.data = vec![0; 65524];
    }
    let bytes = encoded(&segment).unwrap();
    assert_eq!(bytes.len(), 13 + 65535);
    assert_eq!(&bytes[11..13], &[0xFF, 0xFF]);
    assert_eq!(decode_segment(&bytes), Ok(Some((segment, bytes.len()))));
    let palette = Segment { pts: 0, dts: 0, body: SegmentBody::PaletteDefinition(vec![0; 65536]) };
    assert_eq!(encoded(&palette), Err(EncodeError::BodyTooLong));
    let palette = Segment { pts: 0, dts: 0, body: SegmentBody::PaletteDefinition(vec![0; 65535]) };
    assert_eq!(encoded(&palette).unwrap().len(), 13 + 65535);
}

#[test]
fn refused_segment_writes_nothing() {
    let mut out = vec![1, 2, 3];
    let segment = empty_composition(vec![plain_object(); 256]);
    assert_eq!(encode_segment(&segment, &mut out), Err(EncodeError::TooManyObjects));
    assert_eq!(out, vec![1, 2, 3]);
}

#[test]
fn stream_with_a_refused_segment_is_refused() {
    let window = WindowDef { id: 0, x: 0, y: 0, width: 0, height: 0 };
    let segments = vec![
        end_segment(),
        Segment { pts: 0, dts: 0, body: SegmentBody::WindowDefinition(vec![window; 300]) },
        empty_composition(vec![plain_object(); 256]),
    ];
    assert_eq!(encode_stream(&segments), Err(EncodeError::TooManyWindows));
}

#[test]
fn timestamps_are_big_endian() {
    let segment =
        Segment { pts: 0x1234_5678, dts: 0x9ABC_DEF0, body: SegmentBody::EndOfDisplaySet };
    assert_eq!(
        encoded(&segment),
        Ok(vec![0x50, 0x47, 0x12, 0x34, 0x56, 0x78, 0x9A, 0xBC, 0xDE, 0xF0, 0x80, 0x00, 0x00])
    );
}

#[test]
fn object_is_well_formed_when_crop_and_flags_agree() {
    let crop = Some(CropRect { x: 0, y: 0, width: 1, height: 1 });
    let mut object = plain_object();
    assert!(object.is_wf());
    object.flags = 0x7F;
    assert!(object.is_wf());
    object.flags = 0x80;
    assert!(!object.is_wf());
    object.crop = crop;
    assert!(object.is_wf());
    object.flags = 0xFF;
    assert!(object.is_wf());
    object.flags = 0x40;
    assert!(!object.is_wf());
}
