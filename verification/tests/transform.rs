use pgsmod::geometry::Diagnostic;
use pgsmod::inventory::{build_inventory, FormatViolation, Inventory, ObjectHandle};
use pgsmod::model::{
    CompositionObject, CropRect, ObjectDefinition, PresentationComposition, Segment, SegmentBody,
    Size, WindowDef,
};
use pgsmod::transform::{apply, CropSettings};

fn composition(
    composition_id: u16,
    width: u16,
    height: u16,
    objects: Vec<CompositionObject>,
) -> Segment {
    Segment {
        pts: 11,
        dts: 22,
        body: SegmentBody::PresentationComposition(PresentationComposition {
            width,
            height,
            frame_rate: 0x10,
            composition_id,
            state: 0x80,
            palette_update: 0,
            palette_id: 3,
            objects,
        }),
    }
}

fn shown(object_id: u16, x: u16, y: u16) -> CompositionObject {
    CompositionObject { object_id, window_id: 0, flags: 0, x, y, crop: None }
}

fn shown_cropped(object_id: u16, x: u16, y: u16, crop: CropRect) -> CompositionObject {
    CompositionObject { object_id, window_id: 0, flags: 0x80, x, y, crop: Some(crop) }
}

fn object(id: u16, width: u16, height: u16) -> Segment {
    Segment {
        pts: 33,
        dts: 44,
        body: SegmentBody::ObjectDefinition(ObjectDefinition {
            id,
            version: 0,
            sequence: 0xC0,
            data_length: 6,
            width,
            height,
            data: vec![1, 2],
        }),
    }
}

fn windows(windows: Vec<WindowDef>) -> Segment {
    Segment { pts: 55, dts: 66, body: SegmentBody::WindowDefinition(windows) }
}

fn settings(width: u16, height: u16, margin: u16) -> CropSettings {
    CropSettings { width, height, margin }
}

fn inventory(entries: &[(u16, u16, u16, u16)]) -> Inventory {
    let mut inventory = Inventory::new();
    for &(composition_id, object_id, width, height) in entries {
        inventory
            .insert(ObjectHandle { composition_id, object_id }, Size { width, height })
            .unwrap();
    }
    inventory
}

#[test]
fn end_to_end_composition_follows_the_crop() {
    let mut segments =
        vec![composition(1, 1920, 1080, vec![shown(7, 860, 500)]), object(7, 200, 100)];
    let inventory = build_inventory(&segments).ok().unwrap();
    let mut diagnostics = Vec::new();
    assert_eq!(
        apply(&mut segments, &inventory, &settings(1920, 800, 30), &mut diagnostics),
        Ok(())
    );
    assert_eq!(
        segments,
        vec![composition(1, 1920, 800, vec![shown(7, 860, 360)]), object(7, 200, 100)]
    );
    assert_eq!(diagnostics, vec![Diagnostic::NewResolution { width: 1920, height: 1080 }]);
}

#[test]
fn unresolved_object_is_refused() {
    let mut segments = vec![composition(1, 1920, 1080, vec![shown(7, 860, 500)])];
    let mut diagnostics = Vec::new();
    assert_eq!(
        apply(&mut segments, &Inventory::new(), &settings(1920, 800, 30), &mut diagnostics),
        Err(FormatViolation::UnresolvedObject(ObjectHandle { composition_id: 1, object_id: 7 }))
    );
    assert_eq!(segments, vec![composition(1, 1920, 1080, vec![shown(7, 860, 500)])]);
    assert_eq!(diagnostics, vec![]);
}

#[test]
fn object_of_another_display_set_does_not_resolve() {
    let mut segments = vec![
        composition(1, 1920, 1080, vec![]),
        object(7, 200, 100),
        composition(2, 1920, 1080, vec![shown(7, 860, 500)]),
    ];
    let inventory = build_inventory(&segments).ok().unwrap();
    let mut diagnostics = Vec::new();
    assert_eq!(
        apply(&mut segments, &inventory, &settings(1920, 800, 30), &mut diagnostics),
        Err(FormatViolation::UnresolvedObject(ObjectHandle { composition_id: 2, object_id: 7 }))
    );
}

#[test]
fn pass_stops_at_the_first_unresolved_object() {
    let before = vec![
        composition(1, 1920, 1080, vec![shown(7, 860, 500)]),
        windows(vec![WindowDef { id: 0, x: 860, y: 500, width: 200, height: 100 }]),
        composition(1, 1280, 720, vec![shown(7, 0, 0), shown(8, 1, 1), shown(9, 2, 2)]),
        windows(vec![WindowDef { id: 0, x: 860, y: 500, width: 200, height: 100 }]),
        composition(1, 1920, 1080, vec![shown(10, 3, 3)]),
    ];
    let mut segments = before.clone();
    let mut diagnostics = Vec::new();
    assert_eq!(
        apply(
            &mut segments,
            &inventory(&[(1, 7, 200, 100)]),
            &settings(1920, 800, 30),
            &mut diagnostics
        ),
        Err(FormatViolation::UnresolvedObject(ObjectHandle { composition_id: 1, object_id: 8 }))
    );
    assert_eq!(
        segments,
        vec![
            composition(1, 1920, 800, vec![shown(7, 860, 360)]),
            windows(vec![WindowDef { id: 0, x: 860, y: 360, width: 200, height: 100 }]),
            before[2].clone(),
            before[3].clone(),
            before[4].clone(),
        ]
    );
    assert_eq!(diagnostics, vec![Diagnostic::NewResolution { width: 1920, height: 1080 }]);
}

#[test]
fn object_defined_behind_its_composition_resolves() {
    let mut segments = vec![
        composition(5, 1920, 1080, vec![shown(2, 100, 1000), shown(1, 1800, 10)]),
        object(1, 100, 50),
        object(2, 300, 60),
    ];
    let inventory = build_inventory(&segments).ok().unwrap();
    let mut diagnostics = Vec::new();
    assert_eq!(
        apply(&mut segments, &inventory, &settings(1600, 800, 20), &mut diagnostics),
        Ok(())
    );
    // x shift 160, y shift 140
    assert_eq!(
        segments,
        vec![
            composition(5, 1600, 800, vec![shown(2, 20, 720), shown(1, 1480, 20)]),
            object(1, 100, 50),
            object(2, 300, 60),
        ]
    );
}

#[test]
fn crop_rectangle_is_remapped_by_its_own_size() {
    let crop = CropRect { x: 900, y: 1000, width: 50, height: 40 };
    let mut segments = vec![composition(1, 1920, 1080, vec![shown_cropped(7, 860, 500, crop)])];
    let mut diagnostics = Vec::new();
    assert_eq!(
        apply(
            &mut segments,
            &inventory(&[(1, 7, 200, 100)]),
            &settings(1920, 800, 30),
            &mut diagnostics
        ),
        Ok(())
    );
    assert_eq!(
        segments,
        vec![composition(
            1,
            1920,
            800,
            vec![shown_cropped(
                7,
                860,
                360,
                CropRect { x: 900, y: 730, width: 50, height: 40 }
            )]
        )]
    );
}

#[test]
fn windows_follow_the_frame_size_of_the_last_composition() {
    let window = WindowDef { id: 4, x: 860, y: 500, width: 200, height: 100 };
    let mut segments = vec![
        composition(1, 1920, 1080, vec![]),
        windows(vec![window, WindowDef { id: 5, x: 0, y: 1079, width: 10, height: 1 }]),
        composition(2, 1280, 720, vec![]),
        windows(vec![window]),
        Segment { pts: 0, dts: 0, body: SegmentBody::EndOfDisplaySet },
        windows(vec![window]),
    ];
    let mut diagnostics = Vec::new();
    assert_eq!(
        apply(&mut segments, &Inventory::new(), &settings(1280, 600, 30), &mut diagnostics),
        Ok(())
    );
    // after the first composition: x shift 320, y shift 240
    // after the second composition: x shift 0, y shift 60
    assert_eq!(
        segments,
        vec![
            composition(1, 1280, 600, vec![]),
            windows(vec![
                WindowDef { id: 4, x: 540, y: 260, width: 200, height: 100 },
                WindowDef { id: 5, x: 30, y: 569, width: 10, height: 1 },
            ]),
            composition(2, 1280, 600, vec![]),
            windows(vec![WindowDef { id: 4, x: 860, y: 440, width: 200, height: 100 }]),
            Segment { pts: 0, dts: 0, body: SegmentBody::EndOfDisplaySet },
            windows(vec![WindowDef { id: 4, x: 860, y: 440, width: 200, height: 100 }]),
        ]
    );
    assert_eq!(
        diagnostics,
        vec![
            Diagnostic::NewResolution { width: 1920, height: 1080 },
            Diagnostic::NewResolution { width: 1280, height: 720 },
        ]
    );
}

#[test]
fn windows_in_front_of_the_first_composition_are_not_shifted() {
    let mut segments =
        vec![windows(vec![WindowDef { id: 0, x: 500, y: 5, width: 200, height: 100 }])];
    let mut diagnostics = Vec::new();
    assert_eq!(
        apply(&mut segments, &Inventory::new(), &settings(1920, 800, 30), &mut diagnostics),
        Ok(())
    );
    assert_eq!(
        segments,
        vec![windows(vec![WindowDef { id: 0, x: 500, y: 30, width: 200, height: 100 }])]
    );
    assert_eq!(diagnostics, vec![]);
}

#[test]
fn each_resolution_is_reported_once() {
    let mut segments = vec![
        composition(1, 1920, 1080, vec![]),
        composition(2, 1920, 1080, vec![]),
        composition(3, 1280, 720, vec![]),
        composition(4, 1920, 1080, vec![]),
        composition(5, 1280, 720, vec![]),
        composition(6, 1280, 1080, vec![]),
        composition(7, 1920, 800, vec![]),
    ];
    let mut diagnostics = vec![Diagnostic::CannotFit];
    assert_eq!(
        apply(&mut segments, &Inventory::new(), &settings(1920, 800, 30), &mut diagnostics),
        Ok(())
    );
    assert_eq!(
        diagnostics,
        vec![
            Diagnostic::CannotFit,
            Diagnostic::NewResolution { width: 1920, height: 1080 },
            Diagnostic::NewResolution { width: 1280, height: 720 },
            Diagnostic::NewResolution { width: 1280, height: 1080 },
            Diagnostic::NewResolution { width: 1920, height: 800 },
        ]
    );
    for (i, segment) in segments.iter().enumerate() {
        assert_eq!(*segment, composition(i as u16 + 1, 1920, 800, vec![]));
    }
}

#[test]
fn extents_that_cannot_fit_are_pinned_and_reported_in_order() {
    let crop = CropRect { x: 5, y: 6, width: 100, height: 2000 };
    let mut segments = vec![
        composition(
            1,
            1920,
            1080,
            vec![shown(1, 860, 500), shown_cropped(2, 860, 500, crop), shown(3, 860, 500)],
        ),
        windows(vec![
            WindowDef { id: 0, x: 860, y: 500, width: 1900, height: 100 },
            WindowDef { id: 1, x: 860, y: 500, width: 1900, height: 790 },
        ]),
    ];
    let mut diagnostics = Vec::new();
    assert_eq!(
        apply(
            &mut segments,
            &inventory(&[(1, 1, 200, 741), (1, 2, 1861, 100), (1, 3, 1861, 741)]),
            &settings(1920, 800, 30),
            &mut diagnostics
        ),
        Ok(())
    );
    assert_eq!(
        segments,
        vec![
            composition(
                1,
                1920,
                800,
                vec![
                    shown(1, 860, 0),
                    shown_cropped(
                        2,
                        0,
                        360,
                        CropRect { x: 30, y: 0, width: 100, height: 2000 }
                    ),
                    shown(3, 0, 0),
                ],
            ),
            windows(vec![
                WindowDef { id: 0, x: 0, y: 360, width: 1900, height: 100 },
                WindowDef { id: 1, x: 0, y: 0, width: 1900, height: 790 },
            ]),
        ]
    );
    assert_eq!(
        diagnostics,
        vec![
            Diagnostic::NewResolution { width: 1920, height: 1080 },
            Diagnostic::CannotFit,
            Diagnostic::CannotFit,
            Diagnostic::CannotFit,
            Diagnostic::CannotFit,
            Diagnostic::CannotFit,
            Diagnostic::CannotFit,
            Diagnostic::CannotFit,
            Diagnostic::CannotFit,
        ]
    );
}

#[test]
fn other_segments_and_sizes_are_untouched() {
    let before = vec![
        object(7, 200, 100),
        Segment { pts: 1, dts: 2, body: SegmentBody::PaletteDefinition(vec![1, 2, 3]) },
        Segment { pts: 3, dts: 4, body: SegmentBody::EndOfDisplaySet },
    ];
    let mut segments = before.clone();
    let mut diagnostics = Vec::new();
    assert_eq!(
        apply(&mut segments, &Inventory::new(), &settings(100, 100, 30), &mut diagnostics),
        Ok(())
    );
    assert_eq!(segments, before);
    assert_eq!(diagnostics, vec![]);
}

#[test]
fn empty_stream_is_left_empty() {
    let mut segments = Vec::new();
    let mut diagnostics = Vec::new();
    assert_eq!(
        apply(&mut segments, &Inventory::new(), &settings(1920, 800, 30), &mut diagnostics),
        Ok(())
    );
    assert_eq!(segments, vec![]);
    assert_eq!(diagnostics, vec![]);
}
