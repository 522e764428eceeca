use pgsmod::inventory::{build_inventory, FormatViolation, Inventory, ObjectHandle};
use pgsmod::model::{
    ObjectDefinition, PresentationComposition, Segment, SegmentBody, Size, WindowDef,
};

fn composition(composition_id: u16) -> Segment {
    Segment {
        pts: 0,
        dts: 0,
        body: SegmentBody::PresentationComposition(PresentationComposition {
            width: 1920,
            height: 1080,
            frame_rate: 0x10,
            composition_id,
            state: 0x80,
            palette_update: 0,
            palette_id: 0,
            objects: vec![],
        }),
    }
}

fn object(id: u16, width: u16, height: u16) -> Segment {
    Segment {
        pts: 0,
        dts: 0,
        body: SegmentBody::ObjectDefinition(ObjectDefinition {
            id,
            version: 0,
            sequence: 0xC0,
            data_length: 4,
            width,
            height,
            data: vec![],
        }),
    }
}

fn handle(composition_id: u16, object_id: u16) -> ObjectHandle {
    ObjectHandle { composition_id, object_id }
}

fn size(width: u16, height: u16) -> Size {
    Size { width, height }
}

#[test]
fn new_inventory_is_empty() {
    let inventory = Inventory::new();
    assert_eq!(inventory.get(handle(0, 0)), None);
    assert_eq!(inventory.get(handle(1, 7)), None);
}

#[test]
fn insert_then_get() {
    let mut inventory = Inventory::new();
    assert_eq!(inventory.insert(handle(1, 7), size(200, 100)), Ok(()));
    assert_eq!(inventory.insert(handle(7, 1), size(10, 20)), Ok(()));
    assert_eq!(inventory.insert(handle(0, 0), size(1, 2)), Ok(()));
    assert_eq!(inventory.insert(handle(65535, 65535), size(3, 4)), Ok(()));
    assert_eq!(inventory.get(handle(1, 7)), Some(size(200, 100)));
    assert_eq!(inventory.get(handle(7, 1)), Some(size(10, 20)));
    assert_eq!(inventory.get(handle(0, 0)), Some(size(1, 2)));
    assert_eq!(inventory.get(handle(65535, 65535)), Some(size(3, 4)));
    assert_eq!(inventory.get(handle(1, 8)), None);
    assert_eq!(inventory.get(handle(0, 65535)), None);
}

#[test]
fn insert_refuses_a_second_size_and_keeps_the_first() {
    let mut inventory = Inventory::new();
    assert_eq!(inventory.insert(handle(1, 7), size(200, 100)), Ok(()));
    assert_eq!(
        inventory.insert(handle(1, 7), size(5, 5)),
        Err(FormatViolation::DuplicateObject(handle(1, 7)))
    );
    assert_eq!(inventory.get(handle(1, 7)), Some(size(200, 100)));
}

#[test]
fn inventory_of_empty_stream_is_empty() {
    let inventory = build_inventory(&vec![]).ok().unwrap();
    assert_eq!(inventory.get(handle(0, 0)), None);
}

#[test]
fn objects_are_recorded_under_the_composition_in_force() {
    let segments = vec![
        object(3, 30, 31),
        composition(1),
        object(7, 200, 100),
        object(8, 10, 20),
        Segment { pts: 0, dts: 0, body: SegmentBody::EndOfDisplaySet },
        object(9, 1, 2),
        composition(2),
        Segment { pts: 0, dts: 0, body: SegmentBody::PaletteDefinition(vec![1, 2]) },
        Segment {
            pts: 0,
            dts: 0,
            body: SegmentBody::WindowDefinition(vec![WindowDef {
                id: 0,
                x: 0,
                y: 0,
                width: 5,
                height: 5,
            }]),
        },
        object(7, 300, 150),
    ];
    let inventory = build_inventory(&segments).ok().unwrap();
    assert_eq!(inventory.get(handle(0, 3)), Some(size(30, 31)));
    assert_eq!(inventory.get(handle(1, 7)), Some(size(200, 100)));
    assert_eq!(inventory.get(handle(1, 8)), Some(size(10, 20)));
    assert_eq!(inventory.get(handle(1, 9)), Some(size(1, 2)));
    assert_eq!(inventory.get(handle(2, 7)), Some(size(300, 150)));
    assert_eq!(inventory.get(handle(2, 8)), None);
    assert_eq!(inventory.get(handle(1, 3)), None);
    assert_eq!(inventory.get(handle(0, 7)), None);
}

#[test]
fn duplicate_object_in_one_display_set_is_refused() {
    let segments = vec![composition(1), object(7, 200, 100), object(7, 200, 100)];
    assert_eq!(
        build_inventory(&segments).err(),
        Some(FormatViolation::DuplicateObject(handle(1, 7)))
    );
}

#[test]
fn duplicate_with_another_size_is_refused_too() {
    let segments = vec![
        composition(4),
        object(1, 10, 10),
        object(2, 20, 20),
        Segment { pts: 0, dts: 0, body: SegmentBody::EndOfDisplaySet },
        object(2, 30, 30),
        object(1, 40, 40),
    ];
    assert_eq!(
        build_inventory(&segments).err(),
        Some(FormatViolation::DuplicateObject(handle(4, 2)))
    );
}

#[test]
fn duplicate_in_front_of_the_first_composition_is_refused() {
    let segments = vec![object(5, 1, 1), object(5, 1, 1), composition(1)];
    assert_eq!(
        build_inventory(&segments).err(),
        Some(FormatViolation::DuplicateObject(handle(0, 5)))
    );
}

#[test]
fn repeated_composition_id_continues_the_display_set() {
    let segments = vec![composition(1), object(7, 1, 1), composition(1), object(7, 1, 1)];
    assert_eq!(
        build_inventory(&segments).err(),
        Some(FormatViolation::DuplicateObject(handle(1, 7)))
    );
}

#[test]
fn same_object_id_in_two_display_sets_is_accepted() {
    let segments = vec![composition(1), object(7, 200, 100), composition(2), object(7, 20, 10)];
    let inventory = build_inventory(&segments).ok().unwrap();
    assert_eq!(inventory.get(handle(1, 7)), Some(size(200, 100)));
    assert_eq!(inventory.get(handle(2, 7)), Some(size(20, 10)));
}
