//! The sizes of the objects of a stream, found by display set and object id.
//!
//! A composition names the objects it shows, but an object's size stands in
//! the object's own definition. One pass over the stream collects the sizes.

use crate::model::{Segment, SegmentBody, SegmentBodyView, SegmentView, Size};
use std::collections::HashMap;
use vstd::prelude::*;

verus! {

broadcast use vstd::std_specs::hash::group_hash_axioms;

/// What names an object within a stream: the composition id of its display
/// set, and its own id.
#[derive(Clone, Copy, Debug, PartialEq, Eq, Structural)]
pub struct ObjectHandle {
    pub composition_id: u16,
    pub object_id: u16,
}

/// A stream that breaks a rule on which the repositioning rests.
#[derive(Clone, Copy, Debug, PartialEq, Eq, Structural)]
pub enum FormatViolation {
    /// A display set defines the object twice.
    DuplicateObject(ObjectHandle),
    /// A composition shows an object that its display set does not define.
    UnresolvedObject(ObjectHandle),
}

/// The sizes of the objects that a stream defines.
pub struct Inventory {
    sizes: HashMap<u32, Size>,
}

/// The number that stands for a handle in the table: the composition id in
/// the high half, the object id in the low half.
spec fn handle_code(handle: ObjectHandle) -> u32 {
    (handle.composition_id * 0x1_0000 + handle.object_id) as u32
}

fn code_of(handle: ObjectHandle) -> (code: u32)
    ensures
        code == handle_code(handle),
{
    (handle.composition_id as u32) * 0x1_0000 + (handle.object_id as u32)
}

impl View for Inventory {
    type V = Map<ObjectHandle, Size>;

    closed spec fn view(&self) -> Map<ObjectHandle, Size> {
        Map::new(
            |handle: ObjectHandle| self.sizes@.contains_key(handle_code(handle)),
            |handle: ObjectHandle| self.sizes@[handle_code(handle)],
        )
    }
}

impl Inventory {
    /// An inventory without entries.
    pub fn new() -> (inventory: Inventory)
        ensures
            inventory@ == Map::<ObjectHandle, Size>::empty(),
    {
        let inventory = Inventory { sizes: HashMap::new() };
        assert(inventory@ =~= Map::<ObjectHandle, Size>::empty());
        inventory
    }

    /// Records the size of an object that has none yet. Where the object has
    /// one, the inventory stays as it is and the handle comes back in the
    /// error.
    pub fn insert(&mut self, handle: ObjectHandle, size: Size) -> (r: Result<(), FormatViolation>)
        ensures
            match r {
                Ok(()) => {
                    &&& !old(self)@.contains_key(handle)
                    &&& final(self)@ == old(self)@.insert(handle, size)
                },
                Err(e) => {
                    &&& old(self)@.contains_key(handle)
                    &&& e == FormatViolation::DuplicateObject(handle)
                    &&& final(self)@ == old(self)@
                },
            },
    {
        let code = code_of(handle);
        if self.sizes.contains_key(&code) {
            return Err(FormatViolation::DuplicateObject(handle));
        }
        self.sizes.insert(code, size);
        proof {
            assert forall|other: ObjectHandle| other != handle implies handle_code(other)
                != handle_code(handle) by {}
            assert(self@ =~= old(self)@.insert(handle, size));
        }
        Ok(())
    }

    /// The size of an object, where the inventory has it.
    pub fn get(&self, handle: ObjectHandle) -> (r: Option<Size>)
        ensures
            r == if self@.contains_key(handle) {
                Some(self@[handle])
            } else {
                None
            },
    {
        match self.sizes.get(&code_of(handle)) {
            Some(size) => Some(*size),
            None => None,
        }
    }
}

/// The composition id in force at segment `i`: that of the last composition
/// up to and including `i`, and 0 in front of the first composition.
pub open spec fn composition_in_force(segments: Seq<SegmentView>, i: int) -> u16
    decreases i + 1,
{
    if i < 0 {
        0
    } else {
        match segments[i].body {
            SegmentBodyView::PresentationComposition(pc) => pc.composition_id,
            _ => composition_in_force(segments, i - 1),
        }
    }
}

/// What segment `i` adds to the inventory: nothing unless it is an object
/// definition, and then the object's size under the composition id in force.
pub open spec fn definition_at(segments: Seq<SegmentView>, i: int) -> Option<(ObjectHandle, Size)> {
    match segments[i].body {
        SegmentBodyView::ObjectDefinition(od) => Some(
            (
                ObjectHandle {
                    composition_id: composition_in_force(segments, i),
                    object_id: od.id,
                },
                od.size(),
            ),
        ),
        _ => None,
    }
}

/// The handle under which segment `i` defines its object, where it is an
/// object definition.
pub open spec fn handle_at(segments: Seq<SegmentView>, i: int) -> ObjectHandle {
    (definition_at(segments, i)->0).0
}

/// Whether one of the first `n` segments defines `handle` with `size`.
pub open spec fn defined_before(
    segments: Seq<SegmentView>,
    n: int,
    handle: ObjectHandle,
    size: Size,
) -> bool {
    exists|i: int| 0 <= i < n && #[trigger] definition_at(segments, i) == Some((handle, size))
}

/// Whether segments `i` and `j`, `i` in front of `j`, are object definitions
/// that share an object id under one composition id.
pub open spec fn same_object(segments: Seq<SegmentView>, i: int, j: int) -> bool {
    &&& 0 <= i < j < segments.len()
    &&& segments[i].body is ObjectDefinition
    &&& segments[j].body is ObjectDefinition
    &&& segments[i].body->ObjectDefinition_0.id == segments[j].body->ObjectDefinition_0.id
    &&& composition_in_force(segments, i) == composition_in_force(segments, j)
}

/// Whether segment `j` defines an object that an earlier segment of the same
/// display set has defined.
pub open spec fn redefines_at(segments: Seq<SegmentView>, j: int) -> bool {
    exists|i: int| #[trigger] same_object(segments, i, j)
}

/// Whether two object definitions of one display set share an object id.
pub open spec fn has_duplicate(segments: Seq<SegmentView>) -> bool {
    exists|i: int, j: int| #[trigger] same_object(segments, i, j)
}

/// Whether `violation` names the object of the first definition that repeats
/// an earlier one.
pub open spec fn names_first_duplicate(
    segments: Seq<SegmentView>,
    violation: FormatViolation,
) -> bool {
    exists|j: int|
        {
            &&& #[trigger] redefines_at(segments, j)
            &&& forall|k: int| 0 <= k < j ==> !redefines_at(segments, k)
            &&& violation == FormatViolation::DuplicateObject(handle_at(segments, j))
        }
}

/// The inventory of a stream: each handle that an object definition defines,
/// with a size that it is defined with.
pub open spec fn inventory_of(segments: Seq<SegmentView>) -> Map<ObjectHandle, Size> {
    Map::new(
        |handle: ObjectHandle|
            exists|size: Size| defined_before(segments, segments.len() as int, handle, size),
        |handle: ObjectHandle|
            choose|size: Size| defined_before(segments, segments.len() as int, handle, size),
    )
}

/// A map that holds exactly what the object definitions of a stream declare
/// is the inventory of the stream.
proof fn lemma_inventory_of(segments: Seq<SegmentView>, inventory: Map<ObjectHandle, Size>)
    requires
        forall|handle: ObjectHandle, size: Size|
            inventory.contains_pair(handle, size) <==> defined_before(
                segments,
                segments.len() as int,
                handle,
                size,
            ),
    ensures
        inventory == inventory_of(segments),
{
    let n = segments.len() as int;
    assert forall|handle: ObjectHandle|
        inventory.contains_key(handle) == inventory_of(segments).contains_key(handle) by {
        if inventory.contains_key(handle) {
            assert(inventory.contains_pair(handle, inventory[handle]));
        }
        if inventory_of(segments).contains_key(handle) {
            let size = choose|size: Size| defined_before(segments, n, handle, size);
            assert(inventory.contains_pair(handle, size));
        }
    }
    assert forall|handle: ObjectHandle| inventory.contains_key(handle) implies inventory[handle]
        == inventory_of(segments)[handle] by {
        assert(inventory.contains_pair(handle, inventory[handle]));
        let size = choose|size: Size| defined_before(segments, n, handle, size);
        assert(inventory.contains_pair(handle, size));
    }
    assert(inventory =~= inventory_of(segments));
}

/// In a stream without duplicates, the inventory holds each object under its
/// handle with the size that its one definition declares.
pub proof fn lemma_inventory_holds_definitions(segments: Seq<SegmentView>, i: int)
    requires
        !has_duplicate(segments),
        0 <= i < segments.len(),
        segments[i].body is ObjectDefinition,
    ensures
        inventory_of(segments).contains_pair(
            handle_at(segments, i),
            segments[i].body->ObjectDefinition_0.size(),
        ),
{
    let n = segments.len() as int;
    let handle = handle_at(segments, i);
    let size = segments[i].body->ObjectDefinition_0.size();
    assert(definition_at(segments, i) == Some((handle, size)));
    assert(defined_before(segments, n, handle, size));
    let chosen = choose|size: Size| defined_before(segments, n, handle, size);
    let k = choose|k: int|
        0 <= k < n && #[trigger] definition_at(segments, k) == Some((handle, chosen));
    if k < i {
        assert(same_object(segments, k, i));
    } else if i < k {
        assert(same_object(segments, i, k));
    }
}

/// Collects the sizes of the objects that `segments` defines.
///
/// Where no two object definitions share an object id under one composition
/// id, the inventory holds exactly what the object definitions declare, each
/// under the composition id in force where it stands. Otherwise the error
/// names the object of the first definition that repeats an earlier one.
pub fn build_inventory(segments: &Vec<Segment>) -> (r: Result<Inventory, FormatViolation>)
    ensures
        r is Err <==> has_duplicate(segments.deep_view()),
        match r {
            Ok(inventory) => {
                &&& inventory@ == inventory_of(segments.deep_view())
                &&& forall|handle: ObjectHandle, size: Size|
                    inventory@.contains_pair(handle, size) <==> defined_before(
                        segments.deep_view(),
                        segments.len() as int,
                        handle,
                        size,
                    )
            },
            Err(e) => names_first_duplicate(segments.deep_view(), e),
        },
{
    let ghost views = segments.deep_view();
    let mut inventory = Inventory::new();
    let mut composition_id: u16 = 0;
    let mut i: usize = 0;
    while i < segments.len()
        invariant
            i <= segments.len(),
            views == segments.deep_view(),
            composition_id == composition_in_force(views, i - 1),
            forall|k: int| 0 <= k < i ==> !redefines_at(views, k),
            forall|handle: ObjectHandle, size: Size|
                inventory@.contains_pair(handle, size) <==> defined_before(
                    views,
                    i as int,
                    handle,
                    size,
                ),
        decreases segments.len() - i,
    {
        assert(views[i as int] == segments[i as int]@);
        let ghost before = inventory@;
        match &segments[i].body {
            SegmentBody::PresentationComposition(pc) => {
                composition_id = pc.composition_id;
            },
            SegmentBody::ObjectDefinition(od) => {
                let handle = ObjectHandle { composition_id, object_id: od.id };
                let size = Size { width: od.width, height: od.height };
                assert(definition_at(views, i as int) == Some((handle, size)));
                match inventory.insert(handle, size) {
                    Err(e) => {
                        proof {
                            let earlier = before[handle];
                            assert(before.contains_pair(handle, earlier));
                            assert(defined_before(views, i as int, handle, earlier));
                            let k = choose|k: int|
                                0 <= k < i && #[trigger] definition_at(views, k) == Some(
                                    (handle, earlier),
                                );
                            assert(same_object(views, k, i as int));
                            assert(redefines_at(views, i as int));
                        }
                        return Err(e);
                    },
                    Ok(()) => {
                        proof {
                            if redefines_at(views, i as int) {
                                let k = choose|k: int| #[trigger] same_object(views, k, i as int);
                                let earlier = views[k].body->ObjectDefinition_0.size();
                                assert(definition_at(views, k) == Some((handle, earlier)));
                                assert(defined_before(views, i as int, handle, earlier));
                                assert(before.contains_pair(handle, earlier));
                            }
                        }
                    },
                }
            },
            _ => {},
        }
        proof {
            assert forall|handle: ObjectHandle, size: Size|
                inventory@.contains_pair(handle, size) <==> defined_before(
                    views,
                    i + 1,
                    handle,
                    size,
                ) by {
                if defined_before(views, i + 1, handle, size) {
                    let k = choose|k: int|
                        0 <= k < i + 1 && #[trigger] definition_at(views, k) == Some(
                            (handle, size),
                        );
                    if k < i {
                        assert(defined_before(views, i as int, handle, size));
                    }
                }
                if inventory@.contains_pair(handle, size) {
                    if before.contains_pair(handle, size) {
                        assert(defined_before(views, i as int, handle, size));
                        let k = choose|k: int|
                            0 <= k < i && #[trigger] definition_at(views, k) == Some(
                                (handle, size),
                            );
                        assert(0 <= k < i + 1);
                    } else {
                        assert(definition_at(views, i as int) == Some((handle, size)));
                    }
                }
            }
        }
        i = i + 1;
    }
    proof {
        if has_duplicate(views) {
            let (k, j) = choose|k: int, j: int| #[trigger] same_object(views, k, j);
            assert(redefines_at(views, j));
        }
        lemma_inventory_of(views, inventory@);
    }
    Ok(inventory)
}

} // verus!
