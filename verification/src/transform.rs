//! Repositioning every overlay of a stream for a cropped frame.
//!
//! One pass goes through the segments in stream order. A composition sets the
//! frame size that holds until the next composition: the size it declared
//! before it is rewritten. The positions of its objects, of their crop
//! rectangles and of the windows that follow are remapped; widths and heights
//! stay as they are.

use crate::geometry::{fit_diagnostics, remap_offset, cropped_object_offset, Diagnostic};
use crate::inventory::{FormatViolation, Inventory, ObjectHandle};
use crate::model::{
    all_wf, CompositionObject, CropRect, PresentationComposition, PresentationCompositionView,
    Segment, SegmentBody, SegmentBodyView, SegmentView, Size, WindowDef,
};
use vstd::prelude::*;

verus! {

/// The frame to crop to, and the distance to keep from its edges.
#[derive(Clone, Copy, Debug, PartialEq, Eq, Structural)]
pub struct CropSettings {
    pub width: u16,
    pub height: u16,
    pub margin: u16,
}

/// Where the corner `(x, y)` of an extent of `size` lands after the crop.
pub open spec fn remapped_point(
    x: u16,
    y: u16,
    size: Size,
    full: Size,
    settings: CropSettings,
) -> (u16, u16) {
    (
        cropped_object_offset(full.width, settings.width, size.width, x, settings.margin) as u16,
        cropped_object_offset(full.height, settings.height, size.height, y, settings.margin) as u16,
    )
}

/// What remapping the corner of an extent of `size` reports: first for its
/// width, then for its height.
pub open spec fn extent_diagnostics(size: Size, settings: CropSettings) -> Seq<Diagnostic> {
    fit_diagnostics(settings.width, size.width, settings.margin) + fit_diagnostics(
        settings.height,
        size.height,
        settings.margin,
    )
}

/// The size of a crop rectangle.
pub open spec fn rect_size(r: CropRect) -> Size {
    Size { width: r.width, height: r.height }
}

/// The size of a window.
pub open spec fn window_size(w: WindowDef) -> Size {
    Size { width: w.width, height: w.height }
}

/// A crop rectangle after the crop: its corner is remapped by its own size.
pub open spec fn cropped_rect(r: CropRect, full: Size, settings: CropSettings) -> CropRect {
    let p = remapped_point(r.x, r.y, rect_size(r), full, settings);
    CropRect { x: p.0, y: p.1, width: r.width, height: r.height }
}

/// A composition object after the crop: its corner is remapped by the size
/// of the object it shows, its crop rectangle by the rectangle's own size.
pub open spec fn cropped_object(
    o: CompositionObject,
    size: Size,
    full: Size,
    settings: CropSettings,
) -> CompositionObject {
    let p = remapped_point(o.x, o.y, size, full, settings);
    CompositionObject {
        object_id: o.object_id,
        window_id: o.window_id,
        flags: o.flags,
        x: p.0,
        y: p.1,
        crop: match o.crop {
            Some(r) => Some(cropped_rect(r, full, settings)),
            None => None,
        },
    }
}

/// What repositioning a composition object reports.
pub open spec fn object_diagnostics(
    o: CompositionObject,
    size: Size,
    settings: CropSettings,
) -> Seq<Diagnostic> {
    extent_diagnostics(size, settings) + match o.crop {
        Some(r) => extent_diagnostics(rect_size(r), settings),
        None => Seq::empty(),
    }
}

/// What repositioning the first `n` objects reports, in their order.
pub open spec fn objects_diagnostics(
    objects: Seq<CompositionObject>,
    sizes: Seq<Size>,
    settings: CropSettings,
    n: int,
) -> Seq<Diagnostic>
    decreases n,
{
    if n <= 0 {
        Seq::empty()
    } else {
        objects_diagnostics(objects, sizes, settings, n - 1) + object_diagnostics(
            objects[n - 1],
            sizes[n - 1],
            settings,
        )
    }
}

/// A window after the crop: its corner is remapped by its own size.
pub open spec fn cropped_window(w: WindowDef, full: Size, settings: CropSettings) -> WindowDef {
    let p = remapped_point(w.x, w.y, window_size(w), full, settings);
    WindowDef { id: w.id, x: p.0, y: p.1, width: w.width, height: w.height }
}

/// The windows of a window definition after the crop.
pub open spec fn cropped_windows(
    windows: Seq<WindowDef>,
    full: Size,
    settings: CropSettings,
) -> Seq<WindowDef> {
    Seq::new(windows.len(), |k: int| cropped_window(windows[k], full, settings))
}

/// What repositioning the first `n` windows reports, in their order.
pub open spec fn windows_diagnostics(
    windows: Seq<WindowDef>,
    settings: CropSettings,
    n: int,
) -> Seq<Diagnostic>
    decreases n,
{
    if n <= 0 {
        Seq::empty()
    } else {
        windows_diagnostics(windows, settings, n - 1) + extent_diagnostics(
            window_size(windows[n - 1]),
            settings,
        )
    }
}

/// A composition after the crop, where `sizes` holds the size of each of its
/// objects: the objects are remapped against the frame size that the
/// composition declared, and the composition then declares the cropped size.
pub open spec fn cropped_composition(
    pc: PresentationCompositionView,
    sizes: Seq<Size>,
    settings: CropSettings,
) -> PresentationCompositionView {
    PresentationCompositionView {
        width: settings.width,
        height: settings.height,
        frame_rate: pc.frame_rate,
        composition_id: pc.composition_id,
        state: pc.state,
        palette_update: pc.palette_update,
        palette_id: pc.palette_id,
        objects: Seq::new(
            pc.objects.len(),
            |k: int| cropped_object(pc.objects[k], sizes[k], pc.size(), settings),
        ),
    }
}

/// The handle of object `k` of a composition.
pub open spec fn handle_of(pc: PresentationCompositionView, k: int) -> ObjectHandle {
    ObjectHandle { composition_id: pc.composition_id, object_id: pc.objects[k].object_id }
}

/// Whether the inventory has the size of object `k` of a composition.
pub open spec fn resolved(
    pc: PresentationCompositionView,
    inventory: Map<ObjectHandle, Size>,
    k: int,
) -> bool {
    inventory.contains_key(handle_of(pc, k))
}

/// Whether object `k` is the first object of a composition whose size the
/// inventory lacks.
pub open spec fn first_unresolved(
    pc: PresentationCompositionView,
    inventory: Map<ObjectHandle, Size>,
    k: int,
) -> bool {
    &&& 0 <= k < pc.objects.len()
    &&& !resolved(pc, inventory, k)
    &&& forall|j: int| 0 <= j < k ==> resolved(pc, inventory, j)
}

/// The size of each object of a composition, as the inventory has it.
pub open spec fn object_sizes(
    pc: PresentationCompositionView,
    inventory: Map<ObjectHandle, Size>,
) -> Seq<Size> {
    Seq::new(pc.objects.len(), |k: int| inventory[handle_of(pc, k)])
}

/// Whether the inventory has the size of every object that a segment shows.
pub open spec fn resolves(segment: SegmentView, inventory: Map<ObjectHandle, Size>) -> bool {
    match segment.body {
        SegmentBodyView::PresentationComposition(pc) => forall|k: int|
            0 <= k < pc.objects.len() ==> resolved(pc, inventory, k),
        _ => true,
    }
}

/// Whether `violation` names the first object of `segment` whose size the
/// inventory lacks.
pub open spec fn names_first_unresolved(
    segment: SegmentView,
    inventory: Map<ObjectHandle, Size>,
    violation: FormatViolation,
) -> bool {
    match segment.body {
        SegmentBodyView::PresentationComposition(pc) => exists|k: int|
            #[trigger] first_unresolved(pc, inventory, k) && violation
                == FormatViolation::UnresolvedObject(handle_of(pc, k)),
        _ => false,
    }
}

/// A segment after the crop, where `full` is the frame size in force. Object
/// definitions, palettes and ends of display sets stay as they are.
pub open spec fn cropped_segment(
    segment: SegmentView,
    full: Size,
    inventory: Map<ObjectHandle, Size>,
    settings: CropSettings,
) -> SegmentView {
    match segment.body {
        SegmentBodyView::PresentationComposition(pc) => SegmentView {
            pts: segment.pts,
            dts: segment.dts,
            body: SegmentBodyView::PresentationComposition(
                cropped_composition(pc, object_sizes(pc, inventory), settings),
            ),
        },
        SegmentBodyView::WindowDefinition(windows) => SegmentView {
            pts: segment.pts,
            dts: segment.dts,
            body: SegmentBodyView::WindowDefinition(cropped_windows(windows, full, settings)),
        },
        _ => segment,
    }
}

/// What repositioning a segment reports: for a composition the new frame
/// size, where `is_new` says that it is one, and then what its objects
/// report; for a window definition what its windows report.
pub open spec fn segment_diagnostics(
    segment: SegmentView,
    is_new: bool,
    inventory: Map<ObjectHandle, Size>,
    settings: CropSettings,
) -> Seq<Diagnostic> {
    match segment.body {
        SegmentBodyView::PresentationComposition(pc) => {
            let announced = if is_new {
                seq![Diagnostic::NewResolution { width: pc.width, height: pc.height }]
            } else {
                Seq::empty()
            };
            announced + objects_diagnostics(
                pc.objects,
                object_sizes(pc, inventory),
                settings,
                pc.objects.len() as int,
            )
        },
        SegmentBodyView::WindowDefinition(windows) => windows_diagnostics(
            windows,
            settings,
            windows.len() as int,
        ),
        _ => Seq::empty(),
    }
}

/// The frame size that a segment declares, where it is a composition.
pub open spec fn declared_size(segment: SegmentView) -> Option<Size> {
    match segment.body {
        SegmentBodyView::PresentationComposition(pc) => Some(pc.size()),
        _ => None,
    }
}

/// The frame size in force at segment `i`: the size that the last
/// composition up to and including `i` declares, and 0 by 0 in front of the
/// first composition.
pub open spec fn frame_in_force(segments: Seq<SegmentView>, i: int) -> Size
    decreases i + 1,
{
    if i < 0 {
        Size { width: 0, height: 0 }
    } else {
        match declared_size(segments[i]) {
            Some(size) => size,
            None => frame_in_force(segments, i - 1),
        }
    }
}

/// Whether one of the first `n` segments declares the frame size `size`.
pub open spec fn declared_before(segments: Seq<SegmentView>, n: int, size: Size) -> bool {
    exists|j: int| 0 <= j < n && #[trigger] declared_size(segments[j]) == Some(size)
}

/// Whether segment `i` is a composition that declares a frame size which no
/// earlier composition has declared.
pub open spec fn is_new_resolution(segments: Seq<SegmentView>, i: int) -> bool {
    match declared_size(segments[i]) {
        Some(size) => !declared_before(segments, i, size),
        None => false,
    }
}

/// The stream with its first `n` segments repositioned.
pub open spec fn cropped_stream(
    segments: Seq<SegmentView>,
    inventory: Map<ObjectHandle, Size>,
    settings: CropSettings,
    n: int,
) -> Seq<SegmentView> {
    Seq::new(
        segments.len(),
        |i: int|
            if i < n {
                cropped_segment(segments[i], frame_in_force(segments, i), inventory, settings)
            } else {
                segments[i]
            },
    )
}

/// What repositioning the first `n` segments reports, in stream order.
pub open spec fn stream_diagnostics(
    segments: Seq<SegmentView>,
    inventory: Map<ObjectHandle, Size>,
    settings: CropSettings,
    n: int,
) -> Seq<Diagnostic>
    decreases n,
{
    if n <= 0 {
        Seq::empty()
    } else {
        stream_diagnostics(segments, inventory, settings, n - 1) + segment_diagnostics(
            segments[n - 1],
            is_new_resolution(segments, n - 1),
            inventory,
            settings,
        )
    }
}

/// Whether segment `n` is the first that shows an object whose size the
/// inventory lacks, and `violation` names the first such object of it.
pub open spec fn stops_at(
    segments: Seq<SegmentView>,
    inventory: Map<ObjectHandle, Size>,
    n: int,
    violation: FormatViolation,
) -> bool {
    &&& 0 <= n < segments.len()
    &&& forall|i: int| 0 <= i < n ==> resolves(#[trigger] segments[i], inventory)
    &&& names_first_unresolved(segments[n], inventory, violation)
}

/// A composition that shows an object whose size the inventory lacks does
/// not resolve.
pub proof fn lemma_missing_size_does_not_resolve(
    segment: SegmentView,
    inventory: Map<ObjectHandle, Size>,
    k: int,
)
    requires
        segment.body is PresentationComposition,
        0 <= k < segment.body->PresentationComposition_0.objects.len(),
        !inventory.contains_key(handle_of(segment.body->PresentationComposition_0, k)),
    ensures
        !resolves(segment, inventory),
{
    assert(!resolved(segment.body->PresentationComposition_0, inventory, k));
}

/// Repositioning leaves a segment well formed.
pub proof fn lemma_cropped_segment_wf(
    segment: SegmentView,
    full: Size,
    inventory: Map<ObjectHandle, Size>,
    settings: CropSettings,
)
    requires
        segment.wf(),
    ensures
        cropped_segment(segment, full, inventory, settings).wf(),
{
    match segment.body {
        SegmentBodyView::PresentationComposition(pc) => {
            let cropped = cropped_composition(pc, object_sizes(pc, inventory), settings);
            assert forall|k: int| 0 <= k < cropped.objects.len() implies (
            #[trigger] cropped.objects[k]).wf() by {
                assert(pc.objects[k].wf());
            }
        },
        _ => {},
    }
}

/// Repositioning leaves a stream of well-formed segments well formed.
pub proof fn lemma_cropped_stream_wf(
    segments: Seq<SegmentView>,
    inventory: Map<ObjectHandle, Size>,
    settings: CropSettings,
    n: int,
)
    requires
        all_wf(segments),
    ensures
        all_wf(cropped_stream(segments, inventory, settings, n)),
{
    let cropped = cropped_stream(segments, inventory, settings, n);
    assert forall|i: int| 0 <= i < cropped.len() implies (#[trigger] cropped[i]).wf() by {
        assert(segments[i].wf());
        lemma_cropped_segment_wf(segments[i], frame_in_force(segments, i), inventory, settings);
    }
}

/// Repositioning moves corners only: an object keeps its ids and flags, a
/// crop rectangle and a window keep their sizes.
pub proof fn lemma_crop_keeps_extents(
    o: CompositionObject,
    w: WindowDef,
    size: Size,
    full: Size,
    settings: CropSettings,
)
    ensures
        cropped_object(o, size, full, settings).object_id == o.object_id,
        cropped_object(o, size, full, settings).window_id == o.window_id,
        cropped_object(o, size, full, settings).flags == o.flags,
        cropped_object(o, size, full, settings).crop is Some == o.crop is Some,
        o.crop is Some ==> rect_size(cropped_object(o, size, full, settings).crop->0) == rect_size(
            o.crop->0,
        ),
        cropped_window(w, full, settings).id == w.id,
        window_size(cropped_window(w, full, settings)) == window_size(w),
{
}

/// Repositioning a composition changes the frame size it declares and the
/// corners of its objects, and nothing else.
pub proof fn lemma_crop_keeps_composition_fields(
    pc: PresentationCompositionView,
    sizes: Seq<Size>,
    settings: CropSettings,
)
    ensures
        cropped_composition(pc, sizes, settings).size() == (Size {
            width: settings.width,
            height: settings.height,
        }),
        cropped_composition(pc, sizes, settings).frame_rate == pc.frame_rate,
        cropped_composition(pc, sizes, settings).composition_id == pc.composition_id,
        cropped_composition(pc, sizes, settings).state == pc.state,
        cropped_composition(pc, sizes, settings).palette_update == pc.palette_update,
        cropped_composition(pc, sizes, settings).palette_id == pc.palette_id,
        cropped_composition(pc, sizes, settings).objects.len() == pc.objects.len(),
{
}

/// Repositioning leaves object definitions, palettes and ends of display
/// sets as they are, and changes the kind and the timestamps of no segment.
pub proof fn lemma_crop_keeps_other_segments(
    segment: SegmentView,
    full: Size,
    inventory: Map<ObjectHandle, Size>,
    settings: CropSettings,
)
    ensures
        segment.body is ObjectDefinition || segment.body is PaletteDefinition
            || segment.body is EndOfDisplaySet ==> cropped_segment(
            segment,
            full,
            inventory,
            settings,
        ) == segment,
        segment.body is PresentationComposition ==> cropped_segment(
            segment,
            full,
            inventory,
            settings,
        ).body is PresentationComposition,
        segment.body is WindowDefinition ==> cropped_segment(
            segment,
            full,
            inventory,
            settings,
        ).body is WindowDefinition,
        cropped_segment(segment, full, inventory, settings).pts == segment.pts,
        cropped_segment(segment, full, inventory, settings).dts == segment.dts,
{
}

/// Remaps the corner of an extent, first along x, then along y.
fn remap_point(
    x: u16,
    y: u16,
    size: Size,
    full: Size,
    settings: &CropSettings,
    diagnostics: &mut Vec<Diagnostic>,
) -> (p: (u16, u16))
    ensures
        p == remapped_point(x, y, size, full, *settings),
        final(diagnostics)@ == old(diagnostics)@ + extent_diagnostics(size, *settings),
{
    let new_x = remap_offset(
        full.width,
        settings.width,
        size.width,
        x,
        settings.margin,
        diagnostics,
    );
    let new_y = remap_offset(
        full.height,
        settings.height,
        size.height,
        y,
        settings.margin,
        diagnostics,
    );
    assert(diagnostics@ =~= old(diagnostics)@ + extent_diagnostics(size, *settings));
    (new_x, new_y)
}

/// Repositions one composition object.
fn crop_object(
    o: CompositionObject,
    size: Size,
    full: Size,
    settings: &CropSettings,
    diagnostics: &mut Vec<Diagnostic>,
) -> (cropped: CompositionObject)
    ensures
        cropped == cropped_object(o, size, full, *settings),
        final(diagnostics)@ == old(diagnostics)@ + object_diagnostics(o, size, *settings),
{
    let p = remap_point(o.x, o.y, size, full, settings, diagnostics);
    let crop = match o.crop {
        Some(r) => {
            let q = remap_point(
                r.x,
                r.y,
                Size { width: r.width, height: r.height },
                full,
                settings,
                diagnostics,
            );
            Some(CropRect { x: q.0, y: q.1, width: r.width, height: r.height })
        },
        None => None,
    };
    assert(diagnostics@ =~= old(diagnostics)@ + object_diagnostics(o, size, *settings));
    CompositionObject {
        object_id: o.object_id,
        window_id: o.window_id,
        flags: o.flags,
        x: p.0,
        y: p.1,
        crop,
    }
}

/// Finds the size of each object of a composition.
fn lookup_sizes(pc: &PresentationComposition, inventory: &Inventory) -> (r: Result<
    Vec<Size>,
    FormatViolation,
>)
    ensures
        match r {
            Ok(sizes) => {
                &&& forall|k: int| 0 <= k < pc@.objects.len() ==> resolved(pc@, inventory@, k)
                &&& sizes@ == object_sizes(pc@, inventory@)
            },
            Err(e) => exists|k: int|
                #[trigger] first_unresolved(pc@, inventory@, k) && e
                    == FormatViolation::UnresolvedObject(handle_of(pc@, k)),
        },
{
    let mut sizes: Vec<Size> = Vec::new();
    let mut k: usize = 0;
    while k < pc.objects.len()
        invariant
            k <= pc.objects.len(),
            sizes@.len() == k,
            forall|j: int| 0 <= j < k ==> resolved(pc@, inventory@, j),
            forall|j: int| 0 <= j < k ==> sizes@[j] == inventory@[handle_of(pc@, j)],
        decreases pc.objects.len() - k,
    {
        let handle = ObjectHandle {
            composition_id: pc.composition_id,
            object_id: pc.objects[k].object_id,
        };
        match inventory.get(handle) {
            Some(size) => {
                sizes.push(size);
            },
            None => {
                assert(first_unresolved(pc@, inventory@, k as int));
                return Err(FormatViolation::UnresolvedObject(handle));
            },
        }
        k = k + 1;
    }
    assert(sizes@ =~= object_sizes(pc@, inventory@));
    Ok(sizes)
}

/// Repositions the objects of a composition and sets the cropped frame size.
fn crop_composition(
    pc: &mut PresentationComposition,
    sizes: &Vec<Size>,
    settings: &CropSettings,
    diagnostics: &mut Vec<Diagnostic>,
)
    requires
        sizes@.len() == old(pc)@.objects.len(),
    ensures
        final(pc)@ == cropped_composition(old(pc)@, sizes@, *settings),
        final(diagnostics)@ == old(diagnostics)@ + objects_diagnostics(
            old(pc)@.objects,
            sizes@,
            *settings,
            old(pc)@.objects.len() as int,
        ),
{
    let ghost before = pc@;
    let full = Size { width: pc.width, height: pc.height };
    let mut k: usize = 0;
    while k < pc.objects.len()
        invariant
            k <= pc.objects.len(),
            sizes@.len() == before.objects.len(),
            full == before.size(),
            pc@.objects.len() == before.objects.len(),
            pc@.width == before.width,
            pc@.height == before.height,
            pc@.frame_rate == before.frame_rate,
            pc@.composition_id == before.composition_id,
            pc@.state == before.state,
            pc@.palette_update == before.palette_update,
            pc@.palette_id == before.palette_id,
            forall|j: int|
                0 <= j < k ==> pc@.objects[j] == cropped_object(
                    before.objects[j],
                    sizes@[j],
                    full,
                    *settings,
                ),
            forall|j: int| k <= j < pc@.objects.len() ==> pc@.objects[j] == before.objects[j],
            diagnostics@ == old(diagnostics)@ + objects_diagnostics(
                before.objects,
                sizes@,
                *settings,
                k as int,
            ),
        decreases pc.objects.len() - k,
    {
        let cropped = crop_object(pc.objects[k], sizes[k], full, settings, diagnostics);
        pc.objects[k] = cropped;
        assert(diagnostics@ =~= old(diagnostics)@ + objects_diagnostics(
            before.objects,
            sizes@,
            *settings,
            k + 1,
        ));
        k = k + 1;
    }
    pc.width = settings.width;
    pc.height = settings.height;
    assert(pc@.objects =~= cropped_composition(before, sizes@, *settings).objects);
}

/// Repositions the windows of a window definition.
fn crop_windows(
    windows: &mut Vec<WindowDef>,
    full: Size,
    settings: &CropSettings,
    diagnostics: &mut Vec<Diagnostic>,
)
    ensures
        final(windows)@ == cropped_windows(old(windows)@, full, *settings),
        final(diagnostics)@ == old(diagnostics)@ + windows_diagnostics(
            old(windows)@,
            *settings,
            old(windows)@.len() as int,
        ),
{
    let ghost before = windows@;
    let mut k: usize = 0;
    while k < windows.len()
        invariant
            k <= windows.len(),
            windows@.len() == before.len(),
            forall|j: int| 0 <= j < k ==> windows@[j] == cropped_window(before[j], full, *settings),
            forall|j: int| k <= j < windows@.len() ==> windows@[j] == before[j],
            diagnostics@ == old(diagnostics)@ + windows_diagnostics(before, *settings, k as int),
        decreases windows.len() - k,
    {
        let w = windows[k];
        let p = remap_point(
            w.x,
            w.y,
            Size { width: w.width, height: w.height },
            full,
            settings,
            diagnostics,
        );
        windows[k] = WindowDef { id: w.id, x: p.0, y: p.1, width: w.width, height: w.height };
        assert(diagnostics@ =~= old(diagnostics)@ + windows_diagnostics(
            before,
            *settings,
            k + 1,
        ));
        k = k + 1;
    }
    assert(windows@ =~= cropped_windows(before, full, *settings));
}

/// Repositions one segment, where `full` is the frame size in force and
/// `is_new` says whether the segment declares a frame size for the first
/// time. A segment that shows an object of unknown size stays as it is and
/// reports nothing.
fn crop_segment(
    segment: &mut Segment,
    full: Size,
    is_new: bool,
    inventory: &Inventory,
    settings: &CropSettings,
    diagnostics: &mut Vec<Diagnostic>,
) -> (r: Result<(), FormatViolation>)
    ensures
        match r {
            Ok(()) => {
                &&& resolves(old(segment)@, inventory@)
                &&& final(segment)@ == cropped_segment(old(segment)@, full, inventory@, *settings)
                &&& final(diagnostics)@ == old(diagnostics)@ + segment_diagnostics(
                    old(segment)@,
                    is_new,
                    inventory@,
                    *settings,
                )
            },
            Err(e) => {
                &&& names_first_unresolved(old(segment)@, inventory@, e)
                &&& final(segment)@ == old(segment)@
                &&& final(diagnostics)@ == old(diagnostics)@
            },
        },
{
    match &mut segment.body {
        SegmentBody::PresentationComposition(pc) => {
            match lookup_sizes(pc, inventory) {
                Err(e) => Err(e),
                Ok(sizes) => {
                    if is_new {
                        diagnostics.push(
                            Diagnostic::NewResolution { width: pc.width, height: pc.height },
                        );
                    }
                    crop_composition(pc, &sizes, settings, diagnostics);
                    assert(diagnostics@ =~= old(diagnostics)@ + segment_diagnostics(
                        old(segment)@,
                        is_new,
                        inventory@,
                        *settings,
                    ));
                    Ok(())
                },
            }
        },
        SegmentBody::WindowDefinition(windows) => {
            crop_windows(windows, full, settings, diagnostics);
            Ok(())
        },
        _ => {
            assert(diagnostics@ =~= old(diagnostics)@ + Seq::<Diagnostic>::empty());
            Ok(())
        },
    }
}

/// Whether `seen` holds `size`.
fn contains_size(seen: &Vec<Size>, size: Size) -> (b: bool)
    ensures
        b == seen@.contains(size),
{
    let mut j: usize = 0;
    while j < seen.len()
        invariant
            j <= seen.len(),
            forall|k: int| 0 <= k < j ==> seen@[k] != size,
        decreases seen.len() - j,
    {
        if seen[j] == size {
            return true;
        }
        j = j + 1;
    }
    false
}

/// The frame size that a segment declares, where it is a composition.
fn declared_size_of(segment: &Segment) -> (r: Option<Size>)
    ensures
        r == declared_size(segment@),
{
    match &segment.body {
        SegmentBody::PresentationComposition(pc) => Some(
            Size { width: pc.width, height: pc.height },
        ),
        _ => None,
    }
}

/// Repositions the overlays of `segments` for a frame cropped to `settings`,
/// and reports to `diagnostics` each frame size when it first occurs and each
/// extent that cannot fit.
///
/// Where the inventory has the size of every object that the compositions
/// show, every segment is repositioned. Otherwise the pass stops at the first
/// segment that shows an object of unknown size: the segments in front of it
/// are repositioned and have reported, that segment and those behind it are
/// as they were, and the error names the object.
pub fn apply(
    segments: &mut Vec<Segment>,
    inventory: &Inventory,
    settings: &CropSettings,
    diagnostics: &mut Vec<Diagnostic>,
) -> (r: Result<(), FormatViolation>)
    ensures
        r is Ok <==> forall|i: int|
            0 <= i < old(segments)@.len() ==> resolves(
                #[trigger] old(segments).deep_view()[i],
                inventory@,
            ),
        match r {
            Ok(()) => {
                &&& final(segments).deep_view() == cropped_stream(
                    old(segments).deep_view(),
                    inventory@,
                    *settings,
                    old(segments)@.len() as int,
                )
                &&& final(diagnostics)@ == old(diagnostics)@ + stream_diagnostics(
                    old(segments).deep_view(),
                    inventory@,
                    *settings,
                    old(segments)@.len() as int,
                )
            },
            Err(e) => exists|n: int|
                {
                    &&& #[trigger] stops_at(old(segments).deep_view(), inventory@, n, e)
                    &&& final(segments).deep_view() == cropped_stream(
                        old(segments).deep_view(),
                        inventory@,
                        *settings,
                        n,
                    )
                    &&& final(diagnostics)@ == old(diagnostics)@ + stream_diagnostics(
                        old(segments).deep_view(),
                        inventory@,
                        *settings,
                        n,
                    )
                },
        },
{
    let ghost before = segments.deep_view();
    let mut full = Size { width: 0, height: 0 };
    let mut seen: Vec<Size> = Vec::new();
    let mut i: usize = 0;
    assert(segments.deep_view() =~= cropped_stream(before, inventory@, *settings, 0));
    assert(diagnostics@ =~= old(diagnostics)@ + stream_diagnostics(
        before,
        inventory@,
        *settings,
        0,
    ));
    while i < segments.len()
        invariant
            i <= segments.len(),
            segments@.len() == before.len(),
            before == old(segments).deep_view(),
            full == frame_in_force(before, i - 1),
            forall|size: Size| seen@.contains(size) <==> declared_before(before, i as int, size),
            forall|j: int| 0 <= j < i ==> resolves(#[trigger] before[j], inventory@),
            segments.deep_view() == cropped_stream(before, inventory@, *settings, i as int),
            diagnostics@ == old(diagnostics)@ + stream_diagnostics(
                before,
                inventory@,
                *settings,
                i as int,
            ),
        decreases segments.len() - i,
    {
        let ghost current = segments.deep_view();
        assert(current[i as int] == before[i as int]);
        assert(segments@[i as int]@ == before[i as int]);
        let declared = declared_size_of(&segments[i]);
        let mut is_new = false;
        match declared {
            Some(size) => {
                full = size;
                is_new = !contains_size(&seen, size);
            },
            None => {},
        }
        assert(full == frame_in_force(before, i as int));
        assert(is_new == is_new_resolution(before, i as int));
        let ghost seen_before = seen@;
        match crop_segment(&mut segments[i], full, is_new, inventory, settings, diagnostics) {
            Err(e) => {
                proof {
                    assert(segments.deep_view() =~= current);
                    assert(stops_at(before, inventory@, i as int, e));
                }
                return Err(e);
            },
            Ok(()) => {},
        }
        match declared {
            Some(size) => {
                if is_new {
                    seen.push(size);
                }
            },
            None => {},
        }
        proof {
            assert forall|j: int| 0 <= j < before.len() implies segments.deep_view()[j]
                == cropped_stream(before, inventory@, *settings, i + 1)[j] by {
                if j != i {
                    assert(segments.deep_view()[j] == current[j]);
                }
            }
            assert(segments.deep_view() =~= cropped_stream(before, inventory@, *settings, i + 1));
            assert(diagnostics@ =~= old(diagnostics)@ + stream_diagnostics(
                before,
                inventory@,
                *settings,
                i + 1,
            ));
            assert forall|size: Size| seen@.contains(size) <==> declared_before(
                before,
                i + 1,
                size,
            ) by {
                vstd::seq_lib::lemma_seq_contains_after_push(seen_before, full, size);
                if declared_before(before, i + 1, size) {
                    let j = choose|j: int|
                        0 <= j < i + 1 && #[trigger] declared_size(before[j]) == Some(size);
                    if j < i {
                        assert(declared_before(before, i as int, size));
                    }
                }
                if declared_before(before, i as int, size) {
                    let j = choose|j: int|
                        0 <= j < i && #[trigger] declared_size(before[j]) == Some(size);
                    assert(0 <= j < i + 1);
                }
                if declared == Some(size) {
                    assert(declared_size(before[i as int]) == Some(size));
                }
            }
        }
        i = i + 1;
    }
    Ok(())
}

} // verus!
