//! The byte layout of a segment. All multi-byte fields are big-endian.
//!
//! | field                  | bytes |
//! |------------------------|-------|
//! | magic marker           | 2     |
//! | presentation timestamp | 4     |
//! | decode timestamp       | 4     |
//! | type code              | 1     |
//! | body length            | 2     |
//! | body                   | body length |
//!
//! The type code selects one of five bodies:
//!
//! | body                     | code | layout |
//! |--------------------------|------|--------|
//! | palette definition       | 0x14 | any bytes |
//! | object definition        | 0x15 | id (2), version (1), sequence flags (1), data length (3), width (2), height (2), pixel data |
//! | presentation composition | 0x16 | width (2), height (2), frame rate (1), composition id (2), state (1), palette update (1), palette id (1), object count (1), objects |
//! | window definition        | 0x17 | window count (1), windows |
//! | end of display set       | 0x80 | empty |
//!
//! A composition object is object id (2), window id (1), flags (1), x (2),
//! y (2) and, where the high bit of the flags is set, a crop rectangle: x (2),
//! y (2), width (2), height (2). A window is id (1), x (2), y (2), width (2),
//! height (2).

use crate::model::{
    CompositionObject, CropRect, ObjectDefinitionView, PresentationCompositionView, SegmentBodyView,
    SegmentView, WindowDef, MAX_BODY_LEN,
};
use vstd::prelude::*;

verus! {

/// The first byte of every segment.
pub const MAGIC_0: u8 = 0x50;

/// The second byte of every segment.
pub const MAGIC_1: u8 = 0x47;

/// The type code of a palette definition.
pub const TYPE_PALETTE: u8 = 0x14;

/// The type code of an object definition.
pub const TYPE_OBJECT: u8 = 0x15;

/// The type code of a presentation composition.
pub const TYPE_COMPOSITION: u8 = 0x16;

/// The type code of a window definition.
pub const TYPE_WINDOWS: u8 = 0x17;

/// The type code of the end of a display set.
pub const TYPE_END: u8 = 0x80;

/// The bytes of a segment in front of its body.
pub const HEADER_LEN: usize = 13;

/// The bytes of a composition's body in front of its objects.
pub const COMPOSITION_HEADER_LEN: usize = 11;

/// The bytes of a composition object without a crop rectangle.
pub const OBJECT_RECORD_LEN: usize = 8;

/// The bytes of a composition object with its crop rectangle.
pub const CROPPED_RECORD_LEN: usize = 16;

/// The bytes of one window.
pub const WINDOW_RECORD_LEN: usize = 9;

/// The high byte of a 16-bit value.
pub open spec fn hi(v: u16) -> u8 {
    (v / 256) as u8
}

/// The low byte of a 16-bit value.
pub open spec fn lo(v: u16) -> u8 {
    (v % 256) as u8
}

/// The 16-bit value whose high byte is `h` and whose low byte is `l`.
pub open spec fn u16_of(h: u8, l: u8) -> u16 {
    (h * 256 + l) as u16
}

/// Byte `k` of a 32-bit value, counted from the low end.
#[verifier::opaque]
pub open spec fn byte_of(v: u32, k: nat) -> u8 {
    if k == 0 {
        (v % 256) as u8
    } else if k == 1 {
        ((v / 0x100) % 256) as u8
    } else if k == 2 {
        ((v / 0x1_0000) % 256) as u8
    } else {
        ((v / 0x100_0000) % 256) as u8
    }
}

/// The 32-bit value made of four bytes, the highest first.
#[verifier::opaque]
pub open spec fn u32_of(b3: u8, b2: u8, b1: u8, b0: u8) -> u32 {
    (b3 * 0x100_0000 + b2 * 0x1_0000 + b1 * 0x100 + b0) as u32
}

/// The code that announces the kind of a body.
pub open spec fn type_code(body: SegmentBodyView) -> u8 {
    match body {
        SegmentBodyView::PresentationComposition(_) => TYPE_COMPOSITION,
        SegmentBodyView::WindowDefinition(_) => TYPE_WINDOWS,
        SegmentBodyView::ObjectDefinition(_) => TYPE_OBJECT,
        SegmentBodyView::PaletteDefinition(_) => TYPE_PALETTE,
        SegmentBodyView::EndOfDisplaySet => TYPE_END,
    }
}

/// Whether a type code announces one of the five kinds of body.
pub open spec fn known_type(code: u8) -> bool {
    code == TYPE_PALETTE || code == TYPE_OBJECT || code == TYPE_COMPOSITION || code == TYPE_WINDOWS
        || code == TYPE_END
}

/// The thirteen bytes in front of a body of `body_len` bytes.
pub open spec fn header_bytes(pts: u32, dts: u32, code: u8, body_len: u16) -> Seq<u8> {
    seq![
        MAGIC_0,
        MAGIC_1,
        byte_of(pts, 3),
        byte_of(pts, 2),
        byte_of(pts, 1),
        byte_of(pts, 0),
        byte_of(dts, 3),
        byte_of(dts, 2),
        byte_of(dts, 1),
        byte_of(dts, 0),
        code,
        hi(body_len),
        lo(body_len),
    ]
}

/// A crop rectangle: x, y, width, height.
pub open spec fn rect_bytes(r: CropRect) -> Seq<u8> {
    seq![hi(r.x), lo(r.x), hi(r.y), lo(r.y), hi(r.width), lo(r.width), hi(r.height), lo(r.height)]
}

/// A composition object: object id, window id, flags, x, y, and the crop
/// rectangle where there is one.
pub open spec fn object_bytes(o: CompositionObject) -> Seq<u8> {
    let fixed = seq![
        hi(o.object_id),
        lo(o.object_id),
        o.window_id,
        o.flags,
        hi(o.x),
        lo(o.x),
        hi(o.y),
        lo(o.y),
    ];
    match o.crop {
        Some(r) => fixed + rect_bytes(r),
        None => fixed,
    }
}

/// The composition objects of a composition, one after the other.
pub open spec fn objects_bytes(objects: Seq<CompositionObject>) -> Seq<u8>
    decreases objects.len(),
{
    if objects.len() == 0 {
        Seq::empty()
    } else {
        objects_bytes(objects.drop_last()) + object_bytes(objects.last())
    }
}

/// A window: id, x, y, width, height.
pub open spec fn window_bytes(w: WindowDef) -> Seq<u8> {
    seq![
        w.id,
        hi(w.x),
        lo(w.x),
        hi(w.y),
        lo(w.y),
        hi(w.width),
        lo(w.width),
        hi(w.height),
        lo(w.height),
    ]
}

/// The windows of a window definition, one after the other.
pub open spec fn windows_bytes(windows: Seq<WindowDef>) -> Seq<u8>
    decreases windows.len(),
{
    if windows.len() == 0 {
        Seq::empty()
    } else {
        windows_bytes(windows.drop_last()) + window_bytes(windows.last())
    }
}

/// The body of a composition: frame size, frame rate, composition id, state,
/// palette update flag, palette id, the number of objects, and the objects.
pub open spec fn composition_bytes(pc: PresentationCompositionView) -> Seq<u8> {
    seq![
        hi(pc.width),
        lo(pc.width),
        hi(pc.height),
        lo(pc.height),
        pc.frame_rate,
        hi(pc.composition_id),
        lo(pc.composition_id),
        pc.state,
        pc.palette_update,
        pc.palette_id,
        pc.objects.len() as u8,
    ] + objects_bytes(pc.objects)
}

/// The body of an object definition: id, version, sequence flags, the
/// three-byte length field, width, height, and the pixel data.
pub open spec fn object_definition_bytes(od: ObjectDefinitionView) -> Seq<u8> {
    seq![
        hi(od.id),
        lo(od.id),
        od.version,
        od.sequence,
        byte_of(od.data_length, 2),
        byte_of(od.data_length, 1),
        byte_of(od.data_length, 0),
        hi(od.width),
        lo(od.width),
        hi(od.height),
        lo(od.height),
    ] + od.data
}

/// The body of a segment as it stands in the stream.
pub open spec fn body_bytes(body: SegmentBodyView) -> Seq<u8> {
    match body {
        SegmentBodyView::PresentationComposition(pc) => composition_bytes(pc),
        SegmentBodyView::WindowDefinition(windows) => seq![windows.len() as u8] + windows_bytes(
            windows,
        ),
        SegmentBodyView::ObjectDefinition(od) => object_definition_bytes(od),
        SegmentBodyView::PaletteDefinition(payload) => payload,
        SegmentBodyView::EndOfDisplaySet => Seq::empty(),
    }
}

/// A segment as it stands in the stream. The length field is that of the body
/// as written.
pub open spec fn segment_bytes(segment: SegmentView) -> Seq<u8> {
    let body = body_bytes(segment.body);
    header_bytes(segment.pts, segment.dts, type_code(segment.body), body.len() as u16) + body
}

/// A sequence of segments as it stands in the stream.
pub open spec fn stream_bytes(segments: Seq<SegmentView>) -> Seq<u8>
    decreases segments.len(),
{
    if segments.len() == 0 {
        Seq::empty()
    } else {
        stream_bytes(segments.drop_last()) + segment_bytes(segments.last())
    }
}

/// The two bytes of a 16-bit value give the value back.
pub proof fn lemma_u16_bytes(v: u16)
    ensures
        u16_of(hi(v), lo(v)) == v,
{
}

/// A 16-bit value made of two bytes has them as its bytes.
pub proof fn lemma_u16_of(h: u8, l: u8)
    ensures
        hi(u16_of(h, l)) == h,
        lo(u16_of(h, l)) == l,
{
}

/// The four bytes of a 32-bit value give the value back.
pub proof fn lemma_u32_bytes(v: u32)
    ensures
        u32_of(byte_of(v, 3), byte_of(v, 2), byte_of(v, 1), byte_of(v, 0)) == v,
        v < 0x100_0000 ==> byte_of(v, 3) == 0,
{
    reveal(byte_of);
    reveal(u32_of);
    let q1 = v / 0x100;
    let q2 = v / 0x1_0000;
    let q3 = v / 0x100_0000;
    assert(q2 == q1 / 256);
    assert(q3 == q2 / 256);
    assert(v == q1 * 256 + v % 256);
    assert(q1 == q2 * 256 + q1 % 256);
    assert(q2 == q3 * 256 + q2 % 256);
    assert(q3 < 256);
}

/// A 32-bit value made of four bytes has them as its bytes.
pub proof fn lemma_u32_of(b3: u8, b2: u8, b1: u8, b0: u8)
    ensures
        byte_of(u32_of(b3, b2, b1, b0), 3) == b3,
        byte_of(u32_of(b3, b2, b1, b0), 2) == b2,
        byte_of(u32_of(b3, b2, b1, b0), 1) == b1,
        byte_of(u32_of(b3, b2, b1, b0), 0) == b0,
        b3 == 0 ==> u32_of(b3, b2, b1, b0) < 0x100_0000,
{
    reveal(byte_of);
    reveal(u32_of);
    let v: int = b3 * 0x100_0000 + b2 * 0x1_0000 + b1 * 0x100 + b0;
    assert(0 <= v <= u32::MAX);
    assert(v / 0x100 == b3 * 0x1_0000 + b2 * 0x100 + b1);
    assert(v / 0x1_0000 == b3 * 0x100 + b2);
    assert(v / 0x100_0000 == b3);
}

/// A composition object takes eight bytes, or sixteen with its crop rectangle.
pub proof fn lemma_object_bytes_len(o: CompositionObject)
    ensures
        object_bytes(o).len() == if o.crop is Some {
            CROPPED_RECORD_LEN as int
        } else {
            OBJECT_RECORD_LEN as int
        },
{
}

/// Appending an object appends its bytes.
pub proof fn lemma_objects_bytes_push(objects: Seq<CompositionObject>, o: CompositionObject)
    ensures
        objects_bytes(objects.push(o)) == objects_bytes(objects) + object_bytes(o),
{
    assert(objects.push(o).drop_last() =~= objects);
}

/// Objects take at most sixteen bytes each.
pub proof fn lemma_objects_bytes_len(objects: Seq<CompositionObject>)
    ensures
        OBJECT_RECORD_LEN * objects.len() <= objects_bytes(objects).len() <= CROPPED_RECORD_LEN
            * objects.len(),
    decreases objects.len(),
{
    if objects.len() > 0 {
        lemma_objects_bytes_len(objects.drop_last());
        lemma_object_bytes_len(objects.last());
    }
}

/// Appending a window appends its bytes.
pub proof fn lemma_windows_bytes_push(windows: Seq<WindowDef>, w: WindowDef)
    ensures
        windows_bytes(windows.push(w)) == windows_bytes(windows) + window_bytes(w),
{
    assert(windows.push(w).drop_last() =~= windows);
}

/// Windows take nine bytes each.
pub proof fn lemma_windows_bytes_len(windows: Seq<WindowDef>)
    ensures
        windows_bytes(windows).len() == WINDOW_RECORD_LEN * windows.len(),
    decreases windows.len(),
{
    if windows.len() > 0 {
        lemma_windows_bytes_len(windows.drop_last());
    }
}

/// The body of a well-formed segment fits the length field.
pub proof fn lemma_body_bytes_len(body: SegmentBodyView)
    requires
        body.wf(),
    ensures
        body_bytes(body).len() <= MAX_BODY_LEN,
{
    match body {
        SegmentBodyView::PresentationComposition(pc) => {
            lemma_objects_bytes_len(pc.objects);
        },
        SegmentBodyView::WindowDefinition(windows) => {
            lemma_windows_bytes_len(windows);
        },
        _ => {},
    }
}

/// Appending a segment appends its bytes.
pub proof fn lemma_stream_bytes_push(segments: Seq<SegmentView>, segment: SegmentView)
    ensures
        stream_bytes(segments.push(segment)) == stream_bytes(segments) + segment_bytes(segment),
{
    assert(segments.push(segment).drop_last() =~= segments);
}

} // verus!
