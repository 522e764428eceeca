//! The segments of a subtitle stream, and their mathematical views.
//!
//! A type that owns a `Vec` has a view that holds a `Seq` in its place. The
//! contracts of this crate speak of the views.

use vstd::prelude::*;

verus! {

/// The width and height of a frame, an object or a window, in pixels.
#[derive(Clone, Copy, Debug, PartialEq, Eq, Structural)]
pub struct Size {
    pub width: u16,
    pub height: u16,
}

/// The part of an object that is shown when the object is cut to a rectangle
/// within its own bounds.
#[derive(Clone, Copy, Debug, PartialEq, Eq, Structural)]
pub struct CropRect {
    pub x: u16,
    pub y: u16,
    pub width: u16,
    pub height: u16,
}

/// The flag bit of a composition object that announces a crop rectangle.
pub const CROPPED_FLAG: u8 = 0x80;

/// A reference, inside a composition, to an object and its place on screen.
#[derive(Clone, Copy, Debug, PartialEq, Eq)]
pub struct CompositionObject {
    pub object_id: u16,
    pub window_id: u8,
    /// The flag byte as it stands in the stream, all eight bits.
    pub flags: u8,
    pub x: u16,
    pub y: u16,
    pub crop: Option<CropRect>,
}

impl CompositionObject {
    /// The crop rectangle is there exactly when the flag byte announces it.
    pub open spec fn wf(self) -> bool {
        self.crop is Some <==> self.flags >= CROPPED_FLAG
    }

    /// Tests `wf`.
    pub fn is_wf(&self) -> (b: bool)
        ensures
            b == self.wf(),
    {
        self.crop.is_some() == (self.flags >= CROPPED_FLAG)
    }
}

/// One window of a window definition.
#[derive(Clone, Copy, Debug, PartialEq, Eq, Structural)]
pub struct WindowDef {
    pub id: u8,
    pub x: u16,
    pub y: u16,
    pub width: u16,
    pub height: u16,
}

/// The segment that opens a display set: the frame size and the objects shown.
#[derive(Clone, Debug, PartialEq, Eq)]
pub struct PresentationComposition {
    pub width: u16,
    pub height: u16,
    pub frame_rate: u8,
    /// The number that groups the segments of one display set.
    pub composition_id: u16,
    pub state: u8,
    pub palette_update: u8,
    pub palette_id: u8,
    pub objects: Vec<CompositionObject>,
}

/// The view of a `PresentationComposition`.
pub struct PresentationCompositionView {
    pub width: u16,
    pub height: u16,
    pub frame_rate: u8,
    pub composition_id: u16,
    pub state: u8,
    pub palette_update: u8,
    pub palette_id: u8,
    pub objects: Seq<CompositionObject>,
}

impl View for PresentationComposition {
    type V = PresentationCompositionView;

    open spec fn view(&self) -> PresentationCompositionView {
        PresentationCompositionView {
            width: self.width,
            height: self.height,
            frame_rate: self.frame_rate,
            composition_id: self.composition_id,
            state: self.state,
            palette_update: self.palette_update,
            palette_id: self.palette_id,
            objects: self.objects@,
        }
    }
}

impl PresentationCompositionView {
    /// The objects can be counted in one byte, and each of them is well formed.
    pub open spec fn wf(self) -> bool {
        &&& self.objects.len() <= 255
        &&& forall|i: int| 0 <= i < self.objects.len() ==> (#[trigger] self.objects[i]).wf()
    }

    /// The frame size that the composition declares.
    pub open spec fn size(self) -> Size {
        Size { width: self.width, height: self.height }
    }
}

/// The largest body that the length field of a segment can announce.
pub const MAX_BODY_LEN: usize = 0xFFFF;

/// The bytes of an object definition's body in front of its pixel data.
pub const OBJECT_HEADER_LEN: usize = 11;

/// The bound of the three-byte length field of an object definition.
pub const DATA_LENGTH_LIMIT: u32 = 0x100_0000;

/// An object's dimensions and its encoded pixels, which are carried along
/// unread.
#[derive(Clone, Debug, PartialEq, Eq)]
pub struct ObjectDefinition {
    pub id: u16,
    pub version: u8,
    pub sequence: u8,
    /// The three-byte length field as it stands in the stream.
    pub data_length: u32,
    pub width: u16,
    pub height: u16,
    pub data: Vec<u8>,
}

/// The view of an `ObjectDefinition`.
pub struct ObjectDefinitionView {
    pub id: u16,
    pub version: u8,
    pub sequence: u8,
    pub data_length: u32,
    pub width: u16,
    pub height: u16,
    pub data: Seq<u8>,
}

impl View for ObjectDefinition {
    type V = ObjectDefinitionView;

    open spec fn view(&self) -> ObjectDefinitionView {
        ObjectDefinitionView {
            id: self.id,
            version: self.version,
            sequence: self.sequence,
            data_length: self.data_length,
            width: self.width,
            height: self.height,
            data: self.data@,
        }
    }
}

impl ObjectDefinitionView {
    /// The length field fits in three bytes and the body in a segment.
    pub open spec fn wf(self) -> bool {
        &&& self.data_length < DATA_LENGTH_LIMIT
        &&& OBJECT_HEADER_LEN + self.data.len() <= MAX_BODY_LEN
    }

    /// The dimensions that the definition declares.
    pub open spec fn size(self) -> Size {
        Size { width: self.width, height: self.height }
    }
}

/// What a segment carries: one of five kinds.
#[derive(Clone, Debug, PartialEq, Eq)]
pub enum SegmentBody {
    PresentationComposition(PresentationComposition),
    WindowDefinition(Vec<WindowDef>),
    ObjectDefinition(ObjectDefinition),
    /// A palette, carried along unread.
    PaletteDefinition(Vec<u8>),
    EndOfDisplaySet,
}

/// The view of a `SegmentBody`.
pub enum SegmentBodyView {
    PresentationComposition(PresentationCompositionView),
    WindowDefinition(Seq<WindowDef>),
    ObjectDefinition(ObjectDefinitionView),
    PaletteDefinition(Seq<u8>),
    EndOfDisplaySet,
}

impl View for SegmentBody {
    type V = SegmentBodyView;

    open spec fn view(&self) -> SegmentBodyView {
        match self {
            SegmentBody::PresentationComposition(pc) => SegmentBodyView::PresentationComposition(
                pc@,
            ),
            SegmentBody::WindowDefinition(windows) => SegmentBodyView::WindowDefinition(windows@),
            SegmentBody::ObjectDefinition(od) => SegmentBodyView::ObjectDefinition(od@),
            SegmentBody::PaletteDefinition(payload) => SegmentBodyView::PaletteDefinition(
                payload@,
            ),
            SegmentBody::EndOfDisplaySet => SegmentBodyView::EndOfDisplaySet,
        }
    }
}

impl SegmentBodyView {
    /// The body can be written to the stream and read back as it is.
    pub open spec fn wf(self) -> bool {
        match self {
            SegmentBodyView::PresentationComposition(pc) => pc.wf(),
            SegmentBodyView::WindowDefinition(windows) => windows.len() <= 255,
            SegmentBodyView::ObjectDefinition(od) => od.wf(),
            SegmentBodyView::PaletteDefinition(payload) => payload.len() <= MAX_BODY_LEN,
            SegmentBodyView::EndOfDisplaySet => true,
        }
    }
}

/// One timestamped unit of the stream.
#[derive(Clone, Debug, PartialEq, Eq)]
pub struct Segment {
    /// The presentation timestamp, carried along unread.
    pub pts: u32,
    /// The decode timestamp, carried along unread.
    pub dts: u32,
    pub body: SegmentBody,
}

/// The view of a `Segment`.
pub struct SegmentView {
    pub pts: u32,
    pub dts: u32,
    pub body: SegmentBodyView,
}

impl View for Segment {
    type V = SegmentView;

    open spec fn view(&self) -> SegmentView {
        SegmentView { pts: self.pts, dts: self.dts, body: self.body@ }
    }
}

impl DeepView for Segment {
    type V = SegmentView;

    open spec fn deep_view(&self) -> SegmentView {
        self@
    }
}

impl SegmentView {
    /// The segment can be written to the stream and read back as it is.
    pub open spec fn wf(self) -> bool {
        self.body.wf()
    }
}

/// Every segment of the sequence is well formed.
pub open spec fn all_wf(segments: Seq<SegmentView>) -> bool {
    forall|i: int| 0 <= i < segments.len() ==> (#[trigger] segments[i]).wf()
}

} // verus!
