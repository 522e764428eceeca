//! Writing segments as bytes.
//!
//! The length field of a segment is computed from the body as it is written.
//! A segment that the layout cannot hold is refused, and nothing is written
//! of it.

use crate::model::{
    all_wf, CompositionObject, ObjectDefinition, PresentationComposition, Segment, SegmentBody,
    SegmentBodyView, SegmentView, WindowDef, DATA_LENGTH_LIMIT, MAX_BODY_LEN, OBJECT_HEADER_LEN,
};
use crate::wire::{
    body_bytes, byte_of, header_bytes, hi, lemma_body_bytes_len, lo, object_bytes, objects_bytes,
    segment_bytes, stream_bytes, type_code, window_bytes, windows_bytes, MAGIC_0, MAGIC_1,
    TYPE_COMPOSITION, TYPE_END, TYPE_OBJECT, TYPE_PALETTE, TYPE_WINDOWS,
};
use vstd::prelude::*;

verus! {

/// Why a segment cannot be written.
#[derive(Clone, Copy, Debug, PartialEq, Eq, Structural)]
pub enum EncodeError {
    /// A composition holds more objects than its count byte can say.
    TooManyObjects,
    /// A composition object has a crop rectangle that its flag byte does not
    /// announce, or lacks one that it announces.
    CropFlagMismatch,
    /// A window definition holds more windows than its count byte can say.
    TooManyWindows,
    /// The length field of an object definition does not fit in three bytes.
    DataLengthTooLarge,
    /// The body is longer than the length field of a segment can say.
    BodyTooLong,
}

/// Why a body cannot be written, or `None` where it can.
pub open spec fn body_encode_error(body: SegmentBodyView) -> Option<EncodeError> {
    match body {
        SegmentBodyView::PresentationComposition(pc) => {
            if pc.objects.len() > 255 {
                Some(EncodeError::TooManyObjects)
            } else if exists|i: int| 0 <= i < pc.objects.len() && !(#[trigger] pc.objects[i]).wf() {
                Some(EncodeError::CropFlagMismatch)
            } else {
                None
            }
        },
        SegmentBodyView::WindowDefinition(windows) => {
            if windows.len() > 255 {
                Some(EncodeError::TooManyWindows)
            } else {
                None
            }
        },
        SegmentBodyView::ObjectDefinition(od) => {
            if od.data_length >= DATA_LENGTH_LIMIT {
                Some(EncodeError::DataLengthTooLarge)
            } else if OBJECT_HEADER_LEN + od.data.len() > MAX_BODY_LEN {
                Some(EncodeError::BodyTooLong)
            } else {
                None
            }
        },
        SegmentBodyView::PaletteDefinition(payload) => {
            if payload.len() > MAX_BODY_LEN {
                Some(EncodeError::BodyTooLong)
            } else {
                None
            }
        },
        SegmentBodyView::EndOfDisplaySet => None,
    }
}

/// Why a segment cannot be written, or `None` where it can.
pub open spec fn encode_error(segment: SegmentView) -> Option<EncodeError> {
    body_encode_error(segment.body)
}

/// Why the first segment that cannot be written cannot, or `None` where all
/// of them can.
pub open spec fn stream_encode_error(segments: Seq<SegmentView>) -> Option<EncodeError>
    decreases segments.len(),
{
    if segments.len() == 0 {
        None
    } else {
        match stream_encode_error(segments.drop_last()) {
            Some(e) => Some(e),
            None => encode_error(segments.last()),
        }
    }
}

/// The segments that can be written are the well-formed ones.
pub proof fn lemma_encode_error_wf(segment: SegmentView)
    ensures
        encode_error(segment) is None <==> segment.wf(),
{
}

/// A sequence can be written exactly when each of its segments is well
/// formed.
pub proof fn lemma_stream_encode_error_wf(segments: Seq<SegmentView>)
    ensures
        stream_encode_error(segments) is None <==> all_wf(segments),
    decreases segments.len(),
{
    if segments.len() > 0 {
        lemma_stream_encode_error_wf(segments.drop_last());
        lemma_encode_error_wf(segments.last());
        if all_wf(segments.drop_last()) && segments.last().wf() {
            assert forall|i: int| 0 <= i < segments.len() implies (#[trigger] segments[i]).wf() by {
                if i < segments.len() - 1 {
                    assert(segments.drop_last()[i].wf());
                }
            }
        }
        if all_wf(segments) {
            assert forall|i: int| 0 <= i < segments.drop_last().len() implies (
            #[trigger] segments.drop_last()[i]).wf() by {
                assert(segments[i].wf());
            }
        }
    }
}

fn push_u16(out: &mut Vec<u8>, v: u16)
    ensures
        final(out)@ == old(out)@.push(hi(v)).push(lo(v)),
{
    out.push((v / 256) as u8);
    out.push((v % 256) as u8);
}

fn push_u24(out: &mut Vec<u8>, v: u32)
    ensures
        final(out)@ == old(out)@.push(byte_of(v, 2)).push(byte_of(v, 1)).push(byte_of(v, 0)),
{
    proof {
        reveal(byte_of);
    }
    out.push(((v / 0x1_0000) % 256) as u8);
    out.push(((v / 0x100) % 256) as u8);
    out.push((v % 256) as u8);
}

fn push_u32(out: &mut Vec<u8>, v: u32)
    ensures
        final(out)@ == old(out)@.push(byte_of(v, 3)).push(byte_of(v, 2)).push(byte_of(v, 1)).push(
            byte_of(v, 0),
        ),
{
    proof {
        reveal(byte_of);
    }
    out.push(((v / 0x100_0000) % 256) as u8);
    out.push(((v / 0x1_0000) % 256) as u8);
    out.push(((v / 0x100) % 256) as u8);
    out.push((v % 256) as u8);
}

/// Appends the bytes of one composition object.
fn encode_object(o: &CompositionObject, out: &mut Vec<u8>)
    ensures
        final(out)@ == old(out)@ + object_bytes(*o),
{
    push_u16(out, o.object_id);
    out.push(o.window_id);
    out.push(o.flags);
    push_u16(out, o.x);
    push_u16(out, o.y);
    match o.crop {
        Some(r) => {
            push_u16(out, r.x);
            push_u16(out, r.y);
            push_u16(out, r.width);
            push_u16(out, r.height);
        },
        None => {},
    }
    assert(out@ =~= old(out)@ + object_bytes(*o));
}

/// Appends the bytes of one window.
fn encode_window(w: &WindowDef, out: &mut Vec<u8>)
    ensures
        final(out)@ == old(out)@ + window_bytes(*w),
{
    out.push(w.id);
    push_u16(out, w.x);
    push_u16(out, w.y);
    push_u16(out, w.width);
    push_u16(out, w.height);
    assert(out@ =~= old(out)@ + window_bytes(*w));
}

/// Appends the body of a composition.
fn encode_composition(pc: &PresentationComposition, out: &mut Vec<u8>) -> (r: Result<
    (),
    EncodeError,
>)
    ensures
        match r {
            Ok(()) => {
                &&& pc@.wf()
                &&& final(out)@ == old(out)@ + body_bytes(
                    SegmentBodyView::PresentationComposition(pc@),
                )
            },
            Err(e) => body_encode_error(SegmentBodyView::PresentationComposition(pc@)) == Some(e),
        },
{
    if pc.objects.len() > 255 {
        return Err(EncodeError::TooManyObjects);
    }
    push_u16(out, pc.width);
    push_u16(out, pc.height);
    out.push(pc.frame_rate);
    push_u16(out, pc.composition_id);
    out.push(pc.state);
    out.push(pc.palette_update);
    out.push(pc.palette_id);
    out.push(pc.objects.len() as u8);
    let ghost fixed = out@;
    let mut i: usize = 0;
    while i < pc.objects.len()
        invariant
            i <= pc.objects.len() <= 255,
            forall|k: int| 0 <= k < i ==> (#[trigger] pc.objects@[k]).wf(),
            out@ == fixed + objects_bytes(pc.objects@.subrange(0, i as int)),
        decreases pc.objects.len() - i,
    {
        if !pc.objects[i].is_wf() {
            return Err(EncodeError::CropFlagMismatch);
        }
        encode_object(&pc.objects[i], out);
        proof {
            assert(pc.objects@.subrange(0, i + 1).drop_last() =~= pc.objects@.subrange(
                0,
                i as int,
            ));
        }
        i = i + 1;
    }
    proof {
        assert(pc.objects@.subrange(0, i as int) =~= pc.objects@);
        assert(out@ =~= old(out)@ + body_bytes(SegmentBodyView::PresentationComposition(pc@)));
    }
    Ok(())
}

/// Appends the body of a window definition.
fn encode_windows(windows: &Vec<WindowDef>, out: &mut Vec<u8>) -> (r: Result<(), EncodeError>)
    ensures
        match r {
            Ok(()) => {
                &&& windows@.len() <= 255
                &&& final(out)@ == old(out)@ + body_bytes(
                    SegmentBodyView::WindowDefinition(windows@),
                )
            },
            Err(e) => body_encode_error(SegmentBodyView::WindowDefinition(windows@)) == Some(e),
        },
{
    if windows.len() > 255 {
        return Err(EncodeError::TooManyWindows);
    }
    out.push(windows.len() as u8);
    let ghost fixed = out@;
    let mut i: usize = 0;
    while i < windows.len()
        invariant
            i <= windows.len(),
            out@ == fixed + windows_bytes(windows@.subrange(0, i as int)),
        decreases windows.len() - i,
    {
        encode_window(&windows[i], out);
        proof {
            assert(windows@.subrange(0, i + 1).drop_last() =~= windows@.subrange(0, i as int));
        }
        i = i + 1;
    }
    proof {
        assert(windows@.subrange(0, i as int) =~= windows@);
        assert(out@ =~= old(out)@ + body_bytes(SegmentBodyView::WindowDefinition(windows@)));
    }
    Ok(())
}

/// Appends the bytes of `data`.
fn push_all(out: &mut Vec<u8>, data: &Vec<u8>)
    ensures
        final(out)@ == old(out)@ + data@,
{
    let mut i: usize = 0;
    while i < data.len()
        invariant
            i <= data.len(),
            out@ == old(out)@ + data@.subrange(0, i as int),
        decreases data.len() - i,
    {
        out.push(data[i]);
        assert(out@ =~= old(out)@ + data@.subrange(0, i + 1));
        i = i + 1;
    }
    assert(data@.subrange(0, i as int) =~= data@);
}

/// Appends the body of an object definition.
fn encode_object_definition(od: &ObjectDefinition, out: &mut Vec<u8>) -> (r: Result<
    (),
    EncodeError,
>)
    ensures
        match r {
            Ok(()) => {
                &&& od@.wf()
                &&& final(out)@ == old(out)@ + body_bytes(SegmentBodyView::ObjectDefinition(od@))
            },
            Err(e) => body_encode_error(SegmentBodyView::ObjectDefinition(od@)) == Some(e),
        },
{
    if od.data_length >= DATA_LENGTH_LIMIT {
        return Err(EncodeError::DataLengthTooLarge);
    }
    if od.data.len() > MAX_BODY_LEN - OBJECT_HEADER_LEN {
        return Err(EncodeError::BodyTooLong);
    }
    push_u16(out, od.id);
    out.push(od.version);
    out.push(od.sequence);
    push_u24(out, od.data_length);
    push_u16(out, od.width);
    push_u16(out, od.height);
    push_all(out, &od.data);
    assert(out@ =~= old(out)@ + body_bytes(SegmentBodyView::ObjectDefinition(od@)));
    Ok(())
}

/// Appends a body as it stands in the stream.
fn encode_body(body: &SegmentBody, out: &mut Vec<u8>) -> (r: Result<u8, EncodeError>)
    ensures
        match r {
            Ok(code) => {
                &&& body@.wf()
                &&& code == type_code(body@)
                &&& final(out)@ == old(out)@ + body_bytes(body@)
            },
            Err(e) => body_encode_error(body@) == Some(e),
        },
{
    match body {
        SegmentBody::PresentationComposition(pc) => {
            match encode_composition(pc, out) {
                Ok(()) => Ok(TYPE_COMPOSITION),
                Err(e) => Err(e),
            }
        },
        SegmentBody::WindowDefinition(windows) => {
            match encode_windows(windows, out) {
                Ok(()) => Ok(TYPE_WINDOWS),
                Err(e) => Err(e),
            }
        },
        SegmentBody::ObjectDefinition(od) => {
            match encode_object_definition(od, out) {
                Ok(()) => Ok(TYPE_OBJECT),
                Err(e) => Err(e),
            }
        },
        SegmentBody::PaletteDefinition(payload) => {
            if payload.len() > MAX_BODY_LEN {
                return Err(EncodeError::BodyTooLong);
            }
            push_all(out, payload);
            Ok(TYPE_PALETTE)
        },
        SegmentBody::EndOfDisplaySet => {
            assert(out@ =~= old(out)@ + body_bytes(body@));
            Ok(TYPE_END)
        },
    }
}

/// Appends `segment` to `out` as it stands in the stream.
///
/// A well-formed segment is written; any other is refused with the error that
/// `encode_error` names, and `out` is left as it was.
pub fn encode_segment(segment: &Segment, out: &mut Vec<u8>) -> (r: Result<(), EncodeError>)
    ensures
        match r {
            Ok(()) => {
                &&& segment@.wf()
                &&& final(out)@ == old(out)@ + segment_bytes(segment@)
            },
            Err(e) => {
                &&& !segment@.wf()
                &&& encode_error(segment@) == Some(e)
                &&& final(out)@ == old(out)@
            },
        },
{
    let mut body: Vec<u8> = Vec::new();
    match encode_body(&segment.body, &mut body) {
        Err(e) => Err(e),
        Ok(code) => {
            proof {
                lemma_body_bytes_len(segment@.body);
                assert(body@ =~= body_bytes(segment@.body));
            }
            out.push(MAGIC_0);
            out.push(MAGIC_1);
            push_u32(out, segment.pts);
            push_u32(out, segment.dts);
            out.push(code);
            push_u16(out, body.len() as u16);
            assert(out@ =~= old(out)@ + header_bytes(
                segment.pts,
                segment.dts,
                code,
                body@.len() as u16,
            ));
            out.append(&mut body);
            assert(out@ =~= old(out)@ + segment_bytes(segment@));
            Ok(())
        },
    }
}

/// Writes a whole stream: the segments one after the other.
///
/// Where every segment is well formed, their bytes come back. Otherwise the
/// error is that of the first segment that cannot be written.
pub fn encode_stream(segments: &Vec<Segment>) -> (r: Result<Vec<u8>, EncodeError>)
    ensures
        match r {
            Ok(out) => {
                &&& all_wf(segments.deep_view())
                &&& out@ == stream_bytes(segments.deep_view())
            },
            Err(e) => {
                &&& !all_wf(segments.deep_view())
                &&& stream_encode_error(segments.deep_view()) == Some(e)
            },
        },
{
    let mut out: Vec<u8> = Vec::new();
    let mut i: usize = 0;
    while i < segments.len()
        invariant
            i <= segments.len(),
            stream_encode_error(segments.deep_view().subrange(0, i as int)) is None,
            out@ == stream_bytes(segments.deep_view().subrange(0, i as int)),
        decreases segments.len() - i,
    {
        let ghost prefix = segments.deep_view().subrange(0, i as int);
        let ghost next = segments.deep_view().subrange(0, i + 1);
        proof {
            assert(next.drop_last() =~= prefix);
            assert(next.last() == segments[i as int]@);
        }
        match encode_segment(&segments[i], &mut out) {
            Err(e) => {
                proof {
                    lemma_first_error(segments.deep_view(), i as int);
                    lemma_stream_encode_error_wf(segments.deep_view());
                }
                return Err(e);
            },
            Ok(()) => {
                proof {
                    lemma_encode_error_wf(segments[i as int]@);
                }
            },
        }
        i = i + 1;
    }
    proof {
        assert(segments.deep_view().subrange(0, i as int) =~= segments.deep_view());
        lemma_stream_encode_error_wf(segments.deep_view());
    }
    Ok(out)
}

/// Where the segments in front of the one at `i` can be written and that one
/// cannot, its error is that of the sequence.
proof fn lemma_first_error(segments: Seq<SegmentView>, i: int)
    requires
        0 <= i < segments.len(),
        stream_encode_error(segments.subrange(0, i)) is None,
        encode_error(segments[i]) is Some,
    ensures
        stream_encode_error(segments) == encode_error(segments[i]),
    decreases segments.len(),
{
    if i == segments.len() - 1 {
        assert(segments.drop_last() =~= segments.subrange(0, i));
    } else {
        assert(segments.drop_last().subrange(0, i) =~= segments.subrange(0, i));
        lemma_first_error(segments.drop_last(), i);
    }
}

} // verus!
