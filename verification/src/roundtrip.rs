//! Reading and writing undo each other.
//!
//! Three facts carry the laws of this file. What is written is read: the
//! bytes of well-formed segments are a whole stream. What is read was
//! written: bytes in which `stream_error` finds nothing wrong are the bytes
//! of well-formed segments. And only one sequence of segments is written as
//! given bytes.

use crate::decode::{
    announced_len, body_fits, decode_error, decoded_segment, decoded_stream, objects_end,
    record_len, stream_error,
};
use crate::model::{
    all_wf, CompositionObject, CropRect, ObjectDefinitionView, PresentationCompositionView,
    SegmentBodyView, SegmentView, WindowDef, CROPPED_FLAG, MAX_BODY_LEN, OBJECT_HEADER_LEN,
};
use crate::wire::{
    body_bytes, byte_of, composition_bytes, header_bytes, hi, lemma_body_bytes_len,
    lemma_object_bytes_len, lemma_u16_bytes, lemma_u16_of, lemma_u32_bytes, lemma_u32_of,
    lemma_windows_bytes_len, lemma_windows_bytes_push, lo, object_bytes,
    object_definition_bytes, objects_bytes, rect_bytes, segment_bytes, stream_bytes, type_code,
    u16_of, u32_of, window_bytes, windows_bytes, COMPOSITION_HEADER_LEN, HEADER_LEN,
    OBJECT_RECORD_LEN, TYPE_COMPOSITION, TYPE_OBJECT, TYPE_PALETTE, TYPE_WINDOWS,
    WINDOW_RECORD_LEN,
};
use vstd::prelude::*;

verus! {

/// The bytes of a sequence of objects begin with those of its first object.
proof fn lemma_objects_bytes_front(objects: Seq<CompositionObject>)
    requires
        objects.len() > 0,
    ensures
        objects_bytes(objects) == object_bytes(objects[0]) + objects_bytes(objects.skip(1)),
    decreases objects.len(),
{
    let init = objects.drop_last();
    let tail = objects.skip(1);
    if objects.len() == 1 {
        assert(objects_bytes(init) =~= Seq::<u8>::empty());
        assert(objects_bytes(tail) =~= Seq::<u8>::empty());
        assert(objects_bytes(objects) =~= object_bytes(objects[0]) + objects_bytes(tail));
    } else {
        lemma_objects_bytes_front(init);
        assert(tail.drop_last() =~= init.skip(1));
        assert(objects_bytes(tail) == objects_bytes(init.skip(1)) + object_bytes(objects.last()));
        assert(objects_bytes(objects) =~= object_bytes(objects[0]) + objects_bytes(tail));
    }
}

/// The bytes of a sequence of segments begin with those of its first segment.
proof fn lemma_stream_bytes_front(segments: Seq<SegmentView>)
    requires
        segments.len() > 0,
    ensures
        stream_bytes(segments) == segment_bytes(segments[0]) + stream_bytes(segments.skip(1)),
    decreases segments.len(),
{
    let init = segments.drop_last();
    let tail = segments.skip(1);
    if segments.len() == 1 {
        assert(stream_bytes(init) =~= Seq::<u8>::empty());
        assert(stream_bytes(tail) =~= Seq::<u8>::empty());
        assert(stream_bytes(segments) =~= segment_bytes(segments[0]) + stream_bytes(tail));
    } else {
        lemma_stream_bytes_front(init);
        assert(tail.drop_last() =~= init.skip(1));
        assert(stream_bytes(tail) == stream_bytes(init.skip(1)) + segment_bytes(segments.last()));
        assert(stream_bytes(segments) =~= segment_bytes(segments[0]) + stream_bytes(tail));
    }
}

/// Well-formed objects that stand in `body` from `start` on are counted off
/// to their last byte.
proof fn lemma_objects_end_of_written(body: Seq<u8>, start: int, objects: Seq<CompositionObject>)
    requires
        0 <= start,
        forall|k: int| 0 <= k < objects.len() ==> (#[trigger] objects[k]).wf(),
        start + objects_bytes(objects).len() <= body.len(),
        body.subrange(start, start + objects_bytes(objects).len()) == objects_bytes(objects),
    ensures
        objects_end(body, start, objects.len()) == Some(start + objects_bytes(objects).len()),
    decreases objects.len(),
{
    if objects.len() > 0 {
        let first = objects[0];
        let tail = objects.skip(1);
        let all = objects_bytes(objects);
        let n = object_bytes(first).len() as int;
        lemma_objects_bytes_front(objects);
        lemma_object_bytes_len(first);
        assert(first.wf());
        assert(body[start + 3] == all[3]);
        assert(all[3] == object_bytes(first)[3]);
        assert(record_len(body[start + 3]) == n);
        assert(body.subrange(start + n, start + n + objects_bytes(tail).len()) =~= objects_bytes(
            tail,
        )) by {
            assert forall|k: int| 0 <= k < objects_bytes(tail).len() implies body[start + n + k]
                == objects_bytes(tail)[k] by {
                assert(body[start + n + k] == all[n + k]);
            }
        }
        assert forall|k: int| 0 <= k < tail.len() implies (#[trigger] tail[k]).wf() by {
            assert(objects[k + 1].wf());
        }
        lemma_objects_end_of_written(body, start + n, tail);
    }
}

/// The body of a well-formed segment is a body of its kind, to its last byte.
proof fn lemma_written_body_fits(body: SegmentBodyView)
    requires
        body.wf(),
    ensures
        body_fits(type_code(body), body_bytes(body)),
{
    match body {
        SegmentBodyView::PresentationComposition(pc) => {
            let bytes = composition_bytes(pc);
            assert(bytes.subrange(
                COMPOSITION_HEADER_LEN as int,
                COMPOSITION_HEADER_LEN + objects_bytes(pc.objects).len(),
            ) =~= objects_bytes(pc.objects));
            lemma_objects_end_of_written(bytes, COMPOSITION_HEADER_LEN as int, pc.objects);
            assert(bytes[10] == pc.objects.len());
        },
        SegmentBodyView::WindowDefinition(windows) => {
            lemma_windows_bytes_len(windows);
            assert(body_bytes(body)[0] == windows.len());
        },
        _ => {},
    }
}

/// What was written is read: the bytes of a well-formed segment, whatever
/// follows them, begin with a segment, and the header announces their
/// length.
proof fn lemma_written_segment_decodes(segment: SegmentView, rest: Seq<u8>)
    requires
        segment.wf(),
    ensures
        decode_error(segment_bytes(segment) + rest) is None,
        announced_len(segment_bytes(segment) + rest) == segment_bytes(segment).len(),
{
    let body = body_bytes(segment.body);
    let written = segment_bytes(segment);
    let input = written + rest;
    lemma_body_bytes_len(segment.body);
    lemma_written_body_fits(segment.body);
    lemma_u16_bytes(body.len() as u16);
    assert(input[11] == written[11] && input[12] == written[12]);
    assert(input[0] == written[0] && input[1] == written[1] && input[10] == written[10]);
    assert(announced_len(input) == HEADER_LEN + body.len());
    assert(input.subrange(HEADER_LEN as int, announced_len(input)) =~= body);
}

/// One object only is written as given bytes.
proof fn lemma_object_bytes_injective(a: CompositionObject, b: CompositionObject)
    requires
        a.wf(),
        b.wf(),
        object_bytes(a) == object_bytes(b),
    ensures
        a == b,
{
    let sa = object_bytes(a);
    let sb = object_bytes(b);
    lemma_object_bytes_len(a);
    lemma_object_bytes_len(b);
    assert(sa[3] == a.flags && sb[3] == b.flags);
    assert(sa[0] == hi(a.object_id) && sa[1] == lo(a.object_id) && sa[2] == a.window_id);
    assert(sb[0] == hi(b.object_id) && sb[1] == lo(b.object_id) && sb[2] == b.window_id);
    assert(sa[4] == hi(a.x) && sa[5] == lo(a.x) && sa[6] == hi(a.y) && sa[7] == lo(a.y));
    assert(sb[4] == hi(b.x) && sb[5] == lo(b.x) && sb[6] == hi(b.y) && sb[7] == lo(b.y));
    lemma_u16_bytes(a.object_id);
    lemma_u16_bytes(b.object_id);
    lemma_u16_bytes(a.x);
    lemma_u16_bytes(b.x);
    lemma_u16_bytes(a.y);
    lemma_u16_bytes(b.y);
    match (a.crop, b.crop) {
        (Some(ra), Some(rb)) => {
            let ta = rect_bytes(ra);
            let tb = rect_bytes(rb);
            assert(ta =~= sa.subrange(8, 16));
            assert(tb =~= sb.subrange(8, 16));
            assert(ta[0] == hi(ra.x) && ta[1] == lo(ra.x) && ta[2] == hi(ra.y) && ta[3] == lo(
                ra.y,
            ));
            assert(ta[4] == hi(ra.width) && ta[5] == lo(ra.width) && ta[6] == hi(ra.height)
                && ta[7] == lo(ra.height));
            assert(tb[0] == hi(rb.x) && tb[1] == lo(rb.x) && tb[2] == hi(rb.y) && tb[3] == lo(
                rb.y,
            ));
            assert(tb[4] == hi(rb.width) && tb[5] == lo(rb.width) && tb[6] == hi(rb.height)
                && tb[7] == lo(rb.height));
            lemma_u16_bytes(ra.x);
            lemma_u16_bytes(rb.x);
            lemma_u16_bytes(ra.y);
            lemma_u16_bytes(rb.y);
            lemma_u16_bytes(ra.width);
            lemma_u16_bytes(rb.width);
            lemma_u16_bytes(ra.height);
            lemma_u16_bytes(rb.height);
        },
        _ => {},
    }
}

/// One sequence of objects only, of a given length, is written as given
/// bytes.
proof fn lemma_objects_bytes_injective(a: Seq<CompositionObject>, b: Seq<CompositionObject>)
    requires
        a.len() == b.len(),
        forall|k: int| 0 <= k < a.len() ==> (#[trigger] a[k]).wf(),
        forall|k: int| 0 <= k < b.len() ==> (#[trigger] b[k]).wf(),
        objects_bytes(a) == objects_bytes(b),
    ensures
        a == b,
    decreases a.len(),
{
    if a.len() == 0 {
        assert(a =~= b);
    } else {
        let all = objects_bytes(a);
        let fa = object_bytes(a[0]);
        let fb = object_bytes(b[0]);
        lemma_objects_bytes_front(a);
        lemma_objects_bytes_front(b);
        lemma_object_bytes_len(a[0]);
        lemma_object_bytes_len(b[0]);
        assert(a[0].wf() && b[0].wf());
        assert(all[3] == fa[3] && all[3] == fb[3]);
        assert(fa[3] == a[0].flags && fb[3] == b[0].flags);
        assert(fa.len() == fb.len());
        assert(fa =~= all.subrange(0, fa.len() as int));
        assert(fb =~= all.subrange(0, fa.len() as int));
        lemma_object_bytes_injective(a[0], b[0]);
        assert(objects_bytes(a.skip(1)) =~= all.subrange(fa.len() as int, all.len() as int));
        assert(objects_bytes(b.skip(1)) =~= all.subrange(fa.len() as int, all.len() as int));
        assert forall|k: int| 0 <= k < a.skip(1).len() implies (#[trigger] a.skip(1)[k]).wf() by {
            assert(a[k + 1].wf());
        }
        assert forall|k: int| 0 <= k < b.skip(1).len() implies (#[trigger] b.skip(1)[k]).wf() by {
            assert(b[k + 1].wf());
        }
        lemma_objects_bytes_injective(a.skip(1), b.skip(1));
        assert forall|k: int| 0 <= k < a.len() implies a[k] == b[k] by {
            if k > 0 {
                assert(a[k] == a.skip(1)[k - 1]);
                assert(b[k] == b.skip(1)[k - 1]);
            }
        }
        assert(a =~= b);
    }
}

/// One window only is written as given bytes.
proof fn lemma_window_bytes_injective(a: WindowDef, b: WindowDef)
    requires
        window_bytes(a) == window_bytes(b),
    ensures
        a == b,
{
    let sa = window_bytes(a);
    let sb = window_bytes(b);
    assert(sa[0] == a.id && sa[1] == hi(a.x) && sa[2] == lo(a.x) && sa[3] == hi(a.y) && sa[4]
        == lo(a.y));
    assert(sa[5] == hi(a.width) && sa[6] == lo(a.width) && sa[7] == hi(a.height) && sa[8] == lo(
        a.height,
    ));
    assert(sb[0] == b.id && sb[1] == hi(b.x) && sb[2] == lo(b.x) && sb[3] == hi(b.y) && sb[4]
        == lo(b.y));
    assert(sb[5] == hi(b.width) && sb[6] == lo(b.width) && sb[7] == hi(b.height) && sb[8] == lo(
        b.height,
    ));
    lemma_u16_bytes(a.x);
    lemma_u16_bytes(b.x);
    lemma_u16_bytes(a.y);
    lemma_u16_bytes(b.y);
    lemma_u16_bytes(a.width);
    lemma_u16_bytes(b.width);
    lemma_u16_bytes(a.height);
    lemma_u16_bytes(b.height);
}

/// One sequence of windows only is written as given bytes.
proof fn lemma_windows_bytes_injective(a: Seq<WindowDef>, b: Seq<WindowDef>)
    requires
        windows_bytes(a) == windows_bytes(b),
    ensures
        a == b,
    decreases a.len(),
{
    lemma_windows_bytes_len(a);
    lemma_windows_bytes_len(b);
    assert(a.len() == b.len());
    if a.len() == 0 {
        assert(a =~= b);
    } else {
        let all = windows_bytes(a);
        let cut = all.len() - 9;
        lemma_windows_bytes_len(a.drop_last());
        lemma_windows_bytes_len(b.drop_last());
        assert(windows_bytes(a.drop_last()) =~= all.subrange(0, cut));
        assert(windows_bytes(b.drop_last()) =~= all.subrange(0, cut));
        assert(window_bytes(a.last()) =~= all.subrange(cut, all.len() as int));
        assert(window_bytes(b.last()) =~= all.subrange(cut, all.len() as int));
        lemma_windows_bytes_injective(a.drop_last(), b.drop_last());
        lemma_window_bytes_injective(a.last(), b.last());
        assert forall|k: int| 0 <= k < a.len() implies a[k] == b[k] by {
            if k < a.len() - 1 {
                assert(a[k] == a.drop_last()[k]);
                assert(b[k] == b.drop_last()[k]);
            }
        }
        assert(a =~= b);
    }
}

/// One well-formed body only, of a given kind, is written as given bytes.
proof fn lemma_body_bytes_injective(a: SegmentBodyView, b: SegmentBodyView)
    requires
        a.wf(),
        b.wf(),
        type_code(a) == type_code(b),
        body_bytes(a) == body_bytes(b),
    ensures
        a == b,
{
    match (a, b) {
        (
            SegmentBodyView::PresentationComposition(pa),
            SegmentBodyView::PresentationComposition(pb),
        ) => {
            let sa = composition_bytes(pa);
            let sb = composition_bytes(pb);
            assert(sa[0] == hi(pa.width) && sa[1] == lo(pa.width) && sa[2] == hi(pa.height)
                && sa[3] == lo(pa.height));
            assert(sb[0] == hi(pb.width) && sb[1] == lo(pb.width) && sb[2] == hi(pb.height)
                && sb[3] == lo(pb.height));
            assert(sa[4] == pa.frame_rate && sa[5] == hi(pa.composition_id) && sa[6] == lo(
                pa.composition_id,
            ));
            assert(sb[4] == pb.frame_rate && sb[5] == hi(pb.composition_id) && sb[6] == lo(
                pb.composition_id,
            ));
            assert(sa[7] == pa.state && sa[8] == pa.palette_update && sa[9] == pa.palette_id
                && sa[10] == pa.objects.len());
            assert(sb[7] == pb.state && sb[8] == pb.palette_update && sb[9] == pb.palette_id
                && sb[10] == pb.objects.len());
            lemma_u16_bytes(pa.width);
            lemma_u16_bytes(pb.width);
            lemma_u16_bytes(pa.height);
            lemma_u16_bytes(pb.height);
            lemma_u16_bytes(pa.composition_id);
            lemma_u16_bytes(pb.composition_id);
            assert(objects_bytes(pa.objects) =~= sa.subrange(
                COMPOSITION_HEADER_LEN as int,
                sa.len() as int,
            ));
            assert(objects_bytes(pb.objects) =~= sb.subrange(
                COMPOSITION_HEADER_LEN as int,
                sb.len() as int,
            ));
            lemma_objects_bytes_injective(pa.objects, pb.objects);
        },
        (SegmentBodyView::WindowDefinition(wa), SegmentBodyView::WindowDefinition(wb)) => {
            let sa = body_bytes(a);
            assert(windows_bytes(wa) =~= sa.subrange(1, sa.len() as int));
            assert(windows_bytes(wb) =~= sa.subrange(1, sa.len() as int));
            lemma_windows_bytes_injective(wa, wb);
        },
        (SegmentBodyView::ObjectDefinition(oa), SegmentBodyView::ObjectDefinition(ob)) => {
            let sa = object_definition_bytes(oa);
            let sb = object_definition_bytes(ob);
            assert(sa[0] == hi(oa.id) && sa[1] == lo(oa.id) && sa[2] == oa.version && sa[3]
                == oa.sequence);
            assert(sb[0] == hi(ob.id) && sb[1] == lo(ob.id) && sb[2] == ob.version && sb[3]
                == ob.sequence);
            assert(sa[4] == byte_of(oa.data_length, 2) && sa[5] == byte_of(oa.data_length, 1)
                && sa[6] == byte_of(oa.data_length, 0));
            assert(sb[4] == byte_of(ob.data_length, 2) && sb[5] == byte_of(ob.data_length, 1)
                && sb[6] == byte_of(ob.data_length, 0));
            assert(sa[7] == hi(oa.width) && sa[8] == lo(oa.width) && sa[9] == hi(oa.height)
                && sa[10] == lo(oa.height));
            assert(sb[7] == hi(ob.width) && sb[8] == lo(ob.width) && sb[9] == hi(ob.height)
                && sb[10] == lo(ob.height));
            lemma_u16_bytes(oa.id);
            lemma_u16_bytes(ob.id);
            lemma_u16_bytes(oa.width);
            lemma_u16_bytes(ob.width);
            lemma_u16_bytes(oa.height);
            lemma_u16_bytes(ob.height);
            lemma_u32_bytes(oa.data_length);
            lemma_u32_bytes(ob.data_length);
            assert(oa.data =~= sa.subrange(11, sa.len() as int));
            assert(ob.data =~= sb.subrange(11, sb.len() as int));
        },
        (SegmentBodyView::PaletteDefinition(_), SegmentBodyView::PaletteDefinition(_)) => {},
        (SegmentBodyView::EndOfDisplaySet, SegmentBodyView::EndOfDisplaySet) => {},
        _ => {},
    }
}

/// One segment only is read from given bytes: two well-formed segments whose
/// bytes both stand at the front of `input` are the same segment.
pub proof fn lemma_decoding_is_unique(input: Seq<u8>, a: SegmentView, b: SegmentView)
    requires
        a.wf(),
        b.wf(),
        segment_bytes(a).is_prefix_of(input),
        segment_bytes(b).is_prefix_of(input),
    ensures
        a == b,
{
    let sa = segment_bytes(a);
    let sb = segment_bytes(b);
    let ba = body_bytes(a.body);
    let bb = body_bytes(b.body);
    lemma_body_bytes_len(a.body);
    lemma_body_bytes_len(b.body);
    let ha = header_bytes(a.pts, a.dts, type_code(a.body), ba.len() as u16);
    let hb = header_bytes(b.pts, b.dts, type_code(b.body), bb.len() as u16);
    assert forall|k: int| 0 <= k < HEADER_LEN implies ha[k] == hb[k] by {
        assert(ha[k] == sa[k] && sa[k] == input[k]);
        assert(hb[k] == sb[k] && sb[k] == input[k]);
    }
    assert(ha[2] == hb[2] && ha[3] == hb[3] && ha[4] == hb[4] && ha[5] == hb[5]);
    assert(ha[6] == hb[6] && ha[7] == hb[7] && ha[8] == hb[8] && ha[9] == hb[9]);
    assert(ha[10] == hb[10] && ha[11] == hb[11] && ha[12] == hb[12]);
    lemma_u32_bytes(a.pts);
    lemma_u32_bytes(b.pts);
    lemma_u32_bytes(a.dts);
    lemma_u32_bytes(b.dts);
    lemma_u16_bytes(ba.len() as u16);
    lemma_u16_bytes(bb.len() as u16);
    assert(ba.len() == bb.len());
    assert(ba =~= input.subrange(HEADER_LEN as int, HEADER_LEN + ba.len())) by {
        assert forall|k: int| 0 <= k < ba.len() implies ba[k] == input[HEADER_LEN + k] by {
            assert(sa[HEADER_LEN + k] == ba[k]);
        }
    }
    assert(bb =~= input.subrange(HEADER_LEN as int, HEADER_LEN + ba.len())) by {
        assert forall|k: int| 0 <= k < bb.len() implies bb[k] == input[HEADER_LEN + k] by {
            assert(sb[HEADER_LEN + k] == bb[k]);
        }
    }
    lemma_body_bytes_injective(a.body, b.body);
}

/// What was written is read: the bytes of well-formed segments are a whole
/// stream.
proof fn lemma_written_stream_decodes(segments: Seq<SegmentView>)
    requires
        all_wf(segments),
    ensures
        stream_error(stream_bytes(segments)) is None,
    decreases segments.len(),
{
    if segments.len() > 0 {
        let tail = segments.skip(1);
        let input = stream_bytes(segments);
        lemma_stream_bytes_front(segments);
        assert(segments[0].wf());
        lemma_written_segment_decodes(segments[0], stream_bytes(tail));
        assert(input.skip(announced_len(input)) =~= stream_bytes(tail));
        assert forall|k: int| 0 <= k < tail.len() implies (#[trigger] tail[k]).wf() by {
            assert(segments[k + 1].wf());
        }
        lemma_written_stream_decodes(tail);
    }
}

/// One sequence of segments only is read from given bytes: two sequences of
/// well-formed segments with the same bytes are the same sequence.
pub proof fn lemma_stream_decoding_is_unique(a: Seq<SegmentView>, b: Seq<SegmentView>)
    requires
        all_wf(a),
        all_wf(b),
        stream_bytes(a) == stream_bytes(b),
    ensures
        a == b,
    decreases a.len(),
{
    let input = stream_bytes(a);
    if a.len() == 0 || b.len() == 0 {
        if a.len() > 0 {
            lemma_stream_bytes_front(a);
        }
        if b.len() > 0 {
            lemma_stream_bytes_front(b);
        }
        assert(a =~= b);
    } else {
        lemma_stream_bytes_front(a);
        lemma_stream_bytes_front(b);
        assert(a[0].wf() && b[0].wf());
        lemma_decoding_is_unique(input, a[0], b[0]);
        let n = segment_bytes(a[0]).len() as int;
        assert(stream_bytes(a.skip(1)) =~= input.subrange(n, input.len() as int));
        assert(stream_bytes(b.skip(1)) =~= input.subrange(n, input.len() as int));
        assert forall|k: int| 0 <= k < a.skip(1).len() implies (#[trigger] a.skip(1)[k]).wf() by {
            assert(a[k + 1].wf());
        }
        assert forall|k: int| 0 <= k < b.skip(1).len() implies (#[trigger] b.skip(1)[k]).wf() by {
            assert(b[k + 1].wf());
        }
        lemma_stream_decoding_is_unique(a.skip(1), b.skip(1));
        assert forall|k: int| 0 <= k < a.len() implies a[k] == b[k] by {
            if k > 0 {
                assert(a[k] == a.skip(1)[k - 1]);
                assert(b[k] == b.skip(1)[k - 1]);
            }
        }
        assert(a.len() == b.len());
        assert(a =~= b);
    }
}

/// The composition object whose bytes begin at `pos`.
spec fn object_at(body: Seq<u8>, pos: int) -> CompositionObject {
    CompositionObject {
        object_id: u16_of(body[pos], body[pos + 1]),
        window_id: body[pos + 2],
        flags: body[pos + 3],
        x: u16_of(body[pos + 4], body[pos + 5]),
        y: u16_of(body[pos + 6], body[pos + 7]),
        crop: if body[pos + 3] >= CROPPED_FLAG {
            Some(
                CropRect {
                    x: u16_of(body[pos + 8], body[pos + 9]),
                    y: u16_of(body[pos + 10], body[pos + 11]),
                    width: u16_of(body[pos + 12], body[pos + 13]),
                    height: u16_of(body[pos + 14], body[pos + 15]),
                },
            )
        } else {
            None
        },
    }
}

/// The window whose bytes begin at `pos`.
spec fn window_at(body: Seq<u8>, pos: int) -> WindowDef {
    WindowDef {
        id: body[pos],
        x: u16_of(body[pos + 1], body[pos + 2]),
        y: u16_of(body[pos + 3], body[pos + 4]),
        width: u16_of(body[pos + 5], body[pos + 6]),
        height: u16_of(body[pos + 7], body[pos + 8]),
    }
}

/// A record that `body` holds to its end is the bytes of a well-formed
/// object.
proof fn lemma_object_at(body: Seq<u8>, pos: int)
    requires
        0 <= pos,
        pos + OBJECT_RECORD_LEN <= body.len(),
        pos + record_len(body[pos + 3]) <= body.len(),
    ensures
        object_at(body, pos).wf(),
        object_bytes(object_at(body, pos)) == body.subrange(
            pos,
            pos + record_len(body[pos + 3]),
        ),
{
    lemma_u16_of(body[pos], body[pos + 1]);
    lemma_u16_of(body[pos + 4], body[pos + 5]);
    lemma_u16_of(body[pos + 6], body[pos + 7]);
    if body[pos + 3] >= CROPPED_FLAG {
        lemma_u16_of(body[pos + 8], body[pos + 9]);
        lemma_u16_of(body[pos + 10], body[pos + 11]);
        lemma_u16_of(body[pos + 12], body[pos + 13]);
        lemma_u16_of(body[pos + 14], body[pos + 15]);
    }
    assert(object_bytes(object_at(body, pos)) =~= body.subrange(
        pos,
        pos + record_len(body[pos + 3]),
    ));
}

/// Records that are counted off to an end are the bytes of well-formed
/// objects.
proof fn lemma_counted_objects_are_written(body: Seq<u8>, pos: int, count: nat) -> (objects: Seq<
    CompositionObject,
>)
    requires
        0 <= pos <= body.len(),
        objects_end(body, pos, count) is Some,
    ensures
        objects.len() == count,
        forall|k: int| 0 <= k < objects.len() ==> (#[trigger] objects[k]).wf(),
        pos <= objects_end(body, pos, count)->0 <= body.len(),
        objects_bytes(objects) == body.subrange(pos, objects_end(body, pos, count)->0),
    decreases count,
{
    if count == 0 {
        assert(body.subrange(pos, pos) =~= Seq::<u8>::empty());
        Seq::empty()
    } else {
        let n = record_len(body[pos + 3]);
        let end = objects_end(body, pos, count)->0;
        let first = object_at(body, pos);
        lemma_object_at(body, pos);
        let rest = lemma_counted_objects_are_written(body, pos + n, (count - 1) as nat);
        let objects = seq![first] + rest;
        assert(objects[0] == first);
        assert(objects.skip(1) =~= rest);
        lemma_objects_bytes_front(objects);
        assert(body.subrange(pos, end) =~= body.subrange(pos, pos + n) + body.subrange(
            pos + n,
            end,
        ));
        assert forall|k: int| 0 <= k < objects.len() implies (#[trigger] objects[k]).wf() by {
            if k > 0 {
                assert(objects[k] == rest[k - 1]);
            }
        }
        objects
    }
}

/// Nine bytes for each of `count` windows are the bytes of windows.
proof fn lemma_counted_windows_are_written(body: Seq<u8>, count: nat) -> (windows: Seq<WindowDef>)
    requires
        body.len() >= 1 + WINDOW_RECORD_LEN * count,
    ensures
        windows.len() == count,
        windows_bytes(windows) == body.subrange(1, 1 + WINDOW_RECORD_LEN * count),
    decreases count,
{
    if count == 0 {
        assert(body.subrange(1, 1) =~= Seq::<u8>::empty());
        Seq::empty()
    } else {
        let at = 1 + WINDOW_RECORD_LEN * (count - 1);
        let init = lemma_counted_windows_are_written(body, (count - 1) as nat);
        let w = window_at(body, at);
        lemma_u16_of(body[at + 1], body[at + 2]);
        lemma_u16_of(body[at + 3], body[at + 4]);
        lemma_u16_of(body[at + 5], body[at + 6]);
        lemma_u16_of(body[at + 7], body[at + 8]);
        assert(window_bytes(w) =~= body.subrange(at, at + WINDOW_RECORD_LEN));
        lemma_windows_bytes_push(init, w);
        assert(body.subrange(1, at + WINDOW_RECORD_LEN) =~= body.subrange(1, at) + body.subrange(
            at,
            at + WINDOW_RECORD_LEN,
        ));
        init.push(w)
    }
}

/// Bytes that are a body of the kind that `code` announces are the bytes of
/// a well-formed body of that kind.
proof fn lemma_fitting_body_is_written(code: u8, body: Seq<u8>) -> (written: SegmentBodyView)
    requires
        body_fits(code, body),
        body.len() <= MAX_BODY_LEN,
    ensures
        written.wf(),
        type_code(written) == code,
        body_bytes(written) == body,
{
    if code == TYPE_COMPOSITION {
        let objects = lemma_counted_objects_are_written(
            body,
            COMPOSITION_HEADER_LEN as int,
            body[10] as nat,
        );
        let pc = PresentationCompositionView {
            width: u16_of(body[0], body[1]),
            height: u16_of(body[2], body[3]),
            frame_rate: body[4],
            composition_id: u16_of(body[5], body[6]),
            state: body[7],
            palette_update: body[8],
            palette_id: body[9],
            objects,
        };
        lemma_u16_of(body[0], body[1]);
        lemma_u16_of(body[2], body[3]);
        lemma_u16_of(body[5], body[6]);
        assert(composition_bytes(pc) =~= body);
        SegmentBodyView::PresentationComposition(pc)
    } else if code == TYPE_WINDOWS {
        let windows = lemma_counted_windows_are_written(body, body[0] as nat);
        assert(seq![windows.len() as u8] + windows_bytes(windows) =~= body);
        SegmentBodyView::WindowDefinition(windows)
    } else if code == TYPE_OBJECT {
        let od = ObjectDefinitionView {
            id: u16_of(body[0], body[1]),
            version: body[2],
            sequence: body[3],
            data_length: u32_of(0, body[4], body[5], body[6]),
            width: u16_of(body[7], body[8]),
            height: u16_of(body[9], body[10]),
            data: body.subrange(OBJECT_HEADER_LEN as int, body.len() as int),
        };
        lemma_u16_of(body[0], body[1]);
        lemma_u16_of(body[7], body[8]);
        lemma_u16_of(body[9], body[10]);
        lemma_u32_of(0, body[4], body[5], body[6]);
        assert(object_definition_bytes(od) =~= body);
        SegmentBodyView::ObjectDefinition(od)
    } else if code == TYPE_PALETTE {
        SegmentBodyView::PaletteDefinition(body)
    } else {
        assert(body =~= Seq::<u8>::empty());
        SegmentBodyView::EndOfDisplaySet
    }
}

/// What is read was written: bytes in which `decode_error` finds nothing
/// wrong begin with the bytes of a well-formed segment, which end where the
/// header announces.
proof fn lemma_decodable_segment_is_written(input: Seq<u8>) -> (segment: SegmentView)
    requires
        decode_error(input) is None,
    ensures
        segment.wf(),
        segment_bytes(segment).len() == announced_len(input),
        segment_bytes(segment).is_prefix_of(input),
{
    let end = announced_len(input);
    let body = lemma_fitting_body_is_written(input[10], input.subrange(HEADER_LEN as int, end));
    let segment = SegmentView {
        pts: u32_of(input[2], input[3], input[4], input[5]),
        dts: u32_of(input[6], input[7], input[8], input[9]),
        body,
    };
    lemma_u32_of(input[2], input[3], input[4], input[5]);
    lemma_u32_of(input[6], input[7], input[8], input[9]);
    lemma_u16_of(input[11], input[12]);
    assert(segment_bytes(segment) =~= input.subrange(0, end));
    segment
}

/// What is read was written: bytes in which `stream_error` finds nothing
/// wrong are the bytes of well-formed segments.
proof fn lemma_decodable_stream_is_written(input: Seq<u8>) -> (segments: Seq<SegmentView>)
    requires
        stream_error(input) is None,
    ensures
        all_wf(segments),
        stream_bytes(segments) == input,
    decreases input.len(),
{
    if input.len() == 0 {
        assert(stream_bytes(Seq::<SegmentView>::empty()) =~= input);
        Seq::empty()
    } else {
        let first = lemma_decodable_segment_is_written(input);
        let rest = lemma_decodable_stream_is_written(input.skip(announced_len(input)));
        let segments = seq![first] + rest;
        assert(segments[0] == first);
        assert(segments.skip(1) =~= rest);
        lemma_stream_bytes_front(segments);
        assert(stream_bytes(segments) =~= input);
        assert forall|k: int| 0 <= k < segments.len() implies (#[trigger] segments[k]).wf() by {
            if k > 0 {
                assert(segments[k] == rest[k - 1]);
            }
        }
        segments
    }
}

/// `decode_error` finds nothing wrong with exactly the inputs that begin with
/// the bytes of a well-formed segment.
pub proof fn lemma_decodable_segments(input: Seq<u8>)
    ensures
        decode_error(input) is None <==> exists|segment: SegmentView|
            segment.wf() && #[trigger] segment_bytes(segment).is_prefix_of(input),
{
    if decode_error(input) is None {
        let segment = lemma_decodable_segment_is_written(input);
        assert(segment.wf() && segment_bytes(segment).is_prefix_of(input));
    }
    if exists|segment: SegmentView|
        segment.wf() && #[trigger] segment_bytes(segment).is_prefix_of(input) {
        let segment = choose|segment: SegmentView|
            segment.wf() && #[trigger] segment_bytes(segment).is_prefix_of(input);
        let written = segment_bytes(segment);
        lemma_written_segment_decodes(segment, input.skip(written.len() as int));
        assert(written + input.skip(written.len() as int) =~= input);
    }
}

/// `stream_error` finds nothing wrong with exactly the inputs that are the
/// bytes of well-formed segments.
pub proof fn lemma_decodable_streams(input: Seq<u8>)
    ensures
        stream_error(input) is None <==> exists|segments: Seq<SegmentView>|
            all_wf(segments) && #[trigger] stream_bytes(segments) == input,
{
    if stream_error(input) is None {
        let segments = lemma_decodable_stream_is_written(input);
        assert(all_wf(segments) && stream_bytes(segments) == input);
    }
    if exists|segments: Seq<SegmentView>|
        all_wf(segments) && #[trigger] stream_bytes(segments) == input {
        let segments = choose|segments: Seq<SegmentView>|
            all_wf(segments) && #[trigger] stream_bytes(segments) == input;
        lemma_written_stream_decodes(segments);
    }
}

/// Reading and then writing gives the bytes back: the segment read from the
/// front of an input is written as the bytes it was read from.
pub proof fn lemma_segment_read_then_written(input: Seq<u8>)
    requires
        decode_error(input) is None,
    ensures
        decoded_segment(input).wf(),
        segment_bytes(decoded_segment(input)) == input.subrange(0, announced_len(input)),
{
    let segment = lemma_decodable_segment_is_written(input);
    lemma_decoding_is_unique(input, segment, decoded_segment(input));
}

/// Writing and then reading gives the segment back, whatever follows its
/// bytes.
pub proof fn lemma_segment_written_then_read(segment: SegmentView, rest: Seq<u8>)
    requires
        segment.wf(),
    ensures
        decode_error(segment_bytes(segment) + rest) is None,
        decoded_segment(segment_bytes(segment) + rest) == segment,
        announced_len(segment_bytes(segment) + rest) == segment_bytes(segment).len(),
{
    let input = segment_bytes(segment) + rest;
    lemma_written_segment_decodes(segment, rest);
    assert(segment_bytes(segment).is_prefix_of(input));
    lemma_decoding_is_unique(input, segment, decoded_segment(input));
}

/// Reading and then writing gives the bytes back: the segments read from a
/// whole stream are written as the stream.
pub proof fn lemma_stream_read_then_written(input: Seq<u8>)
    requires
        stream_error(input) is None,
    ensures
        all_wf(decoded_stream(input)),
        stream_bytes(decoded_stream(input)) == input,
{
    let segments = lemma_decodable_stream_is_written(input);
}

/// Writing and then reading gives the segments back.
pub proof fn lemma_stream_written_then_read(segments: Seq<SegmentView>)
    requires
        all_wf(segments),
    ensures
        stream_error(stream_bytes(segments)) is None,
        decoded_stream(stream_bytes(segments)) == segments,
{
    lemma_written_stream_decodes(segments);
    lemma_stream_decoding_is_unique(segments, decoded_stream(stream_bytes(segments)));
}

} // verus!
