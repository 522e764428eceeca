//! Reading segments from bytes.
//!
//! A segment is read from the front of the input. What can go wrong is named
//! by `decode_error`, in the order in which a reader that goes through the
//! bytes once would meet it.

use crate::model::{
    all_wf, CompositionObject, CropRect, ObjectDefinition, PresentationComposition, Segment,
    SegmentBody, SegmentView, WindowDef, CROPPED_FLAG, DATA_LENGTH_LIMIT, MAX_BODY_LEN,
    OBJECT_HEADER_LEN,
};
use crate::roundtrip::{lemma_decoding_is_unique, lemma_stream_decoding_is_unique};
use crate::wire::{
    body_bytes, header_bytes, known_type, lemma_objects_bytes_push, lemma_stream_bytes_push,
    lemma_u32_of, lemma_windows_bytes_push, object_bytes, objects_bytes, segment_bytes,
    stream_bytes, type_code, u16_of, u32_of, window_bytes, windows_bytes,
    COMPOSITION_HEADER_LEN, CROPPED_RECORD_LEN, HEADER_LEN, MAGIC_0, MAGIC_1, OBJECT_RECORD_LEN,
    TYPE_COMPOSITION, TYPE_END, TYPE_OBJECT, TYPE_PALETTE, TYPE_WINDOWS, WINDOW_RECORD_LEN,
};
use vstd::prelude::*;
use vstd::slice::{slice_subrange, slice_to_vec};

verus! {

/// Why bytes are not a segment.
#[derive(Clone, Copy, Debug, PartialEq, Eq, Structural)]
pub enum DecodeError {
    /// The input ends inside a segment.
    Truncated,
    /// The segment does not begin with the magic marker.
    BadMagic,
    /// The type code announces none of the five kinds of body.
    UnknownType,
    /// The announced body length is not the length of a body of the
    /// announced kind.
    LengthMismatch,
}

/// The bytes of a composition object whose flag byte is `flags`.
pub open spec fn record_len(flags: u8) -> int {
    if flags >= CROPPED_FLAG {
        CROPPED_RECORD_LEN as int
    } else {
        OBJECT_RECORD_LEN as int
    }
}

/// Where `count` composition objects that begin at `pos` end, or `None` where
/// `body` ends before the last of them does.
pub open spec fn objects_end(body: Seq<u8>, pos: int, count: nat) -> Option<int>
    decreases count,
{
    if count == 0 {
        Some(pos)
    } else if pos + OBJECT_RECORD_LEN > body.len() || pos + record_len(body[pos + 3]) > body.len() {
        None
    } else {
        objects_end(body, pos + record_len(body[pos + 3]), (count - 1) as nat)
    }
}

/// Whether `body` is, to its last byte, a body of the kind that `code`
/// announces.
///
/// A composition holds as many objects as its count byte says, each with a
/// crop rectangle where its flag byte says so; a window definition holds as
/// many windows as its count byte says; an object definition holds at least
/// its fixed fields; a palette definition is any bytes; the end of a display
/// set is empty.
pub open spec fn body_fits(code: u8, body: Seq<u8>) -> bool {
    if code == TYPE_COMPOSITION {
        &&& body.len() >= COMPOSITION_HEADER_LEN
        &&& objects_end(body, COMPOSITION_HEADER_LEN as int, body[10] as nat) == Some(
            body.len() as int,
        )
    } else if code == TYPE_WINDOWS {
        &&& body.len() >= 1
        &&& body.len() == 1 + WINDOW_RECORD_LEN * body[0]
    } else if code == TYPE_OBJECT {
        body.len() >= OBJECT_HEADER_LEN
    } else if code == TYPE_PALETTE {
        true
    } else if code == TYPE_END {
        body.len() == 0
    } else {
        false
    }
}

/// The length of the segment at the front of `input` as its header announces
/// it, header included.
pub open spec fn announced_len(input: Seq<u8>) -> int {
    HEADER_LEN + u16_of(input[11], input[12])
}

/// What is wrong with the segment at the front of `input`, or `None` where
/// the input begins with a segment.
pub open spec fn decode_error(input: Seq<u8>) -> Option<DecodeError> {
    if input.len() < 2 {
        Some(DecodeError::Truncated)
    } else if input[0] != MAGIC_0 || input[1] != MAGIC_1 {
        Some(DecodeError::BadMagic)
    } else if input.len() < HEADER_LEN {
        Some(DecodeError::Truncated)
    } else if !known_type(input[10]) {
        Some(DecodeError::UnknownType)
    } else if input.len() < announced_len(input) {
        Some(DecodeError::Truncated)
    } else if !body_fits(input[10], input.subrange(HEADER_LEN as int, announced_len(input))) {
        Some(DecodeError::LengthMismatch)
    } else {
        None
    }
}

/// What is wrong with the first segment of `input` that is not one, or `None`
/// where the input is segments from its first byte to its last. The empty
/// input is no segments, and nothing is wrong with it.
pub open spec fn stream_error(input: Seq<u8>) -> Option<DecodeError>
    decreases input.len(),
{
    if input.len() == 0 {
        None
    } else {
        match decode_error(input) {
            Some(e) => Some(e),
            None => stream_error(input.skip(announced_len(input))),
        }
    }
}

/// The segment that is written as the bytes at the front of `input`.
pub open spec fn decoded_segment(input: Seq<u8>) -> SegmentView {
    choose|segment: SegmentView| segment.wf() && segment_bytes(segment).is_prefix_of(input)
}

/// The segments that are written as `input`.
pub open spec fn decoded_stream(input: Seq<u8>) -> Seq<SegmentView> {
    choose|segments: Seq<SegmentView>| all_wf(segments) && stream_bytes(segments) == input
}

fn read_u16(bytes: &[u8], at: usize) -> (v: u16)
    requires
        at + 2 <= bytes.len(),
    ensures
        v == u16_of(bytes@[at as int], bytes@[at + 1]),
{
    (bytes[at] as u16) * 256 + (bytes[at + 1] as u16)
}

fn read_u32(bytes: &[u8], at: usize) -> (v: u32)
    requires
        at + 4 <= bytes.len(),
    ensures
        v == u32_of(bytes@[at as int], bytes@[at + 1], bytes@[at + 2], bytes@[at + 3]),
{
    proof {
        reveal(u32_of);
    }
    (bytes[at] as u32) * 0x100_0000 + (bytes[at + 1] as u32) * 0x1_0000 + (bytes[at + 2] as u32)
        * 0x100 + (bytes[at + 3] as u32)
}

fn read_u24(bytes: &[u8], at: usize) -> (v: u32)
    requires
        at + 3 <= bytes.len(),
    ensures
        v == u32_of(0, bytes@[at as int], bytes@[at + 1], bytes@[at + 2]),
{
    proof {
        reveal(u32_of);
    }
    (bytes[at] as u32) * 0x1_0000 + (bytes[at + 1] as u32) * 0x100 + (bytes[at + 2] as u32)
}

/// Reads the composition object that begins at `at`, and says how many bytes
/// it takes; `None` where `body` ends before the object does.
fn decode_object(body: &[u8], at: usize) -> (r: Option<(CompositionObject, usize)>)
    requires
        at <= body.len(),
    ensures
        match r {
            Some((o, n)) => {
                &&& o.wf()
                &&& at + OBJECT_RECORD_LEN <= body.len()
                &&& n == record_len(body@[at + 3])
                &&& at + n <= body.len()
                &&& body@.subrange(at as int, at + n) == object_bytes(o)
            },
            None => at + OBJECT_RECORD_LEN > body.len() || at + record_len(body@[at + 3])
                > body.len(),
        },
{
    if body.len() - at < OBJECT_RECORD_LEN {
        return None;
    }
    let flags = body[at + 3];
    let crop = if flags >= CROPPED_FLAG {
        if body.len() - at < CROPPED_RECORD_LEN {
            return None;
        }
        Some(
            CropRect {
                x: read_u16(body, at + 8),
                y: read_u16(body, at + 10),
                width: read_u16(body, at + 12),
                height: read_u16(body, at + 14),
            },
        )
    } else {
        None
    };
    let o = CompositionObject {
        object_id: read_u16(body, at),
        window_id: body[at + 2],
        flags,
        x: read_u16(body, at + 4),
        y: read_u16(body, at + 6),
        crop,
    };
    let n = if flags >= CROPPED_FLAG {
        CROPPED_RECORD_LEN
    } else {
        OBJECT_RECORD_LEN
    };
    assert(body@.subrange(at as int, at + n) =~= object_bytes(o));
    Some((o, n))
}

/// Reads the body of a composition.
fn decode_composition(body: &[u8]) -> (r: Result<PresentationComposition, DecodeError>)
    ensures
        match r {
            Ok(pc) => {
                &&& body_fits(TYPE_COMPOSITION, body@)
                &&& pc@.wf()
                &&& body_bytes(SegmentBody::PresentationComposition(pc)@) == body@
            },
            Err(e) => e == DecodeError::LengthMismatch && !body_fits(TYPE_COMPOSITION, body@),
        },
{
    if body.len() < COMPOSITION_HEADER_LEN {
        return Err(DecodeError::LengthMismatch);
    }
    let count = body[10];
    let mut objects: Vec<CompositionObject> = Vec::new();
    let mut pos: usize = COMPOSITION_HEADER_LEN;
    let mut i: u8 = 0;
    while i < count
        invariant
            i <= count,
            count == body@[10],
            COMPOSITION_HEADER_LEN <= pos <= body.len(),
            objects@.len() == i,
            forall|k: int| 0 <= k < objects@.len() ==> (#[trigger] objects@[k]).wf(),
            body@.subrange(COMPOSITION_HEADER_LEN as int, pos as int) == objects_bytes(objects@),
            objects_end(body@, COMPOSITION_HEADER_LEN as int, count as nat) == objects_end(
                body@,
                pos as int,
                (count - i) as nat,
            ),
        decreases count - i,
    {
        match decode_object(body, pos) {
            None => {
                assert(objects_end(body@, pos as int, (count - i) as nat) is None);
                return Err(DecodeError::LengthMismatch);
            },
            Some((o, n)) => {
                proof {
                    lemma_objects_bytes_push(objects@, o);
                    assert(body@.subrange(COMPOSITION_HEADER_LEN as int, pos + n)
                        =~= body@.subrange(COMPOSITION_HEADER_LEN as int, pos as int)
                        + body@.subrange(pos as int, pos + n));
                }
                objects.push(o);
                pos = pos + n;
                i = i + 1;
            },
        }
    }
    assert(objects_end(body@, pos as int, 0) == Some(pos as int));
    if pos != body.len() {
        return Err(DecodeError::LengthMismatch);
    }
    let pc = PresentationComposition {
        width: read_u16(body, 0),
        height: read_u16(body, 2),
        frame_rate: body[4],
        composition_id: read_u16(body, 5),
        state: body[7],
        palette_update: body[8],
        palette_id: body[9],
        objects,
    };
    assert(body_bytes(SegmentBody::PresentationComposition(pc)@) =~= body@);
    Ok(pc)
}

/// Reads the body of a window definition.
fn decode_windows(body: &[u8]) -> (r: Result<Vec<WindowDef>, DecodeError>)
    ensures
        match r {
            Ok(windows) => {
                &&& body_fits(TYPE_WINDOWS, body@)
                &&& windows@.len() <= 255
                &&& body_bytes(SegmentBody::WindowDefinition(windows)@) == body@
            },
            Err(e) => e == DecodeError::LengthMismatch && !body_fits(TYPE_WINDOWS, body@),
        },
{
    if body.len() < 1 {
        return Err(DecodeError::LengthMismatch);
    }
    let count = body[0];
    if body.len() != 1 + WINDOW_RECORD_LEN * (count as usize) {
        return Err(DecodeError::LengthMismatch);
    }
    let mut windows: Vec<WindowDef> = Vec::new();
    let mut i: u8 = 0;
    while i < count
        invariant
            i <= count,
            body.len() == 1 + WINDOW_RECORD_LEN * count,
            windows@.len() == i,
            body@.subrange(1, 1 + WINDOW_RECORD_LEN * i) == windows_bytes(windows@),
        decreases count - i,
    {
        let at: usize = 1 + WINDOW_RECORD_LEN * (i as usize);
        let w = WindowDef {
            id: body[at],
            x: read_u16(body, at + 1),
            y: read_u16(body, at + 3),
            width: read_u16(body, at + 5),
            height: read_u16(body, at + 7),
        };
        proof {
            lemma_windows_bytes_push(windows@, w);
            assert(body@.subrange(1, at + WINDOW_RECORD_LEN) =~= body@.subrange(1, at as int)
                + window_bytes(w));
        }
        windows.push(w);
        i = i + 1;
    }
    assert(body_bytes(SegmentBody::WindowDefinition(windows)@) =~= body@);
    Ok(windows)
}

/// Reads the body of an object definition.
fn decode_object_definition(body: &[u8]) -> (r: Result<ObjectDefinition, DecodeError>)
    ensures
        match r {
            Ok(od) => {
                &&& body_fits(TYPE_OBJECT, body@)
                &&& OBJECT_HEADER_LEN + od@.data.len() == body@.len()
                &&& od@.data_length < DATA_LENGTH_LIMIT
                &&& body_bytes(SegmentBody::ObjectDefinition(od)@) == body@
            },
            Err(e) => e == DecodeError::LengthMismatch && !body_fits(TYPE_OBJECT, body@),
        },
{
    if body.len() < OBJECT_HEADER_LEN {
        return Err(DecodeError::LengthMismatch);
    }
    proof {
        lemma_u32_of(0, body@[4], body@[5], body@[6]);
    }
    let od = ObjectDefinition {
        id: read_u16(body, 0),
        version: body[2],
        sequence: body[3],
        data_length: read_u24(body, 4),
        width: read_u16(body, 7),
        height: read_u16(body, 9),
        data: slice_to_vec(slice_subrange(body, OBJECT_HEADER_LEN, body.len())),
    };
    assert(body_bytes(SegmentBody::ObjectDefinition(od)@) =~= body@);
    Ok(od)
}

/// Whether a type code announces one of the five kinds of body.
fn is_known_type(code: u8) -> (known: bool)
    ensures
        known == known_type(code),
{
    code == TYPE_PALETTE || code == TYPE_OBJECT || code == TYPE_COMPOSITION || code
        == TYPE_WINDOWS || code == TYPE_END
}

/// Reads a body of the kind that `code` announces from exactly the bytes of
/// `body`.
fn decode_body(code: u8, body: &[u8]) -> (r: Result<SegmentBody, DecodeError>)
    requires
        known_type(code),
        body.len() <= MAX_BODY_LEN,
    ensures
        match r {
            Ok(b) => {
                &&& body_fits(code, body@)
                &&& b@.wf()
                &&& type_code(b@) == code
                &&& body_bytes(b@) == body@
            },
            Err(e) => e == DecodeError::LengthMismatch && !body_fits(code, body@),
        },
{
    if code == TYPE_COMPOSITION {
        match decode_composition(body) {
            Ok(pc) => Ok(SegmentBody::PresentationComposition(pc)),
            Err(e) => Err(e),
        }
    } else if code == TYPE_WINDOWS {
        match decode_windows(body) {
            Ok(windows) => Ok(SegmentBody::WindowDefinition(windows)),
            Err(e) => Err(e),
        }
    } else if code == TYPE_OBJECT {
        match decode_object_definition(body) {
            Ok(od) => Ok(SegmentBody::ObjectDefinition(od)),
            Err(e) => Err(e),
        }
    } else if code == TYPE_PALETTE {
        Ok(SegmentBody::PaletteDefinition(slice_to_vec(body)))
    } else if body.len() == 0 {
        assert(body@ =~= Seq::<u8>::empty());
        Ok(SegmentBody::EndOfDisplaySet)
    } else {
        Err(DecodeError::LengthMismatch)
    }
}

/// Reads the next segment from the front of `input`, and says how many bytes
/// it takes. At the end of the input, where no byte is left, there is no
/// next segment and `None` comes back.
///
/// The segment that comes back is the one well-formed segment that is written
/// as the bytes that were read. Where bytes are left, it comes back unless
/// `decode_error` names what is wrong with them, and then that is the error.
pub fn decode_segment(input: &[u8]) -> (r: Result<Option<(Segment, usize)>, DecodeError>)
    ensures
        match r {
            Ok(None) => input@.len() == 0,
            Ok(Some((segment, used))) => {
                &&& decode_error(input@) is None
                &&& segment@ == decoded_segment(input@)
                &&& segment@.wf()
                &&& used == announced_len(input@)
                &&& used <= input@.len()
                &&& input@.subrange(0, used as int) == segment_bytes(segment@)
            },
            Err(e) => input@.len() > 0 && decode_error(input@) == Some(e),
        },
{
    if input.len() == 0 {
        return Ok(None);
    }
    if input.len() < 2 {
        return Err(DecodeError::Truncated);
    }
    if input[0] != MAGIC_0 || input[1] != MAGIC_1 {
        return Err(DecodeError::BadMagic);
    }
    if input.len() < HEADER_LEN {
        return Err(DecodeError::Truncated);
    }
    let pts = read_u32(input, 2);
    let dts = read_u32(input, 6);
    let code = input[10];
    let body_len = read_u16(input, 11);
    if !is_known_type(code) {
        return Err(DecodeError::UnknownType);
    }
    if input.len() - HEADER_LEN < body_len as usize {
        return Err(DecodeError::Truncated);
    }
    let used: usize = HEADER_LEN + body_len as usize;
    match decode_body(code, slice_subrange(input, HEADER_LEN, used)) {
        Err(e) => Err(e),
        Ok(body) => {
            let segment = Segment { pts, dts, body };
            proof {
                lemma_u32_of(input@[2], input@[3], input@[4], input@[5]);
                lemma_u32_of(input@[6], input@[7], input@[8], input@[9]);
                assert(input@.subrange(0, HEADER_LEN as int) =~= header_bytes(
                    pts,
                    dts,
                    code,
                    body_len,
                ));
                assert(input@.subrange(0, used as int) =~= input@.subrange(0, HEADER_LEN as int)
                    + input@.subrange(HEADER_LEN as int, used as int));
                assert(segment_bytes(segment@).is_prefix_of(input@));
                lemma_decoding_is_unique(input@, segment@, decoded_segment(input@));
            }
            Ok(Some((segment, used)))
        },
    }
}

/// Reads a whole stream: segment after segment, from the first byte of
/// `input` to the last.
///
/// The segments that come back are the one sequence of well-formed segments
/// that is written as the input. They come back unless `stream_error` names
/// what is wrong with the input, and then that is the error. An input that
/// ends between two segments, the empty one too, is a whole stream; one that
/// ends inside a segment is truncated.
pub fn decode_stream(input: &[u8]) -> (r: Result<Vec<Segment>, DecodeError>)
    ensures
        match r {
            Ok(segments) => {
                &&& stream_error(input@) is None
                &&& segments.deep_view() == decoded_stream(input@)
                &&& all_wf(segments.deep_view())
                &&& stream_bytes(segments.deep_view()) == input@
            },
            Err(e) => stream_error(input@) == Some(e),
        },
{
    let mut segments: Vec<Segment> = Vec::new();
    let mut pos: usize = 0;
    assert(input@.skip(0) =~= input@);
    loop
        invariant
            pos <= input.len(),
            all_wf(segments.deep_view()),
            stream_bytes(segments.deep_view()) == input@.subrange(0, pos as int),
            stream_error(input@) == stream_error(input@.skip(pos as int)),
        decreases input.len() - pos,
    {
        let rest = slice_subrange(input, pos, input.len());
        assert(rest@ =~= input@.skip(pos as int));
        match decode_segment(rest) {
            Err(e) => {
                return Err(e);
            },
            Ok(None) => {
                proof {
                    assert(input@.subrange(0, pos as int) =~= input@);
                    lemma_stream_decoding_is_unique(segments.deep_view(), decoded_stream(input@));
                }
                return Ok(segments);
            },
            Ok(Some((segment, used))) => {
                let ghost before = segments.deep_view();
                let ghost added = segment@;
                segments.push(segment);
                proof {
                    lemma_stream_bytes_push(before, added);
                    assert(segments.deep_view() =~= before.push(added));
                    assert(input@.subrange(0, pos + used) =~= input@.subrange(0, pos as int)
                        + rest@.subrange(0, used as int));
                    assert(rest@.skip(used as int) =~= input@.skip(pos + used));
                }
                pos = pos + used;
            },
        }
    }
}

} // verus!
