//! From the bytes of a stream to the bytes of the repositioned stream.
//!
//! The whole input is read before anything is written: an input that is
//! refused gives no output at all.

use crate::decode::{decode_stream, decoded_stream, stream_error, DecodeError};
use crate::encode::encode_stream;
use crate::geometry::Diagnostic;
use crate::inventory::{
    build_inventory, has_duplicate, inventory_of, names_first_duplicate, FormatViolation,
};
use crate::model::all_wf;
use crate::transform::{
    apply, cropped_stream, lemma_cropped_stream_wf, resolves, stops_at, stream_diagnostics,
    CropSettings,
};
use crate::wire::stream_bytes;
use vstd::pervasive::unreached;
use vstd::prelude::*;

verus! {

/// Why a stream was not repositioned.
#[derive(Clone, Copy, Debug, PartialEq, Eq)]
pub enum CropError {
    /// The input is not a stream of segments.
    Bitstream(DecodeError),
    /// The stream breaks a rule on which the repositioning rests.
    Format(FormatViolation),
}

/// Reads a stream, repositions its overlays for a frame cropped to
/// `settings`, and writes it again.
///
/// The output is the input's segments, repositioned under the inventory of
/// their own object definitions. The input is refused where it is not a whole
/// stream, where a display set defines an object twice, and where a
/// composition shows an object that its display set does not define, in this
/// order. Diagnostics are reported for the segments that were repositioned.
pub fn crop_stream(input: &[u8], settings: &CropSettings, diagnostics: &mut Vec<Diagnostic>) -> (r:
    Result<Vec<u8>, CropError>)
    ensures
        match r {
            Ok(output) => {
                let segments = decoded_stream(input@);
                let inventory = inventory_of(segments);
                &&& stream_error(input@) is None
                &&& all_wf(segments)
                &&& stream_bytes(segments) == input@
                &&& !has_duplicate(segments)
                &&& forall|i: int|
                    0 <= i < segments.len() ==> resolves(#[trigger] segments[i], inventory)
                &&& output@ == stream_bytes(
                    cropped_stream(segments, inventory, *settings, segments.len() as int),
                )
                &&& final(diagnostics)@ == old(diagnostics)@ + stream_diagnostics(
                    segments,
                    inventory,
                    *settings,
                    segments.len() as int,
                )
            },
            Err(CropError::Bitstream(e)) => {
                &&& stream_error(input@) == Some(e)
                &&& final(diagnostics)@ == old(diagnostics)@
            },
            Err(CropError::Format(violation)) => {
                let segments = decoded_stream(input@);
                let inventory = inventory_of(segments);
                &&& stream_error(input@) is None
                &&& all_wf(segments)
                &&& stream_bytes(segments) == input@
                &&& if has_duplicate(segments) {
                    &&& names_first_duplicate(segments, violation)
                    &&& final(diagnostics)@ == old(diagnostics)@
                } else {
                    exists|n: int|
                        {
                            &&& #[trigger] stops_at(segments, inventory, n, violation)
                            &&& final(diagnostics)@ == old(diagnostics)@ + stream_diagnostics(
                                segments,
                                inventory,
                                *settings,
                                n,
                            )
                        }
                }
            },
        },
{
    let mut segments = match decode_stream(input) {
        Ok(segments) => segments,
        Err(e) => {
            return Err(CropError::Bitstream(e));
        },
    };
    let ghost read = segments.deep_view();
    let inventory = match build_inventory(&segments) {
        Ok(inventory) => inventory,
        Err(violation) => {
            return Err(CropError::Format(violation));
        },
    };
    match apply(&mut segments, &inventory, settings, diagnostics) {
        Ok(()) => {},
        Err(violation) => {
            return Err(CropError::Format(violation));
        },
    }
    proof {
        lemma_cropped_stream_wf(read, inventory@, *settings, read.len() as int);
    }
    match encode_stream(&segments) {
        Ok(output) => Ok(output),
        Err(_) => unreached(),
    }
}

} // verus!
