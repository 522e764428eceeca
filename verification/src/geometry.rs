//! Where one coordinate of an overlay lands once the frame has been cropped.

use vstd::prelude::*;

verus! {

/// A message for the operator that does not stop the run.
#[derive(Clone, Copy, Debug, PartialEq, Eq, Structural)]
pub enum Diagnostic {
    /// A composition declared a frame size that no earlier composition had.
    NewResolution { width: u16, height: u16 },
    /// An extent does not fit between the margins of the cropped frame; its
    /// offset was pinned to the origin.
    CannotFit,
}

/// Whether an extent of `size` pixels fits in a cropped axis of `crop` pixels
/// with `margin` pixels free on both sides.
pub open spec fn fits(crop: u16, size: u16, margin: u16) -> bool {
    size + 2 * margin <= crop
}

/// The pixels that a centred crop removes in front of the kept region. A
/// target that is no smaller than the frame removes nothing.
pub open spec fn crop_shift(full: u16, crop: u16) -> int {
    if full > crop {
        (full - crop) / 2
    } else {
        0
    }
}

/// The offset of an extent along one axis after the crop.
///
/// An extent that cannot fit is pinned to 0. Otherwise the offset moves
/// towards the origin by `crop_shift` and is then held inside
/// `[margin, crop - size - margin]`. The move is computed over the integers:
/// an extent that began inside the removed region ends up at `margin`.
pub open spec fn cropped_object_offset(
    full: u16,
    crop: u16,
    size: u16,
    offset: u16,
    margin: u16,
) -> int {
    if !fits(crop, size, margin) {
        0
    } else {
        let shifted = offset - crop_shift(full, crop);
        if shifted < margin {
            margin as int
        } else if shifted + size + margin > crop {
            crop - size - margin
        } else {
            shifted
        }
    }
}

/// What `remap_offset` reports for one extent: a warning when it cannot fit,
/// nothing otherwise.
pub open spec fn fit_diagnostics(crop: u16, size: u16, margin: u16) -> Seq<Diagnostic> {
    if fits(crop, size, margin) {
        Seq::empty()
    } else {
        seq![Diagnostic::CannotFit]
    }
}

/// A feasible extent lands between the margins, an infeasible one at the
/// origin, and either way the offset is a 16-bit value.
pub proof fn lemma_cropped_object_offset_bounds(
    full: u16,
    crop: u16,
    size: u16,
    offset: u16,
    margin: u16,
)
    ensures
        fits(crop, size, margin) ==> margin <= cropped_object_offset(
            full,
            crop,
            size,
            offset,
            margin,
        ) <= crop - size - margin,
        !fits(crop, size, margin) ==> cropped_object_offset(full, crop, size, offset, margin) == 0,
        0 <= cropped_object_offset(full, crop, size, offset, margin) <= u16::MAX,
{
}

/// Computes the offset of an extent along one axis after a centred crop from
/// `full` to `crop` pixels, and reports to `diagnostics` when the extent
/// cannot fit between the margins.
///
/// The subtraction saturates: an offset inside the removed region counts as
/// the edge of the kept region before it is held between the margins.
pub fn remap_offset(
    full: u16,
    crop: u16,
    size: u16,
    offset: u16,
    margin: u16,
    diagnostics: &mut Vec<Diagnostic>,
) -> (new_offset: u16)
    ensures
        new_offset == cropped_object_offset(full, crop, size, offset, margin),
        final(diagnostics)@ == old(diagnostics)@ + fit_diagnostics(crop, size, margin),
        fits(crop, size, margin) ==> margin <= new_offset <= crop - size - margin,
        fits(crop, size, margin) ==> final(diagnostics)@ == old(diagnostics)@,
        !fits(crop, size, margin) ==> new_offset == 0,
        !fits(crop, size, margin) ==> final(diagnostics)@ == old(diagnostics)@.push(
            Diagnostic::CannotFit,
        ),
{
    let needed: u32 = size as u32 + 2 * (margin as u32);
    if needed > crop as u32 {
        diagnostics.push(Diagnostic::CannotFit);
        return 0;
    }
    let shift: u16 = if full > crop {
        (full - crop) / 2
    } else {
        0
    };
    let shifted: u16 = if offset > shift {
        offset - shift
    } else {
        0
    };
    if shifted < margin {
        margin
    } else if shifted as u32 + size as u32 + margin as u32 > crop as u32 {
        crop - size - margin
    } else {
        shifted
    }
}

} // verus!
