//! Repositions the overlays of a segmented subtitle stream after the video
//! frame underneath them has been cropped around its centre.
//!
//! A stream is a sequence of timestamped segments. Compositions place
//! objects on the screen, window definitions place windows, and object
//! definitions carry the objects' sizes and pixels. When the frame shrinks,
//! every position moves with the crop and is then held inside the new frame,
//! a margin away from its edges.
//!
//! - [`model`]: the segments and their mathematical views.
//! - [`wire`]: the byte layout of a segment.
//! - [`decode`], [`encode`]: reading segments from bytes and writing them.
//! - [`roundtrip`]: reading and writing undo each other.
//! - [`inventory`]: the sizes of the objects of a stream.
//! - [`geometry`]: where one coordinate lands after the crop.
//! - [`transform`]: repositioning every overlay of a stream.
//! - [`pipeline`]: from the bytes of a stream to the bytes of the
//!   repositioned stream.

pub mod decode;
pub mod encode;
pub mod geometry;
pub mod inventory;
pub mod model;
pub mod pipeline;
pub mod roundtrip;
pub mod transform;
pub mod wire;
