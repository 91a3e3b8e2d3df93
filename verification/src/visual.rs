//! The render collaborator's interface.
//!
//! The library computes per-band records; drawing them is the render
//! side's business.  This module fixes the vocabulary the two sides
//! share: the drawing surface a renderer must offer, and marker types
//! naming the visual styles a renderer may implement over the band
//! output.

use vstd::prelude::*;

verus! {

/// One colour, as red, green, blue and alpha bytes.
#[derive(Clone, Copy, Debug, PartialEq, Eq, Structural)]
pub struct Rgba(pub u8, pub u8, pub u8, pub u8);

/// A drawing surface: what the library's callers must offer so a
/// visual style can place colours.
pub trait Canvas {
    /// Places a colour at `x`, `y`, relative to the surface's origin.
    fn put(&mut self, x: i32, y: i32, color: Rgba);

    /// Width available to draw into.
    fn width(&self) -> u32;

    /// Height available to draw into.
    fn height(&self) -> u32;
}

/// Stacked per-channel bars, left above right.
pub struct StackedFreqs;

/// A single horizontal strip coloured by band energy.
pub struct SpecSlice;

/// Rays from the centre, one per band.
pub struct RadialBloom;

/// Bands around a circle.
pub struct SpecCircular;

/// A ribbon of recent band values.
pub struct SpecRibbon;

} // verus!
