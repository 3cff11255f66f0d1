//! The sample arithmetic that the image passes are written over.
use vstd::prelude::*;

verus! {

/// Arithmetic on image samples.
///
/// The passes of this crate decide which samples are combined, in which order
/// and where the result goes; the sample type and the formulas come from an
/// implementation of this trait, such as `Formulas` over a scalar arithmetic.
/// The passes assume nothing about an implementation: not even that two calls
/// on the same arguments agree. Their contracts speak of "a value that the
/// method returned on these arguments".
pub trait Numerics: Sync + Sized {
    /// One sample of an image or of a motion field.
    type T: Copy + Send + Sync;

    /// The empty sum.
    fn zero(&self) -> Self::T;

    /// `a + b`.
    fn plus(&self, a: Self::T, b: Self::T) -> Self::T;

    /// `a - b`.
    fn minus(&self, a: Self::T, b: Self::T) -> Self::T;

    /// `a * b`.
    fn times(&self, a: Self::T, b: Self::T) -> Self::T;

    /// `-a`.
    fn negated(&self, a: Self::T) -> Self::T;

    /// `2 * a`.
    fn doubled(&self, a: Self::T) -> Self::T;

    /// Brightness of an RGB pixel.
    fn luma(&self, r: u8, g: u8, b: u8) -> Self::T;

    /// Gaussian-weighted sum of five neighbouring samples, in grid order.
    fn gauss5(&self, a: Self::T, b: Self::T, c: Self::T, d: Self::T, e: Self::T) -> Self::T;

    /// Half the rise from `behind` to `ahead`.
    fn slope(&self, ahead: Self::T, behind: Self::T) -> Self::T;

    /// The coordinate `i + d`.
    fn shifted(&self, i: usize, d: Self::T) -> Self::T;

    /// The coordinate `2 * i`.
    fn twice(&self, i: usize) -> Self::T;

    /// The coordinate `i / 2`.
    fn half(&self, i: usize) -> Self::T;

    /// Clamps a coordinate between the first and the last of `n`
    /// positions, and splits it into a position and the fraction beyond it.
    fn cell(&self, p: Self::T, n: usize) -> (usize, Self::T);

    /// Keeps a coordinate below the last of `n` positions, and splits it into
    /// a position and the fraction beyond it.
    fn cell_below(&self, p: Self::T, n: usize) -> (usize, Self::T);

    /// Bilinear mix of four neighbouring samples (first index: column).
    fn bilinear(
        &self,
        s00: Self::T,
        s10: Self::T,
        s01: Self::T,
        s11: Self::T,
        fx: Self::T,
        fy: Self::T,
    ) -> Self::T;

    /// The bounded motion update that solves the 2x2 system with matrix
    /// `(xx, xy; xy, yy)` and right-hand side `-(xt, yt)`, or nothing where
    /// the system is singular.
    fn solve(
        &self,
        xx: Self::T,
        yy: Self::T,
        xy: Self::T,
        xt: Self::T,
        yt: Self::T,
    ) -> Option<(Self::T, Self::T)>;

    /// Whether a sample has a place in the order of values.
    fn is_ordered(&self, a: Self::T) -> bool;

    /// An integer that orders samples as their values are ordered.
    fn rank(&self, a: Self::T) -> i64
        requires
            call_ensures(Self::is_ordered, (self, a), true),
    ;

    /// Whether a shutter angle leaves no exposure at all.
    fn shutter_closed(&self, shutter: Self::T) -> bool;

    /// The part of a frame interval that a shutter angle exposes on either
    /// side of the current frame.
    fn span(&self, shutter: Self::T) -> Self::T;

    /// Whether a pixel with these forward and backward motions stays put.
    fn is_still(&self, fu: Self::T, fv: Self::T, bu: Self::T, bv: Self::T) -> bool;

    /// How far tap `s` of `n` lies along motion component `d`: the share of
    /// `d` that matches the distance of the tap from the middle of the row.
    fn tap_offset(&self, s: usize, n: usize, d: Self::T) -> Self::T;

    /// Bilinear mix of four neighbouring colour bytes (first index: column).
    fn blend_bytes(
        &self,
        b00: u8,
        b10: u8,
        b01: u8,
        b11: u8,
        fx: Self::T,
        fy: Self::T,
    ) -> Self::T;

    /// The colour byte nearest to the mean of `n` taps that sum to `sum`.
    fn mean_byte(&self, sum: Self::T, n: usize) -> u8;
}

} // verus!
