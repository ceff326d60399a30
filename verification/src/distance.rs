//! The perceptual distance oracle: both colors are taken to the CIELAB space
//! and compared with the CIEDE2000 formula. This scalar is the sole objective
//! of the search.
//!
//! The oracle's value is carried as the IEEE-754 bit pattern of the (single
//! precision, non-negative) CIEDE2000 result. For non-negative floating-point
//! values the unsigned order of the bit patterns coincides with the numeric
//! order, and every non-finite pattern orders after all finite ones — exactly
//! the "treat a non-finite distance as effectively infinite so it never wins
//! a ranking" rule the search needs. All ranking therefore happens on plain
//! unsigned integers.

use vstd::prelude::*;

use crate::color::PreciseRGB;
use crate::color::RGB;

verus! {

/// The bit pattern of the CIEDE2000 distance between two integral colors: a
/// fixed mathematical function of the two colors alone, computed by the
/// `lab` and `deltae` crates.
pub uninterp spec fn delta_e_bits(a: RGB, b: RGB) -> u32;

/// Relies on `lab::Lab::from_rgb` (the scalar sRGB-to-CIELAB conversion, a
/// pure function of the three channel bytes) and on `deltae::DeltaE::new`
/// with the `DE2000` method (a pure function of the two Lab triples). Equal
/// colors give equal Lab values, and the CIEDE2000 formula on two equal Lab
/// values has every difference term exactly zero, so the result is exactly
/// positive zero, whose bit pattern is zero.
#[verifier::external_body]
fn delta_e2000_bits(a: RGB, b: RGB) -> (r: u32)
    ensures
        r == delta_e_bits(a, b),
        a == b ==> r == 0,
{
    let la = lab::Lab::from_rgb(&[a.red, a.green, a.blue]);
    let lb = lab::Lab::from_rgb(&[b.red, b.green, b.blue]);
    let va = deltae::LabValue { l: la.l, a: la.a, b: la.b };
    let vb = deltae::LabValue { l: lb.l, a: lb.a, b: lb.b };
    let de = deltae::DeltaE::new(va, vb, deltae::DEMethod::DE2000);
    de.value().to_bits()
}

/// The perceptual distance between a composited precise color and an
/// integral target, as an order-preserving bit pattern (see the module
/// documentation). The precise color is truncated to 8-bit channels first;
/// the target enters exactly. A distance of zero bits means the two colors
/// are identical after that conversion.
pub fn calculate_distance(color: PreciseRGB, target: RGB) -> (r: u32)
    requires
        color.wf(),
    ensures
        r == delta_e_bits(color.spec_to_rgb(), target),
        color.spec_to_rgb() == target ==> r == 0,
{
    let truncated = color.to_rgb();
    delta_e2000_bits(truncated, target)
}

} // verus!
