//! Color value types: an integral 8-bit-per-channel color and an exact
//! "precise" color used for intermediate compositing arithmetic.
//!
//! The compositor only ever divides by a power of two, so a precise color is
//! kept as an exact rational with a common denominator: channel `c` has the
//! value `num_c / den`. Converting back to 8-bit channels truncates the
//! quotient and clamps it to the `[0, 255]` boundary.

use vstd::prelude::*;

verus! {

/// An integral color: three 8-bit unsigned channel values. Immutable once
/// constructed; the source of truth for palette entries and search targets.
#[derive(Clone, Copy, Debug, PartialEq, Eq, Hash, Structural)]
pub struct RGB {
    pub red: u8,
    pub green: u8,
    pub blue: u8,
}

impl RGB {
    /// The three channels as an array, in red, green, blue order.
    pub fn to_array(self) -> (r: [u8; 3])
        ensures
            r@ == seq![self.red, self.green, self.blue],
    {
        [self.red, self.green, self.blue]
    }

    /// Builds a color from the three channels, in red, green, blue order.
    pub fn new(all: [u8; 3]) -> (r: Self)
        ensures
            r == (RGB { red: all@[0], green: all@[1], blue: all@[2] }),
    {
        Self { red: all[0], green: all[1], blue: all[2] }
    }
}

/// A precise color: each channel is the exact rational `num_channel / den`.
///
/// Compositing a sequence of `n` colors divides a small integer sum by
/// `2^(n-1)`, so every intermediate color of the search is exactly
/// representable here; no rounding happens before the final 8-bit truncation.
#[derive(Clone, Copy, Debug, PartialEq, Eq, Structural)]
pub struct PreciseRGB {
    pub num_red: u64,
    pub num_green: u64,
    pub num_blue: u64,
    pub den: u64,
}

/// The exact widening of an integral color: numerators are the channels and
/// the denominator is one.
pub open spec fn precise_of_rgb(c: RGB) -> PreciseRGB {
    PreciseRGB { num_red: c.red as u64, num_green: c.green as u64, num_blue: c.blue as u64, den: 1 }
}

/// One channel truncated to 8 bits: the quotient, clamped at the upper
/// boundary (the channel value is never negative, so only the `255` end of
/// the `[0, 255]` range needs clamping).
pub open spec fn spec_channel_u8(num: u64, den: u64) -> u8
    recommends
        den >= 1,
{
    if num as int / den as int > 255 {
        255u8
    } else {
        (num as int / den as int) as u8
    }
}

impl PreciseRGB {
    /// A valid precise color has a nonzero denominator.
    pub open spec fn wf(self) -> bool {
        self.den >= 1
    }

    /// The integral color this precise color truncates to.
    pub open spec fn spec_to_rgb(self) -> RGB {
        RGB {
            red: spec_channel_u8(self.num_red, self.den),
            green: spec_channel_u8(self.num_green, self.den),
            blue: spec_channel_u8(self.num_blue, self.den),
        }
    }

    /// Builds a precise color from its channel numerators and the common
    /// denominator.
    pub fn new(num_red: u64, num_green: u64, num_blue: u64, den: u64) -> (r: Self)
        requires
            den >= 1,
        ensures
            r == (PreciseRGB { num_red, num_green, num_blue, den }),
    {
        Self { num_red, num_green, num_blue, den }
    }

    /// The three channels truncated to 8 bits, in red, green, blue order.
    pub fn to_u8_array(self) -> (r: [u8; 3])
        requires
            self.wf(),
        ensures
            r@ == seq![
                self.spec_to_rgb().red,
                self.spec_to_rgb().green,
                self.spec_to_rgb().blue,
            ],
    {
        [self.channel_u8(self.num_red), self.channel_u8(self.num_green), self.channel_u8(
            self.num_blue,
        )]
    }

    /// The integral color this precise color truncates to.
    pub fn to_rgb(self) -> (r: RGB)
        requires
            self.wf(),
        ensures
            r == self.spec_to_rgb(),
    {
        RGB {
            red: self.channel_u8(self.num_red),
            green: self.channel_u8(self.num_green),
            blue: self.channel_u8(self.num_blue),
        }
    }

    fn channel_u8(self, num: u64) -> (r: u8)
        requires
            self.wf(),
        ensures
            r == spec_channel_u8(num, self.den),
    {
        let q = num / self.den;
        if q > 255 {
            255
        } else {
            q as u8
        }
    }
}

impl From<RGB> for PreciseRGB {
    /// Exact widening: each 8-bit channel becomes a numerator over
    /// denominator one.
    fn from(value: RGB) -> (r: Self) {
        Self {
            num_red: value.red as u64,
            num_green: value.green as u64,
            num_blue: value.blue as u64,
            den: 1,
        }
    }
}

impl vstd::std_specs::convert::FromSpecImpl<RGB> for PreciseRGB {
    open spec fn obeys_from_spec() -> bool {
        true
    }

    open spec fn from_spec(v: RGB) -> PreciseRGB {
        precise_of_rgb(v)
    }
}

} // verus!
