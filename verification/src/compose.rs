//! The sequence compositor: the pure, geometric-weighted blending rule that
//! turns an ordered, non-empty sequence of palette entries into one precise
//! color.
//!
//! For a sequence of `n` colors, the first color contributes weight `1` and
//! the color at position `i` (counted from the second position, `i` in
//! `1..n`) contributes weight `2^i`; the weighted channel sums are divided by
//! `2^(n-1)`. The division is kept exact: the composited color is the
//! rational `sum / 2^(n-1)` per channel, never rounded or clamped here.

use vstd::prelude::*;

use vstd::arithmetic::mul::lemma_mul_inequality;
use vstd::arithmetic::mul::lemma_mul_nonnegative;
use vstd::arithmetic::power2::lemma2_to64;
use vstd::arithmetic::power2::lemma2_to64_rest;
use vstd::arithmetic::power2::lemma_pow2_strictly_increases;
use vstd::arithmetic::power2::lemma_pow2_unfold;
use vstd::arithmetic::power2::pow2;

use crate::color::PreciseRGB;
use crate::color::RGB;
use crate::palette::has_name;
use crate::palette::lookup_color;
use crate::palette::standard_palette;
use crate::palette::Palette;
use crate::palette::convert_colors;
use crate::palette::get_standard_colors;

verus! {

/// One channel of a color, selected by `k`: red for 0, green for 1, blue
/// otherwise.
pub open spec fn chan(c: RGB, k: int) -> int {
    if k == 0 {
        c.red as int
    } else if k == 1 {
        c.green as int
    } else {
        c.blue as int
    }
}

/// The weighted sum of channel `k` over a color sequence: the first color
/// counts once, the color at position `i >= 1` counts `2^i` times.
pub open spec fn weighted_sum(s: Seq<RGB>, k: int) -> int
    decreases s.len(),
{
    if s.len() == 0 {
        0
    } else if s.len() == 1 {
        chan(s[0], k)
    } else {
        weighted_sum(s.drop_last(), k) + pow2((s.len() - 1) as nat) * chan(s.last(), k)
    }
}

/// The weighted sum over `n` colors lies in `[0, 255 * (2^n - 1)]`.
pub proof fn lemma_weighted_sum_bounds(s: Seq<RGB>, k: int)
    ensures
        0 <= weighted_sum(s, k) <= 255 * (pow2(s.len()) - 1),
    decreases s.len(),
{
    if s.len() == 0 {
        lemma2_to64();
    } else if s.len() == 1 {
        lemma2_to64();
    } else {
        let n = s.len();
        lemma_weighted_sum_bounds(s.drop_last(), k);
        lemma_pow2_unfold(n);
        let p = pow2((n - 1) as nat) as int;
        lemma_mul_nonnegative(p, chan(s.last(), k));
        assert(p * chan(s.last(), k) <= p * 255) by {
            lemma_mul_inequality(chan(s.last(), k), 255, p);
            assert(chan(s.last(), k) * p == p * chan(s.last(), k)) by (nonlinear_arith);
            assert(255 * p == p * 255) by (nonlinear_arith);
        }
    }
}

/// The composited precise color of a non-empty color sequence: the weighted
/// channel sums over the common denominator `2^(n-1)`.
pub open spec fn composite_spec(s: Seq<RGB>) -> PreciseRGB
    recommends
        1 <= s.len() <= 56,
{
    PreciseRGB {
        num_red: weighted_sum(s, 0) as u64,
        num_green: weighted_sum(s, 1) as u64,
        num_blue: weighted_sum(s, 2) as u64,
        den: pow2((s.len() - 1) as nat) as u64,
    }
}

/// `pow2` is monotone.
pub proof fn lemma_pow2_le(e1: nat, e2: nat)
    requires
        e1 <= e2,
    ensures
        pow2(e1) <= pow2(e2),
{
    if e1 < e2 {
        lemma_pow2_strictly_increases(e1, e2);
    }
}

/// Composites a non-empty sequence of colors (at most 56, so that the exact
/// weighted sums fit the machine words).
pub fn composite_colors(colors: &Vec<RGB>) -> (r: PreciseRGB)
    requires
        1 <= colors@.len() <= 56,
    ensures
        r == composite_spec(colors@),
        r.wf(),
{
    let n = colors.len();
    let first = colors[0];
    let mut num_red: u64 = first.red as u64;
    let mut num_green: u64 = first.green as u64;
    let mut num_blue: u64 = first.blue as u64;
    let mut w: u64 = 1;
    let mut i: usize = 1;
    proof {
        lemma2_to64();
        assert(colors@.take(1) =~= seq![colors@[0]]);
    }
    while i < n
        invariant
            1 <= i <= n,
            n == colors@.len(),
            n <= 56,
            w == pow2((i - 1) as nat),
            num_red == weighted_sum(colors@.take(i as int), 0),
            num_green == weighted_sum(colors@.take(i as int), 1),
            num_blue == weighted_sum(colors@.take(i as int), 2),
        decreases n - i,
    {
        let c = colors[i];
        proof {
            lemma2_to64();
            lemma2_to64_rest();
            lemma_pow2_unfold(i as nat);
            lemma_pow2_le(i as nat, 55);
            lemma_pow2_le((i + 1) as nat, 56);
            lemma_weighted_sum_bounds(colors@.take(i as int), 0);
            lemma_weighted_sum_bounds(colors@.take(i as int), 1);
            lemma_weighted_sum_bounds(colors@.take(i as int), 2);
            let p = pow2(i as nat) as int;
            assert(p * chan(c, 0) <= p * 255 && p * chan(c, 1) <= p * 255 && p * chan(c, 2) <= p
                * 255 && 0 <= p * chan(c, 0) && 0 <= p * chan(c, 1) && 0 <= p * chan(c, 2)) by {
                lemma_mul_inequality(chan(c, 0), 255, p);
                lemma_mul_inequality(chan(c, 1), 255, p);
                lemma_mul_inequality(chan(c, 2), 255, p);
                lemma_mul_nonnegative(p, chan(c, 0));
                lemma_mul_nonnegative(p, chan(c, 1));
                lemma_mul_nonnegative(p, chan(c, 2));
                assert(forall|a: int, b: int| #[trigger] (a * b) == b * a) by (nonlinear_arith);
            }
            assert(colors@.take(i + 1).drop_last() =~= colors@.take(i as int));
            assert(colors@.take(i + 1).last() == c);
        }
        w = w * 2;
        num_red = num_red + w * (c.red as u64);
        num_green = num_green + w * (c.green as u64);
        num_blue = num_blue + w * (c.blue as u64);
        i = i + 1;
    }
    proof {
        assert(colors@.take(n as int) =~= colors@);
        vstd::arithmetic::power2::lemma_pow2_pos((n - 1) as nat);
    }
    PreciseRGB { num_red, num_green, num_blue, den: w }
}

/// The colors that a sequence of names denotes in a palette, in order.
pub open spec fn resolve(panes: Seq<String>, pal: Seq<(Seq<char>, RGB)>) -> Seq<RGB> {
    panes.map_values(|s: String| lookup_color(pal, s@))
}

/// Composites the colors a non-empty sequence of palette names denotes.
///
/// Every name must be present in the palette and the sequence must be short
/// enough for the exact arithmetic; both are preconditions, not recoverable
/// errors.
pub fn calculate_color_from_panes(panes: &Vec<String>, colors: &Palette) -> (r: PreciseRGB)
    requires
        1 <= panes@.len() <= 56,
        forall|i: int| 0 <= i < panes@.len() ==> has_name(colors@, #[trigger] panes@[i]@),
    ensures
        r == composite_spec(resolve(panes@, colors@)),
        r.wf(),
{
    let n = panes.len();
    let mut resolved: Vec<RGB> = Vec::new();
    for i in 0..n
        invariant
            n == panes@.len(),
            forall|j: int| 0 <= j < panes@.len() ==> has_name(colors@, #[trigger] panes@[j]@),
            resolved@ == resolve(panes@.take(i as int), colors@),
    {
        let c = colors.lookup(&panes[i]).unwrap();
        resolved.push(c);
        proof {
            assert(resolved@ =~= resolve(panes@.take(i + 1), colors@));
        }
    }
    proof {
        assert(panes@.take(n as int) =~= panes@);
    }
    composite_colors(&resolved)
}

/// Composites a non-empty sequence of names from the default sixteen-entry
/// palette.
pub fn calculate_color_from_panes_default(panes: &Vec<String>) -> (r: PreciseRGB)
    requires
        1 <= panes@.len() <= 56,
        forall|i: int| 0 <= i < panes@.len() ==> has_name(standard_palette(), #[trigger] panes@[i]@),
    ensures
        r == composite_spec(resolve(panes@, standard_palette())),
        r.wf(),
{
    let pal = convert_colors(&get_standard_colors());
    calculate_color_from_panes(panes, &pal)
}

} // verus!
