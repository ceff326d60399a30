//! The library's general laws, stated and proved over the same spec
//! functions that the executable functions' contracts use.

use vstd::prelude::*;

use vstd::arithmetic::power2::lemma2_to64;

use crate::color::precise_of_rgb;
use crate::color::PreciseRGB;
use crate::color::RGB;
use crate::compose::chan;
use crate::compose::composite_spec;
use crate::compose::resolve;
use crate::compose::weighted_sum;
use crate::palette::lemma_lookup_first;
use crate::palette::lookup_color;
use crate::rank::lemma_sort_pairs_sorted;
use crate::rank::sort_pairs;
use crate::search::best_sub;
use crate::search::colors_of_idxs;
use crate::search::ext_candidates;
use crate::search::find_spec_matches;
use crate::search::lemma_best_sub_shape;
use crate::search::lemma_trimmed_valid;
use crate::search::pal_colors;
use crate::search::run_children;
use crate::search::spec_target;
use crate::search::trimmed_spec;
use crate::search::valid_idxs;
use crate::search::Panes;

verus! {

/// Compositor identity: a single-entry sequence composites to exactly the
/// precise widening of that entry's palette color.
pub proof fn lemma_compositor_identity(pal: Seq<(Seq<char>, RGB)>, x: String)
    ensures
        composite_spec(resolve(seq![x], pal)) == precise_of_rgb(lookup_color(pal, x@)),
{
    let s = resolve(seq![x], pal);
    assert(s =~= seq![lookup_color(pal, x@)]);
    lemma2_to64();
}

/// Compositor weighting: a two-entry sequence composites, per channel, to
/// the exact rational (first + 2 * second) / 2.
pub proof fn lemma_compositor_weighting(a: RGB, b: RGB)
    ensures
        composite_spec(seq![a, b]) == (PreciseRGB {
            num_red: (a.red + 2 * b.red) as u64,
            num_green: (a.green + 2 * b.green) as u64,
            num_blue: (a.blue + 2 * b.blue) as u64,
            den: 2,
        }),
{
    let s = seq![a, b];
    assert(s.drop_last() =~= seq![a]);
    lemma2_to64();
    assert(weighted_sum(seq![a], 0) == chan(a, 0));
    assert(weighted_sum(seq![a], 1) == chan(a, 1));
    assert(weighted_sum(seq![a], 2) == chan(a, 2));
    assert(weighted_sum(s, 0) == chan(a, 0) + 2 * chan(b, 0));
    assert(weighted_sum(s, 1) == chan(a, 1) + 2 * chan(b, 1));
    assert(weighted_sum(s, 2) == chan(a, 2) + 2 * chan(b, 2));
}

/// Search determinism: the search contract pins its result to a pure
/// function of the inputs, so any two results admitted for identical inputs
/// agree in every observable field — independently of scheduling or thread
/// count.
pub proof fn lemma_search_deterministic(
    pal: Seq<(Seq<char>, RGB)>,
    color: [u8; 3],
    depth: u8,
    cutoff: u8,
    p1: Panes,
    p2: Panes,
)
    requires
        find_spec_matches(pal, color, depth, cutoff, p1),
        find_spec_matches(pal, color, depth, cutoff, p2),
    ensures
        p1.panes@.map_values(|s: String| s@) == p2.panes@.map_values(|s: String| s@),
        p1.distance == p2.distance,
        p1.color == p2.color,
{
}

/// Folding children never worsens the accumulator, and the fold's result is
/// at most every folded child's best.
proof fn lemma_run_children_le(
    cols: Seq<RGB>,
    target: RGB,
    base: Seq<usize>,
    levels: nat,
    cutoff: nat,
    rest: Seq<(u32, usize)>,
    acc: (Seq<usize>, u32),
)
    requires
        levels >= 1,
    ensures
        run_children(cols, target, base, levels, cutoff, rest, acc).1 <= acc.1,
        forall|j: int|
            0 <= j < rest.len() ==> run_children(cols, target, base, levels, cutoff, rest, acc).1
                <= best_sub(cols, target, base.push(rest[j].1), (levels - 1) as nat, cutoff).1,
    decreases rest.len(),
{
    if rest.len() == 0 {
    } else {
        let child = best_sub(cols, target, base.push(rest[0].1), (levels - 1) as nat, cutoff);
        let next = if child.1 < acc.1 {
            child
        } else {
            acc
        };
        lemma_run_children_le(cols, target, base, levels, cutoff, rest.drop_first(), next);
        assert forall|j: int|
            0 <= j < rest.len() implies run_children(cols, target, base, levels, cutoff, rest, acc).1
            <= best_sub(cols, target, base.push(rest[j].1), (levels - 1) as nat, cutoff).1 by {
            if j > 0 {
                assert(rest.drop_first()[j - 1] == rest[j]);
            }
        }
    }
}

/// The fold's result is the accumulator or some folded child's best.
proof fn lemma_run_children_achieved(
    cols: Seq<RGB>,
    target: RGB,
    base: Seq<usize>,
    levels: nat,
    cutoff: nat,
    rest: Seq<(u32, usize)>,
    acc: (Seq<usize>, u32),
)
    requires
        levels >= 1,
    ensures
        run_children(cols, target, base, levels, cutoff, rest, acc) == acc || exists|j: int|
            0 <= j < rest.len() && run_children(cols, target, base, levels, cutoff, rest, acc)
                == best_sub(cols, target, base.push(rest[j].1), (levels - 1) as nat, cutoff),
    decreases rest.len(),
{
    if rest.len() == 0 {
    } else {
        let child = best_sub(cols, target, base.push(rest[0].1), (levels - 1) as nat, cutoff);
        let next = if child.1 < acc.1 {
            child
        } else {
            acc
        };
        lemma_run_children_achieved(cols, target, base, levels, cutoff, rest.drop_first(), next);
        let r = run_children(cols, target, base, levels, cutoff, rest, acc);
        if r == next {
            if next == child {
                assert(r == best_sub(cols, target, base.push(rest[0].1), (levels - 1) as nat,
                    cutoff));
            }
        } else if r != acc {
            let j = choose|j: int|
                0 <= j < rest.drop_first().len() && r == best_sub(
                    cols,
                    target,
                    base.push(rest.drop_first()[j].1),
                    (levels - 1) as nat,
                    cutoff,
                );
            assert(rest.drop_first()[j] == rest[j + 1]);
            assert(r == best_sub(cols, target, base.push(rest[j + 1].1), (levels - 1) as nat,
                cutoff));
        }
    }
}

/// Monotonic quality under relaxed pruning: for one palette, target and
/// depth, a larger per-level candidate budget never worsens the best
/// distance the search returns. Raising the budget keeps every previously
/// surviving candidate (the survivor list under the larger budget extends
/// the one under the smaller), so the explored tree only grows.
pub proof fn lemma_budget_monotonic(
    cols: Seq<RGB>,
    target: RGB,
    base: Seq<usize>,
    levels: nat,
    k1: nat,
    k2: nat,
)
    requires
        1 <= k1 <= k2,
        cols.len() >= 1,
    ensures
        best_sub(cols, target, base, levels, k2).1 <= best_sub(cols, target, base, levels, k1).1,
    decreases levels,
{
    if levels == 0 {
    } else {
        let cands = ext_candidates(cols, base, target);
        let sorted = sort_pairs(cands);
        let t1 = trimmed_spec(cols, base, target, k1);
        let t2 = trimmed_spec(cols, base, target, k2);
        lemma_trimmed_valid(cols, base, target, k1);
        lemma_trimmed_valid(cols, base, target, k2);
        lemma_sort_pairs_sorted(cands);
        assert(sorted.len() == cands.len());
        assert(1 <= t1.len() <= t2.len());
        assert forall|w: int| 0 <= w < t1.len() implies t1[w] == t2[w] by {
            assert(t1[w] == sorted[w]);
            assert(t2[w] == sorted[w]);
        }

        let first1 = best_sub(cols, target, base.push(t1[0].1), (levels - 1) as nat, k1);
        let first2 = best_sub(cols, target, base.push(t2[0].1), (levels - 1) as nat, k2);
        let b1 = best_sub(cols, target, base, levels, k1);
        let b2 = best_sub(cols, target, base, levels, k2);
        assert(b1 == run_children(cols, target, base, levels, k1, t1.drop_first(), first1));
        assert(b2 == run_children(cols, target, base, levels, k2, t2.drop_first(), first2));

        lemma_run_children_achieved(cols, target, base, levels, k1, t1.drop_first(), first1);
        // the index of the candidate whose subtree the budget-k1 search returned
        let w: int = if b1 == first1 {
            0
        } else {
            (choose|j: int|
                0 <= j < t1.drop_first().len() && b1 == best_sub(
                    cols,
                    target,
                    base.push(t1.drop_first()[j].1),
                    (levels - 1) as nat,
                    k1,
                )) + 1
        };
        assert(0 <= w < t1.len());
        assert(b1 == best_sub(cols, target, base.push(t1[w].1), (levels - 1) as nat, k1)) by {
            if w > 0 {
                assert(t1.drop_first()[w - 1] == t1[w]);
            }
        }

        lemma_run_children_le(cols, target, base, levels, k2, t2.drop_first(), first2);
        assert(b2.1 <= best_sub(cols, target, base.push(t2[w].1), (levels - 1) as nat, k2).1) by {
            if w > 0 {
                assert(t2.drop_first()[w - 1] == t2[w]);
            }
        }
        lemma_budget_monotonic(cols, target, base.push(t1[w].1), (levels - 1) as nat, k1, k2);
        assert(t2[w] == t1[w]);
    }
}

/// The user-facing form of the budget law: of two results the search
/// contract admits for the same palette, target and depth, the one found
/// under the larger budget is at least as close to the target.
pub proof fn lemma_budget_monotonic_found(
    pal: Seq<(Seq<char>, RGB)>,
    color: [u8; 3],
    depth: u8,
    k1: u8,
    k2: u8,
    p1: Panes,
    p2: Panes,
)
    requires
        1 <= k1 <= k2,
        pal.len() >= 1,
        find_spec_matches(pal, color, depth, k1, p1),
        find_spec_matches(pal, color, depth, k2, p2),
    ensures
        p2.distance <= p1.distance,
{
    lemma_budget_monotonic(
        pal_colors(pal),
        spec_target(color),
        Seq::<usize>::empty(),
        depth as nat,
        k1 as nat,
        k2 as nat,
    );
}

/// Under distinct palette names, looking an entry's own name up yields that
/// entry's color.
pub proof fn lemma_lookup_own_name(pal: Seq<(Seq<char>, RGB)>, i: int)
    requires
        forall|a: int, b: int| 0 <= a < b < pal.len() ==> pal[a].0 != pal[b].0,
        0 <= i < pal.len(),
    ensures
        lookup_color(pal, pal[i].0) == pal[i].1,
{
    lemma_lookup_first(pal, pal[i].0, i);
}

/// A returned name sequence denotes exactly the colors the search explored:
/// composing the result's names through the palette (as the standalone
/// compositor does) gives the same colors the search composited, provided
/// the palette names are distinct.
pub proof fn lemma_search_names_resolve(
    pal: Seq<(Seq<char>, RGB)>,
    idxs: Seq<usize>,
    panes: Seq<String>,
)
    requires
        forall|a: int, b: int| 0 <= a < b < pal.len() ==> pal[a].0 != pal[b].0,
        valid_idxs(idxs, pal.len() as int),
        panes.map_values(|s: String| s@) == idxs.map_values(|i: usize| pal[i as int].0),
    ensures
        resolve(panes, pal) == colors_of_idxs(pal_colors(pal), idxs),
{
    let pviews = panes.map_values(|s: String| s@);
    let inames = idxs.map_values(|i: usize| pal[i as int].0);
    assert(pviews == inames);
    assert(panes.len() == pviews.len() && idxs.len() == inames.len());
    assert(panes.len() == idxs.len());
    assert forall|k: int| 0 <= k < panes.len() implies #[trigger] resolve(panes, pal)[k]
        == colors_of_idxs(pal_colors(pal), idxs)[k] by {
        assert(panes.map_values(|s: String| s@)[k] == idxs.map_values(
            |i: usize| pal[i as int].0,
        )[k]);
        assert(panes[k]@ == pal[idxs[k] as int].0);
        lemma_lookup_own_name(pal, idxs[k] as int);
    }
    assert(resolve(panes, pal) =~= colors_of_idxs(pal_colors(pal), idxs));
}

/// A found result recomposes to its own color: running the standalone
/// compositor on the returned names (over the same palette, with distinct
/// names) yields exactly the composited color the result reports.
pub proof fn lemma_found_result_recomposes(
    pal: Seq<(Seq<char>, RGB)>,
    color: [u8; 3],
    depth: u8,
    cutoff: u8,
    p: Panes,
)
    requires
        forall|a: int, b: int| 0 <= a < b < pal.len() ==> pal[a].0 != pal[b].0,
        pal.len() >= 1,
        cutoff >= 1,
        find_spec_matches(pal, color, depth, cutoff, p),
    ensures
        composite_spec(resolve(p.panes@, pal)) == p.color,
{
    let cols = pal_colors(pal);
    let bs = best_sub(cols, spec_target(color), Seq::<usize>::empty(), depth as nat, cutoff as nat);
    assert(cols.len() == pal.len());
    lemma_best_sub_shape(
        cols,
        spec_target(color),
        Seq::<usize>::empty(),
        depth as nat,
        cutoff as nat,
    );
    lemma_search_names_resolve(pal, bs.0, p.panes@);
}

} // verus!
