//! The pruned recursive search: explores sequences of palette indices
//! depth-first; at every level it scores all one-entry extensions of the
//! current sequence in parallel, keeps only the `cutoff` best of them, and
//! recurses into each survivor; at the maximum depth the sequence itself is
//! scored. Each call returns the minimum-distance result of its own subtree
//! (ties go to the candidate ranked first), so the root's result is the best
//! sequence the pruned exploration reaches.
//!
//! The whole search is specified by the pure functions [`best_sub`] and
//! [`run_children`]: the executable search provably returns exactly their
//! value, which makes the result a mathematical function of the inputs —
//! reproducible across runs and thread schedules.

use vstd::prelude::*;

use crate::color::PreciseRGB;
use crate::color::RGB;
use crate::compose::composite_colors;
use crate::compose::composite_spec;
use crate::distance::calculate_distance;
use crate::distance::delta_e_bits;
use crate::palette::convert_colors;
use crate::palette::convert_spec;
use crate::palette::get_standard_colors;
use crate::palette::standard_palette;
use crate::palette::Palette;
use crate::rank::drop_entries;
use crate::rank::lemma_sort_pairs_contains;
use crate::rank::lemma_sort_pairs_sorted;
use crate::rank::sort_pairs;

verus! {

/// The color of each palette entry, in palette order.
pub open spec fn pal_colors(pal: Seq<(Seq<char>, RGB)>) -> Seq<RGB> {
    pal.map_values(|e: (Seq<char>, RGB)| e.1)
}

/// Every index addresses one of the `n` palette entries.
pub open spec fn valid_idxs(idxs: Seq<usize>, n: int) -> bool {
    forall|i: int| 0 <= i < idxs.len() ==> (idxs[i] as int) < n
}

/// The palette colors an index sequence denotes, in order.
pub open spec fn colors_of_idxs(cols: Seq<RGB>, idxs: Seq<usize>) -> Seq<RGB> {
    idxs.map_values(|i: usize| cols[i as int])
}

/// The score of an index sequence: the perceptual distance (as ranking bits)
/// between its composited color and the target.
pub open spec fn key_of(cols: Seq<RGB>, idxs: Seq<usize>, target: RGB) -> u32 {
    delta_e_bits(composite_spec(colors_of_idxs(cols, idxs)).spec_to_rgb(), target)
}

/// All one-entry extensions of `base`, scored: the candidate with palette
/// index `i` carries the score of `base` extended by entry `i`.
pub open spec fn ext_candidates(cols: Seq<RGB>, base: Seq<usize>, target: RGB) -> Seq<
    (u32, usize),
> {
    Seq::new(cols.len(), |i: int| (key_of(cols, base.push(i as usize), target), i as usize))
}

/// The candidates that survive a level: all extensions ranked ascending, cut
/// to the best `cutoff` (or all of them when the budget covers the palette).
pub open spec fn trimmed_spec(cols: Seq<RGB>, base: Seq<usize>, target: RGB, cutoff: nat) -> Seq<
    (u32, usize),
> {
    let cands = ext_candidates(cols, base, target);
    sort_pairs(cands).take(
        if cutoff as int <= cands.len() {
            cutoff as int
        } else {
            cands.len() as int
        },
    )
}

/// The best (sequence, score) of the subtree rooted at `base` with `levels`
/// more entries to add: at a leaf the sequence is scored as-is; otherwise the
/// surviving extensions are explored and the minimum-scored result is kept,
/// the earliest-ranked candidate winning ties.
pub open spec fn best_sub(
    cols: Seq<RGB>,
    target: RGB,
    base: Seq<usize>,
    levels: nat,
    cutoff: nat,
) -> (Seq<usize>, u32)
    decreases levels, 2int, 0int,
{
    if levels == 0 {
        (base, key_of(cols, base, target))
    } else {
        let t = trimmed_spec(cols, base, target, cutoff);
        if t.len() == 0 {
            (base, key_of(cols, base, target))
        } else {
            let first = best_sub(cols, target, base.push(t[0].1), (levels - 1) as nat, cutoff);
            run_children(cols, target, base, levels, cutoff, t.drop_first(), first)
        }
    }
}

/// Folds the remaining surviving candidates of a level into the best result
/// seen so far: each candidate's subtree is explored and replaces the
/// accumulator only when strictly better.
pub open spec fn run_children(
    cols: Seq<RGB>,
    target: RGB,
    base: Seq<usize>,
    levels: nat,
    cutoff: nat,
    rest: Seq<(u32, usize)>,
    acc: (Seq<usize>, u32),
) -> (Seq<usize>, u32)
    decreases levels, 1int, rest.len(),
{
    if rest.len() == 0 || levels == 0 {
        acc
    } else {
        let child = best_sub(cols, target, base.push(rest[0].1), (levels - 1) as nat, cutoff);
        let next = if child.1 < acc.1 {
            child
        } else {
            acc
        };
        run_children(cols, target, base, levels, cutoff, rest.drop_first(), next)
    }
}

/// The surviving candidates of a level: at least one when the palette is
/// non-empty and the budget is positive, and every one a valid palette index.
pub proof fn lemma_trimmed_valid(cols: Seq<RGB>, base: Seq<usize>, target: RGB, cutoff: nat)
    ensures
        trimmed_spec(cols, base, target, cutoff).len() == if cutoff as int <= cols.len() {
            cutoff as int
        } else {
            cols.len() as int
        },
        forall|j: int|
            0 <= j < trimmed_spec(cols, base, target, cutoff).len() ==> (
            #[trigger] trimmed_spec(cols, base, target, cutoff)[j].1 as int) < cols.len(),
{
    let cands = ext_candidates(cols, base, target);
    let t = trimmed_spec(cols, base, target, cutoff);
    lemma_sort_pairs_sorted(cands);
    assert forall|j: int| 0 <= j < t.len() implies (#[trigger] t[j].1 as int) < cols.len() by {
        assert(sort_pairs(cands)[j] == t[j]);
        assert(sort_pairs(cands).contains(t[j]));
        lemma_sort_pairs_contains(cands, t[j]);
        let w = choose|w: int| 0 <= w < cands.len() && cands[w] == t[j];
        assert(cands[w].1 == w as usize);
    }
}

/// The result of a subtree always extends `base` by exactly `levels` entries,
/// all of them valid palette indices.
pub proof fn lemma_best_sub_shape(
    cols: Seq<RGB>,
    target: RGB,
    base: Seq<usize>,
    levels: nat,
    cutoff: nat,
)
    requires
        cols.len() >= 1,
        cutoff >= 1,
        valid_idxs(base, cols.len() as int),
    ensures
        best_sub(cols, target, base, levels, cutoff).0.len() == base.len() + levels,
        valid_idxs(best_sub(cols, target, base, levels, cutoff).0, cols.len() as int),
    decreases levels, 2int, 0int,
{
    if levels == 0 {
    } else {
        let t = trimmed_spec(cols, base, target, cutoff);
        lemma_trimmed_valid(cols, base, target, cutoff);
        assert(t.len() >= 1);
        assert(valid_idxs(base.push(t[0].1), cols.len() as int));
        lemma_best_sub_shape(cols, target, base.push(t[0].1), (levels - 1) as nat, cutoff);
        let first = best_sub(cols, target, base.push(t[0].1), (levels - 1) as nat, cutoff);
        lemma_run_children_shape(cols, target, base, levels, cutoff, t.drop_first(), first);
    }
}

/// Folding children preserves the result shape of [`lemma_best_sub_shape`].
pub proof fn lemma_run_children_shape(
    cols: Seq<RGB>,
    target: RGB,
    base: Seq<usize>,
    levels: nat,
    cutoff: nat,
    rest: Seq<(u32, usize)>,
    acc: (Seq<usize>, u32),
)
    requires
        cols.len() >= 1,
        cutoff >= 1,
        valid_idxs(base, cols.len() as int),
        forall|j: int| 0 <= j < rest.len() ==> (#[trigger] rest[j].1 as int) < cols.len(),
        acc.0.len() == base.len() + levels,
        valid_idxs(acc.0, cols.len() as int),
    ensures
        run_children(cols, target, base, levels, cutoff, rest, acc).0.len() == base.len() + levels,
        valid_idxs(run_children(cols, target, base, levels, cutoff, rest, acc).0, cols.len() as int),
    decreases levels, 1int, rest.len(),
{
    if rest.len() == 0 || levels == 0 {
    } else {
        assert(valid_idxs(base.push(rest[0].1), cols.len() as int));
        lemma_best_sub_shape(cols, target, base.push(rest[0].1), (levels - 1) as nat, cutoff);
        let child = best_sub(cols, target, base.push(rest[0].1), (levels - 1) as nat, cutoff);
        let next = if child.1 < acc.1 {
            child
        } else {
            acc
        };
        assert(forall|j: int|
            0 <= j < rest.drop_first().len() ==> (#[trigger] rest.drop_first()[j].1 as int)
                < cols.len());
        lemma_run_children_shape(cols, target, base, levels, cutoff, rest.drop_first(), next);
    }
}

/// Extending an index sequence extends its color sequence by the indexed
/// color.
pub proof fn lemma_colors_of_push(cols: Seq<RGB>, base: Seq<usize>, i: usize)
    requires
        (i as int) < cols.len(),
    ensures
        colors_of_idxs(cols, base.push(i)) == colors_of_idxs(cols, base).push(cols[i as int]),
{
    assert(colors_of_idxs(cols, base.push(i)) =~= colors_of_idxs(cols, base).push(cols[i as int]));
}

/// A copy of a vector of copyable values.
fn copied_vec<T: Copy>(v: &Vec<T>) -> (r: Vec<T>)
    ensures
        r@ == v@,
{
    let n = v.len();
    let mut r: Vec<T> = Vec::new();
    for i in 0..n
        invariant
            n == v@.len(),
            r@ == v@.take(i as int),
    {
        r.push(v[i]);
        proof {
            assert(v@.take(i + 1) =~= v@.take(i as int).push(v@[i as int]));
        }
    }
    proof {
        assert(v@.take(n as int) =~= v@);
    }
    r
}

/// Scores one extension of the current sequence: the colors so far plus one
/// more, composited and measured against the target. This is the unit of
/// parallel work at a search level.
pub(crate) fn score_with(colors: &Vec<RGB>, extra: RGB, target: RGB) -> (k: u32)
    requires
        colors@.len() + 1 <= 56,
    ensures
        k == delta_e_bits(composite_spec(colors@.push(extra)).spec_to_rgb(), target),
{
    let mut ext = copied_vec(colors);
    ext.push(extra);
    let composed = composite_colors(&ext);
    calculate_distance(composed, target)
}

/// Relies on `crossbeam::thread::scope` and `ScopedJoinHandle::join`: the
/// scope runs every spawned task to completion, `join` returns the value the
/// task's closure returned, and the handles are collected and joined in spawn
/// order, so the i-th result is the i-th task's value. Each task evaluates
/// one palette extension by calling only the verified [`score_with`]; the
/// palette, the shared color prefix and the target are read-only here.
#[verifier::external_body]
fn scores_of_extensions(colors: &Palette, base_colors: &Vec<RGB>, target: RGB) -> (r: Vec<u32>)
    requires
        base_colors@.len() + 1 <= 56,
    ensures
        r@.len() == colors@.len(),
        forall|i: int|
            0 <= i < r@.len() ==> r@[i] == delta_e_bits(
                composite_spec(base_colors@.push(pal_colors(colors@)[i])).spec_to_rgb(),
                target,
            ),
{
    crossbeam::thread::scope(|s| {
        let handles: Vec<_> = colors.entries.iter().map(
            |e| {
                let c = e.1;
                s.spawn(move |_| score_with(base_colors, c, target))
            },
        ).collect();
        handles.into_iter().map(|h| h.join().unwrap()).collect()
    }).unwrap()
}

/// Scores all one-entry extensions of the current sequence, in parallel, and
/// pairs each score with its palette index.
fn level_candidates(colors: &Palette, base: &Vec<usize>, base_colors: &Vec<RGB>, target: RGB) -> (r:
    Vec<(u32, usize)>)
    requires
        base_colors@.len() + 1 <= 56,
        valid_idxs(base@, colors@.len() as int),
        base_colors@ == colors_of_idxs(pal_colors(colors@), base@),
    ensures
        r@ == ext_candidates(pal_colors(colors@), base@, target),
{
    let keys = scores_of_extensions(colors, base_colors, target);
    let ghost cols = pal_colors(colors@);
    let ghost cands = ext_candidates(cols, base@, target);
    let n = keys.len();
    let mut r: Vec<(u32, usize)> = Vec::new();
    for i in 0..n
        invariant
            n == keys@.len(),
            n == colors@.len(),
            r@.len() == i,
            base_colors@.len() + 1 <= 56,
            base_colors@ == colors_of_idxs(cols, base@),
            cols == pal_colors(colors@),
            cands == ext_candidates(cols, base@, target),
            forall|i2: int|
                0 <= i2 < keys@.len() ==> keys@[i2] == delta_e_bits(
                    composite_spec(base_colors@.push(cols[i2])).spec_to_rgb(),
                    target,
                ),
            forall|k: int| 0 <= k < i ==> r@[k] == cands[k],
    {
        r.push((keys[i], i));
        proof {
            lemma_colors_of_push(cols, base@, i);
            assert(cands[i as int] == (key_of(cols, base@.push(i), target), i));
        }
    }
    proof {
        assert(r@ =~= cands);
    }
    r
}

/// One node of the depth-first exploration. `base_panes` is the single
/// mutable sequence buffer of this exploration path (with `base_colors` the
/// colors it denotes); both are restored before returning, so siblings see
/// the prefix unchanged. Returns the best (index sequence, score) of this
/// subtree: exactly the value of [`best_sub`].
fn calculate_combinations_recursively(
    colors: &Palette,
    depth: u8,
    max_depth: u8,
    target: RGB,
    cutoff: u8,
    base_panes: &mut Vec<usize>,
    base_colors: &mut Vec<RGB>,
) -> (best: (Vec<usize>, u32))
    requires
        colors@.len() >= 1,
        cutoff >= 1,
        depth <= max_depth,
        1 <= max_depth <= 56,
        old(base_panes)@.len() == depth as int,
        valid_idxs(old(base_panes)@, colors@.len() as int),
        old(base_colors)@ == colors_of_idxs(pal_colors(colors@), old(base_panes)@),
    ensures
        final(base_panes)@ == old(base_panes)@,
        final(base_colors)@ == old(base_colors)@,
        (best.0@, best.1) == best_sub(
            pal_colors(colors@),
            target,
            old(base_panes)@,
            (max_depth - depth) as nat,
            cutoff as nat,
        ),
    decreases max_depth - depth,
{
    let ghost cols = pal_colors(colors@);
    let ghost levels = (max_depth - depth) as nat;
    if depth == max_depth {
        let composed = composite_colors(base_colors);
        let key = calculate_distance(composed, target);
        let snapshot = copied_vec(base_panes);
        return (snapshot, key);
    }
    let pairs = level_candidates(colors, base_panes, base_colors, target);
    let trimmed = drop_entries(&pairs, cutoff);
    proof {
        lemma_trimmed_valid(cols, old(base_panes)@, target, cutoff as nat);
        assert(trimmed@ == trimmed_spec(cols, old(base_panes)@, target, cutoff as nat));
        assert(trimmed@.len() >= 1);
    }
    let ghost t = trimmed@;

    let idx0 = trimmed[0].1;
    base_panes.push(idx0);
    base_colors.push(colors.entries[idx0].1);
    proof {
        lemma_colors_of_push(cols, old(base_panes)@, idx0);
        assert(cols[idx0 as int] == colors@[idx0 as int].1);
    }
    let child0 = calculate_combinations_recursively(
        colors,
        depth + 1,
        max_depth,
        target,
        cutoff,
        base_panes,
        base_colors,
    );
    let _ = base_panes.pop();
    let _ = base_colors.pop();
    proof {
        assert(old(base_panes)@.push(idx0).drop_last() =~= old(base_panes)@);
        assert(old(base_colors)@.push(cols[idx0 as int]).drop_last() =~= old(base_colors)@);
    }
    let mut best = child0;

    let tn = trimmed.len();
    let mut j: usize = 1;
    while j < tn
        invariant
            1 <= j <= tn,
            tn == t.len(),
            trimmed@ == t,
            t == trimmed_spec(cols, old(base_panes)@, target, cutoff as nat),
            cols == pal_colors(colors@),
            colors@.len() >= 1,
            cutoff >= 1,
            depth < max_depth <= 56,
            levels == (max_depth - depth) as nat,
            base_panes@ == old(base_panes)@,
            base_colors@ == old(base_colors)@,
            base_panes@.len() == depth as int,
            valid_idxs(base_panes@, cols.len() as int),
            base_colors@ == colors_of_idxs(cols, base_panes@),
            forall|k: int| 0 <= k < t.len() ==> (#[trigger] t[k].1 as int) < cols.len(),
            run_children(
                cols,
                target,
                old(base_panes)@,
                levels,
                cutoff as nat,
                t.skip(j as int),
                (best.0@, best.1),
            ) == best_sub(cols, target, old(base_panes)@, levels, cutoff as nat),
        decreases tn - j,
    {
        let idxj = trimmed[j].1;
        base_panes.push(idxj);
        base_colors.push(colors.entries[idxj].1);
        proof {
            lemma_colors_of_push(cols, old(base_panes)@, idxj);
            assert(cols[idxj as int] == colors@[idxj as int].1);
        }
        let child = calculate_combinations_recursively(
            colors,
            depth + 1,
            max_depth,
            target,
            cutoff,
            base_panes,
            base_colors,
        );
        let _ = base_panes.pop();
        let _ = base_colors.pop();
        proof {
            assert(old(base_panes)@.push(idxj).drop_last() =~= old(base_panes)@);
            assert(old(base_colors)@.push(cols[idxj as int]).drop_last() =~= old(base_colors)@);
            assert(t.skip(j as int).drop_first() =~= t.skip(j + 1));
            assert(t.skip(j as int)[0] == t[j as int]);
        }
        if child.1 < best.1 {
            best = child;
        }
        j = j + 1;
    }
    proof {
        assert(t.skip(tn as int) =~= Seq::<(u32, usize)>::empty());
    }
    best
}

/// The search target a raw channel triple denotes.
pub open spec fn spec_target(color: [u8; 3]) -> RGB {
    RGB { red: color[0], green: color[1], blue: color[2] }
}

/// A search result: the chosen sequence of palette names, the distance of its
/// composited color to the target (as order-preserving ranking bits, see
/// `distance`), and that composited color itself.
#[derive(Debug, Clone)]
pub struct Panes {
    pub panes: Vec<String>,
    pub distance: u32,
    pub color: PreciseRGB,
}

/// What a returned result is: exactly the best subtree value of the whole
/// search, spelled out per field — the names of the chosen entries, its
/// score, and the composited color of the chosen entries.
pub open spec fn find_spec_matches(
    pal: Seq<(Seq<char>, RGB)>,
    color: [u8; 3],
    depth: u8,
    cutoff: u8,
    p: Panes,
) -> bool {
    let bs = best_sub(pal_colors(pal), spec_target(color), Seq::empty(), depth as nat,
        cutoff as nat);
    &&& p.panes@.map_values(|s: String| s@) == bs.0.map_values(|i: usize| pal[i as int].0)
    &&& p.distance == bs.1
    &&& p.color == composite_spec(colors_of_idxs(pal_colors(pal), bs.0))
    &&& p.panes@.len() == depth as int
    &&& p.color.wf()
}

/// The search proper: explores name sequences of length exactly `depth` over
/// the palette, pruning each level to the `cutoff` best-scoring extensions,
/// and returns the best sequence found. A zero depth, a zero budget or an
/// empty palette is a degenerate configuration: the defined answer is "no
/// solution", never a crash.
fn find_combination(color: [u8; 3], colors: &Palette, depth: u8, cutoff: u8) -> (r: Option<Panes>)
    requires
        depth <= 56,
    ensures
        r is Some <==> (depth >= 1 && cutoff >= 1 && colors@.len() >= 1),
        r matches Some(p) ==> find_spec_matches(colors@, color, depth, cutoff, p),
{
    let target = RGB::new(color);
    if depth == 0 || cutoff == 0 || colors.len() == 0 {
        return None;
    }
    let ghost cols = pal_colors(colors@);
    let ghost bs = best_sub(cols, target, Seq::<usize>::empty(), depth as nat, cutoff as nat);
    let mut buf: Vec<usize> = Vec::new();
    let mut buf_colors: Vec<RGB> = Vec::new();
    proof {
        assert(colors_of_idxs(cols, Seq::<usize>::empty()) =~= Seq::<RGB>::empty());
    }
    let best = calculate_combinations_recursively(
        colors,
        0,
        depth,
        target,
        cutoff,
        &mut buf,
        &mut buf_colors,
    );
    proof {
        lemma_best_sub_shape(cols, target, Seq::<usize>::empty(), depth as nat, cutoff as nat);
        assert(best.0@ == bs.0 && best.1 == bs.1);
    }
    let bn = best.0.len();
    let mut names: Vec<String> = Vec::new();
    let mut final_colors: Vec<RGB> = Vec::new();
    for ti in 0..bn
        invariant
            bn == best.0@.len(),
            bn == depth as int,
            1 <= depth <= 56,
            best.0@ == bs.0,
            cols == pal_colors(colors@),
            valid_idxs(bs.0, cols.len() as int),
            names@.len() == ti as int,
            final_colors@.len() == ti as int,
            forall|k: int| 0 <= k < ti ==> (#[trigger] names@[k])@ == colors@[bs.0[k] as int].0,
            forall|k: int| 0 <= k < ti ==> #[trigger] final_colors@[k] == cols[bs.0[k] as int],
    {
        let idx = best.0[ti];
        names.push(colors.entries[idx].0.clone());
        final_colors.push(colors.entries[idx].1);
        proof {
            assert(colors@[idx as int].0 == colors.entries@[idx as int].0@);
            assert(cols[idx as int] == colors@[idx as int].1);
        }
    }
    proof {
        assert(names@.map_values(|s: String| s@) =~= bs.0.map_values(
            |i: usize| colors@[i as int].0,
        ));
        assert(final_colors@ =~= colors_of_idxs(cols, bs.0));
    }
    let comp = composite_colors(&final_colors);
    Some(Panes { panes: names, distance: best.1, color: comp })
}

/// Finds the best sequence of exactly `depth` entries from a caller-supplied
/// palette of raw (name, channels) pairs, keeping the `cutoff` best-scoring
/// extensions at every level. Returns no result exactly for the degenerate
/// configurations: zero depth, zero budget, or an empty palette.
pub fn find_combination_custom_colors(
    color: [u8; 3],
    colors: &Vec<(String, [u8; 3])>,
    depth: u8,
    cutoff: u8,
) -> (r: Option<Panes>)
    requires
        depth <= 56,
    ensures
        r is Some <==> (depth >= 1 && cutoff >= 1 && colors@.len() >= 1),
        r matches Some(p) ==> find_spec_matches(convert_spec(colors@), color, depth, cutoff, p),
{
    let pal = convert_colors(colors);
    find_combination(color, &pal, depth, cutoff)
}

/// Finds the best sequence over the default sixteen-entry palette with a
/// caller-chosen depth and per-level budget.
pub fn find_combination_custom(color: [u8; 3], depth: u8, cutoff: u8) -> (r: Option<Panes>)
    requires
        depth <= 56,
    ensures
        r is Some <==> (depth >= 1 && cutoff >= 1),
        r matches Some(p) ==> find_spec_matches(standard_palette(), color, depth, cutoff, p),
{
    let pal = convert_colors(&get_standard_colors());
    find_combination(color, &pal, depth, cutoff)
}

/// Finds the best sequence over the default sixteen-entry palette with the
/// default depth and per-level budget of six.
pub fn find_combination_default(color: [u8; 3]) -> (r: Option<Panes>)
    ensures
        r is Some,
        r matches Some(p) ==> find_spec_matches(standard_palette(), color, 6, 6, p),
{
    find_combination_custom(color, 6, 6)
}

} // verus!
