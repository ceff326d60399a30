//! Result ranking: the total order over scored candidates and the pruning
//! step that keeps only the best-scoring ones.
//!
//! A scored candidate is a (distance bits, palette index) pair. Candidates
//! are ordered by distance first and palette index second; since every
//! candidate at a level carries a distinct index, this is a strict total
//! order, which makes the ranking — and with it the whole search — fully
//! deterministic: floating-point ties are broken towards the entry that
//! comes first in the palette.

use vstd::prelude::*;

verus! {

/// The strict total order on scored candidates: smaller distance first,
/// ties broken by the smaller palette index.
pub open spec fn lex_lt(x: (u32, usize), y: (u32, usize)) -> bool {
    x.0 < y.0 || (x.0 == y.0 && x.1 < y.1)
}

/// `x` placed before the first element of the sorted `s` that is greater
/// than `x`.
pub open spec fn insert_sorted(x: (u32, usize), s: Seq<(u32, usize)>) -> Seq<(u32, usize)>
    decreases s.len(),
{
    if s.len() == 0 {
        seq![x]
    } else if lex_lt(x, s[0]) {
        seq![x] + s
    } else {
        seq![s[0]] + insert_sorted(x, s.drop_first())
    }
}

/// Insertion sort of the candidates under [`lex_lt`].
pub open spec fn sort_pairs(s: Seq<(u32, usize)>) -> Seq<(u32, usize)>
    decreases s.len(),
{
    if s.len() == 0 {
        Seq::empty()
    } else {
        insert_sorted(s.last(), sort_pairs(s.drop_last()))
    }
}

/// Whether a candidate sequence is sorted: non-strictly increasing under the
/// strict order (equal pairs may sit next to each other).
pub open spec fn sorted(s: Seq<(u32, usize)>) -> bool {
    forall|i: int, j: int| 0 <= i < j < s.len() ==> !lex_lt(s[j], s[i])
}

pub proof fn lemma_insert_sorted_len(x: (u32, usize), s: Seq<(u32, usize)>)
    ensures
        insert_sorted(x, s).len() == s.len() + 1,
    decreases s.len(),
{
    if s.len() > 0 && !lex_lt(x, s[0]) {
        lemma_insert_sorted_len(x, s.drop_first());
    }
}

/// Inserting adds exactly the new candidate to the contents.
pub proof fn lemma_insert_sorted_multiset(x: (u32, usize), s: Seq<(u32, usize)>)
    ensures
        insert_sorted(x, s).to_multiset() == s.to_multiset().insert(x),
    decreases s.len(),
{
    broadcast use vstd::seq_lib::group_to_multiset_ensures;

    if s.len() == 0 {
        assert(insert_sorted(x, s) =~= Seq::empty().push(x));
    } else if lex_lt(x, s[0]) {
        assert(seq![x] + s =~= (seq![x] + s.drop_first()).insert(1, s[0]));
        assert(seq![x] + s.drop_first() =~= s.drop_first().insert(0, x));
        assert(s =~= s.drop_first().insert(0, s[0]));
    } else {
        lemma_insert_sorted_multiset(x, s.drop_first());
        assert(seq![s[0]] + insert_sorted(x, s.drop_first()) =~= insert_sorted(
            x,
            s.drop_first(),
        ).insert(0, s[0]));
        assert(s =~= s.drop_first().insert(0, s[0]));
    }
}

/// Inserting into a sorted sequence keeps it sorted.
pub proof fn lemma_insert_sorted_sorted(x: (u32, usize), s: Seq<(u32, usize)>)
    requires
        sorted(s),
    ensures
        sorted(insert_sorted(x, s)),
    decreases s.len(),
{
    broadcast use vstd::seq_lib::group_to_multiset_ensures;

    if s.len() == 0 {
    } else if lex_lt(x, s[0]) {
        assert forall|i: int, j: int|
            0 <= i < j < (seq![x] + s).len() implies !lex_lt((seq![x] + s)[j], (seq![x] + s)[i]) by {
            if i > 0 {
                assert(!lex_lt(s[j - 1], s[i - 1]));
            } else {
                if j > 1 {
                    assert(!lex_lt(s[j - 1], s[0]));
                }
            }
        }
    } else {
        assert(sorted(s.drop_first())) by {
            assert(forall|i: int, j: int|
                0 <= i < j < s.drop_first().len() ==> !lex_lt(
                    #[trigger] s.drop_first()[j],
                    #[trigger] s.drop_first()[i],
                ));
        }
        lemma_insert_sorted_sorted(x, s.drop_first());
        let t = insert_sorted(x, s.drop_first());
        let r = seq![s[0]] + t;
        lemma_insert_sorted_multiset(x, s.drop_first());
        assert forall|i: int, j: int| 0 <= i < j < r.len() implies !lex_lt(r[j], r[i]) by {
            if i > 0 {
                assert(!lex_lt(t[j - 1], t[i - 1]));
            } else {
                // every element of t is x or an element of s.drop_first(),
                // and neither is below s[0]
                assert(t.to_multiset().contains(t[j - 1]));
                assert(t.to_multiset() == s.drop_first().to_multiset().insert(x));
                if t[j - 1] != x {
                    assert(s.drop_first().to_multiset().contains(t[j - 1]));
                    assert(s.drop_first().contains(t[j - 1]));
                    let w = choose|w: int|
                        0 <= w < s.drop_first().len() && s.drop_first()[w] == t[j - 1];
                    assert(!lex_lt(s[w + 1], s[0]));
                }
            }
        }
    }
}

/// Sorting preserves the contents.
pub proof fn lemma_sort_pairs_multiset(s: Seq<(u32, usize)>)
    ensures
        sort_pairs(s).to_multiset() == s.to_multiset(),
    decreases s.len(),
{
    broadcast use vstd::seq_lib::group_to_multiset_ensures;

    if s.len() > 0 {
        lemma_sort_pairs_multiset(s.drop_last());
        lemma_insert_sorted_multiset(s.last(), sort_pairs(s.drop_last()));
        assert(s =~= s.drop_last().push(s.last()));
    }
}

/// Sorting sorts.
pub proof fn lemma_sort_pairs_sorted(s: Seq<(u32, usize)>)
    ensures
        sorted(sort_pairs(s)),
        sort_pairs(s).len() == s.len(),
    decreases s.len(),
{
    broadcast use vstd::seq_lib::group_to_multiset_ensures;

    if s.len() > 0 {
        lemma_sort_pairs_sorted(s.drop_last());
        lemma_insert_sorted_sorted(s.last(), sort_pairs(s.drop_last()));
        lemma_insert_sorted_len(s.last(), sort_pairs(s.drop_last()));
    }
}

/// Every candidate of the sorted sequence comes from the input.
pub proof fn lemma_sort_pairs_contains(s: Seq<(u32, usize)>, x: (u32, usize))
    requires
        sort_pairs(s).contains(x),
    ensures
        s.contains(x),
{
    broadcast use vstd::seq_lib::group_to_multiset_ensures;

    lemma_sort_pairs_multiset(s);
    assert(sort_pairs(s).to_multiset().contains(x));
}

/// What the greedy cut means: the kept prefix and the dropped suffix of the
/// ranked candidates together are exactly the input's contents, and no
/// dropped candidate ranks below any kept one.
pub proof fn lemma_pruning_keeps_best(s: Seq<(u32, usize)>, m: int)
    requires
        0 <= m <= s.len(),
    ensures
        sort_pairs(s).take(m) + sort_pairs(s).skip(m) == sort_pairs(s),
        sort_pairs(s).to_multiset() == s.to_multiset(),
        forall|i: int, j: int|
            0 <= i < m && 0 <= j < sort_pairs(s).skip(m).len() ==> !lex_lt(
                #[trigger] sort_pairs(s).skip(m)[j],
                #[trigger] sort_pairs(s).take(m)[i],
            ),
{
    lemma_sort_pairs_sorted(s);
    lemma_sort_pairs_multiset(s);
    let sorted = sort_pairs(s);
    assert(sorted.take(m) + sorted.skip(m) =~= sorted);
    assert forall|i: int, j: int|
        0 <= i < m && 0 <= j < sorted.skip(m).len() implies !lex_lt(
        #[trigger] sorted.skip(m)[j],
        #[trigger] sorted.take(m)[i],
    ) by {
        assert(sorted.take(m)[i] == sorted[i]);
        assert(sorted.skip(m)[j] == sorted[m + j]);
    }
}

/// Inserts `x` in front of the first element greater than it.
fn insert_exec(out: &mut Vec<(u32, usize)>, x: (u32, usize))
    ensures
        final(out)@ == insert_sorted(x, old(out)@),
{
    let n = out.len();
    let mut j: usize = 0;
    while j < n
        invariant
            j <= n,
            n == out@.len(),
            out@ == old(out)@,
            forall|k: int| 0 <= k < j ==> !lex_lt(x, out@[k]),
        decreases n - j,
    {
        let y = out[j];
        if x.0 < y.0 || (x.0 == y.0 && x.1 < y.1) {
            out.insert(j, x);
            proof {
                lemma_insert_at_found(x, old(out)@, j as int);
            }
            return ;
        }
        j = j + 1;
    }
    out.push(x);
    proof {
        lemma_insert_at_found(x, old(out)@, n as int);
        assert(old(out)@.insert(n as int, x) =~= old(out)@.push(x));
    }
}

/// When no element before `j` is greater than `x` and the element at `j` (if
/// any) is, inserting `x` at `j` is exactly [`insert_sorted`].
proof fn lemma_insert_at_found(x: (u32, usize), s: Seq<(u32, usize)>, j: int)
    requires
        0 <= j <= s.len(),
        forall|k: int| 0 <= k < j ==> !lex_lt(x, s[k]),
        j < s.len() ==> lex_lt(x, s[j]),
    ensures
        insert_sorted(x, s) == s.insert(j, x),
    decreases j,
{
    if s.len() == 0 {
        assert(insert_sorted(x, s) =~= s.insert(0, x));
    } else if j == 0 {
        assert(seq![x] + s =~= s.insert(0, x));
    } else {
        lemma_insert_at_found(x, s.drop_first(), j - 1);
        assert(seq![s[0]] + s.drop_first().insert(j - 1, x) =~= s.insert(j, x));
    }
}

/// Ranks the scored candidates ascending (distance first, palette index as
/// the tie-break) and keeps at most `cutoff` of them: the per-level greedy
/// pruning policy of the search.
pub fn drop_entries(distance_pairs: &Vec<(u32, usize)>, cutoff: u8) -> (r: Vec<(u32, usize)>)
    ensures
        r@ == sort_pairs(distance_pairs@).take(
            if cutoff as int <= distance_pairs@.len() {
                cutoff as int
            } else {
                distance_pairs@.len() as int
            },
        ),
{
    let n = distance_pairs.len();
    let mut out: Vec<(u32, usize)> = Vec::new();
    for i in 0..n
        invariant
            n == distance_pairs@.len(),
            out@ == sort_pairs(distance_pairs@.take(i as int)),
    {
        insert_exec(&mut out, distance_pairs[i]);
        proof {
            assert(distance_pairs@.take(i + 1).drop_last() =~= distance_pairs@.take(i as int));
        }
    }
    proof {
        assert(distance_pairs@.take(n as int) =~= distance_pairs@);
        lemma_sort_pairs_sorted(distance_pairs@);
    }
    let keep = if (cutoff as usize) <= n {
        cutoff as usize
    } else {
        n
    };
    out.truncate(keep);
    out
}

} // verus!
