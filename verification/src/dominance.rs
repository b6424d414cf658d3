//! The dominance filter: reduces the converged header set to its
//! Pareto-maximal subset under the headers' own partial order.
//!
//! A header is retained exactly when no header of the set strictly dominates
//! it. Headers that are incomparable with every other element, equal to some
//! other element, or above all others all survive: these are maximal-elements
//! semantics, not unique-maximum semantics.

use vstd::prelude::*;

use crate::header::DecisionModelHeader;
use crate::header::header_eq;
use crate::header::header_leq;
use crate::header::header_lt;
use crate::store::HeaderSet;
use crate::store::distinct_headers;
use crate::store::seq_contains_header;

verus! {

/// No header of `s` strictly dominates `h`.
pub open spec fn is_maximal_in(s: Seq<DecisionModelHeader>, h: DecisionModelHeader) -> bool {
    forall|o: int| 0 <= o < s.len() ==> !header_lt(h, s[o])
}

/// What the dominance filter returns: `out` holds exactly the elements of
/// `inp` that no element of `inp` strictly dominates, deduplicated, and if
/// every element of `inp` is maximal, `out` is `inp` itself: the same
/// identities in the same order.
pub open spec fn dominance_post(
    inp: Seq<DecisionModelHeader>,
    out: Seq<DecisionModelHeader>,
) -> bool {
    &&& distinct_headers(out)
    &&& forall|i: int|
        0 <= i < out.len() ==> seq_contains_header(inp, #[trigger] out[i]) && is_maximal_in(
            inp,
            out[i],
        )
    &&& forall|i: int|
        0 <= i < inp.len() && is_maximal_in(inp, #[trigger] inp[i]) ==> seq_contains_header(
            out,
            inp[i],
        )
    &&& (forall|i: int| 0 <= i < inp.len() ==> is_maximal_in(inp, #[trigger] inp[i])) ==> (
    out.len() == inp.len() && forall|i: int|
        0 <= i < inp.len() ==> header_eq(#[trigger] out[i], inp[i]))
}

/// Keeps exactly the headers that no header of the set strictly dominates:
/// the Pareto-maximal subset under the headers' own partial order.
#[verifier::rlimit(50)]
pub fn compute_dominant_decision_models(headers: &HeaderSet) -> (r: HeaderSet)
    requires
        headers.wf(),
    ensures
        r.wf(),
        dominance_post(headers@, r@),
        forall|x: DecisionModelHeader| #![trigger seq_contains_header(r@, x)]
            seq_contains_header(r@, x) <==> exists|i: int|
                0 <= i < headers@.len() && header_eq(headers@[i], x) && is_maximal_in(
                    headers@,
                    headers@[i],
                ),
{
    let n = headers.len();
    let mut r = HeaderSet::new();
    let ghost inp = headers@;
    let mut i: usize = 0;
    while i < n
        invariant
            n == inp.len(),
            headers@ == inp,
            headers.wf(),
            i <= n,
            r.wf(),
            forall|a: int|
                0 <= a < r@.len() ==> seq_contains_header(inp, #[trigger] r@[a]) && is_maximal_in(
                    inp,
                    r@[a],
                ),
            forall|a: int|
                0 <= a < i && is_maximal_in(inp, #[trigger] inp[a]) ==> seq_contains_header(
                    r@,
                    inp[a],
                ),
            (forall|a: int| 0 <= a < i ==> is_maximal_in(inp, #[trigger] inp[a])) ==> (r@.len()
                == i && forall|a: int| 0 <= a < i ==> header_eq(#[trigger] r@[a], inp[a])),
        decreases n - i,
    {
        let h = headers.index(i);
        let mut dominated = false;
        let mut o: usize = 0;
        while o < n
            invariant
                n == inp.len(),
                headers@ == inp,
                i < n,
                o <= n,
                *h == inp[i as int],
                dominated == exists|b: int| 0 <= b < o && header_lt(inp[i as int], inp[b]),
            decreases n - o,
        {
            let cmp = h.partial_compare(headers.index(o));
            let is_less = matches!(cmp, crate::header::HeaderOrdering::Less);
            proof {
                if is_less {
                    assert(0 <= o < o + 1 && header_lt(inp[i as int], inp[o as int]));
                } else {
                    if exists|b: int| 0 <= b < o + 1 && header_lt(inp[i as int], inp[b]) {
                        let b = choose|b: int|
                            0 <= b < o + 1 && header_lt(inp[i as int], inp[b]);
                        assert(b < o);
                    }
                }
            }
            if is_less {
                dominated = true;
            }
            o += 1;
        }
        let ghost prev = r@;
        if !dominated {
            proof {
                assert(is_maximal_in(inp, inp[i as int]));
            }
            let added = r.insert(h.duplicate());
            proof {
                if !added {
                    crate::store::lemma_contains_congruence(prev, inp[i as int], inp[i as int]);
                }
            }
        }
        proof {
            assert forall|a: int|
                0 <= a < r@.len() implies seq_contains_header(inp, #[trigger] r@[a])
                && is_maximal_in(inp, r@[a]) by {
                if a < prev.len() {
                    assert(seq_contains_header(inp, prev[a]) && is_maximal_in(inp, prev[a]));
                } else {
                    // Just pushed: a copy of inp[i].
                    assert(header_eq(r@[a], inp[i as int]));
                    assert(seq_contains_header(inp, r@[a])) by {
                        assert(header_eq(inp[i as int], r@[a]));
                    }
                    assert forall|b: int| 0 <= b < inp.len() implies !header_lt(r@[a], inp[b]) by {
                        crate::header::lemma_header_eq_order_congruence(
                            r@[a],
                            inp[i as int],
                            inp[b],
                        );
                    }
                }
            }
            assert forall|a: int|
                0 <= a < i + 1 && is_maximal_in(inp, #[trigger] inp[a]) implies seq_contains_header(
                r@,
                inp[a],
            ) by {
                if a < i {
                    assert(seq_contains_header(prev, inp[a]));
                    let w = choose|w: int| 0 <= w < prev.len() && header_eq(prev[w], inp[a]);
                    assert(header_eq(r@[w], inp[a]));
                } else {
                    // inp[i] is maximal, so the body did not see it dominated
                    // and inserted it (or an identical header was present).
                    assert(!dominated);
                    if !seq_contains_header(prev, inp[i as int]) {
                        assert(header_eq(r@[prev.len() as int], inp[i as int]));
                    } else {
                        let w = choose|w: int|
                            0 <= w < prev.len() && header_eq(prev[w], inp[i as int]);
                        assert(header_eq(r@[w], inp[a]));
                    }
                }
            }
            if forall|a: int| 0 <= a < i + 1 ==> is_maximal_in(inp, #[trigger] inp[a]) {
                assert(prev.len() == i && forall|a: int|
                    0 <= a < i ==> header_eq(#[trigger] prev[a], inp[a]));
                assert(is_maximal_in(inp, inp[i as int]));
                assert(!dominated);
                // Everything kept so far matches the prefix identity-wise, so
                // inp[i] was not yet present: the input is deduplicated.
                if seq_contains_header(prev, inp[i as int]) {
                    let w = choose|w: int|
                        0 <= w < prev.len() && header_eq(prev[w], inp[i as int]);
                    assert(header_eq(prev[w], inp[w]));
                    assert(header_eq(inp[w], inp[i as int]));
                    assert(false);
                }
                assert(r@.len() == i + 1);
                assert(header_eq(r@[i as int], inp[i as int]));
                assert(forall|a: int| 0 <= a < i + 1 ==> header_eq(#[trigger] r@[a], inp[a]));
            }
        }
        i += 1;
    }
    proof {
        assert(inp.subrange(0, n as int) =~= inp);
        assert forall|x: DecisionModelHeader| #![trigger seq_contains_header(r@, x)]
            seq_contains_header(r@, x) <==> exists|a: int|
                0 <= a < inp.len() && header_eq(inp[a], x) && is_maximal_in(inp, inp[a]) by {
            if seq_contains_header(r@, x) {
                let w = choose|w: int| 0 <= w < r@.len() && header_eq(r@[w], x);
                let a = choose|a: int| 0 <= a < inp.len() && header_eq(inp[a], r@[w]);
                assert(header_eq(inp[a], x));
                assert forall|b: int| 0 <= b < inp.len() implies !header_lt(inp[a], inp[b]) by {
                    crate::header::lemma_header_eq_order_congruence(inp[a], r@[w], inp[b]);
                }
                assert(0 <= a < inp.len() && header_eq(inp[a], x) && is_maximal_in(inp, inp[a]));
            }
            if exists|a: int|
                0 <= a < inp.len() && header_eq(inp[a], x) && is_maximal_in(inp, inp[a]) {
                let a = choose|a: int|
                    0 <= a < inp.len() && header_eq(inp[a], x) && is_maximal_in(inp, inp[a]);
                assert(seq_contains_header(r@, inp[a]));
                let w = choose|w: int| 0 <= w < r@.len() && header_eq(r@[w], inp[a]);
                assert(header_eq(r@[w], x));
            }
        }
    }
    r
}

/// Dominance under a total order: when all headers are pairwise comparable,
/// the filter returns exactly the headers that every element lies below —
/// the maximum value's equivalence class.
pub proof fn lemma_dominance_total_order(
    inp: Seq<DecisionModelHeader>,
    out: Seq<DecisionModelHeader>,
)
    requires
        distinct_headers(inp),
        dominance_post(inp, out),
        forall|i: int, j: int|
            0 <= i < inp.len() && 0 <= j < inp.len() ==> header_leq(#[trigger] inp[i], #[trigger] inp[j])
                || header_leq(inp[j], inp[i]),
    ensures
        forall|i: int|
            0 <= i < out.len() ==> forall|j: int|
                0 <= j < inp.len() ==> header_leq(#[trigger] inp[j], #[trigger] out[i]),
        forall|i: int|
            0 <= i < inp.len() && (forall|j: int|
                0 <= j < inp.len() ==> header_leq(#[trigger] inp[j], inp[i]))
                ==> seq_contains_header(out, #[trigger] inp[i]),
{
    assert forall|i: int| 0 <= i < out.len() implies forall|j: int|
        0 <= j < inp.len() ==> header_leq(#[trigger] inp[j], #[trigger] out[i]) by {
        let w = choose|w: int| 0 <= w < inp.len() && header_eq(inp[w], out[i]);
        assert forall|j: int| 0 <= j < inp.len() implies header_leq(#[trigger] inp[j], out[i]) by {
            assert(header_leq(inp[w], inp[j]) || header_leq(inp[j], inp[w]));
            if header_leq(inp[w], inp[j]) && !header_leq(inp[j], inp[w]) {
                crate::header::lemma_header_eq_order_congruence(out[i], inp[w], inp[j]);
                assert(header_lt(out[i], inp[j]));
                assert(!header_lt(out[i], inp[j]));
            }
            assert(header_leq(inp[j], inp[w]));
            crate::header::lemma_header_eq_order_congruence(inp[w], out[i], inp[j]);
        }
    }
    assert forall|i: int|
        0 <= i < inp.len() && (forall|j: int|
            0 <= j < inp.len() ==> header_leq(#[trigger] inp[j], inp[i]))
        implies seq_contains_header(out, inp[i]) by {
        assert forall|j: int| 0 <= j < inp.len() implies !header_lt(inp[i], #[trigger] inp[j]) by {
            assert(header_leq(inp[j], inp[i]));
        }
        assert(is_maximal_in(inp, inp[i]));
    }
}

/// Dominance with no comparable pair: when no header lies below another, the
/// filter returns the input unchanged.
pub proof fn lemma_dominance_all_incomparable(
    inp: Seq<DecisionModelHeader>,
    out: Seq<DecisionModelHeader>,
)
    requires
        dominance_post(inp, out),
        forall|i: int, j: int|
            0 <= i < inp.len() && 0 <= j < inp.len() && i != j ==> !header_leq(
                #[trigger] inp[i],
                #[trigger] inp[j],
            ),
    ensures
        out.len() == inp.len(),
        forall|i: int| 0 <= i < inp.len() ==> header_eq(#[trigger] out[i], inp[i]),
{
    assert forall|i: int| 0 <= i < inp.len() implies is_maximal_in(inp, #[trigger] inp[i]) by {
        assert forall|o: int| 0 <= o < inp.len() implies !header_lt(inp[i], inp[o]) by {
            if o != i {
                assert(!header_leq(inp[i], inp[o]));
            }
        }
    }
}

/// Dominance with a single dominator: when one header is strictly above
/// every other, the filter returns exactly that singleton.
pub proof fn lemma_dominance_single_dominator(
    inp: Seq<DecisionModelHeader>,
    out: Seq<DecisionModelHeader>,
    d: int,
)
    requires
        distinct_headers(inp),
        dominance_post(inp, out),
        0 <= d < inp.len(),
        forall|j: int| 0 <= j < inp.len() && j != d ==> header_lt(#[trigger] inp[j], inp[d]),
    ensures
        out.len() == 1,
        header_eq(out[0], inp[d]),
{
    assert(is_maximal_in(inp, inp[d])) by {
        assert forall|o: int| 0 <= o < inp.len() implies !header_lt(inp[d], inp[o]) by {
            if o != d {
                assert(header_lt(inp[o], inp[d]));
            }
        }
    }
    assert(seq_contains_header(out, inp[d]));
    assert forall|i: int| 0 <= i < out.len() implies header_eq(out[i], inp[d]) by {
        let w = choose|w: int| 0 <= w < inp.len() && header_eq(inp[w], out[i]);
        if w != d {
            assert(header_lt(inp[w], inp[d]));
            crate::header::lemma_header_eq_order_congruence(inp[w], out[i], inp[d]);
            assert(header_lt(out[i], inp[d]));
            assert(!header_lt(out[i], inp[d]));
        }
        assert(header_eq(inp[w], out[i]));
        assert(header_eq(out[i], inp[d]));
    }
    assert(out.len() >= 1) by {
        let w = choose|w: int| 0 <= w < out.len() && header_eq(out[w], inp[d]);
        assert(0 <= w < out.len());
    }
    if out.len() >= 2 {
        assert(header_eq(out[0], inp[d]));
        assert(header_eq(out[1], inp[d]));
        assert(header_eq(out[0], out[1]));
        assert(!header_eq(out[0], out[1]));
    }
}

} // verus!
