//! The fixpoint engine: drives repeated identification rounds until a round
//! contributes no header that was not already known.
//!
//! The engine itself is a state machine over plain values. Per round, the
//! unverified outer loop launches every module as a subprocess, collects the
//! headers each of them returned, and hands the whole round's results to
//! [`IdentificationFixpoint::round`]. The engine unions them into the
//! accumulated set and decides convergence; rounds are strictly sequential.

use vstd::prelude::*;

use crate::header::DecisionModelHeader;
use crate::header::header_eq;
use crate::store::HeaderSet;
use crate::store::seq_contains_header;

verus! {

/// Some module's result in this round holds `h`.
pub open spec fn round_contains_header(
    results: Seq<Vec<DecisionModelHeader>>,
    h: DecisionModelHeader,
) -> bool {
    exists|m: int| 0 <= m < results.len() && seq_contains_header(results[m]@, h)
}

/// Every header any module returned this round was already accumulated.
pub open spec fn round_is_stale(
    results: Seq<Vec<DecisionModelHeader>>,
    known: Seq<DecisionModelHeader>,
) -> bool {
    forall|h: DecisionModelHeader| round_contains_header(results, h) ==> seq_contains_header(
        known,
        h,
    )
}

/// The fixpoint engine's state: the accumulated header set, the step number
/// the next round will be invoked with, and whether the run has converged.
pub struct IdentificationFixpoint {
    identified: HeaderSet,
    step: i32,
    converged: bool,
}

impl IdentificationFixpoint {
    pub closed spec fn headers(&self) -> Seq<DecisionModelHeader> {
        self.identified@
    }

    pub closed spec fn step_number(&self) -> int {
        self.step as int
    }

    pub closed spec fn is_converged(&self) -> bool {
        self.converged
    }

    /// The engine's invariant: the accumulated set is deduplicated and the
    /// step counter never goes below zero.
    pub closed spec fn wf(&self) -> bool {
        &&& self.identified.wf()
        &&& 0 <= self.step_number()
    }

    /// Seeds the engine from the headers recovered from the header store.
    /// The starting step number is the count of recovered facts — a
    /// resumption heuristic, not a guaranteed protocol.
    pub fn new(seed: HeaderSet) -> (r: IdentificationFixpoint)
        requires
            seed.wf(),
            seed@.len() <= i32::MAX,
        ensures
            r.wf(),
            r.headers() == seed@,
            r.step_number() == seed@.len(),
            !r.is_converged(),
    {
        let step = seed.len() as i32;
        IdentificationFixpoint { identified: seed, step, converged: false }
    }

    /// The step number the next round's invocations carry.
    pub fn current_step(&self) -> (r: i32)
        ensures
            r == self.step_number(),
    {
        self.step
    }

    pub fn has_converged(&self) -> (r: bool)
        ensures
            r == self.is_converged(),
    {
        self.converged
    }

    pub fn known_count(&self) -> (r: usize)
        ensures
            r == self.headers().len(),
    {
        self.identified.len()
    }

    /// Consumes one round: unions every module's returned headers into the
    /// accumulated set, and converges exactly when the round contributed no
    /// header that was not already present before the round began. The step
    /// number advances by one either way. A round with no module results
    /// (zero discovered modules) trivially converges.
    pub fn round(&mut self, results: &Vec<Vec<DecisionModelHeader>>)
        requires
            old(self).wf(),
            !old(self).is_converged(),
            old(self).step_number() < i32::MAX,
        ensures
            final(self).wf(),
            final(self).step_number() == old(self).step_number() + 1,
            final(self).is_converged() == round_is_stale(results@, old(self).headers()),
            forall|x: DecisionModelHeader|
                seq_contains_header(final(self).headers(), x) <==> seq_contains_header(
                    old(self).headers(),
                    x,
                ) || round_contains_header(results@, x),
            final(self).headers().len() >= old(self).headers().len(),
    {
        let ghost before = self.identified@;
        let mut any_new = false;
        let ghost all = results@;
        let mut m: usize = 0;
        while m < results.len()
            invariant
                m <= results@.len(),
                results@ == all,
                self.identified.wf(),
                self.step == old(self).step,
                self.converged == old(self).converged,
                before.len() <= self.identified@.len(),
                any_new == exists|i: int, h: DecisionModelHeader|
                    0 <= i < m && seq_contains_header(all[i]@, h) && !seq_contains_header(
                        before,
                        h,
                    ),
                forall|x: DecisionModelHeader| #![trigger seq_contains_header(
                    self.identified@,
                    x,
                )]
                    seq_contains_header(self.identified@, x) <==> seq_contains_header(before, x)
                        || exists|i: int| 0 <= i < m && seq_contains_header(all[i]@, x),
            decreases results@.len() - m,
        {
            let ghost pre = self.identified@;
            let added = self.identified.insert_all(&results[m]);
            proof {
                assert forall|x: DecisionModelHeader| #![trigger seq_contains_header(
                    self.identified@,
                    x,
                )]
                    seq_contains_header(self.identified@, x) <==> seq_contains_header(before, x)
                        || exists|i: int| 0 <= i < m + 1 && seq_contains_header(all[i]@, x) by {
                    assert(seq_contains_header(self.identified@, x) == (seq_contains_header(
                        pre,
                        x,
                    ) || seq_contains_header(all[m as int]@, x)));
                    if seq_contains_header(self.identified@, x) {
                        if seq_contains_header(pre, x) {
                            if !seq_contains_header(before, x) {
                                let i = choose|i: int|
                                    0 <= i < m && seq_contains_header(all[i]@, x);
                                assert(0 <= i < m + 1 && seq_contains_header(all[i]@, x));
                            }
                        } else {
                            assert(seq_contains_header(all[m as int]@, x));
                            assert(0 <= m < m + 1 && seq_contains_header(all[m as int]@, x));
                        }
                    }
                    if seq_contains_header(before, x) {
                        assert(seq_contains_header(pre, x));
                        assert(seq_contains_header(self.identified@, x));
                    }
                    if exists|i: int| 0 <= i < m + 1 && seq_contains_header(all[i]@, x) {
                        let i = choose|i: int| 0 <= i < m + 1 && seq_contains_header(all[i]@, x);
                        if i == m {
                            assert(seq_contains_header(self.identified@, x));
                        } else {
                            assert(0 <= i < m && seq_contains_header(all[i]@, x));
                            assert(seq_contains_header(pre, x));
                            assert(seq_contains_header(self.identified@, x));
                        }
                    }
                }
                if added {
                    let i = choose|i: int|
                        0 <= i < all[m as int]@.len() && !seq_contains_header(
                            pre,
                            all[m as int]@[i],
                        );
                    let h = all[m as int]@[i];
                    assert(seq_contains_header(all[m as int]@, h)) by {
                        assert(header_eq(all[m as int]@[i], h));
                    }
                    assert(!seq_contains_header(before, h));
                } else {
                    assert forall|h: DecisionModelHeader|
                        seq_contains_header(all[m as int]@, h) && !seq_contains_header(
                            before,
                            h,
                        ) implies exists|i: int|
                        0 <= i < m && seq_contains_header(all[i]@, h) by {
                        let j = choose|j: int|
                            0 <= j < all[m as int]@.len() && header_eq(all[m as int]@[j], h);
                        assert(seq_contains_header(pre, all[m as int]@[j]));
                        crate::store::lemma_contains_congruence(pre, all[m as int]@[j], h);
                        assert(seq_contains_header(pre, h));
                    }
                }
            }
            if added {
                any_new = true;
            }
            m += 1;
        }
        proof {
            if any_new {
                let (i, h) = choose|i: int, h: DecisionModelHeader|
                    0 <= i < all.len() && seq_contains_header(all[i]@, h) && !seq_contains_header(
                        before,
                        h,
                    );
                assert(round_contains_header(all, h));
                assert(!round_is_stale(all, before));
            } else {
                assert forall|h: DecisionModelHeader|
                    round_contains_header(all, h) implies seq_contains_header(before, h) by {
                    let i = choose|i: int| 0 <= i < all.len() && seq_contains_header(all[i]@, h);
                    if !seq_contains_header(before, h) {
                        assert(0 <= i < all.len() && seq_contains_header(all[i]@, h)
                            && !seq_contains_header(before, h));
                        assert(false);
                    }
                }
            }
        }
        self.converged = !any_new;
        self.step = self.step + 1;
    }

    /// On convergence, the engine's output is the full accumulated set.
    pub fn into_headers(self) -> (r: HeaderSet)
        requires
            self.is_converged(),
        ensures
            r@ == self.headers(),
    {
        self.identified
    }
}

/// Runs the whole identification fixpoint over a finite script of round
/// results: `rounds[r][m]` holds what module `m` returned in the `r`-th round
/// after the seed, and once the script is exhausted every module returns
/// nothing — the termination assumption the engine's convergence rests on,
/// made explicit. This is the fixpoint driver with the per-round subprocess
/// work abstracted into data; the unverified orchestration runs the same
/// engine against live subprocess results instead.
///
/// It terminates on every input, and the set it returns holds exactly the
/// seed and every header of the rounds consumed before convergence; the round
/// that triggered convergence contributed nothing that is not in the result.
pub fn identification_procedure(seed: HeaderSet, rounds: &Vec<Vec<Vec<DecisionModelHeader>>>) -> (r:
    (HeaderSet, i32))
    requires
        seed.wf(),
        seed@.len() + rounds@.len() + 1 <= i32::MAX,
    ensures
        r.0.wf(),
        seed@.len() + 1 <= r.1 <= seed@.len() + rounds@.len() + 1,
        forall|x: DecisionModelHeader| #![trigger seq_contains_header(r.0@, x)]
            seq_contains_header(r.0@, x) <==> seq_contains_header(seed@, x) || exists|j: int|
                0 <= j < r.1 - seed@.len() && j < rounds@.len() && round_contains_header(
                    rounds@[j]@,
                    x,
                ),
        r.1 - seed@.len() <= rounds@.len() ==> round_is_stale(
            rounds@[r.1 - seed@.len() - 1]@,
            r.0@,
        ),
{
    let ghost seed_view = seed@;
    let ghost seed_len = seed@.len();
    let mut engine = IdentificationFixpoint::new(seed);
    let mut k: usize = 0;
    while !engine.has_converged() && k < rounds.len()
        invariant
            engine.wf(),
            k <= rounds@.len(),
            seed_len + rounds@.len() + 1 <= i32::MAX,
            engine.step_number() == seed_len + k,
            forall|x: DecisionModelHeader| #![trigger seq_contains_header(engine.headers(), x)]
                seq_contains_header(engine.headers(), x) <==> seq_contains_header(seed_view, x)
                    || exists|j: int| 0 <= j < k && round_contains_header(rounds@[j]@, x),
            engine.is_converged() ==> k >= 1 && round_is_stale(
                rounds@[k - 1]@,
                engine.headers(),
            ),
        decreases rounds@.len() - k,
    {
        let ghost pre = engine.headers();
        engine.round(&rounds[k]);
        proof {
            assert forall|x: DecisionModelHeader|
                #![trigger seq_contains_header(engine.headers(), x)]
                seq_contains_header(engine.headers(), x) <==> seq_contains_header(seed_view, x)
                    || exists|j: int|
                    0 <= j < k + 1 && round_contains_header(rounds@[j]@, x) by {
                if seq_contains_header(engine.headers(), x) {
                    if seq_contains_header(pre, x) {
                        if !seq_contains_header(seed_view, x) {
                            let j = choose|j: int|
                                0 <= j < k && round_contains_header(rounds@[j]@, x);
                            assert(0 <= j < k + 1 && round_contains_header(rounds@[j]@, x));
                        }
                    } else {
                        assert(round_contains_header(rounds@[k as int]@, x));
                        assert(0 <= k < k + 1 && round_contains_header(rounds@[k as int]@, x));
                    }
                }
                if seq_contains_header(seed_view, x) {
                    assert(seq_contains_header(pre, x));
                }
                if exists|j: int| 0 <= j < k + 1 && round_contains_header(rounds@[j]@, x) {
                    let j = choose|j: int|
                        0 <= j < k + 1 && round_contains_header(rounds@[j]@, x);
                    if j == k {
                        assert(seq_contains_header(engine.headers(), x));
                    } else {
                        assert(0 <= j < k && round_contains_header(rounds@[j]@, x));
                        assert(seq_contains_header(pre, x));
                    }
                }
            }
            if engine.is_converged() {
                // The converging round was stale for the set before it, and
                // stale rounds leave the set unchanged, so it is stale for
                // the final set as well.
                assert(round_is_stale(rounds@[k as int]@, pre));
                assert forall|h: DecisionModelHeader|
                    round_contains_header(rounds@[k as int]@, h) implies seq_contains_header(
                    engine.headers(),
                    h,
                ) by {
                    assert(seq_contains_header(pre, h));
                }
            }
        }
        k += 1;
    }
    let ghost consumed = k as int;
    if !engine.has_converged() {
        // The script is exhausted: from here on every module returns no new
        // facts, so one more round converges trivially.
        let ghost pre_last = engine.headers();
        let empty_round: Vec<Vec<DecisionModelHeader>> = Vec::new();
        engine.round(&empty_round);
        proof {
            assert forall|x: DecisionModelHeader|
                #![trigger seq_contains_header(engine.headers(), x)]
                seq_contains_header(engine.headers(), x) <==> seq_contains_header(seed_view, x)
                    || exists|j: int|
                    0 <= j < consumed && round_contains_header(rounds@[j]@, x) by {
                assert(!round_contains_header(empty_round@, x));
                assert(seq_contains_header(engine.headers(), x) == (seq_contains_header(
                    pre_last,
                    x,
                ) || round_contains_header(empty_round@, x)));
                assert(seq_contains_header(pre_last, x) <==> seq_contains_header(seed_view, x)
                    || exists|j: int| 0 <= j < consumed && round_contains_header(rounds@[j]@, x));
            }
        }
    }
    let step = engine.current_step();
    proof {
        assert(consumed <= rounds@.len());
        assert(step - seed_len == consumed || (step - seed_len == consumed + 1 && consumed
            == rounds@.len()));
        assert forall|x: DecisionModelHeader|
            #![trigger seq_contains_header(engine.headers(), x)]
            seq_contains_header(engine.headers(), x) <==> seq_contains_header(seed_view, x)
                || exists|j: int|
                0 <= j < step - seed_len && j < rounds@.len() && round_contains_header(
                    rounds@[j]@,
                    x,
                ) by {
            if seq_contains_header(engine.headers(), x) && !seq_contains_header(seed_view, x) {
                let j = choose|j: int| 0 <= j < consumed && round_contains_header(rounds@[j]@, x);
                assert(0 <= j < step - seed_len && j < rounds@.len() && round_contains_header(
                    rounds@[j]@,
                    x,
                ));
            }
            if exists|j: int|
                0 <= j < step - seed_len && j < rounds@.len() && round_contains_header(
                    rounds@[j]@,
                    x,
                ) {
                let j = choose|j: int|
                    0 <= j < step - seed_len && j < rounds@.len() && round_contains_header(
                        rounds@[j]@,
                        x,
                    );
                assert(0 <= j < consumed && round_contains_header(rounds@[j]@, x));
            }
        }
    }
    let headers = engine.into_headers();
    (headers, step)
}

} // verus!
