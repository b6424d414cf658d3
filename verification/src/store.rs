//! The accumulated header set and the header store's verified parts.
//!
//! The accumulated header set is the running, deduplicated collection of all
//! facts discovered in a run. It is seeded from the records recovered from
//! the run workspace's binary-record directory and only ever grows. The
//! record-name filter decides which directory entries the recovery scan
//! reads; the scan and the file reads themselves are unverified I/O that
//! hands the decoded records to [`load_decision_model_headers_from_binary`].

use vstd::prelude::*;

use crate::header::DecisionModelHeader;
use crate::header::header_eq;

verus! {

/// A sequence holds a header when some element has the same identity.
pub open spec fn seq_contains_header(s: Seq<DecisionModelHeader>, h: DecisionModelHeader) -> bool {
    exists|i: int| 0 <= i < s.len() && header_eq(s[i], h)
}

/// No two elements share an identity.
pub open spec fn distinct_headers(s: Seq<DecisionModelHeader>) -> bool {
    forall|i: int, j: int| 0 <= i < j < s.len() ==> !header_eq(s[i], s[j])
}

/// Membership by identity does not distinguish headers of the same identity.
pub proof fn lemma_contains_congruence(
    s: Seq<DecisionModelHeader>,
    a: DecisionModelHeader,
    b: DecisionModelHeader,
)
    requires
        header_eq(a, b),
    ensures
        seq_contains_header(s, a) == seq_contains_header(s, b),
{
    if seq_contains_header(s, a) {
        let i = choose|i: int| 0 <= i < s.len() && header_eq(s[i], a);
        assert(header_eq(s[i], b));
    }
    if seq_contains_header(s, b) {
        let i = choose|i: int| 0 <= i < s.len() && header_eq(s[i], b);
        assert(header_eq(s[i], a));
    }
}

/// The accumulated header set: deduplicated by content-based identity,
/// monotonically grown, never mutated element-wise.
pub struct HeaderSet {
    items: Vec<DecisionModelHeader>,
}

impl View for HeaderSet {
    type V = Seq<DecisionModelHeader>;

    closed spec fn view(&self) -> Seq<DecisionModelHeader> {
        self.items@
    }
}

impl HeaderSet {
    /// The set's invariant: its elements are pairwise distinct identities.
    pub open spec fn wf(&self) -> bool {
        distinct_headers(self@)
    }

    pub fn new() -> (r: HeaderSet)
        ensures
            r@ == Seq::<DecisionModelHeader>::empty(),
            r.wf(),
    {
        HeaderSet { items: Vec::new() }
    }

    pub fn len(&self) -> (r: usize)
        ensures
            r == self@.len(),
    {
        self.items.len()
    }

    /// Decides membership by content-based identity.
    pub fn contains(&self, h: &DecisionModelHeader) -> (r: bool)
        ensures
            r == seq_contains_header(self@, *h),
    {
        let mut i: usize = 0;
        while i < self.items.len()
            invariant
                i <= self.items.len(),
                forall|j: int| 0 <= j < i ==> !header_eq(self.items@[j], *h),
            decreases self.items.len() - i,
        {
            if self.items[i].same_identity(h) {
                return true;
            }
            i += 1;
        }
        false
    }

    /// Borrow one element.
    pub fn index(&self, i: usize) -> (r: &DecisionModelHeader)
        requires
            i < self@.len(),
        ensures
            *r == self@[i as int],
    {
        &self.items[i]
    }

    /// Inserts a header unless a header of the same identity is already
    /// present. Inserting an already-present identity leaves the set — and
    /// so its cardinality — unchanged; this is the set's idempotence.
    pub fn insert(&mut self, h: DecisionModelHeader) -> (added: bool)
        requires
            old(self).wf(),
        ensures
            final(self).wf(),
            added == !seq_contains_header(old(self)@, h),
            added ==> final(self)@ == old(self)@.push(h),
            !added ==> final(self)@ == old(self)@,
            forall|x: DecisionModelHeader| #![trigger seq_contains_header(final(self)@, x)]
                seq_contains_header(final(self)@, x) <==> seq_contains_header(old(self)@, x)
                    || header_eq(x, h),
    {
        if self.contains(&h) {
            proof {
                assert forall|x: DecisionModelHeader|
                    seq_contains_header(self@, x) <==> seq_contains_header(self@, x) || header_eq(
                        x,
                        h,
                    ) by {
                    if header_eq(x, h) {
                        let i = choose|i: int|
                            0 <= i < self@.len() && header_eq(self@[i], h);
                        assert(header_eq(self@[i], x));
                    }
                }
            }
            false
        } else {
            self.items.push(h);
            proof {
                assert forall|x: DecisionModelHeader|
                    seq_contains_header(self@, x) <==> seq_contains_header(old(self)@, x)
                        || header_eq(x, h) by {
                    if seq_contains_header(self@, x) {
                        let i = choose|i: int|
                            0 <= i < self@.len() && header_eq(self@[i], x);
                        if i < old(self)@.len() {
                            assert(seq_contains_header(old(self)@, x));
                        } else {
                            assert(header_eq(h, x));
                        }
                    }
                    if seq_contains_header(old(self)@, x) {
                        let i = choose|i: int|
                            0 <= i < old(self)@.len() && header_eq(old(self)@[i], x);
                        assert(header_eq(self@[i], x));
                    }
                    if header_eq(x, h) {
                        assert(header_eq(self@[old(self)@.len() as int], x));
                    }
                }
            }
            true
        }
    }

    /// Inserts a copy of every header of `hs`, reporting whether any of them
    /// was new.
    pub fn insert_all(&mut self, hs: &Vec<DecisionModelHeader>) -> (any_new: bool)
        requires
            old(self).wf(),
        ensures
            final(self).wf(),
            any_new == exists|i: int|
                0 <= i < hs@.len() && !seq_contains_header(old(self)@, hs@[i]),
            forall|x: DecisionModelHeader| #![trigger seq_contains_header(final(self)@, x)]
                seq_contains_header(final(self)@, x) <==> seq_contains_header(old(self)@, x)
                    || seq_contains_header(hs@, x),
            old(self)@.len() <= final(self)@.len(),
    {
        let mut any_new = false;
        let ghost all = hs@;
        let mut k: usize = 0;
        while k < hs.len()
            invariant
                k <= hs@.len(),
                hs@ == all,
                self.wf(),
                old(self)@.len() <= self@.len(),
                any_new == exists|i: int|
                    0 <= i < k && !seq_contains_header(old(self)@, all[i]),
                forall|x: DecisionModelHeader|
                    seq_contains_header(self@, x) <==> seq_contains_header(old(self)@, x)
                        || exists|i: int| 0 <= i < k && header_eq(all[i], x),
            decreases hs@.len() - k,
        {
            let h = hs[k].duplicate();
            let ghost prev = self@;
            let added = self.insert(h);
            proof {
                lemma_contains_congruence(prev, h, all[k as int]);
                lemma_contains_congruence(old(self)@, h, all[k as int]);
                assert forall|x: DecisionModelHeader|
                    seq_contains_header(self@, x) <==> seq_contains_header(old(self)@, x)
                        || exists|i: int| 0 <= i < k + 1 && header_eq(all[i], x) by {
                    if seq_contains_header(self@, x) {
                        if !seq_contains_header(prev, x) {
                            assert(header_eq(x, h));
                            assert(header_eq(all[k as int], x));
                        }
                    }
                    if exists|i: int| 0 <= i < k + 1 && header_eq(all[i], x) {
                        let i = choose|i: int| 0 <= i < k + 1 && header_eq(all[i], x);
                        if i == k {
                            assert(header_eq(x, h));
                            assert(seq_contains_header(self@, x));
                        } else {
                            assert(seq_contains_header(prev, x));
                        }
                    }
                }
                if !added {
                    // The identity was already present, so nothing up to and
                    // including index k is new relative to the start.
                    assert(seq_contains_header(prev, all[k as int]));
                    if !seq_contains_header(old(self)@, all[k as int]) {
                        let i = choose|i: int|
                            0 <= i < k && header_eq(all[i], all[k as int]);
                        lemma_contains_congruence(old(self)@, all[i], all[k as int]);
                        assert(!seq_contains_header(old(self)@, all[i]));
                    }
                }
            }
            if added {
                any_new = true;
            }
            k += 1;
        }
        proof {
            assert forall|x: DecisionModelHeader|
                seq_contains_header(self@, x) <==> seq_contains_header(old(self)@, x)
                    || seq_contains_header(all, x) by {
                if seq_contains_header(all, x) {
                    let i = choose|i: int| 0 <= i < all.len() && header_eq(all[i], x);
                    assert(0 <= i < k && header_eq(all[i], x));
                }
            }
        }
        any_new
    }
}

/// Builds the accumulated header set from the records recovered from the
/// binary-record directory: deduplicates by identity, keeps everything else.
/// Unreadable or malformed records were already dropped by the unverified
/// recovery scan, which is best-effort and never fatal.
pub fn load_decision_model_headers_from_binary(records: &Vec<DecisionModelHeader>) -> (r: HeaderSet)
    ensures
        r.wf(),
        forall|x: DecisionModelHeader|
            seq_contains_header(r@, x) <==> seq_contains_header(records@, x),
{
    let mut r = HeaderSet::new();
    r.insert_all(records);
    r
}

/// Whether a file name in the binary-record directory names a persisted
/// header record: it starts with `header` and its extension is `msgpack`,
/// compared without regard to ASCII case.
pub open spec fn is_header_record_name(name: Seq<char>) -> bool {
    &&& name.len() >= 14
    &&& name[0] == 'h'
    &&& name[1] == 'e'
    &&& name[2] == 'a'
    &&& name[3] == 'd'
    &&& name[4] == 'e'
    &&& name[5] == 'r'
    &&& name[name.len() - 8] == '.'
    &&& (name[name.len() - 7] == 'm' || name[name.len() - 7] == 'M')
    &&& (name[name.len() - 6] == 's' || name[name.len() - 6] == 'S')
    &&& (name[name.len() - 5] == 'g' || name[name.len() - 5] == 'G')
    &&& (name[name.len() - 4] == 'p' || name[name.len() - 4] == 'P')
    &&& (name[name.len() - 3] == 'a' || name[name.len() - 3] == 'A')
    &&& (name[name.len() - 2] == 'c' || name[name.len() - 2] == 'C')
    &&& (name[name.len() - 1] == 'k' || name[name.len() - 1] == 'K')
}

/// Decides whether a directory entry's file name is a header record the
/// recovery scan should read.
pub fn matches_header_record_name(name: &str) -> (r: bool)
    ensures
        r == is_header_record_name(name@),
{
    let n = name.unicode_len();
    if n < 14 {
        return false;
    }
    let c0 = name.get_char(0);
    let c1 = name.get_char(1);
    let c2 = name.get_char(2);
    let c3 = name.get_char(3);
    let c4 = name.get_char(4);
    let c5 = name.get_char(5);
    let d = name.get_char(n - 8);
    let e0 = name.get_char(n - 7);
    let e1 = name.get_char(n - 6);
    let e2 = name.get_char(n - 5);
    let e3 = name.get_char(n - 4);
    let e4 = name.get_char(n - 3);
    let e5 = name.get_char(n - 2);
    let e6 = name.get_char(n - 1);
    c0 == 'h' && c1 == 'e' && c2 == 'a' && c3 == 'd' && c4 == 'e' && c5 == 'r' && d == '.' && (e0
        == 'm' || e0 == 'M') && (e1 == 's' || e1 == 'S') && (e2 == 'g' || e2 == 'G') && (e3 == 'p'
        || e3 == 'P') && (e4 == 'a' || e4 == 'A') && (e5 == 'c' || e5 == 'C') && (e6 == 'k' || e6
        == 'K')
}

} // verus!
