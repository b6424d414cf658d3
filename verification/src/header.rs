//! The decision-model header: the identity- and order-bearing fact record
//! exchanged between identification modules and the orchestrator.
//!
//! A header carries a category and the set of design elements it covers.
//! Identity (used for deduplication) is content-based: two headers are the
//! same fact when category and covered-element list agree. The partial order
//! used by the dominance filter compares headers of the same category by
//! inclusion of their covered elements; headers of different categories are
//! incomparable.

use vstd::prelude::*;

verus! {

/// One identified fact, as produced by an identification module.
#[derive(Eq, Hash)]
pub struct DecisionModelHeader {
    pub category: u64,
    pub covered_elements: Vec<u64>,
}

impl PartialEq for DecisionModelHeader {
    fn eq(&self, other: &DecisionModelHeader) -> (r: bool) {
        self.category == other.category && vec_u64_eq(
            &self.covered_elements,
            &other.covered_elements,
        )
    }
}

impl vstd::std_specs::cmp::PartialEqSpecImpl for DecisionModelHeader {
    open spec fn obeys_eq_spec() -> bool {
        true
    }

    open spec fn eq_spec(&self, other: &DecisionModelHeader) -> bool {
        header_eq(*self, *other)
    }
}

/// Content-based identity: same category and the same covered-element list.
pub open spec fn header_eq(a: DecisionModelHeader, b: DecisionModelHeader) -> bool {
    a.category == b.category && a.covered_elements@ == b.covered_elements@
}

/// `a` is below `b` in the domain order: same category, and every element
/// covered by `a` is covered by `b`.
pub open spec fn header_leq(a: DecisionModelHeader, b: DecisionModelHeader) -> bool {
    &&& a.category == b.category
    &&& forall|x: u64|
        a.covered_elements@.contains(x) ==> b.covered_elements@.contains(x)
}

/// `a` is strictly dominated by `b`.
pub open spec fn header_lt(a: DecisionModelHeader, b: DecisionModelHeader) -> bool {
    header_leq(a, b) && !header_leq(b, a)
}

/// Outcome of comparing two headers under the domain's partial order.
pub enum HeaderOrdering {
    Less,
    Equal,
    Greater,
    Incomparable,
}

/// The order only reads category and covered elements, so headers with the
/// same identity stand in the same order relations.
pub proof fn lemma_header_eq_order_congruence(
    a: DecisionModelHeader,
    b: DecisionModelHeader,
    c: DecisionModelHeader,
)
    requires
        header_eq(a, b),
    ensures
        header_leq(a, c) == header_leq(b, c),
        header_leq(c, a) == header_leq(c, b),
        header_lt(a, c) == header_lt(b, c),
        header_lt(c, a) == header_lt(c, b),
{
}

fn vec_u64_eq(a: &Vec<u64>, b: &Vec<u64>) -> (r: bool)
    ensures
        r == (a@ == b@),
{
    if a.len() != b.len() {
        proof {
            assert(a@.len() != b@.len());
        }
        return false;
    }
    let mut i: usize = 0;
    while i < a.len()
        invariant
            i <= a.len(),
            a@.len() == b@.len(),
            forall|j: int| 0 <= j < i ==> a@[j] == b@[j],
        decreases a.len() - i,
    {
        if a[i] != b[i] {
            return false;
        }
        i += 1;
    }
    proof {
        assert(a@ =~= b@);
    }
    true
}

fn vec_u64_contains(v: &Vec<u64>, x: u64) -> (r: bool)
    ensures
        r == v@.contains(x),
{
    let mut i: usize = 0;
    while i < v.len()
        invariant
            i <= v.len(),
            forall|j: int| 0 <= j < i ==> v@[j] != x,
        decreases v.len() - i,
    {
        if v[i] == x {
            return true;
        }
        i += 1;
    }
    false
}

fn vec_u64_included(a: &Vec<u64>, b: &Vec<u64>) -> (r: bool)
    ensures
        r == forall|x: u64| a@.contains(x) ==> b@.contains(x),
{
    let mut i: usize = 0;
    while i < a.len()
        invariant
            i <= a.len(),
            forall|j: int| 0 <= j < i ==> b@.contains(#[trigger] a@[j]),
        decreases a.len() - i,
    {
        if !vec_u64_contains(b, a[i]) {
            return false;
        }
        i += 1;
    }
    true
}

impl DecisionModelHeader {
    /// Decides content-based identity, the relation headers are
    /// deduplicated by.
    pub fn same_identity(&self, other: &DecisionModelHeader) -> (r: bool)
        ensures
            r == header_eq(*self, *other),
    {
        self.category == other.category && vec_u64_eq(&self.covered_elements, &other.covered_elements)
    }

    /// A copy of this header with the same identity.
    pub fn duplicate(&self) -> (r: DecisionModelHeader)
        ensures
            header_eq(r, *self),
    {
        let mut covered: Vec<u64> = Vec::new();
        let mut i: usize = 0;
        while i < self.covered_elements.len()
            invariant
                i <= self.covered_elements.len(),
                covered@ == self.covered_elements@.subrange(0, i as int),
            decreases self.covered_elements.len() - i,
        {
            covered.push(self.covered_elements[i]);
            proof {
                assert(covered@ =~= self.covered_elements@.subrange(0, i + 1));
            }
            i += 1;
        }
        proof {
            assert(covered@ =~= self.covered_elements@);
        }
        DecisionModelHeader { category: self.category, covered_elements: covered }
    }

    /// Compares two headers under the domain's partial order: inclusion of
    /// covered elements within one category, incomparable across categories.
    pub fn partial_compare(&self, other: &DecisionModelHeader) -> (r: HeaderOrdering)
        ensures
            r is Equal <==> header_leq(*self, *other) && header_leq(*other, *self),
            r is Less <==> header_lt(*self, *other),
            r is Greater <==> header_lt(*other, *self),
            r is Incomparable <==> !header_leq(*self, *other) && !header_leq(*other, *self),
    {
        if self.category != other.category {
            return HeaderOrdering::Incomparable;
        }
        let below = vec_u64_included(&self.covered_elements, &other.covered_elements);
        let above = vec_u64_included(&other.covered_elements, &self.covered_elements);
        if below && above {
            HeaderOrdering::Equal
        } else if below {
            HeaderOrdering::Less
        } else if above {
            HeaderOrdering::Greater
        } else {
            HeaderOrdering::Incomparable
        }
    }
}

} // verus!
