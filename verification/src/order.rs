//! The order in which the calls of a transaction are arranged before they
//! are nested: by trace address, shorter addresses first, and among addresses
//! of equal length the lexicographically greater one first. Popping calls off
//! the end of a list in this order visits the deepest calls first and, among
//! siblings, the lowest index first.

use vstd::prelude::*;

verus! {

/// `i` is the first index at which `a` and `b` differ.
pub open spec fn first_difference_at(a: Seq<u32>, b: Seq<u32>, i: int) -> bool {
    &&& 0 <= i < a.len()
    &&& i < b.len()
    &&& a[i] != b[i]
    &&& forall|j: int| 0 <= j < i ==> a[j] == b[j]
}

/// At the first index where they differ, `a` holds the greater value.
pub open spec fn lex_greater(a: Seq<u32>, b: Seq<u32>) -> bool {
    exists|i: int| #[trigger] first_difference_at(a, b, i) && a[i] > b[i]
}

/// Trace address `a` comes strictly before trace address `b`.
pub open spec fn address_precedes(a: Seq<u32>, b: Seq<u32>) -> bool {
    a.len() < b.len() || (a.len() == b.len() && lex_greater(a, b))
}

/// The comparison that a pairwise comparator over trace addresses would
/// report as "less": `b` is longer, or they are equally long and `a` is
/// greater than `b` at some index.
pub open spec fn comparator_less(a: Seq<u32>, b: Seq<u32>) -> bool {
    b.len() > a.len() || (a.len() == b.len() && exists|i: int|
        0 <= i < a.len() && #[trigger] a[i] > #[trigger] b[i])
}

/// Whether trace address `a` comes strictly before trace address `b`.
pub fn trace_address_precedes(a: &Vec<u32>, b: &Vec<u32>) -> (r: bool)
    ensures
        r == address_precedes(a@, b@),
{
    if a.len() != b.len() {
        return a.len() < b.len();
    }
    let mut i: usize = 0;
    while i < a.len()
        invariant
            i <= a@.len(),
            a@.len() == b@.len(),
            forall|j: int| 0 <= j < i ==> a@[j] == b@[j],
        decreases a@.len() - i,
    {
        if a[i] != b[i] {
            assert(first_difference_at(a@, b@, i as int));
            if a[i] < b[i] {
                assert forall|k: int| #[trigger] first_difference_at(a@, b@, k) implies !(a@[k]
                    > b@[k]) by {
                    if k < i {
                    } else if k > i {
                    }
                }
            }
            return a[i] > b[i];
        }
        i = i + 1;
    }
    assert forall|k: int| #[trigger] first_difference_at(a@, b@, k) implies false by {}
    false
}

/// If `a` and `b` first differ at `i` and at `j`, then `i == j`.
pub proof fn lemma_first_difference_unique(a: Seq<u32>, b: Seq<u32>, i: int, j: int)
    requires
        first_difference_at(a, b, i),
        first_difference_at(a, b, j),
    ensures
        i == j,
{
    if i < j {
        assert(a[i] == b[i]);
    } else if j < i {
        assert(a[j] == b[j]);
    }
}

/// No trace address comes before itself.
pub proof fn lemma_precedes_irreflexive(a: Seq<u32>)
    ensures
        !address_precedes(a, a),
{
    assert forall|i: int| #[trigger] first_difference_at(a, a, i) implies false by {}
}

/// Of two trace addresses, at most one comes before the other.
pub proof fn lemma_precedes_asymmetric(a: Seq<u32>, b: Seq<u32>)
    requires
        address_precedes(a, b),
    ensures
        !address_precedes(b, a),
{
    if a.len() == b.len() {
        let i = choose|i: int| #[trigger] first_difference_at(a, b, i) && a[i] > b[i];
        assert forall|k: int| #[trigger] first_difference_at(b, a, k) implies !(b[k] > a[k]) by {
            assert(first_difference_at(a, b, k));
            lemma_first_difference_unique(a, b, i, k);
        }
    }
}

/// The order on trace addresses is transitive.
pub proof fn lemma_precedes_transitive(a: Seq<u32>, b: Seq<u32>, c: Seq<u32>)
    requires
        address_precedes(a, b),
        address_precedes(b, c),
    ensures
        address_precedes(a, c),
{
    if a.len() == b.len() && b.len() == c.len() {
        let i = choose|i: int| #[trigger] first_difference_at(a, b, i) && a[i] > b[i];
        let j = choose|j: int| #[trigger] first_difference_at(b, c, j) && b[j] > c[j];
        let k = if i < j {
            i
        } else {
            j
        };
        assert(first_difference_at(a, c, k) && a[k] > c[k]);
    }
}

/// Two different trace addresses are always ordered one way or the other.
pub proof fn lemma_precedes_total(a: Seq<u32>, b: Seq<u32>)
    requires
        a != b,
    ensures
        address_precedes(a, b) || address_precedes(b, a),
{
    if a.len() == b.len() {
        assert(!(a =~= b));
        let k = choose|k: int| 0 <= k < a.len() && a[k] != b[k];
        lemma_least_difference(a, b, k);
        let i = choose|i: int| first_difference_at(a, b, i);
        assert(first_difference_at(b, a, i));
    }
}

/// Two equally long sequences that differ somewhere differ first somewhere.
proof fn lemma_least_difference(a: Seq<u32>, b: Seq<u32>, k: int)
    requires
        a.len() == b.len(),
        0 <= k < a.len(),
        a[k] != b[k],
    ensures
        exists|i: int| first_difference_at(a, b, i),
    decreases k,
{
    if forall|j: int| 0 <= j < k ==> a[j] == b[j] {
        assert(first_difference_at(a, b, k));
    } else {
        let j = choose|j: int| 0 <= j < k && a[j] != b[j];
        lemma_least_difference(a, b, j);
    }
}

/// If neither of two addresses precedes the other, they are equal.
pub proof fn lemma_unordered_equal(a: Seq<u32>, b: Seq<u32>)
    requires
        !address_precedes(a, b),
        !address_precedes(b, a),
    ensures
        a == b,
{
    if a != b {
        lemma_precedes_total(a, b);
    }
}

/// If `a` comes before `c`, every `b` comes after `a` or before `c`.
pub proof fn lemma_precedes_split(a: Seq<u32>, b: Seq<u32>, c: Seq<u32>)
    requires
        address_precedes(a, c),
    ensures
        address_precedes(a, b) || address_precedes(b, c),
{
    if !address_precedes(a, b) && !address_precedes(b, c) {
        if a == b {
        } else {
            lemma_precedes_total(a, b);
            if b == c {
                lemma_precedes_asymmetric(a, c);
            } else {
                lemma_precedes_total(b, c);
                lemma_precedes_transitive(c, b, a);
                lemma_precedes_asymmetric(a, c);
            }
        }
    }
}

/// Wherever the pairwise comparator gives a consistent answer for two
/// different addresses (it does not call each "less" than the other), the
/// address order agrees with it.
pub proof fn lemma_order_agrees_with_comparator(a: Seq<u32>, b: Seq<u32>)
    requires
        a != b,
        !(comparator_less(a, b) && comparator_less(b, a)),
    ensures
        address_precedes(a, b) == comparator_less(a, b),
{
    if a.len() == b.len() {
        if comparator_less(a, b) {
            lemma_precedes_total(a, b);
            if !address_precedes(a, b) {
                let i = choose|i: int| #[trigger] first_difference_at(b, a, i) && b[i] > a[i];
                assert(comparator_less(b, a));
            }
        } else {
            assert forall|i: int| #[trigger] first_difference_at(a, b, i) implies !(a[i]
                > b[i]) by {
                if a[i] > b[i] {
                    assert(comparator_less(a, b));
                }
            }
        }
    }
}

} // verus!
