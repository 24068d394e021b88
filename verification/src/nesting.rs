//! Turning the flat call list of one transaction into the nested
//! `callTracer` tree: order the calls by trace address, then pop them off the
//! end one by one and hang each under the first call whose address is its
//! parent address.

use vstd::prelude::*;

use crate::calls::{call_view, views, Call, CallTracerCallView, CallView};
use crate::order::{
    address_precedes, first_difference_at, lex_greater, lemma_precedes_asymmetric, lemma_precedes_irreflexive,
    lemma_precedes_split, trace_address_precedes,
};

verus! {

// ---------------------------------------------------------------------------
// Specification
// ---------------------------------------------------------------------------

/// The trace address of a call; empty where it has none.
pub open spec fn address_of(c: CallView) -> Seq<u32> {
    match c {
        CallView::CallTracer(t) => match t.trace_address {
            Some(a) => a,
            None => Seq::empty(),
        },
        CallView::Explorer(_) => Seq::empty(),
    }
}

/// The call is a `callTracer` call that still carries its trace address.
pub open spec fn has_trace_address(c: CallView) -> bool {
    c matches CallView::CallTracer(t) && t.trace_address is Some
}

/// Every call of the sequence carries a trace address.
pub open spec fn all_have_trace_address(s: Seq<CallView>) -> bool {
    forall|i: int| 0 <= i < s.len() ==> #[trigger] has_trace_address(s[i])
}

/// Call `x` comes strictly before call `y` in nesting order.
pub open spec fn call_precedes(x: CallView, y: CallView) -> bool {
    address_precedes(address_of(x), address_of(y))
}

/// No call of the sequence comes strictly before an earlier one.
pub open spec fn in_nesting_order(s: Seq<CallView>) -> bool {
    forall|i: int, j: int| 0 <= i < j < s.len() ==> !call_precedes(#[trigger] s[j], #[trigger] s[i])
}

/// Where `x` goes into the ordered sequence `s`: after every call that does
/// not come after it.
pub open spec fn insertion_index(s: Seq<CallView>, x: CallView) -> int
    decreases s.len(),
{
    if s.len() == 0 {
        0
    } else if call_precedes(x, s.last()) {
        insertion_index(s.drop_last(), x)
    } else {
        s.len() as int
    }
}

/// `s` with `x` inserted at its place.
pub open spec fn insert_in_order(s: Seq<CallView>, x: CallView) -> Seq<CallView> {
    s.insert(insertion_index(s, x), x)
}

/// `s` in nesting order; calls with equal addresses keep their relative
/// order.
pub open spec fn sorted_calls(s: Seq<CallView>) -> Seq<CallView>
    decreases s.len(),
{
    if s.len() == 0 {
        s
    } else {
        insert_in_order(sorted_calls(s.drop_last()), s.last())
    }
}

/// `i` is the first index in `s` of a call whose address is the parent
/// address (all but the last index) of `child`.
pub open spec fn is_first_parent(s: Seq<CallView>, child: Seq<u32>, i: int) -> bool {
    &&& 0 <= i < s.len()
    &&& address_of(s[i]) == child.drop_last()
    &&& forall|j: int| 0 <= j < i ==> address_of(#[trigger] s[j]) != child.drop_last()
}

/// The index of the first call in `s` whose address is the parent address of
/// `child`, if any.
pub open spec fn parent_index(s: Seq<CallView>, child: Seq<u32>) -> Option<int> {
    if exists|i: int| is_first_parent(s, child, i) {
        Some(choose|i: int| is_first_parent(s, child, i))
    } else {
        None
    }
}

/// The call with its trace address removed.
pub open spec fn without_address(c: CallView) -> CallView {
    match c {
        CallView::CallTracer(t) => CallView::CallTracer(
            CallTracerCallView { trace_address: None, ..t },
        ),
        CallView::Explorer(e) => CallView::Explorer(e),
    }
}

/// `parent` with `child` appended to its sub-calls.
pub open spec fn with_child(parent: CallView, child: CallView) -> CallView {
    match parent {
        CallView::CallTracer(t) => CallView::CallTracer(
            CallTracerCallView { calls: t.calls.push(child), ..t },
        ),
        CallView::Explorer(e) => CallView::Explorer(e),
    }
}

/// The stack after its last call has been taken off: hung, without its
/// address, under its first parent if there is one, dropped otherwise.
pub open spec fn nest_last(s: Seq<CallView>) -> Seq<CallView> {
    let cur = s.last();
    let rest = s.drop_last();
    match parent_index(rest, address_of(cur)) {
        Some(i) => rest.update(i, with_child(rest[i], without_address(cur))),
        None => rest,
    }
}

/// Nesting the stack: take off its last call while more than one is left.
pub open spec fn nest_stack(s: Seq<CallView>) -> Seq<CallView>
    decreases s.len(),
{
    if s.len() <= 1 {
        s
    } else {
        nest_stack(nest_last(s))
    }
}

/// Every call that a lookup of the parent of `child` reaches, scanning from
/// the front up to the first parent, carries a trace address.
pub open spec fn lookup_reaches_addressed(s: Seq<CallView>, child: Seq<u32>) -> bool {
    forall|i: int|
        0 <= i < s.len() && (forall|j: int| 0 <= j < i ==> address_of(#[trigger] s[j]) != child.drop_last())
            ==> has_trace_address(#[trigger] s[i])
}

/// Every call of the stack but the first carries a non-empty address.
pub open spec fn tail_addresses_non_empty(s: Seq<CallView>) -> bool {
    forall|i: int| 1 <= i < s.len() ==> address_of(#[trigger] s[i]).len() > 0
}

// ---------------------------------------------------------------------------
// Implementation
// ---------------------------------------------------------------------------

/// The trace address of a `callTracer` call that has one.
fn trace_address_ref(c: &Call) -> (a: &Vec<u32>)
    requires
        has_trace_address(call_view(*c)),
    ensures
        a@ == address_of(call_view(*c)),
{
    match c {
        Call::CallTracer(t) => match &t.trace_address {
            Some(a) => a,
            None => unreached(),
        },
        Call::Explorer(_) => unreached(),
    }
}

/// Where `item` goes into the ordered list `sorted`.
fn insertion_point(sorted: &Vec<Call>, item: &Call) -> (pos: usize)
    requires
        all_have_trace_address(views(sorted@)),
        has_trace_address(call_view(*item)),
    ensures
        pos as int == insertion_index(views(sorted@), call_view(*item)),
{
    let ghost vs = views(sorted@);
    let ghost x = call_view(*item);
    let a = trace_address_ref(item);
    let mut j = sorted.len();
    assert(vs.take(j as int) =~= vs);
    while j > 0
        invariant
            j <= sorted@.len(),
            vs == views(sorted@),
            x == call_view(*item),
            a@ == address_of(x),
            all_have_trace_address(vs),
            insertion_index(vs.take(j as int), x) == insertion_index(vs, x),
        decreases j,
    {
        assert(has_trace_address(vs[j - 1]));
        let prev = trace_address_ref(&sorted[j - 1]);
        assert(vs.take(j as int).last() == vs[j - 1]);
        assert(vs.take(j as int).drop_last() =~= vs.take(j - 1));
        if !trace_address_precedes(a, prev) {
            return j;
        }
        j = j - 1;
    }
    assert(vs.take(0).len() == 0);
    0
}

/// Arranges the calls in nesting order: shorter trace addresses first, and
/// among addresses of equal length the lexicographically greater first.
/// Calls with equal addresses keep their relative order.
pub fn sort_calls(result: &mut Vec<Call>)
    requires
        old(result)@.len() > 1 ==> all_have_trace_address(views(old(result)@)),
    ensures
        views(final(result)@) == sorted_calls(views(old(result)@)),
{
    let ghost original = views(result@);
    if result.len() <= 1 {
        proof {
            if original.len() == 1 {
                let e = original.drop_last();
                assert(e =~= Seq::<CallView>::empty());
                assert(sorted_calls(e) == e);
                assert(insertion_index(e, original.last()) == 0);
                assert(e.insert(0, original.last()) =~= original);
                assert(sorted_calls(original) == insert_in_order(e, original.last()));
            }
        }
        return;
    }
    let mut items: Vec<Call> = Vec::new();
    std::mem::swap(result, &mut items);
    let ghost items_seq = items@;
    assert(views(items_seq) == original);
    let mut sorted: Vec<Call> = Vec::new();
    for item in it: items.into_iter()
        invariant
            it.seq() == items_seq,
            views(items_seq) == original,
            all_have_trace_address(original),
            views(sorted@) == sorted_calls(original.take(it.index() as int)),
            all_have_trace_address(views(sorted@)),
    {
        let ghost k = it.index() as int;
        let ghost before = views(sorted@);
        assert(original[k] == call_view(item));
        let pos = insertion_point(&sorted, &item);
        proof {
            lemma_insertion_index_bounds(before, call_view(item));
        }
        sorted.insert(pos, item);
        proof {
            assert(original.take(k + 1).drop_last() =~= original.take(k));
            assert(original.take(k + 1).last() == original[k]);
            assert(views(sorted@) =~= before.insert(pos as int, call_view(item)));
            assert forall|i: int| 0 <= i < views(sorted@).len() implies #[trigger] has_trace_address(
                views(sorted@)[i],
            ) by {
                if i < pos {
                    assert(views(sorted@)[i] == before[i]);
                } else if i > pos {
                    assert(views(sorted@)[i] == before[i - 1]);
                }
            }
        }
    }
    proof {
        assert(original.take(original.len() as int) =~= original);
    }
    *result = sorted;
}

/// Whether `parent` is the parent address (all but the last index) of
/// `child`.
fn is_parent_address(parent: &Vec<u32>, child: &Vec<u32>) -> (r: bool)
    requires
        child@.len() > 0,
    ensures
        r == (parent@ == child@.drop_last()),
{
    let n = child.len() - 1;
    if parent.len() != n {
        return false;
    }
    let mut i: usize = 0;
    while i < n
        invariant
            n == child@.len() - 1,
            parent@.len() == n,
            i <= n,
            forall|j: int| 0 <= j < i ==> parent@[j] == child@[j],
        decreases n - i,
    {
        if parent[i] != child[i] {
            assert(parent@[i as int] != child@.drop_last()[i as int]);
            return false;
        }
        i = i + 1;
    }
    assert(parent@ =~= child@.drop_last());
    true
}

/// The index of the first call in `call_list` whose trace address is the
/// parent address of `last_call`'s.
pub fn find_parent_index(last_call: &Call, call_list: &Vec<Call>) -> (r: Option<usize>)
    requires
        call_list@.len() > 0 ==> has_trace_address(call_view(*last_call)) && address_of(
            call_view(*last_call),
        ).len() > 0,
        lookup_reaches_addressed(views(call_list@), address_of(call_view(*last_call))),
    ensures
        match r {
            Some(i) => parent_index(views(call_list@), address_of(call_view(*last_call))) == Some(
                i as int,
            ),
            None => parent_index(views(call_list@), address_of(call_view(*last_call))) is None,
        },
{
    let ghost vs = views(call_list@);
    let ghost child = address_of(call_view(*last_call));
    if call_list.len() == 0 {
        proof {
            assert forall|k: int| !is_first_parent(vs, child, k) by {}
        }
        return None;
    }
    let last_address = trace_address_ref(last_call);
    let mut i: usize = 0;
    while i < call_list.len()
        invariant
            vs == views(call_list@),
            child == address_of(call_view(*last_call)),
            last_address@ == child,
            child.len() > 0,
            lookup_reaches_addressed(vs, child),
            i <= call_list@.len(),
            forall|j: int| 0 <= j < i ==> address_of(#[trigger] vs[j]) != child.drop_last(),
        decreases call_list@.len() - i,
    {
        assert(has_trace_address(vs[i as int]));
        let current = trace_address_ref(&call_list[i]);
        if is_parent_address(current, last_address) {
            proof {
                assert(is_first_parent(vs, child, i as int));
                lemma_first_parent_unique(vs, child, i as int);
            }
            return Some(i);
        }
        i = i + 1;
    }
    proof {
        assert forall|k: int| !is_first_parent(vs, child, k) by {
            if 0 <= k < vs.len() {
                assert(address_of(vs[k]) != child.drop_last());
            }
        }
    }
    None
}

/// Removes the trace address of a call.
pub(crate) fn clear_trace_address(c: &mut Call)
    ensures
        call_view(*final(c)) == without_address(call_view(*old(c))),
{
    if let Call::CallTracer(t) = c {
        t.trace_address = None;
    }
    proof {
        if call_view(*c) is CallTracer {
            let o = call_view(*old(c))->CallTracer_0;
            assert(call_view(*c)->CallTracer_0.calls =~= o.calls);
        }
    }
}

/// Appends `child` to the sub-calls of the call at `index`.
fn attach_child(stack: &mut Vec<Call>, index: usize, child: Call)
    requires
        index < old(stack)@.len(),
    ensures
        final(stack)@.len() == old(stack)@.len(),
        views(final(stack)@) == views(old(stack)@).update(
            index as int,
            with_child(call_view(old(stack)@[index as int]), call_view(child)),
        ),
        views(final(stack)@)[index as int] == with_calls(
            call_view(old(stack)@[index as int]),
            seq![call_view(child)],
        ),
{
    let ghost before = views(stack@);
    if let Call::CallTracer(t) = &mut stack[index] {
        t.calls.push(child);
    }
    proof {
        let after = views(stack@);
        let expected = before.update(
            index as int,
            with_child(call_view(old(stack)@[index as int]), call_view(child)),
        );
        assert forall|j: int| 0 <= j < after.len() implies after[j] == expected[j] by {
            if j == index {
                if let CallView::CallTracer(o) = call_view(old(stack)@[index as int]) {
                    assert(after[j]->CallTracer_0.calls =~= o.calls.push(call_view(child)));
                }
            }
        }
        assert(after =~= expected);
        if let CallView::CallTracer(o) = call_view(old(stack)@[index as int]) {
            assert(o.calls.push(call_view(child)) =~= o.calls + seq![call_view(child)]);
        }
    }
}

/// Nests the calls of the stack: while more than one call is left, takes off
/// the last one and appends it, without its trace address, to the sub-calls
/// of the first remaining call whose address is its parent address; a call
/// without such a parent is dropped.
pub fn process_calls(call_stack: &mut Vec<Call>)
    requires
        old(call_stack)@.len() > 1 ==> all_have_trace_address(views(old(call_stack)@))
            && tail_addresses_non_empty(views(old(call_stack)@)),
    ensures
        views(final(call_stack)@) == nest_stack(views(old(call_stack)@)),
        old(call_stack)@.len() >= 1 ==> views(final(call_stack)@) == seq![
            tree_at(views(old(call_stack)@), 0),
        ],
{
    if call_stack.len() >= 1 {
        proof {
            lemma_nest_stack_builds_tree(views(call_stack@));
        }
    }
    if call_stack.len() <= 1 {
        return;
    }
    let ghost target = nest_stack(views(call_stack@));
    while call_stack.len() > 1
        invariant
            all_have_trace_address(views(call_stack@)),
            tail_addresses_non_empty(views(call_stack@)),
            nest_stack(views(call_stack@)) == target,
        decreases call_stack@.len(),
    {
        let ghost s = views(call_stack@);
        let last = call_stack.pop();
        let mut current = match last {
            Some(c) => c,
            None => unreached(),
        };
        proof {
            assert(views(call_stack@) =~= s.drop_last());
            assert(call_view(current) == s.last());
            assert(has_trace_address(s[s.len() - 1]));
            assert(address_of(s[s.len() - 1]).len() > 0);
        }
        let found = find_parent_index(&current, call_stack);
        match found {
            Some(i) => {
                clear_trace_address(&mut current);
                attach_child(call_stack, i, current);
                proof {
                    assert(views(call_stack@) =~= nest_last(s));
                    lemma_nest_last_keeps_addresses(s);
                }
            },
            None => {
                proof {
                    assert(views(call_stack@) =~= nest_last(s));
                    lemma_nest_last_keeps_addresses(s);
                }
            },
        }
    }
}

// ---------------------------------------------------------------------------
// Supporting lemmas
// ---------------------------------------------------------------------------

/// There is at most one first parent.
pub proof fn lemma_first_parent_unique(s: Seq<CallView>, child: Seq<u32>, i: int)
    requires
        is_first_parent(s, child, i),
    ensures
        parent_index(s, child) == Some(i),
{
    let k = choose|k: int| is_first_parent(s, child, k);
    if k < i {
        assert(address_of(s[k]) != child.drop_last());
    } else if i < k {
        assert(address_of(s[i]) != child.drop_last());
    }
}

/// Taking off the last call leaves the addresses of the others unchanged.
pub proof fn lemma_nest_last_keeps_addresses(s: Seq<CallView>)
    requires
        s.len() > 1,
        all_have_trace_address(s),
    ensures
        nest_last(s).len() == s.len() - 1,
        forall|i: int| 0 <= i < s.len() - 1 ==> address_of(#[trigger] nest_last(s)[i]) == address_of(
            s[i],
        ),
        forall|i: int|
            0 <= i < s.len() - 1 ==> #[trigger] has_trace_address(nest_last(s)[i])
                == has_trace_address(s[i]),
{
    let rest = s.drop_last();
    match parent_index(rest, address_of(s.last())) {
        Some(p) => {
            let k = choose|k: int| is_first_parent(rest, address_of(s.last()), k);
            assert(p == k);
            assert(has_trace_address(rest[p]));
        },
        None => {},
    }
}

/// Bounds and defining facts of the insertion index.
pub proof fn lemma_insertion_index_bounds(s: Seq<CallView>, x: CallView)
    ensures
        0 <= insertion_index(s, x) <= s.len(),
        forall|k: int| insertion_index(s, x) <= k < s.len() ==> call_precedes(x, #[trigger] s[k]),
        insertion_index(s, x) > 0 ==> !call_precedes(x, s[insertion_index(s, x) - 1]),
    decreases s.len(),
{
    if s.len() > 0 && call_precedes(x, s.last()) {
        lemma_insertion_index_bounds(s.drop_last(), x);
        assert forall|k: int| insertion_index(s, x) <= k < s.len() implies call_precedes(
            x,
            #[trigger] s[k],
        ) by {
            if k < s.len() - 1 {
                assert(s[k] == s.drop_last()[k]);
            }
        }
    }
}


/// Inserting a call at its place keeps a sequence in nesting order.
#[verifier::spinoff_prover]
#[verifier::rlimit(40)]
pub proof fn lemma_insert_in_order_keeps_order(s: Seq<CallView>, x: CallView)
    requires
        in_nesting_order(s),
    ensures
        in_nesting_order(insert_in_order(s, x)),
{
    let p = insertion_index(s, x);
    lemma_insertion_index_bounds(s, x);
    s.insert_ensures(p, x);
    let t = insert_in_order(s, x);
    assert forall|i: int, j: int| 0 <= i < j < t.len() implies !call_precedes(
        #[trigger] t[j],
        #[trigger] t[i],
    ) by {
        if j < p {
            assert(t[i] == s[i] && t[j] == s[j]);
        } else if j == p {
            // t[i] == s[i] with i < p: x does not come before s[p - 1], and s[i]
            // does not come after s[p - 1].
            assert(t[i] == s[i]);
            if i < p - 1 {
                assert(!call_precedes(s[p - 1], s[i]));
            }
            if call_precedes(x, s[i]) {
                lemma_precedes_split(address_of(x), address_of(s[p - 1]), address_of(s[i]));
            }
        } else if i == p {
            assert(t[j] == s[j - 1]);
            lemma_precedes_asymmetric(address_of(x), address_of(s[j - 1]));
        } else if i < p {
            assert(t[i] == s[i] && t[j] == s[j - 1]);
        } else {
            assert(t[i] == s[i - 1] && t[j] == s[j - 1]);
        }
    }
}

/// Law: the calls that `sort_calls` produces are in nesting order: no call
/// comes before an earlier one.
pub proof fn lemma_sorted_calls_in_nesting_order(s: Seq<CallView>)
    ensures
        in_nesting_order(sorted_calls(s)),
    decreases s.len(),
{
    if s.len() > 0 {
        lemma_sorted_calls_in_nesting_order(s.drop_last());
        lemma_insert_in_order_keeps_order(sorted_calls(s.drop_last()), s.last());
    }
}

/// Inserting an element adds it to the multiset of the sequence.
pub proof fn lemma_insert_multiset(s: Seq<CallView>, p: int, x: CallView)
    requires
        0 <= p <= s.len(),
    ensures
        s.insert(p, x).to_multiset() =~= s.to_multiset().insert(x),
{
    let t = s.insert(p, x);
    s.insert_ensures(p, x);
    t.remove_ensures(p);
    assert(t.remove(p) =~= s);
    t.to_multiset_ensures();
    assert(t.to_multiset().count(x) > 0) by {
        assert(t.contains(x));
    }
    assert forall|y: CallView| #[trigger] t.to_multiset().count(y) == s.to_multiset().insert(
        x,
    ).count(y) by {
        assert(s.to_multiset() =~= t.to_multiset().remove(x));
    }
}

/// Law: `sort_calls` only rearranges: the sorted calls are a permutation of
/// the input.
pub proof fn lemma_sorted_calls_permutation(s: Seq<CallView>)
    ensures
        sorted_calls(s).to_multiset() =~= s.to_multiset(),
        sorted_calls(s).len() == s.len(),
    decreases s.len(),
{
    if s.len() > 0 {
        let r = s.drop_last();
        lemma_sorted_calls_permutation(r);
        let t = sorted_calls(r);
        lemma_insertion_index_bounds(t, s.last());
        lemma_insert_multiset(t, insertion_index(t, s.last()), s.last());
        assert(r.push(s.last()) =~= s);
        r.to_multiset_ensures();
        t.insert_ensures(insertion_index(t, s.last()), s.last());
    }
}

/// The sorted calls are exactly the calls of the input.
pub proof fn lemma_sorted_calls_contains(s: Seq<CallView>)
    ensures
        forall|y: CallView| #[trigger] sorted_calls(s).contains(y) <==> s.contains(y),
{
    lemma_sorted_calls_permutation(s);
    sorted_calls(s).to_multiset_ensures();
    s.to_multiset_ensures();
    assert forall|y: CallView| #[trigger] sorted_calls(s).contains(y) <==> s.contains(y) by {
        assert(sorted_calls(s).to_multiset().count(y) == s.to_multiset().count(y));
    }
}

/// Law: `process_calls` leaves exactly one call of a non-empty stack.
pub proof fn lemma_nest_stack_leaves_one(s: Seq<CallView>)
    requires
        s.len() >= 1,
    ensures
        nest_stack(s).len() == 1,
    decreases s.len(),
{
    if s.len() > 1 {
        let rest = s.drop_last();
        match parent_index(rest, address_of(s.last())) {
            Some(p) => {
                let k = choose|k: int| is_first_parent(rest, address_of(s.last()), k);
                assert(p == k);
            },
            None => {},
        }
        lemma_nest_stack_leaves_one(nest_last(s));
    }
}

/// The number of calls in a call tree, the root included.
pub open spec fn tree_size(c: CallView) -> nat
    decreases c,
{
    match c {
        CallView::CallTracer(t) => 1 + forest_size(t.calls),
        CallView::Explorer(_) => 1,
    }
}

/// The number of calls in a sequence of call trees.
pub open spec fn forest_size(s: Seq<CallView>) -> nat
    decreases s,
{
    if s.len() == 0 {
        0
    } else {
        forest_size(s.drop_last()) + tree_size(s.last())
    }
}

/// The number of calls in a sequence of trees, after replacing one tree.
pub proof fn lemma_forest_size_update(s: Seq<CallView>, i: int, y: CallView)
    requires
        0 <= i < s.len(),
    ensures
        forest_size(s.update(i, y)) + tree_size(s[i]) == forest_size(s) + tree_size(y),
    decreases s.len(),
{
    let u = s.update(i, y);
    if i == s.len() - 1 {
        assert(u.drop_last() =~= s.drop_last());
    } else {
        lemma_forest_size_update(s.drop_last(), i, y);
        assert(u.drop_last() =~= s.drop_last().update(i, y));
    }
}

/// Appending a sub-call adds its calls to the parent's tree.
pub proof fn lemma_with_child_size(parent: CallView, child: CallView)
    requires
        parent is CallTracer,
    ensures
        tree_size(with_child(parent, child)) == tree_size(parent) + tree_size(child),
{
    let t = parent->CallTracer_0;
    assert(t.calls.push(child).drop_last() =~= t.calls);
}

/// Every call of the stack but the first has, at an earlier index, a call
/// whose address is its parent address.
pub open spec fn parents_come_first(s: Seq<CallView>) -> bool {
    forall|i: int|
        1 <= i < s.len() ==> exists|j: int|
            0 <= j < i && address_of(#[trigger] s[j]) == address_of(#[trigger] s[i]).drop_last()
}

/// Law: when every call but the first has its parent earlier in the stack,
/// `process_calls` drops no call: the single tree it leaves holds every call
/// of the stack.
pub proof fn lemma_nest_stack_keeps_every_call(s: Seq<CallView>)
    requires
        all_have_trace_address(s),
        parents_come_first(s),
    ensures
        forest_size(nest_stack(s)) == forest_size(s),
    decreases s.len(),
{
    if s.len() > 1 {
        let rest = s.drop_last();
        let cur = s.last();
        let n = nest_last(s);
        let last = s.len() - 1;
        let j = choose|j: int|
            0 <= j < last && address_of(#[trigger] s[j]) == address_of(#[trigger] s[last]).drop_last();
        assert(address_of(rest[j]) == address_of(cur).drop_last());
        lemma_least_parent(rest, address_of(cur), j);
        let p = parent_index(rest, address_of(cur))->Some_0;
        lemma_nest_last_keeps_addresses(s);
        assert(has_trace_address(rest[p]));
        lemma_with_child_size(rest[p], without_address(cur));
        lemma_forest_size_update(rest, p, with_child(rest[p], without_address(cur)));
        assert(tree_size(without_address(cur)) == tree_size(cur));
        assert(all_have_trace_address(n)) by {
            assert forall|i: int| 0 <= i < n.len() implies #[trigger] has_trace_address(n[i]) by {
                assert(has_trace_address(s[i]));
            }
        }
        assert(parents_come_first(n)) by {
            assert forall|i: int| 1 <= i < n.len() implies exists|k: int|
                0 <= k < i && address_of(#[trigger] n[k]) == address_of(#[trigger] n[i]).drop_last() by {
                let k = choose|k: int|
                    0 <= k < i && address_of(#[trigger] s[k]) == address_of(#[trigger] s[i]).drop_last();
                assert(address_of(n[k]) == address_of(s[k]));
                assert(address_of(n[i]) == address_of(s[i]));
            }
        }
        lemma_nest_stack_keeps_every_call(n);
    }
}

/// If some call has the parent address, the first such call is found.
pub proof fn lemma_least_parent(s: Seq<CallView>, child: Seq<u32>, j: int)
    requires
        0 <= j < s.len(),
        address_of(s[j]) == child.drop_last(),
    ensures
        parent_index(s, child) is Some,
    decreases j,
{
    if forall|k: int| 0 <= k < j ==> address_of(#[trigger] s[k]) != child.drop_last() {
        assert(is_first_parent(s, child, j));
    } else {
        let k = choose|k: int| 0 <= k < j && address_of(#[trigger] s[k]) == child.drop_last();
        lemma_least_parent(s, child, k);
    }
}


/// The predicate "has trace address `a`".
pub open spec fn address_is(a: Seq<u32>) -> spec_fn(CallView) -> bool {
    |c: CallView| address_of(c) == a
}

/// The calls of `s` with trace address `a`, in their order in `s`.
pub open spec fn calls_at(s: Seq<CallView>, a: Seq<u32>) -> Seq<CallView> {
    s.filter(address_is(a))
}

/// Law: `sort_calls` is stable: for every trace address, the calls with that
/// address come out in the order they went in.
pub proof fn lemma_sorted_calls_stable(s: Seq<CallView>, a: Seq<u32>)
    ensures
        calls_at(sorted_calls(s), a) == calls_at(s, a),
    decreases s.len(),
{
    broadcast use Seq::filter_distributes_over_add, Seq::lemma_filter_push;

    if s.len() > 0 {
        let r = s.drop_last();
        let x = s.last();
        let t = sorted_calls(r);
        lemma_sorted_calls_stable(r, a);
        let p = insertion_index(t, x);
        lemma_insertion_index_bounds(t, x);
        let before = t.subrange(0, p);
        let after = t.subrange(p, t.len() as int);
        assert(t.insert(p, x) =~= before.push(x) + after);
        assert(t =~= before + after);
        assert(r.push(x) =~= s);
        if address_of(x) == a {
            assert forall|k: int| 0 <= k < after.len() implies !address_is(a)(after[k]) by {
                assert(after[k] == t[p + k]);
                assert(call_precedes(x, t[p + k]));
                lemma_precedes_irreflexive(address_of(x));
            }
            assert(after.all(|c: CallView| !address_is(a)(c)));
            after.lemma_all_neg_filter_empty(address_is(a));
            assert(after.filter(address_is(a)) =~= Seq::<CallView>::empty());
            assert(calls_at(t, a) =~= before.filter(address_is(a)));
        }
    }
}

/// No call below this one, at any depth, carries a trace address.
pub open spec fn addresses_cleared_below(c: CallView) -> bool
    decreases c,
{
    match c {
        CallView::CallTracer(t) => forall|i: int|
            0 <= i < t.calls.len() ==> !has_trace_address(#[trigger] t.calls[i])
                && addresses_cleared_below(t.calls[i]),
        CallView::Explorer(_) => true,
    }
}

/// Appending a sub-call without address to a call keeps its sub-calls clear
/// of addresses.
pub proof fn lemma_with_child_cleared(parent: CallView, child: CallView)
    requires
        addresses_cleared_below(parent),
        addresses_cleared_below(child),
    ensures
        addresses_cleared_below(with_child(parent, without_address(child))),
        addresses_cleared_below(without_address(child)),
{
    if let CallView::CallTracer(t) = parent {
        let calls = t.calls.push(without_address(child));
        assert forall|i: int| 0 <= i < calls.len() implies !has_trace_address(#[trigger] calls[i])
            && addresses_cleared_below(calls[i]) by {
            if i < t.calls.len() {
                assert(calls[i] == t.calls[i]);
            }
        }
    }
}

/// Nesting keeps the sub-calls of every call of the stack clear of
/// addresses.
pub proof fn lemma_nest_stack_clears_addresses(s: Seq<CallView>)
    requires
        forall|i: int| 0 <= i < s.len() ==> addresses_cleared_below(#[trigger] s[i]),
    ensures
        forall|i: int|
            0 <= i < nest_stack(s).len() ==> addresses_cleared_below(#[trigger] nest_stack(s)[i]),
    decreases s.len(),
{
    if s.len() > 1 {
        let rest = s.drop_last();
        let n = nest_last(s);
        match parent_index(rest, address_of(s.last())) {
            Some(p) => {
                let k = choose|k: int| is_first_parent(rest, address_of(s.last()), k);
                assert(p == k);
                lemma_with_child_cleared(rest[p], s.last());
                assert forall|i: int| 0 <= i < n.len() implies addresses_cleared_below(
                    #[trigger] n[i],
                ) by {
                    if i != p {
                        assert(n[i] == s[i]);
                    }
                }
            },
            None => {
                assert forall|i: int| 0 <= i < n.len() implies addresses_cleared_below(
                    #[trigger] n[i],
                ) by {
                    assert(n[i] == s[i]);
                }
            },
        }
        lemma_nest_stack_clears_addresses(n);
        assert(nest_stack(s) == nest_stack(n));
    }
}

// ---------------------------------------------------------------------------
// The tree that nesting builds
// ---------------------------------------------------------------------------

/// `parent` with `extra` appended to its sub-calls.
pub open spec fn with_calls(parent: CallView, extra: Seq<CallView>) -> CallView {
    match parent {
        CallView::CallTracer(t) => CallView::CallTracer(
            CallTracerCallView { calls: t.calls + extra, ..t },
        ),
        CallView::Explorer(e) => CallView::Explorer(e),
    }
}

/// In the ordered calls `s`, the call at `m` hangs directly under the call at
/// `j`: of the calls before `m`, `j` is the first whose address is the parent
/// address of `m`'s.
pub open spec fn hangs_under(s: Seq<CallView>, m: int, j: int) -> bool {
    &&& 0 <= j < m < s.len()
    &&& parent_index(s.take(m), address_of(s[m])) == Some(j)
}

/// The positions, from `from` on, of the calls that hang directly under the
/// call at `j`, the latest first.
pub open spec fn hung_positions(s: Seq<CallView>, j: int, from: int) -> Seq<int>
    decreases s.len() - from,
{
    if 0 <= from < s.len() {
        let later = hung_positions(s, j, from + 1);
        if hangs_under(s, from, j) {
            later.push(from)
        } else {
            later
        }
    } else {
        Seq::empty()
    }
}

/// The call at `j` of the ordered calls `s` with everything that hangs under
/// it, directly or deeper, as its sub-calls.
pub open spec fn tree_at(s: Seq<CallView>, j: int) -> CallView
    decreases s.len() - j, 0int,
{
    if 0 <= j < s.len() {
        with_calls(s[j], hung_calls(s, j, j + 1))
    } else {
        CallView::Explorer(arbitrary())
    }
}

/// The trees, without their addresses, of the calls from `from` on that hang
/// directly under the call at `j`, the latest first.
pub open spec fn hung_calls(s: Seq<CallView>, j: int, from: int) -> Seq<CallView>
    decreases s.len() - from, 1int,
{
    if 0 <= from < s.len() {
        let later = hung_calls(s, j, from + 1);
        if hangs_under(s, from, j) {
            later.push(without_address(tree_at(s, from)))
        } else {
            later
        }
    } else {
        Seq::empty()
    }
}

/// The stack of `process_calls` once the calls from `m` on have been taken
/// off: each remaining call with the trees hung under it so far.
pub open spec fn stack_at(s: Seq<CallView>, m: int) -> Seq<CallView> {
    Seq::new(m as nat, |i: int| with_calls(s[i], hung_calls(s, i, m)))
}

/// The first parent depends on the calls' addresses alone.
pub proof fn lemma_parent_index_same_addresses(a: Seq<CallView>, b: Seq<CallView>, child: Seq<u32>)
    requires
        a.len() == b.len(),
        forall|i: int| 0 <= i < a.len() ==> address_of(#[trigger] a[i]) == address_of(b[i]),
    ensures
        parent_index(a, child) == parent_index(b, child),
{
    if exists|i: int| is_first_parent(a, child, i) {
        let i = choose|i: int| is_first_parent(a, child, i);
        assert forall|k: int| 0 <= k < i implies address_of(#[trigger] b[k]) != child.drop_last() by {
            assert(address_of(a[k]) != child.drop_last());
        }
        assert(is_first_parent(b, child, i));
        lemma_first_parent_unique(a, child, i);
        lemma_first_parent_unique(b, child, i);
    } else {
        assert forall|i: int| !is_first_parent(b, child, i) by {
            if is_first_parent(b, child, i) {
                assert forall|k: int| 0 <= k < i implies address_of(#[trigger] a[k])
                    != child.drop_last() by {
                    assert(address_of(b[k]) != child.drop_last());
                }
                assert(is_first_parent(a, child, i));
            }
        }
    }
}

/// Appending one call after a sequence of calls.
proof fn lemma_with_child_with_calls(parent: CallView, extra: Seq<CallView>, child: CallView)
    ensures
        with_child(with_calls(parent, extra), child) == with_calls(parent, extra.push(child)),
        address_of(with_calls(parent, extra)) == address_of(parent),
{
    if let CallView::CallTracer(t) = parent {
        assert((t.calls + extra).push(child) =~= t.calls + extra.push(child));
    }
}

/// Before any call is taken off, the stack is the ordered calls themselves.
proof fn lemma_stack_at_start(s: Seq<CallView>)
    ensures
        stack_at(s, s.len() as int) == s,
{
    let st = stack_at(s, s.len() as int);
    assert forall|i: int| 0 <= i < s.len() implies #[trigger] st[i] == s[i] by {
        assert(hung_calls(s, i, s.len() as int) == Seq::<CallView>::empty());
        if let CallView::CallTracer(t) = s[i] {
            assert(t.calls + Seq::<CallView>::empty() =~= t.calls);
        }
    }
    assert(st =~= s);
}

/// Taking the call at `m` off the stack hangs its tree under the call it
/// hangs under.
proof fn lemma_stack_at_step(s: Seq<CallView>, m: int)
    requires
        1 <= m < s.len(),
    ensures
        nest_last(stack_at(s, m + 1)) == stack_at(s, m),
{
    let st = stack_at(s, m + 1);
    let cur = st.last();
    let rest = st.drop_last();
    let target = stack_at(s, m);
    assert(cur == tree_at(s, m));
    lemma_with_child_with_calls(s[m], hung_calls(s, m, m + 1), s[m]);
    assert(address_of(cur) == address_of(s[m]));
    assert forall|i: int| 0 <= i < rest.len() implies address_of(#[trigger] rest[i]) == address_of(
        s.take(m)[i],
    ) by {
        lemma_with_child_with_calls(s[i], hung_calls(s, i, m + 1), s[i]);
    }
    lemma_parent_index_same_addresses(rest, s.take(m), address_of(s[m]));
    match parent_index(rest, address_of(cur)) {
        Some(p) => {
            let k = choose|k: int| is_first_parent(rest, address_of(cur), k);
            assert(p == k);
            assert(hangs_under(s, m, p));
            let n = rest.update(p, with_child(rest[p], without_address(cur)));
            assert forall|i: int| 0 <= i < m implies #[trigger] n[i] == target[i] by {
                if i == p {
                    lemma_with_child_with_calls(s[p], hung_calls(s, p, m + 1), without_address(cur));
                } else {
                    assert(!hangs_under(s, m, i));
                }
            }
            assert(n =~= target);
        },
        None => {
            assert forall|i: int| 0 <= i < m implies #[trigger] rest[i] == target[i] by {
                assert(!hangs_under(s, m, i));
            }
            assert(rest =~= target);
        },
    }
}

/// Nesting a stack that has been taken down to `m` calls ends with the tree
/// of the first call.
proof fn lemma_nest_stack_from(s: Seq<CallView>, m: int)
    requires
        1 <= m <= s.len(),
    ensures
        nest_stack(stack_at(s, m)) == seq![tree_at(s, 0)],
    decreases m,
{
    if m == 1 {
        assert(stack_at(s, 1) =~= seq![tree_at(s, 0)]);
    } else {
        lemma_stack_at_step(s, m - 1);
        lemma_nest_stack_from(s, m - 1);
    }
}

/// Law: nesting builds the tree of the first call: every other call hangs,
/// with everything below it and without its address, under the first
/// earlier call whose address is its parent address, after the sub-calls
/// that call already had, latest position first.
pub proof fn lemma_nest_stack_builds_tree(s: Seq<CallView>)
    requires
        s.len() >= 1,
    ensures
        nest_stack(s) == seq![tree_at(s, 0)],
{
    lemma_stack_at_start(s);
    lemma_nest_stack_from(s, s.len() as int);
}

/// A call that hangs under another has that call's address as its parent
/// address.
proof fn lemma_hangs_under_parent_address(s: Seq<CallView>, m: int, j: int)
    requires
        hangs_under(s, m, j),
    ensures
        address_of(s[j]) == address_of(s[m]).drop_last(),
{
    let child = address_of(s[m]);
    let prefix = s.take(m);
    assert(exists|i: int| is_first_parent(prefix, child, i));
    assert(is_first_parent(prefix, child, j));
    assert(prefix[j] == s[j]);
}

/// Of two sibling addresses, the one that does not come before the other
/// has the lower or equal last index.
proof fn lemma_sibling_last_index(a: Seq<u32>, b: Seq<u32>)
    requires
        a.len() > 0,
        b.len() > 0,
        a.drop_last() == b.drop_last(),
        !address_precedes(b, a),
    ensures
        b.last() <= a.last(),
{
    let i = a.len() - 1;
    assert(a.len() == a.drop_last().len() + 1);
    assert(b.len() == b.drop_last().len() + 1);
    if b.last() > a.last() {
        assert forall|k: int| 0 <= k < i implies b[k] == a[k] by {
            assert(b[k] == b.drop_last()[k]);
            assert(a[k] == a.drop_last()[k]);
        }
        assert(first_difference_at(b, a, i));
        assert(lex_greater(b, a));
    }
}

/// What the positions hung under `j` from `from` on are, and how the hung
/// trees follow them.
proof fn lemma_hung_positions(s: Seq<CallView>, j: int, from: int)
    requires
        0 <= j < from <= s.len(),
    ensures
        forall|k: int|
            0 <= k < hung_positions(s, j, from).len() ==> from <= #[trigger] hung_positions(
                s,
                j,
                from,
            )[k] < s.len() && hangs_under(s, hung_positions(s, j, from)[k], j),
        forall|m: int| from <= m < s.len() && #[trigger] hangs_under(s, m, j) ==> hung_positions(
            s,
            j,
            from,
        ).contains(m),
        forall|k: int, l: int|
            0 <= k < l < hung_positions(s, j, from).len() ==> #[trigger] hung_positions(s, j, from)[k]
                > #[trigger] hung_positions(s, j, from)[l],
        hung_calls(s, j, from).len() == hung_positions(s, j, from).len(),
        forall|k: int|
            0 <= k < hung_calls(s, j, from).len() ==> #[trigger] hung_calls(s, j, from)[k]
                == without_address(tree_at(s, hung_positions(s, j, from)[k])),
    decreases s.len() - from,
{
    if from < s.len() {
        lemma_hung_positions(s, j, from + 1);
        let later = hung_positions(s, j, from + 1);
        let pos = hung_positions(s, j, from);
        assert forall|m: int| from <= m < s.len() && #[trigger] hangs_under(s, m, j) implies pos.contains(
            m,
        ) by {
            if m == from {
                assert(pos.last() == from);
            } else {
                let k = choose|k: int| 0 <= k < later.len() && later[k] == m;
                assert(pos[k] == m);
            }
        }
    }
}

/// Law: under every call of the tree that nesting builds from calls in
/// nesting order, the sub-calls it adds are exactly the calls that hang
/// directly under it, their trace addresses one index longer than its own,
/// and they come in ascending order of the last index of their trace
/// address: siblings in execution order, at every depth.
pub proof fn lemma_siblings_in_index_order(s: Seq<CallView>, j: int)
    requires
        in_nesting_order(s),
        tail_addresses_non_empty(s),
        0 <= j < s.len(),
    ensures
        s[j] matches CallView::CallTracer(t) ==> tree_at(s, j) == CallView::CallTracer(
            CallTracerCallView { calls: t.calls + hung_calls(s, j, j + 1), ..t },
        ),
        hung_calls(s, j, j + 1).len() == hung_positions(s, j, j + 1).len(),
        forall|k: int|
            0 <= k < hung_positions(s, j, j + 1).len() ==> hangs_under(
                s,
                #[trigger] hung_positions(s, j, j + 1)[k],
                j,
            ) && address_of(s[hung_positions(s, j, j + 1)[k]]).drop_last() == address_of(s[j])
                && hung_calls(s, j, j + 1)[k] == without_address(
                tree_at(s, hung_positions(s, j, j + 1)[k]),
            ),
        forall|m: int| #[trigger] hangs_under(s, m, j) ==> hung_positions(s, j, j + 1).contains(m),
        forall|k: int, l: int|
            0 <= k < l < hung_positions(s, j, j + 1).len() ==> address_of(
                s[#[trigger] hung_positions(s, j, j + 1)[k]],
            ).last() <= address_of(s[#[trigger] hung_positions(s, j, j + 1)[l]]).last(),
{
    let pos = hung_positions(s, j, j + 1);
    lemma_hung_positions(s, j, j + 1);
    assert forall|k: int| 0 <= k < pos.len() implies address_of(s[#[trigger] pos[k]]).drop_last()
        == address_of(s[j]) by {
        lemma_hangs_under_parent_address(s, pos[k], j);
    }
    assert forall|k: int, l: int| 0 <= k < l < pos.len() implies address_of(
        s[#[trigger] pos[k]],
    ).last() <= address_of(s[#[trigger] pos[l]]).last() by {
        let later = pos[k];
        let earlier = pos[l];
        lemma_hangs_under_parent_address(s, later, j);
        lemma_hangs_under_parent_address(s, earlier, j);
        assert(!call_precedes(s[later], s[earlier]));
        lemma_sibling_last_index(address_of(s[earlier]), address_of(s[later]));
    }
}

} // verus!
