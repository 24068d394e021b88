//! What the tracing listeners hand to the response layouts once a replay is
//! over.

use std::collections::BTreeMap;

use vstd::prelude::*;
use vstd::std_specs::iter::IteratorSpec;

use crate::calls::ExplorerCall;
use crate::types::RawStepLog;

verus! {

/// The state of the raw (opcode by opcode) listener at the end of a replay.
#[derive(Clone, Debug, PartialEq, Eq)]
pub struct ListenerRaw {
    /// Memory budget left for the trace; `None` once it was exceeded.
    pub remaining_memory_usage: Option<usize>,
    pub struct_logs: Vec<RawStepLog>,
    pub final_gas: u64,
    pub return_value: Vec<u8>,
}

/// The state of the call-list listener at the end of a replay: one entry per
/// traced transaction, each mapping the index of a call to the call.
#[derive(Clone, Debug, PartialEq, Eq)]
pub struct ListenerCl {
    pub entries: Vec<BTreeMap<u32, ExplorerCall>>,
}

/// The keys strictly increase along the sequence.
pub open spec fn ascending(keys: Seq<u32>) -> bool {
    forall|i: int, j: int| 0 <= i < j < keys.len() ==> keys[i] < keys[j]
}

/// The keys of a map in ascending order.
pub open spec fn ascending_keys(m: Map<u32, ExplorerCall>) -> Seq<u32> {
    choose|keys: Seq<u32>| ascending(keys) && keys.to_set() == m.dom()
}

/// The calls of one entry, in ascending order of their keys.
pub open spec fn entry_calls(entry: BTreeMap<u32, ExplorerCall>) -> Seq<ExplorerCall> {
    ascending_keys(entry@).map_values(|k: u32| entry@[k])
}

/// The keys of a `BTreeMap` with `u32` keys are ordered.
pub(crate) proof fn lemma_u32_keys_ordered()
    ensures
        vstd::std_specs::btree::key_obeys_cmp_spec::<u32>(),
        vstd::laws_cmp::obeys_cmp::<u32>(),
{
    broadcast use vstd::std_specs::btree::group_btree_axioms, vstd::laws_cmp::group_laws_cmp;

}

/// An increasing sequence of `u32` keys ascends.
proof fn lemma_increasing_u32(keys: Seq<&u32>)
    requires
        vstd::std_specs::btree::increasing_seq(keys),
    ensures
        ascending(keys.unref()),
{
    broadcast use vstd::std_specs::btree::group_btree_axioms, vstd::laws_cmp::group_laws_cmp;

    assert forall|i: int, j: int| 0 <= i < j < keys.len() implies keys.unref()[i] < keys.unref()[j] by {
        assert(vstd::std_specs::cmp::OrdSpec::cmp_spec(&keys[i], &keys[j]) is Less);
    }
}

/// Two ascending sequences with the same elements are equal.
pub proof fn lemma_ascending_unique(a: Seq<u32>, b: Seq<u32>)
    requires
        ascending(a),
        ascending(b),
        a.to_set() == b.to_set(),
    ensures
        a == b,
    decreases a.len(),
{
    broadcast use vstd::seq_lib::group_seq_properties;

    if a.len() == 0 {
        if b.len() > 0 {
            assert(b.to_set().contains(b[0]));
        }
        assert(b.len() == 0);
        assert(a =~= b);
    } else {
        if b.len() == 0 {
            assert(a.to_set().contains(a[0]));
        }
        assert(a.to_set().contains(b[0]));
        assert(b.to_set().contains(a[0]));
        let ia = choose|i: int| 0 <= i < a.len() && a[i] == b[0];
        let ib = choose|i: int| 0 <= i < b.len() && b[i] == a[0];
        assert(a[0] <= a[ia]);
        assert(b[0] <= b[ib]);
        assert(a[0] == b[0]);
        let ra = a.drop_first();
        let rb = b.drop_first();
        assert forall|x: u32| ra.to_set().contains(x) <==> rb.to_set().contains(x) by {
            if ra.to_set().contains(x) {
                let i = choose|i: int| 0 <= i < ra.len() && ra[i] == x;
                assert(a[i + 1] == x);
                assert(a.to_set().contains(x));
                let j = choose|j: int| 0 <= j < b.len() && b[j] == x;
                if j == 0 {
                    assert(a[0] < a[i + 1]);
                }
                assert(rb[j - 1] == x);
            }
            if rb.to_set().contains(x) {
                let j = choose|j: int| 0 <= j < rb.len() && rb[j] == x;
                assert(b[j + 1] == x);
                assert(b.to_set().contains(x));
                let i = choose|i: int| 0 <= i < a.len() && a[i] == x;
                if i == 0 {
                    assert(b[0] < b[j + 1]);
                }
                assert(ra[i - 1] == x);
            }
        }
        assert(ra.to_set() =~= rb.to_set());
        lemma_ascending_unique(ra, rb);
        assert(a =~= seq![a[0]] + ra);
        assert(b =~= seq![b[0]] + rb);
    }
}

/// The keys of an entry in ascending order.
pub(crate) fn ascending_key_list(entry: &BTreeMap<u32, ExplorerCall>) -> (keys: Vec<u32>)
    ensures
        keys@ == ascending_keys(entry@),
        ascending(keys@),
        keys@.to_set() == entry@.dom(),
{
    broadcast use vstd::std_specs::btree::group_btree_axioms;

    proof {
        lemma_u32_keys_ordered();
    }
    let mut keys: Vec<u32> = Vec::new();
    let key_iter = entry.keys();
    let ghost key_seq = key_iter.remaining();
    proof {
        vstd::std_specs::btree::axiom_spec_keys_iter(entry);
        lemma_increasing_u32(key_seq);
    }
    for key in it: key_iter
        invariant
            it.seq() == key_seq,
            keys@ == key_seq.unref().take(it.index() as int),
    {
        keys.push(*key);
        proof {
            assert(keys@ =~= key_seq.unref().take(it.index() + 1));
        }
    }
    proof {
        assert(key_seq.unref().take(key_seq.len() as int) =~= key_seq.unref());
        assert(ascending(keys@) && keys@.to_set() == entry@.dom());
        let chosen = ascending_keys(entry@);
        lemma_ascending_unique(keys@, chosen);
    }
    keys
}

/// The calls of an entry, taken out of it in ascending order of their keys.
pub fn take_entry_calls(entry: BTreeMap<u32, ExplorerCall>) -> (calls: Vec<ExplorerCall>)
    ensures
        calls@ == entry_calls(entry),
{
    broadcast use vstd::std_specs::btree::group_btree_axioms;

    proof {
        lemma_u32_keys_ordered();
    }
    let ghost original = entry@;
    let keys = ascending_key_list(&entry);
    let mut entry = entry;
    let mut calls: Vec<ExplorerCall> = Vec::new();
    let mut i: usize = 0;
    while i < keys.len()
        invariant
            keys@ == ascending_keys(original),
            ascending(keys@),
            i <= keys@.len(),
            calls@ == keys@.take(i as int).map_values(|k: u32| original[k]),
            forall|j: int|
                i <= j < keys@.len() ==> entry@.contains_key(#[trigger] keys@[j])
                    && entry@[keys@[j]] == original[keys@[j]],
            keys@.to_set() == original.dom(),
        decreases keys@.len() - i,
    {
        proof {
            lemma_u32_keys_ordered();
        }
        assert(entry@.contains_key(keys@[i as int]));
        let ghost before = entry@;
        let removed = entry.remove(&keys[i]);
        match removed {
            Some(call) => {
                calls.push(call);
            },
            None => {
                assert(false);
            },
        }
        proof {
            assert forall|j: int| i + 1 <= j < keys@.len() implies entry@.contains_key(
                #[trigger] keys@[j],
            ) && entry@[keys@[j]] == original[keys@[j]] by {
                assert(keys@[i as int] < keys@[j]);
                assert(entry@ == before.remove(keys@[i as int]));
            }
            assert(calls@ =~= keys@.take(i + 1).map_values(|k: u32| original[k]));
        }
        i = i + 1;
    }
    proof {
        assert(keys@.take(keys@.len() as int) =~= keys@);
    }
    calls
}

} // verus!
