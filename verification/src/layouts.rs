//! The response layouts: how the data a listener gathered during a replay
//! becomes the traces that the RPC methods return.

use std::collections::BTreeMap;

use vstd::prelude::*;

use crate::calls::{
    call_view, views, Call, CallTracerCall, CallTracerCallView, CallTracerInner,
    CallTracerInnerView, CallType, CallView, CreateResult, ExplorerCall, ExplorerCallInner,
};
use crate::listeners::{
    ascending_key_list, ascending_keys, entry_calls, lemma_u32_keys_ordered, take_entry_calls,
    ListenerCl,
    ListenerRaw,
};
use crate::nesting::{
    address_of, addresses_cleared_below, all_have_trace_address, clear_trace_address,
    forest_size, has_trace_address, insertion_index, lemma_insertion_index_bounds,
    lemma_nest_stack_clears_addresses, lemma_nest_stack_keeps_every_call,
    lemma_nest_stack_leaves_one, lemma_sorted_calls_contains, lemma_sorted_calls_in_nesting_order,
    lemma_sorted_calls_permutation, nest_stack, parents_come_first, process_calls, sort_calls,
    sorted_calls, tail_addresses_non_empty, tree_size, without_address, tree_at, with_calls,
    hung_calls, hung_positions, lemma_nest_stack_builds_tree, lemma_siblings_in_index_order,
};
use crate::order::address_precedes;
use crate::primitives::u256_from_u64;
use crate::types::SingleTransactionTrace;

verus! {

// ---------------------------------------------------------------------------
// Specification
// ---------------------------------------------------------------------------

/// The opcode name of a call type, as ASCII bytes.
pub open spec fn call_type_opcode(call_type: CallType) -> Seq<u8> {
    match call_type {
        // "CALL"
        CallType::Call => seq![67u8, 65, 76, 76],
        // "CALLCODE"
        CallType::CallCode => seq![67u8, 65, 76, 76, 67, 79, 68, 69],
        // "DELEGATECALL"
        CallType::DelegateCall => seq![68u8, 69, 76, 69, 71, 65, 84, 69, 67, 65, 76, 76],
        // "STATICCALL"
        CallType::StaticCall => seq![83u8, 84, 65, 84, 73, 67, 67, 65, 76, 76],
    }
}

/// "CREATE" as ASCII bytes.
pub open spec fn create_opcode() -> Seq<u8> {
    seq![67u8, 82, 69, 65, 84, 69]
}

/// "SELFDESTRUCT" as ASCII bytes.
pub open spec fn selfdestruct_opcode() -> Seq<u8> {
    seq![83u8, 69, 76, 70, 68, 69, 83, 84, 82, 85, 67, 84]
}

/// An Explorer call as a `callTracer` call: same sender, gas and trace
/// address, no sub-calls yet; a call keeps its value, a creation splits its
/// result into address and code or error, a self-destruct reports its
/// balance as its value.
pub open spec fn call_tracer_view(e: ExplorerCall) -> CallView {
    CallView::CallTracer(
        CallTracerCallView {
            from: e.from,
            trace_address: Some(e.trace_address@),
            gas: e.gas,
            gas_used: e.gas_used,
            inner: match e.inner {
                ExplorerCallInner::Call { call_type, to, input, res } => CallTracerInnerView::Call {
                    call_type: call_type_opcode(call_type),
                    to,
                    input: input@,
                    res,
                    value: Some(e.value),
                },
                ExplorerCallInner::Create { init, res } => CallTracerInnerView::Create {
                    call_type: create_opcode(),
                    input: init@,
                    to: match res {
                        CreateResult::Success { created_contract_address_hash, .. } => Some(
                            created_contract_address_hash,
                        ),
                        CreateResult::Error { .. } => None,
                    },
                    output: match res {
                        CreateResult::Success { created_contract_code, .. } => Some(
                            created_contract_code@,
                        ),
                        CreateResult::Error { .. } => None,
                    },
                    error: match res {
                        CreateResult::Success { .. } => None,
                        CreateResult::Error { error } => Some(error@),
                    },
                    value: e.value,
                },
                ExplorerCallInner::SelfDestruct { balance, to } =>
                    CallTracerInnerView::SelfDestruct {
                    call_type: selfdestruct_opcode(),
                    to,
                    value: balance,
                },
            },
            calls: Seq::empty(),
        },
    )
}

/// The calls of a transaction as `callTracer` calls.
pub open spec fn converted_calls(values: Seq<ExplorerCall>) -> Seq<CallView> {
    values.map_values(|e: ExplorerCall| call_tracer_view(e))
}

/// The number of calls of a sequence that have an empty trace address.
pub open spec fn empty_address_count(s: Seq<CallView>) -> nat
    decreases s.len(),
{
    if s.len() == 0 {
        0
    } else {
        empty_address_count(s.drop_last()) + if address_of(s.last()).len() == 0 {
            1nat
        } else {
            0nat
        }
    }
}

/// The calls of a transaction can be nested: a single call, or at most one
/// call with an empty trace address (the outermost call).
pub open spec fn nestable(values: Seq<ExplorerCall>) -> bool {
    values.len() <= 1 || empty_address_count(converted_calls(values)) <= 1
}

/// The `callTracer` tree of one transaction's calls: the calls in nesting
/// order, nested, and the remaining root without its trace address.
pub open spec fn nested_trace(values: Seq<ExplorerCall>) -> CallView {
    let calls = converted_calls(values);
    let arranged = if calls.len() > 1 {
        nest_stack(sorted_calls(calls))
    } else {
        calls
    };
    without_address(arranged[0])
}

/// The entries that recorded at least one call.
pub open spec fn non_empty_entries(entries: Seq<BTreeMap<u32, ExplorerCall>>) -> Seq<
    BTreeMap<u32, ExplorerCall>,
> {
    entries.filter(|e: BTreeMap<u32, ExplorerCall>| entry_calls(e).len() > 0)
}

/// The number of entries that recorded at least one call.
pub open spec fn entries_with_calls(entries: Seq<BTreeMap<u32, ExplorerCall>>) -> nat
    decreases entries.len(),
{
    if entries.len() == 0 {
        0
    } else {
        entries_with_calls(entries.drop_last()) + if entry_calls(entries.last()).len() > 0 {
            1nat
        } else {
            0nat
        }
    }
}

/// Every call with a non-empty trace address has its parent address among
/// the calls.
pub open spec fn parents_present(values: Seq<ExplorerCall>) -> bool {
    forall|i: int|
        0 <= i < values.len() && (#[trigger] values[i]).trace_address@.len() > 0 ==> exists|m: int|
            0 <= m < values.len() && (#[trigger] values[m]).trace_address@
                == values[i].trace_address@.drop_last()
}

// ---------------------------------------------------------------------------
// Implementation
// ---------------------------------------------------------------------------

/// The opcode name of a call type, as ASCII bytes.
fn opcode_bytes(call_type: CallType) -> (bytes: Vec<u8>)
    ensures
        bytes@ == call_type_opcode(call_type),
{
    match call_type {
        CallType::Call => vec![67u8, 65, 76, 76],
        CallType::CallCode => vec![67u8, 65, 76, 76, 67, 79, 68, 69],
        CallType::DelegateCall => vec![68u8, 69, 76, 69, 71, 65, 84, 69, 67, 65, 76, 76],
        CallType::StaticCall => vec![83u8, 84, 65, 84, 73, 67, 67, 65, 76, 76],
    }
}

/// An Explorer call as a `callTracer` call without sub-calls.
pub fn to_call_tracer(call: ExplorerCall) -> (c: Call)
    ensures
        call_view(c) == call_tracer_view(call),
        c matches Call::CallTracer(t) && t.from == call.from && t.gas == call.gas && t.gas_used
            == call.gas_used && t.trace_address == Some(call.trace_address) && t.calls@.len() == 0,
        call.inner matches ExplorerCallInner::Call { call_type, to, input, res } ==> (c matches Call::CallTracer(t)
            && t.inner matches CallTracerInner::Call {
            call_type: opcode,
            to: callee,
            input: data,
            res: outcome,
            value,
        } && outcome == res && callee == to && data@ == input@ && value == Some(call.value)
            && opcode@ == call_type_opcode(call_type)),
        call.inner matches ExplorerCallInner::Create { init, res } ==> (c matches Call::CallTracer(t)
            && t.inner matches CallTracerInner::Create { call_type, input, to, output, error, value }
            && input@ == init@ && value == call.value && call_type@ == create_opcode() && match res {
            CreateResult::Success { created_contract_address_hash, created_contract_code } => to
                == Some(created_contract_address_hash) && output == Some(created_contract_code)
                && error is None,
            CreateResult::Error { error: reason } => to is None && output is None && error == Some(
                reason,
            ),
        }),
        call.inner matches ExplorerCallInner::SelfDestruct { balance, to } ==> (c matches Call::CallTracer(t)
            && t.inner matches CallTracerInner::SelfDestruct { call_type, to: target, value }
            && target == to && value == balance && call_type@ == selfdestruct_opcode()),
{
    let ghost original = call;
    let ExplorerCall { from, trace_address, subtraces: _, value, gas, gas_used, inner } = call;
    let inner = match inner {
        ExplorerCallInner::Call { input, to, res, call_type } => CallTracerInner::Call {
            call_type: opcode_bytes(call_type),
            to,
            input,
            res,
            value: Some(value),
        },
        ExplorerCallInner::Create { init, res } => {
            let (to, output, error) = match res {
                CreateResult::Success { created_contract_address_hash, created_contract_code } => (
                    Some(created_contract_address_hash),
                    Some(created_contract_code),
                    None,
                ),
                CreateResult::Error { error } => (None, None, Some(error)),
            };
            CallTracerInner::Create {
                input: init,
                error,
                to,
                output,
                value,
                // "CREATE"
                call_type: vec![67u8, 82, 69, 65, 84, 69],
            }
        },
        ExplorerCallInner::SelfDestruct { balance, to } => CallTracerInner::SelfDestruct {
            value: balance,
            to,
            // "SELFDESTRUCT"
            call_type: vec![83u8, 69, 76, 70, 68, 69, 83, 84, 82, 85, 67, 84],
        },
    };
    let c = Call::CallTracer(
        CallTracerCall {
            from,
            gas,
            gas_used,
            trace_address: Some(trace_address),
            inner,
            calls: Vec::new(),
        },
    );
    proof {
        assert(call_view(c)->CallTracer_0.calls =~= Seq::<CallView>::empty());
        assert(call_view(c) =~= call_tracer_view(original));
    }
    c
}

/// The calls of one entry as `callTracer` calls, in key order.
fn convert_entry(entry: BTreeMap<u32, ExplorerCall>) -> (calls: Vec<Call>)
    ensures
        views(calls@) == converted_calls(entry_calls(entry)),
{
    let values = take_entry_calls(entry);
    let ghost vals = values@;
    let mut calls: Vec<Call> = Vec::new();
    for call in it: values.into_iter()
        invariant
            it.seq() == vals,
            views(calls@) == converted_calls(vals.take(it.index() as int)),
    {
        let ghost k = it.index() as int;
        let ghost before = calls@;
        proof {
            assert(0 <= k < vals.len());
            assert(vals.take(k).len() == k);
            assert(converted_calls(vals.take(k)).len() == k);
            assert(views(before).len() == before.len());
            assert(before.len() == k);
            assert(vals[k] == call);
        }
        let c = to_call_tracer(call);
        calls.push(c);
        proof {
            assert(calls@ =~= before.push(c));
            assert forall|i: int| 0 <= i < k + 1 implies #[trigger] views(calls@)[i]
                == converted_calls(vals.take(k + 1))[i] by {
                if i < k {
                    assert(views(calls@)[i] == call_view(before[i]));
                    assert(views(before)[i] == converted_calls(vals.take(k))[i]);
                }
            }
            assert(views(calls@) =~= converted_calls(vals.take(k + 1)));
        }
    }
    proof {
        assert(vals.take(vals.len() as int) =~= vals);
    }
    calls
}

/// Whether the calls of an entry can be nested: a single call, or at most
/// one call with an empty trace address.
pub fn entry_is_nestable(entry: &BTreeMap<u32, ExplorerCall>) -> (r: bool)
    ensures
        r == nestable(entry_calls(*entry)),
{
    broadcast use vstd::std_specs::btree::group_btree_axioms;

    let ghost values = entry_calls(*entry);
    let keys = ascending_key_list(entry);
    assert(values.len() == keys@.len());
    if keys.len() <= 1 {
        return true;
    }
    let mut count: usize = 0;
    let mut i: usize = 0;
    while i < keys.len()
        invariant
            values == entry_calls(*entry),
            keys@ == ascending_keys(entry@),
            keys@.to_set() == entry@.dom(),
            values.len() == keys@.len(),
            i <= keys@.len(),
            count <= i,
            count == empty_address_count(converted_calls(values.take(i as int))),
        decreases keys@.len() - i,
    {
        proof {
            lemma_u32_keys_ordered();
            assert(converted_calls(values.take(i + 1)).drop_last() =~= converted_calls(
                values.take(i as int),
            ));
            assert(converted_calls(values.take(i + 1)).last() == call_tracer_view(values[i as int]));
            assert(keys@.to_set().contains(keys@[i as int]));
        }
        let found = entry.get(&keys[i]);
        match found {
            Some(call) => {
                assert(*call == values[i as int]);
                if call.trace_address.len() == 0 {
                    count = count + 1;
                }
            },
            None => {
                assert(false);
            },
        }
        i = i + 1;
    }
    proof {
        assert(values.take(values.len() as int) =~= values);
    }
    count <= 1
}

/// Whether the calls of every entry can be nested.
pub fn entries_are_nestable(entries: &Vec<BTreeMap<u32, ExplorerCall>>) -> (r: bool)
    ensures
        r == forall|i: int| 0 <= i < entries@.len() ==> nestable(entry_calls(#[trigger] entries@[i])),
{
    let mut i: usize = 0;
    while i < entries.len()
        invariant
            i <= entries@.len(),
            forall|j: int| 0 <= j < i ==> nestable(entry_calls(#[trigger] entries@[j])),
        decreases entries@.len() - i,
    {
        if !entry_is_nestable(&entries[i]) {
            return false;
        }
        i = i + 1;
    }
    true
}

/// Formats the raw listener data into a `SingleTransactionTrace::Raw`, unless
/// the trace ran out of its memory budget.
pub struct RawLayout;

impl RawLayout {
    /// Formats the listener data into a `SingleTransactionTrace`.
    pub fn format(listener: ListenerRaw) -> (r: Option<SingleTransactionTrace>)
        ensures
            listener.remaining_memory_usage is None ==> r is None,
            listener.remaining_memory_usage is Some ==> (r matches Some(
                SingleTransactionTrace::Raw { gas, return_value, struct_logs },
            ) && gas.0@ == seq![listener.final_gas, 0u64, 0u64, 0u64] && return_value
                == listener.return_value && struct_logs == listener.struct_logs),
    {
        // Check if remaining memory usage is None
        match listener.remaining_memory_usage {
            // Construct a SingleTransactionTrace::Raw with the provided data
            Some(_) => Some(
                SingleTransactionTrace::Raw {
                    struct_logs: listener.struct_logs,
                    gas: u256_from_u64(listener.final_gas),
                    return_value: listener.return_value,
                },
            ),
            None => None,
        }
    }
}

/// Formats the calls of the last traced transaction as the flat Explorer
/// call list.
pub struct ExplorerLayout;

impl ExplorerLayout {
    /// The calls of the last entry, in key order, as a call list; `None`
    /// when nothing was traced.
    pub fn format(listener: ListenerCl) -> (r: Option<SingleTransactionTrace>)
        ensures
            listener.entries@.len() == 0 ==> r is None,
            listener.entries@.len() > 0 ==> (r matches Some(SingleTransactionTrace::CallList(calls))
                && calls@ == entry_calls(listener.entries@.last()).map_values(
                |e: ExplorerCall| Call::Explorer(e),
            )),
    {
        let mut entries = listener.entries;
        // Use the last entry in the listener, if available
        if let Some(entry) = entries.pop() {
            let calls = take_entry_calls(entry);
            let ghost values = calls@;
            let mut call_list: Vec<Call> = Vec::new();
            for value in it: calls.into_iter()
                invariant
                    it.seq() == values,
                    call_list@ == values.take(it.index() as int).map_values(
                        |e: ExplorerCall| Call::Explorer(e),
                    ),
            {
                let ghost k = it.index() as int;
                call_list.push(Call::Explorer(value));
                proof {
                    assert(call_list@ =~= values.take(k + 1).map_values(
                        |e: ExplorerCall| Call::Explorer(e),
                    ));
                }
            }
            proof {
                assert(values.take(values.len() as int) =~= values);
            }
            Some(SingleTransactionTrace::CallList(call_list))
        } else {
            None
        }
    }
}

/// Formats every traced transaction as a geth `callTracer` tree.
pub struct CallTracerLayout;

impl CallTracerLayout {
    /// One nested trace per entry that recorded calls, in entry order;
    /// `None` when no entry did.
    pub fn format(listener: ListenerCl) -> (r: Option<Vec<SingleTransactionTrace>>)
        requires
            forall|i: int|
                0 <= i < listener.entries@.len() ==> nestable(
                    entry_calls(#[trigger] listener.entries@[i]),
                ),
        ensures
            r is None <==> forall|i: int|
                0 <= i < listener.entries@.len() ==> entry_calls(#[trigger] listener.entries@[i]).len()
                    == 0,
            r matches Some(traces) ==> traces@.len() == entries_with_calls(listener.entries@),
            non_empty_entries(listener.entries@).len() == 0 ==> r is None,
            non_empty_entries(listener.entries@).len() > 0 ==> (r matches Some(traces) && traces@.len()
                == non_empty_entries(listener.entries@).len() && forall|k: int|
                0 <= k < traces@.len() ==> (#[trigger] traces@[k] matches
                SingleTransactionTrace::CallListNested(c) && call_view(c) == nested_trace(
                entry_calls(non_empty_entries(listener.entries@)[k]),
            ))),
    {
        let ghost entries = listener.entries@;
        let mut traces: Vec<SingleTransactionTrace> = Vec::new();
        for entry in it: listener.entries.into_iter()
            invariant
                it.seq() == entries,
                forall|i: int| 0 <= i < entries.len() ==> nestable(entry_calls(#[trigger] entries[i])),
                traces@.len() == non_empty_entries(entries.take(it.index() as int)).len(),
                forall|k: int|
                    0 <= k < traces@.len() ==> (#[trigger] traces@[k] matches
                    SingleTransactionTrace::CallListNested(c) && call_view(c) == nested_trace(
                    entry_calls(non_empty_entries(entries.take(it.index() as int))[k]),
                )),
        {
            let ghost idx = it.index() as int;
            let ghost done = non_empty_entries(entries.take(idx));
            proof {
                reveal(Seq::filter);
                assert(entries.take(idx + 1).drop_last() =~= entries.take(idx));
                assert(entries.take(idx + 1).last() == entries[idx]);
                assert(nestable(entry_calls(entries[idx])));
            }
            let ghost values = entry_calls(entry);
            let mut call_list = convert_entry(entry);
            // Only transactions that recorded calls are traced.
            if call_list.len() > 0 {
                proof {
                    lemma_converted_calls_have_addresses(values);
                }
                if call_list.len() > 1 {
                    sort_calls(&mut call_list);
                    proof {
                        lemma_sorted_tail_non_empty(converted_calls(values));
                    }
                    process_calls(&mut call_list);
                    proof {
                        lemma_sorted_calls_permutation(converted_calls(values));
                        lemma_nest_stack_leaves_one(sorted_calls(converted_calls(values)));
                    }
                }
                let ghost arranged = views(call_list@);
                assert(call_list@.len() == 1);
                clear_trace_address(&mut call_list[0]);
                let last = call_list.pop();
                match last {
                    Some(call) => {
                        proof {
                            assert(call_view(call) == without_address(arranged[0]));
                            assert(call_view(call) == nested_trace(values));
                        }
                        traces.push(SingleTransactionTrace::CallListNested(call));
                    },
                    None => {},
                }
            }
            proof {
                assert forall|k: int| 0 <= k < traces@.len() implies (#[trigger] traces@[k] matches
                    SingleTransactionTrace::CallListNested(c) && call_view(c) == nested_trace(
                    entry_calls(non_empty_entries(entries.take(idx + 1))[k]),
                )) by {
                    if k < done.len() {
                        assert(non_empty_entries(entries.take(idx + 1))[k] == done[k]);
                    }
                }
            }
        }
        proof {
            assert(entries.take(entries.len() as int) =~= entries);
            lemma_non_empty_entries_count(entries);
        }
        if traces.len() == 0 {
            None
        } else {
            Some(traces)
        }
    }
}

// ---------------------------------------------------------------------------
// Lemmas
// ---------------------------------------------------------------------------

/// Law: the entries kept for tracing are exactly those that recorded at
/// least one call, whatever those calls did, in entry order: there are as
/// many as such entries, none when no entry recorded a call, and the `k`-th
/// kept entry is the entry that recorded calls and has exactly `k` such
/// entries before it.
pub proof fn lemma_non_empty_entries_count(entries: Seq<BTreeMap<u32, ExplorerCall>>)
    ensures
        non_empty_entries(entries).len() == entries_with_calls(entries),
        entries_with_calls(entries) == 0 <==> forall|i: int|
            0 <= i < entries.len() ==> entry_calls(#[trigger] entries[i]).len() == 0,
        forall|k: int|
            0 <= k < non_empty_entries(entries).len() ==> entry_calls(
                #[trigger] non_empty_entries(entries)[k],
            ).len() > 0 && entries.contains(non_empty_entries(entries)[k]),
        forall|k: int|
            0 <= k < non_empty_entries(entries).len() ==> exists|i: int|
                0 <= i < entries.len() && entries[i] == #[trigger] non_empty_entries(entries)[k]
                    && entries_with_calls(entries.take(i)) == k && entry_calls(entries[i]).len()
                    > 0,
    decreases entries.len(),
{
    reveal(Seq::filter);
    if entries.len() > 0 {
        let rest = entries.drop_last();
        lemma_non_empty_entries_count(rest);
        assert(entries =~= rest.push(entries.last()));
        let kept = non_empty_entries(entries);
        let kept_rest = non_empty_entries(rest);
        if entries_with_calls(entries) == 0 {
            assert forall|i: int| 0 <= i < entries.len() implies entry_calls(
                #[trigger] entries[i],
            ).len() == 0 by {
                if i < rest.len() {
                    assert(entries[i] == rest[i]);
                }
            }
        }
        if forall|i: int| 0 <= i < entries.len() ==> entry_calls(#[trigger] entries[i]).len() == 0 {
            assert(entry_calls(entries[entries.len() - 1]).len() == 0);
            assert forall|i: int| 0 <= i < rest.len() implies entry_calls(#[trigger] rest[i]).len()
                == 0 by {
                assert(entries[i] == rest[i]);
            }
        }
        assert forall|k: int| 0 <= k < kept.len() implies entry_calls(#[trigger] kept[k]).len() > 0
            && entries.contains(kept[k]) by {
            if k < kept_rest.len() {
                assert(kept[k] == kept_rest[k]);
                let i = choose|i: int| 0 <= i < rest.len() && rest[i] == kept_rest[k];
                assert(entries[i] == rest[i]);
            } else {
                assert(kept[k] == entries.last());
                assert(entries[entries.len() - 1] == entries.last());
            }
        }
        assert forall|k: int| 0 <= k < kept.len() implies exists|i: int|
            0 <= i < entries.len() && entries[i] == #[trigger] kept[k] && entries_with_calls(
                entries.take(i),
            ) == k && entry_calls(entries[i]).len() > 0 by {
            if k < kept_rest.len() {
                assert(kept[k] == kept_rest[k]);
                let i = choose|i: int|
                    0 <= i < rest.len() && rest[i] == kept_rest[k] && entries_with_calls(
                        rest.take(i),
                    ) == k && entry_calls(rest[i]).len() > 0;
                assert(entries.take(i) =~= rest.take(i));
                assert(entries[i] == rest[i]);
            } else {
                let i = entries.len() - 1;
                assert(kept[k] == entries.last());
                assert(entries.take(i) =~= rest);
                assert(entries[i] == entries.last());
            }
        }
    }
}

/// Converted calls all carry their trace address.
pub proof fn lemma_converted_calls_have_addresses(values: Seq<ExplorerCall>)
    ensures
        all_have_trace_address(converted_calls(values)),
        forall|i: int|
            0 <= i < values.len() ==> address_of(#[trigger] converted_calls(values)[i])
                == values[i].trace_address@,
{
}

/// Law: the `callTracer` form of a call keeps what the call recorded: its
/// sender, gas and trace address; for a message call its target, input,
/// value and outcome, an output staying an output and revert data staying
/// revert data, byte for byte; for a creation its input and value, and the
/// created address and code or the error; for a self-destruct its target,
/// with the balance as value. It starts without sub-calls.
pub proof fn lemma_call_tracer_view_keeps_fields(e: ExplorerCall)
    ensures
        call_tracer_view(e) matches CallView::CallTracer(t) && t.from == e.from && t.gas == e.gas
            && t.gas_used == e.gas_used && t.trace_address == Some(e.trace_address@)
            && t.calls.len() == 0,
        e.inner matches ExplorerCallInner::Call { to, input, res, .. } ==> (call_tracer_view(
            e,
        ) matches CallView::CallTracer(t) && t.inner matches CallTracerInnerView::Call {
            to: callee,
            input: data,
            res: outcome,
            value,
            ..
        } && outcome == res && callee == to && data == input@ && value == Some(e.value)),
        e.inner matches ExplorerCallInner::Create { init, res } ==> (call_tracer_view(
            e,
        ) matches CallView::CallTracer(t) && t.inner matches CallTracerInnerView::Create {
            input,
            to,
            output,
            error,
            value,
            ..
        } && input == init@ && value == e.value && match res {
            CreateResult::Success { created_contract_address_hash, created_contract_code } => to
                == Some(created_contract_address_hash) && output == Some(created_contract_code@)
                && error is None,
            CreateResult::Error { error: reason } => to is None && output is None && error == Some(
                reason@,
            ),
        }),
        e.inner matches ExplorerCallInner::SelfDestruct { balance, to } ==> (call_tracer_view(
            e,
        ) matches CallView::CallTracer(t) && t.inner matches CallTracerInnerView::SelfDestruct {
            to: target,
            value,
            ..
        } && target == to && value == balance),
{
}

/// Inserting a call adds one to the count of empty addresses if its address
/// is empty.
pub proof fn lemma_empty_address_count_insert(s: Seq<CallView>, p: int, x: CallView)
    requires
        0 <= p <= s.len(),
    ensures
        empty_address_count(s.insert(p, x)) == empty_address_count(s) + if address_of(x).len()
            == 0 {
            1nat
        } else {
            0nat
        },
    decreases s.len(),
{
    let t = s.insert(p, x);
    s.insert_ensures(p, x);
    if p == s.len() {
        assert(t.drop_last() =~= s);
    } else {
        lemma_empty_address_count_insert(s.drop_last(), p, x);
        assert(t.drop_last() =~= s.drop_last().insert(p, x));
        assert(t.last() == s.last());
    }
}

/// Sorting keeps the count of empty addresses.
pub proof fn lemma_empty_address_count_sorted(s: Seq<CallView>)
    ensures
        empty_address_count(sorted_calls(s)) == empty_address_count(s),
    decreases s.len(),
{
    if s.len() > 0 {
        let t = sorted_calls(s.drop_last());
        lemma_empty_address_count_sorted(s.drop_last());
        lemma_sorted_calls_permutation(s.drop_last());
        lemma_insertion_index_bounds(t, s.last());
        lemma_empty_address_count_insert(t, insertion_index(t, s.last()), s.last());
    }
}

/// Two different calls with empty addresses make the count at least two.
pub proof fn lemma_empty_address_count_pair(s: Seq<CallView>, i: int, j: int)
    requires
        0 <= i < j < s.len(),
        address_of(s[i]).len() == 0,
        address_of(s[j]).len() == 0,
    ensures
        empty_address_count(s) >= 2,
    decreases s.len(),
{
    if j < s.len() - 1 {
        lemma_empty_address_count_pair(s.drop_last(), i, j);
    } else {
        lemma_empty_address_count_one(s.drop_last(), i);
    }
}

/// A call with an empty address makes the count at least one.
pub proof fn lemma_empty_address_count_one(s: Seq<CallView>, i: int)
    requires
        0 <= i < s.len(),
        address_of(s[i]).len() == 0,
    ensures
        empty_address_count(s) >= 1,
    decreases s.len(),
{
    if i < s.len() - 1 {
        lemma_empty_address_count_one(s.drop_last(), i);
    }
}

/// Sorted calls with at most one empty address have non-empty addresses
/// from their second call on.
pub proof fn lemma_sorted_tail_non_empty(s: Seq<CallView>)
    requires
        s.len() > 1,
        empty_address_count(s) <= 1,
        all_have_trace_address(s),
    ensures
        all_have_trace_address(sorted_calls(s)),
        tail_addresses_non_empty(sorted_calls(s)),
{
    let t = sorted_calls(s);
    lemma_sorted_calls_permutation(s);
    lemma_sorted_calls_contains(s);
    lemma_sorted_calls_in_nesting_order(s);
    lemma_empty_address_count_sorted(s);
    assert forall|i: int| 0 <= i < t.len() implies #[trigger] has_trace_address(t[i]) by {
        assert(t.contains(t[i]));
        assert(s.contains(t[i]));
    }
    assert forall|i: int| 1 <= i < t.len() implies address_of(#[trigger] t[i]).len() > 0 by {
        if address_of(t[i]).len() == 0 {
            assert(!address_precedes(address_of(t[i]), address_of(t[0])));
            lemma_empty_address_count_pair(t, 0, i);
        }
    }
}


/// Inserting a tree adds its calls to the count.
pub proof fn lemma_forest_size_insert(s: Seq<CallView>, p: int, x: CallView)
    requires
        0 <= p <= s.len(),
    ensures
        forest_size(s.insert(p, x)) == forest_size(s) + tree_size(x),
    decreases s.len(),
{
    let t = s.insert(p, x);
    s.insert_ensures(p, x);
    if p == s.len() {
        assert(t.drop_last() =~= s);
    } else {
        lemma_forest_size_insert(s.drop_last(), p, x);
        assert(t.drop_last() =~= s.drop_last().insert(p, x));
        assert(t.last() == s.last());
    }
}

/// Sorting keeps the number of calls.
pub proof fn lemma_forest_size_sorted(s: Seq<CallView>)
    ensures
        forest_size(sorted_calls(s)) == forest_size(s),
    decreases s.len(),
{
    if s.len() > 0 {
        let t = sorted_calls(s.drop_last());
        lemma_forest_size_sorted(s.drop_last());
        lemma_sorted_calls_permutation(s.drop_last());
        lemma_insertion_index_bounds(t, s.last());
        lemma_forest_size_insert(t, insertion_index(t, s.last()), s.last());
    }
}

/// Converted calls are single calls without sub-calls.
pub proof fn lemma_forest_size_converted(values: Seq<ExplorerCall>)
    ensures
        forest_size(converted_calls(values)) == values.len(),
    decreases values.len(),
{
    if values.len() > 0 {
        lemma_forest_size_converted(values.drop_last());
        assert(converted_calls(values).drop_last() =~= converted_calls(values.drop_last()));
        let last = converted_calls(values).last();
        assert(last->CallTracer_0.calls.len() == 0);
        assert(forest_size(last->CallTracer_0.calls) == 0);
        assert(tree_size(last) == 1);
    }
}

/// Law: when at most one call of a transaction has an empty trace address
/// and every other call has its parent address among the transaction's
/// calls, the `callTracer` tree holds every call of the transaction.
#[verifier::spinoff_prover]
#[verifier::rlimit(40)]
pub proof fn lemma_nested_trace_holds_every_call(values: Seq<ExplorerCall>)
    requires
        values.len() >= 1,
        nestable(values),
        parents_present(values),
    ensures
        tree_size(nested_trace(values)) == values.len(),
{
    let calls = converted_calls(values);
    lemma_converted_calls_have_addresses(values);
    lemma_forest_size_converted(values);
    if calls.len() == 1 {
        assert(calls[0]->CallTracer_0.calls.len() == 0);
        assert(forest_size(calls[0]->CallTracer_0.calls) == 0);
        assert(tree_size(calls[0]) == 1);
        assert(tree_size(without_address(calls[0])) == 1);
    } else {
        let t = sorted_calls(calls);
        lemma_sorted_tail_non_empty(calls);
        lemma_sorted_calls_contains(calls);
        lemma_sorted_calls_in_nesting_order(calls);
        lemma_sorted_calls_permutation(calls);
        assert(parents_come_first(t)) by {
            assert forall|i: int| 1 <= i < t.len() implies exists|j: int|
                0 <= j < i && address_of(#[trigger] t[j]) == address_of(#[trigger] t[i]).drop_last() by {
                assert(t.contains(t[i]));
                assert(calls.contains(t[i]));
                let m0 = choose|m0: int| 0 <= m0 < calls.len() && calls[m0] == t[i];
                assert(values[m0].trace_address@.len() > 0);
                let m = choose|m: int|
                    0 <= m < values.len() && (#[trigger] values[m]).trace_address@
                        == values[m0].trace_address@.drop_last();
                assert(calls.contains(calls[m]));
                assert(t.contains(calls[m]));
                let j = choose|j: int| 0 <= j < t.len() && t[j] == calls[m];
                assert(address_of(t[j]) == address_of(t[i]).drop_last());
                if j >= i {
                    if j > i {
                        assert(!address_precedes(address_of(t[j]), address_of(t[i])));
                    }
                    assert(false);
                }
            }
        }
        lemma_forest_size_sorted(calls);
        lemma_nest_stack_keeps_every_call(t);
        lemma_nest_stack_leaves_one(t);
        let n = nest_stack(t);
        assert(n.drop_last().len() == 0);
        assert(forest_size(n.drop_last()) == 0);
        assert(forest_size(n) == tree_size(n[0]));
        if let CallView::CallTracer(r) = n[0] {
            assert(tree_size(without_address(n[0])) == 1 + forest_size(r.calls));
        }
    }
}

/// No call of the tree, the root included, carries a trace address.
pub open spec fn carries_no_trace_address(c: CallView) -> bool {
    !has_trace_address(c) && addresses_cleared_below(c)
}

/// Law: the `callTracer` tree of a transaction carries no trace address at
/// any level.
pub proof fn lemma_nested_trace_has_no_addresses(values: Seq<ExplorerCall>)
    requires
        values.len() >= 1,
    ensures
        carries_no_trace_address(nested_trace(values)),
{
    let calls = converted_calls(values);
    assert forall|i: int| 0 <= i < calls.len() implies addresses_cleared_below(#[trigger] calls[i]) by {
        assert(calls[i]->CallTracer_0.calls.len() == 0);
    }
    let arranged = if calls.len() > 1 {
        nest_stack(sorted_calls(calls))
    } else {
        calls
    };
    if calls.len() > 1 {
        let t = sorted_calls(calls);
        lemma_sorted_calls_contains(calls);
        lemma_sorted_calls_permutation(calls);
        assert forall|i: int| 0 <= i < t.len() implies addresses_cleared_below(#[trigger] t[i]) by {
            assert(t.contains(t[i]));
            assert(calls.contains(t[i]));
        }
        lemma_nest_stack_clears_addresses(t);
        lemma_nest_stack_leaves_one(t);
    }
    assert(addresses_cleared_below(arranged[0]));
    if let CallView::CallTracer(r) = arranged[0] {
        let w = without_address(arranged[0]);
        assert(w->CallTracer_0.calls == r.calls);
    }
}

/// Law: the `callTracer` tree of a transaction with more than one call is
/// the tree of its first call in nesting order: every other call hangs, with
/// everything below it, under the first call before it whose trace address
/// is its parent address; and under every call, at every depth, the
/// sub-calls come in ascending order of the last index of their trace
/// address.
pub proof fn lemma_nested_trace_is_ordered_tree(values: Seq<ExplorerCall>)
    requires
        values.len() > 1,
        nestable(values),
    ensures
        nested_trace(values) == without_address(tree_at(sorted_calls(converted_calls(values)), 0)),
        forall|j: int|
            0 <= j < values.len() ==> (#[trigger] tree_at(sorted_calls(converted_calls(values)), j))
                == with_calls(
                sorted_calls(converted_calls(values))[j],
                hung_calls(sorted_calls(converted_calls(values)), j, j + 1),
            ) && sorted_calls(converted_calls(values))[j]->CallTracer_0.calls.len() == 0,
        forall|j: int, k: int, l: int|
            0 <= j < values.len() && 0 <= k < l < hung_positions(
                sorted_calls(converted_calls(values)),
                j,
                j + 1,
            ).len() ==> address_of(
                sorted_calls(
                    converted_calls(values),
                )[#[trigger] hung_positions(sorted_calls(converted_calls(values)), j, j + 1)[k]],
            ).last() <= address_of(
                sorted_calls(
                    converted_calls(values),
                )[#[trigger] hung_positions(sorted_calls(converted_calls(values)), j, j + 1)[l]],
            ).last(),
{
    let calls = converted_calls(values);
    let s = sorted_calls(calls);
    lemma_converted_calls_have_addresses(values);
    lemma_sorted_tail_non_empty(calls);
    lemma_sorted_calls_in_nesting_order(calls);
    lemma_sorted_calls_permutation(calls);
    lemma_sorted_calls_contains(calls);
    lemma_nest_stack_builds_tree(s);
    assert forall|j: int| 0 <= j < values.len() implies (#[trigger] tree_at(s, j)) == with_calls(
        s[j],
        hung_calls(s, j, j + 1),
    ) && s[j]->CallTracer_0.calls.len() == 0 by {
        assert(s.contains(s[j]));
        assert(calls.contains(s[j]));
    }
    assert forall|j: int, k: int, l: int|
        0 <= j < values.len() && 0 <= k < l < hung_positions(s, j, j + 1).len() implies address_of(
        s[#[trigger] hung_positions(s, j, j + 1)[k]],
    ).last() <= address_of(s[#[trigger] hung_positions(s, j, j + 1)[l]]).last() by {
        lemma_siblings_in_index_order(s, j);
    }
}

/// Law: the root of a transaction's `callTracer` tree is its outermost call
/// (its only call, or the one with the empty trace address), with that
/// call's sender, gas and what it did, its output or revert data included,
/// and without a trace address.
pub proof fn lemma_nested_trace_root(values: Seq<ExplorerCall>, r: int)
    requires
        0 <= r < values.len(),
        nestable(values),
        values.len() == 1 || values[r].trace_address@.len() == 0,
    ensures
        nested_trace(values) matches CallView::CallTracer(t) && call_tracer_view(
            values[r],
        ) matches CallView::CallTracer(u) && t.from == u.from && t.gas == u.gas && t.gas_used
            == u.gas_used && t.inner == u.inner && t.trace_address is None,
        nested_trace(values) matches CallView::CallTracer(t) && t.from == values[r].from && t.gas
            == values[r].gas && t.gas_used == values[r].gas_used,
        values[r].inner matches ExplorerCallInner::Call { res, .. } ==> (nested_trace(
            values,
        ) matches CallView::CallTracer(t) && t.inner matches CallTracerInnerView::Call {
            res: outcome,
            ..
        } && outcome == res),
{
    let calls = converted_calls(values);
    lemma_converted_calls_have_addresses(values);
    lemma_call_tracer_view_keeps_fields(values[r]);
    if values.len() > 1 {
        let s = sorted_calls(calls);
        lemma_sorted_tail_non_empty(calls);
        lemma_sorted_calls_permutation(calls);
        lemma_sorted_calls_contains(calls);
        assert(calls[r] == call_tracer_view(values[r]));
        assert(calls.contains(calls[r]));
        assert(s.contains(calls[r]));
        let k = choose|k: int| 0 <= k < s.len() && s[k] == calls[r];
        assert(address_of(s[k]).len() == 0);
        assert(k == 0);
        lemma_nest_stack_builds_tree(s);
    } else {
        assert(r == 0);
    }
}

} // verus!
