use std::collections::BTreeMap;

use evm_tracing::calls::{
    Call, CallResult, CallTracerCall, CallTracerInner, CallType, CreateResult, ExplorerCall,
    ExplorerCallInner,
};
use evm_tracing::layouts::{
    entries_are_nestable, entry_is_nestable, to_call_tracer, CallTracerLayout, ExplorerLayout,
    RawLayout,
};
use evm_tracing::listeners::{ListenerCl, ListenerRaw};
use evm_tracing::primitives::{H160, U256};
use evm_tracing::types::SingleTransactionTrace;

fn entries(list: Vec<Vec<(u32, ExplorerCall)>>) -> Vec<BTreeMap<u32, ExplorerCall>> {
    list.into_iter().map(|e| e.into_iter().collect()).collect()
}

fn entry(list: Vec<(u32, ExplorerCall)>) -> BTreeMap<u32, ExplorerCall> {
    list.into_iter().collect()
}

fn addr(b: u8) -> H160 {
    H160([b; 20])
}

fn word(v: u64) -> U256 {
    U256([v, 0, 0, 0])
}

fn explorer_call(trace_address: Vec<u32>, inner: ExplorerCallInner) -> ExplorerCall {
    ExplorerCall {
        from: addr(1),
        trace_address,
        subtraces: 0,
        value: word(7),
        gas: word(100),
        gas_used: word(40),
        inner,
    }
}

fn plain_call(trace_address: Vec<u32>, call_type: CallType, input: Vec<u8>) -> ExplorerCall {
    explorer_call(
        trace_address,
        ExplorerCallInner::Call {
            call_type,
            to: addr(2),
            input,
            res: CallResult::Output(vec![0xaa]),
        },
    )
}

fn tracer_call(
    trace_address: Option<Vec<u32>>,
    call_type: &str,
    input: Vec<u8>,
    calls: Vec<Call>,
) -> Call {
    Call::CallTracer(CallTracerCall {
        from: addr(1),
        trace_address,
        gas: word(100),
        gas_used: word(40),
        inner: CallTracerInner::Call {
            call_type: call_type.as_bytes().to_vec(),
            to: addr(2),
            input,
            res: CallResult::Output(vec![0xaa]),
            value: Some(word(7)),
        },
        calls,
    })
}

#[test]
fn raw_layout_keeps_the_trace_when_memory_is_left() {
    let listener = ListenerRaw {
        remaining_memory_usage: Some(10),
        struct_logs: vec![],
        final_gas: 21000,
        return_value: vec![1, 2, 3],
    };
    let trace = RawLayout::format(listener).expect("memory was left");
    assert_eq!(
        trace,
        SingleTransactionTrace::Raw {
            gas: U256([21000, 0, 0, 0]),
            return_value: vec![1, 2, 3],
            struct_logs: vec![],
        }
    );
}

#[test]
fn raw_layout_drops_the_trace_when_memory_ran_out() {
    let listener = ListenerRaw {
        remaining_memory_usage: None,
        struct_logs: vec![],
        final_gas: 5,
        return_value: vec![],
    };
    assert!(RawLayout::format(listener).is_none());
}

#[test]
fn explorer_layout_lists_the_last_entry() {
    let first = plain_call(vec![], CallType::Call, vec![1]);
    let second = plain_call(vec![], CallType::StaticCall, vec![2]);
    let third = plain_call(vec![0], CallType::DelegateCall, vec![3]);
    let listener = ListenerCl {
        entries: entries(vec![vec![(0, first)], vec![(0, second.clone()), (1, third.clone())]]),
    };
    let trace = ExplorerLayout::format(listener).expect("an entry exists");
    assert_eq!(
        trace,
        SingleTransactionTrace::CallList(vec![Call::Explorer(second), Call::Explorer(third)])
    );
}

#[test]
fn explorer_layout_without_entries_is_empty() {
    assert!(ExplorerLayout::format(ListenerCl { entries: entries(vec![]) }).is_none());
}

#[test]
fn call_tracer_layout_nests_calls_by_trace_address() {
    let root = plain_call(vec![], CallType::Call, vec![0]);
    let first = plain_call(vec![0], CallType::StaticCall, vec![1]);
    let second = plain_call(vec![1], CallType::DelegateCall, vec![2]);
    let grandchild = plain_call(vec![0, 0], CallType::CallCode, vec![3]);
    let listener = ListenerCl {
        entries: entries(vec![vec![(0, root), (1, first), (2, grandchild), (3, second)]]),
    };
    let traces = CallTracerLayout::format(listener).expect("one transaction");
    let expected = tracer_call(
        None,
        "CALL",
        vec![0],
        vec![
            tracer_call(
                None,
                "STATICCALL",
                vec![1],
                vec![tracer_call(None, "CALLCODE", vec![3], vec![])],
            ),
            tracer_call(None, "DELEGATECALL", vec![2], vec![]),
        ],
    );
    assert_eq!(traces, vec![SingleTransactionTrace::CallListNested(expected)]);
}

#[test]
fn call_tracer_layout_orders_siblings_by_index() {
    let root = plain_call(vec![], CallType::Call, vec![0]);
    let c2 = plain_call(vec![2], CallType::Call, vec![12]);
    let c0 = plain_call(vec![0], CallType::Call, vec![10]);
    let c1 = plain_call(vec![1], CallType::Call, vec![11]);
    let listener = ListenerCl { entries: entries(vec![vec![(0, c2), (1, root), (2, c0), (3, c1)]]) };
    let traces = CallTracerLayout::format(listener).expect("one transaction");
    let expected = tracer_call(
        None,
        "CALL",
        vec![0],
        vec![
            tracer_call(None, "CALL", vec![10], vec![]),
            tracer_call(None, "CALL", vec![11], vec![]),
            tracer_call(None, "CALL", vec![12], vec![]),
        ],
    );
    assert_eq!(traces, vec![SingleTransactionTrace::CallListNested(expected)]);
}

#[test]
fn call_tracer_layout_converts_creations_and_self_destructs() {
    let root = plain_call(vec![], CallType::Call, vec![]);
    let created = explorer_call(
        vec![0],
        ExplorerCallInner::Create {
            init: vec![0x60],
            res: CreateResult::Success {
                created_contract_address_hash: addr(9),
                created_contract_code: vec![0xfe],
            },
        },
    );
    let failed = explorer_call(
        vec![1],
        ExplorerCallInner::Create {
            init: vec![0x61],
            res: CreateResult::Error { error: b"revert".to_vec() },
        },
    );
    let destructed =
        explorer_call(vec![2], ExplorerCallInner::SelfDestruct { balance: word(3), to: addr(4) });
    let listener =
        ListenerCl { entries: entries(vec![vec![(0, root), (1, created), (2, failed), (3, destructed)]]) };
    let traces = CallTracerLayout::format(listener).expect("one transaction");
    let node = |inner: CallTracerInner| {
        Call::CallTracer(CallTracerCall {
            from: addr(1),
            trace_address: None,
            gas: word(100),
            gas_used: word(40),
            inner,
            calls: vec![],
        })
    };
    let expected = tracer_call(
        None,
        "CALL",
        vec![],
        vec![
            node(CallTracerInner::Create {
                call_type: b"CREATE".to_vec(),
                input: vec![0x60],
                to: Some(addr(9)),
                output: Some(vec![0xfe]),
                error: None,
                value: word(7),
            }),
            node(CallTracerInner::Create {
                call_type: b"CREATE".to_vec(),
                input: vec![0x61],
                to: None,
                output: None,
                error: Some(b"revert".to_vec()),
                value: word(7),
            }),
            node(CallTracerInner::SelfDestruct {
                call_type: b"SELFDESTRUCT".to_vec(),
                to: addr(4),
                value: word(3),
            }),
        ],
    );
    assert_eq!(traces, vec![SingleTransactionTrace::CallListNested(expected)]);
}

#[test]
fn call_tracer_layout_gives_one_trace_per_non_empty_entry() {
    let a = plain_call(vec![], CallType::Call, vec![1]);
    let b = plain_call(vec![], CallType::Call, vec![2]);
    let listener = ListenerCl { entries: entries(vec![vec![(0, a)], vec![], vec![(0, b)]]) };
    let traces = CallTracerLayout::format(listener).expect("two transactions");
    assert_eq!(
        traces,
        vec![
            SingleTransactionTrace::CallListNested(tracer_call(None, "CALL", vec![1], vec![])),
            SingleTransactionTrace::CallListNested(tracer_call(None, "CALL", vec![2], vec![])),
        ]
    );
}

#[test]
fn call_tracer_layout_without_calls_is_empty() {
    assert!(CallTracerLayout::format(ListenerCl { entries: entries(vec![vec![], vec![]]) }).is_none());
    assert!(CallTracerLayout::format(ListenerCl { entries: entries(vec![]) }).is_none());
}

#[test]
fn call_tracer_layout_drops_calls_without_parent() {
    let root = plain_call(vec![], CallType::Call, vec![0]);
    let orphan = plain_call(vec![3, 1], CallType::Call, vec![9]);
    let listener = ListenerCl { entries: entries(vec![vec![(0, root), (1, orphan)]]) };
    let traces = CallTracerLayout::format(listener).expect("one transaction");
    assert_eq!(
        traces,
        vec![SingleTransactionTrace::CallListNested(tracer_call(None, "CALL", vec![0], vec![]))]
    );
}

#[test]
fn call_tracer_layout_single_call_loses_its_address() {
    let only = plain_call(vec![4, 2], CallType::Call, vec![5]);
    let listener = ListenerCl { entries: entries(vec![vec![(0, only)]]) };
    let traces = CallTracerLayout::format(listener).expect("one transaction");
    assert_eq!(
        traces,
        vec![SingleTransactionTrace::CallListNested(tracer_call(None, "CALL", vec![5], vec![]))]
    );
}

#[test]
fn entries_with_one_root_are_nestable() {
    let root = || plain_call(vec![], CallType::Call, vec![0]);
    let child = || plain_call(vec![0], CallType::Call, vec![1]);
    assert!(entry_is_nestable(&entry(vec![(0, root()), (1, child())])));
    assert!(entry_is_nestable(&entry(vec![(0, root())])));
    assert!(entry_is_nestable(&entry(vec![])));
    assert!(!entry_is_nestable(&entry(vec![(0, root()), (1, child()), (2, root())])));
    assert!(entries_are_nestable(&entries(vec![vec![(0, root())], vec![(0, root()), (1, child())]])));
    assert!(!entries_are_nestable(&entries(vec![vec![(0, root())], vec![(0, root()), (1, root())]])));
}

#[test]
fn explorer_calls_convert_to_call_tracer_calls() {
    let call = plain_call(vec![1, 2], CallType::DelegateCall, vec![7]);
    assert_eq!(
        to_call_tracer(call),
        tracer_call(Some(vec![1, 2]), "DELEGATECALL", vec![7], vec![])
    );
}

#[test]
fn explorer_layout_follows_key_order() {
    let late = plain_call(vec![], CallType::Call, vec![5]);
    let early = plain_call(vec![0], CallType::Call, vec![1]);
    let listener = ListenerCl { entries: entries(vec![vec![(5, late.clone()), (1, early.clone())]]) };
    let trace = ExplorerLayout::format(listener).expect("an entry exists");
    assert_eq!(trace, SingleTransactionTrace::CallList(vec![Call::Explorer(early), Call::Explorer(late)]));
}
