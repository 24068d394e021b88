use evm_tracing::calls::{Call, CallResult, CallTracerCall, CallTracerInner};
use evm_tracing::nesting::{find_parent_index, process_calls, sort_calls};
use evm_tracing::order::trace_address_precedes;
use evm_tracing::primitives::{H160, U256};

fn node(trace_address: Option<Vec<u32>>, tag: u8, calls: Vec<Call>) -> Call {
    Call::CallTracer(CallTracerCall {
        from: H160([tag; 20]),
        trace_address,
        gas: U256([0; 4]),
        gas_used: U256([0; 4]),
        inner: CallTracerInner::Call {
            call_type: b"CALL".to_vec(),
            to: H160([0; 20]),
            input: vec![tag],
            res: CallResult::Output(vec![]),
            value: None,
        },
        calls,
    })
}

fn address(c: &Call) -> Vec<u32> {
    match c {
        Call::CallTracer(t) => t.trace_address.clone().unwrap(),
        Call::Explorer(e) => e.trace_address.clone(),
    }
}

#[test]
fn shorter_addresses_come_first() {
    assert!(trace_address_precedes(&vec![], &vec![0]));
    assert!(trace_address_precedes(&vec![5], &vec![0, 0]));
    assert!(!trace_address_precedes(&vec![0, 0], &vec![5]));
}

#[test]
fn among_equal_lengths_greater_addresses_come_first() {
    assert!(trace_address_precedes(&vec![1, 2], &vec![1, 1]));
    assert!(!trace_address_precedes(&vec![1, 1], &vec![1, 2]));
    assert!(trace_address_precedes(&vec![2, 0], &vec![1, 9]));
    assert!(!trace_address_precedes(&vec![3, 3], &vec![3, 3]));
}

#[test]
fn sort_calls_orders_by_trace_address() {
    let mut calls = vec![
        node(Some(vec![0]), 1, vec![]),
        node(Some(vec![0, 1]), 2, vec![]),
        node(Some(vec![]), 3, vec![]),
        node(Some(vec![1]), 4, vec![]),
        node(Some(vec![0, 0]), 5, vec![]),
    ];
    sort_calls(&mut calls);
    let order: Vec<Vec<u32>> = calls.iter().map(address).collect();
    assert_eq!(order, vec![vec![], vec![1], vec![0], vec![0, 1], vec![0, 0]]);
}

#[test]
fn sort_calls_keeps_equal_addresses_in_order() {
    let mut calls = vec![
        node(Some(vec![2]), 1, vec![]),
        node(Some(vec![]), 2, vec![]),
        node(Some(vec![2]), 3, vec![]),
    ];
    sort_calls(&mut calls);
    assert_eq!(
        calls,
        vec![node(Some(vec![]), 2, vec![]), node(Some(vec![2]), 1, vec![]), node(Some(vec![2]), 3, vec![])]
    );
}

#[test]
fn find_parent_index_finds_the_first_parent() {
    let list = vec![
        node(Some(vec![]), 1, vec![]),
        node(Some(vec![1]), 2, vec![]),
        node(Some(vec![1]), 3, vec![]),
    ];
    assert_eq!(find_parent_index(&node(Some(vec![1, 0]), 9, vec![]), &list), Some(1));
    assert_eq!(find_parent_index(&node(Some(vec![4]), 9, vec![]), &list), Some(0));
    assert_eq!(find_parent_index(&node(Some(vec![2, 0]), 9, vec![]), &list), None);
}

#[test]
fn process_calls_hangs_calls_under_their_parents() {
    let mut stack = vec![
        node(Some(vec![]), 1, vec![]),
        node(Some(vec![1]), 2, vec![]),
        node(Some(vec![0]), 3, vec![]),
        node(Some(vec![0, 0]), 4, vec![]),
    ];
    process_calls(&mut stack);
    assert_eq!(
        stack,
        vec![node(
            Some(vec![]),
            1,
            vec![
                node(None, 3, vec![node(None, 4, vec![])]),
                node(None, 2, vec![]),
            ]
        )]
    );
}

#[test]
fn process_calls_leaves_a_single_call_alone() {
    let mut stack = vec![node(Some(vec![3]), 1, vec![])];
    process_calls(&mut stack);
    assert_eq!(stack, vec![node(Some(vec![3]), 1, vec![])]);
    let mut empty: Vec<Call> = vec![];
    process_calls(&mut empty);
    assert!(empty.is_empty());
}

fn explorer(tag: u8) -> Call {
    Call::Explorer(evm_tracing::calls::ExplorerCall {
        from: H160([tag; 20]),
        trace_address: vec![],
        subtraces: 0,
        value: U256([0; 4]),
        gas: U256([0; 4]),
        gas_used: U256([0; 4]),
        inner: evm_tracing::calls::ExplorerCallInner::SelfDestruct { balance: U256([0; 4]), to: H160([0; 20]) },
    })
}

#[test]
fn find_parent_index_in_an_empty_list_finds_nothing() {
    assert_eq!(find_parent_index(&explorer(1), &vec![]), None);
    assert_eq!(find_parent_index(&node(Some(vec![]), 1, vec![]), &vec![]), None);
}

#[test]
fn find_parent_index_stops_at_the_first_parent() {
    let list = vec![node(Some(vec![2]), 1, vec![]), explorer(2)];
    assert_eq!(find_parent_index(&node(Some(vec![2, 7]), 9, vec![]), &list), Some(0));
}

#[test]
fn single_calls_need_no_trace_address() {
    let mut one = vec![explorer(3)];
    sort_calls(&mut one);
    assert_eq!(one, vec![explorer(3)]);
    process_calls(&mut one);
    assert_eq!(one, vec![explorer(3)]);
}
