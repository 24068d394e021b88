use std::collections::BTreeMap;

use evm_tracing::calls::{Call, CallResult, CallTracerCall, CallTracerInner, CallType, ExplorerCall, ExplorerCallInner};
use evm_tracing::debug::{
    check_block_trace_type, check_transaction_trace_type, empty_block_response, format_block_call_list,
    format_transaction_call_list, format_transaction_raw, handle_trace_params, replay_mode,
    resolve_block_request, select_tracer, BlockSelection, DebugError, ReplayMode,
    RequestBlockId, RequestBlockTag, Response, TraceParams, TracerInput, EXPLORER_JS_CODE_HASH,
    EXPLORER_JS_CODE_HASH_V2,
};
use evm_tracing::listeners::{ListenerCl, ListenerRaw};
use evm_tracing::primitives::{H160, H256, U256};
use evm_tracing::types::{SingleTransactionTrace, TraceType};

fn entries(list: Vec<Vec<(u32, ExplorerCall)>>) -> Vec<BTreeMap<u32, ExplorerCall>> {
    list.into_iter().map(|e| e.into_iter().collect()).collect()
}

fn params(tracer: Option<&str>, storage: Option<bool>, memory: Option<bool>, stack: Option<bool>) -> TraceParams {
    TraceParams {
        disable_storage: storage,
        disable_memory: memory,
        disable_stack: stack,
        tracer: tracer.map(|t| t.to_string()),
        timeout: None,
    }
}

fn explorer_call(trace_address: Vec<u32>, input: u8) -> ExplorerCall {
    ExplorerCall {
        from: H160([1; 20]),
        trace_address,
        subtraces: 0,
        value: U256([0; 4]),
        gas: U256([10, 0, 0, 0]),
        gas_used: U256([1, 0, 0, 0]),
        inner: ExplorerCallInner::Call {
            call_type: CallType::Call,
            to: H160([2; 20]),
            input: vec![input],
            res: CallResult::Output(vec![]),
        },
    }
}

fn nested(input: u8, calls: Vec<Call>) -> Call {
    Call::CallTracer(CallTracerCall {
        from: H160([1; 20]),
        trace_address: None,
        gas: U256([10, 0, 0, 0]),
        gas_used: U256([1, 0, 0, 0]),
        inner: CallTracerInner::Call {
            call_type: b"CALL".to_vec(),
            to: H160([2; 20]),
            input: vec![input],
            res: CallResult::Output(vec![]),
            value: Some(U256([0; 4])),
        },
        calls,
    })
}

#[test]
fn no_params_trace_raw_with_everything() {
    assert_eq!(
        handle_trace_params(None),
        Ok((
            TracerInput::Unset,
            TraceType::Raw { disable_storage: false, disable_memory: false, disable_stack: false }
        ))
    );
}

#[test]
fn params_without_tracer_set_the_raw_switches() {
    assert_eq!(
        handle_trace_params(Some(params(None, Some(true), None, Some(false)))),
        Ok((
            TracerInput::Unset,
            TraceType::Raw { disable_storage: true, disable_memory: false, disable_stack: false }
        ))
    );
}

#[test]
fn call_tracer_name_selects_the_call_tracer() {
    assert_eq!(
        handle_trace_params(Some(params(Some("callTracer"), None, None, None))),
        Ok((TracerInput::CallTracer, TraceType::CallList))
    );
}

#[test]
fn unknown_javascript_is_refused_with_its_hash() {
    let code = "function() { return 1; }";
    let expected = sp_io::hashing::twox_128(code.as_bytes());
    assert_ne!(&expected[..], code.as_bytes().get(..16).unwrap());
    assert_eq!(
        handle_trace_params(Some(params(Some(code), None, None, None))),
        Err(DebugError::JavascriptTracingUnavailable(expected))
    );
}

#[test]
fn known_explorer_hashes_select_the_explorer() {
    assert_eq!(select_tracer("anything", EXPLORER_JS_CODE_HASH), Ok(TracerInput::Explorer));
    assert_eq!(select_tracer("callTracer", EXPLORER_JS_CODE_HASH_V2), Ok(TracerInput::Explorer));
    assert_eq!(select_tracer("callTracer", [0; 16]), Ok(TracerInput::CallTracer));
    assert_eq!(
        select_tracer("calltracer", [3; 16]),
        Err(DebugError::JavascriptTracingUnavailable([3; 16]))
    );
}

#[test]
fn block_requests_resolve_to_heights_or_hashes() {
    assert_eq!(resolve_block_request(RequestBlockId::Number(12), 99), Ok(BlockSelection::Number(12)));
    assert_eq!(
        resolve_block_request(RequestBlockId::Tag(RequestBlockTag::Latest), 99),
        Ok(BlockSelection::Number(99))
    );
    assert_eq!(
        resolve_block_request(RequestBlockId::Tag(RequestBlockTag::Earliest), 99),
        Ok(BlockSelection::Number(0))
    );
    assert_eq!(
        resolve_block_request(RequestBlockId::Tag(RequestBlockTag::Pending), 99),
        Err(DebugError::PendingBlockUnsupported)
    );
    let h = H256([5; 32]);
    assert_eq!(resolve_block_request(RequestBlockId::Hash(h), 99), Ok(BlockSelection::EthereumHash(h)));
}

#[test]
fn trace_types_per_request_kind() {
    assert_eq!(check_block_trace_type(TraceType::CallList), Ok(()));
    assert_eq!(check_block_trace_type(TraceType::Block), Err(DebugError::BlockTraceRequiresCallList));
    assert_eq!(
        check_block_trace_type(TraceType::Raw { disable_storage: false, disable_memory: false, disable_stack: false }),
        Err(DebugError::BlockTraceRequiresCallList)
    );
    assert_eq!(check_transaction_trace_type(TraceType::CallList), Ok(()));
    assert_eq!(
        check_transaction_trace_type(TraceType::Block),
        Err(DebugError::TraceTypeUnsupported(TraceType::Block))
    );
}

#[test]
fn replay_mode_depends_on_the_api_version() {
    assert_eq!(replay_mode(4, false), Ok(ReplayMode::Current));
    assert_eq!(replay_mode(5, true), Ok(ReplayMode::Current));
    assert_eq!(replay_mode(3, true), Ok(ReplayMode::Legacy));
    assert_eq!(replay_mode(1, false), Err(DebugError::LegacyTransactionExpected));
}

#[test]
fn raw_transaction_traces() {
    let ok = ListenerRaw { remaining_memory_usage: Some(0), struct_logs: vec![], final_gas: 3, return_value: vec![9] };
    assert_eq!(
        format_transaction_raw(ok),
        Ok(SingleTransactionTrace::Raw { gas: U256([3, 0, 0, 0]), return_value: vec![9], struct_logs: vec![] })
    );
    let too_large = ListenerRaw { remaining_memory_usage: None, struct_logs: vec![], final_gas: 3, return_value: vec![] };
    assert_eq!(format_transaction_raw(too_large), Err(DebugError::RawTraceTooLarge));
}

#[test]
fn call_list_transaction_traces() {
    let listener = || ListenerCl {
        entries: entries(vec![
            vec![(0, explorer_call(vec![], 1))],
            vec![(0, explorer_call(vec![], 2)), (1, explorer_call(vec![0], 3))],
        ]),
    };
    assert_eq!(
        format_transaction_call_list(TracerInput::Explorer, listener()),
        Ok(SingleTransactionTrace::CallList(vec![
            Call::Explorer(explorer_call(vec![], 2)),
            Call::Explorer(explorer_call(vec![0], 3)),
        ]))
    );
    assert_eq!(
        format_transaction_call_list(TracerInput::CallTracer, listener()),
        Ok(SingleTransactionTrace::CallListNested(nested(2, vec![nested(3, vec![])])))
    );
    assert_eq!(
        format_transaction_call_list(TracerInput::Unset, listener()),
        Err(DebugError::TransactionTracerFormatUnresolved)
    );
    assert_eq!(
        format_transaction_call_list(TracerInput::CallTracer, ListenerCl { entries: entries(vec![vec![]]) }),
        Err(DebugError::TraceResultEmpty)
    );
    assert_eq!(
        format_transaction_call_list(TracerInput::Explorer, ListenerCl { entries: entries(vec![]) }),
        Err(DebugError::TraceResultEmpty)
    );
}

#[test]
fn call_list_block_traces() {
    let listener = || ListenerCl {
        entries: entries(vec![vec![(0, explorer_call(vec![], 1))], vec![], vec![(0, explorer_call(vec![], 2))]]),
    };
    assert_eq!(
        format_block_call_list(TracerInput::CallTracer, listener()),
        Ok(vec![
            SingleTransactionTrace::CallListNested(nested(1, vec![])),
            SingleTransactionTrace::CallListNested(nested(2, vec![])),
        ])
    );
    assert_eq!(
        format_block_call_list(TracerInput::Explorer, listener()),
        Err(DebugError::BlockTracerFormatUnresolved)
    );
    assert_eq!(
        format_block_call_list(TracerInput::CallTracer, ListenerCl { entries: entries(vec![]) }),
        Err(DebugError::TraceResultEmpty)
    );
}

#[test]
fn blocks_without_transactions_answer_empty() {
    assert_eq!(empty_block_response(0), Some(Response::Block(vec![])));
    assert_eq!(empty_block_response(3), None);
}

#[test]
fn refusal_messages() {
    let hash = [0x94u8, 0xd9, 0, 7, 10, 99, 100, 255, 1, 2, 3, 4, 5, 6, 7, 8];
    assert_eq!(
        DebugError::JavascriptTracingUnavailable(hash).message(),
        format!("javascript based tracing is not available (hash :{:?})", hash)
    );
    assert_eq!(DebugError::PendingBlockUnsupported.message(), "'pending' blocks are not supported");
    assert_eq!(DebugError::TraceResultEmpty.message(), format!("{:?}", "Trace result is empty."));
    assert_eq!(DebugError::BlockTracerFormatUnresolved.message(), "Bug: failed to resolve the tracer format.");
    assert_eq!(DebugError::TransactionTracerFormatUnresolved.message(), "Bug: Failed to resolve the tracer format.");
    assert_eq!(
        DebugError::BlockTraceRequiresCallList.message(),
        "debug_traceBlock functions currently only support callList mode (enabled\n\t\t\t\tby providing `{{'tracer': 'callTracer'}}` in the request)."
    );
    assert_eq!(
        DebugError::RawTraceTooLarge.message(),
        "Replayed transaction generated too much data. Try disabling memory or storage?"
    );
    assert_eq!(
        DebugError::TraceTypeUnsupported(TraceType::Block).message(),
        "Bug: `handle_transaction_request` does not support Block."
    );
    assert_eq!(
        DebugError::TraceTypeUnsupported(TraceType::Raw { disable_storage: true, disable_memory: false, disable_stack: true }).message(),
        format!(
            "Bug: `handle_transaction_request` does not support {:?}.",
            TraceType::Raw { disable_storage: true, disable_memory: false, disable_stack: true }
        )
    );
    assert_eq!(DebugError::LegacyTransactionExpected.message(), "Bug: pre-London runtime expects legacy transactions");
}
