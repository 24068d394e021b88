//! Trace results and the trace modes a request can ask for.

use std::collections::BTreeMap;

use vstd::prelude::*;

use crate::calls::Call;
use crate::primitives::{H256, U256};

verus! {

/// How a transaction is to be traced.
#[derive(Clone, Copy, Debug, PartialEq, Eq, Structural)]
pub enum TraceType {
    /// Classic geth with no javascript based tracing.
    Raw { disable_storage: bool, disable_memory: bool, disable_stack: bool },
    /// List of calls and subcalls formatted with an input tracer (i.e. callTracer or Explorer).
    CallList,
    /// A single block trace. Use in `debug_traceTransactionByNumber` / `traceTransactionByHash`.
    Block,
}

/// Single transaction trace.
#[derive(Debug, PartialEq, Eq)]
pub enum SingleTransactionTrace {
    /// Classical output of `debug_trace`.
    Raw { gas: U256, return_value: Vec<u8>, struct_logs: Vec<RawStepLog> },
    /// Matches the formatter used by Explorer.
    /// Is also used to built output of OpenEthereum's `trace_filter`.
    CallList(Vec<Call>),
    /// Used by Geth's callTracer.
    CallListNested(Call),
}

/// One executed opcode of a raw trace.
#[derive(Clone, Debug, PartialEq, Eq)]
pub struct RawStepLog {
    pub depth: U256,
    pub gas: U256,
    pub gas_cost: U256,
    pub memory: Option<Vec<H256>>,
    pub op: Vec<u8>,
    pub pc: U256,
    pub stack: Option<Vec<H256>>,
    /// Storage slots and their values.
    pub storage: Option<BTreeMap<H256, H256>>,
}

} // verus!
