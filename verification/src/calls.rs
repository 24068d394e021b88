//! Call records in the two shapes the tracer produces: the flat Explorer
//! list and the nested geth `callTracer` tree.

use vstd::prelude::*;

use crate::primitives::{H160, U256};

verus! {

/// The kind of a message call.
#[derive(Clone, Copy, Debug, PartialEq, Eq, Structural)]
pub enum CallType {
    Call,
    CallCode,
    DelegateCall,
    StaticCall,
}

/// The outcome of a message call: its output, or its revert data.
#[derive(Clone, Debug, PartialEq, Eq)]
pub enum CallResult {
    Output(Vec<u8>),
    Error(Vec<u8>),
}

/// The outcome of a contract creation.
#[derive(Clone, Debug, PartialEq, Eq)]
pub enum CreateResult {
    Error { error: Vec<u8> },
    Success { created_contract_address_hash: H160, created_contract_code: Vec<u8> },
}

/// What an Explorer call did.
#[derive(Clone, Debug, PartialEq, Eq)]
pub enum ExplorerCallInner {
    Call {
        /// Type of call.
        call_type: CallType,
        to: H160,
        input: Vec<u8>,
        /// "output" or "error" field
        res: CallResult,
    },
    Create { init: Vec<u8>, res: CreateResult },
    SelfDestruct { balance: U256, to: H160 },
}

/// One call of a transaction as the call-list listener records it.
#[derive(Clone, Debug, PartialEq, Eq)]
pub struct ExplorerCall {
    pub from: H160,
    /// Indices of parent calls.
    pub trace_address: Vec<u32>,
    /// Number of children calls.
    pub subtraces: u32,
    /// Sends funds to the (payable) function
    pub value: U256,
    /// Remaining gas in the runtime.
    pub gas: U256,
    /// Gas used by this context.
    pub gas_used: U256,
    pub inner: ExplorerCallInner,
}

/// What a `callTracer` call did; `call_type` holds the opcode name.
#[derive(Clone, Debug, PartialEq, Eq)]
pub enum CallTracerInner {
    Call {
        call_type: Vec<u8>,
        to: H160,
        input: Vec<u8>,
        /// "output" or "error" field
        res: CallResult,
        value: Option<U256>,
    },
    Create {
        call_type: Vec<u8>,
        input: Vec<u8>,
        to: Option<H160>,
        output: Option<Vec<u8>>,
        error: Option<Vec<u8>>,
        value: U256,
    },
    SelfDestruct { call_type: Vec<u8>, to: H160, value: U256 },
}

/// One node of the geth `callTracer` tree.
#[derive(Debug, PartialEq, Eq)]
pub struct CallTracerCall {
    pub from: H160,
    /// Indices of parent calls. Used to build the Etherscan nested response.
    pub trace_address: Option<Vec<u32>>,
    /// Remaining gas in the runtime.
    pub gas: U256,
    /// Gas used by this context.
    pub gas_used: U256,
    pub inner: CallTracerInner,
    /// The sub-calls of this call, in order.
    pub calls: Vec<Call>,
}

/// A traced call in either shape.
#[derive(Debug, PartialEq, Eq)]
pub enum Call {
    Explorer(ExplorerCall),
    CallTracer(CallTracerCall),
}

/// The mathematical content of a `CallTracerInner`: byte vectors as sequences.
pub enum CallTracerInnerView {
    Call { call_type: Seq<u8>, to: H160, input: Seq<u8>, res: CallResult, value: Option<U256> },
    Create {
        call_type: Seq<u8>,
        input: Seq<u8>,
        to: Option<H160>,
        output: Option<Seq<u8>>,
        error: Option<Seq<u8>>,
        value: U256,
    },
    SelfDestruct { call_type: Seq<u8>, to: H160, value: U256 },
}

/// The mathematical content of a `CallTracerCall`, with its sub-calls as a
/// sequence of views.
pub struct CallTracerCallView {
    pub from: H160,
    pub trace_address: Option<Seq<u32>>,
    pub gas: U256,
    pub gas_used: U256,
    pub inner: CallTracerInnerView,
    pub calls: Seq<CallView>,
}

/// The mathematical content of a `Call`. An Explorer call holds no nested
/// calls and stands for itself.
pub enum CallView {
    Explorer(ExplorerCall),
    CallTracer(CallTracerCallView),
}

pub open spec fn bytes_view(v: Option<Vec<u8>>) -> Option<Seq<u8>> {
    match v {
        Some(b) => Some(b@),
        None => None,
    }
}

pub open spec fn address_view(v: Option<Vec<u32>>) -> Option<Seq<u32>> {
    match v {
        Some(a) => Some(a@),
        None => None,
    }
}

pub open spec fn inner_view(inner: CallTracerInner) -> CallTracerInnerView {
    match inner {
        CallTracerInner::Call { call_type, to, input, res, value } => CallTracerInnerView::Call {
            call_type: call_type@,
            to,
            input: input@,
            res,
            value,
        },
        CallTracerInner::Create { call_type, input, to, output, error, value } =>
            CallTracerInnerView::Create {
            call_type: call_type@,
            input: input@,
            to,
            output: bytes_view(output),
            error: bytes_view(error),
            value,
        },
        CallTracerInner::SelfDestruct { call_type, to, value } => CallTracerInnerView::SelfDestruct {
            call_type: call_type@,
            to,
            value,
        },
    }
}

/// The view of a call, nested calls included.
pub open spec fn call_view(c: Call) -> CallView
    decreases c,
{
    match c {
        Call::Explorer(e) => CallView::Explorer(e),
        Call::CallTracer(t) => CallView::CallTracer(
            CallTracerCallView {
                from: t.from,
                trace_address: address_view(t.trace_address),
                gas: t.gas,
                gas_used: t.gas_used,
                inner: inner_view(t.inner),
                calls: Seq::new(
                    t.calls@.len(),
                    |i: int|
                        if 0 <= i < t.calls@.len() {
                            call_view(t.calls@[i])
                        } else {
                            CallView::Explorer(arbitrary())
                        },
                ),
            },
        ),
    }
}

/// The views of a sequence of calls.
pub open spec fn views(s: Seq<Call>) -> Seq<CallView> {
    Seq::new(s.len(), |i: int| call_view(s[i]))
}

impl View for Call {
    type V = CallView;

    open spec fn view(&self) -> CallView {
        call_view(*self)
    }
}

impl View for CallTracerCall {
    type V = CallTracerCallView;

    open spec fn view(&self) -> CallTracerCallView {
        call_view(Call::CallTracer(*self))->CallTracer_0
    }
}

} // verus!
