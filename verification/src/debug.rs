//! The decisions of the `debug_traceTransaction` / `debug_traceBlock`
//! handlers: which tracer a request asks for, which block it names, and how
//! the listener data of a replay becomes the response.

use vstd::prelude::*;
use vstd::string::StringExecFns;
use vstd::utf8::{encode_utf8, encode_utf8_decode_utf8};

use crate::calls::{call_view, Call, ExplorerCall};
use crate::layouts::{
    entries_with_calls, nested_trace, nestable, non_empty_entries, CallTracerLayout, ExplorerLayout, RawLayout,
};
use crate::listeners::{entry_calls, ListenerCl, ListenerRaw};
use crate::primitives::H256;
use crate::types::{SingleTransactionTrace, TraceType};

verus! {

/// `twox_128` of the Explorer tracer's javascript code.
pub const EXPLORER_JS_CODE_HASH: [u8; 16] = [
    0x94u8, 0xd9, 0xf0, 0x87, 0x96, 0xf9, 0x1e, 0xb1, 0x3a, 0x2e, 0x82, 0xa6, 0x06, 0x68, 0x82, 0xf7,
];

/// `twox_128` of the second version of the Explorer tracer's javascript code.
pub const EXPLORER_JS_CODE_HASH_V2: [u8; 16] = [
    0x89u8, 0xdb, 0x13, 0x69, 0x46, 0x75, 0x69, 0x29, 0x51, 0x67, 0x3a, 0x1e, 0x6e, 0x18, 0xff, 0x02,
];

/// The options of a `debug_trace*` request.
#[derive(Clone, Debug, PartialEq, Eq)]
pub struct TraceParams {
    pub disable_storage: Option<bool>,
    pub disable_memory: Option<bool>,
    pub disable_stack: Option<bool>,
    /// Javascript tracer code, or the name of a built-in tracer.
    pub tracer: Option<String>,
    pub timeout: Option<String>,
}

/// The formatter a call-list trace goes through.
#[derive(Clone, Copy, Debug, PartialEq, Eq, Structural)]
pub enum TracerInput {
    Unset,
    Explorer,
    CallTracer,
}

/// A block tag of a `debug_traceBlock` request.
#[derive(Clone, Copy, Debug, PartialEq, Eq, Structural)]
pub enum RequestBlockTag {
    Earliest,
    Latest,
    Pending,
}

/// The block a `debug_traceBlock` request names.
#[derive(Clone, Copy, Debug, PartialEq, Eq)]
pub enum RequestBlockId {
    Number(u32),
    Hash(H256),
    Tag(RequestBlockTag),
}

/// What a trace request is about.
#[derive(Clone, Copy, Debug, PartialEq, Eq)]
pub enum RequesterInput {
    Transaction(H256),
    Block(RequestBlockId),
}

/// The answer to a trace request.
#[derive(Debug, PartialEq, Eq)]
pub enum Response {
    Single(SingleTransactionTrace),
    Block(Vec<SingleTransactionTrace>),
}

/// How the block to trace is found.
#[derive(Clone, Copy, Debug, PartialEq, Eq)]
pub enum BlockSelection {
    /// The block at this height.
    Number(u32),
    /// The block whose Ethereum hash this is, to be looked up.
    EthereumHash(H256),
}

/// How a transaction is replayed.
#[derive(Clone, Copy, Debug, PartialEq, Eq, Structural)]
pub enum ReplayMode {
    /// Through the current runtime API, for any transaction.
    Current,
    /// Through the runtime API before version 4, for a legacy transaction.
    Legacy,
}

/// Why a trace request was refused.
#[derive(Clone, Copy, Debug, PartialEq, Eq)]
pub enum DebugError {
    /// The tracer is javascript code that is not known; its hash.
    JavascriptTracingUnavailable([u8; 16]),
    /// The `pending` block tag.
    PendingBlockUnsupported,
    /// The formatter produced no trace.
    TraceResultEmpty,
    /// A block trace without a usable call-list formatter.
    BlockTracerFormatUnresolved,
    /// A transaction trace without a usable call-list formatter.
    TransactionTracerFormatUnresolved,
    /// A block trace in another mode than call list.
    BlockTraceRequiresCallList,
    /// A raw trace that exceeded its memory budget.
    RawTraceTooLarge,
    /// A transaction trace in a mode that transactions do not support.
    TraceTypeUnsupported(TraceType),
    /// A non-legacy transaction under a runtime API before version 4.
    LegacyTransactionExpected,
}

/// The `twox_128` hash of some bytes, as `sp_io::hashing::twox_128` computes
/// it.
pub uninterp spec fn spec_twox_128(data: Seq<u8>) -> Seq<u8>;

/// `sp_io::hashing::twox_128`: a function of the bytes alone, 16 bytes long.
#[verifier::external_body]
fn twox_128(data: &[u8]) -> (hash: [u8; 16])
    ensures
        hash@ == spec_twox_128(data@),
{
    sp_io::hashing::twox_128(data)
}

/// The characters `callTracer`.
pub open spec fn call_tracer_name() -> Seq<char> {
    seq!['c', 'a', 'l', 'l', 'T', 'r', 'a', 'c', 'e', 'r']
}

/// The tracer that the tracer text with the given hash selects.
pub open spec fn tracer_choice(tracer: Seq<char>, hash: Seq<u8>) -> Result<TracerInput, DebugError> {
    if hash == EXPLORER_JS_CODE_HASH@ || hash == EXPLORER_JS_CODE_HASH_V2@ {
        Ok(TracerInput::Explorer)
    } else if tracer == call_tracer_name() {
        Ok(TracerInput::CallTracer)
    } else {
        Err(DebugError::JavascriptTracingUnavailable(arbitrary()))
    }
}

/// Law: a tracer text whose hash is a known Explorer script hash selects
/// the Explorer formatter; any other text selects the built-in call tracer
/// exactly when it is `callTracer`, and is refused otherwise.
pub proof fn lemma_only_call_tracer_name_selects(tracer: Seq<char>, hash: Seq<u8>)
    ensures
        hash == EXPLORER_JS_CODE_HASH@ || hash == EXPLORER_JS_CODE_HASH_V2@ ==> tracer_choice(
            tracer,
            hash,
        ) == Ok::<TracerInput, DebugError>(TracerInput::Explorer),
        hash != EXPLORER_JS_CODE_HASH@ && hash != EXPLORER_JS_CODE_HASH_V2@ ==> ((tracer_choice(
            tracer,
            hash,
        ) == Ok::<TracerInput, DebugError>(TracerInput::CallTracer)) <==> tracer == seq![
            'c',
            'a',
            'l',
            'l',
            'T',
            'r',
            'a',
            'c',
            'e',
            'r',
        ]),
        hash != EXPLORER_JS_CODE_HASH@ && hash != EXPLORER_JS_CODE_HASH_V2@ ==> (tracer_choice(
            tracer,
            hash,
        ) is Ok <==> tracer_choice(tracer, hash) == Ok::<TracerInput, DebugError>(
            TracerInput::CallTracer,
        )),
{
    assert(call_tracer_name() =~= seq!['c', 'a', 'l', 'l', 'T', 'r', 'a', 'c', 'e', 'r']);
}

/// Whether two byte strings are equal.
fn bytes_equal(a: &[u8], b: &[u8]) -> (r: bool)
    ensures
        r == (a@ == b@),
{
    if a.len() != b.len() {
        return false;
    }
    let mut i: usize = 0;
    while i < a.len()
        invariant
            a@.len() == b@.len(),
            i <= a@.len(),
            forall|j: int| 0 <= j < i ==> a@[j] == b@[j],
        decreases a@.len() - i,
    {
        if a[i] != b[i] {
            return false;
        }
        i = i + 1;
    }
    assert(a@ =~= b@);
    true
}

/// The tracer that a tracer text selects, given the text's hash: a known
/// Explorer script, the built-in `callTracer`, or else an error carrying the
/// hash.
pub fn select_tracer(tracer: &str, hash: [u8; 16]) -> (r: Result<TracerInput, DebugError>)
    ensures
        match tracer_choice(tracer@, hash@) {
            Ok(t) => r == Ok::<TracerInput, DebugError>(t),
            Err(_) => r == Err::<TracerInput, DebugError>(
                DebugError::JavascriptTracingUnavailable(hash),
            ),
        },
        hash@ == EXPLORER_JS_CODE_HASH@ || hash@ == EXPLORER_JS_CODE_HASH_V2@ ==> r == Ok::<
            TracerInput,
            DebugError,
        >(TracerInput::Explorer),
        hash@ != EXPLORER_JS_CODE_HASH@ && hash@ != EXPLORER_JS_CODE_HASH_V2@ ==> (tracer@ == seq![
            'c',
            'a',
            'l',
            'l',
            'T',
            'r',
            'a',
            'c',
            'e',
            'r',
        ] ==> r == Ok::<TracerInput, DebugError>(TracerInput::CallTracer)),
        hash@ != EXPLORER_JS_CODE_HASH@ && hash@ != EXPLORER_JS_CODE_HASH_V2@ ==> (tracer@ != seq![
            'c',
            'a',
            'l',
            'l',
            'T',
            'r',
            'a',
            'c',
            'e',
            'r',
        ] ==> r == Err::<TracerInput, DebugError>(DebugError::JavascriptTracingUnavailable(hash))),
{
    let known = EXPLORER_JS_CODE_HASH;
    let known_v2 = EXPLORER_JS_CODE_HASH_V2;
    if bytes_equal(hash.as_slice(), known.as_slice()) || bytes_equal(
        hash.as_slice(),
        known_v2.as_slice(),
    ) {
        return Ok(TracerInput::Explorer);
    }
    let name = "callTracer";
    proof {
        reveal_strlit("callTracer");
    }
    let same = bytes_equal(tracer.as_bytes(), name.as_bytes());
    proof {
        assert(name@ =~= call_tracer_name());
        encode_utf8_decode_utf8(tracer@);
        encode_utf8_decode_utf8(name@);
        if same {
            assert(encode_utf8(tracer@) == encode_utf8(name@));
        }
        assert(same == (tracer@ == call_tracer_name()));
    }
    if same {
        Ok(TracerInput::CallTracer)
    } else {
        Err(DebugError::JavascriptTracingUnavailable(hash))
    }
}

/// Resolves the trace options of a request: a tracer text selects a
/// call-list formatter (see `select_tracer`); without one the trace is raw,
/// with the storage, memory and stack switches the request gives (off where
/// it gives none).
pub fn handle_trace_params(params: Option<TraceParams>) -> (r: Result<
    (TracerInput, TraceType),
    DebugError,
>)
    ensures
        params is None ==> r == Ok::<(TracerInput, TraceType), DebugError>(
            (
                TracerInput::Unset,
                TraceType::Raw { disable_storage: false, disable_memory: false, disable_stack: false },
            ),
        ),
        params matches Some(p) ==> (p.tracer is None ==> r == Ok::<
            (TracerInput, TraceType),
            DebugError,
        >(
            (
                TracerInput::Unset,
                TraceType::Raw {
                    disable_storage: p.disable_storage.unwrap_or(false),
                    disable_memory: p.disable_memory.unwrap_or(false),
                    disable_stack: p.disable_stack.unwrap_or(false),
                },
            ),
        )),
        params matches Some(p) ==> (p.tracer matches Some(tr) ==> {
            let hash = spec_twox_128(encode_utf8(tr@));
            match tracer_choice(tr@, hash) {
                Ok(t) => r == Ok::<(TracerInput, TraceType), DebugError>((t, TraceType::CallList)),
                Err(_) => r matches Err(DebugError::JavascriptTracingUnavailable(h)) && h@ == hash,
            }
        }),
        params matches Some(p) ==> (p.tracer matches Some(tr) ==> {
            let hash = spec_twox_128(encode_utf8(tr@));
            hash != EXPLORER_JS_CODE_HASH@ && hash != EXPLORER_JS_CODE_HASH_V2@ ==> if tr@ == seq![
                'c',
                'a',
                'l',
                'l',
                'T',
                'r',
                'a',
                'c',
                'e',
                'r',
            ] {
                r == Ok::<(TracerInput, TraceType), DebugError>(
                    (TracerInput::CallTracer, TraceType::CallList),
                )
            } else {
                r matches Err(DebugError::JavascriptTracingUnavailable(h)) && h@ == hash
            }
        }),
{
    match params {
        Some(p) => match p.tracer {
            Some(tr) => {
                let text = tr.as_str();
                // Calculate hash based on the tracer
                let hash = twox_128(text.as_bytes());
                match select_tracer(text, hash) {
                    Ok(tracer) => Ok((tracer, TraceType::CallList)),
                    Err(e) => Err(e),
                }
            },
            None => Ok(
                (
                    TracerInput::Unset,
                    TraceType::Raw {
                        disable_storage: unwrap_or_false(p.disable_storage),
                        disable_memory: unwrap_or_false(p.disable_memory),
                        disable_stack: unwrap_or_false(p.disable_stack),
                    },
                ),
            ),
        },
        None => Ok(
            (
                TracerInput::Unset,
                TraceType::Raw { disable_storage: false, disable_memory: false, disable_stack: false },
            ),
        ),
    }
}

/// The flag, off where it is absent.
fn unwrap_or_false(flag: Option<bool>) -> (b: bool)
    ensures
        b == flag.unwrap_or(false),
{
    match flag {
        Some(b) => b,
        None => false,
    }
}

/// How the block a `debug_traceBlock` request names is found: a height or a
/// tag gives the height (`latest` the best block, `earliest` the genesis
/// block), a hash is looked up; `pending` is refused.
pub fn resolve_block_request(id: RequestBlockId, best_number: u32) -> (r: Result<
    BlockSelection,
    DebugError,
>)
    ensures
        id matches RequestBlockId::Number(n) ==> r == Ok::<BlockSelection, DebugError>(
            BlockSelection::Number(n),
        ),
        id == RequestBlockId::Tag(RequestBlockTag::Latest) ==> r == Ok::<
            BlockSelection,
            DebugError,
        >(BlockSelection::Number(best_number)),
        id == RequestBlockId::Tag(RequestBlockTag::Earliest) ==> r == Ok::<
            BlockSelection,
            DebugError,
        >(BlockSelection::Number(0)),
        id == RequestBlockId::Tag(RequestBlockTag::Pending) ==> r == Err::<
            BlockSelection,
            DebugError,
        >(DebugError::PendingBlockUnsupported),
        id matches RequestBlockId::Hash(h) ==> r == Ok::<BlockSelection, DebugError>(
            BlockSelection::EthereumHash(h),
        ),
{
    match id {
        RequestBlockId::Number(n) => Ok(BlockSelection::Number(n)),
        RequestBlockId::Tag(RequestBlockTag::Latest) => Ok(BlockSelection::Number(best_number)),
        RequestBlockId::Tag(RequestBlockTag::Earliest) => Ok(BlockSelection::Number(0)),
        RequestBlockId::Tag(RequestBlockTag::Pending) => Err(DebugError::PendingBlockUnsupported),
        RequestBlockId::Hash(eth_hash) => Ok(BlockSelection::EthereumHash(eth_hash)),
    }
}

/// A block is traced only in call-list mode.
pub fn check_block_trace_type(trace_type: TraceType) -> (r: Result<(), DebugError>)
    ensures
        trace_type == TraceType::CallList ==> r == Ok::<(), DebugError>(()),
        trace_type != TraceType::CallList ==> r == Err::<(), DebugError>(
            DebugError::BlockTraceRequiresCallList,
        ),
{
    match trace_type {
        TraceType::CallList => Ok(()),
        _ => Err(DebugError::BlockTraceRequiresCallList),
    }
}

/// A transaction is traced raw or as a call list, not as a block.
pub fn check_transaction_trace_type(trace_type: TraceType) -> (r: Result<(), DebugError>)
    ensures
        trace_type == TraceType::Block ==> r == Err::<(), DebugError>(
            DebugError::TraceTypeUnsupported(TraceType::Block),
        ),
        trace_type != TraceType::Block ==> r == Ok::<(), DebugError>(()),
{
    match trace_type {
        TraceType::Block => Err(DebugError::TraceTypeUnsupported(TraceType::Block)),
        _ => Ok(()),
    }
}

/// How a transaction is replayed under a runtime whose trace API has the
/// given version: version 4 and later replay any transaction; earlier
/// versions only legacy ones.
pub fn replay_mode(trace_api_version: u32, is_legacy: bool) -> (r: Result<ReplayMode, DebugError>)
    ensures
        trace_api_version >= 4 ==> r == Ok::<ReplayMode, DebugError>(ReplayMode::Current),
        trace_api_version < 4 && is_legacy ==> r == Ok::<ReplayMode, DebugError>(
            ReplayMode::Legacy,
        ),
        trace_api_version < 4 && !is_legacy ==> r == Err::<ReplayMode, DebugError>(
            DebugError::LegacyTransactionExpected,
        ),
{
    if trace_api_version >= 4 {
        Ok(ReplayMode::Current)
    } else if is_legacy {
        Ok(ReplayMode::Legacy)
    } else {
        Err(DebugError::LegacyTransactionExpected)
    }
}

/// The raw trace of a replayed transaction; refused when it ran out of its
/// memory budget.
pub fn format_transaction_raw(listener: ListenerRaw) -> (r: Result<SingleTransactionTrace, DebugError>)
    ensures
        listener.remaining_memory_usage is None ==> r == Err::<SingleTransactionTrace, DebugError>(
            DebugError::RawTraceTooLarge,
        ),
        listener.remaining_memory_usage is Some ==> (r matches Ok(
            SingleTransactionTrace::Raw { gas, return_value, struct_logs },
        ) && gas.0@ == seq![listener.final_gas, 0u64, 0u64, 0u64] && return_value
            == listener.return_value && struct_logs == listener.struct_logs),
{
    match RawLayout::format(listener) {
        Some(trace) => Ok(trace),
        None => Err(DebugError::RawTraceTooLarge),
    }
}

/// The call-list trace of a replayed transaction: the Explorer list of its
/// calls, or the last `callTracer` tree; refused without a formatter or
/// without calls.
pub fn format_transaction_call_list(tracer_input: TracerInput, listener: ListenerCl) -> (r: Result<
    SingleTransactionTrace,
    DebugError,
>)
    requires
        tracer_input == TracerInput::CallTracer ==> forall|i: int|
            0 <= i < listener.entries@.len() ==> nestable(
                entry_calls(#[trigger] listener.entries@[i]),
            ),
    ensures
        tracer_input == TracerInput::Unset ==> r == Err::<SingleTransactionTrace, DebugError>(
            DebugError::TransactionTracerFormatUnresolved,
        ),
        tracer_input == TracerInput::Explorer ==> (listener.entries@.len() == 0 ==> r == Err::<
            SingleTransactionTrace,
            DebugError,
        >(DebugError::TraceResultEmpty)),
        tracer_input == TracerInput::Explorer ==> (listener.entries@.len() > 0 ==> (r matches Ok(
            SingleTransactionTrace::CallList(calls),
        ) && calls@ == entry_calls(listener.entries@.last()).map_values(
            |e: ExplorerCall| Call::Explorer(e),
        ))),
        tracer_input == TracerInput::CallTracer ==> (non_empty_entries(listener.entries@).len() == 0
            ==> r == Err::<SingleTransactionTrace, DebugError>(DebugError::TraceResultEmpty)),
        tracer_input == TracerInput::CallTracer ==> (non_empty_entries(listener.entries@).len() > 0
            ==> (r matches Ok(SingleTransactionTrace::CallListNested(c)) && call_view(c)
            == nested_trace(entry_calls(non_empty_entries(listener.entries@).last())))),
        tracer_input == TracerInput::CallTracer ==> ((r == Err::<SingleTransactionTrace, DebugError>(
            DebugError::TraceResultEmpty,
        )) <==> forall|i: int|
            0 <= i < listener.entries@.len() ==> entry_calls(#[trigger] listener.entries@[i]).len()
                == 0),
        tracer_input == TracerInput::CallTracer ==> (r is Ok <==> exists|i: int|
            0 <= i < listener.entries@.len() && entry_calls(#[trigger] listener.entries@[i]).len()
                > 0),
{
    match tracer_input {
        TracerInput::Explorer => match ExplorerLayout::format(listener) {
            Some(trace) => Ok(trace),
            None => Err(DebugError::TraceResultEmpty),
        },
        TracerInput::CallTracer => match CallTracerLayout::format(listener) {
            Some(mut traces) => match traces.pop() {
                Some(trace) => Ok(trace),
                None => Err(DebugError::TraceResultEmpty),
            },
            None => Err(DebugError::TraceResultEmpty),
        },
        TracerInput::Unset => Err(DebugError::TransactionTracerFormatUnresolved),
    }
}

/// The call-list traces of a replayed block: one `callTracer` tree per
/// transaction that recorded calls; refused for other formatters or when no
/// transaction recorded calls.
pub fn format_block_call_list(tracer_input: TracerInput, listener: ListenerCl) -> (r: Result<
    Vec<SingleTransactionTrace>,
    DebugError,
>)
    requires
        tracer_input == TracerInput::CallTracer ==> forall|i: int|
            0 <= i < listener.entries@.len() ==> nestable(
                entry_calls(#[trigger] listener.entries@[i]),
            ),
    ensures
        tracer_input != TracerInput::CallTracer ==> r == Err::<
            Vec<SingleTransactionTrace>,
            DebugError,
        >(DebugError::BlockTracerFormatUnresolved),
        tracer_input == TracerInput::CallTracer ==> (non_empty_entries(listener.entries@).len() == 0
            ==> r == Err::<Vec<SingleTransactionTrace>, DebugError>(DebugError::TraceResultEmpty)),
        tracer_input == TracerInput::CallTracer ==> (non_empty_entries(listener.entries@).len() > 0
            ==> (r matches Ok(traces) && traces@.len() == non_empty_entries(listener.entries@).len()
            && forall|k: int|
            0 <= k < traces@.len() ==> (#[trigger] traces@[k] matches
            SingleTransactionTrace::CallListNested(c) && call_view(c) == nested_trace(
            entry_calls(non_empty_entries(listener.entries@)[k]),
        )))),
        tracer_input == TracerInput::CallTracer ==> ((r == Err::<
            Vec<SingleTransactionTrace>,
            DebugError,
        >(DebugError::TraceResultEmpty)) <==> forall|i: int|
            0 <= i < listener.entries@.len() ==> entry_calls(#[trigger] listener.entries@[i]).len()
                == 0),
        tracer_input == TracerInput::CallTracer ==> (r matches Ok(traces) ==> traces@.len()
            == entries_with_calls(listener.entries@)),
{
    match tracer_input {
        TracerInput::CallTracer => match CallTracerLayout::format(listener) {
            Some(traces) => Ok(traces),
            None => Err(DebugError::TraceResultEmpty),
        },
        _ => Err(DebugError::BlockTracerFormatUnresolved),
    }
}

/// The answer to a block trace when the block holds no Ethereum transaction:
/// an empty list of traces, before any replay; `None` when there is
/// something to replay.
pub fn empty_block_response(ethereum_transaction_count: usize) -> (r: Option<Response>)
    ensures
        ethereum_transaction_count == 0 ==> (r matches Some(Response::Block(traces))
            && traces@.len() == 0),
        ethereum_transaction_count > 0 ==> r is None,
{
    if ethereum_transaction_count == 0 {
        Some(Response::Block(Vec::new()))
    } else {
        None
    }
}

// ---------------------------------------------------------------------------
// Messages
// ---------------------------------------------------------------------------

/// The decimal digit `d` as text.
pub open spec fn digit_text(d: int) -> Seq<char> {
    if d == 0 {
        "0"@
    } else if d == 1 {
        "1"@
    } else if d == 2 {
        "2"@
    } else if d == 3 {
        "3"@
    } else if d == 4 {
        "4"@
    } else if d == 5 {
        "5"@
    } else if d == 6 {
        "6"@
    } else if d == 7 {
        "7"@
    } else if d == 8 {
        "8"@
    } else {
        "9"@
    }
}

/// A byte in decimal, without leading zeros.
pub open spec fn decimal_text(x: u8) -> Seq<char> {
    (if x >= 100 {
        digit_text(x as int / 100)
    } else {
        Seq::empty()
    }) + (if x >= 10 {
        digit_text((x as int / 10) % 10)
    } else {
        Seq::empty()
    }) + digit_text(x as int % 10)
}

/// Bytes in decimal, separated by `, `.
pub open spec fn byte_list_text(bytes: Seq<u8>) -> Seq<char>
    decreases bytes.len(),
{
    if bytes.len() == 0 {
        Seq::empty()
    } else if bytes.len() == 1 {
        decimal_text(bytes[0])
    } else {
        byte_list_text(bytes.drop_last()) + ", "@ + decimal_text(bytes.last())
    }
}

/// A byte array as its `Debug` text: `[` the bytes in decimal, separated
/// by `, `, `]`.
pub open spec fn bytes_debug_text(bytes: Seq<u8>) -> Seq<char> {
    "["@ + byte_list_text(bytes) + "]"@
}

/// `true` or `false`.
pub open spec fn bool_text(b: bool) -> Seq<char> {
    if b {
        "true"@
    } else {
        "false"@
    }
}

/// A trace type as its `Debug` text.
pub open spec fn trace_type_text(t: TraceType) -> Seq<char> {
    match t {
        TraceType::Raw { disable_storage, disable_memory, disable_stack } => "Raw { disable_storage: "@
            + bool_text(disable_storage) + ", disable_memory: "@ + bool_text(disable_memory)
            + ", disable_stack: "@ + bool_text(disable_stack) + " }"@,
        TraceType::CallList => "CallList"@,
        TraceType::Block => "Block"@,
    }
}

/// The message with which a refused trace request is answered.
pub open spec fn debug_error_text(e: DebugError) -> Seq<char> {
    match e {
        DebugError::JavascriptTracingUnavailable(hash) => "javascript based tracing is not available (hash :"@
            + bytes_debug_text(hash@) + ")"@,
        DebugError::PendingBlockUnsupported => "'pending' blocks are not supported"@,
        DebugError::TraceResultEmpty => "\"Trace result is empty.\""@,
        DebugError::BlockTracerFormatUnresolved => "Bug: failed to resolve the tracer format."@,
        DebugError::TransactionTracerFormatUnresolved => "Bug: Failed to resolve the tracer format."@,
        DebugError::BlockTraceRequiresCallList => "debug_traceBlock functions currently only support callList mode (enabled\n\t\t\t\tby providing `{{'tracer': 'callTracer'}}` in the request)."@,
        DebugError::RawTraceTooLarge => "Replayed transaction generated too much data. Try disabling memory or storage?"@,
        DebugError::TraceTypeUnsupported(t) => "Bug: `handle_transaction_request` does not support "@
            + trace_type_text(t) + "."@,
        DebugError::LegacyTransactionExpected => "Bug: pre-London runtime expects legacy transactions"@,
    }
}

/// The decimal digit as text.
fn digit_str(d: u8) -> (text: &'static str)
    requires
        d < 10,
    ensures
        text@ == digit_text(d as int),
{
    if d == 0 {
        "0"
    } else if d == 1 {
        "1"
    } else if d == 2 {
        "2"
    } else if d == 3 {
        "3"
    } else if d == 4 {
        "4"
    } else if d == 5 {
        "5"
    } else if d == 6 {
        "6"
    } else if d == 7 {
        "7"
    } else if d == 8 {
        "8"
    } else {
        "9"
    }
}

/// Appends a byte in decimal.
fn push_decimal(text: &mut String, x: u8)
    ensures
        final(text)@ == old(text)@ + decimal_text(x),
{
    let ghost start = text@;
    if x >= 100 {
        text.append(digit_str(x / 100));
    }
    let ghost hundreds = text@;
    if x >= 10 {
        text.append(digit_str((x / 10) % 10));
    }
    let ghost tens = text@;
    text.append(digit_str(x % 10));
    proof {
        assert(text@ =~= start + decimal_text(x));
    }
}

/// Appends a byte array as its `Debug` text.
fn push_bytes_debug(text: &mut String, bytes: &[u8])
    ensures
        final(text)@ == old(text)@ + bytes_debug_text(bytes@),
{
    let ghost start = text@;
    text.append("[");
    let mut i: usize = 0;
    while i < bytes.len()
        invariant
            i <= bytes@.len(),
            text@ == start + "["@ + byte_list_text(bytes@.take(i as int)),
        decreases bytes@.len() - i,
    {
        let ghost before = text@;
        if i > 0 {
            text.append(", ");
        }
        push_decimal(text, bytes[i]);
        proof {
            let t = bytes@.take(i + 1);
            assert(t.drop_last() =~= bytes@.take(i as int));
            assert(t.last() == bytes@[i as int]);
            if i == 0 {
                assert(bytes@.take(0) =~= Seq::<u8>::empty());
                assert(text@ =~= start + "["@ + byte_list_text(t));
            } else {
                assert(text@ =~= start + "["@ + byte_list_text(t));
            }
        }
        i = i + 1;
    }
    text.append("]");
    proof {
        assert(bytes@.take(bytes@.len() as int) =~= bytes@);
        assert(text@ =~= start + bytes_debug_text(bytes@));
    }
}

/// Appends `true` or `false`.
fn push_bool(text: &mut String, b: bool)
    ensures
        final(text)@ == old(text)@ + bool_text(b),
{
    if b {
        text.append("true");
    } else {
        text.append("false");
    }
}

/// Appends a trace type as its `Debug` text.
fn push_trace_type(text: &mut String, t: TraceType)
    ensures
        final(text)@ == old(text)@ + trace_type_text(t),
{
    let ghost start = text@;
    match t {
        TraceType::Raw { disable_storage, disable_memory, disable_stack } => {
            text.append("Raw { disable_storage: ");
            push_bool(text, disable_storage);
            text.append(", disable_memory: ");
            push_bool(text, disable_memory);
            text.append(", disable_stack: ");
            push_bool(text, disable_stack);
            text.append(" }");
            proof {
                assert(text@ =~= start + trace_type_text(t));
            }
        },
        TraceType::CallList => text.append("CallList"),
        TraceType::Block => text.append("Block"),
    }
}

impl DebugError {
    /// The message with which the refused request is answered.
    pub fn message(&self) -> (text: String)
        ensures
            text@ == debug_error_text(*self),
    {
        let mut text = String::new();
        let ghost empty = text@;
        match self {
            DebugError::JavascriptTracingUnavailable(hash) => {
                text.append("javascript based tracing is not available (hash :");
                push_bytes_debug(&mut text, hash.as_slice());
                text.append(")");
            },
            DebugError::PendingBlockUnsupported => text.append("'pending' blocks are not supported"),
            DebugError::TraceResultEmpty => text.append("\"Trace result is empty.\""),
            DebugError::BlockTracerFormatUnresolved => text.append(
                "Bug: failed to resolve the tracer format.",
            ),
            DebugError::TransactionTracerFormatUnresolved => text.append(
                "Bug: Failed to resolve the tracer format.",
            ),
            DebugError::BlockTraceRequiresCallList => text.append(
                "debug_traceBlock functions currently only support callList mode (enabled\n\t\t\t\tby providing `{{'tracer': 'callTracer'}}` in the request).",
            ),
            DebugError::RawTraceTooLarge => text.append(
                "Replayed transaction generated too much data. Try disabling memory or storage?",
            ),
            DebugError::TraceTypeUnsupported(t) => {
                text.append("Bug: `handle_transaction_request` does not support ");
                push_trace_type(&mut text, *t);
                text.append(".");
            },
            DebugError::LegacyTransactionExpected => text.append(
                "Bug: pre-London runtime expects legacy transactions",
            ),
        }
        proof {
            assert(text@ =~= debug_error_text(*self));
        }
        text
    }
}

} // verus!
