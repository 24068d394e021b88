# evm_tracing

Formatting of EVM transaction traces for the `debug_traceTransaction` and
`debug_traceBlock` RPC methods, verified with Verus.

- `src/primitives.rs` – 160/256-bit values as plain bytes and limbs, and the
  calls into `ethereum-types` and `hex` that work on them.
- `src/calls.rs`, `src/types.rs`, `src/listeners.rs` – call records, trace
  results, and what the listeners hand over after a replay (per transaction, a
  `BTreeMap` from call index to call, read in ascending key order); `CallView`
  is the mathematical view of a (nested) call.
- `src/order.rs` – the order on trace addresses used to nest calls, proved a
  strict total order that agrees with the pairwise comparator wherever that
  comparator is consistent.
- `src/nesting.rs` – sorting the calls of a transaction and nesting them into
  the `callTracer` tree, with the laws: sorting is a stable permutation into
  nesting order; nesting leaves one tree, drops no call whose parent is present,
  and clears every nested trace address.
- `src/layouts.rs` – the raw, Explorer and `callTracer` response layouts.
- `src/serializers.rs` – the text forms of trace fields.
- `src/debug.rs` – tracer selection and the request-handling decisions.
- `app/` – serde and SCALE copies of the trace types and the `serialize_with`
  helpers.
