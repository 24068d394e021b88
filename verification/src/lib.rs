//! EVM call tracing: turning what the tracing listeners record during a
//! transaction replay into the responses of the `debug_trace*` RPC methods.

pub mod calls;
pub mod listeners;
pub mod primitives;
pub mod types;
pub mod order;
pub mod nesting;
pub mod layouts;
pub mod serializers;
pub mod debug;
