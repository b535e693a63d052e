//! Runtime support core for code modules injected into a live host process.
//!
//! A module runs inside an already-initialized host and talks to the outside
//! world only through a small table of host callbacks.  This crate holds the
//! pieces of that runtime with real correctness constraints, each with a
//! verified contract:
//!
//! * [`codec`] — the byte-level model of the host's argument serialization:
//!   little-endian fixed-width integers and length-prefixed blobs, with
//!   round-trip laws.
//! * [`data`] — the argument cursor that decodes one host-supplied byte
//!   buffer strictly left to right, degrading to zero/empty results instead
//!   of faulting when the buffer runs short.
//! * [`output`] — the accumulating output channel and its flush protocol:
//!   buffered writes are delivered to the host in one tagged call, error
//!   text is delivered eagerly.
//! * [`store`] — the model of a persistent store entry as the runtime reads
//!   it: type tag, content hash, mask flag, payload bytes.
//! * [`strings`] — conversions between the module's text and the host's
//!   C-style and wide-string forms.
//!
//! The host-facing edges themselves (symbol resolution, raw pointers, the
//! heap-redirecting allocator, the callback calls) carry no decodable logic
//! and live outside this library, handing it plain values.

pub mod codec;

pub mod data;

pub mod output;

pub mod store;

pub mod strings;
