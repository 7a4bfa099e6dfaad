//! A scriptable debugger for legacy real-mode executables that run inside an
//! external instruction-level CPU emulation engine.
//!
//! The crate holds the verified core: the executable-header loader, the
//! breakpoint/stepping controller with its sense-bit protocol, the
//! interrupt-service shim decisions, the command-script parser, and the
//! script executor. Everything that touches the emulation engine itself or
//! performs I/O lives outside, hands plain values in, and takes plain values
//! back.

pub mod debugger;
pub mod driver;
pub mod engine;
pub mod program;
