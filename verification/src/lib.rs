//! Assumption bookkeeping for a just-in-time compiler.
//!
//! A compiled unit of machine code is emitted under runtime assumptions that
//! may later become false: that a basic operator has not been redefined on a
//! class, that a cached method resolution is still valid, that only one
//! execution context is running, that the global binding state has not
//! changed. This crate maintains the registry mapping each such assumption to
//! the compiled units that depend on it, and, when the host reports that an
//! assumption was violated, hands back the units that must be invalidated.
//!
//! The registry itself performs no machine-code patching and no I/O: the host
//! establishes exit points and invalidates units, and it must serialize all
//! calls into this crate under one mutual-exclusion domain.

pub mod deps;
pub mod invariants;
pub mod laws;
pub mod options;
