//! Metadata resolution for a sidecar runtime that activates pluggable
//! components (state stores, pub/sub, bindings, secret stores, WASM modules).
//!
//! A component declares a list of name/value entries whose values may be
//! literals, secret-store references, environment references, or templated
//! strings with runtime placeholders.  This crate resolves those entries into
//! the flat property map a component driver needs: placeholder substitution
//! with a fixed order and failure modes, case-insensitive property lookup,
//! app-scoping enforcement, and the global policy that forces WASM components
//! into strict sandbox mode.

use vstd::prelude::*;

pub mod component;
pub mod json;
pub mod meta;
pub mod name_value;
pub mod scoped;
pub mod text;
pub mod utils;

verus! {

/// The mode the runtime was started in.
#[derive(Debug, Clone, Copy, PartialEq, Eq, Structural)]
pub enum RaprMode {
    Kubernetes,
    Standalone,
}

} // verus!
