//! Read-only diagnostics of the exact bytes of the requests that are sent to an
//! upstream endpoint with a prefix cache.
//!
//! A request is compared with the previous one of its conversation: how many
//! bytes they have in common, where they first differ, and what the difference
//! amounts to. Nothing here changes a request, and only lengths, salted hashes,
//! offsets, sanitized paths and class names are reported.
//!
//! The logic stands in these modules:
//!
//!   * [`json`], [`json_text`], [`parse`]: JSON values, their text, and parsing;
//!   * [`prefix`], [`path`], [`divergence`], [`masked`]: where two requests differ;
//!   * [`history`], [`scan`], [`classify`]: what a difference amounts to;
//!   * [`hashing`], [`identity`], [`sanitize`]: who a request belongs to, and what
//!     of it may be logged;
//!   * [`snapshot`], [`sessions`], [`eviction`], [`store`]: the bounded store of
//!     previous requests;
//!   * [`outcome`], [`observe`]: the observation of a request;
//!   * [`signature_source`], [`registry`]: where the signatures in a request came
//!     from.
//!
//! [`laws`] states what holds of them together.
//!
//! All state is passed in: [`observe::Diagnostics`] for a process, and the slot of
//! the active [`signature_source::SigPlan`] for a request build.

pub mod classify;
pub mod divergence;
pub mod eviction;
pub mod hashing;
pub mod history;
pub mod identity;
pub mod json;
pub mod json_text;
pub mod laws;
pub mod masked;
pub mod observe;
pub mod outcome;
pub mod parse;
pub mod path;
pub mod prefix;
pub mod registry;
pub mod sanitize;
pub mod scan;
pub mod sessions;
pub mod signature_source;
pub mod snapshot;
pub mod store;
pub mod text;
