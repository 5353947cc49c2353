//! What holds of the library as a whole.
//!
//!   * [`values`], [`records`], [`equality`], [`paths`], [`prefixes`]: JSON values,
//!     texts and paths, and what the records hold;
//!   * [`masking`], [`findings`], [`changes`], [`precedence`]: what is reported of two
//!     bodies, told by their keys;
//!   * [`identities`], [`streams`]: who a request belongs to;
//!   * [`outcomes`], [`privacy`]: what an observation tells, and what of it is logged;
//!   * [`retention`], [`storage`]: what the store and the registry keep;
//!   * [`sources`], [`attribution`], [`observations`]: where signatures came from.

pub mod attribution;
pub mod changes;
pub mod equality;
pub mod findings;
pub mod identities;
pub mod masking;
pub mod observations;
pub mod outcomes;
pub mod paths;
pub mod precedence;
pub mod prefixes;
pub mod privacy;
pub mod records;
pub mod retention;
pub mod sources;
pub mod storage;
pub mod streams;
pub mod values;
