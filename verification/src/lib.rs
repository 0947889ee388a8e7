//! Runtime file-replacement core for a game archive: a typed view over
//! host-owned record tables, a byte-signature locator that decodes the
//! position-relative instruction pair pointing at the engine's table-of-tables,
//! a hash-keyed replacement pipeline with footer repair for the fixed-footer
//! texture format, and a one-shot size patch for entries whose replacement
//! differs in length.

pub mod cpp_vector;
pub mod hashing;
pub mod patching;
pub mod replacement;
pub mod tables;
pub mod visit;
