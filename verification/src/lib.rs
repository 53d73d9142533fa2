//! Discovery and ranking of installed toolchain components.
//!
//! The crate locates the best-matching installed build of a named toolchain
//! component among side-by-side toolchain installations.  It holds the whole
//! decision pipeline: parsing a compiler's version text into a comparison
//! key, the total order on those keys, the candidate test on scanned paths,
//! and the selection of the highest-ranked candidate.  Directory walking and
//! subprocess probing are left to the caller, which hands their results in
//! as plain byte strings.

pub mod parse;
pub mod scan;
pub mod select;
pub mod version;
