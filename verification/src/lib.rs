//! A verified core for consolidating columnar table files that share a
//! compatible schema into a single output file.
//!
//! The library holds the decision logic: recognising candidate files by
//! extension, putting discovered paths into a deterministic order, modelling
//! schemas and their compatibility, and driving a two-phase consolidation run
//! (validate every input's schema first, stream batches only afterwards).
//! Reading and writing actual files is left to an unverified driver that
//! performs the actions this library asks for and reports the outcomes back.

pub mod engine;
pub mod locator;
pub mod order;
pub mod paths;
pub mod schema;
