//! Reconciliation core of a transactional table format: the layout of log
//! actions inside a flattened row schema, the decoding of action batches, the
//! order in which a log segment is replayed, the reconciliation of file
//! additions and removals into the set of files to scan, and the projection
//! of physical data files onto a logical schema.

pub mod error;
pub mod flatten;
pub mod actions;
pub mod batch;
pub mod location;
pub mod log_schema;
pub mod log_segment;
pub mod ordering;
pub mod predicate;
pub mod projection;
pub mod reader;
pub mod replay;
pub mod scan;
pub mod scan_data;
pub mod schema;
pub mod snapshot;
pub mod stats;
pub mod visitor;
