//! Indexing of alignment records into a hierarchical, DAG-shaped namespace of
//! anchors, plus a flat registry of every record.

pub mod path;
pub mod record;
pub mod registry;
pub mod store;

pub use record::{Alignment, AlignmentOutput, AlignmentView, ValidationError};
