//! Replication of directory trees with content digests.
//!
//! The crate holds the decisions of a backup tool: how a tree is walked,
//! where each file lands under the destination root, how partial results of
//! many workers are combined, how a destination file is audited against its
//! catalogued digest, and what the catalog of backups holds. Reading
//! directories, copying bytes and talking to a database are left to the
//! caller, which feeds what it saw to the state machines defined here and
//! carries out the actions they answer with.
//!
//! - [`walk`] is the sequential walk of a tree, [`fanout`] the parallel one,
//!   and [`conclusion`] the summary that both arrive at.
//! - [`path`] places a file under the destination root.
//! - [`digest`] and [`ident`] compute content digests and backup identifiers.
//! - [`catalog`] holds the backups and their file records, [`audit`] compares
//!   files with them, and [`commands`] ties both to the tool's commands.
//! - [`report`] and [`size`] put results into words.
//! - [`walk_runs`], [`audit_runs`], [`catalog_facts`] and [`tree`] state and
//!   prove what holds of whole runs.

pub mod audit;
pub mod audit_runs;
pub mod catalog;
pub mod catalog_facts;
pub mod commands;
pub mod conclusion;
pub mod digest;
pub mod fanout;
pub mod ident;
pub mod path;
pub mod report;
pub mod size;
pub mod text;
pub mod tree;
pub mod walk;
pub mod walk_runs;

pub use commands::{delete, list, revert, soft_delete, verify};
pub use conclusion::{Conclusion, ConclusionFields};
pub use size::FileSize;
