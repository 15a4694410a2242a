//! Query and restructuring engine of a browser-based viewer for one local
//! repository: commit history ranking, diff folding and blob text decoding.

pub mod date;
pub mod diff;
pub mod history;
pub mod refs;
pub mod text;
pub mod tree;

pub use date::CommitDate;
pub use diff::{DeltaKind, DiffFileItem, DiffHunkItem, DiffLineData, DiffLineType, RawDiffLine};
pub use history::{Commit, WalkedCommit};
pub use tree::CommitFile;
