//! Versioned key-value state for editing projects: per-submodule commit
//! chains of diffs, branches, three-way merges and a global timeline.
mod branch;
mod commit;
mod diff;
mod error;
mod global;
mod host;
mod strmap;
mod submodule;

pub use branch::{Branch, BranchStore};
pub use commit::{Commit, Diff, GlobalOrder};
pub use diff::three_way_merge;
pub use error::{CalixError, CalixResult, ConflictEntry, DependencyWarning};
pub use global::{GlobalState, GlobalTimelineEntry, Repository};
pub use strmap::StrMap;
pub use submodule::{CommitChain, Dependency, Submodule, SubmoduleInfo, SubmoduleKind};
