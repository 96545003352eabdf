//! Errors, conflict reports and dependency warnings.
use vstd::prelude::*;
use vstd::std_specs::convert::FromSpecImpl;

verus! {

/// `std::io::Error`, carried by `CalixError::Io` from the file layer.
#[verifier::external_type_specification]
#[verifier::external_body]
pub struct ExIoError(std::io::Error);

/// One key on which a merge or a rebase found two different changes.
#[derive(Debug, Clone)]
pub struct ConflictEntry {
    pub key: String,
    pub base_value: Option<String>,
    pub current_value: Option<String>,
    pub incoming_value: Option<String>,
}

impl ConflictEntry {
    /// The entry reports `key` with the three values that the ancestor, the
    /// current side and the incoming side hold for it.
    pub open spec fn reports(
        &self,
        key: Seq<char>,
        base: Option<Seq<char>>,
        current: Option<Seq<char>>,
        incoming: Option<Seq<char>>,
    ) -> bool {
        &&& self.key@ == key
        &&& self.base_value.deep_view() == base
        &&& self.current_value.deep_view() == current
        &&& self.incoming_value.deep_view() == incoming
    }
}

/// A warning about the dependencies between submodules.
#[derive(Debug, Clone)]
pub struct DependencyWarning {
    pub submodule_id: String,
    pub dependency_submodule_id: String,
    pub message: String,
}

/// Every error that the library reports.
#[derive(Debug)]
pub enum CalixError {
    Io(std::io::Error),
    Serialize(String),
    Deserialize(String),
    SubmoduleNotFound(String),
    CommitNotFound { id: String },
    BranchNotFound { name: String },
    BranchAlreadyExists { name: String },
    CannotDeleteMainBranch,
    CannotDeleteCurrentBranch { name: String },
    MergeConflict { submodule_id: String, conflicts: Vec<ConflictEntry> },
    RebaseConflict { submodule_id: String, commit_id: String, conflicts: Vec<ConflictEntry> },
    RebaseInProgress,
    RebaseNotInProgress,
    NoCommonAncestor,
    MergeNotInProgress,
    InvalidPath(String),
    AlreadyInitialized(String),
    NotInitialized,
}

impl From<std::io::Error> for CalixError {
    /// An I/O error becomes `CalixError::Io`.
    fn from(e: std::io::Error) -> (r: Self) {
        CalixError::Io(e)
    }
}

impl FromSpecImpl<std::io::Error> for CalixError {
    open spec fn obeys_from_spec() -> bool {
        true
    }

    open spec fn from_spec(e: std::io::Error) -> Self {
        CalixError::Io(e)
    }
}

/// The result type of the library.
pub type CalixResult<T> = Result<T, CalixError>;

} // verus!
