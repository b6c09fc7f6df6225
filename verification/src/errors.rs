use vstd::prelude::*;

verus! {

/// Failure taxonomy of the vault engine. Input/output and serialization
/// failures are reported by the callers that perform them, not from here.
#[derive(Debug, Clone, PartialEq, Eq)]
pub enum GitnuError {
    NoVaultFound,
    AlreadyInitialized(String),
    BranchExists(String),
    BranchNotFound(String),
    CommitNotFound(String),
    SnapshotNotFound(String),
    UncommittedChanges,
    MergeConflict(String),
    WikilinkNotFound(String),
    WikilinkAmbiguous(String, Vec<String>),
    FileNotFound(String),
    InvalidCommitRef(String),
    Other(String),
}

/// Mathematical image of an error value.
#[verifier::ext_equal]
pub enum ErrorV {
    NoVaultFound,
    AlreadyInitialized(Seq<char>),
    BranchExists(Seq<char>),
    BranchNotFound(Seq<char>),
    CommitNotFound(Seq<char>),
    SnapshotNotFound(Seq<char>),
    UncommittedChanges,
    MergeConflict(Seq<char>),
    WikilinkNotFound(Seq<char>),
    WikilinkAmbiguous(Seq<char>, Seq<Seq<char>>),
    FileNotFound(Seq<char>),
    InvalidCommitRef(Seq<char>),
    Other(Seq<char>),
}

impl View for GitnuError {
    type V = ErrorV;

    open spec fn view(&self) -> ErrorV {
        match self {
            GitnuError::NoVaultFound => ErrorV::NoVaultFound,
            GitnuError::AlreadyInitialized(p) => ErrorV::AlreadyInitialized(p@),
            GitnuError::BranchExists(b) => ErrorV::BranchExists(b@),
            GitnuError::BranchNotFound(b) => ErrorV::BranchNotFound(b@),
            GitnuError::CommitNotFound(h) => ErrorV::CommitNotFound(h@),
            GitnuError::SnapshotNotFound(h) => ErrorV::SnapshotNotFound(h@),
            GitnuError::UncommittedChanges => ErrorV::UncommittedChanges,
            GitnuError::MergeConflict(f) => ErrorV::MergeConflict(f@),
            GitnuError::WikilinkNotFound(w) => ErrorV::WikilinkNotFound(w@),
            GitnuError::WikilinkAmbiguous(w, ps) => ErrorV::WikilinkAmbiguous(
                w@,
                ps.deep_view(),
            ),
            GitnuError::FileNotFound(p) => ErrorV::FileNotFound(p@),
            GitnuError::InvalidCommitRef(r) => ErrorV::InvalidCommitRef(r@),
            GitnuError::Other(m) => ErrorV::Other(m@),
        }
    }
}

impl DeepView for GitnuError {
    type V = ErrorV;

    open spec fn deep_view(&self) -> ErrorV {
        self.view()
    }
}

/// Whether an error is the merge-conflict variant. It stands in the
/// taxonomy but is never produced: merges overwrite by snapshot and detect
/// no conflicts.
pub open spec fn spec_is_merge_conflict(e: ErrorV) -> bool {
    e matches ErrorV::MergeConflict(_)
}

} // verus!
