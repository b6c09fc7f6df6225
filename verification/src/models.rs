use vstd::prelude::*;
use vstd::string::StringExecFns;
use crate::cloning::{clone_bytes, clone_vec, DeepClone};

verus! {

/// A file of the tracked tree, held as plain values: its path relative to
/// the vault root (for example `domains/x/a.md`) and its raw bytes.
#[derive(Debug, Clone, PartialEq, Eq)]
pub struct TreeFile {
    pub path: String,
    pub content: Vec<u8>,
}

/// Mathematical image of a tracked file.
#[verifier::ext_equal]
pub struct TreeFileV {
    pub path: Seq<char>,
    pub content: Seq<u8>,
}

impl View for TreeFile {
    type V = TreeFileV;

    open spec fn view(&self) -> TreeFileV {
        TreeFileV { path: self.path@, content: self.content@ }
    }
}

impl DeepView for TreeFile {
    type V = TreeFileV;

    open spec fn deep_view(&self) -> TreeFileV {
        self.view()
    }
}

impl DeepClone for TreeFile {
    fn deep_clone(&self) -> (r: Self)
        ensures
            r.deep_view() == self.deep_view(),
    {
        TreeFile { path: self.path.clone(), content: clone_bytes(&self.content) }
    }
}

/// Author of a commit - either a human or an AI agent.
#[derive(Debug, Clone, PartialEq, Eq)]
pub enum Author {
    Human { name: String },
    Agent { model: String, session_id: Option<String> },
}

/// Mathematical image of an author.
#[verifier::ext_equal]
pub enum AuthorV {
    Human { name: Seq<char> },
    Agent { model: Seq<char>, session_id: Option<Seq<char>> },
}

impl View for Author {
    type V = AuthorV;

    open spec fn view(&self) -> AuthorV {
        match self {
            Author::Human { name } => AuthorV::Human { name: name@ },
            Author::Agent { model, session_id } => AuthorV::Agent {
                model: model@,
                session_id: session_id.deep_view(),
            },
        }
    }
}

impl DeepView for Author {
    type V = AuthorV;

    open spec fn deep_view(&self) -> AuthorV {
        self.view()
    }
}

impl DeepClone for Author {
    fn deep_clone(&self) -> (r: Self)
        ensures
            r.deep_view() == self.deep_view(),
    {
        match self {
            Author::Human { name } => Author::Human { name: name.clone() },
            Author::Agent { model, session_id } => Author::Agent {
                model: model.clone(),
                session_id: session_id.deep_clone(),
            },
        }
    }
}

/// The line under which an author is shown in history listings.
pub open spec fn spec_author_display(a: AuthorV) -> Seq<char> {
    match a {
        AuthorV::Human { name } => "Human ("@ + name + ")"@,
        AuthorV::Agent { model, session_id } => "Agent ("@ + model + ")"@,
    }
}

impl Author {
    pub fn display(&self) -> (r: String)
        ensures
            r@ == spec_author_display(self@),
    {
        let mut s = String::new();
        match self {
            Author::Human { name } => {
                s.append("Human (");
                s.append(name.as_str());
                s.append(")");
            },
            Author::Agent { model, session_id } => {
                s.append("Agent (");
                s.append(model.as_str());
                s.append(")");
            },
        }
        proof {
            assert(s@ =~= spec_author_display(self@));
        }
        s
    }
}

/// Summary of what changed in the tracked tree at commit time.
#[derive(Debug, Clone, PartialEq, Eq)]
pub struct ContextSummary {
    pub domains_loaded: Vec<String>,
    pub files_modified: Vec<String>,
    pub files_added: Vec<String>,
    pub files_removed: Vec<String>,
    pub token_estimate: usize,
}

/// Mathematical image of a context summary.
#[verifier::ext_equal]
pub struct ContextSummaryV {
    pub domains_loaded: Seq<Seq<char>>,
    pub files_modified: Seq<Seq<char>>,
    pub files_added: Seq<Seq<char>>,
    pub files_removed: Seq<Seq<char>>,
    pub token_estimate: int,
}

impl View for ContextSummary {
    type V = ContextSummaryV;

    open spec fn view(&self) -> ContextSummaryV {
        ContextSummaryV {
            domains_loaded: self.domains_loaded.deep_view(),
            files_modified: self.files_modified.deep_view(),
            files_added: self.files_added.deep_view(),
            files_removed: self.files_removed.deep_view(),
            token_estimate: self.token_estimate as int,
        }
    }
}

impl DeepView for ContextSummary {
    type V = ContextSummaryV;

    open spec fn deep_view(&self) -> ContextSummaryV {
        self.view()
    }
}

impl DeepClone for ContextSummary {
    fn deep_clone(&self) -> (r: Self)
        ensures
            r.deep_view() == self.deep_view(),
    {
        ContextSummary {
            domains_loaded: clone_vec(&self.domains_loaded),
            files_modified: clone_vec(&self.files_modified),
            files_added: clone_vec(&self.files_added),
            files_removed: clone_vec(&self.files_removed),
            token_estimate: self.token_estimate,
        }
    }
}

/// A commit of the vault. Immutable once created; timestamps are kept as
/// seconds since the Unix epoch.
#[derive(Debug, Clone, PartialEq, Eq)]
pub struct Commit {
    pub hash: String,
    pub parent: Option<String>,
    pub timestamp: i64,
    pub author: Author,
    pub message: String,
    pub context_summary: ContextSummary,
    pub snapshot_path: String,
}

/// Mathematical image of a commit.
#[verifier::ext_equal]
pub struct CommitV {
    pub hash: Seq<char>,
    pub parent: Option<Seq<char>>,
    pub timestamp: int,
    pub author: AuthorV,
    pub message: Seq<char>,
    pub context_summary: ContextSummaryV,
    pub snapshot_path: Seq<char>,
}

impl View for Commit {
    type V = CommitV;

    open spec fn view(&self) -> CommitV {
        CommitV {
            hash: self.hash@,
            parent: self.parent.deep_view(),
            timestamp: self.timestamp as int,
            author: self.author@,
            message: self.message@,
            context_summary: self.context_summary@,
            snapshot_path: self.snapshot_path@,
        }
    }
}

impl DeepView for Commit {
    type V = CommitV;

    open spec fn deep_view(&self) -> CommitV {
        self.view()
    }
}

impl DeepClone for Commit {
    fn deep_clone(&self) -> (r: Self)
        ensures
            r.deep_view() == self.deep_view(),
    {
        Commit {
            hash: self.hash.clone(),
            parent: self.parent.deep_clone(),
            timestamp: self.timestamp,
            author: self.author.deep_clone(),
            message: self.message.clone(),
            context_summary: self.context_summary.deep_clone(),
            snapshot_path: self.snapshot_path.clone(),
        }
    }
}

/// Reference to a branch: its name and the hash of its latest commit.
#[derive(Debug, Clone, PartialEq, Eq)]
pub struct BranchRef {
    pub name: String,
    pub head: String,
    pub created_at: i64,
    pub description: Option<String>,
}

/// A file staged for inclusion in the working context.
#[derive(Debug, Clone, PartialEq, Eq)]
pub struct StagedFile {
    pub path: String,
    pub reason: String,
    pub priority: Priority,
}

#[derive(Debug, Clone, Copy, PartialEq, Eq, Structural)]
pub enum Priority {
    High,
    Medium,
    Low,
}

/// The label under which a priority is shown.
pub open spec fn spec_priority_display(p: Priority) -> Seq<char> {
    match p {
        Priority::High => "High"@,
        Priority::Medium => "Medium"@,
        Priority::Low => "Low"@,
    }
}

impl Priority {
    pub fn display(&self) -> (r: &'static str)
        ensures
            r@ == spec_priority_display(*self),
    {
        match self {
            Priority::High => "High",
            Priority::Medium => "Medium",
            Priority::Low => "Low",
        }
    }
}

/// Mathematical image of a staged file.
#[verifier::ext_equal]
pub struct StagedFileV {
    pub path: Seq<char>,
    pub reason: Seq<char>,
    pub priority: Priority,
}

impl View for StagedFile {
    type V = StagedFileV;

    open spec fn view(&self) -> StagedFileV {
        StagedFileV { path: self.path@, reason: self.reason@, priority: self.priority }
    }
}

impl DeepView for StagedFile {
    type V = StagedFileV;

    open spec fn deep_view(&self) -> StagedFileV {
        self.view()
    }
}

/// The mutable working-state record: which paths are loaded, pinned,
/// excluded or staged, independent of the commit graph.
#[derive(Debug, Clone, PartialEq, Eq)]
pub struct Index {
    pub staged: Vec<StagedFile>,
    pub pinned: Vec<String>,
    pub excluded: Vec<String>,
    pub loaded: Vec<String>,
}

/// Mathematical image of the index.
#[verifier::ext_equal]
pub struct IndexV {
    pub staged: Seq<StagedFileV>,
    pub pinned: Seq<Seq<char>>,
    pub excluded: Seq<Seq<char>>,
    pub loaded: Seq<Seq<char>>,
}

impl View for Index {
    type V = IndexV;

    open spec fn view(&self) -> IndexV {
        IndexV {
            staged: self.staged.deep_view(),
            pinned: self.pinned.deep_view(),
            excluded: self.excluded.deep_view(),
            loaded: self.loaded.deep_view(),
        }
    }
}

impl DeepView for Index {
    type V = IndexV;

    open spec fn deep_view(&self) -> IndexV {
        self.view()
    }
}

impl Index {
    /// Marks a path as loaded, and pinned too if asked; a path already on
    /// a list is never duplicated.
    pub fn load(&mut self, rel_path: &str, pin: bool)
        ensures
            final(self)@.loaded == (if old(self)@.loaded.contains(rel_path@) {
                old(self)@.loaded
            } else {
                old(self)@.loaded.push(rel_path@)
            }),
            final(self)@.pinned == (if pin && !old(self)@.pinned.contains(rel_path@) {
                old(self)@.pinned.push(rel_path@)
            } else {
                old(self)@.pinned
            }),
            final(self)@.excluded == old(self)@.excluded,
            final(self)@.staged == old(self)@.staged,
    {
        if !crate::strutil::vec_contains_string(&self.loaded, rel_path) {
            let ghost pre = self.loaded.deep_view();
            self.loaded.push(rel_path.to_owned());
            proof {
                assert(self.loaded.deep_view() =~= pre.push(rel_path@));
            }
        }
        if pin && !crate::strutil::vec_contains_string(&self.pinned, rel_path) {
            let ghost pre = self.pinned.deep_view();
            self.pinned.push(rel_path.to_owned());
            proof {
                assert(self.pinned.deep_view() =~= pre.push(rel_path@));
            }
        }
    }

    /// Takes a path off the loaded list; pins and exclusions stay.
    pub fn unload(&mut self, rel_path: &str)
        ensures
            final(self)@.loaded == old(self)@.loaded.filter(
                |x: Seq<char>| x != rel_path@,
            ),
            final(self)@.pinned == old(self)@.pinned,
            final(self)@.excluded == old(self)@.excluded,
            final(self)@.staged == old(self)@.staged,
    {
        crate::strutil::retain_not_equal(&mut self.loaded, rel_path);
    }

    /// Unloads everything that is not pinned.
    pub fn unload_all(&mut self)
        ensures
            final(self)@.loaded == old(self)@.loaded.filter(
                |x: Seq<char>| old(self)@.pinned.contains(x),
            ),
            final(self)@.pinned == old(self)@.pinned,
            final(self)@.excluded == old(self)@.excluded,
            final(self)@.staged == old(self)@.staged,
    {
        crate::strutil::retain_contained(&mut self.loaded, &self.pinned);
    }

    /// Pins a path so it is always included, loading it as well; or, with
    /// `exclude`, marks it as never to be included.
    pub fn pin(&mut self, rel_path: &str, exclude: bool)
        ensures
            final(self)@.excluded == (if exclude && !old(self)@.excluded.contains(rel_path@) {
                old(self)@.excluded.push(rel_path@)
            } else {
                old(self)@.excluded
            }),
            final(self)@.pinned == (if !exclude && !old(self)@.pinned.contains(rel_path@) {
                old(self)@.pinned.push(rel_path@)
            } else {
                old(self)@.pinned
            }),
            final(self)@.loaded == (if !exclude && !old(self)@.loaded.contains(rel_path@) {
                old(self)@.loaded.push(rel_path@)
            } else {
                old(self)@.loaded
            }),
            final(self)@.staged == old(self)@.staged,
    {
        if exclude {
            if !crate::strutil::vec_contains_string(&self.excluded, rel_path) {
                let ghost pre = self.excluded.deep_view();
                self.excluded.push(rel_path.to_owned());
                proof {
                    assert(self.excluded.deep_view() =~= pre.push(rel_path@));
                }
            }
        } else {
            if !crate::strutil::vec_contains_string(&self.pinned, rel_path) {
                let ghost pre = self.pinned.deep_view();
                self.pinned.push(rel_path.to_owned());
                proof {
                    assert(self.pinned.deep_view() =~= pre.push(rel_path@));
                }
            }
            if !crate::strutil::vec_contains_string(&self.loaded, rel_path) {
                let ghost pre = self.loaded.deep_view();
                self.loaded.push(rel_path.to_owned());
                proof {
                    assert(self.loaded.deep_view() =~= pre.push(rel_path@));
                }
            }
        }
    }

    /// Takes a path off both the pinned and the excluded lists.
    pub fn unpin(&mut self, rel_path: &str)
        ensures
            final(self)@.pinned == old(self)@.pinned.filter(
                |x: Seq<char>| x != rel_path@,
            ),
            final(self)@.excluded == old(self)@.excluded.filter(
                |x: Seq<char>| x != rel_path@,
            ),
            final(self)@.loaded == old(self)@.loaded,
            final(self)@.staged == old(self)@.staged,
    {
        crate::strutil::retain_not_equal(&mut self.pinned, rel_path);
        crate::strutil::retain_not_equal(&mut self.excluded, rel_path);
    }
}

impl Default for Index {
    fn default() -> (r: Index)
        ensures
            r@.staged == Seq::<StagedFileV>::empty(),
            r@.pinned == Seq::<Seq<char>>::empty(),
            r@.excluded == Seq::<Seq<char>>::empty(),
            r@.loaded == Seq::<Seq<char>>::empty(),
    {
        Index { staged: Vec::new(), pinned: Vec::new(), excluded: Vec::new(), loaded: Vec::new() }
    }
}

/// Configuration of the vault.
#[derive(Debug, Clone, PartialEq, Eq)]
pub struct Config {
    pub core: CoreConfig,
    pub context: ContextConfig,
    pub agent: AgentConfig,
    pub pins: PinsConfig,
}

#[derive(Debug, Clone, PartialEq, Eq)]
pub struct CoreConfig {
    pub vault_name: String,
    pub default_branch: String,
    pub created_at: i64,
}

#[derive(Debug, Clone, PartialEq, Eq)]
pub struct ContextConfig {
    pub max_tokens: usize,
    pub auto_commit: bool,
    pub compress_snapshots: bool,
}

#[derive(Debug, Clone, PartialEq, Eq)]
pub struct AgentConfig {
    pub default_author: String,
    pub model_hint: String,
}

#[derive(Debug, Clone, PartialEq, Eq)]
pub struct PinsConfig {
    pub always_load: Vec<String>,
    pub never_load: Vec<String>,
}

impl Default for Config {
    /// The configuration a fresh vault starts from. The creation time is
    /// filled in by vault initialization; here it is zero.
    fn default() -> (r: Config)
        ensures
            r.core.vault_name@ == "unnamed"@,
            r.core.default_branch@ == "main"@,
            r.core.created_at == 0,
            r.context.max_tokens == 100000,
            r.context.auto_commit == false,
            r.context.compress_snapshots == true,
            r.agent.default_author@ == "agent"@,
            r.agent.model_hint@ == "default-model"@,
            r.pins.always_load.deep_view() == seq!["domains/_global/agent.md"@],
            r.pins.never_load.deep_view() == seq!["domains/archive/*"@],
    {
        let mut always_load: Vec<String> = Vec::new();
        always_load.push(String::from_str("domains/_global/agent.md"));
        let mut never_load: Vec<String> = Vec::new();
        never_load.push(String::from_str("domains/archive/*"));
        proof {
            assert(always_load.deep_view() =~= seq!["domains/_global/agent.md"@]);
            assert(never_load.deep_view() =~= seq!["domains/archive/*"@]);
        }
        Config {
            core: CoreConfig {
                vault_name: String::from_str("unnamed"),
                default_branch: String::from_str("main"),
                created_at: 0,
            },
            context: ContextConfig {
                max_tokens: 100000,
                auto_commit: false,
                compress_snapshots: true,
            },
            agent: AgentConfig {
                default_author: String::from_str("agent"),
                model_hint: String::from_str("default-model"),
            },
            pins: PinsConfig { always_load, never_load },
        }
    }
}

/// Per-file record of a snapshot manifest: path, content hash, byte size.
#[derive(Debug, Clone, PartialEq, Eq)]
pub struct FileInfo {
    pub path: String,
    pub hash: String,
    pub size: u64,
}

/// Mathematical image of a manifest record.
#[verifier::ext_equal]
pub struct FileInfoV {
    pub path: Seq<char>,
    pub hash: Seq<char>,
    pub size: int,
}

impl View for FileInfo {
    type V = FileInfoV;

    open spec fn view(&self) -> FileInfoV {
        FileInfoV { path: self.path@, hash: self.hash@, size: self.size as int }
    }
}

impl DeepView for FileInfo {
    type V = FileInfoV;

    open spec fn deep_view(&self) -> FileInfoV {
        self.view()
    }
}

/// Snapshot manifest: one record for every tracked file, plus totals and
/// the creation time.
#[derive(Debug, Clone, PartialEq, Eq)]
pub struct Manifest {
    pub files: Vec<FileInfo>,
    pub total_files: usize,
    pub total_size: u64,
    pub created_at: i64,
}

/// Mathematical image of a manifest.
#[verifier::ext_equal]
pub struct ManifestV {
    pub files: Seq<FileInfoV>,
    pub total_files: int,
    pub total_size: int,
    pub created_at: int,
}

impl View for Manifest {
    type V = ManifestV;

    open spec fn view(&self) -> ManifestV {
        ManifestV {
            files: self.files.deep_view(),
            total_files: self.total_files as int,
            total_size: self.total_size as int,
            created_at: self.created_at as int,
        }
    }
}

impl DeepView for Manifest {
    type V = ManifestV;

    open spec fn deep_view(&self) -> ManifestV {
        self.view()
    }
}

} // verus!
