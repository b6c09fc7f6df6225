use vstd::prelude::*;
use vstd::pervasive::VecAdditionalExecFns;
use vstd::string::StringExecFns;
use crate::archive::{entry_views, files_of_entries, pack_archive, tar_normal_paths, targz_of, targz_packs, unpack_archive, untargz_of};
use crate::cloning::{clone_bytes, clone_vec, DeepClone};
use crate::digest::{compute_hash, spec_sha256_hex};
use crate::errors::{ErrorV, GitnuError};
use crate::models::{Commit, CommitV, Config, FileInfo, FileInfoV, Index, Manifest, ManifestV, TreeFile, TreeFileV};
use crate::strutil::{is_prefix_of, str_eq, str_starts_with};

verus! {

/// The head of the vault: the current branch, or, detached, a literal
/// commit hash.
#[derive(Debug, Clone, PartialEq, Eq)]
pub enum Head {
    Attached(String),
    Detached(String),
}

/// Mathematical image of the head.
#[verifier::ext_equal]
pub enum HeadV {
    Attached(Seq<char>),
    Detached(Seq<char>),
}

impl View for Head {
    type V = HeadV;

    open spec fn view(&self) -> HeadV {
        match self {
            Head::Attached(b) => HeadV::Attached(b@),
            Head::Detached(h) => HeadV::Detached(h@),
        }
    }
}

/// The name the head reports: the branch name while attached, the literal
/// hash while detached.
pub open spec fn spec_head_name(h: HeadV) -> Seq<char> {
    match h {
        HeadV::Attached(b) => b,
        HeadV::Detached(c) => c,
    }
}

/// One branch reference: a branch name and the hash of its latest commit.
#[derive(Debug, Clone, PartialEq, Eq)]
pub struct BranchHead {
    pub name: String,
    pub hash: String,
}

/// Mathematical image of a branch reference.
#[verifier::ext_equal]
pub struct BranchHeadV {
    pub name: Seq<char>,
    pub hash: Seq<char>,
}

impl View for BranchHead {
    type V = BranchHeadV;

    open spec fn view(&self) -> BranchHeadV {
        BranchHeadV { name: self.name@, hash: self.hash@ }
    }
}

impl DeepView for BranchHead {
    type V = BranchHeadV;

    open spec fn deep_view(&self) -> BranchHeadV {
        self.view()
    }
}

/// The append-only commit log of one branch, oldest commit first. A log
/// outlives its branch reference: deleting a branch keeps its log.
#[derive(Debug, Clone, PartialEq, Eq)]
pub struct BranchLog {
    pub name: String,
    pub commits: Vec<Commit>,
}

/// Mathematical image of a branch log.
#[verifier::ext_equal]
pub struct BranchLogV {
    pub name: Seq<char>,
    pub commits: Seq<CommitV>,
}

impl View for BranchLog {
    type V = BranchLogV;

    open spec fn view(&self) -> BranchLogV {
        BranchLogV { name: self.name@, commits: self.commits.deep_view() }
    }
}

impl DeepView for BranchLog {
    type V = BranchLogV;

    open spec fn deep_view(&self) -> BranchLogV {
        self.view()
    }
}

/// One entry of the snapshot store: the tracked tree of one commit, both as
/// the packed archive and as the files it holds, with the manifest that was
/// written beside it.
#[derive(Debug)]
pub struct StoredObject {
    hash: String,
    files: Vec<TreeFile>,
    archive: Vec<u8>,
    manifest: Manifest,
}

/// Mathematical image of a snapshot store entry.
#[verifier::ext_equal]
pub struct StoredObjectV {
    pub hash: Seq<char>,
    pub files: Seq<TreeFileV>,
    pub archive: Seq<u8>,
    pub manifest: ManifestV,
}

impl View for StoredObject {
    type V = StoredObjectV;

    closed spec fn view(&self) -> StoredObjectV {
        StoredObjectV {
            hash: self.hash@,
            files: self.files.deep_view(),
            archive: self.archive@,
            manifest: self.manifest@,
        }
    }
}

impl DeepView for StoredObject {
    type V = StoredObjectV;

    open spec fn deep_view(&self) -> StoredObjectV {
        self.view()
    }
}

impl StoredObject {
    /// The archive and the files are two renderings of one snapshot:
    /// unpacking the archive yields exactly the files.
    #[verifier::type_invariant]
    spec fn inv(self) -> bool {
        untargz_of(self.archive@) == Some(entry_views(self.files.deep_view()))
    }

    /// Rebuilds a store entry from a packed archive, as read back from
    /// persistent storage. Fails exactly when the bytes are not an archive.
    pub fn from_archive(hash: String, archive: Vec<u8>, manifest: Manifest) -> (r: Option<
        StoredObject,
    >)
        ensures
            match r {
                Some(o) => {
                    &&& untargz_of(archive@) matches Some(es)
                    &&& o@.hash == hash@
                    &&& o@.archive == archive@
                    &&& o@.manifest == manifest@
                    &&& Some(entry_views(o@.files)) == untargz_of(archive@)
                },
                None => untargz_of(archive@) is None,
            },
    {
        match unpack_archive(&archive) {
            Some(files) => {
                proof {
                    crate::archive::lemma_files_of_entry_views(
                        files_of_entries(untargz_of(archive@).unwrap()),
                    );
                    assert(entry_views(files_of_entries(untargz_of(archive@).unwrap()))
                        =~= untargz_of(archive@).unwrap());
                }
                Some(StoredObject { hash, files, archive, manifest })
            },
            None => None,
        }
    }

    pub fn hash(&self) -> (r: &String)
        ensures
            r@ == self@.hash,
    {
        &self.hash
    }

    pub fn files(&self) -> (r: &Vec<TreeFile>)
        ensures
            r.deep_view() == self@.files,
    {
        &self.files
    }

    pub fn archive(&self) -> (r: &Vec<u8>)
        ensures
            r@ == self@.archive,
    {
        &self.archive
    }

    pub fn manifest(&self) -> (r: &Manifest)
        ensures
            r@ == self@.manifest,
    {
        &self.manifest
    }
}

/// The hash a sequence of branch references gives a name: the first
/// matching reference wins.
pub open spec fn ref_lookup(refs: Seq<BranchHeadV>, name: Seq<char>) -> Option<Seq<char>>
    decreases refs.len(),
{
    if refs.len() == 0 {
        None
    } else if refs.first().name == name {
        Some(refs.first().hash)
    } else {
        ref_lookup(refs.drop_first(), name)
    }
}

/// The commit sequence a set of logs gives a branch name, if a log exists.
pub open spec fn log_lookup(logs: Seq<BranchLogV>, name: Seq<char>) -> Option<Seq<CommitV>>
    decreases logs.len(),
{
    if logs.len() == 0 {
        None
    } else if logs.first().name == name {
        Some(logs.first().commits)
    } else {
        log_lookup(logs.drop_first(), name)
    }
}

/// The commits of a branch: its log's contents, or empty if it never had one.
pub open spec fn spec_commits_of(logs: Seq<BranchLogV>, name: Seq<char>) -> Seq<CommitV> {
    match log_lookup(logs, name) {
        Some(cs) => cs,
        None => Seq::empty(),
    }
}

/// The snapshot store entry for a commit hash, if one exists.
pub open spec fn object_lookup(objects: Seq<StoredObjectV>, hash: Seq<char>) -> Option<
    StoredObjectV,
>
    decreases objects.len(),
{
    if objects.len() == 0 {
        None
    } else if objects.first().hash == hash {
        Some(objects.first())
    } else {
        object_lookup(objects.drop_first(), hash)
    }
}

/// The names of the branch references, in stored order.
pub open spec fn ref_names(refs: Seq<BranchHeadV>) -> Seq<Seq<char>> {
    refs.map_values(|r: BranchHeadV| r.name)
}

pub proof fn lemma_ref_lookup_skip(refs: Seq<BranchHeadV>, name: Seq<char>, i: int)
    requires
        0 <= i <= refs.len(),
        forall|j: int| 0 <= j < i ==> refs[j].name != name,
    ensures
        ref_lookup(refs, name) == ref_lookup(refs.skip(i), name),
    decreases i,
{
    if i > 0 {
        lemma_ref_lookup_skip(refs.drop_first(), name, i - 1);
        assert(refs.drop_first().skip(i - 1) =~= refs.skip(i));
        assert(forall|j: int| 0 <= j < i - 1 ==> refs.drop_first()[j] == refs[j + 1]);
    } else {
        assert(refs.skip(0) =~= refs);
    }
}

pub proof fn lemma_ref_lookup_update(refs: Seq<BranchHeadV>, k: int, hash: Seq<char>, n: Seq<char>)
    requires
        0 <= k < refs.len(),
        n != refs[k].name,
    ensures
        ref_lookup(refs.update(k, BranchHeadV { name: refs[k].name, hash }), n) == ref_lookup(
            refs,
            n,
        ),
    decreases k,
{
    let b = refs.update(k, BranchHeadV { name: refs[k].name, hash });
    if k == 0 {
        assert(b.drop_first() =~= refs.drop_first());
    } else {
        assert(b.first() == refs.first());
        assert(b.drop_first() =~= refs.drop_first().update(
            k - 1,
            BranchHeadV { name: refs.drop_first()[k - 1].name, hash },
        ));
        lemma_ref_lookup_update(refs.drop_first(), k - 1, hash, n);
    }
}

pub proof fn lemma_ref_lookup_push(refs: Seq<BranchHeadV>, e: BranchHeadV, n: Seq<char>)
    ensures
        ref_lookup(refs.push(e), n) == (match ref_lookup(refs, n) {
            Some(h) => Some(h),
            None => if e.name == n {
                Some(e.hash)
            } else {
                None
            },
        }),
    decreases refs.len(),
{
    if refs.len() == 0 {
        assert(refs.push(e).first() == e);
        assert(refs.push(e).drop_first() =~= Seq::<BranchHeadV>::empty());
    } else {
        assert(refs.push(e).first() == refs.first());
        assert(refs.push(e).drop_first() =~= refs.drop_first().push(e));
        lemma_ref_lookup_push(refs.drop_first(), e, n);
    }
}

/// A sequence of branch references with every reference to `name` removed.
pub open spec fn refs_without(refs: Seq<BranchHeadV>, name: Seq<char>) -> Seq<BranchHeadV> {
    refs.filter(|r: BranchHeadV| r.name != name)
}

pub proof fn lemma_ref_lookup_without(refs: Seq<BranchHeadV>, name: Seq<char>, n: Seq<char>)
    ensures
        n == name ==> ref_lookup(refs_without(refs, name), n) is None,
        n != name ==> ref_lookup(refs_without(refs, name), n) == ref_lookup(refs, n),
    decreases refs.len(),
{
    if refs.len() > 0 {
        lemma_ref_lookup_without(refs.drop_first(), name, n);
        seq_filter_first(refs, |r: BranchHeadV| r.name != name);
        if refs.first().name != name {
            assert(refs_without(refs, name).first() == refs.first());
            assert(refs_without(refs, name).drop_first() =~= refs_without(
                refs.drop_first(),
                name,
            ));
        } else {
            assert(refs_without(refs, name) =~= refs_without(refs.drop_first(), name));
        }
    }
}

/// Whether `name` is the branch the head is attached to.
pub open spec fn spec_is_current_branch(h: HeadV, name: Seq<char>) -> bool {
    h matches HeadV::Attached(b) && b == name
}

/// The storage model of one vault: every piece of persisted state, held as
/// plain values. Callers around the library load this state from disk,
/// run operations on it, and persist it again.
#[derive(Debug)]
pub struct Storage {
    pub vault_root: String,
    pub initialized: bool,
    pub config: Config,
    pub head: Head,
    pub refs: Vec<BranchHead>,
    pub logs: Vec<BranchLog>,
    pub objects: Vec<StoredObject>,
    pub tree: Vec<TreeFile>,
    pub index: Index,
}

/// Everything but the branch references agrees between two storage states.
pub open spec fn same_except_refs(a: Storage, b: Storage) -> bool {
    &&& b.vault_root == a.vault_root
    &&& b.initialized == a.initialized
    &&& b.config == a.config
    &&& b.head == a.head
    &&& b.logs == a.logs
    &&& b.objects == a.objects
    &&& b.tree == a.tree
    &&& b.index == a.index
}

/// Everything but the head agrees between two storage states.
pub open spec fn same_except_head(a: Storage, b: Storage) -> bool {
    &&& b.vault_root == a.vault_root
    &&& b.initialized == a.initialized
    &&& b.config == a.config
    &&& b.refs == a.refs
    &&& b.logs == a.logs
    &&& b.objects == a.objects
    &&& b.tree == a.tree
    &&& b.index == a.index
}

/// Everything but the commit logs agrees between two storage states.
pub open spec fn same_except_logs(a: Storage, b: Storage) -> bool {
    &&& b.vault_root == a.vault_root
    &&& b.initialized == a.initialized
    &&& b.config == a.config
    &&& b.head == a.head
    &&& b.refs == a.refs
    &&& b.objects == a.objects
    &&& b.tree == a.tree
    &&& b.index == a.index
}

/// Everything but the snapshot store agrees between two storage states.
pub open spec fn same_except_objects(a: Storage, b: Storage) -> bool {
    &&& b.vault_root == a.vault_root
    &&& b.initialized == a.initialized
    &&& b.config == a.config
    &&& b.head == a.head
    &&& b.refs == a.refs
    &&& b.logs == a.logs
    &&& b.tree == a.tree
    &&& b.index == a.index
}

/// Everything but the content tree agrees between two storage states.
pub open spec fn same_except_tree(a: Storage, b: Storage) -> bool {
    &&& b.vault_root == a.vault_root
    &&& b.initialized == a.initialized
    &&& b.config == a.config
    &&& b.head == a.head
    &&& b.refs == a.refs
    &&& b.logs == a.logs
    &&& b.objects == a.objects
    &&& b.index == a.index
}

impl Storage {
    /// A fresh, uninitialized storage model for the given vault root.
    pub fn new(vault_root: String) -> (s: Storage)
        ensures
            s.vault_root == vault_root,
            !s.initialized,
            s.head@ == HeadV::Attached("main"@),
            s.refs@.len() == 0,
            s.logs@.len() == 0,
            s.objects@.len() == 0,
            s.tree@.len() == 0,
            s.index@.staged.len() == 0,
            s.index@.pinned.len() == 0,
            s.index@.excluded.len() == 0,
            s.index@.loaded.len() == 0,
    {
        Storage {
            vault_root,
            initialized: false,
            config: Config::default(),
            head: Head::Attached(String::from_str("main")),
            refs: Vec::new(),
            logs: Vec::new(),
            objects: Vec::new(),
            tree: Vec::new(),
            index: Index::default(),
        }
    }

    /// Path of the control directory, as a string below the vault root.
    pub fn gitnu_dir(&self) -> (r: String)
        ensures
            r@ == self.vault_root@ + "/.gitnu"@,
    {
        self.vault_root.clone().concat("/.gitnu")
    }

    /// Path of the tree content root.
    pub fn domains_dir(&self) -> (r: String)
        ensures
            r@ == self.vault_root@ + "/domains"@,
    {
        self.vault_root.clone().concat("/domains")
    }

    /// Path of the snapshot object store.
    pub fn objects_dir(&self) -> (r: String)
        ensures
            r@ == self.vault_root@ + "/.gitnu"@ + "/objects"@,
    {
        self.gitnu_dir().concat("/objects")
    }

    /// Path of the branch reference directory.
    pub fn refs_dir(&self) -> (r: String)
        ensures
            r@ == self.vault_root@ + "/.gitnu"@ + "/refs/heads"@,
    {
        self.gitnu_dir().concat("/refs/heads")
    }

    /// Path of the per-branch commit log directory.
    pub fn commits_dir(&self) -> (r: String)
        ensures
            r@ == self.vault_root@ + "/.gitnu"@ + "/commits"@,
    {
        self.gitnu_dir().concat("/commits")
    }

    /// Initializes the vault: default configuration under the given name,
    /// head attached to `main`, an empty index. Fails if the vault is
    /// already initialized; the content tree is never touched.
    pub fn init(&mut self, vault_name: &str, now: i64) -> (r: Result<(), GitnuError>)
        ensures
            old(self).initialized ==> {
                &&& r matches Err(e)
                &&& e@ == ErrorV::AlreadyInitialized(old(self).vault_root@)
                &&& *final(self) == *old(self)
            },
            !old(self).initialized ==> {
                &&& r is Ok
                &&& final(self).initialized
                &&& final(self).config.core.vault_name@ == vault_name@
                &&& final(self).config.core.default_branch@ == "main"@
                &&& final(self).config.core.created_at == now
                &&& final(self).config.context.max_tokens == 100000
                &&& final(self).config.context.auto_commit == false
                &&& final(self).config.context.compress_snapshots == true
                &&& final(self).head@ == HeadV::Attached("main"@)
                &&& final(self).index@.staged.len() == 0
                &&& final(self).index@.pinned.len() == 0
                &&& final(self).index@.excluded.len() == 0
                &&& final(self).index@.loaded.len() == 0
                &&& final(self).vault_root == old(self).vault_root
                &&& final(self).refs == old(self).refs
                &&& final(self).logs == old(self).logs
                &&& final(self).objects == old(self).objects
                &&& final(self).tree == old(self).tree
            },
    {
        if self.initialized {
            return Err(GitnuError::AlreadyInitialized(self.vault_root.clone()));
        }
        let mut config = Config::default();
        config.core.vault_name = vault_name.to_owned();
        config.core.created_at = now;
        self.config = config;
        self.head = Head::Attached(String::from_str("main"));
        self.index = Index::default();
        self.initialized = true;
        Ok(())
    }

    /// Replaces the vault's configuration.
    pub fn save_config(&mut self, config: Config)
        ensures
            final(self).config == config,
            final(self).vault_root == old(self).vault_root,
            final(self).initialized == old(self).initialized,
            final(self).head == old(self).head,
            final(self).refs == old(self).refs,
            final(self).logs == old(self).logs,
            final(self).objects == old(self).objects,
            final(self).tree == old(self).tree,
            final(self).index == old(self).index,
    {
        self.config = config;
    }

    /// The vault's current configuration.
    pub fn load_config(&self) -> (r: &Config)
        ensures
            r == &self.config,
    {
        &self.config
    }

    /// Replaces the working-state index.
    pub fn save_index(&mut self, index: Index)
        ensures
            final(self).index == index,
            final(self).vault_root == old(self).vault_root,
            final(self).initialized == old(self).initialized,
            final(self).head == old(self).head,
            final(self).refs == old(self).refs,
            final(self).logs == old(self).logs,
            final(self).objects == old(self).objects,
            final(self).tree == old(self).tree,
            final(self).config == old(self).config,
    {
        self.index = index;
    }

    /// The current working-state index.
    pub fn load_index(&self) -> (r: &Index)
        ensures
            r == &self.index,
    {
        &self.index
    }

    /// Attaches the head to a branch.
    pub fn write_head(&mut self, branch: &str)
        ensures
            final(self).head@ == HeadV::Attached(branch@),
            same_except_head(*old(self), *final(self)),
    {
        self.head = Head::Attached(branch.to_owned());
    }

    /// Detaches the head onto a literal commit hash.
    pub fn detach_head(&mut self, commit_hash: &str)
        ensures
            final(self).head@ == HeadV::Detached(commit_hash@),
            same_except_head(*old(self), *final(self)),
    {
        self.head = Head::Detached(commit_hash.to_owned());
    }

    /// The name the head points at: the current branch, or, detached, the
    /// literal commit hash.
    pub fn read_head(&self) -> (r: String)
        ensures
            r@ == spec_head_name(self.head@),
    {
        match &self.head {
            Head::Attached(b) => b.clone(),
            Head::Detached(h) => h.clone(),
        }
    }

    /// Sets a branch's latest commit hash, creating the reference if the
    /// branch had none; every other reference is untouched.
    pub fn write_branch_ref(&mut self, branch: &str, commit_hash: &str)
        ensures
            ref_lookup(final(self).refs.deep_view(), branch@) == Some(commit_hash@),
            forall|n: Seq<char>|
                n != branch@ ==> ref_lookup(final(self).refs.deep_view(), n) == ref_lookup(
                    old(self).refs.deep_view(),
                    n,
                ),
            ref_lookup(old(self).refs.deep_view(), branch@) is Some ==> ref_names(
                final(self).refs.deep_view(),
            ) == ref_names(old(self).refs.deep_view()),
            ref_lookup(old(self).refs.deep_view(), branch@) is None ==> ref_names(
                final(self).refs.deep_view(),
            ) == ref_names(old(self).refs.deep_view()).push(branch@),
            same_except_refs(*old(self), *final(self)),
    {
        let ghost orig = self.refs.deep_view();
        let n = self.refs.len();
        let mut i: usize = 0;
        while i < n
            invariant
                0 <= i <= n,
                n == self.refs@.len(),
                *self == *old(self),
                orig == self.refs.deep_view(),
                forall|j: int| 0 <= j < i ==> orig[j].name != branch@,
            decreases n - i,
        {
            if str_eq(self.refs[i].name.as_str(), branch) {
                let entry = BranchHead {
                    name: self.refs[i].name.clone(),
                    hash: commit_hash.to_owned(),
                };
                self.refs.set(i, entry);
                proof {
                    let now_refs = self.refs.deep_view();
                    assert(now_refs =~= orig.update(
                        i as int,
                        BranchHeadV { name: orig[i as int].name, hash: commit_hash@ },
                    ));
                    lemma_ref_lookup_skip(now_refs, branch@, i as int);
                    assert(now_refs.skip(i as int).first() == now_refs[i as int]);
                    assert(ref_lookup(now_refs, branch@) == Some(commit_hash@));
                    assert forall|m: Seq<char>| m != branch@ implies ref_lookup(now_refs, m)
                        == ref_lookup(orig, m) by {
                        lemma_ref_lookup_update(orig, i as int, commit_hash@, m);
                    }
                    lemma_ref_lookup_skip(orig, branch@, i as int);
                    assert(orig.skip(i as int).first() == orig[i as int]);
                    assert(ref_lookup(orig, branch@) is Some);
                    assert(ref_names(now_refs) =~= ref_names(orig));
                }
                return ;
            }
            i += 1;
        }
        let entry = BranchHead { name: branch.to_owned(), hash: commit_hash.to_owned() };
        self.refs.push(entry);
        proof {
            let now_refs = self.refs.deep_view();
            let e = BranchHeadV { name: branch@, hash: commit_hash@ };
            assert(now_refs =~= orig.push(e));
            lemma_ref_lookup_skip(orig, branch@, orig.len() as int);
            assert(orig.skip(orig.len() as int) =~= Seq::<BranchHeadV>::empty());
            assert(ref_lookup(orig, branch@) is None);
            assert forall|m: Seq<char>| true implies ref_lookup(now_refs, m) == (match ref_lookup(
                orig,
                m,
            ) {
                Some(h) => Some(h),
                None => if e.name == m {
                    Some(e.hash)
                } else {
                    None
                },
            }) by {
                lemma_ref_lookup_push(orig, e, m);
            }
            assert(ref_names(now_refs) =~= ref_names(orig).push(branch@));
        }
    }

    /// The latest commit hash a branch points at, if the branch exists.
    pub fn read_branch_ref(&self, branch: &str) -> (r: Option<String>)
        ensures
            match r {
                Some(h) => ref_lookup(self.refs.deep_view(), branch@) == Some(h@),
                None => ref_lookup(self.refs.deep_view(), branch@) is None,
            },
    {
        let ghost refs = self.refs.deep_view();
        let n = self.refs.len();
        let mut i: usize = 0;
        while i < n
            invariant
                0 <= i <= n,
                n == self.refs@.len(),
                refs == self.refs.deep_view(),
                forall|j: int| 0 <= j < i ==> refs[j].name != branch@,
            decreases n - i,
        {
            if str_eq(self.refs[i].name.as_str(), branch) {
                proof {
                    lemma_ref_lookup_skip(refs, branch@, i as int);
                    assert(refs.skip(i as int).first() == refs[i as int]);
                }
                return Some(self.refs[i].hash.clone());
            }
            i += 1;
        }
        proof {
            lemma_ref_lookup_skip(refs, branch@, n as int);
            assert(refs.skip(n as int) =~= Seq::<BranchHeadV>::empty());
        }
        None
    }

    /// The names of all branches, in stored order.
    pub fn list_branches(&self) -> (r: Vec<String>)
        ensures
            r.deep_view() == ref_names(self.refs.deep_view()),
    {
        let mut out: Vec<String> = Vec::new();
        let n = self.refs.len();
        let mut i: usize = 0;
        while i < n
            invariant
                0 <= i <= n,
                n == self.refs@.len(),
                out.deep_view() == ref_names(self.refs.deep_view()).subrange(0, i as int),
            decreases n - i,
        {
            let name = self.refs[i].name.clone();
            let ghost pre = out.deep_view();
            out.push(name);
            proof {
                assert(out.deep_view() =~= pre.push(self.refs.deep_view()[i as int].name));
                assert(out.deep_view() =~= ref_names(self.refs.deep_view()).subrange(
                    0,
                    i + 1,
                ));
            }
            i += 1;
        }
        proof {
            assert(ref_names(self.refs.deep_view()).subrange(0, n as int) =~= ref_names(
                self.refs.deep_view(),
            ));
        }
        out
    }

    /// Deletes a branch reference. The current branch can never be deleted;
    /// a branch without a reference cannot be deleted either. The branch's
    /// commit log, and every other reference, stay as they were.
    pub fn delete_branch(&mut self, branch: &str) -> (r: Result<(), GitnuError>)
        ensures
            spec_is_current_branch(old(self).head@, branch@) ==> {
                &&& r matches Err(e)
                &&& e@ matches ErrorV::Other(_)
                &&& *final(self) == *old(self)
            },
            !spec_is_current_branch(old(self).head@, branch@) && ref_lookup(
                old(self).refs.deep_view(),
                branch@,
            ) is None ==> {
                &&& r matches Err(e)
                &&& e@ == ErrorV::BranchNotFound(branch@)
                &&& *final(self) == *old(self)
            },
            !spec_is_current_branch(old(self).head@, branch@) && ref_lookup(
                old(self).refs.deep_view(),
                branch@,
            ) is Some ==> {
                &&& r is Ok
                &&& final(self).refs.deep_view() == refs_without(
                    old(self).refs.deep_view(),
                    branch@,
                )
                &&& ref_lookup(final(self).refs.deep_view(), branch@) is None
                &&& forall|n: Seq<char>|
                    n != branch@ ==> ref_lookup(final(self).refs.deep_view(), n) == ref_lookup(
                        old(self).refs.deep_view(),
                        n,
                    )
                &&& same_except_refs(*old(self), *final(self))
            },
    {
        let is_current = match &self.head {
            Head::Attached(b) => str_eq(b.as_str(), branch),
            Head::Detached(_) => false,
        };
        if is_current {
            let mut msg = String::new();
            msg.append("Cannot delete current branch '");
            msg.append(branch);
            msg.append("'. Switch to another branch first.");
            return Err(GitnuError::Other(msg));
        }
        if self.read_branch_ref(branch).is_none() {
            return Err(GitnuError::BranchNotFound(branch.to_owned()));
        }
        let ghost orig = self.refs.deep_view();
        let ghost pred = |r: BranchHeadV| r.name != branch@;
        let mut kept: Vec<BranchHead> = Vec::new();
        let n = self.refs.len();
        let mut i: usize = 0;
        proof {
            assert(orig.subrange(0, 0).filter(pred) =~= Seq::<BranchHeadV>::empty());
        }
        while i < n
            invariant
                0 <= i <= n,
                n == self.refs@.len(),
                orig == self.refs.deep_view(),
                kept.deep_view() == orig.subrange(0, i as int).filter(pred),
                pred == (|r: BranchHeadV| r.name != branch@),
            decreases n - i,
        {
            let keep = !str_eq(self.refs[i].name.as_str(), branch);
            let ghost prev = kept.deep_view();
            if keep {
                let entry = BranchHead {
                    name: self.refs[i].name.clone(),
                    hash: self.refs[i].hash.clone(),
                };
                kept.push(entry);
            }
            proof {
                let e = orig[i as int];
                assert(orig.subrange(0, i + 1) =~= orig.subrange(0, i as int) + seq![e]);
                Seq::filter_distributes_over_add(orig.subrange(0, i as int), seq![e], pred);
                reveal_with_fuel(Seq::filter, 2);
                assert(seq![e].drop_last() =~= Seq::<BranchHeadV>::empty());
                if pred(e) {
                    assert(seq![e].filter(pred) =~= seq![e]);
                    assert(kept.deep_view() =~= prev.push(e));
                } else {
                    assert(seq![e].filter(pred) =~= Seq::<BranchHeadV>::empty());
                }
                assert(kept.deep_view() =~= orig.subrange(0, i + 1).filter(pred));
            }
            i += 1;
        }
        self.refs = kept;
        proof {
            assert(orig.subrange(0, n as int) =~= orig);
            assert(self.refs.deep_view() == refs_without(orig, branch@));
            assert forall|m: Seq<char>| true implies (if m == branch@ {
                ref_lookup(self.refs.deep_view(), m) is None
            } else {
                ref_lookup(self.refs.deep_view(), m) == ref_lookup(orig, m)
            }) by {
                lemma_ref_lookup_without(orig, branch@, m);
            }
        }
        Ok(())
    }
}

pub proof fn lemma_log_lookup_skip(logs: Seq<BranchLogV>, name: Seq<char>, i: int)
    requires
        0 <= i <= logs.len(),
        forall|j: int| 0 <= j < i ==> logs[j].name != name,
    ensures
        log_lookup(logs, name) == log_lookup(logs.skip(i), name),
    decreases i,
{
    if i > 0 {
        lemma_log_lookup_skip(logs.drop_first(), name, i - 1);
        assert(logs.drop_first().skip(i - 1) =~= logs.skip(i));
        assert(forall|j: int| 0 <= j < i - 1 ==> logs.drop_first()[j] == logs[j + 1]);
    } else {
        assert(logs.skip(0) =~= logs);
    }
}

pub proof fn lemma_log_lookup_update(
    logs: Seq<BranchLogV>,
    k: int,
    commits: Seq<CommitV>,
    n: Seq<char>,
)
    requires
        0 <= k < logs.len(),
        n != logs[k].name,
    ensures
        log_lookup(logs.update(k, BranchLogV { name: logs[k].name, commits }), n) == log_lookup(
            logs,
            n,
        ),
    decreases k,
{
    let b = logs.update(k, BranchLogV { name: logs[k].name, commits });
    if k == 0 {
        assert(b.drop_first() =~= logs.drop_first());
    } else {
        assert(b.first() == logs.first());
        assert(b.drop_first() =~= logs.drop_first().update(
            k - 1,
            BranchLogV { name: logs.drop_first()[k - 1].name, commits },
        ));
        lemma_log_lookup_update(logs.drop_first(), k - 1, commits, n);
    }
}

pub proof fn lemma_log_lookup_push(logs: Seq<BranchLogV>, e: BranchLogV, n: Seq<char>)
    ensures
        log_lookup(logs.push(e), n) == (match log_lookup(logs, n) {
            Some(cs) => Some(cs),
            None => if e.name == n {
                Some(e.commits)
            } else {
                None
            },
        }),
    decreases logs.len(),
{
    if logs.len() == 0 {
        assert(logs.push(e).first() == e);
        assert(logs.push(e).drop_first() =~= Seq::<BranchLogV>::empty());
    } else {
        assert(logs.push(e).first() == logs.first());
        assert(logs.push(e).drop_first() =~= logs.drop_first().push(e));
        lemma_log_lookup_push(logs.drop_first(), e, n);
    }
}

impl Storage {
    /// Appends one commit at the end of a branch's log, creating the log if
    /// the branch never had one; every other log is untouched.
    pub fn append_commit(&mut self, branch: &str, commit: Commit)
        ensures
            log_lookup(final(self).logs.deep_view(), branch@) == Some(
                spec_commits_of(old(self).logs.deep_view(), branch@).push(commit@),
            ),
            forall|n: Seq<char>|
                n != branch@ ==> log_lookup(final(self).logs.deep_view(), n) == log_lookup(
                    old(self).logs.deep_view(),
                    n,
                ),
            same_except_logs(*old(self), *final(self)),
    {
        let ghost orig = self.logs.deep_view();
        let ghost cv = commit@;
        proof {
            assert(commit.deep_view() == cv);
        }
        let n = self.logs.len();
        let mut i: usize = 0;
        while i < n
            invariant
                0 <= i <= n,
                n == self.logs@.len(),
                *self == *old(self),
                orig == self.logs.deep_view(),
                commit.deep_view() == cv,
                forall|j: int| 0 <= j < i ==> orig[j].name != branch@,
            decreases n - i,
        {
            if str_eq(self.logs[i].name.as_str(), branch) {
                let ghost l0 = self.logs@;
                let mut tmp = BranchLog { name: String::new(), commits: Vec::new() };
                self.logs.set_and_swap(i, &mut tmp);
                tmp.commits.push(commit);
                self.logs.set_and_swap(i, &mut tmp);
                proof {
                    let updated = BranchLogV { name: orig[i as int].name, commits: orig[
                        i as int].commits.push(cv) };
                    assert(self.logs@ =~= l0.update(i as int, self.logs@[i as int]));
                    assert(self.logs@[i as int].name == l0[i as int].name);
                    assert(self.logs@[i as int].commits@ == l0[i as int].commits@.push(commit));
                    let c_new = self.logs@[i as int].commits;
                    let c_old = l0[i as int].commits;
                    assert(orig[i as int] == l0[i as int].deep_view());
                    assert(orig[i as int].commits == c_old.deep_view());
                    assert forall|k: int| 0 <= k < c_new@.len() implies c_new.deep_view()[k]
                        == orig[i as int].commits.push(cv)[k] by {
                        assert(c_new.deep_view()[k] == c_new@[k].deep_view());
                        assert(orig[i as int].commits.len() == c_old@.len());
                        if k < c_old@.len() {
                            assert(c_new@[k] == c_old@[k]);
                            assert(c_old.deep_view()[k] == c_old@[k].deep_view());
                            assert(orig[i as int].commits.push(cv)[k] == orig[
                                i as int].commits[k]);
                        } else {
                            assert(c_new@[k] == commit);
                            assert(orig[i as int].commits.push(cv)[k] == cv);
                        }
                        assert(orig[i as int].commits[k] == c_old.deep_view()[k]);
                        assert(c_new.deep_view()[k] == orig[i as int].commits.push(cv)[k]);
                    }
                    assert(self.logs@[i as int].commits.deep_view() =~= orig[
                        i as int].commits.push(cv));
                    assert(self.logs@[i as int].deep_view() =~~= updated);
                    assert(self.logs.deep_view() =~~= orig.update(i as int, updated));
                    let now_logs = self.logs.deep_view();
                    lemma_log_lookup_skip(now_logs, branch@, i as int);
                    assert(now_logs.skip(i as int).first() == now_logs[i as int]);
                    lemma_log_lookup_skip(orig, branch@, i as int);
                    assert(orig.skip(i as int).first() == orig[i as int]);
                    assert(spec_commits_of(orig, branch@) == orig[i as int].commits);
                    assert(log_lookup(now_logs, branch@) == Some(
                        spec_commits_of(orig, branch@).push(cv),
                    ));
                    assert forall|m: Seq<char>| m != branch@ implies log_lookup(now_logs, m)
                        == log_lookup(orig, m) by {
                        lemma_log_lookup_update(orig, i as int, updated.commits, m);
                    }
                }
                return ;
            }
            i += 1;
        }
        let mut commits: Vec<Commit> = Vec::new();
        commits.push(commit);
        self.logs.push(BranchLog { name: branch.to_owned(), commits });
        proof {
            let e = BranchLogV { name: branch@, commits: seq![cv] };
            assert(self.logs.deep_view() =~~= orig.push(e));
            lemma_log_lookup_skip(orig, branch@, orig.len() as int);
            assert(orig.skip(orig.len() as int) =~= Seq::<BranchLogV>::empty());
            assert(log_lookup(orig, branch@) is None);
            assert(spec_commits_of(orig, branch@) =~= Seq::<CommitV>::empty());
            assert forall|m: Seq<char>| true implies log_lookup(self.logs.deep_view(), m) == (
            match log_lookup(orig, m) {
                Some(cs) => Some(cs),
                None => if e.name == m {
                    Some(e.commits)
                } else {
                    None
                },
            }) by {
                lemma_log_lookup_push(orig, e, m);
            }
            assert(spec_commits_of(orig, branch@).push(cv) =~= seq![cv]);
        }
    }

    /// The commits of a branch's log, oldest first; a branch that never
    /// received a commit has an empty history.
    pub fn read_commits(&self, branch: &str) -> (r: Vec<Commit>)
        ensures
            r.deep_view() == spec_commits_of(self.logs.deep_view(), branch@),
    {
        let ghost logs = self.logs.deep_view();
        let n = self.logs.len();
        let mut i: usize = 0;
        while i < n
            invariant
                0 <= i <= n,
                n == self.logs@.len(),
                logs == self.logs.deep_view(),
                forall|j: int| 0 <= j < i ==> logs[j].name != branch@,
            decreases n - i,
        {
            if str_eq(self.logs[i].name.as_str(), branch) {
                proof {
                    lemma_log_lookup_skip(logs, branch@, i as int);
                    assert(logs.skip(i as int).first() == logs[i as int]);
                }
                return clone_vec(&self.logs[i].commits);
            }
            i += 1;
        }
        proof {
            lemma_log_lookup_skip(logs, branch@, n as int);
            assert(logs.skip(n as int) =~= Seq::<BranchLogV>::empty());
        }
        Vec::new()
    }
}

/// Total byte size of a tree: the sum of its files' content lengths.
pub open spec fn spec_tree_size(tree: Seq<TreeFileV>) -> int
    decreases tree.len(),
{
    if tree.len() == 0 {
        0
    } else {
        tree.first().content.len() + spec_tree_size(tree.drop_first())
    }
}

pub proof fn lemma_tree_size_concat(a: Seq<TreeFileV>, b: Seq<TreeFileV>)
    ensures
        spec_tree_size(a + b) == spec_tree_size(a) + spec_tree_size(b),
    decreases a.len(),
{
    if a.len() == 0 {
        assert(a + b =~= b);
    } else {
        assert((a + b).first() == a.first());
        assert((a + b).drop_first() =~= a.drop_first() + b);
        lemma_tree_size_concat(a.drop_first(), b);
    }
}

pub proof fn lemma_tree_size_nonneg(tree: Seq<TreeFileV>)
    ensures
        0 <= spec_tree_size(tree),
    decreases tree.len(),
{
    if tree.len() > 0 {
        lemma_tree_size_nonneg(tree.drop_first());
    }
}

/// The manifest records of a tree: one per file, in tree order, with the
/// SHA-256 content hash and the byte size.
pub open spec fn spec_manifest_files(tree: Seq<TreeFileV>) -> Seq<FileInfoV> {
    tree.map_values(
        |f: TreeFileV|
            FileInfoV {
                path: f.path,
                hash: spec_sha256_hex(f.content),
                size: f.content.len() as int,
            },
    )
}

/// The manifest written beside a snapshot of `tree` at time `now`.
pub open spec fn spec_manifest_of(tree: Seq<TreeFileV>, now: int) -> ManifestV {
    ManifestV {
        files: spec_manifest_files(tree),
        total_files: tree.len() as int,
        total_size: spec_tree_size(tree),
        created_at: now,
    }
}

/// The snapshot store entry that snapshotting `tree` under `hash` creates.
pub open spec fn spec_snapshot_object(tree: Seq<TreeFileV>, hash: Seq<char>, now: int)
    -> StoredObjectV {
    StoredObjectV {
        hash,
        files: tree,
        archive: targz_of(entry_views(tree)),
        manifest: spec_manifest_of(tree, now),
    }
}

/// A snapshot store with `obj` put in: the first entry of the same hash is
/// replaced, or the entry is appended; re-snapshotting a hash overwrites
/// deterministically.
pub open spec fn spec_put_object(objects: Seq<StoredObjectV>, obj: StoredObjectV)
    -> Seq<StoredObjectV>
    decreases objects.len(),
{
    if objects.len() == 0 {
        seq![obj]
    } else if objects.first().hash == obj.hash {
        seq![obj] + objects.drop_first()
    } else {
        seq![objects.first()] + spec_put_object(objects.drop_first(), obj)
    }
}

pub proof fn lemma_object_lookup_put(
    objects: Seq<StoredObjectV>,
    obj: StoredObjectV,
    h: Seq<char>,
)
    ensures
        object_lookup(spec_put_object(objects, obj), h) == (if h == obj.hash {
            Some(obj)
        } else {
            object_lookup(objects, h)
        }),
    decreases objects.len(),
{
    if objects.len() == 0 {
        let s = seq![obj];
        assert(spec_put_object(objects, obj) == s);
        assert(s.first() == obj);
        assert(s.drop_first() =~= Seq::<StoredObjectV>::empty());
        assert(object_lookup(s.drop_first(), h) is None);
    } else if objects.first().hash == obj.hash {
        let s = seq![obj] + objects.drop_first();
        assert(spec_put_object(objects, obj) == s);
        assert(s.len() == objects.len());
        assert(s.first() == obj);
        assert(s.drop_first() =~= objects.drop_first());
    } else {
        let s = seq![objects.first()] + spec_put_object(objects.drop_first(), obj);
        assert(spec_put_object(objects, obj) == s);
        lemma_object_lookup_put(objects.drop_first(), obj, h);
        assert(spec_put_object(objects.drop_first(), obj).len() > 0) by {
            lemma_put_object_len(objects.drop_first(), obj);
        }
        assert(s.first() == objects.first());
        assert(s.drop_first() =~= spec_put_object(objects.drop_first(), obj));
    }
}

proof fn lemma_put_object_len(objects: Seq<StoredObjectV>, obj: StoredObjectV)
    ensures
        spec_put_object(objects, obj).len() >= 1,
    decreases objects.len(),
{
    if objects.len() != 0 && objects.first().hash != obj.hash {
        lemma_put_object_len(objects.drop_first(), obj);
    }
}

/// A successful snapshot store lookup hands back one of the stored entries.
pub proof fn lemma_object_lookup_is_element(objects: Seq<StoredObjectV>, hash: Seq<char>)
    ensures
        object_lookup(objects, hash) matches Some(o) ==> exists|j: int|
            0 <= j < objects.len() && objects[j] == o,
    decreases objects.len(),
{
    if objects.len() > 0 {
        if objects.first().hash == hash {
            assert(objects[0] == objects.first());
        } else {
            lemma_object_lookup_is_element(objects.drop_first(), hash);
            match object_lookup(objects.drop_first(), hash) {
                Some(o) => {
                    let j = choose|j: int|
                        0 <= j < objects.drop_first().len() && objects.drop_first()[j] == o;
                    assert(objects[j + 1] == o);
                },
                None => {},
            }
        }
    }
}

pub proof fn lemma_object_lookup_skip(objects: Seq<StoredObjectV>, hash: Seq<char>, i: int)
    requires
        0 <= i <= objects.len(),
        forall|j: int| 0 <= j < i ==> objects[j].hash != hash,
    ensures
        object_lookup(objects, hash) == object_lookup(objects.skip(i), hash),
    decreases i,
{
    if i > 0 {
        lemma_object_lookup_skip(objects.drop_first(), hash, i - 1);
        assert(objects.drop_first().skip(i - 1) =~= objects.skip(i));
        assert(forall|j: int| 0 <= j < i - 1 ==> objects.drop_first()[j] == objects[j + 1]);
    } else {
        assert(objects.skip(0) =~= objects);
    }
}

proof fn lemma_put_is_update(objects: Seq<StoredObjectV>, k: int, obj: StoredObjectV)
    requires
        0 <= k < objects.len(),
        forall|j: int| 0 <= j < k ==> objects[j].hash != obj.hash,
        objects[k].hash == obj.hash,
    ensures
        spec_put_object(objects, obj) == objects.update(k, obj),
    decreases k,
{
    if k == 0 {
        assert(seq![obj] + objects.drop_first() =~= objects.update(0, obj));
    } else {
        assert(objects.drop_first()[k - 1].hash == obj.hash);
        lemma_put_is_update(objects.drop_first(), k - 1, obj);
        assert(seq![objects.first()] + objects.drop_first().update(k - 1, obj) =~= objects.update(
            k,
            obj,
        ));
    }
}

proof fn lemma_put_is_push(objects: Seq<StoredObjectV>, obj: StoredObjectV)
    requires
        forall|j: int| 0 <= j < objects.len() ==> objects[j].hash != obj.hash,
    ensures
        spec_put_object(objects, obj) == objects.push(obj),
    decreases objects.len(),
{
    if objects.len() == 0 {
        assert(seq![obj] =~= objects.push(obj));
    } else {
        assert(forall|j: int|
            0 <= j < objects.drop_first().len() ==> objects.drop_first()[j] == objects[j + 1]);
        lemma_put_is_push(objects.drop_first(), obj);
        assert(seq![objects.first()] + objects.drop_first().push(obj) =~= objects.push(obj));
    }
}

/// Round-trip law: the tree stored by snapshot creation is exactly what
/// snapshot restoration hands back afterwards, file set and byte-for-byte
/// contents alike.
pub proof fn lemma_snapshot_round_trip(
    objects: Seq<StoredObjectV>,
    tree: Seq<TreeFileV>,
    hash: Seq<char>,
    now: int,
)
    ensures
        ({
            let stored = spec_put_object(objects, spec_snapshot_object(tree, hash, now));
            &&& object_lookup(stored, hash) matches Some(obj)
            &&& object_lookup(stored, hash).unwrap().files == tree
        }),
{
    lemma_object_lookup_put(objects, spec_snapshot_object(tree, hash, now), hash);
}

impl Storage {
    /// Packs the whole tracked tree into one compressed archive under the
    /// commit hash, computes the manifest beside it, and stores both;
    /// snapshotting a hash again overwrites its entry deterministically.
    /// Returns the path the archive is persisted under.
    pub fn create_snapshot(&mut self, commit_hash: &str, now: i64) -> (r: Result<
        String,
        GitnuError,
    >)
        requires
            spec_tree_size(old(self).tree.deep_view()) <= u64::MAX,
            tar_normal_paths(old(self).tree.deep_view()),
        ensures
            r is Ok <==> targz_packs(entry_views(old(self).tree.deep_view())),
            r matches Ok(p) ==> {
                &&& p@ == old(self).vault_root@ + "/.gitnu"@ + "/objects"@ + "/"@ + commit_hash@
                    + "/snapshot.tar.gz"@
                &&& final(self).objects.deep_view() == spec_put_object(
                    old(self).objects.deep_view(),
                    spec_snapshot_object(
                        old(self).tree.deep_view(),
                        commit_hash@,
                        now as int,
                    ),
                )
                &&& same_except_objects(*old(self), *final(self))
            },
            r matches Err(e) ==> {
                &&& e@ matches ErrorV::Other(_)
                &&& *final(self) == *old(self)
            },
    {
        let ghost tree = self.tree.deep_view();
        let mut files: Vec<FileInfo> = Vec::new();
        let mut total_size: u64 = 0;
        let n = self.tree.len();
        let mut i: usize = 0;
        proof {
            assert(tree.subrange(0, 0) =~= Seq::<TreeFileV>::empty());
        }
        while i < n
            invariant
                0 <= i <= n,
                n == self.tree@.len(),
                *self == *old(self),
                tree == self.tree.deep_view(),
                spec_tree_size(tree) <= u64::MAX,
                files@.len() == i,
                forall|j: int|
                    0 <= j < i ==> files@[j].deep_view() == (FileInfoV {
                        path: tree[j].path,
                        hash: spec_sha256_hex(tree[j].content),
                        size: tree[j].content.len() as int,
                    }),
                total_size == spec_tree_size(tree.subrange(0, i as int)),
            decreases n - i,
        {
            let size = self.tree[i].content.len() as u64;
            proof {
                assert(tree[i as int] == self.tree@[i as int].deep_view());
                assert(tree.subrange(0, i + 1) =~= tree.subrange(0, i as int) + seq![
                    tree[i as int],
                ]);
                lemma_tree_size_concat(tree.subrange(0, i as int), seq![tree[i as int]]);
                assert(seq![tree[i as int]].drop_first() =~= Seq::<TreeFileV>::empty());
                assert(spec_tree_size(Seq::<TreeFileV>::empty()) == 0);
                assert(spec_tree_size(seq![tree[i as int]]) == tree[i as int].content.len());
                assert(tree =~= tree.subrange(0, i + 1) + tree.skip(i + 1));
                lemma_tree_size_concat(tree.subrange(0, i + 1), tree.skip(i + 1));
                lemma_tree_size_nonneg(tree.skip(i + 1));
                assert(spec_tree_size(tree.subrange(0, i + 1)) <= spec_tree_size(tree));
            }
            let info = FileInfo {
                path: self.tree[i].path.clone(),
                hash: compute_hash(self.tree[i].content.as_slice()),
                size,
            };
            files.push(info);
            total_size = total_size + size;
            i += 1;
        }
        proof {
            assert(tree.subrange(0, n as int) =~= tree);
            assert forall|j: int| 0 <= j < files.deep_view().len() implies files.deep_view()[j]
                == spec_manifest_files(tree)[j] by {
                assert(files.deep_view()[j] == files@[j].deep_view());
            }
            assert(files.deep_view() =~= spec_manifest_files(tree));
        }
        let manifest = Manifest {
            files,
            total_files: self.tree.len(),
            total_size,
            created_at: now,
        };
        let bytes = match pack_archive(&self.tree) {
            Some(bytes) => bytes,
            None => {
                return Err(
                    GitnuError::Other(String::from_str("could not pack the snapshot archive")),
                );
            },
        };
        let snap_files = clone_vec(&self.tree);
        let obj = StoredObject {
            hash: commit_hash.to_owned(),
            files: snap_files,
            archive: bytes,
            manifest,
        };
        let ghost objv = spec_snapshot_object(tree, commit_hash@, now as int);
        proof {
            assert(entry_views(obj.files.deep_view()) =~~= entry_views(tree));
            assert(obj.deep_view() =~~= objv);
        }
        let ghost objs = self.objects.deep_view();
        let m = self.objects.len();
        let mut k: usize = 0;
        while k < m
            invariant
                0 <= k <= m,
                m == self.objects@.len(),
                *self == *old(self),
                objs == self.objects.deep_view(),
                obj.deep_view() == objv,
                targz_packs(entry_views(old(self).tree.deep_view())),
                objv == spec_snapshot_object(
                    old(self).tree.deep_view(),
                    commit_hash@,
                    now as int,
                ),
                forall|j: int| 0 <= j < k ==> objs[j].hash != commit_hash@,
            decreases m - k,
        {
            if str_eq(self.objects[k].hash.as_str(), commit_hash) {
                proof {
                    assert(objs[k as int].hash == commit_hash@);
                    lemma_put_is_update(objs, k as int, objv);
                }
                self.objects.set(k, obj);
                proof {
                    assert(self.objects.deep_view() =~~= objs.update(k as int, objv));
                }
                return Ok(
                    self.objects_dir().concat("/").concat(commit_hash).concat(
                        "/snapshot.tar.gz",
                    ),
                );
            }
            k += 1;
        }
        proof {
            lemma_put_is_push(objs, objv);
        }
        self.objects.push(obj);
        proof {
            assert(self.objects.deep_view() =~~= objs.push(objv));
        }
        Ok(self.objects_dir().concat("/").concat(commit_hash).concat("/snapshot.tar.gz"))
    }

    /// Replaces the whole tracked tree by the snapshot stored under the
    /// commit hash: a destructive overwrite, never a merge. Fails exactly
    /// when no snapshot exists for the hash.
    pub fn restore_snapshot(&mut self, commit_hash: &str) -> (r: Result<(), GitnuError>)
        ensures
            object_lookup(old(self).objects.deep_view(), commit_hash@) matches Some(obj) ==> {
                &&& r is Ok
                &&& final(self).tree.deep_view() == obj.files
                &&& same_except_tree(*old(self), *final(self))
            },
            object_lookup(old(self).objects.deep_view(), commit_hash@) is None ==> {
                &&& r matches Err(e)
                &&& e@ == ErrorV::SnapshotNotFound(commit_hash@)
                &&& *final(self) == *old(self)
            },
    {
        let ghost objs = self.objects.deep_view();
        let n = self.objects.len();
        let mut i: usize = 0;
        while i < n
            invariant
                0 <= i <= n,
                n == self.objects@.len(),
                *self == *old(self),
                objs == self.objects.deep_view(),
                forall|j: int| 0 <= j < i ==> objs[j].hash != commit_hash@,
            decreases n - i,
        {
            if str_eq(self.objects[i].hash.as_str(), commit_hash) {
                proof {
                    lemma_object_lookup_skip(objs, commit_hash@, i as int);
                    assert(objs.skip(i as int).first() == objs[i as int]);
                    assert(object_lookup(objs, commit_hash@) == Some(objs[i as int]));
                }
                let obj_ref = &self.objects[i];
                proof {
                    use_type_invariant(obj_ref);
                }
                match unpack_archive(&obj_ref.archive) {
                    Some(fs) => {
                        proof {
                            crate::archive::lemma_files_of_entry_views(
                                obj_ref.files.deep_view(),
                            );
                            assert(fs.deep_view() == objs[i as int].files);
                        }
                        self.tree = fs;
                        return Ok(());
                    },
                    None => {
                        proof {
                            assert(false);
                        }
                        return Err(GitnuError::Other(String::new()));
                    },
                }
            }
            i += 1;
        }
        proof {
            lemma_object_lookup_skip(objs, commit_hash@, n as int);
            assert(objs.skip(n as int) =~= Seq::<StoredObjectV>::empty());
        }
        Err(GitnuError::SnapshotNotFound(commit_hash.to_owned()))
    }
}

/// The first commit of a log whose hash starts with `h`, oldest first.
pub open spec fn spec_find_in_log(commits: Seq<CommitV>, h: Seq<char>) -> Option<CommitV>
    decreases commits.len(),
{
    if commits.len() == 0 {
        None
    } else if is_prefix_of(h, commits.first().hash) {
        Some(commits.first())
    } else {
        spec_find_in_log(commits.drop_first(), h)
    }
}

/// The first commit across all branch logs whose hash starts with `h`. The
/// scan order is fixed: branch references in stored order, each log oldest
/// commit first; the first match wins.
pub open spec fn spec_find_commit(
    refs: Seq<BranchHeadV>,
    logs: Seq<BranchLogV>,
    h: Seq<char>,
) -> Option<CommitV>
    decreases refs.len(),
{
    if refs.len() == 0 {
        None
    } else {
        match spec_find_in_log(spec_commits_of(logs, refs.first().name), h) {
            Some(c) => Some(c),
            None => spec_find_commit(refs.drop_first(), logs, h),
        }
    }
}

/// The outcome of a hash search as the interface documents it: matching
/// asks for a prefix of at least seven characters, so a shorter query
/// matches nothing.
pub open spec fn spec_find_commit_query(
    refs: Seq<BranchHeadV>,
    logs: Seq<BranchLogV>,
    q: Seq<char>,
) -> Option<CommitV> {
    if q.len() < 7 {
        None
    } else {
        spec_find_commit(refs, logs, q)
    }
}

pub proof fn lemma_find_in_log_skip(commits: Seq<CommitV>, h: Seq<char>, i: int)
    requires
        0 <= i <= commits.len(),
        forall|j: int| 0 <= j < i ==> !is_prefix_of(h, commits[j].hash),
    ensures
        spec_find_in_log(commits, h) == spec_find_in_log(commits.skip(i), h),
    decreases i,
{
    if i > 0 {
        lemma_find_in_log_skip(commits.drop_first(), h, i - 1);
        assert(commits.drop_first().skip(i - 1) =~= commits.skip(i));
        assert(forall|j: int| 0 <= j < i - 1 ==> commits.drop_first()[j] == commits[j + 1]);
    } else {
        assert(commits.skip(0) =~= commits);
    }
}

pub proof fn lemma_find_commit_skip(
    refs: Seq<BranchHeadV>,
    logs: Seq<BranchLogV>,
    h: Seq<char>,
    i: int,
)
    requires
        0 <= i <= refs.len(),
        forall|j: int|
            0 <= j < i ==> spec_find_in_log(spec_commits_of(logs, refs[j].name), h) is None,
    ensures
        spec_find_commit(refs, logs, h) == spec_find_commit(refs.skip(i), logs, h),
    decreases i,
{
    if i > 0 {
        lemma_find_commit_skip(refs.drop_first(), logs, h, i - 1);
        assert(refs.drop_first().skip(i - 1) =~= refs.skip(i));
        assert(forall|j: int| 0 <= j < i - 1 ==> refs.drop_first()[j] == refs[j + 1]);
    } else {
        assert(refs.skip(0) =~= refs);
    }
}

/// What a log search returns: a commit of the log that the prefix matches,
/// or nothing exactly when the prefix matches no commit of the log.
pub proof fn lemma_find_in_log_props(commits: Seq<CommitV>, h: Seq<char>)
    ensures
        match spec_find_in_log(commits, h) {
            Some(x) => exists|k: int|
                0 <= k < commits.len() && commits[k] == x && is_prefix_of(h, x.hash),
            None => forall|k: int| 0 <= k < commits.len() ==> !is_prefix_of(h, commits[k].hash),
        },
    decreases commits.len(),
{
    if commits.len() > 0 {
        lemma_find_in_log_props(commits.drop_first(), h);
        if !is_prefix_of(h, commits.first().hash) {
            match spec_find_in_log(commits.drop_first(), h) {
                Some(x) => {
                    let k = choose|k: int|
                        0 <= k < commits.drop_first().len() && commits.drop_first()[k] == x
                            && is_prefix_of(h, x.hash);
                    assert(commits[k + 1] == x);
                },
                None => {
                    assert(forall|k: int|
                        1 <= k < commits.len() ==> commits[k] == commits.drop_first()[k - 1]);
                },
            }
        }
    }
}

/// Where a search prefix matches exactly one commit record across every
/// scanned log, and that record is present, the scan finds it.
pub proof fn lemma_find_commit_unique(
    refs: Seq<BranchHeadV>,
    logs: Seq<BranchLogV>,
    q: Seq<char>,
    c: CommitV,
)
    requires
        is_prefix_of(q, c.hash),
        forall|b: int, k: int|
            0 <= b < refs.len() && 0 <= k < spec_commits_of(logs, refs[b].name).len()
                && is_prefix_of(q, spec_commits_of(logs, refs[b].name)[k].hash) ==> spec_commits_of(
                logs,
                refs[b].name,
            )[k] == c,
        exists|b: int| 0 <= b < refs.len() && spec_commits_of(logs, refs[b].name).contains(c),
    ensures
        spec_find_commit(refs, logs, q) == Some(c),
    decreases refs.len(),
{
    let cs0 = spec_commits_of(logs, refs.first().name);
    lemma_find_in_log_props(cs0, q);
    match spec_find_in_log(cs0, q) {
        Some(x) => {
            let k = choose|k: int| 0 <= k < cs0.len() && cs0[k] == x && is_prefix_of(q, x.hash);
            assert(cs0[k] == c);
        },
        None => {
            let b = choose|b: int|
                0 <= b < refs.len() && spec_commits_of(logs, refs[b].name).contains(c);
            if b == 0 {
                let k = choose|k: int| 0 <= k < cs0.len() && cs0[k] == c;
                assert(!is_prefix_of(q, cs0[k].hash));
                assert(false);
            }
            assert(forall|j: int|
                0 <= j < refs.drop_first().len() ==> refs.drop_first()[j] == refs[j + 1]);
            assert(refs.drop_first()[b - 1] == refs[b]);
            assert(spec_commits_of(logs, refs.drop_first()[b - 1].name).contains(c));
            lemma_find_commit_unique(refs.drop_first(), logs, q, c);
        },
    }
}

/// One prefix of another is a prefix of whatever the longer one prefixes.
pub proof fn lemma_prefix_trans(a: Seq<char>, b: Seq<char>, c: Seq<char>)
    requires
        is_prefix_of(a, b),
        is_prefix_of(b, c),
    ensures
        is_prefix_of(a, c),
{
    assert(c.subrange(0, a.len() as int) =~= a);
}

/// Prefix-lookup law: where the seven-character prefix of a commit's full
/// hash matches only that record across every scanned log, searching by the
/// full hash and by the prefix return the same record.
pub proof fn lemma_find_commit_prefix(
    refs: Seq<BranchHeadV>,
    logs: Seq<BranchLogV>,
    c: CommitV,
)
    requires
        c.hash.len() >= 7,
        forall|b: int, k: int|
            0 <= b < refs.len() && 0 <= k < spec_commits_of(logs, refs[b].name).len()
                && is_prefix_of(
                c.hash.subrange(0, 7),
                spec_commits_of(logs, refs[b].name)[k].hash,
            ) ==> spec_commits_of(logs, refs[b].name)[k] == c,
        exists|b: int| 0 <= b < refs.len() && spec_commits_of(logs, refs[b].name).contains(c),
    ensures
        spec_find_commit_query(refs, logs, c.hash) == Some(c),
        spec_find_commit_query(refs, logs, c.hash.subrange(0, 7)) == Some(c),
{
    let p = c.hash.subrange(0, 7);
    assert(is_prefix_of(c.hash, c.hash)) by {
        assert(c.hash.subrange(0, c.hash.len() as int) =~= c.hash);
    }
    assert(is_prefix_of(p, c.hash));
    lemma_find_commit_unique(refs, logs, p, c);
    assert forall|b: int, k: int|
        0 <= b < refs.len() && 0 <= k < spec_commits_of(logs, refs[b].name).len() && is_prefix_of(
            c.hash,
            spec_commits_of(logs, refs[b].name)[k].hash,
        ) implies spec_commits_of(logs, refs[b].name)[k] == c by {
        lemma_prefix_trans(p, c.hash, spec_commits_of(logs, refs[b].name)[k].hash);
    }
    lemma_find_commit_unique(refs, logs, c.hash, c);
}

/// History-order law: a branch's log lists commits in creation order,
/// oldest first; reversing the sequence yields newest first, so after one
/// more commit the reversed log starts with that commit.
pub proof fn lemma_log_newest_first(logs: Seq<BranchLogV>, branch: Seq<char>, c: CommitV)
    ensures
        ({
            let after = spec_commits_of(logs, branch).push(c);
            &&& after.reverse().len() == after.len()
            &&& after.reverse().first() == c
            &&& forall|i: int|
                0 <= i < after.len() ==> after.reverse()[i] == after[after.len() - 1 - i]
        }),
{
    let after = spec_commits_of(logs, branch).push(c);
    assert(after.len() > 0);
    assert(after.reverse().first() == after[after.len() - 1]);
}

impl Storage {
    /// Searches every branch's log, in the documented scan order, for the
    /// first commit whose hash starts with the given prefix. Matching asks
    /// for at least seven characters: a shorter query finds nothing.
    pub fn find_commit(&self, hash: &str) -> (r: Option<Commit>)
        ensures
            match r {
                Some(c) => spec_find_commit_query(
                    self.refs.deep_view(),
                    self.logs.deep_view(),
                    hash@,
                ) == Some(c@),
                None => spec_find_commit_query(
                    self.refs.deep_view(),
                    self.logs.deep_view(),
                    hash@,
                ) is None,
            },
    {
        let ghost refs = self.refs.deep_view();
        let ghost logs = self.logs.deep_view();
        if hash.unicode_len() < 7 {
            return None;
        }
        let branches = self.list_branches();
        let nb = branches.len();
        proof {
            assert(branches.deep_view().len() == branches@.len());
            assert(ref_names(refs).len() == refs.len());
        }
        let mut i: usize = 0;
        while i < nb
            invariant
                0 <= i <= nb,
                nb == branches@.len(),
                nb == refs.len(),
                hash@.len() >= 7,
                refs == self.refs.deep_view(),
                logs == self.logs.deep_view(),
                branches.deep_view() == ref_names(refs),
                forall|j: int|
                    0 <= j < i ==> spec_find_in_log(
                        spec_commits_of(logs, refs[j].name),
                        hash@,
                    ) is None,
            decreases nb - i,
        {
            proof {
                assert(branches.deep_view()[i as int] == refs[i as int].name);
                assert(branches@[i as int]@ == refs[i as int].name);
            }
            let commits = self.read_commits(branches[i].as_str());
            let ghost cs = spec_commits_of(logs, refs[i as int].name);
            let nc = commits.len();
            let mut k: usize = 0;
            while k < nc
                invariant
                    0 <= k <= nc,
                    nc == commits@.len(),
                    0 <= i < refs.len(),
                    hash@.len() >= 7,
                    refs == self.refs.deep_view(),
                    logs == self.logs.deep_view(),
                    cs == spec_commits_of(logs, refs[i as int].name),
                    commits.deep_view() == cs,
                    forall|j: int| 0 <= j < k ==> !is_prefix_of(hash@, cs[j].hash),
                    forall|j: int|
                        0 <= j < i ==> spec_find_in_log(
                            spec_commits_of(logs, refs[j].name),
                            hash@,
                        ) is None,
                decreases nc - k,
            {
                if str_starts_with(commits[k].hash.as_str(), hash) {
                    proof {
                        assert(commits.deep_view()[k as int] == commits@[k as int].deep_view());
                        assert(is_prefix_of(hash@, cs[k as int].hash));
                        lemma_find_in_log_skip(cs, hash@, k as int);
                        assert(cs.skip(k as int).first() == cs[k as int]);
                        assert(spec_find_in_log(cs, hash@) == Some(cs[k as int]));
                    }
                    let found = commits[k].deep_clone();
                    proof {
                        lemma_find_commit_skip(refs, logs, hash@, i as int);
                        assert(refs.skip(i as int).first() == refs[i as int]);
                        assert(spec_find_commit(refs, logs, hash@) == Some(cs[k as int]));
                    }
                    return Some(found);
                }
                proof {
                    assert(commits.deep_view()[k as int] == commits@[k as int].deep_view());
                }
                k += 1;
            }
            proof {
                lemma_find_in_log_skip(cs, hash@, nc as int);
                assert(cs.skip(nc as int) =~= Seq::<CommitV>::empty());
            }
            i += 1;
        }
        proof {
            lemma_find_commit_skip(refs, logs, hash@, nb as int);
            assert(refs.skip(nb as int) =~= Seq::<BranchHeadV>::empty());
        }
        None
    }

    /// The snapshot store entry for a commit hash, if one exists.
    pub fn find_object(&self, hash: &str) -> (r: Option<&StoredObject>)
        ensures
            match r {
                Some(o) => object_lookup(self.objects.deep_view(), hash@) == Some(o@),
                None => object_lookup(self.objects.deep_view(), hash@) is None,
            },
    {
        let ghost objs = self.objects.deep_view();
        let n = self.objects.len();
        let mut i: usize = 0;
        while i < n
            invariant
                0 <= i <= n,
                n == self.objects@.len(),
                objs == self.objects.deep_view(),
                forall|j: int| 0 <= j < i ==> objs[j].hash != hash@,
            decreases n - i,
        {
            if str_eq(self.objects[i].hash.as_str(), hash) {
                proof {
                    lemma_object_lookup_skip(objs, hash@, i as int);
                    assert(objs.skip(i as int).first() == objs[i as int]);
                }
                return Some(&self.objects[i]);
            }
            i += 1;
        }
        proof {
            lemma_object_lookup_skip(objs, hash@, n as int);
            assert(objs.skip(n as int) =~= Seq::<StoredObjectV>::empty());
        }
        None
    }

    /// The commit the head currently points at, if any: the current
    /// branch's latest commit, looked up by its stored hash.
    pub fn get_head_commit(&self) -> (r: Option<Commit>)
        ensures
            match r {
                Some(c) => spec_head_commit(*self) == Some(c@),
                None => spec_head_commit(*self) is None,
            },
    {
        let branch = self.read_head();
        match self.read_branch_ref(branch.as_str()) {
            None => None,
            Some(h) => self.find_commit(h.as_str()),
        }
    }
}

/// The commit the head points at: the hash the current branch's reference
/// names, searched across the logs; nothing while the branch has no
/// reference.
pub open spec fn spec_head_commit(s: Storage) -> Option<CommitV> {
    match ref_lookup(s.refs.deep_view(), spec_head_name(s.head@)) {
        None => None,
        Some(h) => spec_find_commit_query(s.refs.deep_view(), s.logs.deep_view(), h),
    }
}

/// Filtering distributes over splitting off the first element.
proof fn seq_filter_first<A>(s: Seq<A>, pred: spec_fn(A) -> bool)
    requires
        s.len() > 0,
    ensures
        s.filter(pred) == (if pred(s.first()) {
            seq![s.first()] + s.drop_first().filter(pred)
        } else {
            s.drop_first().filter(pred)
        }),
    decreases s.len(),
{
    assert(s =~= seq![s.first()] + s.drop_first());
    Seq::filter_distributes_over_add(seq![s.first()], s.drop_first(), pred);
    reveal_with_fuel(Seq::filter, 2);
    assert(seq![s.first()].drop_last() =~= Seq::<A>::empty());
    assert(seq![s.first()].last() == s.first());
    if pred(s.first()) {
        assert(seq![s.first()].filter(pred) =~= seq![s.first()]);
    } else {
        assert(seq![s.first()].filter(pred) =~= Seq::<A>::empty());
        assert(Seq::<A>::empty() + s.drop_first().filter(pred) =~= s.drop_first().filter(pred));
    }
}

} // verus!
