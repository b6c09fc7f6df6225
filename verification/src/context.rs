use vstd::prelude::*;
use vstd::string::StrSliceExecFns;
use vstd::utf8::valid_utf8;
use crate::cloning::DeepClone;
use crate::digest::{compute_hash, spec_sha256_hex};
use crate::models::{Commit, CommitV, ContextSummary, ContextSummaryV, FileInfo, FileInfoV, TreeFile, TreeFileV};
use crate::storage::{spec_head_commit, Storage};
use crate::strutil::{find_first_char, is_prefix_of, str_eq, str_starts_with, vec_contains_string};

verus! {

/// Relies on std::str::from_utf8: it accepts exactly the byte strings that
/// are valid UTF-8.
#[verifier::external_body]
fn is_utf8(bytes: &[u8]) -> (r: bool)
    ensures
        r == valid_utf8(bytes@),
{
    std::str::from_utf8(bytes).is_ok()
}

/// The leading piece of a path, up to but not including the first slash.
pub open spec fn spec_upto_slash(s: Seq<char>) -> Seq<char>
    decreases s.len(),
{
    if s.len() == 0 {
        s
    } else if s.first() == '/' {
        Seq::empty()
    } else {
        seq![s.first()] + spec_upto_slash(s.drop_first())
    }
}

proof fn lemma_upto_slash_prefix(s: Seq<char>, i: int)
    requires
        0 <= i <= s.len(),
        forall|j: int| 0 <= j < i ==> s[j] != '/',
    ensures
        i < s.len() && s[i] == '/' ==> spec_upto_slash(s) == s.subrange(0, i),
        i == s.len() ==> spec_upto_slash(s) == s,
    decreases i,
{
    if i == 0 {
        if 0 < s.len() && s[0] == '/' {
            assert(spec_upto_slash(s) =~= s.subrange(0, 0));
        } else if s.len() == 0 {
            assert(spec_upto_slash(s) =~= s);
        }
    } else {
        lemma_upto_slash_prefix(s.drop_first(), i - 1);
        assert(forall|j: int| 0 <= j < i - 1 ==> s.drop_first()[j] == s[j + 1]);
        if i < s.len() && s[i] == '/' {
            assert(s.drop_first()[i - 1] == s[i]);
            assert(spec_upto_slash(s.drop_first()) == s.drop_first().subrange(0, i - 1));
            assert(seq![s.first()] + s.drop_first().subrange(0, i - 1) =~= s.subrange(0, i));
        } else if i == s.len() {
            assert(seq![s.first()] + s.drop_first() =~= s);
        }
    }
}

/// The domain a path belongs to: the first path segment below the content
/// root, taken literally. Paths that do not descend below `domains/` have
/// no domain.
pub open spec fn spec_domain_of(path: Seq<char>) -> Option<Seq<char>> {
    if is_prefix_of("domains/"@, path) && path.len() > "domains/"@.len() {
        Some(spec_upto_slash(path.skip("domains/"@.len() as int)))
    } else {
        None
    }
}

/// The domains the tree's files belong to, in discovery order, first
/// occurrence kept.
pub open spec fn spec_domains(tree: Seq<TreeFileV>) -> Seq<Seq<char>>
    decreases tree.len(),
{
    if tree.len() == 0 {
        Seq::empty()
    } else {
        let prev = spec_domains(tree.drop_last());
        match spec_domain_of(tree.last().path) {
            Some(d) => if prev.contains(d) {
                prev
            } else {
                prev.push(d)
            },
            None => prev,
        }
    }
}

/// The paths of the tree's files, in tree order.
pub open spec fn tree_paths(tree: Seq<TreeFileV>) -> Seq<Seq<char>> {
    tree.map_values(|f: TreeFileV| f.path)
}

/// Whether some file of the tree has the given path.
pub open spec fn tree_has_path(tree: Seq<TreeFileV>, path: Seq<char>) -> bool {
    exists|i: int| 0 <= i < tree.len() && tree[i].path == path
}

/// The content hash a manifest records for a path: the first record wins.
pub open spec fn manifest_hash_of(files: Seq<FileInfoV>, path: Seq<char>) -> Option<Seq<char>>
    decreases files.len(),
{
    if files.len() == 0 {
        None
    } else if files.first().path == path {
        Some(files.first().hash)
    } else {
        manifest_hash_of(files.drop_first(), path)
    }
}

proof fn lemma_manifest_hash_skip(files: Seq<FileInfoV>, path: Seq<char>, i: int)
    requires
        0 <= i <= files.len(),
        forall|j: int| 0 <= j < i ==> files[j].path != path,
    ensures
        manifest_hash_of(files, path) == manifest_hash_of(files.skip(i), path),
    decreases i,
{
    if i > 0 {
        lemma_manifest_hash_skip(files.drop_first(), path, i - 1);
        assert(files.drop_first().skip(i - 1) =~= files.skip(i));
        assert(forall|j: int| 0 <= j < i - 1 ==> files.drop_first()[j] == files[j + 1]);
    } else {
        assert(files.skip(0) =~= files);
    }
}

/// The files the tree holds that the previous manifest does not: new paths,
/// in tree order.
pub open spec fn spec_added(tree: Seq<TreeFileV>, prev: Seq<FileInfoV>) -> Seq<Seq<char>>
    decreases tree.len(),
{
    if tree.len() == 0 {
        Seq::empty()
    } else {
        let acc = spec_added(tree.drop_last(), prev);
        match manifest_hash_of(prev, tree.last().path) {
            None => acc.push(tree.last().path),
            Some(h) => acc,
        }
    }
}

/// The files present in both tree and previous manifest whose content hash
/// changed, in tree order.
pub open spec fn spec_modified(tree: Seq<TreeFileV>, prev: Seq<FileInfoV>) -> Seq<Seq<char>>
    decreases tree.len(),
{
    if tree.len() == 0 {
        Seq::empty()
    } else {
        let acc = spec_modified(tree.drop_last(), prev);
        match manifest_hash_of(prev, tree.last().path) {
            Some(h) => if h != spec_sha256_hex(tree.last().content) {
                acc.push(tree.last().path)
            } else {
                acc
            },
            None => acc,
        }
    }
}

/// The manifest records whose paths the tree no longer holds, in manifest
/// order.
pub open spec fn spec_removed(prev: Seq<FileInfoV>, tree: Seq<TreeFileV>) -> Seq<Seq<char>>
    decreases prev.len(),
{
    if prev.len() == 0 {
        Seq::empty()
    } else {
        let acc = spec_removed(prev.drop_last(), tree);
        if tree_has_path(tree, prev.last().path) {
            acc
        } else {
            acc.push(prev.last().path)
        }
    }
}

/// Length of the text buffer the tree yields: every UTF-8-decodable file
/// contributes its bytes and one newline; other files contribute nothing.
pub open spec fn spec_text_len(tree: Seq<TreeFileV>) -> int
    decreases tree.len(),
{
    if tree.len() == 0 {
        0
    } else {
        spec_text_len(tree.drop_last()) + (if valid_utf8(tree.last().content) {
            tree.last().content.len() + 1
        } else {
            0
        })
    }
}

proof fn lemma_text_len_prefix(tree: Seq<TreeFileV>, k: int)
    requires
        0 <= k <= tree.len(),
    ensures
        spec_text_len(tree.subrange(0, k)) <= spec_text_len(tree),
    decreases tree.len() - k,
{
    if k == tree.len() {
        assert(tree.subrange(0, k) =~= tree);
    } else {
        lemma_text_len_prefix(tree, k + 1);
        assert(tree.subrange(0, k + 1).drop_last() =~= tree.subrange(0, k));
        assert(spec_text_len(tree.subrange(0, k)) <= spec_text_len(tree.subrange(0, k + 1)));
    }
}

/// What stood for the previous commit when a summary was computed: no
/// previous commit at all, a commit whose manifest is gone from the store,
/// or the manifest's records.
pub enum PrevManifest {
    NoCommit,
    Missing,
    Loaded(Seq<FileInfoV>),
}

/// The context summary of a tree against a previous manifest: domains in
/// discovery order; with no previous commit every file counts as added;
/// with a manifest, files are classified by path and content hash; with the
/// manifest missing, nothing is classified. The token estimate is a fixed
/// linear heuristic: the text buffer's byte length divided by four.
pub open spec fn spec_summary(tree: Seq<TreeFileV>, prev: PrevManifest) -> ContextSummaryV {
    ContextSummaryV {
        domains_loaded: spec_domains(tree),
        files_modified: match prev {
            PrevManifest::Loaded(m) => spec_modified(tree, m),
            _ => Seq::empty(),
        },
        files_added: match prev {
            PrevManifest::NoCommit => tree_paths(tree),
            PrevManifest::Missing => Seq::empty(),
            PrevManifest::Loaded(m) => spec_added(tree, m),
        },
        files_removed: match prev {
            PrevManifest::Loaded(m) => spec_removed(m, tree),
            _ => Seq::empty(),
        },
        token_estimate: spec_text_len(tree) / 4,
    }
}

/// The previous-manifest state a storage's snapshot store gives a commit.
pub open spec fn spec_prev_of(s: Storage, prev: Option<CommitV>) -> PrevManifest {
    match prev {
        None => PrevManifest::NoCommit,
        Some(c) => match crate::storage::object_lookup(s.objects.deep_view(), c.hash) {
            None => PrevManifest::Missing,
            Some(o) => PrevManifest::Loaded(o.manifest.files),
        },
    }
}

/// Files changed against the head commit: the modified files, then the
/// added ones.
pub open spec fn spec_modified_files(s: Storage) -> Seq<Seq<char>> {
    let sum = spec_summary(s.tree.deep_view(), spec_prev_of(s, spec_head_commit(s)));
    sum.files_modified + sum.files_added
}

enum PrevLookup<'a> {
    NoCommit,
    Missing,
    Loaded(&'a Vec<FileInfo>),
}

/// The content hash the previous manifest records for a path, if any.
fn lookup_manifest_hash<'a>(files: &'a Vec<FileInfo>, path: &str) -> (r: Option<&'a String>)
    ensures
        match r {
            Some(h) => manifest_hash_of(files.deep_view(), path@) == Some(h@),
            None => manifest_hash_of(files.deep_view(), path@) is None,
        },
{
    let ghost fs = files.deep_view();
    let n = files.len();
    let mut i: usize = 0;
    while i < n
        invariant
            0 <= i <= n,
            n == files@.len(),
            fs == files.deep_view(),
            forall|j: int| 0 <= j < i ==> fs[j].path != path@,
        decreases n - i,
    {
        if str_eq(files[i].path.as_str(), path) {
            proof {
                lemma_manifest_hash_skip(fs, path@, i as int);
                assert(fs.skip(i as int).first() == fs[i as int]);
            }
            return Some(&files[i].hash);
        }
        i += 1;
    }
    proof {
        lemma_manifest_hash_skip(fs, path@, n as int);
        assert(fs.skip(n as int) =~= Seq::<FileInfoV>::empty());
    }
    None
}

/// Whether the tree holds a file under the given path.
pub(crate) fn tree_contains_path(tree: &Vec<TreeFile>, path: &str) -> (r: bool)
    ensures
        r == tree_has_path(tree.deep_view(), path@),
{
    let ghost tv = tree.deep_view();
    let n = tree.len();
    let mut i: usize = 0;
    while i < n
        invariant
            0 <= i <= n,
            n == tree@.len(),
            tv == tree.deep_view(),
            forall|j: int| 0 <= j < i ==> tv[j].path != path@,
        decreases n - i,
    {
        if str_eq(tree[i].path.as_str(), path) {
            proof {
                assert(tv[i as int].path == path@);
            }
            return true;
        }
        proof {
            assert(tv[i as int] == tree@[i as int].deep_view());
        }
        i += 1;
    }
    proof {
        if tree_has_path(tv, path@) {
            let j = choose|j: int| 0 <= j < tv.len() && tv[j].path == path@;
            assert(tv[j].path != path@);
        }
    }
    false
}

/// The read-only engine that classifies what changed between the live tree
/// and a prior commit's manifest, and estimates the context size.
pub struct ContextManager {
    pub storage: Storage,
}

/// The domain a relative path belongs to, such as `x` for
/// `domains/x/a.md`; a path outside the content root has none.
pub fn extract_domain_of(path: &str) -> (r: Option<String>)
    ensures
        match r {
            Some(d) => spec_domain_of(path@) == Some(d@),
            None => spec_domain_of(path@) is None,
        },
{
        proof {
            reveal_strlit("domains/");
        }
        if !str_starts_with(path, "domains/") {
            return None;
        }
        let n = path.unicode_len();
        if n <= 8 {
            return None;
        }
        let rest = path.substring_char(8, n);
        proof {
            assert(rest@ =~= path@.skip(8));
        }
        let end = match find_first_char(rest, '/') {
            Some(i) => i,
            None => rest.unicode_len(),
        };
        let d = rest.substring_char(0, end);
        proof {
            lemma_upto_slash_prefix(rest@, end as int);
            assert(d@ =~= spec_upto_slash(rest@));
        }
        Some(d.to_owned())
    }

    /// Walks the tree once and classifies every file against the previous
    /// commit's manifest: a path in both with a differing hash is modified,
    /// a path only in the tree is added, a manifest path gone from the tree
    /// is removed; without a previous commit everything is added. Domains
    /// are collected in discovery order, and the token estimate is the text
    /// buffer's byte length divided by four.
    pub fn summary_for(storage: &Storage, previous_commit: Option<&Commit>) -> (r:
        ContextSummary)
        requires
            spec_text_len(storage.tree.deep_view()) <= usize::MAX,
        ensures
            r@ == spec_summary(
                storage.tree.deep_view(),
                match previous_commit {
                    None => PrevManifest::NoCommit,
                    Some(c) => spec_prev_of(*storage, Some(c@)),
                },
            ),
    {
        let ghost tree = storage.tree.deep_view();
        let prev: PrevLookup = match previous_commit {
            None => PrevLookup::NoCommit,
            Some(c) => match storage.find_object(c.hash.as_str()) {
                Some(o) => PrevLookup::Loaded(&o.manifest().files),
                None => PrevLookup::Missing,
            },
        };
        let ghost prevm: PrevManifest = match prev {
            PrevLookup::NoCommit => PrevManifest::NoCommit,
            PrevLookup::Missing => PrevManifest::Missing,
            PrevLookup::Loaded(m) => PrevManifest::Loaded(m.deep_view()),
        };
        proof {
            assert(prevm == (match previous_commit {
                None => PrevManifest::NoCommit,
                Some(c) => spec_prev_of(*storage, Some(c@)),
            }));
        }
        let mut domains_loaded: Vec<String> = Vec::new();
        let mut files_modified: Vec<String> = Vec::new();
        let mut files_added: Vec<String> = Vec::new();
        let mut files_removed: Vec<String> = Vec::new();
        let mut total_len: usize = 0;
        let n = storage.tree.len();
        let mut i: usize = 0;
        proof {
            assert(tree.subrange(0, 0) =~= Seq::<TreeFileV>::empty());
        }
        while i < n
            invariant
                0 <= i <= n,
                n == storage.tree@.len(),
                tree == storage.tree.deep_view(),
                spec_text_len(tree) <= usize::MAX,
                prevm == (match prev {
                    PrevLookup::NoCommit => PrevManifest::NoCommit,
                    PrevLookup::Missing => PrevManifest::Missing,
                    PrevLookup::Loaded(m) => PrevManifest::Loaded(m.deep_view()),
                }),
                domains_loaded.deep_view() == spec_domains(tree.subrange(0, i as int)),
                files_added.deep_view() == (match prevm {
                    PrevManifest::NoCommit => tree_paths(tree.subrange(0, i as int)),
                    PrevManifest::Missing => Seq::<Seq<char>>::empty(),
                    PrevManifest::Loaded(m) => spec_added(tree.subrange(0, i as int), m),
                }),
                files_modified.deep_view() == (match prevm {
                    PrevManifest::Loaded(m) => spec_modified(tree.subrange(0, i as int), m),
                    _ => Seq::<Seq<char>>::empty(),
                }),
                files_removed.deep_view() == Seq::<Seq<char>>::empty(),
                total_len == spec_text_len(tree.subrange(0, i as int)),
            decreases n - i,
        {
            let ghost pre_dom = domains_loaded.deep_view();
            let ghost pre_add = files_added.deep_view();
            let ghost pre_mod = files_modified.deep_view();
            proof {
                assert(tree[i as int] == storage.tree@[i as int].deep_view());
                assert(tree.subrange(0, i + 1).drop_last() =~= tree.subrange(0, i as int));
                assert(tree.subrange(0, i + 1).last() == tree[i as int]);
            }
            let file = &storage.tree[i];
            match extract_domain_of(file.path.as_str()) {
                Some(d) => {
                    if !vec_contains_string(&domains_loaded, d.as_str()) {
                        domains_loaded.push(d);
                        proof {
                            assert(domains_loaded.deep_view() =~= pre_dom.push(
                                spec_domain_of(tree[i as int].path).unwrap(),
                            ));
                        }
                    }
                },
                None => {},
            }
            proof {
                assert(domains_loaded.deep_view() =~= spec_domains(tree.subrange(0, i + 1)));
            }
            if is_utf8(file.content.as_slice()) {
                proof {
                    lemma_text_len_prefix(tree, i + 1);
                }
                total_len = total_len + file.content.len() + 1;
            }
            let content_hash = compute_hash(file.content.as_slice());
            match prev {
                PrevLookup::NoCommit => {
                    files_added.push(file.path.clone());
                    proof {
                        assert(files_added.deep_view() =~= pre_add.push(tree[i as int].path));
                        assert(tree_paths(tree.subrange(0, i + 1)) =~= tree_paths(
                            tree.subrange(0, i as int),
                        ).push(tree[i as int].path));
                    }
                },
                PrevLookup::Missing => {},
                PrevLookup::Loaded(m) => {
                    match lookup_manifest_hash(m, file.path.as_str()) {
                        None => {
                            files_added.push(file.path.clone());
                            proof {
                                assert(files_added.deep_view() =~= pre_add.push(
                                    tree[i as int].path,
                                ));
                            }
                        },
                        Some(h) => {
                            if !str_eq(h.as_str(), content_hash.as_str()) {
                                files_modified.push(file.path.clone());
                                proof {
                                    assert(files_modified.deep_view() =~= pre_mod.push(
                                        tree[i as int].path,
                                    ));
                                }
                            }
                        },
                    }
                },
            }
            i += 1;
        }
        proof {
            assert(tree.subrange(0, n as int) =~= tree);
        }
        match prev {
            PrevLookup::Loaded(m) => {
                let ghost mv = m.deep_view();
                let nm = m.len();
                let mut k: usize = 0;
                proof {
                    assert(mv.subrange(0, 0) =~= Seq::<FileInfoV>::empty());
                }
                while k < nm
                    invariant
                        0 <= k <= nm,
                        nm == m@.len(),
                        mv == m.deep_view(),
                        tree == storage.tree.deep_view(),
                        files_removed.deep_view() == spec_removed(
                            mv.subrange(0, k as int),
                            tree,
                        ),
                    decreases nm - k,
                {
                    let ghost pre_rem = files_removed.deep_view();
                    proof {
                        assert(mv[k as int] == m@[k as int].deep_view());
                        assert(mv.subrange(0, k + 1).drop_last() =~= mv.subrange(0, k as int));
                        assert(mv.subrange(0, k + 1).last() == mv[k as int]);
                    }
                    if !tree_contains_path(&storage.tree, m[k].path.as_str()) {
                        files_removed.push(m[k].path.clone());
                        proof {
                            assert(files_removed.deep_view() =~= pre_rem.push(
                                mv[k as int].path,
                            ));
                        }
                    }
                    k += 1;
                }
                proof {
                    assert(mv.subrange(0, nm as int) =~= mv);
                }
            },
            _ => {},
        }
        let token_estimate = total_len / 4;
        let r = ContextSummary {
            domains_loaded,
            files_modified,
            files_added,
            files_removed,
            token_estimate,
        };
        proof {
            assert(r@ =~~= spec_summary(tree, prevm));
        }
        r
    }

    /// The paths of every file of the tree, in tree order.
    pub fn all_files_for(storage: &Storage) -> (r: Vec<String>)
        ensures
            r.deep_view() == tree_paths(storage.tree.deep_view()),
    {
        let ghost tree = storage.tree.deep_view();
        let mut out: Vec<String> = Vec::new();
        let n = storage.tree.len();
        let mut i: usize = 0;
        while i < n
            invariant
                0 <= i <= n,
                n == storage.tree@.len(),
                tree == storage.tree.deep_view(),
                out.deep_view() == tree_paths(tree.subrange(0, i as int)),
            decreases n - i,
        {
            let ghost pre = out.deep_view();
            out.push(storage.tree[i].path.clone());
            proof {
                assert(tree[i as int] == storage.tree@[i as int].deep_view());
                assert(out.deep_view() =~= pre.push(tree[i as int].path));
                assert(tree_paths(tree.subrange(0, i + 1)) =~= tree_paths(
                    tree.subrange(0, i as int),
                ).push(tree[i as int].path));
            }
            i += 1;
        }
        proof {
            assert(tree.subrange(0, n as int) =~= tree);
        }
        out
    }

    /// The files changed since the last commit: the modified files, then
    /// the added ones.
    pub fn changed_files_for(storage: &Storage) -> (r: Vec<String>)
        requires
            spec_text_len(storage.tree.deep_view()) <= usize::MAX,
        ensures
            r.deep_view() == spec_modified_files(*storage),
    {
        let head_commit = storage.get_head_commit();
        let summary = summary_for(storage, head_commit.as_ref());
        let mut out = summary.files_modified;
        let mut added = summary.files_added;
        let ghost pre_out = out.deep_view();
        let ghost pre_added = added.deep_view();
        out.append(&mut added);
        proof {
            assert(out.deep_view() =~= pre_out + pre_added);
            assert(spec_head_commit(*storage) == (match head_commit {
                Some(c) => Some(c@),
                None => None,
            }));
        }
        out
    }

    /// Whether any file changed since the last commit.
    pub fn has_changes_for(storage: &Storage) -> (r: bool)
        requires
            spec_text_len(storage.tree.deep_view()) <= usize::MAX,
        ensures
            r == (spec_modified_files(*storage).len() != 0),
    {
        let modified = changed_files_for(storage);
        modified.len() != 0
    }

impl ContextManager {
    pub fn new(storage: Storage) -> (r: ContextManager)
        ensures
            r.storage == storage,
    {
        ContextManager { storage }
    }

    /// The domain a relative path belongs to, such as `x` for
    /// `domains/x/a.md`; a path outside the content root has none.
    pub fn extract_domain(&self, path: &str) -> (r: Option<String>)
        ensures
            match r {
                Some(d) => spec_domain_of(path@) == Some(d@),
                None => spec_domain_of(path@) is None,
            },
    {
        extract_domain_of(path)
    }

    /// Classifies the live tree against the previous commit's manifest and
    /// estimates the context size; see `summary_for`.
    pub fn calculate_context_summary(&self, previous_commit: Option<&Commit>) -> (r:
        ContextSummary)
        requires
            spec_text_len(self.storage.tree.deep_view()) <= usize::MAX,
        ensures
            r@ == spec_summary(
                self.storage.tree.deep_view(),
                match previous_commit {
                    None => PrevManifest::NoCommit,
                    Some(c) => spec_prev_of(self.storage, Some(c@)),
                },
            ),
    {
        summary_for(&self.storage, previous_commit)
    }

    /// The paths of every file of the tree, in tree order.
    pub fn get_all_files(&self) -> (r: Vec<String>)
        ensures
            r.deep_view() == tree_paths(self.storage.tree.deep_view()),
    {
        all_files_for(&self.storage)
    }

    /// The files changed since the last commit: the modified files, then
    /// the added ones.
    pub fn get_modified_files(&self) -> (r: Vec<String>)
        requires
            spec_text_len(self.storage.tree.deep_view()) <= usize::MAX,
        ensures
            r.deep_view() == spec_modified_files(self.storage),
    {
        changed_files_for(&self.storage)
    }

    /// Whether any file changed since the last commit.
    pub fn has_uncommitted_changes(&self) -> (r: bool)
        requires
            spec_text_len(self.storage.tree.deep_view()) <= usize::MAX,
        ensures
            r == (spec_modified_files(self.storage).len() != 0),
    {
        has_changes_for(&self.storage)
    }

    /// The whole context as one document, lightly compressed if asked.
    pub fn load_context(&self, compress: bool) -> (r: String)
        ensures
            r@ == (if compress {
                crate::textproc::spec_compress_markdown(
                    spec_context_doc(self.storage.tree.deep_view()),
                )
            } else {
                spec_context_doc(self.storage.tree.deep_view())
            }),
    {
        let doc = context_doc_for(&self.storage);
        if compress {
            self.compress_markdown(doc.as_str())
        } else {
            doc
        }
    }

    /// Light markdown compression; see `textproc::compress_markdown`.
    pub fn compress_markdown(&self, content: &str) -> (r: String)
        ensures
            r@ == crate::textproc::spec_compress_markdown(content@),
    {
        crate::textproc::compress_markdown(content)
    }
}

/// Relies on std::str::from_utf8: valid UTF-8 decodes to exactly the
/// characters the byte string encodes, and nothing else decodes.
#[verifier::external_body]
fn utf8_to_string(bytes: &Vec<u8>) -> (r: Option<String>)
    ensures
        match r {
            Some(s) => valid_utf8(bytes@) && s@ == vstd::utf8::decode_utf8(bytes@),
            None => !valid_utf8(bytes@),
        },
{
    match std::str::from_utf8(bytes.as_slice()) {
        Ok(s) => Some(s.to_string()),
        Err(_) => None,
    }
}

/// One file's piece of the context document: a heading with its path, then
/// its text if it decodes, each part closed by blank lines.
pub open spec fn spec_context_entry(f: TreeFileV) -> Seq<char> {
    "\n# File: "@ + f.path + "\n\n"@ + (if valid_utf8(f.content) {
        vstd::utf8::decode_utf8(f.content) + "\n\n"@
    } else {
        Seq::<char>::empty()
    })
}

/// The whole context as one document, files in tree order.
pub open spec fn spec_context_doc(tree: Seq<TreeFileV>) -> Seq<char>
    decreases tree.len(),
{
    if tree.len() == 0 {
        Seq::empty()
    } else {
        spec_context_doc(tree.drop_last()) + spec_context_entry(tree.last())
    }
}

/// Builds the whole context as one document, files in tree order.
pub fn context_doc_for(storage: &Storage) -> (r: String)
    ensures
        r@ == spec_context_doc(storage.tree.deep_view()),
{
    let ghost tree = storage.tree.deep_view();
    let mut out = String::new();
    let n = storage.tree.len();
    let mut i: usize = 0;
    proof {
        assert(tree.subrange(0, 0) =~= Seq::<TreeFileV>::empty());
    }
    while i < n
        invariant
            0 <= i <= n,
            n == storage.tree@.len(),
            tree == storage.tree.deep_view(),
            out@ == spec_context_doc(tree.subrange(0, i as int)),
        decreases n - i,
    {
        let ghost pre = out@;
        proof {
            assert(tree[i as int] == storage.tree@[i as int].deep_view());
            assert(tree.subrange(0, i + 1).drop_last() =~= tree.subrange(0, i as int));
            assert(tree.subrange(0, i + 1).last() == tree[i as int]);
        }
        let file = &storage.tree[i];
        out.append("\n# File: ");
        out.append(file.path.as_str());
        out.append("\n\n");
        match utf8_to_string(&file.content) {
            Some(text) => {
                out.append(text.as_str());
                out.append("\n\n");
            },
            None => {},
        }
        proof {
            assert(out@ =~= pre + spec_context_entry(tree[i as int]));
        }
        i += 1;
    }
    proof {
        assert(tree.subrange(0, n as int) =~= tree);
    }
    out
}

/// Fresh-vault law: without a previous commit, every discovered file is
/// classified as added, and nothing as modified or removed.
pub proof fn lemma_summary_no_previous(tree: Seq<TreeFileV>)
    ensures
        spec_summary(tree, PrevManifest::NoCommit).files_added == tree_paths(tree),
        spec_summary(tree, PrevManifest::NoCommit).files_modified == Seq::<Seq<char>>::empty(),
        spec_summary(tree, PrevManifest::NoCommit).files_removed == Seq::<Seq<char>>::empty(),
{
}

/// Idempotence law: the summary is a function of the tree and the previous
/// manifest alone, so recomputing it without an intervening mutation yields
/// the identical value.
pub proof fn lemma_summary_idempotent(
    tree: Seq<TreeFileV>,
    prev: PrevManifest,
    a: ContextSummaryV,
    b: ContextSummaryV,
)
    requires
        a == spec_summary(tree, prev),
        b == spec_summary(tree, prev),
    ensures
        a == b,
{
}

} // verus!
