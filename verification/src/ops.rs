use vstd::prelude::*;
use vstd::string::StringSliceAdditionalSpecFns;
use vstd::string::StringExecFns;
use vstd::utf8::encode_utf8;
use crate::cloning::DeepClone;
use crate::context::{spec_prev_of, spec_summary, summary_for, has_changes_for, spec_text_len, spec_modified_files};
use crate::digest::{compute_hash, spec_sha256_hex};
use crate::errors::{ErrorV, GitnuError};
use crate::models::{Author, AuthorV, Commit, CommitV};
use crate::archive::{entry_views, targz_packs};
use crate::storage::{
    log_lookup, object_lookup, ref_lookup, spec_commits_of, spec_find_commit_query,
    spec_head_commit, spec_head_name, spec_put_object, spec_snapshot_object, spec_tree_size,
    HeadV, Storage,
};
use crate::strutil::str_eq;
use crate::utils::{append_bytes, format_rfc3339, relative_path, rfc3339_of, spec_relative_path};

verus! {

/// The author a commit is recorded under: a human carries the user's name,
/// an agent the model's, defaulted when none is given; any other author
/// type is rejected.
pub open spec fn spec_author_of(
    author_type: Seq<char>,
    model: Option<Seq<char>>,
    user: Seq<char>,
) -> Option<AuthorV> {
    if author_type == "human"@ {
        Some(AuthorV::Human { name: user })
    } else if author_type == "agent"@ {
        Some(
            AuthorV::Agent {
                model: match model {
                    Some(m) => m,
                    None => "default-model"@,
                },
                session_id: None,
            },
        )
    } else {
        None
    }
}

pub fn make_author(author_type: &str, model: Option<String>, user_name: &str) -> (r: Result<
    Author,
    GitnuError,
>)
    ensures
        match r {
            Ok(a) => spec_author_of(author_type@, model.deep_view(), user_name@) == Some(a@),
            Err(e) => {
                &&& spec_author_of(author_type@, model.deep_view(), user_name@) is None
                &&& e@ matches ErrorV::Other(_)
            },
        },
{
    if str_eq(author_type, "human") {
        Ok(Author::Human { name: user_name.to_owned() })
    } else if str_eq(author_type, "agent") {
        let m = match model {
            Some(m) => m,
            None => String::from_str("default-model"),
        };
        Ok(Author::Agent { model: m, session_id: None })
    } else {
        let mut msg = String::from_str("Invalid author type: ");
        msg.append(author_type);
        msg.append(". Use 'human' or 'agent'");
        Err(GitnuError::Other(msg))
    }
}

/// The bytes a commit hash is derived from: the parent line if there is a
/// parent, the message, and the creation time in RFC 3339 form.
pub open spec fn spec_commit_payload(
    parent: Option<Seq<char>>,
    message: Seq<char>,
    now: int,
) -> Seq<u8> {
    (match parent {
        Some(p) => encode_utf8("parent "@) + encode_utf8(p) + encode_utf8("\n"@),
        None => Seq::<u8>::empty(),
    }) + encode_utf8(message) + encode_utf8("\n"@) + encode_utf8(rfc3339_of(now))
}

fn build_commit_payload(parent: Option<&String>, message: &str, now: i64) -> (r: Vec<u8>)
    requires
        0 <= now < 253402300800,
    ensures
        r@ == spec_commit_payload(
            match parent {
                Some(p) => Some(p@),
                None => None,
            },
            message@,
            now as int,
        ),
{
    let mut data: Vec<u8> = Vec::new();
    match parent {
        Some(p) => {
            append_bytes(&mut data, "parent ".as_bytes());
            append_bytes(&mut data, p.as_str().as_bytes());
            append_bytes(&mut data, "\n".as_bytes());
        },
        None => {},
    }
    append_bytes(&mut data, message.as_bytes());
    append_bytes(&mut data, "\n".as_bytes());
    let ts = format_rfc3339(now);
    append_bytes(&mut data, ts.as_str().as_bytes());
    proof {
        assert(data@ =~= spec_commit_payload(
            match parent {
                Some(p) => Some(p@),
                None => None,
            },
            message@,
            now as int,
        ));
    }
    data
}

/// The hash of the previous head commit, as the new commit's parent link.
pub open spec fn spec_parent_hash(prev: Option<CommitV>) -> Option<Seq<char>> {
    match prev {
        Some(c) => Some(c.hash),
        None => None,
    }
}

/// Checkpoints the tracked tree: computes the change summary against the
/// head commit, derives the new commit's hash from parent, message and
/// time, snapshots the tree, appends the record to the current branch's
/// log, and moves the branch reference. With a previous commit and no
/// change at all, nothing is written and no commit is returned. While the
/// head is detached, the log and reference are kept under the literal hash
/// the head names, mirroring how the head is read.
pub fn commit(
    storage: &mut Storage,
    message: &str,
    author_type: &str,
    model: Option<String>,
    user_name: &str,
    now: i64,
) -> (r: Result<Option<Commit>, GitnuError>)
    requires
        spec_text_len(old(storage).tree.deep_view()) <= usize::MAX,
        spec_tree_size(old(storage).tree.deep_view()) <= u64::MAX,
        crate::archive::tar_normal_paths(old(storage).tree.deep_view()),
        0 <= now < 253402300800,
    ensures
        ({
            let s0 = *old(storage);
            let prev = spec_head_commit(s0);
            let branch = spec_head_name(s0.head@);
            let summary = spec_summary(s0.tree.deep_view(), spec_prev_of(s0, prev));
            let no_changes = prev is Some && summary.files_added.len() == 0
                && summary.files_modified.len() == 0 && summary.files_removed.len() == 0;
            let author = spec_author_of(author_type@, model.deep_view(), user_name@);
            let hash = spec_sha256_hex(
                spec_commit_payload(spec_parent_hash(prev), message@, now as int),
            );
            &&& (no_changes ==> ({
                &&& r matches Ok(c)
                &&& c is None
                &&& *final(storage) == s0
            }))
            &&& (!no_changes && author is None ==> ({
                &&& r matches Err(e)
                &&& e@ matches ErrorV::Other(_)
                &&& *final(storage) == s0
            }))
            &&& (!no_changes && author is Some && targz_packs(
                entry_views(s0.tree.deep_view()),
            ) ==> ({
                &&& r matches Ok(c)
                &&& c is Some
            }))
            &&& (!no_changes && author is Some ==> ({
                ||| ({
                    &&& r matches Ok(c)
                    &&& c is Some
                })
                ||| ({
                    &&& r matches Err(e)
                    &&& e@ matches ErrorV::Other(_)
                    &&& *final(storage) == s0
                })
            }))
            &&& (r matches Ok(Some(c)) ==> {
                &&& !no_changes
                &&& c@.hash == hash
                &&& c@.parent == spec_parent_hash(prev)
                &&& c@.timestamp == now as int
                &&& Some(c@.author) == author
                &&& c@.message == message@
                &&& c@.context_summary == summary
                &&& c@.snapshot_path == spec_relative_path(
                    s0.vault_root@,
                    s0.vault_root@ + "/.gitnu"@ + "/objects"@ + "/"@ + hash
                        + "/snapshot.tar.gz"@,
                )
                &&& spec_commits_of(final(storage).logs.deep_view(), branch)
                    == spec_commits_of(s0.logs.deep_view(), branch).push(c@)
                &&& forall|n: Seq<char>|
                    n != branch ==> log_lookup(final(storage).logs.deep_view(), n)
                        == log_lookup(s0.logs.deep_view(), n)
                &&& ref_lookup(final(storage).refs.deep_view(), branch) == Some(hash)
                &&& forall|n: Seq<char>|
                    n != branch ==> ref_lookup(final(storage).refs.deep_view(), n)
                        == ref_lookup(s0.refs.deep_view(), n)
                &&& final(storage).objects.deep_view() == spec_put_object(
                    s0.objects.deep_view(),
                    spec_snapshot_object(s0.tree.deep_view(), hash, now as int),
                )
                &&& final(storage).tree == s0.tree
                &&& final(storage).head == s0.head
                &&& final(storage).vault_root == s0.vault_root
                &&& final(storage).config == s0.config
                &&& final(storage).index == s0.index
            })
        }),
{
    let current_branch = storage.read_head();
    let parent_commit = storage.get_head_commit();
    let summary = summary_for(storage, parent_commit.as_ref());
    let has_some_change = summary.files_added.len() != 0 || summary.files_modified.len() != 0
        || summary.files_removed.len() != 0;
    if parent_commit.is_some() && !has_some_change {
        return Ok(None);
    }
    let author = match make_author(author_type, model, user_name) {
        Ok(a) => a,
        Err(e) => {
            return Err(e);
        },
    };
    let parent_hash: Option<String> = match &parent_commit {
        Some(c) => Some(c.hash.clone()),
        None => None,
    };
    let payload = build_commit_payload(parent_hash.as_ref(), message, now);
    let hash = compute_hash(payload.as_slice());
    let snapshot_path = match storage.create_snapshot(hash.as_str(), now) {
        Ok(p) => p,
        Err(e) => {
            return Err(e);
        },
    };
    let rel_snapshot = relative_path(storage.vault_root.as_str(), snapshot_path.as_str());
    let record = Commit {
        hash: hash.clone(),
        parent: parent_hash,
        timestamp: now,
        author,
        message: message.to_owned(),
        context_summary: summary,
        snapshot_path: rel_snapshot,
    };
    storage.append_commit(current_branch.as_str(), record.deep_clone());
    storage.write_branch_ref(current_branch.as_str(), hash.as_str());
    Ok(Some(record))
}

/// The bytes the initial commit's hash is derived from: the vault name
/// under a tree line, and the creation time in RFC 3339 form.
pub open spec fn spec_initial_payload(vault_name: Seq<char>, now: int) -> Seq<u8> {
    encode_utf8("tree "@) + encode_utf8(vault_name) + encode_utf8("\n"@) + encode_utf8(
        rfc3339_of(now),
    )
}

/// Records the first commit of a fresh vault on `main`: an empty-parent
/// record by a human author, with the whole tree counted as added.
pub fn create_initial_commit(storage: &mut Storage, vault_name: &str, now: i64) -> (r: Result<
    Commit,
    GitnuError,
>)
    requires
        spec_text_len(old(storage).tree.deep_view()) <= usize::MAX,
        spec_tree_size(old(storage).tree.deep_view()) <= u64::MAX,
        crate::archive::tar_normal_paths(old(storage).tree.deep_view()),
        0 <= now < 253402300800,
    ensures
        ({
            let s0 = *old(storage);
            let hash = spec_sha256_hex(spec_initial_payload(vault_name@, now as int));
            let summary = spec_summary(
                s0.tree.deep_view(),
                crate::context::PrevManifest::NoCommit,
            );
            &&& (r is Ok <==> targz_packs(entry_views(s0.tree.deep_view())))
            &&& (r matches Ok(c) ==> {
                &&& c@.hash == hash
                &&& c@.parent is None
                &&& c@.timestamp == now as int
                &&& c@.author == AuthorV::Human { name: "user"@ }
                &&& c@.message == "Initial commit"@
                &&& c@.context_summary == summary
                &&& spec_commits_of(final(storage).logs.deep_view(), "main"@)
                    == spec_commits_of(s0.logs.deep_view(), "main"@).push(c@)
                &&& forall|n: Seq<char>|
                    n != "main"@ ==> log_lookup(final(storage).logs.deep_view(), n)
                        == log_lookup(s0.logs.deep_view(), n)
                &&& ref_lookup(final(storage).refs.deep_view(), "main"@) == Some(hash)
                &&& forall|n: Seq<char>|
                    n != "main"@ ==> ref_lookup(final(storage).refs.deep_view(), n)
                        == ref_lookup(s0.refs.deep_view(), n)
                &&& final(storage).objects.deep_view() == spec_put_object(
                    s0.objects.deep_view(),
                    spec_snapshot_object(s0.tree.deep_view(), hash, now as int),
                )
                &&& final(storage).tree == s0.tree
                &&& final(storage).head == s0.head
                &&& final(storage).vault_root == s0.vault_root
                &&& final(storage).config == s0.config
                &&& final(storage).index == s0.index
                &&& final(storage).initialized == s0.initialized
            })
            &&& (r matches Err(e) ==> ({
                &&& e@ matches ErrorV::Other(_)
                &&& *final(storage) == s0
            }))
        }),
{
    let summary = summary_for(storage, None);
    let mut payload: Vec<u8> = Vec::new();
    append_bytes(&mut payload, "tree ".as_bytes());
    append_bytes(&mut payload, vault_name.as_bytes());
    append_bytes(&mut payload, "\n".as_bytes());
    let ts = format_rfc3339(now);
    append_bytes(&mut payload, ts.as_str().as_bytes());
    proof {
        assert(payload@ =~= spec_initial_payload(vault_name@, now as int));
    }
    let hash = compute_hash(payload.as_slice());
    let snapshot_path = match storage.create_snapshot(hash.as_str(), now) {
        Ok(p) => p,
        Err(e) => {
            return Err(e);
        },
    };
    let rel_snapshot = relative_path(storage.vault_root.as_str(), snapshot_path.as_str());
    let record = Commit {
        hash: hash.clone(),
        parent: None,
        timestamp: now,
        author: Author::Human { name: String::from_str("user") },
        message: String::from_str("Initial commit"),
        context_summary: summary,
        snapshot_path: rel_snapshot,
    };
    storage.append_commit("main", record.deep_clone());
    storage.write_branch_ref("main", hash.as_str());
    Ok(record)
}

/// Creates a branch pointing at the current head commit. An existing
/// branch, and a vault without commits, are refused.
pub fn branch_create(storage: &mut Storage, name: &str) -> (r: Result<String, GitnuError>)
    ensures
        ({
            let s0 = *old(storage);
            &&& (ref_lookup(s0.refs.deep_view(), name@) is Some ==> ({
                &&& r matches Err(e)
                &&& e@ == ErrorV::BranchExists(name@)
                &&& *final(storage) == s0
            }))
            &&& (ref_lookup(s0.refs.deep_view(), name@) is None && spec_head_commit(s0) is None
                ==> ({
                &&& r matches Err(e)
                &&& e@ matches ErrorV::Other(_)
                &&& *final(storage) == s0
            }))
            &&& (ref_lookup(s0.refs.deep_view(), name@) is None ==> (spec_head_commit(s0)
                matches Some(c) ==> {
                &&& r matches Ok(h)
                &&& h@ == c.hash
                &&& ref_lookup(final(storage).refs.deep_view(), name@) == Some(c.hash)
                &&& forall|n: Seq<char>|
                    n != name@ ==> ref_lookup(final(storage).refs.deep_view(), n) == ref_lookup(
                        s0.refs.deep_view(),
                        n,
                    )
                &&& crate::storage::same_except_refs(s0, *final(storage))
            }))
        }),
{
    if storage.read_branch_ref(name).is_some() {
        return Err(GitnuError::BranchExists(name.to_owned()));
    }
    let head_commit = storage.get_head_commit();
    let head_hash = match head_commit {
        Some(c) => c.hash,
        None => {
            return Err(
                GitnuError::Other(String::from_str("Cannot create branch: no commits yet")),
            );
        },
    };
    storage.write_branch_ref(name, head_hash.as_str());
    Ok(head_hash)
}

/// Deletes a branch; the storage layer refuses the current branch and
/// unknown branches.
pub fn branch_delete(storage: &mut Storage, name: &str) -> (r: Result<(), GitnuError>)
    ensures
        ({
            let s0 = *old(storage);
            &&& (crate::storage::spec_is_current_branch(s0.head@, name@) ==> r is Err
                && *final(storage) == s0)
            &&& (!crate::storage::spec_is_current_branch(s0.head@, name@) && ref_lookup(
                s0.refs.deep_view(),
                name@,
            ) is None ==> ({
                &&& r matches Err(e)
                &&& e@ == ErrorV::BranchNotFound(name@)
                &&& *final(storage) == s0
            }))
            &&& (!crate::storage::spec_is_current_branch(s0.head@, name@) && ref_lookup(
                s0.refs.deep_view(),
                name@,
            ) is Some ==> {
                &&& r is Ok
                &&& ref_lookup(final(storage).refs.deep_view(), name@) is None
                &&& forall|n: Seq<char>|
                    n != name@ ==> ref_lookup(final(storage).refs.deep_view(), n) == ref_lookup(
                        s0.refs.deep_view(),
                        n,
                    )
                &&& crate::storage::same_except_refs(s0, *final(storage))
            })
        }),
{
    storage.delete_branch(name)
}

/// What a checkout did: the branch the head attached to, or none while
/// detached; the commit hash whose snapshot was restored; and that
/// commit's record, where the logs hold one.
#[derive(Debug)]
pub struct CheckoutOutcome {
    pub branch: Option<String>,
    pub commit_hash: String,
    pub commit: Option<Commit>,
}

/// Switches the tracked tree to a branch or commit: refuses to drop
/// uncommitted changes unless forced, restores the target's snapshot over
/// the whole tree, and attaches the head to the branch, or detaches it
/// onto the literal hash.
pub fn checkout(storage: &mut Storage, target: &str, force: bool) -> (r: Result<
    CheckoutOutcome,
    GitnuError,
>)
    requires
        spec_text_len(old(storage).tree.deep_view()) <= usize::MAX,
    ensures
        ({
            let s0 = *old(storage);
            let blocked = !force && spec_modified_files(s0).len() != 0;
            &&& (blocked ==> ({
                &&& r matches Err(e)
                &&& e@ == ErrorV::UncommittedChanges
                &&& *final(storage) == s0
            }))
            &&& (!blocked ==> (ref_lookup(s0.refs.deep_view(), target@) matches Some(h) ==> {
                &&& (object_lookup(s0.objects.deep_view(), h) matches Some(obj) ==> {
                    &&& r matches Ok(out)
                    &&& out.branch matches Some(b)
                    &&& b@ == target@
                    &&& out.commit_hash@ == h
                    &&& final(storage).tree.deep_view() == obj.files
                    &&& final(storage).head@ == HeadV::Attached(target@)
                    &&& final(storage).refs == s0.refs
                    &&& final(storage).logs == s0.logs
                    &&& final(storage).objects == s0.objects
                    &&& final(storage).vault_root == s0.vault_root
                })
                &&& (object_lookup(s0.objects.deep_view(), h) is None ==> ({
                    &&& r matches Err(e)
                    &&& e@ == ErrorV::SnapshotNotFound(h)
                    &&& *final(storage) == s0
                }))
            }))
            &&& (!blocked && ref_lookup(s0.refs.deep_view(), target@) is None ==> {
                &&& (spec_find_commit_query(s0.refs.deep_view(), s0.logs.deep_view(), target@) is None
                    ==> ({
                    &&& r matches Err(e)
                    &&& e@ == ErrorV::CommitNotFound(target@)
                    &&& *final(storage) == s0
                }))
                &&& (spec_find_commit_query(s0.refs.deep_view(), s0.logs.deep_view(), target@)
                    matches Some(c) ==> {
                    &&& (object_lookup(s0.objects.deep_view(), c.hash) matches Some(obj) ==> {
                        &&& r matches Ok(out)
                        &&& out.branch is None
                        &&& out.commit_hash@ == c.hash
                        &&& final(storage).tree.deep_view() == obj.files
                        &&& final(storage).head@ == HeadV::Detached(c.hash)
                        &&& final(storage).refs == s0.refs
                        &&& final(storage).logs == s0.logs
                        &&& final(storage).objects == s0.objects
                        &&& final(storage).vault_root == s0.vault_root
                    })
                    &&& (object_lookup(s0.objects.deep_view(), c.hash) is None ==> ({
                        &&& r matches Err(e)
                        &&& e@ == ErrorV::SnapshotNotFound(c.hash)
                        &&& *final(storage) == s0
                    }))
                })
            })
        }),
{
    if !force && has_changes_for(storage) {
        return Err(GitnuError::UncommittedChanges);
    }
    let (commit_hash, branch): (String, Option<String>) = match storage.read_branch_ref(target) {
        Some(h) => (h, Some(target.to_owned())),
        None => {
            match storage.find_commit(target) {
                Some(c) => (c.hash, None),
                None => {
                    return Err(GitnuError::CommitNotFound(target.to_owned()));
                },
            }
        },
    };
    match storage.restore_snapshot(commit_hash.as_str()) {
        Ok(()) => {},
        Err(e) => {
            return Err(e);
        },
    }
    match &branch {
        Some(b) => storage.write_head(b.as_str()),
        None => storage.detach_head(commit_hash.as_str()),
    }
    let commit = storage.find_commit(commit_hash.as_str());
    Ok(CheckoutOutcome { branch, commit_hash, commit })
}

/// Moves the current branch's reference back onto an earlier commit; the
/// history itself is never erased. Without `soft`, the commit's snapshot
/// is restored over the tree as well; the reference moves first, exactly
/// as persisted history would.
pub fn rewind(storage: &mut Storage, target: &str, soft: bool) -> (r: Result<
    Commit,
    GitnuError,
>)
    ensures
        ({
            let s0 = *old(storage);
            let branch = spec_head_name(s0.head@);
            &&& (spec_find_commit_query(s0.refs.deep_view(), s0.logs.deep_view(), target@) is None
                ==> ({
                &&& r matches Err(e)
                &&& e@ == ErrorV::CommitNotFound(target@)
                &&& *final(storage) == s0
            }))
            &&& (spec_find_commit_query(s0.refs.deep_view(), s0.logs.deep_view(), target@) matches
                Some(c) ==> {
                &&& ref_lookup(final(storage).refs.deep_view(), branch) == Some(c.hash)
                &&& forall|n: Seq<char>|
                    n != branch ==> ref_lookup(final(storage).refs.deep_view(), n) == ref_lookup(
                        s0.refs.deep_view(),
                        n,
                    )
                &&& final(storage).logs == s0.logs
                &&& final(storage).objects == s0.objects
                &&& final(storage).head == s0.head
                &&& (soft ==> ({
                    &&& r matches Ok(rc)
                    &&& rc@ == c
                    &&& final(storage).tree == s0.tree
                }))
                &&& (!soft ==> (object_lookup(s0.objects.deep_view(), c.hash) matches Some(
                    obj,
                ) ==> ({
                    &&& r matches Ok(rc)
                    &&& rc@ == c
                    &&& final(storage).tree.deep_view() == obj.files
                })))
                &&& (!soft && object_lookup(s0.objects.deep_view(), c.hash) is None ==> ({
                    &&& r matches Err(e)
                    &&& e@ == ErrorV::SnapshotNotFound(c.hash)
                    &&& final(storage).tree == s0.tree
                }))
            })
        }),
{
    let commit = match storage.find_commit(target) {
        Some(c) => c,
        None => {
            return Err(GitnuError::CommitNotFound(target.to_owned()));
        },
    };
    let current_branch = storage.read_head();
    storage.write_branch_ref(current_branch.as_str(), commit.hash.as_str());
    if !soft {
        match storage.restore_snapshot(commit.hash.as_str()) {
            Ok(()) => {},
            Err(e) => {
                return Err(e);
            },
        }
    }
    Ok(commit)
}

/// The message a merge commit carries.
pub open spec fn spec_merge_message(
    source_branch: Seq<char>,
    source_message: Seq<char>,
    squash: bool,
) -> Seq<char> {
    "Merge "@ + source_branch + ": "@ + source_message + (if squash {
        " (squashed)"@
    } else {
        Seq::<char>::empty()
    })
}

/// The bytes a merge commit's hash is derived from: both parent lines, the
/// merge message, and the creation time in RFC 3339 form.
pub open spec fn spec_merge_payload(
    target_hash: Seq<char>,
    source_hash: Seq<char>,
    message: Seq<char>,
    now: int,
) -> Seq<u8> {
    encode_utf8("parent "@) + encode_utf8(target_hash) + encode_utf8("\nparent "@) + encode_utf8(
        source_hash,
    ) + encode_utf8("\n"@) + encode_utf8(message) + encode_utf8("\n"@) + encode_utf8(
        rfc3339_of(now),
    )
}

/// Merges one branch into another by overwrite: the source branch's
/// snapshot replaces the whole tree, the change summary is taken against
/// the target's manifest, and a merge commit is recorded on the target
/// branch. No content is ever three-way merged.
pub fn merge(
    storage: &mut Storage,
    source_branch: &str,
    into_branch: Option<String>,
    squash: bool,
    now: i64,
) -> (r: Result<Commit, GitnuError>)
    requires
        0 <= now < 253402300800,
        forall|j: int|
            0 <= j < old(storage).objects.deep_view().len() ==> crate::context::spec_text_len(
                #[trigger] old(storage).objects.deep_view()[j].files,
            ) <= usize::MAX,
        forall|j: int|
            0 <= j < old(storage).objects.deep_view().len() ==> spec_tree_size(
                #[trigger] old(storage).objects.deep_view()[j].files,
            ) <= u64::MAX,
        forall|j: int|
            0 <= j < old(storage).objects.deep_view().len()
                ==> crate::archive::tar_normal_paths(
                #[trigger] old(storage).objects.deep_view()[j].files,
            ),
    ensures
        ({
            let s0 = *old(storage);
            let tb = (match into_branch {
                Some(b) => b@,
                None => spec_head_name(s0.head@),
            });
            &&& (r matches Err(e) ==> !crate::errors::spec_is_merge_conflict(e@))
            &&& (ref_lookup(s0.refs.deep_view(), source_branch@) matches Some(sh) ==> (
            spec_find_commit_query(s0.refs.deep_view(), s0.logs.deep_view(), sh) matches Some(sc)
                ==> (ref_lookup(s0.refs.deep_view(), tb) matches Some(th) ==> (spec_find_commit_query(
                s0.refs.deep_view(),
                s0.logs.deep_view(),
                th,
            ) matches Some(tc) ==> (object_lookup(s0.objects.deep_view(), sc.hash) matches Some(
                sobj,
            ) ==> ((spec_head_name(s0.head@) == tb || object_lookup(
                s0.objects.deep_view(),
                tc.hash,
            ) is Some) && targz_packs(entry_views(sobj.files)) ==> r is Ok))))))
            &&& (ref_lookup(s0.refs.deep_view(), source_branch@) is None ==> ({
                &&& r matches Err(e)
                &&& e@ == ErrorV::BranchNotFound(source_branch@)
                &&& *final(storage) == s0
            }))
            &&& (ref_lookup(s0.refs.deep_view(), source_branch@) is Some && ref_lookup(
                s0.refs.deep_view(),
                tb,
            ) is None ==> ({
                &&& r matches Err(e)
                &&& e@ == ErrorV::BranchNotFound(tb)
                &&& *final(storage) == s0
            }))
            &&& (r matches Ok(mc) ==> ({
                &&& ref_lookup(s0.refs.deep_view(), source_branch@) matches Some(sh)
                &&& spec_find_commit_query(s0.refs.deep_view(), s0.logs.deep_view(), sh) matches Some(
                    sc,
                )
                &&& ref_lookup(s0.refs.deep_view(), tb) matches Some(th)
                &&& spec_find_commit_query(s0.refs.deep_view(), s0.logs.deep_view(), th) matches Some(
                    tc,
                )
                &&& object_lookup(s0.objects.deep_view(), sc.hash) matches Some(sobj)
                &&& mc@.message == spec_merge_message(source_branch@, sc.message, squash)
                &&& mc@.hash == spec_sha256_hex(
                    spec_merge_payload(tc.hash, sc.hash, mc@.message, now as int),
                )
                &&& mc@.parent == Some(tc.hash)
                &&& mc@.timestamp == now as int
                &&& mc@.author == (AuthorV::Agent { model: "gitnu-merge"@, session_id: None })
                &&& mc@.context_summary == spec_summary(
                    sobj.files,
                    (match object_lookup(s0.objects.deep_view(), tc.hash) {
                        None => crate::context::PrevManifest::Missing,
                        Some(o) => crate::context::PrevManifest::Loaded(o.manifest.files),
                    }),
                )
                &&& final(storage).head@ == (if spec_head_name(s0.head@) == tb {
                    s0.head@
                } else {
                    HeadV::Attached(tb)
                })
                &&& final(storage).tree.deep_view() == sobj.files
                &&& spec_commits_of(final(storage).logs.deep_view(), tb) == spec_commits_of(
                    s0.logs.deep_view(),
                    tb,
                ).push(mc@)
                &&& forall|n: Seq<char>|
                    n != tb ==> log_lookup(final(storage).logs.deep_view(), n) == log_lookup(
                        s0.logs.deep_view(),
                        n,
                    )
                &&& ref_lookup(final(storage).refs.deep_view(), tb) == Some(mc@.hash)
                &&& forall|n: Seq<char>|
                    n != tb ==> ref_lookup(final(storage).refs.deep_view(), n) == ref_lookup(
                        s0.refs.deep_view(),
                        n,
                    )
                &&& final(storage).objects.deep_view() == spec_put_object(
                    s0.objects.deep_view(),
                    spec_snapshot_object(sobj.files, mc@.hash, now as int),
                )
                &&& final(storage).vault_root == s0.vault_root
                &&& final(storage).config == s0.config
                &&& final(storage).index == s0.index
            }))
        }),
{
    let ghost s0 = *storage;
    let target_branch: String = match into_branch {
        Some(b) => b,
        None => storage.read_head(),
    };
    let source_hash = match storage.read_branch_ref(source_branch) {
        Some(h) => h,
        None => {
            return Err(GitnuError::BranchNotFound(source_branch.to_owned()));
        },
    };
    let target_hash = match storage.read_branch_ref(target_branch.as_str()) {
        Some(h) => h,
        None => {
            return Err(GitnuError::BranchNotFound(target_branch));
        },
    };
    let source_commit = match storage.find_commit(source_hash.as_str()) {
        Some(c) => c,
        None => {
            return Err(GitnuError::CommitNotFound(source_hash));
        },
    };
    let target_commit = match storage.find_commit(target_hash.as_str()) {
        Some(c) => c,
        None => {
            return Err(GitnuError::CommitNotFound(target_hash));
        },
    };
    let current_branch = storage.read_head();
    if !str_eq(current_branch.as_str(), target_branch.as_str()) {
        match storage.restore_snapshot(target_commit.hash.as_str()) {
            Ok(()) => {},
            Err(e) => {
                return Err(e);
            },
        }
        storage.write_head(target_branch.as_str());
    }
    match storage.restore_snapshot(source_commit.hash.as_str()) {
        Ok(()) => {},
        Err(e) => {
            return Err(e);
        },
    }
    proof {
        let sobj = object_lookup(s0.objects.deep_view(), source_commit@.hash).unwrap();
        crate::storage::lemma_object_lookup_is_element(
            s0.objects.deep_view(),
            source_commit@.hash,
        );
        let j = choose|j: int|
            0 <= j < s0.objects.deep_view().len() && s0.objects.deep_view()[j] == sobj;
        assert(crate::context::spec_text_len(s0.objects.deep_view()[j].files) <= usize::MAX);
        assert(spec_tree_size(s0.objects.deep_view()[j].files) <= u64::MAX);
        assert(crate::archive::tar_normal_paths(s0.objects.deep_view()[j].files));
        assert(storage.tree.deep_view() == sobj.files);
    }
    let summary = summary_for(storage, Some(&target_commit));
    let mut merge_message = String::from_str("Merge ");
    merge_message.append(source_branch);
    merge_message.append(": ");
    merge_message.append(source_commit.message.as_str());
    if squash {
        merge_message.append(" (squashed)");
    }
    proof {
        assert(merge_message@ =~= spec_merge_message(
            source_branch@,
            source_commit@.message,
            squash,
        ));
    }
    let mut payload: Vec<u8> = Vec::new();
    append_bytes(&mut payload, "parent ".as_bytes());
    append_bytes(&mut payload, target_commit.hash.as_str().as_bytes());
    append_bytes(&mut payload, "\nparent ".as_bytes());
    append_bytes(&mut payload, source_commit.hash.as_str().as_bytes());
    append_bytes(&mut payload, "\n".as_bytes());
    append_bytes(&mut payload, merge_message.as_str().as_bytes());
    append_bytes(&mut payload, "\n".as_bytes());
    let ts = format_rfc3339(now);
    append_bytes(&mut payload, ts.as_str().as_bytes());
    proof {
        assert(payload@ =~= spec_merge_payload(
            target_commit@.hash,
            source_commit@.hash,
            merge_message@,
            now as int,
        ));
    }
    let hash = compute_hash(payload.as_slice());
    let snapshot_path = match storage.create_snapshot(hash.as_str(), now) {
        Ok(p) => p,
        Err(e) => {
            return Err(e);
        },
    };
    let rel_snapshot = relative_path(storage.vault_root.as_str(), snapshot_path.as_str());
    let record = Commit {
        hash: hash.clone(),
        parent: Some(target_commit.hash.clone()),
        timestamp: now,
        author: Author::Agent { model: String::from_str("gitnu-merge"), session_id: None },
        message: merge_message,
        context_summary: summary,
        snapshot_path: rel_snapshot,
    };
    storage.append_commit(target_branch.as_str(), record.deep_clone());
    storage.write_branch_ref(target_branch.as_str(), hash.as_str());
    Ok(record)
}

/// The branch history for display: newest commit first, cut to the limit.
pub fn log(storage: &Storage, limit: Option<usize>, branch: Option<String>) -> (r: Vec<Commit>)
    ensures
        ({
            let name = (match branch {
                Some(b) => b@,
                None => spec_head_name(storage.head@),
            });
            let cs = spec_commits_of(storage.logs.deep_view(), name).reverse();
            r.deep_view() == (match limit {
                Some(l) => cs.take(if l as int <= cs.len() {
                    l as int
                } else {
                    cs.len() as int
                }),
                None => cs,
            })
        }),
{
    let name: String = match branch {
        Some(b) => b,
        None => storage.read_head(),
    };
    let commits = storage.read_commits(name.as_str());
    let ghost cs = commits.deep_view();
    let total = commits.len();
    let count: usize = match limit {
        Some(l) => if l <= total {
            l
        } else {
            total
        },
        None => total,
    };
    let mut out: Vec<Commit> = Vec::new();
    let mut j: usize = 0;
    while j < count
        invariant
            0 <= j <= count <= total,
            total == commits@.len(),
            cs == commits.deep_view(),
            out.deep_view().len() == j,
            forall|i: int| 0 <= i < j ==> out.deep_view()[i] == cs[total - 1 - i],
        decreases count - j,
    {
        let ghost pre = out.deep_view();
        let c = commits[total - 1 - j].deep_clone();
        out.push(c);
        proof {
            assert(out.deep_view() =~= pre.push(cs[total - 1 - j as int]));
        }
        j += 1;
    }
    proof {
        let rev = cs.reverse();
        if total > 0 {
            assert(forall|i: int| 0 <= i < rev.len() ==> rev[i] == cs[total - 1 - i]);
        }
        assert(out.deep_view() =~= (if count < total {
            rev.take(count as int)
        } else {
            rev
        }));
        if count == total {
            assert(rev.take(count as int) =~= rev);
        }
    }
    out
}

} // verus!
