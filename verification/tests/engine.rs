use gitnu::models::{Author, TreeFile};
use gitnu::ops;
use gitnu::storage::Storage;

const T0: i64 = 1_700_000_000;

fn fresh_vault() -> Storage {
    let mut storage = Storage::new("vault".to_string());
    storage.init("testvault", T0).unwrap();
    storage
}

#[test]
fn init_refuses_second_initialization() {
    let mut storage = fresh_vault();
    let err = storage.init("again", T0 + 1).unwrap_err();
    assert!(matches!(err, gitnu::errors::GitnuError::AlreadyInitialized(_)));
}

#[test]
fn empty_vault_first_commit_has_no_files_and_no_tokens() {
    // Scenario: initialize an empty vault and commit with zero tracked files.
    let mut storage = fresh_vault();
    let c = ops::create_initial_commit(&mut storage, "testvault", T0).unwrap();
    let log = storage.read_commits("main");
    assert_eq!(log.len(), 1);
    assert!(c.context_summary.files_added.is_empty());
    assert!(c.context_summary.files_modified.is_empty());
    assert!(c.context_summary.files_removed.is_empty());
    assert_eq!(c.context_summary.token_estimate, 0);
    assert_eq!(c.message, "Initial commit");
    assert!(c.parent.is_none());
    assert_eq!(storage.read_branch_ref("main").unwrap(), c.hash);
}

#[test]
fn first_file_commit_reports_added_tokens_and_domain() {
    // Scenario: one 400-character file under domains/x, then a commit.
    let mut storage = fresh_vault();
    ops::create_initial_commit(&mut storage, "testvault", T0).unwrap();
    storage.tree.push(TreeFile {
        path: "domains/x/a.md".to_string(),
        content: vec![b'a'; 400],
    });
    let c = ops::commit(&mut storage, "add a", "agent", None, "user", T0 + 10)
        .unwrap()
        .unwrap();
    assert_eq!(c.context_summary.files_added, vec!["domains/x/a.md".to_string()]);
    assert!(c.context_summary.files_modified.is_empty());
    assert!(c.context_summary.files_removed.is_empty());
    assert_eq!(c.context_summary.token_estimate, 100);
    assert_eq!(c.context_summary.domains_loaded, vec!["x".to_string()]);
}

#[test]
fn edited_file_commit_reports_modified_only() {
    // Scenario: the same file grows to 800 characters and is committed again.
    let mut storage = fresh_vault();
    ops::create_initial_commit(&mut storage, "testvault", T0).unwrap();
    storage.tree.push(TreeFile {
        path: "domains/x/a.md".to_string(),
        content: vec![b'a'; 400],
    });
    ops::commit(&mut storage, "add a", "agent", None, "user", T0 + 10)
        .unwrap()
        .unwrap();
    storage.tree[0].content = vec![b'b'; 800];
    let c = ops::commit(&mut storage, "edit a", "agent", None, "user", T0 + 20)
        .unwrap()
        .unwrap();
    assert_eq!(c.context_summary.files_modified, vec!["domains/x/a.md".to_string()]);
    assert!(c.context_summary.files_added.is_empty());
    assert!(c.context_summary.files_removed.is_empty());
}

#[test]
fn unchanged_tree_commit_writes_nothing() {
    let mut storage = fresh_vault();
    ops::create_initial_commit(&mut storage, "testvault", T0).unwrap();
    let r = ops::commit(&mut storage, "noop", "agent", None, "user", T0 + 10).unwrap();
    assert!(r.is_none());
    assert_eq!(storage.read_commits("main").len(), 1);
}

#[test]
fn branch_delete_and_restore_round_trip() {
    // Scenario: branch from HEAD, delete the file there, switch back.
    let mut storage = fresh_vault();
    ops::create_initial_commit(&mut storage, "testvault", T0).unwrap();
    storage.tree.push(TreeFile {
        path: "domains/x/a.md".to_string(),
        content: vec![b'a'; 400],
    });
    ops::commit(&mut storage, "add a", "agent", None, "user", T0 + 10)
        .unwrap()
        .unwrap();
    ops::branch_create(&mut storage, "feat").unwrap();
    let out = ops::checkout(&mut storage, "feat", false).unwrap();
    assert_eq!(out.branch.as_deref(), Some("feat"));
    storage.tree.clear();
    let c = ops::commit(&mut storage, "drop a", "agent", None, "user", T0 + 20)
        .unwrap()
        .unwrap();
    assert_eq!(c.context_summary.files_removed, vec!["domains/x/a.md".to_string()]);
    assert!(c.context_summary.files_added.is_empty());
    assert!(c.context_summary.files_modified.is_empty());
    let back = ops::checkout(&mut storage, "main", false).unwrap();
    assert_eq!(back.branch.as_deref(), Some("main"));
    assert_eq!(storage.tree.len(), 1);
    assert_eq!(storage.tree[0].path, "domains/x/a.md");
    assert_eq!(storage.tree[0].content, vec![b'a'; 400]);
}

#[test]
fn snapshot_restore_reproduces_tree_bytes() {
    // The snapshot round trip goes through the real tar and flate2 codecs.
    let mut storage = fresh_vault();
    storage.tree.push(TreeFile {
        path: "domains/x/a.md".to_string(),
        content: b"hello world".to_vec(),
    });
    storage.tree.push(TreeFile {
        path: "domains/y/raw.bin".to_string(),
        content: vec![0u8, 159, 146, 150, 255],
    });
    let original = storage.tree.clone();
    storage
        .create_snapshot("0123456789abcdef0123456789abcdef", T0)
        .unwrap();
    storage.tree.clear();
    storage.tree.push(TreeFile {
        path: "domains/z/other.md".to_string(),
        content: b"gone soon".to_vec(),
    });
    storage
        .restore_snapshot("0123456789abcdef0123456789abcdef")
        .unwrap();
    assert_eq!(storage.tree, original);
}

#[test]
fn restore_unknown_snapshot_fails() {
    let mut storage = fresh_vault();
    let err = storage.restore_snapshot("ffffffffffffffff").unwrap_err();
    assert!(matches!(err, gitnu::errors::GitnuError::SnapshotNotFound(_)));
}

#[test]
fn checkout_refuses_to_drop_uncommitted_changes() {
    let mut storage = fresh_vault();
    ops::create_initial_commit(&mut storage, "testvault", T0).unwrap();
    ops::branch_create(&mut storage, "feat").unwrap();
    storage.tree.push(TreeFile {
        path: "domains/x/new.md".to_string(),
        content: b"draft".to_vec(),
    });
    let err = ops::checkout(&mut storage, "feat", false).unwrap_err();
    assert!(matches!(err, gitnu::errors::GitnuError::UncommittedChanges));
    // forcing drops the change
    ops::checkout(&mut storage, "feat", true).unwrap();
    assert!(storage.tree.is_empty());
}

#[test]
fn checkout_unknown_target_fails() {
    let mut storage = fresh_vault();
    ops::create_initial_commit(&mut storage, "testvault", T0).unwrap();
    let err = ops::checkout(&mut storage, "nowhere", false).unwrap_err();
    assert!(matches!(err, gitnu::errors::GitnuError::CommitNotFound(_)));
}

#[test]
fn checkout_commit_hash_detaches_head() {
    let mut storage = fresh_vault();
    let c = ops::create_initial_commit(&mut storage, "testvault", T0).unwrap();
    storage.tree.push(TreeFile {
        path: "domains/x/a.md".to_string(),
        content: b"text".to_vec(),
    });
    ops::commit(&mut storage, "add", "agent", None, "user", T0 + 10)
        .unwrap()
        .unwrap();
    let out = ops::checkout(&mut storage, &c.hash[..7], true).unwrap();
    assert!(out.branch.is_none());
    assert_eq!(out.commit_hash, c.hash);
    assert_eq!(storage.read_head(), c.hash);
    assert!(storage.tree.is_empty());
}

#[test]
fn delete_branch_rules() {
    // The current branch can never be deleted; any other existing branch
    // can, after which its reference is gone.
    let mut storage = fresh_vault();
    ops::create_initial_commit(&mut storage, "testvault", T0).unwrap();
    ops::branch_create(&mut storage, "feat").unwrap();
    let err = storage.delete_branch("main").unwrap_err();
    assert!(matches!(err, gitnu::errors::GitnuError::Other(_)));
    let err = storage.delete_branch("ghost").unwrap_err();
    assert!(matches!(err, gitnu::errors::GitnuError::BranchNotFound(_)));
    storage.delete_branch("feat").unwrap();
    assert!(storage.read_branch_ref("feat").is_none());
    // the log itself survives the reference
    assert!(storage.read_branch_ref("main").is_some());
}

#[test]
fn branch_create_rules() {
    let mut storage = fresh_vault();
    let err = ops::branch_create(&mut storage, "feat").unwrap_err();
    assert!(matches!(err, gitnu::errors::GitnuError::Other(_)));
    let c = ops::create_initial_commit(&mut storage, "testvault", T0).unwrap();
    let h = ops::branch_create(&mut storage, "feat").unwrap();
    assert_eq!(h, c.hash);
    let err = ops::branch_create(&mut storage, "feat").unwrap_err();
    assert!(matches!(err, gitnu::errors::GitnuError::BranchExists(_)));
}

#[test]
fn find_commit_by_full_hash_and_prefix() {
    // The full hash and its seven-character prefix name the same record.
    let mut storage = fresh_vault();
    let c0 = ops::create_initial_commit(&mut storage, "testvault", T0).unwrap();
    storage.tree.push(TreeFile {
        path: "domains/x/a.md".to_string(),
        content: b"text".to_vec(),
    });
    let c1 = ops::commit(&mut storage, "add", "agent", None, "user", T0 + 10)
        .unwrap()
        .unwrap();
    let by_full = storage.find_commit(&c1.hash).unwrap();
    let by_prefix = storage.find_commit(&c1.hash[..7]).unwrap();
    assert_eq!(by_full, by_prefix);
    assert_eq!(by_full.hash, c1.hash);
    let by_full0 = storage.find_commit(&c0.hash).unwrap();
    let by_prefix0 = storage.find_commit(&c0.hash[..7]).unwrap();
    assert_eq!(by_full0, by_prefix0);
    assert!(storage.find_commit("0000000000").is_none());
    // matching asks for at least seven characters
    assert!(storage.find_commit(&c1.hash[..6]).is_none());
    assert!(storage.find_commit("").is_none());
}

#[test]
fn read_commits_is_creation_order_and_log_reverses_it() {
    let mut storage = fresh_vault();
    ops::create_initial_commit(&mut storage, "testvault", T0).unwrap();
    storage.tree.push(TreeFile {
        path: "domains/x/a.md".to_string(),
        content: b"one".to_vec(),
    });
    let c1 = ops::commit(&mut storage, "first", "agent", None, "user", T0 + 10)
        .unwrap()
        .unwrap();
    storage.tree[0].content = b"two longer".to_vec();
    let c2 = ops::commit(&mut storage, "second", "agent", None, "user", T0 + 20)
        .unwrap()
        .unwrap();
    let forward = storage.read_commits("main");
    assert_eq!(forward.len(), 3);
    assert_eq!(forward[1].hash, c1.hash);
    assert_eq!(forward[2].hash, c2.hash);
    let newest_first = ops::log(&storage, None, None);
    assert_eq!(newest_first.len(), 3);
    assert_eq!(newest_first[0].hash, c2.hash);
    assert_eq!(newest_first[1].hash, c1.hash);
    let limited = ops::log(&storage, Some(2), Some("main".to_string()));
    assert_eq!(limited.len(), 2);
    assert_eq!(limited[0].hash, c2.hash);
}

#[test]
fn rewind_moves_reference_and_restores_tree() {
    let mut storage = fresh_vault();
    ops::create_initial_commit(&mut storage, "testvault", T0).unwrap();
    storage.tree.push(TreeFile {
        path: "domains/x/a.md".to_string(),
        content: b"version one".to_vec(),
    });
    let c1 = ops::commit(&mut storage, "v1", "agent", None, "user", T0 + 10)
        .unwrap()
        .unwrap();
    storage.tree[0].content = b"version two is here".to_vec();
    ops::commit(&mut storage, "v2", "agent", None, "user", T0 + 20)
        .unwrap()
        .unwrap();
    let back = ops::rewind(&mut storage, &c1.hash[..7], false).unwrap();
    assert_eq!(back.hash, c1.hash);
    assert_eq!(storage.read_branch_ref("main").unwrap(), c1.hash);
    assert_eq!(storage.tree[0].content, b"version one".to_vec());
    // history is append-only: the log still holds all three commits
    assert_eq!(storage.read_commits("main").len(), 3);
}

#[test]
fn rewind_soft_keeps_tree() {
    let mut storage = fresh_vault();
    ops::create_initial_commit(&mut storage, "testvault", T0).unwrap();
    storage.tree.push(TreeFile {
        path: "domains/x/a.md".to_string(),
        content: b"version one".to_vec(),
    });
    let c1 = ops::commit(&mut storage, "v1", "agent", None, "user", T0 + 10)
        .unwrap()
        .unwrap();
    storage.tree[0].content = b"version two".to_vec();
    ops::commit(&mut storage, "v2", "agent", None, "user", T0 + 20)
        .unwrap()
        .unwrap();
    ops::rewind(&mut storage, &c1.hash, true).unwrap();
    assert_eq!(storage.read_branch_ref("main").unwrap(), c1.hash);
    assert_eq!(storage.tree[0].content, b"version two".to_vec());
}

#[test]
fn merge_overwrites_target_with_source_snapshot() {
    let mut storage = fresh_vault();
    ops::create_initial_commit(&mut storage, "testvault", T0).unwrap();
    storage.tree.push(TreeFile {
        path: "domains/x/a.md".to_string(),
        content: b"main version".to_vec(),
    });
    ops::commit(&mut storage, "base", "agent", None, "user", T0 + 10)
        .unwrap()
        .unwrap();
    ops::branch_create(&mut storage, "feat").unwrap();
    ops::checkout(&mut storage, "feat", false).unwrap();
    storage.tree[0].content = b"feature version, longer".to_vec();
    let fc = ops::commit(&mut storage, "feature work", "agent", None, "user", T0 + 20)
        .unwrap()
        .unwrap();
    ops::checkout(&mut storage, "main", false).unwrap();
    let mc = ops::merge(&mut storage, "feat", None, false, T0 + 30).unwrap();
    assert_eq!(mc.message, format!("Merge feat: {}", fc.message));
    assert_eq!(mc.author, Author::Agent { model: "gitnu-merge".to_string(), session_id: None });
    assert_eq!(storage.tree[0].content, b"feature version, longer".to_vec());
    assert_eq!(storage.read_branch_ref("main").unwrap(), mc.hash);
    assert_eq!(storage.read_head(), "main");
}

#[test]
fn merge_unknown_branch_fails() {
    let mut storage = fresh_vault();
    ops::create_initial_commit(&mut storage, "testvault", T0).unwrap();
    let err = ops::merge(&mut storage, "ghost", None, false, T0 + 10).unwrap_err();
    assert!(matches!(err, gitnu::errors::GitnuError::BranchNotFound(_)));
}

#[test]
fn make_author_variants() {
    let a = ops::make_author("human", None, "alice").unwrap();
    assert_eq!(a, Author::Human { name: "alice".to_string() });
    let a = ops::make_author("agent", Some("m1".to_string()), "alice").unwrap();
    assert_eq!(a, Author::Agent { model: "m1".to_string(), session_id: None });
    let a = ops::make_author("agent", None, "alice").unwrap();
    assert_eq!(
        a,
        Author::Agent { model: "default-model".to_string(), session_id: None }
    );
    let err = ops::make_author("robot", None, "alice").unwrap_err();
    assert!(matches!(err, gitnu::errors::GitnuError::Other(_)));
}

#[test]
fn summary_is_idempotent_between_mutations() {
    // Two summary computations with no intervening change yield equal values.
    let mut storage = fresh_vault();
    ops::create_initial_commit(&mut storage, "testvault", T0).unwrap();
    storage.tree.push(TreeFile {
        path: "domains/x/a.md".to_string(),
        content: b"stable content".to_vec(),
    });
    let head = storage.get_head_commit();
    let s1 = gitnu::context::summary_for(&storage, head.as_ref());
    let s2 = gitnu::context::summary_for(&storage, head.as_ref());
    assert_eq!(s1, s2);
}

#[test]
fn summary_without_previous_commit_marks_everything_added() {
    let mut storage = fresh_vault();
    storage.tree.push(TreeFile {
        path: "domains/x/a.md".to_string(),
        content: b"abc".to_vec(),
    });
    storage.tree.push(TreeFile {
        path: "domains/y/b.md".to_string(),
        content: vec![0xFF, 0xFE],
    });
    let s = gitnu::context::summary_for(&storage, None);
    assert_eq!(
        s.files_added,
        vec!["domains/x/a.md".to_string(), "domains/y/b.md".to_string()]
    );
    assert!(s.files_modified.is_empty());
    assert!(s.files_removed.is_empty());
    // only the decodable file counts for tokens: (3 + 1) / 4
    assert_eq!(s.token_estimate, 1);
    assert_eq!(s.domains_loaded, vec!["x".to_string(), "y".to_string()]);
}

#[test]
fn head_detached_reports_hash() {
    let mut storage = fresh_vault();
    storage.detach_head("abc1234");
    assert_eq!(storage.read_head(), "abc1234");
    assert!(storage.get_head_commit().is_none());
}
