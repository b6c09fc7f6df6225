use gitnu::context::extract_domain_of;
use gitnu::digest::compute_hash;
use gitnu::models::{Author, Index, Priority, TreeFile};
use gitnu::utils::{estimate_tokens, format_size, parse_commit_ref, relative_path, relative_time};
use gitnu::wikilink::resolve_wikilink;
use gitnu::textproc::compress_markdown;
use gitnu::context::ContextManager;
use gitnu::diff::{commit_diff, resolve_target};
use gitnu::models::{Commit, ContextSummary};
use gitnu::ops;
use gitnu::storage::Storage;

#[test]
fn token_estimate_is_byte_count_over_four() {
    assert_eq!(estimate_tokens(""), 0);
    assert_eq!(estimate_tokens("abc"), 0);
    assert_eq!(estimate_tokens("abcd"), 1);
    assert_eq!(estimate_tokens("abcdefg"), 1);
    assert_eq!(estimate_tokens(&"x".repeat(400)), 100);
    // multi-byte characters count by their encoded bytes
    assert_eq!(estimate_tokens("\u{e9}\u{e9}d"), 1);
}

#[test]
fn sha256_matches_known_digests() {
    assert_eq!(
        compute_hash(b""),
        "e3b0c44298fc1c149afbf4c8996fb92427ae41e4649b934ca495991b7852b855"
    );
    assert_eq!(
        compute_hash(b"abc"),
        "ba7816bf8f01cfea414140de5dae2223b00361a396177a9cb410ff61f20015ad"
    );
}

#[test]
fn format_size_rounds_to_one_decimal() {
    assert_eq!(format_size(0), "0.0 B");
    assert_eq!(format_size(500), "500.0 B");
    assert_eq!(format_size(1023), "1023.0 B");
    assert_eq!(format_size(1024), "1.0 KB");
    assert_eq!(format_size(1536), "1.5 KB");
    assert_eq!(format_size(10 * 1024 * 1024), "10.0 MB");
    assert_eq!(format_size(3 * 1024 * 1024 * 1024), "3.0 GB");
}

#[test]
fn relative_time_buckets() {
    let now = 1_700_000_000;
    assert_eq!(relative_time(now - 30, now), "30 seconds ago");
    assert_eq!(relative_time(now - 5 * 60, now), "5 minutes ago");
    assert_eq!(relative_time(now - 3 * 3600, now), "3 hours ago");
    assert_eq!(relative_time(now - 2 * 86400, now), "2 days ago");
    assert_eq!(relative_time(now - 2 * 604800, now), "2 weeks ago");
    assert_eq!(relative_time(now - 65 * 86400, now), "2 months ago");
}

#[test]
fn parse_commit_ref_is_identity() {
    assert_eq!(parse_commit_ref("HEAD~1").unwrap(), "HEAD~1");
    assert_eq!(parse_commit_ref("abc1234").unwrap(), "abc1234");
}

#[test]
fn relative_path_strips_base() {
    assert_eq!(relative_path("/v", "/v/domains/a.md"), "domains/a.md");
    assert_eq!(relative_path("/v", "/v"), "");
    assert_eq!(relative_path("/v", "/other/a.md"), "/other/a.md");
    assert_eq!(relative_path("/v", "/vault/a.md"), "/vault/a.md");
    // trailing separators on the base strip at component boundaries,
    // exactly as path-level prefix stripping does
    assert_eq!(relative_path("/", "/a"), "a");
    assert_eq!(relative_path("/v/", "/v/a.md"), "a.md");
    assert_eq!(relative_path("/v/", "/v"), "");
}

#[test]
fn extract_domain_reads_first_segment() {
    assert_eq!(extract_domain_of("domains/x/a.md").unwrap(), "x");
    assert_eq!(extract_domain_of("domains/proj").unwrap(), "proj");
    assert!(extract_domain_of("domains/").is_none());
    assert!(extract_domain_of("domains").is_none());
    assert!(extract_domain_of("notes/x/a.md").is_none());
}

#[test]
fn author_and_priority_display() {
    let h = Author::Human { name: "alice".to_string() };
    assert_eq!(h.display(), "Human (alice)");
    let a = Author::Agent { model: "m1".to_string(), session_id: Some("s".to_string()) };
    assert_eq!(a.display(), "Agent (m1)");
    assert_eq!(Priority::High.display(), "High");
    assert_eq!(Priority::Medium.display(), "Medium");
    assert_eq!(Priority::Low.display(), "Low");
}

fn md(path: &str, content: &str) -> TreeFile {
    TreeFile { path: path.to_string(), content: content.as_bytes().to_vec() }
}

#[test]
fn test_resolve_simple_wikilink() {
    let tree = vec![md("domains/test/notes.md", "# Notes")];
    let result = resolve_wikilink(&tree, "[[notes]]").unwrap();
    assert_eq!(result, "domains/test/notes.md");
}

#[test]
fn test_resolve_path_wikilink() {
    let tree = vec![md("domains/auth/patterns.md", "# Patterns")];
    let result = resolve_wikilink(&tree, "[[auth/patterns]]").unwrap();
    assert_eq!(result, "domains/auth/patterns.md");
}

#[test]
fn wikilink_ambiguity_lists_every_candidate() {
    // Scenario: one match resolves; a second file of the same stem makes
    // the reference ambiguous, and the error carries both paths.
    let mut tree = vec![md("domains/x/a.md", "one")];
    assert_eq!(resolve_wikilink(&tree, "[[a]]").unwrap(), "domains/x/a.md");
    tree.push(md("domains/y/a.md", "two"));
    let err = resolve_wikilink(&tree, "[[a]]").unwrap_err();
    match err {
        gitnu::errors::GitnuError::WikilinkAmbiguous(name, paths) => {
            assert_eq!(name, "a");
            assert_eq!(
                paths,
                vec!["domains/x/a.md".to_string(), "domains/y/a.md".to_string()]
            );
        }
        other => panic!("expected an ambiguity error, got {:?}", other),
    }
}

#[test]
fn wikilink_unknown_reference_fails() {
    let tree = vec![md("domains/x/a.md", "one")];
    let err = resolve_wikilink(&tree, "[[missing]]").unwrap_err();
    assert!(matches!(err, gitnu::errors::GitnuError::WikilinkNotFound(_)));
}

#[test]
fn wikilink_path_form_without_extension() {
    let tree = vec![md("domains/auth/raw", "data")];
    assert_eq!(resolve_wikilink(&tree, "[[auth/raw]]").unwrap(), "domains/auth/raw");
}

#[test]
fn index_load_and_pin_deduplicate() {
    let mut index = Index::default();
    index.load("domains/x/a.md", false);
    index.load("domains/x/a.md", false);
    assert_eq!(index.loaded, vec!["domains/x/a.md".to_string()]);
    index.load("domains/x/b.md", true);
    assert_eq!(index.pinned, vec!["domains/x/b.md".to_string()]);
    index.pin("domains/x/c.md", false);
    assert!(index.pinned.contains(&"domains/x/c.md".to_string()));
    assert!(index.loaded.contains(&"domains/x/c.md".to_string()));
    index.pin("domains/x/d.md", true);
    assert_eq!(index.excluded, vec!["domains/x/d.md".to_string()]);
}

#[test]
fn index_unload_all_keeps_pinned() {
    let mut index = Index::default();
    index.load("domains/x/a.md", false);
    index.load("domains/x/b.md", true);
    index.unload_all();
    assert_eq!(index.loaded, vec!["domains/x/b.md".to_string()]);
    index.unload("domains/x/b.md");
    assert!(index.loaded.is_empty());
    index.unpin("domains/x/b.md");
    assert!(index.pinned.is_empty());
}

#[test]
fn commit_diff_classifies_by_summaries() {
    let base_summary = ContextSummary {
        domains_loaded: vec!["x".to_string()],
        files_modified: vec![],
        files_added: vec!["domains/x/a.md".to_string()],
        files_removed: vec![],
        token_estimate: 10,
    };
    let next_summary = ContextSummary {
        domains_loaded: vec!["x".to_string(), "y".to_string()],
        files_modified: vec!["domains/x/a.md".to_string()],
        files_added: vec!["domains/y/b.md".to_string()],
        files_removed: vec![],
        token_estimate: 25,
    };
    let mk = |s: ContextSummary, h: &str| Commit {
        hash: h.to_string(),
        parent: None,
        timestamp: 0,
        author: Author::Human { name: "u".to_string() },
        message: "m".to_string(),
        context_summary: s,
        snapshot_path: "p".to_string(),
    };
    let a = mk(base_summary, "a");
    let b = mk(next_summary, "b");
    let d = commit_diff(&a, &b);
    assert_eq!(d.added, vec!["domains/y/b.md".to_string()]);
    assert!(d.removed.is_empty());
    assert_eq!(d.modified, vec!["domains/x/a.md".to_string()]);
    assert_eq!(d.token_delta, 15);
    assert_eq!(d.domains_added, vec!["y".to_string()]);
    assert!(d.domains_removed.is_empty());
}

#[test]
fn resolve_target_prefers_branches() {
    let mut storage = Storage::new("vault".to_string());
    storage.init("testvault", 1_700_000_000).unwrap();
    let c = ops::create_initial_commit(&mut storage, "testvault", 1_700_000_000).unwrap();
    let by_branch = resolve_target(&storage, "main").unwrap();
    assert_eq!(by_branch.hash, c.hash);
    let by_hash = resolve_target(&storage, &c.hash[..8]).unwrap();
    assert_eq!(by_hash.hash, c.hash);
    let err = resolve_target(&storage, "nothing").unwrap_err();
    assert!(matches!(err, gitnu::errors::GitnuError::CommitNotFound(_)));
}

#[test]
fn compress_markdown_trims_and_collapses() {
    assert_eq!(compress_markdown("a  \nb\t\n"), "a\nb");
    assert_eq!(compress_markdown("a\n\n\nb"), "a\n\nb");
    assert_eq!(compress_markdown("a\n\n\n\n\nb"), "a\n\n\n\nb");
    assert_eq!(compress_markdown(""), "");
    assert_eq!(compress_markdown("plain"), "plain");
    assert_eq!(compress_markdown("win\r\nline"), "win\nline");
}

#[test]
fn load_context_builds_one_document() {
    let mut storage = Storage::new("vault".to_string());
    storage.init("testvault", 1_700_000_000).unwrap();
    storage.tree.push(md("domains/x/a.md", "alpha"));
    storage.tree.push(TreeFile {
        path: "domains/x/raw.bin".to_string(),
        content: vec![0xFF, 0xFE],
    });
    let mgr = ContextManager::new(storage);
    let doc = mgr.load_context(false);
    assert_eq!(
        doc,
        "\n# File: domains/x/a.md\n\nalpha\n\n\n# File: domains/x/raw.bin\n\n"
    );
    let compressed = mgr.load_context(true);
    assert_eq!(
        compressed,
        "\n# File: domains/x/a.md\n\nalpha\n\n# File: domains/x/raw.bin\n"
    );
}

#[test]
fn default_config_values() {
    let config = gitnu::models::Config::default();
    assert_eq!(config.core.vault_name, "unnamed");
    assert_eq!(config.core.default_branch, "main");
    assert_eq!(config.context.max_tokens, 100_000);
    assert!(!config.context.auto_commit);
    assert!(config.context.compress_snapshots);
    assert_eq!(config.pins.always_load, vec!["domains/_global/agent.md".to_string()]);
}
