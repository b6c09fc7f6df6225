use vstd::prelude::*;
use crate::cloning::{clone_vec, DeepClone};
use crate::context::{spec_prev_of, spec_summary, spec_text_len, summary_for};
use crate::errors::{ErrorV, GitnuError};
use crate::models::{Commit, CommitV, ContextSummary, ContextSummaryV};
use crate::storage::{ref_lookup, spec_find_commit_query, Storage};
use crate::strutil::vec_contains_string;

verus! {

/// The commit a diff endpoint names: a branch name resolves through its
/// reference first, anything else is tried as a commit hash prefix.
pub open spec fn spec_resolve_target(s: Storage, target: Seq<char>) -> Option<CommitV> {
    match ref_lookup(s.refs.deep_view(), target) {
        Some(h) => match spec_find_commit_query(s.refs.deep_view(), s.logs.deep_view(), h) {
            Some(c) => Some(c),
            None => spec_find_commit_query(s.refs.deep_view(), s.logs.deep_view(), target),
        },
        None => spec_find_commit_query(s.refs.deep_view(), s.logs.deep_view(), target),
    }
}

/// Resolves a diff endpoint: a branch name or a commit hash prefix.
pub fn resolve_target(storage: &Storage, target: &str) -> (r: Result<Commit, GitnuError>)
    ensures
        match r {
            Ok(c) => spec_resolve_target(*storage, target@) == Some(c@),
            Err(e) => {
                &&& spec_resolve_target(*storage, target@) is None
                &&& e@ == ErrorV::CommitNotFound(target@)
            },
        },
{
    match storage.read_branch_ref(target) {
        Some(h) => {
            match storage.find_commit(h.as_str()) {
                Some(c) => {
                    return Ok(c);
                },
                None => {},
            }
        },
        None => {},
    }
    match storage.find_commit(target) {
        Some(c) => Ok(c),
        None => Err(GitnuError::CommitNotFound(target.to_owned())),
    }
}

/// The changes of the working tree against the head commit, and how many
/// tokens the context grew or shrank by.
pub fn working_diff(storage: &Storage, head_commit: &Commit) -> (r: (ContextSummary, i128))
    requires
        spec_text_len(storage.tree.deep_view()) <= usize::MAX,
    ensures
        r.0@ == spec_summary(
            storage.tree.deep_view(),
            spec_prev_of(*storage, Some(head_commit@)),
        ),
        r.1 as int == r.0@.token_estimate - head_commit@.context_summary.token_estimate,
{
    let summary = summary_for(storage, Some(head_commit));
    let delta: i128 = summary.token_estimate as i128
        - head_commit.context_summary.token_estimate as i128;
    (summary, delta)
}

/// The files a summary reports as part of its context: added, then
/// modified.
pub open spec fn spec_chain(s: ContextSummaryV) -> Seq<Seq<char>> {
    s.files_added + s.files_modified
}

/// The entries of `xs` that `ys` does not hold, in their order in `xs`.
pub open spec fn spec_not_in(xs: Seq<Seq<char>>, ys: Seq<Seq<char>>) -> Seq<Seq<char>>
    decreases xs.len(),
{
    if xs.len() == 0 {
        Seq::empty()
    } else {
        let acc = spec_not_in(xs.drop_last(), ys);
        if ys.contains(xs.last()) {
            acc
        } else {
            acc.push(xs.last())
        }
    }
}

/// The entries of `xs` that `ys` also holds, in their order in `xs`.
pub open spec fn spec_also_in(xs: Seq<Seq<char>>, ys: Seq<Seq<char>>) -> Seq<Seq<char>>
    decreases xs.len(),
{
    if xs.len() == 0 {
        Seq::empty()
    } else {
        let acc = spec_also_in(xs.drop_last(), ys);
        if ys.contains(xs.last()) {
            acc.push(xs.last())
        } else {
            acc
        }
    }
}

/// What changed between two commits' contexts, read off their embedded
/// summaries: files only in the target are added, files only in the source
/// are removed, files in both count as modified; domains likewise; and the
/// token estimates' difference.
pub struct DiffReport {
    pub added: Vec<String>,
    pub removed: Vec<String>,
    pub modified: Vec<String>,
    pub token_delta: i128,
    pub domains_added: Vec<String>,
    pub domains_removed: Vec<String>,
}

fn keep_not_in(xs: &Vec<String>, ys: &Vec<String>) -> (r: Vec<String>)
    ensures
        r.deep_view() == spec_not_in(xs.deep_view(), ys.deep_view()),
{
    let ghost xv = xs.deep_view();
    let mut out: Vec<String> = Vec::new();
    let n = xs.len();
    let mut i: usize = 0;
    proof {
        assert(xv.subrange(0, 0) =~= Seq::<Seq<char>>::empty());
    }
    while i < n
        invariant
            0 <= i <= n,
            n == xs@.len(),
            xv == xs.deep_view(),
            out.deep_view() == spec_not_in(xv.subrange(0, i as int), ys.deep_view()),
        decreases n - i,
    {
        let ghost pre = out.deep_view();
        proof {
            assert(xv[i as int] == xs@[i as int].deep_view());
            assert(xv.subrange(0, i + 1).drop_last() =~= xv.subrange(0, i as int));
            assert(xv.subrange(0, i + 1).last() == xv[i as int]);
        }
        if !vec_contains_string(ys, xs[i].as_str()) {
            out.push(xs[i].clone());
            proof {
                assert(out.deep_view() =~= pre.push(xv[i as int]));
            }
        }
        i += 1;
    }
    proof {
        assert(xv.subrange(0, n as int) =~= xv);
    }
    out
}

fn keep_also_in(xs: &Vec<String>, ys: &Vec<String>) -> (r: Vec<String>)
    ensures
        r.deep_view() == spec_also_in(xs.deep_view(), ys.deep_view()),
{
    let ghost xv = xs.deep_view();
    let mut out: Vec<String> = Vec::new();
    let n = xs.len();
    let mut i: usize = 0;
    proof {
        assert(xv.subrange(0, 0) =~= Seq::<Seq<char>>::empty());
    }
    while i < n
        invariant
            0 <= i <= n,
            n == xs@.len(),
            xv == xs.deep_view(),
            out.deep_view() == spec_also_in(xv.subrange(0, i as int), ys.deep_view()),
        decreases n - i,
    {
        let ghost pre = out.deep_view();
        proof {
            assert(xv[i as int] == xs@[i as int].deep_view());
            assert(xv.subrange(0, i + 1).drop_last() =~= xv.subrange(0, i as int));
            assert(xv.subrange(0, i + 1).last() == xv[i as int]);
        }
        if vec_contains_string(ys, xs[i].as_str()) {
            out.push(xs[i].clone());
            proof {
                assert(out.deep_view() =~= pre.push(xv[i as int]));
            }
        }
        i += 1;
    }
    proof {
        assert(xv.subrange(0, n as int) =~= xv);
    }
    out
}

fn chain_files(summary: &ContextSummary) -> (r: Vec<String>)
    ensures
        r.deep_view() == spec_chain(summary@),
{
    let mut out = clone_vec(&summary.files_added);
    let mut modified = clone_vec(&summary.files_modified);
    let ghost pre = out.deep_view();
    let ghost prem = modified.deep_view();
    out.append(&mut modified);
    proof {
        assert(out.deep_view() =~= pre + prem);
    }
    out
}

/// Compares two commits' contexts by their embedded summaries.
pub fn commit_diff(source: &Commit, target: &Commit) -> (r: DiffReport)
    ensures
        ({
            let sc = spec_chain(source@.context_summary);
            let tc = spec_chain(target@.context_summary);
            &&& r.added.deep_view() == spec_not_in(tc, sc)
            &&& r.removed.deep_view() == spec_not_in(sc, tc)
            &&& r.modified.deep_view() == spec_also_in(sc, tc)
            &&& r.token_delta as int == target@.context_summary.token_estimate
                - source@.context_summary.token_estimate
            &&& r.domains_added.deep_view() == spec_not_in(
                target@.context_summary.domains_loaded,
                source@.context_summary.domains_loaded,
            )
            &&& r.domains_removed.deep_view() == spec_not_in(
                source@.context_summary.domains_loaded,
                target@.context_summary.domains_loaded,
            )
        }),
{
    let source_files = chain_files(&source.context_summary);
    let target_files = chain_files(&target.context_summary);
    let added = keep_not_in(&target_files, &source_files);
    let removed = keep_not_in(&source_files, &target_files);
    let modified = keep_also_in(&source_files, &target_files);
    let token_delta: i128 = target.context_summary.token_estimate as i128
        - source.context_summary.token_estimate as i128;
    let domains_added = keep_not_in(
        &target.context_summary.domains_loaded,
        &source.context_summary.domains_loaded,
    );
    let domains_removed = keep_not_in(
        &source.context_summary.domains_loaded,
        &target.context_summary.domains_loaded,
    );
    DiffReport { added, removed, modified, token_delta, domains_added, domains_removed }
}

} // verus!
