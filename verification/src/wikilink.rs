use vstd::prelude::*;
use vstd::string::StrSliceExecFns;
use vstd::string::StringExecFns;
use crate::cloning::DeepClone;
use crate::context::{tree_contains_path, tree_has_path};
use crate::errors::{ErrorV, GitnuError};
use crate::models::{TreeFile, TreeFileV};
use crate::strutil::{find_last_char, str_contains_char, str_eq};

verus! {

/// The reference with every leading `[[` stripped.
pub open spec fn spec_strip_front(s: Seq<char>) -> Seq<char>
    decreases s.len(),
{
    if s.len() >= 2 && s.subrange(0, 2) == "[["@ {
        spec_strip_front(s.skip(2))
    } else {
        s
    }
}

/// The reference with every trailing `]]` stripped.
pub open spec fn spec_strip_back(s: Seq<char>) -> Seq<char>
    decreases s.len(),
{
    if s.len() >= 2 && s.subrange(s.len() - 2, s.len() as int) == "]]"@ {
        spec_strip_back(s.take(s.len() - 2))
    } else {
        s
    }
}

/// The bare name of a bracketed reference: `[[name]]` gives `name`.
pub open spec fn spec_link_name(link: Seq<char>) -> Seq<char> {
    spec_strip_back(spec_strip_front(link))
}

/// The position of the last occurrence of `c` in `s`, or -1.
pub open spec fn spec_last_index_of(s: Seq<char>, c: char) -> int
    decreases s.len(),
{
    if s.len() == 0 {
        -1
    } else if s.last() == c {
        s.len() - 1
    } else {
        spec_last_index_of(s.drop_last(), c)
    }
}

proof fn lemma_last_index_of(s: Seq<char>, c: char)
    ensures
        ({
            let k = spec_last_index_of(s, c);
            &&& -1 <= k < s.len()
            &&& k == -1 ==> forall|j: int| 0 <= j < s.len() ==> s[j] != c
            &&& k >= 0 ==> s[k] == c && (forall|j: int| k < j < s.len() ==> s[j] != c)
        }),
    decreases s.len(),
{
    if s.len() > 0 && s.last() != c {
        lemma_last_index_of(s.drop_last(), c);
        assert(forall|j: int| 0 <= j < s.len() - 1 ==> s.drop_last()[j] == s[j]);
    }
}

/// The file name of a path: whatever follows the last slash.
pub open spec fn spec_file_name(p: Seq<char>) -> Seq<char> {
    p.skip(spec_last_index_of(p, '/') + 1)
}

/// The stem of a path: its file name without the extension after the last
/// dot; a name whose only dot leads it keeps it.
pub open spec fn spec_stem(p: Seq<char>) -> Seq<char> {
    let f = spec_file_name(p);
    let d = spec_last_index_of(f, '.');
    if d > 0 {
        f.take(d)
    } else {
        f
    }
}

/// The paths of the tree's files whose stem equals `name`, in tree order.
pub open spec fn spec_wikilink_matches(tree: Seq<TreeFileV>, name: Seq<char>) -> Seq<Seq<char>>
    decreases tree.len(),
{
    if tree.len() == 0 {
        Seq::empty()
    } else {
        let acc = spec_wikilink_matches(tree.drop_last(), name);
        if spec_stem(tree.last().path) == name {
            acc.push(tree.last().path)
        } else {
            acc
        }
    }
}

/// The outcome of searching the whole tree by stem: no match fails, one
/// match resolves, several are ambiguous and carry all matching paths.
pub open spec fn spec_stem_search(tree: Seq<TreeFileV>, name: Seq<char>) -> Result<
    Seq<char>,
    ErrorV,
> {
    let ms = spec_wikilink_matches(tree, name);
    if ms.len() == 0 {
        Result::Err(ErrorV::WikilinkNotFound(name))
    } else if ms.len() == 1 {
        Result::Ok(ms[0])
    } else {
        Result::Err(ErrorV::WikilinkAmbiguous(name, ms))
    }
}

/// Where a wikilink resolves: a reference with a path separator first tries
/// the literal paths below the content root, with and without the `.md`
/// extension; otherwise, and when neither exists, the tree is searched for
/// files whose stem equals the reference.
pub open spec fn spec_resolve_wikilink(tree: Seq<TreeFileV>, link: Seq<char>) -> Result<
    Seq<char>,
    ErrorV,
> {
    let name = spec_link_name(link);
    if name.contains('/') && tree_has_path(tree, "domains/"@ + name + ".md"@) {
        Result::Ok("domains/"@ + name + ".md"@)
    } else if name.contains('/') && tree_has_path(tree, "domains/"@ + name) {
        Result::Ok("domains/"@ + name)
    } else {
        spec_stem_search(tree, name)
    }
}

/// The stem of a path: the piece between the last slash and the last dot.
fn path_stem<'a>(path: &'a str) -> (r: &'a str)
    ensures
        r@ == spec_stem(path@),
{
    let n = path.unicode_len();
    let start: usize = match find_last_char(path, '/') {
        Some(i) => i + 1,
        None => 0,
    };
    proof {
        lemma_last_index_of(path@, '/');
        assert(spec_last_index_of(path@, '/') == start - 1) by {
            let k = spec_last_index_of(path@, '/');
            if k != start - 1 {
                if k > start - 1 {
                    assert(path@[k] == '/');
                } else {
                    assert(path@[start - 1] == '/');
                }
            }
        }
    }
    let f = path.substring_char(start, n);
    proof {
        assert(f@ =~= spec_file_name(path@));
    }
    let dot: usize = match find_last_char(f, '.') {
        Some(i) => i,
        None => 0,
    };
    proof {
        lemma_last_index_of(f@, '.');
    }
    let has_dot = str_contains_char(f, '.');
    if has_dot && dot > 0 {
        proof {
            let k = spec_last_index_of(f@, '.');
            assert(k == dot) by {
                if k != dot {
                    if k > dot {
                        assert(f@[k] == '.');
                    } else {
                        assert(f@[dot as int] == '.');
                    }
                }
            }
        }
        f.substring_char(0, dot)
    } else {
        proof {
            let k = spec_last_index_of(f@, '.');
            if !f@.contains('.') {
                if k >= 0 {
                    assert(f@[k] == '.');
                    assert(f@.contains('.'));
                }
            } else {
                assert(k == dot) by {
                    if k != dot {
                        if k > dot {
                            assert(f@[k] == '.');
                        } else {
                            assert(f@[dot as int] == '.');
                        }
                    }
                }
            }
        }
        f
    }
}

/// Resolves a bracketed reference to the path of a file of the tree: a
/// reference with a separator is tried literally below the content root,
/// first with `.md` appended; otherwise every file whose name without
/// extension equals the reference is a candidate, and only a single
/// candidate resolves.
pub fn resolve_wikilink(tree: &Vec<TreeFile>, link: &str) -> (r: Result<String, GitnuError>)
    ensures
        match r {
            Ok(p) => spec_resolve_wikilink(tree.deep_view(), link@) == Result::<
                Seq<char>,
                ErrorV,
            >::Ok(p@),
            Err(e) => spec_resolve_wikilink(tree.deep_view(), link@) == Result::<
                Seq<char>,
                ErrorV,
            >::Err(e@),
        },
{
    let ghost tv = tree.deep_view();
    let n = link.unicode_len();
    let mut lo: usize = 0;
    proof {
        reveal_strlit("[[");
        reveal_strlit("]]");
        assert(link@.skip(0) =~= link@);
    }
    while n - lo >= 2 && link.get_char(lo) == '[' && link.get_char(lo + 1) == '['
        invariant
            0 <= lo <= n,
            n == link@.len(),
            "[["@ =~= seq!['[', '['],
            "]]"@ =~= seq![']', ']'],
            spec_strip_front(link@) == spec_strip_front(link@.skip(lo as int)),
        decreases n - lo,
    {
        proof {
            let w = link@.skip(lo as int);
            assert(w.len() >= 2);
            assert(w.subrange(0, 2) =~= seq![link@[lo as int], link@[lo as int + 1]]);
            assert(w.subrange(0, 2) == "[["@);
            assert(w.skip(2) =~= link@.skip(lo as int + 2));
        }
        lo += 2;
    }
    proof {
        let w = link@.skip(lo as int);
        if w.len() >= 2 {
            assert(link@[lo as int] == w[0]);
            assert(link@[lo as int + 1] == w[1]);
            if w.subrange(0, 2) == "[["@ {
                assert(w.subrange(0, 2)[0] == '[' && w.subrange(0, 2)[1] == '[');
                assert(false);
            }
        }
        assert(spec_strip_front(link@) == link@.skip(lo as int));
    }
    let mut hi: usize = n;
    while hi - lo >= 2 && link.get_char(hi - 1) == ']' && link.get_char(hi - 2) == ']'
        invariant
            0 <= lo <= hi <= n,
            n == link@.len(),
            "[["@ =~= seq!['[', '['],
            "]]"@ =~= seq![']', ']'],
            spec_strip_front(link@) == link@.skip(lo as int),
            spec_strip_back(link@.skip(lo as int)) == spec_strip_back(
                link@.subrange(lo as int, hi as int),
            ),
        decreases hi,
    {
        proof {
            let w = link@.subrange(lo as int, hi as int);
            assert(w.len() >= 2);
            assert(w.subrange(w.len() - 2, w.len() as int) =~= seq![
                link@[hi as int - 2],
                link@[hi as int - 1],
            ]);
            assert(w.subrange(w.len() - 2, w.len() as int) == "]]"@);
            assert(w.take(w.len() - 2) =~= link@.subrange(lo as int, hi as int - 2));
        }
        hi -= 2;
    }
    proof {
        let w = link@.subrange(lo as int, hi as int);
        if w.len() >= 2 {
            assert(link@[hi as int - 2] == w[w.len() - 2]);
            assert(link@[hi as int - 1] == w[w.len() - 1]);
            if w.subrange(w.len() - 2, w.len() as int) == "]]"@ {
                assert(w.subrange(w.len() - 2, w.len() as int)[0] == ']');
                assert(w.subrange(w.len() - 2, w.len() as int)[1] == ']');
                assert(false);
            }
        }
        assert(spec_link_name(link@) == link@.subrange(lo as int, hi as int));
    }
    let name = link.substring_char(lo, hi);
    proof {
        assert(name@ == spec_link_name(link@));
    }
    if str_contains_char(name, '/') {
        proof {
            reveal_strlit("domains/");
            reveal_strlit(".md");
        }
        let cand1 = String::from_str("domains/").concat(name).concat(".md");
        if tree_contains_path(tree, cand1.as_str()) {
            return Ok(cand1);
        }
        let cand2 = String::from_str("domains/").concat(name);
        if tree_contains_path(tree, cand2.as_str()) {
            return Ok(cand2);
        }
    }
    let mut matches: Vec<String> = Vec::new();
    let count = tree.len();
    let mut i: usize = 0;
    proof {
        assert(tv.subrange(0, 0) =~= Seq::<TreeFileV>::empty());
    }
    while i < count
        invariant
            0 <= i <= count,
            count == tree@.len(),
            tv == tree.deep_view(),
            name@ == spec_link_name(link@),
            matches.deep_view() == spec_wikilink_matches(tv.subrange(0, i as int), name@),
        decreases count - i,
    {
        let ghost pre = matches.deep_view();
        proof {
            assert(tv[i as int] == tree@[i as int].deep_view());
            assert(tv.subrange(0, i + 1).drop_last() =~= tv.subrange(0, i as int));
            assert(tv.subrange(0, i + 1).last() == tv[i as int]);
        }
        let stem = path_stem(tree[i].path.as_str());
        if str_eq(stem, name) {
            matches.push(tree[i].path.clone());
            proof {
                assert(matches.deep_view() =~= pre.push(tv[i as int].path));
            }
        }
        i += 1;
    }
    proof {
        assert(tv.subrange(0, count as int) =~= tv);
    }
    if matches.len() == 0 {
        Err(GitnuError::WikilinkNotFound(name.to_owned()))
    } else if matches.len() == 1 {
        let p = matches[0].clone();
        proof {
            assert(p@ == spec_wikilink_matches(tv, name@)[0]);
        }
        Ok(p)
    } else {
        Err(GitnuError::WikilinkAmbiguous(name.to_owned(), matches))
    }
}

} // verus!
