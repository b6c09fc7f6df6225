use vstd::prelude::*;
use vstd::string::StrSliceExecFns;
use crate::strutil::push_char;

verus! {

/// Whether a character counts as trailing whitespace, following the
/// Unicode white-space property.
pub open spec fn spec_is_ws(c: char) -> bool {
    let u = c as u32;
    (0x09 <= u && u <= 0x0D) || u == 0x20 || u == 0x85 || u == 0xA0 || u == 0x1680 || (0x2000
        <= u && u <= 0x200A) || u == 0x2028 || u == 0x2029 || u == 0x202F || u == 0x205F || u
        == 0x3000
}

fn is_ws(c: char) -> (r: bool)
    ensures
        r == spec_is_ws(c),
{
    let u = c as u32;
    (0x09 <= u && u <= 0x0D) || u == 0x20 || u == 0x85 || u == 0xA0 || u == 0x1680 || (0x2000
        <= u && u <= 0x200A) || u == 0x2028 || u == 0x2029 || u == 0x202F || u == 0x205F || u
        == 0x3000
}

/// The position of the first newline, or the length if there is none.
pub open spec fn spec_first_nl(s: Seq<char>) -> int
    decreases s.len(),
{
    if s.len() == 0 {
        0
    } else if s.first() == '\n' {
        0
    } else {
        1 + spec_first_nl(s.drop_first())
    }
}

proof fn lemma_first_nl(s: Seq<char>)
    ensures
        ({
            let i = spec_first_nl(s);
            &&& 0 <= i <= s.len()
            &&& i < s.len() ==> s[i] == '\n'
            &&& forall|j: int| 0 <= j < i ==> s[j] != '\n'
        }),
    decreases s.len(),
{
    if s.len() > 0 && s.first() != '\n' {
        lemma_first_nl(s.drop_first());
        assert(forall|j: int| 0 <= j < s.len() - 1 ==> s.drop_first()[j] == s[j + 1]);
        let i = spec_first_nl(s);
        let ip = spec_first_nl(s.drop_first());
        assert(i == 1 + ip);
        if ip < s.len() - 1 {
            assert(s.drop_first()[ip] == '\n');
            assert(s[ip + 1] == '\n');
        }
        assert forall|j: int| 0 <= j < i implies s[j] != '\n' by {
            if j > 0 {
                assert(s.drop_first()[j - 1] != '\n');
            }
        }
    }
}

/// A line piece with one carriage return stripped from its end, as a
/// Windows line ending leaves one.
pub open spec fn spec_chomp_cr(p: Seq<char>) -> Seq<char> {
    if p.len() > 0 && p.last() == '\r' {
        p.drop_last()
    } else {
        p
    }
}

/// The pieces between newlines, each with a trailing carriage return
/// stripped; the piece after the last newline is kept as it stands.
pub open spec fn spec_split_lines(s: Seq<char>) -> Seq<Seq<char>>
    decreases s.len(),
{
    let i = spec_first_nl(s);
    if 0 <= i && i < s.len() {
        seq![spec_chomp_cr(s.take(i))] + spec_split_lines(s.skip(i + 1))
    } else {
        seq![s]
    }
}

proof fn lemma_split_lines_len(s: Seq<char>)
    ensures
        spec_split_lines(s).len() >= 1,
    decreases s.len(),
{
    let i = spec_first_nl(s);
    lemma_first_nl(s);
    if 0 <= i && i < s.len() {
        lemma_split_lines_len(s.skip(i + 1));
    }
}

/// The lines of a text, as the standard library's line iterator yields
/// them: split at newlines, a carriage return before each newline
/// stripped, and no empty line for a final newline.
pub open spec fn spec_lines(s: Seq<char>) -> Seq<Seq<char>> {
    if s.len() == 0 {
        Seq::empty()
    } else if s.last() == '\n' {
        spec_split_lines(s).drop_last()
    } else {
        spec_split_lines(s)
    }
}

/// A line with its trailing whitespace removed.
pub open spec fn spec_trim_end(p: Seq<char>) -> Seq<char>
    decreases p.len(),
{
    if p.len() > 0 && spec_is_ws(p.last()) {
        spec_trim_end(p.drop_last())
    } else {
        p
    }
}

proof fn lemma_trim_end_take(p: Seq<char>, k: int)
    requires
        0 <= k <= p.len(),
        forall|j: int| k <= j < p.len() ==> spec_is_ws(p[j]),
        k > 0 ==> !spec_is_ws(p[k - 1]),
    ensures
        spec_trim_end(p) == p.take(k),
    decreases p.len(),
{
    if p.len() == k {
        assert(p.take(k) =~= p);
        if p.len() > 0 {
            assert(p.last() == p[k - 1]);
        }
    } else {
        assert(spec_is_ws(p.last()));
        lemma_trim_end_take(p.drop_last(), k);
        assert(p.drop_last().take(k) =~= p.take(k));
    }
}

/// Lines joined back with single newlines.
pub open spec fn spec_join_nl(ps: Seq<Seq<char>>) -> Seq<char>
    decreases ps.len(),
{
    if ps.len() == 0 {
        Seq::empty()
    } else if ps.len() == 1 {
        ps.first()
    } else {
        ps.first() + seq!['\n'] + spec_join_nl(ps.drop_first())
    }
}

proof fn lemma_join_nl_push(ps: Seq<Seq<char>>, p: Seq<char>)
    ensures
        spec_join_nl(ps.push(p)) == (if ps.len() == 0 {
            p
        } else {
            spec_join_nl(ps) + seq!['\n'] + p
        }),
    decreases ps.len(),
{
    if ps.len() == 0 {
        assert(ps.push(p).len() == 1);
        assert(ps.push(p).first() == p);
    } else {
        assert(ps.push(p).first() == ps.first());
        assert(ps.push(p).drop_first() =~= ps.drop_first().push(p));
        lemma_join_nl_push(ps.drop_first(), p);
        if ps.len() == 1 {
            assert(spec_join_nl(ps.drop_first().push(p)) == p);
            assert(spec_join_nl(ps) == ps.first());
        } else {
            assert(spec_join_nl(ps) == ps.first() + seq!['\n'] + spec_join_nl(ps.drop_first()));
            assert(ps.first() + seq!['\n'] + (spec_join_nl(ps.drop_first()) + seq!['\n'] + p)
                =~= (ps.first() + seq!['\n'] + spec_join_nl(ps.drop_first())) + seq!['\n'] + p);
        }
    }
}

/// Every exact run of three newlines replaced, left to right, by two.
pub open spec fn spec_collapse(s: Seq<char>) -> Seq<char>
    decreases s.len(),
{
    if s.len() >= 3 && s[0] == '\n' && s[1] == '\n' && s[2] == '\n' {
        seq!['\n', '\n'] + spec_collapse(s.skip(3))
    } else if s.len() > 0 {
        seq![s.first()] + spec_collapse(s.drop_first())
    } else {
        s
    }
}

/// Markdown compression: every line loses its trailing whitespace, and
/// each exact triple newline becomes a double one.
pub open spec fn spec_compress_markdown(s: Seq<char>) -> Seq<char> {
    spec_collapse(spec_join_nl(spec_lines(s).map_values(|p: Seq<char>| spec_trim_end(p))))
}

fn split_lines_exec(s: &str) -> (r: Vec<String>)
    ensures
        r.deep_view() == spec_split_lines(s@),
{
    let n = s.unicode_len();
    let mut parts: Vec<String> = Vec::new();
    let mut pos: usize = 0;
    proof {
        assert(s@.skip(0) =~= s@);
    }
    loop
        invariant_except_break
            0 <= pos <= n,
            n == s@.len(),
            spec_split_lines(s@) == parts.deep_view() + spec_split_lines(s@.skip(pos as int)),
        ensures
            parts.deep_view() == spec_split_lines(s@),
        decreases n - pos,
    {
        let mut j: usize = pos;
        while j < n && s.get_char(j) != '\n'
            invariant
                pos <= j <= n,
                n == s@.len(),
                forall|k: int| pos <= k < j ==> s@[k] != '\n',
            decreases n - j,
        {
            j += 1;
        }
        let ghost w = s@.skip(pos as int);
        proof {
            lemma_first_nl(w);
            assert(forall|k: int| 0 <= k < w.len() ==> w[k] == s@[pos + k]);
            let i = spec_first_nl(w);
            if j < n {
                assert(s@[j as int] == '\n');
                assert(i == j - pos) by {
                    if i < j - pos {
                        assert(w[i] == '\n');
                        assert(s@[pos + i] != '\n');
                    }
                    if i > j - pos {
                        assert(w[j - pos] != '\n');
                    }
                }
            } else {
                assert(i == w.len()) by {
                    if i < w.len() {
                        assert(w[i] == '\n');
                        assert(s@[pos + i] != '\n');
                    }
                }
            }
        }
        if j >= n {
            let ghost pre = parts.deep_view();
            parts.push(s.substring_char(pos, n).to_owned());
            proof {
                assert(spec_split_lines(w) =~= seq![w]);
                assert(parts.deep_view() =~= pre.push(w));
                assert(pre + seq![w] =~= parts.deep_view());
                assert(parts.deep_view() =~= spec_split_lines(s@));
            }
            break ;
        }
        let end: usize = if j > pos && s.get_char(j - 1) == '\r' {
            j - 1
        } else {
            j
        };
        let ghost pre = parts.deep_view();
        let piece = s.substring_char(pos, end);
        parts.push(piece.to_owned());
        proof {
            assert(w.take(j - pos) =~= s@.subrange(pos as int, j as int));
            if j > pos && s@[j - 1] == '\r' {
                assert(w.take(j - pos).last() == '\r');
                assert(spec_chomp_cr(w.take(j - pos)) =~= s@.subrange(pos as int, end as int));
            } else {
                assert(spec_chomp_cr(w.take(j - pos)) =~= s@.subrange(pos as int, end as int));
            }
            assert(piece@ == spec_chomp_cr(w.take(j - pos)));
            assert(w.skip(j - pos + 1) =~= s@.skip(j + 1));
            assert(spec_split_lines(w) == seq![spec_chomp_cr(w.take(j - pos))]
                + spec_split_lines(w.skip(j - pos + 1)));
            assert(parts.deep_view() =~= pre.push(piece@));
            assert(pre + (seq![piece@] + spec_split_lines(s@.skip(j + 1))) =~= (pre + seq![
                piece@,
            ]) + spec_split_lines(s@.skip(j + 1)));
            assert(pre + seq![piece@] =~= parts.deep_view());
        }
        pos = j + 1;
    }
    parts
}

fn trim_end_exec(p: &str) -> (r: &str)
    ensures
        r@ == spec_trim_end(p@),
{
    let n = p.unicode_len();
    let mut k: usize = n;
    while k > 0 && is_ws(p.get_char(k - 1))
        invariant
            0 <= k <= n,
            n == p@.len(),
            forall|j: int| k <= j < n ==> spec_is_ws(p@[j]),
        decreases k,
    {
        k -= 1;
    }
    proof {
        lemma_trim_end_take(p@, k as int);
    }
    p.substring_char(0, k)
}

fn collapse_exec(s: &str) -> (r: String)
    ensures
        r@ == spec_collapse(s@),
{
    let n = s.unicode_len();
    let mut out = String::new();
    let mut i: usize = 0;
    proof {
        assert(s@.skip(0) =~= s@);
    }
    while i < n
        invariant
            0 <= i <= n,
            n == s@.len(),
            spec_collapse(s@) == out@ + spec_collapse(s@.skip(i as int)),
        decreases n - i,
    {
        let ghost w = s@.skip(i as int);
        proof {
            assert(forall|k: int| 0 <= k < w.len() ==> w[k] == s@[i + k]);
        }
        if n - i >= 3 && s.get_char(i) == '\n' && s.get_char(i + 1) == '\n' && s.get_char(i + 2)
            == '\n' {
            push_char(&mut out, '\n');
            push_char(&mut out, '\n');
            proof {
                assert(w.len() >= 3 && w[0] == '\n' && w[1] == '\n' && w[2] == '\n');
                assert(spec_collapse(w) == seq!['\n', '\n'] + spec_collapse(w.skip(3)));
                assert(w.skip(3) =~= s@.skip(i + 3));
                assert(out@ =~= (out@.drop_last().drop_last()) + seq!['\n', '\n']);
                assert(out@ + spec_collapse(s@.skip(i + 3)) =~= (out@.drop_last().drop_last()) + (
                seq!['\n', '\n'] + spec_collapse(s@.skip(i + 3))));
            }
            i += 3;
        } else {
            let c = s.get_char(i);
            push_char(&mut out, c);
            proof {
                assert(w.len() > 0 && w.first() == s@[i as int]);
                if w.len() >= 3 && w[0] == '\n' && w[1] == '\n' && w[2] == '\n' {
                    assert(false);
                }
                assert(spec_collapse(w) == seq![w.first()] + spec_collapse(w.drop_first()));
                assert(w.drop_first() =~= s@.skip(i + 1));
                assert(out@ =~= out@.drop_last() + seq![s@[i as int]]);
                assert(out@ + spec_collapse(s@.skip(i + 1)) =~= out@.drop_last() + (seq![
                    s@[i as int],
                ] + spec_collapse(s@.skip(i + 1))));
            }
            i += 1;
        }
    }
    proof {
        assert(s@.skip(n as int) =~= Seq::<char>::empty());
        assert(out@ + spec_collapse(s@.skip(n as int)) =~= out@);
    }
    out
}

/// Lightly compresses a markdown document: trailing whitespace leaves
/// every line, and blank stretches of two empty lines shrink to one.
pub fn compress_markdown(content: &str) -> (r: String)
    ensures
        r@ == spec_compress_markdown(content@),
{
    let mut parts = split_lines_exec(content);
    let is_empty = content.is_empty();
    let ends_nl = if is_empty {
        false
    } else {
        content.get_char(content.unicode_len() - 1) == '\n'
    };
    if is_empty {
        parts.clear();
        proof {
            assert(parts.deep_view() =~= spec_lines(content@));
        }
    } else if ends_nl {
        proof {
            lemma_split_lines_len(content@);
        }
        let ghost pre = parts.deep_view();
        parts.pop();
        proof {
            assert(parts.deep_view() =~= pre.drop_last());
        }
    }
    proof {
        assert(parts.deep_view() == spec_lines(content@));
    }
    let ghost lines = parts.deep_view();
    let mut trimmed: Vec<String> = Vec::new();
    let n = parts.len();
    let mut i: usize = 0;
    while i < n
        invariant
            0 <= i <= n,
            n == parts@.len(),
            lines == parts.deep_view(),
            trimmed.deep_view().len() == i,
            forall|j: int|
                0 <= j < i ==> trimmed.deep_view()[j] == spec_trim_end(lines[j]),
        decreases n - i,
    {
        let ghost pre = trimmed.deep_view();
        let t = trim_end_exec(parts[i].as_str());
        trimmed.push(t.to_owned());
        proof {
            assert(lines[i as int] == parts@[i as int].deep_view());
            assert(trimmed.deep_view() =~= pre.push(spec_trim_end(lines[i as int])));
        }
        i += 1;
    }
    proof {
        assert(trimmed.deep_view() =~= lines.map_values(|p: Seq<char>| spec_trim_end(p)));
    }
    let ghost tlines = trimmed.deep_view();
    let mut joined = String::new();
    let m = trimmed.len();
    let mut k: usize = 0;
    while k < m
        invariant
            0 <= k <= m,
            m == trimmed@.len(),
            tlines == trimmed.deep_view(),
            joined@ == spec_join_nl(tlines.subrange(0, k as int)),
        decreases m - k,
    {
        if k > 0 {
            push_char(&mut joined, '\n');
        }
        let ghost pre = joined@;
        joined.append(trimmed[k].as_str());
        proof {
            assert(tlines.subrange(0, k + 1) =~= tlines.subrange(0, k as int).push(
                tlines[k as int],
            ));
            lemma_join_nl_push(tlines.subrange(0, k as int), tlines[k as int]);
            assert(tlines[k as int] == trimmed@[k as int].deep_view());
            if k == 0 {
                assert(joined@ =~= tlines[0]);
            } else {
                assert(joined@ =~= spec_join_nl(tlines.subrange(0, k as int)) + seq!['\n']
                    + tlines[k as int]);
            }
        }
        k += 1;
    }
    proof {
        assert(tlines.subrange(0, m as int) =~= tlines);
    }
    collapse_exec(joined.as_str())
}

} // verus!
