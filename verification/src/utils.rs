use vstd::prelude::*;
use vstd::string::StringSliceAdditionalSpecFns;
use vstd::string::StrSliceExecFns;
use vstd::string::StringExecFns;
use crate::errors::GitnuError;
use crate::strutil::{
    append_i64, append_u64, is_prefix_of, push_char, spec_dec, spec_dec_i64, str_eq,
    str_starts_with,
};

verus! {

/// Token estimate for a corpus: one token per four bytes of text.
/// This fixed linear heuristic stands in for a real tokenizer.
pub fn estimate_tokens(content: &str) -> (r: usize)
    ensures
        r == content.spec_bytes().len() as usize / 4,
{
    content.len() / 4
}

/// Accepts the reference as given; resolving it against the commit graph is
/// the caller's task.
pub fn parse_commit_ref(reference: &str) -> (r: Result<String, GitnuError>)
    ensures
        r matches Ok(s) && s@ == reference@,
{
    Ok(reference.to_owned())
}

/// A path with every trailing separator removed, so that prefix stripping
/// works at component boundaries whatever form the base was given in.
pub open spec fn spec_strip_trailing_slashes(s: Seq<char>) -> Seq<char>
    decreases s.len(),
{
    if s.len() > 0 && s.last() == '/' {
        spec_strip_trailing_slashes(s.drop_last())
    } else {
        s
    }
}

proof fn lemma_strip_slashes_take(s: Seq<char>, k: int)
    requires
        0 <= k <= s.len(),
        forall|j: int| k <= j < s.len() ==> s[j] == '/',
        k > 0 ==> s[k - 1] != '/',
    ensures
        spec_strip_trailing_slashes(s) == s.take(k),
    decreases s.len(),
{
    if s.len() == k {
        assert(s.take(k) =~= s);
        if s.len() > 0 {
            assert(s.last() == s[k - 1]);
        }
    } else {
        assert(s.last() == '/');
        lemma_strip_slashes_take(s.drop_last(), k);
        assert(s.drop_last().take(k) =~= s.take(k));
    }
}

/// The path `target` relative to `base`: the remainder behind `base` (its
/// trailing separators ignored) and one separator, the empty path where the
/// two coincide, or `target` unchanged where `base` is no prefix of it at a
/// component boundary.
pub open spec fn spec_relative_path(base: Seq<char>, target: Seq<char>) -> Seq<char> {
    let b = spec_strip_trailing_slashes(base);
    if target == b {
        Seq::empty()
    } else if is_prefix_of(b + "/"@, target) {
        target.skip(b.len() + "/"@.len() as int)
    } else {
        target
    }
}

pub fn relative_path(base: &str, target: &str) -> (r: String)
    ensures
        r@ == spec_relative_path(base@, target@),
{
    proof {
        reveal_strlit("/");
    }
    let mut k: usize = base.unicode_len();
    while k > 0 && base.get_char(k - 1) == '/'
        invariant
            0 <= k <= base@.len(),
            forall|j: int| k <= j < base@.len() ==> base@[j] == '/',
        decreases k,
    {
        k -= 1;
    }
    proof {
        lemma_strip_slashes_take(base@, k as int);
    }
    let trimmed = base.substring_char(0, k);
    if str_eq(trimmed, target) {
        return String::new();
    }
    let joined = trimmed.to_owned().concat("/");
    if str_starts_with(target, joined.as_str()) {
        let n = target.unicode_len();
        let m = joined.as_str().unicode_len();
        let rest = target.substring_char(m, n);
        proof {
            assert(rest@ =~= target@.skip(trimmed@.len() as int + 1));
        }
        rest.to_owned()
    } else {
        target.to_owned()
    }
}

/// The power of 1024 a size unit stands for.
pub open spec fn spec_pow1024(k: int) -> int {
    if k == 0 {
        1
    } else if k == 1 {
        1024
    } else if k == 2 {
        1048576
    } else {
        1073741824
    }
}

/// The unit a byte count is shown under: the largest of B, KB, MB, GB whose
/// scale the count reaches.
pub open spec fn spec_size_unit(size: int) -> int {
    if size >= 1073741824 {
        3
    } else if size >= 1048576 {
        2
    } else if size >= 1024 {
        1
    } else {
        0
    }
}

/// The label of a size unit.
pub open spec fn spec_unit_label(k: int) -> Seq<char> {
    if k == 0 {
        "B"@
    } else if k == 1 {
        "KB"@
    } else if k == 2 {
        "MB"@
    } else {
        "GB"@
    }
}

/// `num / den`, rounded to the nearest integer, ties to even.
pub open spec fn spec_round_half_even(num: int, den: int) -> int {
    let q = num / den;
    let r = num % den;
    if 2 * r > den {
        q + 1
    } else if 2 * r < den {
        q
    } else if q % 2 == 0 {
        q
    } else {
        q + 1
    }
}

/// A byte count in human-readable form: scaled by the largest unit it
/// reaches, shown with one decimal digit, rounded to nearest with ties to
/// even, and the unit label.
pub open spec fn spec_format_size(size: int) -> Seq<char> {
    let k = spec_size_unit(size);
    let tenths = spec_round_half_even(size * 10, spec_pow1024(k));
    spec_dec(tenths / 10) + seq!['.'] + spec_dec(tenths % 10) + seq![' '] + spec_unit_label(k)
}

pub fn format_size(size: u64) -> (r: String)
    ensures
        r@ == spec_format_size(size as int),
{
    let (divisor, unit): (u64, &'static str) = if size >= 1073741824 {
        (1073741824, "GB")
    } else if size >= 1048576 {
        (1048576, "MB")
    } else if size >= 1024 {
        (1024, "KB")
    } else {
        (1, "B")
    };
    let num: u128 = (size as u128) * 10;
    let den: u128 = divisor as u128;
    let q: u128 = num / den;
    let rem: u128 = num % den;
    let tenths: u128 = if 2 * rem > den {
        q + 1
    } else if 2 * rem < den {
        q
    } else if q % 2 == 0 {
        q
    } else {
        q + 1
    };
    proof {
        assert(tenths == spec_round_half_even(size as int * 10, spec_pow1024(
            spec_size_unit(size as int),
        )));
        if size >= 1024 {
            vstd::arithmetic::div_mod::lemma_div_is_ordered_by_denominator(
                num as int,
                1024,
                den as int,
            );
            assert(num as int / 1024 < 0x1_0000_0000_0000_0000) by (nonlinear_arith)
                requires
                    0 <= num as int <= 0xffff_ffff_ffff_ffff * 10,
            ;
        }
        assert(tenths < 0x1_0000_0000_0000_0000);
        vstd::arithmetic::div_mod::lemma_div_is_ordered_by_denominator(tenths as int, 1, 10);
    }
    let whole: u64 = (tenths / 10) as u64;
    let tenth: u64 = (tenths % 10) as u64;
    let mut s = String::new();
    append_u64(&mut s, whole);
    push_char(&mut s, '.');
    append_u64(&mut s, tenth);
    push_char(&mut s, ' ');
    s.append(unit);
    proof {
        assert(s@ =~= spec_format_size(size as int));
    }
    s
}

/// How long ago a moment lies, in the coarsest whole unit: seconds under a
/// minute, then minutes, hours, days, weeks, and months of thirty days.
pub open spec fn spec_relative_time(secs: int) -> Seq<char> {
    if secs < 60 {
        spec_dec_i64(secs) + " seconds ago"@
    } else if secs / 60 < 60 {
        spec_dec_i64(secs / 60) + " minutes ago"@
    } else if secs / 3600 < 24 {
        spec_dec_i64(secs / 3600) + " hours ago"@
    } else if secs / 86400 < 7 {
        spec_dec_i64(secs / 86400) + " days ago"@
    } else if secs / 604800 < 4 {
        spec_dec_i64(secs / 604800) + " weeks ago"@
    } else {
        spec_dec_i64(secs / 86400 / 30) + " months ago"@
    }
}

/// Renders how long before `now` the timestamp lies. Both are seconds since
/// the Unix epoch; the caller supplies the current time.
pub fn relative_time(timestamp: i64, now: i64) -> (r: String)
    requires
        -0x7fff_ffff_ffff_ffff <= now - timestamp <= 0x7fff_ffff_ffff_ffff,
    ensures
        r@ == spec_relative_time(now - timestamp),
{
    let secs: i64 = now - timestamp;
    let mut s = String::new();
    if secs < 60 {
        append_i64(&mut s, secs);
        s.append(" seconds ago");
    } else if secs / 60 < 60 {
        append_i64(&mut s, secs / 60);
        s.append(" minutes ago");
    } else if secs / 3600 < 24 {
        append_i64(&mut s, secs / 3600);
        s.append(" hours ago");
    } else if secs / 86400 < 7 {
        append_i64(&mut s, secs / 86400);
        s.append(" days ago");
    } else if secs / 604800 < 4 {
        append_i64(&mut s, secs / 604800);
        s.append(" weeks ago");
    } else {
        append_i64(&mut s, secs / 86400 / 30);
        s.append(" months ago");
    }
    s
}

/// The RFC 3339 rendering of a timestamp, named but not written out: the
/// chrono crate is the sole authority for the calendar arithmetic.
pub uninterp spec fn rfc3339_of(secs: int) -> Seq<char>;

/// Relies on chrono::DateTime::from_timestamp and to_rfc3339: the rendering
/// depends on the second count alone, and every count up to the year 9999
/// is in range.
#[verifier::external_body]
pub fn format_rfc3339(secs: i64) -> (r: String)
    requires
        0 <= secs < 253402300800,
    ensures
        r@ == rfc3339_of(secs as int),
{
    match chrono::DateTime::<chrono::Utc>::from_timestamp(secs, 0) {
        Some(d) => d.to_rfc3339(),
        None => String::new(),
    }
}

/// Appends a byte slice at the end of a byte vector.
pub fn append_bytes(dst: &mut Vec<u8>, src: &[u8])
    ensures
        final(dst)@ == old(dst)@ + src@,
{
    let n = src.len();
    let mut i: usize = 0;
    while i < n
        invariant
            0 <= i <= n,
            n == src@.len(),
            dst@ == old(dst)@ + src@.subrange(0, i as int),
        decreases n - i,
    {
        dst.push(src[i]);
        proof {
            assert(dst@ =~= old(dst)@ + src@.subrange(0, i + 1));
        }
        i += 1;
    }
    proof {
        assert(old(dst)@ + src@.subrange(0, n as int) =~= old(dst)@ + src@);
    }
}

} // verus!
