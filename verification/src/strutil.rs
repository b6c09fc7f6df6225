use vstd::prelude::*;
use vstd::string::StrSliceExecFns;

verus! {

/// Relies on String::push: appends exactly one character at the end of the string.
#[verifier::external_body]
pub fn push_char(s: &mut String, c: char)
    ensures
        final(s)@ == old(s)@.push(c),
{
    s.push(c);
}

/// Whether `p` occurs at the very start of `s`.
pub open spec fn is_prefix_of(p: Seq<char>, s: Seq<char>) -> bool {
    p.len() <= s.len() && s.subrange(0, p.len() as int) == p
}

/// Character-by-character equality test for string slices.
pub fn str_eq(a: &str, b: &str) -> (r: bool)
    ensures
        r == (a@ == b@),
{
    let x = a.to_owned();
    let y = b.to_owned();
    x == y
}

/// Prefix test for string slices.
pub fn str_starts_with(s: &str, p: &str) -> (r: bool)
    ensures
        r == is_prefix_of(p@, s@),
{
    let sl = s.unicode_len();
    let pl = p.unicode_len();
    if pl > sl {
        return false;
    }
    let mut i: usize = 0;
    while i < pl
        invariant
            0 <= i <= pl,
            pl == p@.len(),
            sl == s@.len(),
            pl <= sl,
            forall|j: int| 0 <= j < i ==> s@[j] == p@[j],
        decreases pl - i,
    {
        if s.get_char(i) != p.get_char(i) {
            assert(s@.subrange(0, pl as int)[i as int] != p@[i as int]);
            return false;
        }
        i += 1;
    }
    assert(s@.subrange(0, pl as int) =~= p@);
    true
}

/// Index of the last occurrence of `c` in `s`, if any.
pub fn find_last_char(s: &str, c: char) -> (r: Option<usize>)
    ensures
        match r {
            Some(i) => i < s@.len() && s@[i as int] == c && (forall|j: int|
                i < j < s@.len() ==> s@[j] != c),
            None => !s@.contains(c),
        },
{
    let n = s.unicode_len();
    let mut i: usize = n;
    while i > 0
        invariant
            0 <= i <= n,
            n == s@.len(),
            forall|j: int| i <= j < n ==> s@[j] != c,
        decreases i,
    {
        i = i - 1;
        if s.get_char(i) == c {
            return Some(i);
        }
    }
    proof {
        assert(forall|j: int| 0 <= j < s@.len() ==> s@[j] != c);
        if s@.contains(c) {
            let j = choose|j: int| 0 <= j < s@.len() && s@[j] == c;
            assert(s@[j] != c);
        }
    }
    None
}

/// Whether `c` occurs anywhere in `s`.
pub fn str_contains_char(s: &str, c: char) -> (r: bool)
    ensures
        r == s@.contains(c),
{
    match find_last_char(s, c) {
        Some(i) => {
            assert(s@.contains(c));
            true
        },
        None => false,
    }
}

/// Whether one of the strings in `v` reads as `s`.
pub fn vec_contains_string(v: &Vec<String>, s: &str) -> (r: bool)
    ensures
        r == v.deep_view().contains(s@),
{
    let n = v.len();
    let mut i: usize = 0;
    while i < n
        invariant
            0 <= i <= n,
            n == v@.len(),
            forall|j: int| 0 <= j < i ==> v.deep_view()[j] != s@,
        decreases n - i,
    {
        if str_eq(v[i].as_str(), s) {
            proof {
                assert(v.deep_view()[i as int] == s@);
                assert(v.deep_view().contains(s@));
            }
            return true;
        }
        proof {
            assert(v.deep_view()[i as int] == v@[i as int].deep_view());
        }
        i += 1;
    }
    proof {
        if v.deep_view().contains(s@) {
            let j = choose|j: int| 0 <= j < v.deep_view().len() && v.deep_view()[j] == s@;
            assert(v.deep_view()[j] != s@);
        }
    }
    false
}

/// Removes every string that reads as `s`, keeping the others in order.
pub fn retain_not_equal(v: &mut Vec<String>, s: &str)
    ensures
        final(v).deep_view() == old(v).deep_view().filter(|x: Seq<char>| x != s@),
{
    let ghost orig = v.deep_view();
    let ghost pred = |x: Seq<char>| x != s@;
    let mut kept: Vec<String> = Vec::new();
    let n = v.len();
    let mut i: usize = 0;
    proof {
        assert(orig.subrange(0, 0).filter(pred) =~= Seq::<Seq<char>>::empty());
    }
    while i < n
        invariant
            0 <= i <= n,
            n == v@.len(),
            orig == v.deep_view(),
            pred == (|x: Seq<char>| x != s@),
            kept.deep_view() == orig.subrange(0, i as int).filter(pred),
        decreases n - i,
    {
        let keep = !str_eq(v[i].as_str(), s);
        let ghost prev = kept.deep_view();
        proof {
            assert(orig[i as int] == v@[i as int].deep_view());
        }
        if keep {
            kept.push(v[i].clone());
        }
        proof {
            let e = orig[i as int];
            assert(orig.subrange(0, i + 1) =~= orig.subrange(0, i as int) + seq![e]);
            Seq::filter_distributes_over_add(orig.subrange(0, i as int), seq![e], pred);
            reveal_with_fuel(Seq::filter, 2);
            assert(seq![e].drop_last() =~= Seq::<Seq<char>>::empty());
            if pred(e) {
                assert(seq![e].filter(pred) =~= seq![e]);
                assert(kept.deep_view() =~= prev.push(e));
            } else {
                assert(seq![e].filter(pred) =~= Seq::<Seq<char>>::empty());
            }
            assert(kept.deep_view() =~= orig.subrange(0, i + 1).filter(pred));
        }
        i += 1;
    }
    proof {
        assert(orig.subrange(0, n as int) =~= orig);
    }
    *v = kept;
}

/// Keeps, in order, exactly the strings that `keep` also holds.
pub fn retain_contained(v: &mut Vec<String>, keep: &Vec<String>)
    ensures
        final(v).deep_view() == old(v).deep_view().filter(
            |x: Seq<char>| keep.deep_view().contains(x),
        ),
{
    let ghost orig = v.deep_view();
    let ghost pred = |x: Seq<char>| keep.deep_view().contains(x);
    let mut kept: Vec<String> = Vec::new();
    let n = v.len();
    let mut i: usize = 0;
    proof {
        assert(orig.subrange(0, 0).filter(pred) =~= Seq::<Seq<char>>::empty());
    }
    while i < n
        invariant
            0 <= i <= n,
            n == v@.len(),
            orig == v.deep_view(),
            pred == (|x: Seq<char>| keep.deep_view().contains(x)),
            kept.deep_view() == orig.subrange(0, i as int).filter(pred),
        decreases n - i,
    {
        let hold = vec_contains_string(keep, v[i].as_str());
        let ghost prev = kept.deep_view();
        proof {
            assert(orig[i as int] == v@[i as int].deep_view());
        }
        if hold {
            kept.push(v[i].clone());
        }
        proof {
            let e = orig[i as int];
            assert(orig.subrange(0, i + 1) =~= orig.subrange(0, i as int) + seq![e]);
            Seq::filter_distributes_over_add(orig.subrange(0, i as int), seq![e], pred);
            reveal_with_fuel(Seq::filter, 2);
            assert(seq![e].drop_last() =~= Seq::<Seq<char>>::empty());
            if pred(e) {
                assert(seq![e].filter(pred) =~= seq![e]);
                assert(kept.deep_view() =~= prev.push(e));
            } else {
                assert(seq![e].filter(pred) =~= Seq::<Seq<char>>::empty());
            }
            assert(kept.deep_view() =~= orig.subrange(0, i + 1).filter(pred));
        }
        i += 1;
    }
    proof {
        assert(orig.subrange(0, n as int) =~= orig);
    }
    *v = kept;
}

/// Index of the first occurrence of `c` in `s`, if any.
pub fn find_first_char(s: &str, c: char) -> (r: Option<usize>)
    ensures
        match r {
            Some(i) => i < s@.len() && s@[i as int] == c && (forall|j: int|
                0 <= j < i ==> s@[j] != c),
            None => !s@.contains(c),
        },
{
    let n = s.unicode_len();
    let mut i: usize = 0;
    while i < n
        invariant
            0 <= i <= n,
            n == s@.len(),
            forall|j: int| 0 <= j < i ==> s@[j] != c,
        decreases n - i,
    {
        if s.get_char(i) == c {
            return Some(i);
        }
        i += 1;
    }
    proof {
        if s@.contains(c) {
            let j = choose|j: int| 0 <= j < s@.len() && s@[j] == c;
            assert(s@[j] != c);
        }
    }
    None
}

/// The character that prints a single decimal digit.
pub open spec fn spec_digit_char(d: int) -> char {
    if d == 0 {
        '0'
    } else if d == 1 {
        '1'
    } else if d == 2 {
        '2'
    } else if d == 3 {
        '3'
    } else if d == 4 {
        '4'
    } else if d == 5 {
        '5'
    } else if d == 6 {
        '6'
    } else if d == 7 {
        '7'
    } else if d == 8 {
        '8'
    } else {
        '9'
    }
}

/// Decimal rendering of a nonnegative integer, most significant digit first.
pub open spec fn spec_dec(n: int) -> Seq<char>
    decreases n,
{
    if n < 10 {
        seq![spec_digit_char(n)]
    } else {
        spec_dec(n / 10).push(spec_digit_char(n % 10))
    }
}

fn digit_char(d: u8) -> (c: char)
    requires
        d < 10,
    ensures
        c == spec_digit_char(d as int),
{
    match d {
        0 => '0',
        1 => '1',
        2 => '2',
        3 => '3',
        4 => '4',
        5 => '5',
        6 => '6',
        7 => '7',
        8 => '8',
        _ => '9',
    }
}

/// Appends the decimal rendering of `n` to `out`.
pub fn append_u64(out: &mut String, n: u64)
    ensures
        final(out)@ == old(out)@ + spec_dec(n as int),
{
    let mut digits: Vec<u8> = Vec::new();
    let mut m: u64 = n;
    loop
        invariant_except_break
            spec_dec(n as int) == spec_dec(m as int) + digits@.reverse().map_values(
                |d: u8| spec_digit_char(d as int),
            ),
        invariant
            forall|k: int| 0 <= k < digits@.len() ==> digits@[k] < 10,
        ensures
            spec_dec(n as int) == digits@.reverse().map_values(
                |d: u8| spec_digit_char(d as int),
            ),
        decreases m,
    {
        proof {
            assert(digits@.push((m % 10) as u8).reverse() =~= seq![(m % 10) as u8]
                + digits@.reverse());
            assert((seq![(m % 10) as u8] + digits@.reverse()).map_values(
                |d: u8| spec_digit_char(d as int),
            ) =~= seq![spec_digit_char((m % 10) as int)] + digits@.reverse().map_values(
                |d: u8| spec_digit_char(d as int),
            ));
            if m >= 10 {
                assert(spec_dec(m as int) == spec_dec(m as int / 10).push(
                    spec_digit_char(m as int % 10),
                ));
                assert(spec_dec(m as int / 10) + (seq![spec_digit_char((m % 10) as int)]
                    + digits@.reverse().map_values(|d: u8| spec_digit_char(d as int))) =~= spec_dec(
                    m as int,
                ) + digits@.reverse().map_values(|d: u8| spec_digit_char(d as int)));
            } else {
                assert(spec_dec(m as int) == seq![spec_digit_char(m as int)]);
                assert(seq![spec_digit_char(m as int)] + digits@.reverse().map_values(
                    |d: u8| spec_digit_char(d as int),
                ) =~= spec_dec(m as int) + digits@.reverse().map_values(
                    |d: u8| spec_digit_char(d as int),
                ));
            }
        }
        let ghost pre = digits@;
        digits.push((m % 10) as u8);
        if m < 10 {
            proof {
                assert(spec_dec(m as int) == seq![spec_digit_char(m as int)]);
                assert(spec_dec(n as int) =~= digits@.reverse().map_values(
                    |d: u8| spec_digit_char(d as int),
                ));
            }
            break ;
        }
        m = m / 10;
    }
    let mut i: usize = digits.len();
    proof {
        assert(digits@.reverse().map_values(|d: u8| spec_digit_char(d as int)) =~= Seq::new(
            digits@.len(),
            |k: int| spec_digit_char(digits@[digits@.len() - 1 - k] as int),
        ));
    }
    while i > 0
        invariant
            0 <= i <= digits@.len(),
            forall|k: int| 0 <= k < digits@.len() ==> digits@[k] < 10,
            spec_dec(n as int) == Seq::new(
                digits@.len(),
                |k: int| spec_digit_char(digits@[digits@.len() - 1 - k] as int),
            ),
            out@ == old(out)@ + spec_dec(n as int).subrange(
                0,
                digits@.len() - i,
            ),
        decreases i,
    {
        i = i - 1;
        let d = digits[i];
        push_char(out, digit_char(d));
        proof {
            assert(out@ =~= old(out)@ + spec_dec(n as int).subrange(
                0,
                digits@.len() - i,
            ));
        }
    }
    proof {
        assert(spec_dec(n as int).subrange(0, digits@.len() as int) =~= spec_dec(n as int));
    }
}

/// Decimal rendering of a signed integer: a minus sign, then the digits.
pub open spec fn spec_dec_i64(n: int) -> Seq<char> {
    if n < 0 {
        seq!['-'] + spec_dec(-n)
    } else {
        spec_dec(n)
    }
}

/// Appends the decimal rendering of the signed integer `n` to `out`.
pub fn append_i64(out: &mut String, n: i64)
    ensures
        final(out)@ == old(out)@ + spec_dec_i64(n as int),
{
    if n < 0 {
        push_char(out, '-');
        let m: u64 = ((-(n as i128)) as u64);
        append_u64(out, m);
        proof {
            assert(old(out)@.push('-') =~= old(out)@ + seq!['-']);
            assert((old(out)@ + seq!['-']) + spec_dec(-(n as int)) =~= old(out)@ + (seq!['-']
                + spec_dec(-(n as int))));
        }
    } else {
        append_u64(out, n as u64);
    }
}

} // verus!
