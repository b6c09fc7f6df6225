use vstd::prelude::*;
use sha2::Digest;
use crate::strutil::push_char;

verus! {

/// The SHA-256 digest of a byte string, named but not written out: nothing
/// here recomputes it, the sha2 crate is the sole authority.
pub uninterp spec fn sha256_of(data: Seq<u8>) -> Seq<u8>;

/// Relies on sha2::Sha256 through the Digest interface: the digest depends
/// on the input bytes alone, and is always 32 bytes long.
#[verifier::external_body]
fn sha256_bytes(data: &[u8]) -> (r: Vec<u8>)
    ensures
        r@ == sha256_of(data@),
        r@.len() == 32,
{
    let mut hasher = sha2::Sha256::new();
    hasher.update(data);
    hasher.finalize().to_vec()
}

/// The character that prints a single lowercase hexadecimal digit.
pub open spec fn spec_hex_digit(d: int) -> char {
    if d == 0 {
        '0'
    } else if d == 1 {
        '1'
    } else if d == 2 {
        '2'
    } else if d == 3 {
        '3'
    } else if d == 4 {
        '4'
    } else if d == 5 {
        '5'
    } else if d == 6 {
        '6'
    } else if d == 7 {
        '7'
    } else if d == 8 {
        '8'
    } else if d == 9 {
        '9'
    } else if d == 10 {
        'a'
    } else if d == 11 {
        'b'
    } else if d == 12 {
        'c'
    } else if d == 13 {
        'd'
    } else if d == 14 {
        'e'
    } else {
        'f'
    }
}

/// Lowercase hexadecimal rendering of a byte string, two digits per byte.
pub open spec fn spec_hex(data: Seq<u8>) -> Seq<char>
    decreases data.len(),
{
    if data.len() == 0 {
        Seq::<char>::empty()
    } else {
        seq![
            spec_hex_digit(data.first() as int / 16),
            spec_hex_digit(data.first() as int % 16),
        ] + spec_hex(data.drop_first())
    }
}

pub proof fn lemma_spec_hex_len(data: Seq<u8>)
    ensures
        spec_hex(data).len() == 2 * data.len(),
    decreases data.len(),
{
    if data.len() > 0 {
        lemma_spec_hex_len(data.drop_first());
    }
}

proof fn lemma_spec_hex_push(data: Seq<u8>, b: u8)
    ensures
        spec_hex(data.push(b)) == spec_hex(data) + seq![
            spec_hex_digit(b as int / 16),
            spec_hex_digit(b as int % 16),
        ],
    decreases data.len(),
{
    let ghost hilo = seq![spec_hex_digit(b as int / 16), spec_hex_digit(b as int % 16)];
    if data.len() == 0 {
        assert(data.push(b).first() == b);
        assert(data.push(b).drop_first() =~= Seq::<u8>::empty());
        assert(spec_hex(data.push(b)) == hilo + spec_hex(Seq::<u8>::empty()));
        assert(hilo + spec_hex(Seq::<u8>::empty()) =~= spec_hex(data) + hilo);
    } else {
        let ghost first2 = seq![
            spec_hex_digit(data.first() as int / 16),
            spec_hex_digit(data.first() as int % 16),
        ];
        assert(data.push(b).first() == data.first());
        assert(data.push(b).drop_first() =~= data.drop_first().push(b));
        lemma_spec_hex_push(data.drop_first(), b);
        assert(spec_hex(data.push(b)) == first2 + (spec_hex(data.drop_first()) + hilo));
        assert(first2 + (spec_hex(data.drop_first()) + hilo) =~= (first2 + spec_hex(
            data.drop_first(),
        )) + hilo);
        assert(spec_hex(data) == first2 + spec_hex(data.drop_first()));
    }
}

fn hex_digit_char(d: u8) -> (c: char)
    requires
        d < 16,
    ensures
        c == spec_hex_digit(d as int),
{
    match d {
        0 => '0',
        1 => '1',
        2 => '2',
        3 => '3',
        4 => '4',
        5 => '5',
        6 => '6',
        7 => '7',
        8 => '8',
        9 => '9',
        10 => 'a',
        11 => 'b',
        12 => 'c',
        13 => 'd',
        14 => 'e',
        _ => 'f',
    }
}

/// Lowercase hexadecimal rendering of a byte string.
fn to_hex(data: &Vec<u8>) -> (r: String)
    ensures
        r@ == spec_hex(data@),
{
    let mut s = String::new();
    let n = data.len();
    let mut i: usize = 0;
    while i < n
        invariant
            0 <= i <= n,
            n == data@.len(),
            s@ == spec_hex(data@.subrange(0, i as int)),
        decreases n - i,
    {
        let b = data[i];
        push_char(&mut s, hex_digit_char(b / 16));
        push_char(&mut s, hex_digit_char(b % 16));
        proof {
            assert(data@.subrange(0, i + 1) =~= data@.subrange(0, i as int).push(data@[i as int]));
            lemma_spec_hex_push(data@.subrange(0, i as int), data@[i as int]);
            assert(s@ =~= spec_hex(data@.subrange(0, i + 1)));
        }
        i += 1;
    }
    proof {
        assert(data@.subrange(0, n as int) =~= data@);
    }
    s
}

/// The 64-character lowercase hexadecimal form of the SHA-256 digest.
pub open spec fn spec_sha256_hex(data: Seq<u8>) -> Seq<char> {
    spec_hex(sha256_of(data))
}

/// SHA-256 content hash, rendered as 64 lowercase hexadecimal digits.
pub fn compute_hash(content: &[u8]) -> (r: String)
    ensures
        r@ == spec_sha256_hex(content@),
        r@.len() == 64,
{
    let digest = sha256_bytes(content);
    let r = to_hex(&digest);
    proof {
        lemma_spec_hex_len(digest@);
    }
    r
}

} // verus!
