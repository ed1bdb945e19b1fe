//! The cache key of a derived asset: the SHA-1 digest of a file's path and
//! modification time, in lower-case hexadecimal.

use sha1::{Digest, Sha1};
use vstd::prelude::*;
use vstd::string::{StrSliceExecFns, StringExecFns};
use vstd::utf8::{encode_utf8, encode_utf8_decode_utf8};

verus! {

/// The SHA-1 digest of a sequence of bytes.
pub uninterp spec fn sha1_digest(data: Seq<u8>) -> Seq<u8>;

/// `Sha1::digest` of the `sha1` crate computes the SHA-1 hash of `data`: a
/// function of the bytes alone, 20 bytes long.
#[verifier::external_body]
fn sha1_of(data: &[u8]) -> (r: Vec<u8>)
    ensures
        r@ == sha1_digest(data@),
        r@.len() == 20,
{
    Sha1::digest(data).to_vec()
}

/// The decimal digits of `n` in ASCII, without leading zeros.
pub open spec fn decimal(n: nat) -> Seq<u8>
    decreases n,
{
    if n < 10 {
        seq![(48 + n) as u8]
    } else {
        decimal(n / 10).push((48 + n % 10) as u8)
    }
}

/// The number that a sequence of ASCII digits stands for.
pub open spec fn decimal_value(digits: Seq<u8>) -> nat
    decreases digits.len(),
{
    if digits.len() == 0 {
        0
    } else {
        (decimal_value(digits.drop_last()) * 10 + (digits.last() - 48)) as nat
    }
}

/// The character of one hexadecimal digit, in lower case.
pub open spec fn hex_digit(n: int) -> char {
    seq!['0', '1', '2', '3', '4', '5', '6', '7', '8', '9', 'a', 'b', 'c', 'd', 'e', 'f'][n]
}

/// Two lower-case hexadecimal digits for each byte, the high one first.
pub open spec fn lower_hex(bytes: Seq<u8>) -> Seq<char> {
    Seq::new(
        2 * bytes.len(),
        |i: int|
            if i % 2 == 0 {
                hex_digit(bytes[i / 2] as int / 16)
            } else {
                hex_digit(bytes[i / 2] as int % 16)
            },
    )
}

/// The byte that stands between a path and a modification time in what is
/// hashed. It is no digit, so the time is what follows its last occurrence.
pub const KEY_SEPARATOR: u8 = 0;

/// What is hashed for a file version: the path's UTF-8 bytes, the separator,
/// then the modification time in decimal. Path and time can be read back
/// from it, so two versions are hashed alike only where they are one.
pub open spec fn key_input(path: Seq<char>, mtime: u64) -> Seq<u8> {
    encode_utf8(path).push(KEY_SEPARATOR) + decimal(mtime as nat)
}

/// The cache key of a file version.
pub open spec fn cache_key(path: Seq<char>, mtime: u64) -> Seq<char> {
    lower_hex(sha1_digest(key_input(path, mtime)))
}

/// The decimal digits of `n`.
pub fn decimal_bytes(n: u64) -> (r: Vec<u8>)
    ensures
        r@ == decimal(n as nat),
{
    let mut rev: Vec<u8> = Vec::new();
    let mut m: u64 = n;
    while m >= 10
        invariant
            decimal(n as nat) == decimal(m as nat) + rev@.reverse(),
        decreases m,
    {
        let d: u8 = 48 + (m % 10) as u8;
        proof {
            let next = rev@.push(d);
            assert(next.reverse() =~= seq![d] + rev@.reverse());
            assert(decimal((m / 10) as nat).push(d) + rev@.reverse() =~= decimal((m / 10) as nat)
                + (seq![d] + rev@.reverse()));
        }
        rev.push(d);
        m = m / 10;
    }
    let d: u8 = 48 + m as u8;
    proof {
        let next = rev@.push(d);
        assert(next.reverse() =~= seq![d] + rev@.reverse());
    }
    rev.push(d);
    let mut out: Vec<u8> = Vec::new();
    let mut i: usize = rev.len();
    while i > 0
        invariant
            i <= rev.len(),
            out@ == rev@.reverse().subrange(0, rev.len() - i),
        decreases i,
    {
        i -= 1;
        out.push(rev[i]);
        assert(out@ =~= rev@.reverse().subrange(0, rev.len() - i));
    }
    assert(out@ =~= rev@.reverse());
    out
}

/// One hexadecimal digit as a string.
fn hex_digit_str(n: u8) -> (r: &'static str)
    requires
        n < 16,
    ensures
        r@ == seq![hex_digit(n as int)],
{
    let r = match n {
        0 => "0",
        1 => "1",
        2 => "2",
        3 => "3",
        4 => "4",
        5 => "5",
        6 => "6",
        7 => "7",
        8 => "8",
        9 => "9",
        10 => "a",
        11 => "b",
        12 => "c",
        13 => "d",
        14 => "e",
        _ => "f",
    };
    proof {
        reveal_strlit("0");
        reveal_strlit("1");
        reveal_strlit("2");
        reveal_strlit("3");
        reveal_strlit("4");
        reveal_strlit("5");
        reveal_strlit("6");
        reveal_strlit("7");
        reveal_strlit("8");
        reveal_strlit("9");
        reveal_strlit("a");
        reveal_strlit("b");
        reveal_strlit("c");
        reveal_strlit("d");
        reveal_strlit("e");
        reveal_strlit("f");
        assert(r@ =~= seq![hex_digit(n as int)]);
    }
    r
}

/// The bytes in lower-case hexadecimal.
pub fn to_lower_hex(bytes: &[u8]) -> (r: String)
    ensures
        r@ == lower_hex(bytes@),
{
    let mut out = String::new();
    let mut i: usize = 0;
    while i < bytes.len()
        invariant
            i <= bytes.len(),
            out@ == lower_hex(bytes@.subrange(0, i as int)),
        decreases bytes.len() - i,
    {
        let b: u8 = bytes[i];
        let ghost before = out@;
        out.append(hex_digit_str(b / 16));
        out.append(hex_digit_str(b % 16));
        proof {
            let done = bytes@.subrange(0, i as int);
            let next = bytes@.subrange(0, i + 1);
            assert(out@ == before + seq![hex_digit(b as int / 16)] + seq![hex_digit(b as int % 16)]);
            assert forall|k: int| 0 <= k < 2 * next.len() implies out@[k] == lower_hex(next)[k] by {
                if k < 2 * i {
                    assert(out@[k] == lower_hex(done)[k]);
                    assert(done[k / 2] == next[k / 2]);
                } else {
                    assert(next[k / 2] == b);
                }
            }
            assert(out@ =~= lower_hex(next));
        }
        i += 1;
    }
    assert(bytes@.subrange(0, i as int) =~= bytes@);
    out
}

/// The cache key of the version of the file at `path` that was last modified
/// at `mtime`.
pub fn compute_cache_key(path: &str, mtime: u64) -> (r: String)
    ensures
        r@ == cache_key(path@, mtime),
        r@.len() == 40,
{
    let mut input = path.as_bytes_vec();
    input.push(KEY_SEPARATOR);
    let mut digits = decimal_bytes(mtime);
    input.append(&mut digits);
    let digest = sha1_of(input.as_slice());
    to_lower_hex(digest.as_slice())
}

/// The digits of a number stand for that number.
pub proof fn lemma_decimal_value(n: nat)
    ensures
        decimal_value(decimal(n)) == n,
    decreases n,
{
    if n < 10 {
        assert(decimal(n).drop_last() =~= Seq::<u8>::empty());
        assert(decimal_value(decimal(n).drop_last()) == 0);
    } else {
        lemma_decimal_value(n / 10);
        assert(decimal(n).drop_last() =~= decimal(n / 10));
    }
}

/// Different byte sequences have different hexadecimal forms.
pub proof fn lemma_lower_hex_injective(a: Seq<u8>, b: Seq<u8>)
    requires
        lower_hex(a) == lower_hex(b),
    ensures
        a == b,
{
    assert(lower_hex(a).len() == 2 * a.len());
    assert(lower_hex(b).len() == 2 * b.len());
    assert(a.len() == b.len());
    assert forall|i: int| 0 <= i < a.len() implies a[i] == b[i] by {
        let x = a[i] as int;
        let y = b[i] as int;
        assert((2 * i) / 2 == i && (2 * i) % 2 == 0);
        assert((2 * i + 1) / 2 == i && (2 * i + 1) % 2 == 1);
        assert(lower_hex(a)[2 * i] == hex_digit(x / 16));
        assert(lower_hex(b)[2 * i] == hex_digit(y / 16));
        assert(lower_hex(a)[2 * i + 1] == hex_digit(x % 16));
        assert(lower_hex(b)[2 * i + 1] == hex_digit(y % 16));
        assert(hex_digit(x / 16) == hex_digit(y / 16));
        assert(hex_digit(x % 16) == hex_digit(y % 16));
        assert(x / 16 == y / 16);
        assert(x % 16 == y % 16);
    }
    assert(a =~= b);
}

/// The digits of a number are digits, and there is at least one.
pub proof fn lemma_decimal_digits(n: nat)
    ensures
        decimal(n).len() >= 1,
        forall|i: int| 0 <= i < decimal(n).len() ==> 48 <= #[trigger] decimal(n)[i] <= 57,
    decreases n,
{
    if n >= 10 {
        lemma_decimal_digits(n / 10);
    }
}

/// What is hashed tells the file version: two versions with one input have
/// one path and one modification time.
pub proof fn lemma_key_input_injective(p1: Seq<char>, m1: u64, p2: Seq<char>, m2: u64)
    requires
        key_input(p1, m1) == key_input(p2, m2),
    ensures
        p1 == p2,
        m1 == m2,
{
    let h1 = encode_utf8(p1);
    let h2 = encode_utf8(p2);
    let d1 = decimal(m1 as nat);
    let d2 = decimal(m2 as nat);
    let a = key_input(p1, m1);
    let b = key_input(p2, m2);
    lemma_decimal_digits(m1 as nat);
    lemma_decimal_digits(m2 as nat);
    assert(a.len() == h1.len() + 1 + d1.len());
    assert(b.len() == h2.len() + 1 + d2.len());
    assert(a[h1.len() as int] == KEY_SEPARATOR);
    assert(b[h2.len() as int] == KEY_SEPARATOR);
    if d1.len() < d2.len() {
        assert(b[h1.len() as int] == d2[h1.len() - h2.len() - 1]);
    } else if d2.len() < d1.len() {
        assert(a[h2.len() as int] == d1[h2.len() - h1.len() - 1]);
    }
    assert(h1.len() == h2.len());
    assert(a.subrange(0, h1.len() as int) =~= h1);
    assert(b.subrange(0, h2.len() as int) =~= h2);
    assert(a.subrange(h1.len() as int + 1, a.len() as int) =~= d1);
    assert(b.subrange(h2.len() as int + 1, b.len() as int) =~= d2);
    encode_utf8_decode_utf8(p1);
    encode_utf8_decode_utf8(p2);
    lemma_decimal_value(m1 as nat);
    lemma_decimal_value(m2 as nat);
}

/// Two file versions have one cache key only where they are one version, or
/// where SHA-1 gives two different inputs one digest.
pub proof fn lemma_cache_key_injective(p1: Seq<char>, m1: u64, p2: Seq<char>, m2: u64)
    requires
        cache_key(p1, m1) == cache_key(p2, m2),
    ensures
        (p1 == p2 && m1 == m2) || (key_input(p1, m1) != key_input(p2, m2) && sha1_digest(
            key_input(p1, m1),
        ) == sha1_digest(key_input(p2, m2))),
{
    lemma_lower_hex_injective(sha1_digest(key_input(p1, m1)), sha1_digest(key_input(p2, m2)));
    if key_input(p1, m1) == key_input(p2, m2) {
        lemma_key_input_injective(p1, m1, p2, m2);
    }
}

/// The cache key is a function of the path and the modification time alone,
/// and a new modification time gives a file a new key: what is hashed
/// differs, so the two keys are the same only where SHA-1 gives two different
/// inputs one digest.
pub proof fn lemma_cache_key_follows_mtime(path: Seq<char>, m1: u64, m2: u64)
    ensures
        m1 == m2 ==> cache_key(path, m1) == cache_key(path, m2),
        m1 != m2 ==> key_input(path, m1) != key_input(path, m2),
        cache_key(path, m1) == cache_key(path, m2) ==> sha1_digest(key_input(path, m1))
            == sha1_digest(key_input(path, m2)),
{
    if m1 != m2 && key_input(path, m1) == key_input(path, m2) {
        lemma_key_input_injective(path, m1, path, m2);
    }
    if cache_key(path, m1) == cache_key(path, m2) {
        lemma_lower_hex_injective(
            sha1_digest(key_input(path, m1)),
            sha1_digest(key_input(path, m2)),
        );
    }
}

} // verus!
