//! Digests and the proof-of-work predicate.

use crypto::digest::Digest;
use vstd::prelude::*;

verus! {

/// The lowercase hex SHA-256 digest of the UTF-8 encoding of a text.
pub uninterp spec fn sha256_hex_of(text: Seq<char>) -> Seq<char>;

/// A lowercase hex digit.
pub open spec fn is_lower_hex(c: char) -> bool {
    ('0' <= c && c <= '9') || ('a' <= c && c <= 'f')
}

/// A string of lowercase hex digits, as long as a digest.
pub open spec fn is_digest_text(h: Seq<char>) -> bool {
    &&& h.len() == DIGEST_LEN
    &&& forall|i: int| 0 <= i < h.len() ==> is_lower_hex(#[trigger] h[i])
}

/// Number of hex characters in a digest.
pub const DIGEST_LEN: usize = 64;

/// Relies on rust-crypto's `Sha256` with `Digest::result_str`: the hex string of the
/// 32-byte SHA-256 output of the text's bytes, which depends on the characters alone.
/// rustc-serialize's `to_hex` writes two digits of `0123456789abcdef` per byte.
#[verifier::external_body]
fn sha256_hex(text: &str) -> (r: String)
    ensures
        r@ == sha256_hex_of(text@),
        is_digest_text(r@),
{
    let mut hasher = crypto::sha2::Sha256::new();
    hasher.input(text.as_bytes());
    hasher.result_str()
}

/// The digest of a text, as a string of `DIGEST_LEN` hex characters.
pub fn digest(text: &str) -> (r: String)
    ensures
        r@ == sha256_hex_of(text@),
        is_digest_text(r@),
{
    sha256_hex(text)
}

/// Hashing is a function: the same text always yields the same digest.
pub proof fn lemma_digest_deterministic(a: Seq<char>, b: Seq<char>)
    requires
        a == b,
    ensures
        sha256_hex_of(a) == sha256_hex_of(b),
{
}

/// A hash meets difficulty `d` when its first `d` characters are all `'0'`.
pub open spec fn meets_difficulty(hash: Seq<char>, d: nat) -> bool {
    d <= hash.len() && forall|i: int| 0 <= i < d ==> hash[i] == '0'
}

/// Whether `hash` starts with at least `difficulty` zero characters.
pub fn has_leading_zeros(hash: &str, difficulty: usize) -> (r: bool)
    ensures
        r == meets_difficulty(hash@, difficulty as nat),
{
    let len = hash.unicode_len();
    if difficulty > len {
        return false;
    }
    let mut i: usize = 0;
    while i < difficulty
        invariant
            difficulty <= hash@.len(),
            i <= difficulty,
            forall|j: int| 0 <= j < i ==> hash@[j] == '0',
        decreases difficulty - i,
    {
        if hash.get_char(i) != '0' {
            return false;
        }
        i = i + 1;
    }
    true
}

/// The decimal character of a digit.
pub open spec fn digit_char(d: nat) -> char {
    if d == 0 { '0' }
    else if d == 1 { '1' }
    else if d == 2 { '2' }
    else if d == 3 { '3' }
    else if d == 4 { '4' }
    else if d == 5 { '5' }
    else if d == 6 { '6' }
    else if d == 7 { '7' }
    else if d == 8 { '8' }
    else { '9' }
}

/// The decimal notation of a natural number, without leading zeros.
pub open spec fn decimal(n: nat) -> Seq<char>
    decreases n,
{
    if n < 10 {
        seq![digit_char(n)]
    } else {
        decimal(n / 10).push(digit_char(n % 10))
    }
}

fn digit_str(d: u128) -> (r: &'static str)
    requires
        d < 10,
    ensures
        r@ == seq![digit_char(d as nat)],
{
    proof {
        reveal_strlit("0");
        reveal_strlit("1");
        reveal_strlit("2");
        reveal_strlit("3");
        reveal_strlit("4");
        reveal_strlit("5");
        reveal_strlit("6");
        reveal_strlit("7");
        reveal_strlit("8");
        reveal_strlit("9");
    }
    let r = if d == 0 { "0" }
        else if d == 1 { "1" }
        else if d == 2 { "2" }
        else if d == 3 { "3" }
        else if d == 4 { "4" }
        else if d == 5 { "5" }
        else if d == 6 { "6" }
        else if d == 7 { "7" }
        else if d == 8 { "8" }
        else { "9" };
    assert(r@ =~= seq![digit_char(d as nat)]);
    r
}

/// Appends the decimal notation of `n` to `s`.
pub fn push_decimal(s: &mut String, n: u128)
    ensures
        final(s)@ == old(s)@ + decimal(n as nat),
    decreases n,
{
    if n >= 10 {
        push_decimal(s, n / 10);
    }
    s.append(digit_str(n % 10));
    assert(final(s)@ =~= old(s)@ + decimal(n as nat));
}

} // verus!
