//! Content fingerprints: the lower-case hexadecimal SHA-256 digest of a file,
//! and the order in which fingerprints sort.

use sha2::Digest;
use vstd::prelude::*;

verus! {

/// The SHA-256 digest of `data`, as computed by the `sha2` crate.
pub uninterp spec fn sha256_digest(data: Seq<u8>) -> Seq<u8>;

/// The lower-case hexadecimal digit of a value in `0..16`.
pub open spec fn hex_digit(nibble: int) -> char {
    if nibble == 0 {
        '0'
    } else if nibble == 1 {
        '1'
    } else if nibble == 2 {
        '2'
    } else if nibble == 3 {
        '3'
    } else if nibble == 4 {
        '4'
    } else if nibble == 5 {
        '5'
    } else if nibble == 6 {
        '6'
    } else if nibble == 7 {
        '7'
    } else if nibble == 8 {
        '8'
    } else if nibble == 9 {
        '9'
    } else if nibble == 10 {
        'a'
    } else if nibble == 11 {
        'b'
    } else if nibble == 12 {
        'c'
    } else if nibble == 13 {
        'd'
    } else if nibble == 14 {
        'e'
    } else {
        'f'
    }
}

/// Lower-case hexadecimal text of `bytes`: two digits per byte, high nibble first.
pub open spec fn hex_lower(bytes: Seq<u8>) -> Seq<char> {
    Seq::new(
        2 * bytes.len(),
        |i: int|
            if i % 2 == 0 {
                hex_digit(bytes[i / 2] as int / 16)
            } else {
                hex_digit(bytes[i / 2] as int % 16)
            },
    )
}

/// The fingerprint of a file's content.
pub open spec fn spec_sha256(data: Seq<u8>) -> Seq<char> {
    hex_lower(sha256_digest(data))
}

/// Calls `sha2::Sha256::digest`. Trusted: the bytes returned are the SHA-256
/// digest of `data`, which is always 32 bytes long.
#[verifier::external_body]
fn digest_bytes(data: &[u8]) -> (out: Vec<u8>)
    ensures
        out@ == sha256_digest(data@),
        out@.len() == 32,
{
    sha2::Sha256::digest(data).to_vec()
}

/// Calls `hex::encode`. Trusted: every byte becomes two lower-case hexadecimal
/// digits, the high nibble first.
#[verifier::external_body]
fn hex_string(bytes: &[u8]) -> (out: String)
    ensures
        out@ == hex_lower(bytes@),
{
    hex::encode(bytes)
}

/// Fingerprint of `data`: its SHA-256 digest in lower-case hexadecimal.
pub fn sha256(data: &[u8]) -> (out: String)
    ensures
        out@ == spec_sha256(data@),
        out@.len() == 64,
{
    let digest = digest_bytes(data);
    hex_string(digest.as_slice())
}

/// Whether the bytes of `a` from index `from` on come at or before those of
/// `b` from the same index, in lexicographic order.
pub open spec fn lex_le_from(a: Seq<u8>, b: Seq<u8>, from: int) -> bool
    decreases a.len() - from,
{
    if from < 0 || from >= a.len() {
        true
    } else if from >= b.len() {
        false
    } else if a[from] != b[from] {
        a[from] < b[from]
    } else {
        lex_le_from(a, b, from + 1)
    }
}

/// Lexicographic order on byte strings.
pub open spec fn lex_le(a: Seq<u8>, b: Seq<u8>) -> bool {
    lex_le_from(a, b, 0)
}

/// The order in which fingerprints sort: lexicographic on their UTF-8 bytes,
/// which is the order of `str`.
pub open spec fn fingerprint_le(a: Seq<char>, b: Seq<char>) -> bool {
    lex_le(vstd::utf8::encode_utf8(a), vstd::utf8::encode_utf8(b))
}

/// Whether fingerprint `a` sorts at or before fingerprint `b`.
pub fn sorts_before_or_equal(a: &str, b: &str) -> (out: bool)
    ensures
        out == fingerprint_le(a@, b@),
{
    let x = a.as_bytes();
    let y = b.as_bytes();
    let mut i: usize = 0;
    while i < x.len() && i < y.len()
        invariant
            i <= x@.len(),
            i <= y@.len(),
            x@ == vstd::utf8::encode_utf8(a@),
            y@ == vstd::utf8::encode_utf8(b@),
            lex_le(x@, y@) == lex_le_from(x@, y@, i as int),
        decreases x@.len() - i,
    {
        if x[i] != y[i] {
            return x[i] < y[i];
        }
        i += 1;
    }
    i >= x.len()
}

/// The byte order is reflexive.
pub proof fn lemma_lex_le_reflexive(a: Seq<u8>, from: int)
    ensures
        lex_le_from(a, a, from),
    decreases a.len() - from,
{
    if 0 <= from < a.len() {
        lemma_lex_le_reflexive(a, from + 1);
    }
}

/// The byte order is transitive.
pub proof fn lemma_lex_le_transitive(a: Seq<u8>, b: Seq<u8>, c: Seq<u8>, from: int)
    requires
        lex_le_from(a, b, from),
        lex_le_from(b, c, from),
    ensures
        lex_le_from(a, c, from),
    decreases a.len() - from,
{
    if 0 <= from < a.len() && a[from] == b[from] && b[from] == c[from] {
        lemma_lex_le_transitive(a, b, c, from + 1);
    }
}

/// The byte order is total: of two byte strings one comes at or before the other.
pub proof fn lemma_lex_le_total(a: Seq<u8>, b: Seq<u8>, from: int)
    ensures
        lex_le_from(a, b, from) || lex_le_from(b, a, from),
    decreases a.len() - from,
{
    if 0 <= from < a.len() && from < b.len() && a[from] == b[from] {
        lemma_lex_le_total(a, b, from + 1);
    }
}

/// The byte order is antisymmetric: two byte strings that come at or before
/// each other from an index on are equal from that index on.
pub proof fn lemma_lex_le_antisymmetric(a: Seq<u8>, b: Seq<u8>, from: int)
    requires
        0 <= from,
        lex_le_from(a, b, from),
        lex_le_from(b, a, from),
    ensures
        a.len() <= from <==> b.len() <= from,
        from < a.len() ==> a.len() == b.len(),
        forall|i: int| from <= i < a.len() ==> a[i] == b[i],
    decreases a.len() - from,
{
    if from < a.len() {
        lemma_lex_le_antisymmetric(a, b, from + 1);
    }
}

/// Fingerprints are totally preordered: the order is reflexive, and any two
/// fingerprints are comparable.
pub proof fn lemma_fingerprint_le_total(a: Seq<char>, b: Seq<char>)
    ensures
        fingerprint_le(a, a),
        fingerprint_le(a, b) || fingerprint_le(b, a),
{
    lemma_lex_le_reflexive(vstd::utf8::encode_utf8(a), 0);
    lemma_lex_le_total(vstd::utf8::encode_utf8(a), vstd::utf8::encode_utf8(b), 0);
}

/// The fingerprint order is transitive.
pub proof fn lemma_fingerprint_le_transitive(a: Seq<char>, b: Seq<char>, c: Seq<char>)
    requires
        fingerprint_le(a, b),
        fingerprint_le(b, c),
    ensures
        fingerprint_le(a, c),
{
    lemma_lex_le_transitive(
        vstd::utf8::encode_utf8(a),
        vstd::utf8::encode_utf8(b),
        vstd::utf8::encode_utf8(c),
        0,
    );
}

/// The fingerprint order is antisymmetric: fingerprints that sort at or
/// before each other are the same.
pub proof fn lemma_fingerprint_le_antisymmetric(a: Seq<char>, b: Seq<char>)
    requires
        fingerprint_le(a, b),
        fingerprint_le(b, a),
    ensures
        a == b,
{
    let x = vstd::utf8::encode_utf8(a);
    let y = vstd::utf8::encode_utf8(b);
    lemma_lex_le_antisymmetric(x, y, 0);
    assert(x =~= y);
    vstd::utf8::encode_utf8_decode_utf8(a);
    vstd::utf8::encode_utf8_decode_utf8(b);
}

/// Distinct nibbles have distinct digits.
pub proof fn lemma_hex_digit_injective(m: int, n: int)
    requires
        0 <= m < 16,
        0 <= n < 16,
        hex_digit(m) == hex_digit(n),
    ensures
        m == n,
{
}

/// Hexadecimal text determines the bytes it was written from.
pub proof fn lemma_hex_lower_injective(a: Seq<u8>, b: Seq<u8>)
    requires
        hex_lower(a) == hex_lower(b),
    ensures
        a == b,
{
    assert(hex_lower(a).len() == 2 * a.len());
    assert(hex_lower(b).len() == 2 * b.len());
    assert forall|k: int| 0 <= k < a.len() implies a[k] == b[k] by {
        let hi: int = 2 * k;
        let lo: int = 2 * k + 1;
        assert(hex_lower(a)[hi] == hex_digit(a[k] as int / 16));
        assert(hex_lower(b)[hi] == hex_digit(b[k] as int / 16));
        assert(hex_lower(a)[lo] == hex_digit(a[k] as int % 16));
        assert(hex_lower(b)[lo] == hex_digit(b[k] as int % 16));
        lemma_hex_digit_injective(a[k] as int / 16, b[k] as int / 16);
        lemma_hex_digit_injective(a[k] as int % 16, b[k] as int % 16);
    }
    assert(a =~= b);
}

/// Fingerprinting is a function of the content alone: equal contents have
/// equal fingerprints, and two contents share a fingerprint exactly when they
/// share a SHA-256 digest.
pub proof fn lemma_fingerprint_identity(x: Seq<u8>, y: Seq<u8>)
    ensures
        x == y ==> spec_sha256(x) == spec_sha256(y),
        spec_sha256(x) == spec_sha256(y) <==> sha256_digest(x) == sha256_digest(y),
{
    if spec_sha256(x) == spec_sha256(y) {
        lemma_hex_lower_injective(sha256_digest(x), sha256_digest(y));
    }
}

} // verus!
