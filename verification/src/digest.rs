//! Content digests: the SHA-256 call behind the integrity check, hex
//! encoding of digests, and the case-insensitive hex comparison the
//! update manifest asks for.

use vstd::prelude::*;
#[allow(unused_imports)]
use sha2::Digest;

verus! {

/// The SHA-256 digest of a byte sequence, as the sha2 crate computes it.
pub uninterp spec fn sha256_of(bytes: Seq<u8>) -> Seq<u8>;

/// Relies on sha2's `Sha256::digest`: the 32-byte SHA-256 digest of the
/// input, a function of the input bytes alone.
#[verifier::external_body]
fn sha256(bytes: &[u8]) -> (r: Vec<u8>)
    ensures
        r@ == sha256_of(bytes@),
        r@.len() == 32,
{
    sha2::Sha256::digest(bytes).as_slice().to_vec()
}

/// The lowercase hex digit characters, by value.
pub open spec fn hex_char(d: int) -> char {
    if d == 0 {
        '0'
    } else if d == 1 {
        '1'
    } else if d == 2 {
        '2'
    } else if d == 3 {
        '3'
    } else if d == 4 {
        '4'
    } else if d == 5 {
        '5'
    } else if d == 6 {
        '6'
    } else if d == 7 {
        '7'
    } else if d == 8 {
        '8'
    } else if d == 9 {
        '9'
    } else if d == 10 {
        'a'
    } else if d == 11 {
        'b'
    } else if d == 12 {
        'c'
    } else if d == 13 {
        'd'
    } else if d == 14 {
        'e'
    } else {
        'f'
    }
}

/// Lowercase hex encoding of a byte sequence, two digits per byte,
/// high nibble first.
pub open spec fn hex_of(bytes: Seq<u8>) -> Seq<char>
    decreases bytes.len(),
{
    if bytes.len() == 0 {
        Seq::empty()
    } else {
        seq![hex_char(bytes[0] as int / 16), hex_char(bytes[0] as int % 16)] + hex_of(bytes.skip(1))
    }
}

/// The one-character string of a hex digit value.
fn hex_str(d: u8) -> (r: &'static str)
    requires
        d <= 15,
    ensures
        r@ =~= seq![hex_char(d as int)],
{
    let r = match d {
        0 => "0",
        1 => "1",
        2 => "2",
        3 => "3",
        4 => "4",
        5 => "5",
        6 => "6",
        7 => "7",
        8 => "8",
        9 => "9",
        10 => "a",
        11 => "b",
        12 => "c",
        13 => "d",
        14 => "e",
        _ => "f",
    };
    proof {
        reveal_strlit("0");
        reveal_strlit("1");
        reveal_strlit("2");
        reveal_strlit("3");
        reveal_strlit("4");
        reveal_strlit("5");
        reveal_strlit("6");
        reveal_strlit("7");
        reveal_strlit("8");
        reveal_strlit("9");
        reveal_strlit("a");
        reveal_strlit("b");
        reveal_strlit("c");
        reveal_strlit("d");
        reveal_strlit("e");
        reveal_strlit("f");
    }
    r
}

/// Encodes bytes as lowercase hex, two digits per byte.
pub fn hex_encode(bytes: &[u8]) -> (r: String)
    ensures
        r@ == hex_of(bytes@),
{
    let mut s = String::new();
    let mut i: usize = 0;
    proof {
        assert(bytes@.skip(0) =~= bytes@);
    }
    while i < bytes.len()
        invariant
            i <= bytes@.len(),
            s@ + hex_of(bytes@.skip(i as int)) == hex_of(bytes@),
        decreases bytes@.len() - i,
    {
        let b = bytes[i];
        s.append(hex_str(b / 16));
        s.append(hex_str(b % 16));
        proof {
            assert(bytes@.skip(i as int)[0] == b);
            assert(bytes@.skip(i as int).skip(1) =~= bytes@.skip(i + 1));
            assert(hex_of(bytes@.skip(i as int)) == seq![hex_char(b as int / 16), hex_char(b as int % 16)]
                + hex_of(bytes@.skip(i + 1)));
            assert(s@ + hex_of(bytes@.skip(i + 1)) =~= hex_of(bytes@));
        }
        i += 1;
    }
    proof {
        assert(bytes@.skip(bytes@.len() as int) =~= Seq::<u8>::empty());
        assert(s@ =~= hex_of(bytes@));
    }
    s
}

/// Folds an uppercase hex letter to lowercase; other characters are kept.
pub open spec fn fold_hex(c: char) -> char {
    if c == 'A' {
        'a'
    } else if c == 'B' {
        'b'
    } else if c == 'C' {
        'c'
    } else if c == 'D' {
        'd'
    } else if c == 'E' {
        'e'
    } else if c == 'F' {
        'f'
    } else {
        c
    }
}

/// Case-insensitive equality of hex texts: same length, and each pair of
/// characters equal once uppercase hex letters are folded to lowercase.
pub open spec fn hex_eq_ci(a: Seq<char>, b: Seq<char>) -> bool {
    a.len() == b.len() && forall|i: int| 0 <= i < a.len() ==> fold_hex(a[i]) == fold_hex(#[trigger] b[i])
}

/// Folds one character, in executable form.
fn fold_hex_char(c: char) -> (r: char)
    ensures
        r == fold_hex(c),
{
    match c {
        'A' => 'a',
        'B' => 'b',
        'C' => 'c',
        'D' => 'd',
        'E' => 'e',
        'F' => 'f',
        _ => c,
    }
}

/// Compares two hex texts case-insensitively.
pub fn hex_eq_ci_exec(a: &str, b: &str) -> (r: bool)
    ensures
        r == hex_eq_ci(a@, b@),
{
    let a_len = a.unicode_len();
    let b_len = b.unicode_len();
    if a_len != b_len {
        return false;
    }
    let mut i: usize = 0;
    while i < a_len
        invariant
            a_len == a@.len(),
            b_len == b@.len(),
            a_len == b_len,
            i <= a_len,
            forall|j: int| 0 <= j < i ==> fold_hex(a@[j]) == fold_hex(#[trigger] b@[j]),
        decreases a_len - i,
    {
        if fold_hex_char(a.get_char(i)) != fold_hex_char(b.get_char(i)) {
            return false;
        }
        i += 1;
    }
    true
}

/// The digest of a payload, as lowercase hex text.
pub open spec fn payload_digest_hex(payload: Seq<u8>) -> Seq<char> {
    hex_of(sha256_of(payload))
}

/// Whether a payload's digest matches an expected manifest hash,
/// compared case-insensitively.
pub open spec fn payload_matches(payload: Seq<u8>, expected_hex: Seq<char>) -> bool {
    hex_eq_ci(payload_digest_hex(payload), expected_hex)
}

/// Computes a payload's SHA-256 digest as lowercase hex text.
pub fn digest_hex(payload: &[u8]) -> (r: String)
    ensures
        r@ == payload_digest_hex(payload@),
{
    let d = sha256(payload);
    hex_encode(d.as_slice())
}

/// Decides whether a payload's digest matches the expected manifest hash.
pub fn verify_payload(payload: &[u8], expected_hex: &str) -> (r: bool)
    ensures
        r == payload_matches(payload@, expected_hex@),
{
    let d = digest_hex(payload);
    hex_eq_ci_exec(d.as_str(), expected_hex)
}

} // verus!
