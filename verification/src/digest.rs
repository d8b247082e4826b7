//! SHA-256 digests and their lower-case hexadecimal form.

use vstd::prelude::*;

verus! {

/// SHA-256 digest of a byte string.
pub uninterp spec fn sha256(bytes: Seq<u8>) -> Seq<u8>;

/// Calls `sha2::Sha256::digest`, whose result is a function of the bytes alone.
#[verifier::external_body]
pub(crate) fn sha256_bytes(bytes: &[u8]) -> (digest: [u8; 32])
    ensures
        digest@ == sha256(bytes@),
{
    <sha2::Sha256 as sha2::Digest>::digest(bytes).into()
}

/// Lower-case hexadecimal digit of a value below sixteen.
pub open spec fn hex_digit(value: int) -> char {
    if value < 10 {
        ('0' as u32 + value) as char
    } else {
        ('a' as u32 + (value - 10)) as char
    }
}

/// Lower-case hexadecimal form of a byte string, two digits for each byte.
pub open spec fn hex(bytes: Seq<u8>) -> Seq<char> {
    Seq::new(
        2 * bytes.len(),
        |i: int| hex_digit(if i % 2 == 0 { bytes[i / 2] as int / 16 } else { bytes[i / 2] as int % 16 }),
    )
}

fn hex_digit_text(value: u8) -> (digit: &'static str)
    requires
        value < 16,
    ensures
        digit@ == seq![hex_digit(value as int)],
{
    proof {
        reveal_strlit("0");
        reveal_strlit("1");
        reveal_strlit("2");
        reveal_strlit("3");
        reveal_strlit("4");
        reveal_strlit("5");
        reveal_strlit("6");
        reveal_strlit("7");
        reveal_strlit("8");
        reveal_strlit("9");
        reveal_strlit("a");
        reveal_strlit("b");
        reveal_strlit("c");
        reveal_strlit("d");
        reveal_strlit("e");
        reveal_strlit("f");
    }
    let digit = match value {
        0 => "0",
        1 => "1",
        2 => "2",
        3 => "3",
        4 => "4",
        5 => "5",
        6 => "6",
        7 => "7",
        8 => "8",
        9 => "9",
        10 => "a",
        11 => "b",
        12 => "c",
        13 => "d",
        14 => "e",
        _ => "f",
    };
    assert(digit@ =~= seq![hex_digit(value as int)]);
    digit
}

/// Writes a byte string in lower-case hexadecimal.
pub fn hex_text(bytes: &[u8]) -> (text: String)
    ensures
        text@ == hex(bytes@),
{
    let mut text = String::new();
    let mut i: usize = 0;
    while i < bytes.len()
        invariant
            i <= bytes@.len(),
            text@ == hex(bytes@.take(i as int)),
        decreases bytes@.len() - i,
    {
        let byte: u8 = bytes[i];
        let ghost before = text@;
        text.append(hex_digit_text(byte / 16));
        text.append(hex_digit_text(byte % 16));
        proof {
            let shorter = bytes@.take(i as int);
            let longer = bytes@.take(i + 1);
            assert(text@.len() == hex(longer).len());
            assert forall|k: int| 0 <= k < text@.len() implies text@[k] == hex(longer)[k] by {
                if k < before.len() {
                    assert(before[k] == hex(shorter)[k]);
                    assert(shorter[k / 2] == longer[k / 2]);
                }
            }
            assert(text@ =~= hex(longer));
        }
        i += 1;
    }
    assert(bytes@.take(i as int) =~= bytes@);
    text
}

/// Lower-case hexadecimal SHA-256 digest of a byte string.
pub open spec fn sha256_hex(bytes: Seq<u8>) -> Seq<char> {
    hex(sha256(bytes))
}

/// Digests a byte string and writes the digest in lower-case hexadecimal.
/// Whatever is written has the form of a digest.
pub fn sha256_text(bytes: &[u8]) -> (text: String)
    ensures
        text@ == sha256_hex(bytes@),
        is_sha256_text(text@),
{
    let digest = sha256_bytes(bytes);
    proof {
        lemma_digest_form(digest@);
    }
    hex_text(digest.as_slice())
}

/// Whether a text is a lower-case hexadecimal SHA-256 digest.
pub open spec fn is_sha256_text(text: Seq<char>) -> bool {
    &&& text.len() == 64
    &&& forall|i: int| 0 <= i < 64 ==> is_hex_digit(#[trigger] text[i])
}

/// Lower-case hexadecimal digits.
pub open spec fn is_hex_digit(c: char) -> bool {
    '0' <= c <= '9' || 'a' <= c <= 'f'
}

/// Decides whether a text is a lower-case hexadecimal SHA-256 digest.
pub fn sha256_form(text: &str) -> (result: bool)
    ensures
        result == is_sha256_text(text@),
{
    if text.unicode_len() != 64 {
        return false;
    }
    for c in it: text.chars()
        invariant
            it.seq() == text@,
            text@.len() == 64,
            forall|i: int| 0 <= i < it.index() ==> is_hex_digit(#[trigger] text@[i]),
    {
        assert(text@[it.index()] == c);
        if !(('0' <= c && c <= '9') || ('a' <= c && c <= 'f')) {
            return false;
        }
    }
    true
}

/// Hexadecimal digits can be told apart.
pub proof fn lemma_digits_differ(a: int, b: int)
    requires
        0 <= a < 16,
        0 <= b < 16,
        hex_digit(a) == hex_digit(b),
    ensures
        a == b,
{
}

/// The hexadecimal form determines the bytes.
pub proof fn law_hexadecimal_is_read_back(a: Seq<u8>, b: Seq<u8>)
    requires
        hex(a) == hex(b),
    ensures
        a == b,
{
    assert(hex(a).len() == 2 * a.len() && hex(b).len() == 2 * b.len());
    assert forall|k: int| 0 <= k < a.len() implies a[k] == b[k] by {
        let (high, low) = (2 * k, 2 * k + 1);
        assert(high / 2 == k && low / 2 == k && high % 2 == 0 && low % 2 == 1);
        assert(hex(a)[high] == hex_digit(a[k] as int / 16) && hex(b)[high] == hex_digit(b[k] as int / 16));
        assert(hex(a)[low] == hex_digit(a[k] as int % 16) && hex(b)[low] == hex_digit(b[k] as int % 16));
        lemma_digits_differ(a[k] as int / 16, b[k] as int / 16);
        lemma_digits_differ(a[k] as int % 16, b[k] as int % 16);
    }
    assert(a =~= b);
}

/// Whether two different byte strings have the same SHA-256 digest.
pub open spec fn sha256_collides() -> bool {
    exists|a: Seq<u8>, b: Seq<u8>| a != b && #[trigger] sha256(a) == #[trigger] sha256(b)
}

/// Equal digests are digests of equal bytes, up to a collision of SHA-256.
pub proof fn law_equal_digests_have_equal_bytes(a: Seq<u8>, b: Seq<u8>)
    requires
        sha256_hex(a) == sha256_hex(b),
    ensures
        a == b || sha256_collides(),
{
    law_hexadecimal_is_read_back(sha256(a), sha256(b));
}

proof fn lemma_digest_form(digest: Seq<u8>)
    requires
        digest.len() == 32,
    ensures
        is_sha256_text(hex(digest)),
{
}

} // verus!
