//! Bounded text: byte lengths, character classes and message building.

use vstd::prelude::*;
use vstd::utf8::encode_utf8;

verus! {

/// Number of bytes in the UTF-8 encoding of a text.
pub open spec fn utf8_len(text: Seq<char>) -> nat {
    encode_utf8(text).len()
}

/// Returns the UTF-8 byte length of a text.
pub fn byte_len(text: &str) -> (length: usize)
    ensures
        length == utf8_len(text@),
{
    text.as_bytes().len()
}

/// The Unicode `White_Space` property, as trimming uses it.
pub open spec fn is_whitespace(c: char) -> bool {
    let code = c as int;
    ||| 0x09 <= code <= 0x0d
    ||| code == 0x20
    ||| code == 0x85
    ||| code == 0xa0
    ||| code == 0x1680
    ||| 0x2000 <= code <= 0x200a
    ||| code == 0x2028
    ||| code == 0x2029
    ||| code == 0x202f
    ||| code == 0x205f
    ||| code == 0x3000
}

/// The Unicode general category `Cc`.
pub open spec fn is_control(c: char) -> bool {
    ||| (c as int) <= 0x1f
    ||| 0x7f <= (c as int) <= 0x9f
}

/// Whether a text is empty once leading and trailing white space is removed.
pub open spec fn is_blank(text: Seq<char>) -> bool {
    forall|i: int| 0 <= i < text.len() ==> is_whitespace(#[trigger] text[i])
}

/// Whether any character of a text is a control character.
pub open spec fn has_control(text: Seq<char>) -> bool {
    exists|i: int| 0 <= i < text.len() && is_control(#[trigger] text[i])
}

pub(crate) fn whitespace_char(c: char) -> (result: bool)
    ensures
        result == is_whitespace(c),
{
    let code: u32 = c as u32;
    (0x09 <= code && code <= 0x0d) || code == 0x20 || code == 0x85 || code == 0xa0 || code == 0x1680
        || (0x2000 <= code && code <= 0x200a) || code == 0x2028 || code == 0x2029 || code == 0x202f
        || code == 0x205f || code == 0x3000
}

fn control_char(c: char) -> (result: bool)
    ensures
        result == is_control(c),
{
    let code: u32 = c as u32;
    code <= 0x1f || (0x7f <= code && code <= 0x9f)
}

/// Decides whether a text holds nothing but white space.
pub fn blank(text: &str) -> (result: bool)
    ensures
        result == is_blank(text@),
{
    for c in it: text.chars()
        invariant
            it.seq() == text@,
            forall|i: int| 0 <= i < it.index() ==> is_whitespace(#[trigger] text@[i]),
    {
        if !whitespace_char(c) {
            assert(text@[it.index()] == c);
            return false;
        }
    }
    true
}

/// Decides whether a text holds a control character.
pub fn contains_control(text: &str) -> (result: bool)
    ensures
        result == has_control(text@),
{
    for c in it: text.chars()
        invariant
            it.seq() == text@,
            forall|i: int| 0 <= i < it.index() ==> !is_control(#[trigger] text@[i]),
    {
        if control_char(c) {
            assert(text@[it.index()] == c);
            return true;
        }
    }
    false
}

/// ASCII letters and digits.
pub open spec fn is_alphanumeric(c: char) -> bool {
    ||| '0' <= c <= '9'
    ||| 'A' <= c <= 'Z'
    ||| 'a' <= c <= 'z'
}

/// Characters of a portable name.
pub open spec fn is_name_char(c: char) -> bool {
    is_alphanumeric(c) || c == '.' || c == '_' || c == '-'
}

/// Characters of a portable identity, which may be hierarchical.
pub open spec fn is_identity_char(c: char) -> bool {
    is_name_char(c) || c == '/' || c == ':'
}

/// Whether a text is a portable name of bounded length: letters, digits, `.`,
/// `_` and `-`, starting with a letter or a digit.
pub open spec fn is_portable_name(text: Seq<char>, max_bytes: nat) -> bool {
    &&& text.len() > 0
    &&& utf8_len(text) <= max_bytes
    &&& is_alphanumeric(text[0])
    &&& forall|i: int| 0 <= i < text.len() ==> is_name_char(#[trigger] text[i])
}

/// Whether a text of bounded length consists of letters, digits, `.`, `_` and
/// `-`.
pub open spec fn is_plain_token(text: Seq<char>, max_bytes: nat) -> bool {
    &&& text.len() > 0
    &&& utf8_len(text) <= max_bytes
    &&& forall|i: int| 0 <= i < text.len() ==> is_name_char(#[trigger] text[i])
}

/// Whether a text is a portable identity of bounded length.
pub open spec fn is_portable_identity(text: Seq<char>, max_bytes: nat) -> bool {
    &&& text.len() > 0
    &&& utf8_len(text) <= max_bytes
    &&& forall|i: int| 0 <= i < text.len() ==> is_identity_char(#[trigger] text[i])
}

/// Whether a text is non-blank, bounded and free of control characters.
pub open spec fn is_label(text: Seq<char>, max_bytes: nat) -> bool {
    &&& !is_blank(text)
    &&& utf8_len(text) <= max_bytes
    &&& !has_control(text)
}

pub(crate) fn alphanumeric_char(c: char) -> (result: bool)
    ensures
        result == is_alphanumeric(c),
{
    ('0' <= c && c <= '9') || ('A' <= c && c <= 'Z') || ('a' <= c && c <= 'z')
}

fn name_char(c: char) -> (result: bool)
    ensures
        result == is_name_char(c),
{
    alphanumeric_char(c) || c == '.' || c == '_' || c == '-'
}

/// Decides whether a text of bounded length consists of letters, digits, `.`,
/// `_` and `-`.
pub fn plain_token(text: &str, max_bytes: usize) -> (result: bool)
    ensures
        result == is_plain_token(text@, max_bytes as nat),
{
    if text.unicode_len() == 0 || byte_len(text) > max_bytes {
        return false;
    }
    for c in it: text.chars()
        invariant
            it.seq() == text@,
            forall|i: int| 0 <= i < it.index() ==> is_name_char(#[trigger] text@[i]),
    {
        assert(text@[it.index()] == c);
        if !name_char(c) {
            return false;
        }
    }
    true
}

/// Decides whether a text is a portable name of bounded length.
pub fn portable_name(text: &str, max_bytes: usize) -> (result: bool)
    ensures
        result == is_portable_name(text@, max_bytes as nat),
{
    if byte_len(text) > max_bytes {
        return false;
    }
    let mut any: bool = false;
    for c in it: text.chars()
        invariant
            it.seq() == text@,
            any == (it.index() > 0),
            any ==> is_alphanumeric(text@[0]),
            forall|i: int| 0 <= i < it.index() ==> is_name_char(#[trigger] text@[i]),
    {
        assert(text@[it.index()] == c);
        if !name_char(c) || (!any && !alphanumeric_char(c)) {
            return false;
        }
        any = true;
    }
    any
}

/// Decides whether a text is a portable identity of bounded length.
pub fn portable_identity(text: &str, max_bytes: usize) -> (result: bool)
    ensures
        result == is_portable_identity(text@, max_bytes as nat),
{
    if text.is_empty() || byte_len(text) > max_bytes {
        return false;
    }
    for c in it: text.chars()
        invariant
            it.seq() == text@,
            forall|i: int| 0 <= i < it.index() ==> is_identity_char(#[trigger] text@[i]),
    {
        assert(text@[it.index()] == c);
        if !(name_char(c) || c == '/' || c == ':') {
            return false;
        }
    }
    true
}

/// Decides whether a text is non-blank, bounded and free of control characters.
pub fn label_text(text: &str, max_bytes: usize) -> (result: bool)
    ensures
        result == is_label(text@, max_bytes as nat),
{
    !blank(text) && byte_len(text) <= max_bytes && !contains_control(text)
}

/// Decimal digits of a natural number, most significant first.
pub open spec fn decimal(value: nat) -> Seq<char>
    decreases value,
{
    let digit = ('0' as u32 + value % 10) as char;
    if value < 10 {
        seq![digit]
    } else {
        decimal(value / 10).push(digit)
    }
}

fn digit_text(digit: u64) -> (result: &'static str)
    requires
        digit < 10,
    ensures
        result@ == seq![('0' as u32 + digit) as char],
{
    proof {
        reveal_strlit("0");
        reveal_strlit("1");
        reveal_strlit("2");
        reveal_strlit("3");
        reveal_strlit("4");
        reveal_strlit("5");
        reveal_strlit("6");
        reveal_strlit("7");
        reveal_strlit("8");
        reveal_strlit("9");
    }
    let result = match digit {
        0 => "0",
        1 => "1",
        2 => "2",
        3 => "3",
        4 => "4",
        5 => "5",
        6 => "6",
        7 => "7",
        8 => "8",
        _ => "9",
    };
    assert(result@ =~= seq![('0' as u32 + digit) as char]);
    result
}

/// Writes a number in decimal.
pub fn decimal_text(value: u64) -> (text: String)
    ensures
        text@ == decimal(value as nat),
    decreases value,
{
    let mut text = if value < 10 {
        String::new()
    } else {
        decimal_text(value / 10)
    };
    text.append(digit_text(value % 10));
    assert(text@ =~= decimal(value as nat));
    text
}

/// Quoted and escaped form of a text, as diagnostics show it.
pub uninterp spec fn quoted(text: Seq<char>) -> Seq<char>;

/// Formats a text with the `Debug` implementation of `str`, whose result is a
/// function of the text alone.
#[verifier::external_body]
pub(crate) fn quoted_text(text: &str) -> (result: String)
    ensures
        result@ == quoted(text@),
{
    format!("{text:?}")
}

/// Concatenates two texts.
pub fn join2(a: &str, b: &str) -> (text: String)
    ensures
        text@ == a@ + b@,
{
    let mut text = String::from_str(a);
    text.append(b);
    text
}

/// Concatenates three texts.
pub fn join3(a: &str, b: &str, c: &str) -> (text: String)
    ensures
        text@ == a@ + b@ + c@,
{
    let mut text = join2(a, b);
    text.append(c);
    text
}

/// Concatenates four texts.
pub fn join4(a: &str, b: &str, c: &str, d: &str) -> (text: String)
    ensures
        text@ == a@ + b@ + c@ + d@,
{
    let mut text = join3(a, b, c);
    text.append(d);
    text
}

/// Concatenates five texts.
pub fn join5(a: &str, b: &str, c: &str, d: &str, e: &str) -> (text: String)
    ensures
        text@ == a@ + b@ + c@ + d@ + e@,
{
    let mut text = join4(a, b, c, d);
    text.append(e);
    text
}

/// Decides whether two texts are the same sequence of characters.
pub fn same_text(a: &str, b: &str) -> (result: bool)
    ensures
        result == (a@ == b@),
{
    let left = a.as_bytes();
    let right = b.as_bytes();
    proof {
        vstd::utf8::encode_utf8_decode_utf8(a@);
        vstd::utf8::encode_utf8_decode_utf8(b@);
    }
    if left.len() != right.len() {
        return false;
    }
    let mut i: usize = 0;
    while i < left.len()
        invariant
            left@ == encode_utf8(a@),
            right@ == encode_utf8(b@),
            left@.len() == right@.len(),
            i <= left@.len(),
            forall|k: int| 0 <= k < i ==> left@[k] == right@[k],
        decreases left@.len() - i,
    {
        if left[i] != right[i] {
            return false;
        }
        i += 1;
    }
    assert(left@ =~= right@);
    true
}

/// Texts with the same beginning are equal where what stands behind it is.
pub proof fn lemma_cancel(before: Seq<char>, a: Seq<char>, b: Seq<char>)
    requires
        before + a == before + b,
    ensures
        a == b,
{
    let n = before.len() as int;
    assert((before + a).skip(n) =~= a);
    assert((before + b).skip(n) =~= b);
}

/// Texts with the same end are equal where what stands before it is.
pub proof fn lemma_cancel_behind(a: Seq<char>, b: Seq<char>, behind: Seq<char>)
    requires
        a + behind == b + behind,
    ensures
        a == b,
{
    assert((a + behind).len() == (b + behind).len());
    assert((a + behind).take(a.len() as int) =~= a);
    assert((b + behind).take(b.len() as int) =~= b);
}


proof fn lemma_decimal_digits(value: nat)
    ensures
        decimal(value).len() >= 1,
        value >= 10 ==> decimal(value).len() >= 2,
        forall|k: int| 0 <= k < decimal(value).len() ==> '0' <= #[trigger] decimal(value)[k] <= '9',
    decreases value,
{
    if value >= 10 {
        lemma_decimal_digits(value / 10);
        assert forall|k: int| 0 <= k < decimal(value).len() implies '0' <= #[trigger] decimal(value)[k] <= '9' by {
            if k < decimal(value / 10).len() {
                assert(decimal(value)[k] == decimal(value / 10)[k]);
            }
        }
    }
}

proof fn lemma_decimal_differs(a: nat, b: nat)
    requires
        decimal(a) == decimal(b),
    ensures
        a == b,
    decreases a,
{
    lemma_decimal_digits(a);
    lemma_decimal_digits(b);
    let (last_a, last_b) = (('0' as u32 + a % 10) as char, ('0' as u32 + b % 10) as char);
    assert(decimal(a).last() == last_a);
    assert(decimal(b).last() == last_b);
    assert(last_a as u32 == 48 + a % 10 && last_b as u32 == 48 + b % 10);
    if a >= 10 {
        assert(b >= 10);
        assert(decimal(a).drop_last() =~= decimal(a / 10));
        assert(decimal(b).drop_last() =~= decimal(b / 10));
        lemma_decimal_differs(a / 10, b / 10);
    } else {
        assert(b < 10);
    }
}

/// A number in decimal can be read back: where no digit follows, it determines
/// the number and where it ends.
pub proof fn law_decimals_are_read_back(a: nat, b: nat, behind_a: Seq<char>, behind_b: Seq<char>)
    requires
        decimal(a) + behind_a == decimal(b) + behind_b,
        behind_a.len() > 0,
        behind_b.len() > 0,
        !('0' <= behind_a[0] <= '9'),
        !('0' <= behind_b[0] <= '9'),
    ensures
        a == b,
        behind_a == behind_b,
{
    lemma_decimal_digits(a);
    lemma_decimal_digits(b);
    let left = decimal(a) + behind_a;
    let right = decimal(b) + behind_b;
    let (n, m) = (decimal(a).len() as int, decimal(b).len() as int);
    if n < m {
        assert(left[n] == behind_a[0]);
        assert(right[n] == decimal(b)[n]);
    }
    if m < n {
        assert(right[m] == behind_b[0]);
        assert(left[m] == decimal(a)[m]);
    }
    assert(left.take(n) =~= decimal(a));
    assert(right.take(m) =~= decimal(b));
    lemma_decimal_differs(a, b);
    lemma_cancel(decimal(a), behind_a, behind_b);
}

} // verus!
