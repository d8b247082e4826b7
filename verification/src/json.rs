//! Bounded JSON documents.

use vstd::prelude::*;
use vstd::utf8::encode_utf8;

use crate::digest::{hex_digit, sha256_hex, sha256_text};
use crate::text::{byte_len, join3, utf8_len};

verus! {

/// Deepest accepted nesting of arrays and objects.
pub const MAX_JSON_DEPTH: usize = 64;

/// Most values that one accepted document may hold.
pub const MAX_JSON_NODES: usize = 65_536;

/// Compact encoding of the JSON value that a text denotes, or nothing where
/// the text denotes none.
pub uninterp spec fn canonical_json(text: Seq<char>) -> Option<Seq<char>>;

/// Parses a text with `serde_json::from_str` and writes the value back with
/// the compact `Display` of `serde_json::Value`. Whether a text parses, and
/// what is written back, are functions of the text alone.
#[verifier::external_body]
fn canonical_json_text(text: &str) -> (result: Option<String>)
    ensures
        match result {
            Some(compact) => canonical_json(text@) == Some(compact@),
            None => canonical_json(text@) is None,
        },
{
    serde_json::from_str::<serde_json::Value>(text).ok().map(|value| value.to_string())
}

/// A character inside a JSON string literal: quotation mark, backslash and
/// control characters are escaped, every other character stands for itself.
pub open spec fn json_char(c: char) -> Seq<char> {
    if c == '"' || c == '\\' {
        seq!['\\', c]
    } else if c == '\u{8}' {
        seq!['\\', 'b']
    } else if c == '\t' {
        seq!['\\', 't']
    } else if c == '\n' {
        seq!['\\', 'n']
    } else if c == '\u{c}' {
        seq!['\\', 'f']
    } else if c == '\r' {
        seq!['\\', 'r']
    } else if (c as u32) < 0x20 {
        seq!['\\', 'u', '0', '0', hex_digit(c as int / 16), hex_digit(c as int % 16)]
    } else {
        seq![c]
    }
}

/// Characters of a text as they stand inside a JSON string literal.
pub open spec fn json_chars(text: Seq<char>) -> Seq<char>
    decreases text.len(),
{
    if text.len() == 0 {
        Seq::empty()
    } else {
        json_chars(text.drop_last()) + json_char(text.last())
    }
}

/// JSON string literal that denotes a text.
pub open spec fn json_string(text: Seq<char>) -> Seq<char> {
    seq!['"'] + json_chars(text) + seq!['"']
}

/// Writes a text as a JSON string literal with the `Display` of
/// `serde_json::Value`: between quotation marks, with the escapes that its
/// compact form uses.
#[verifier::external_body]
pub(crate) fn json_string_text(text: &str) -> (literal: String)
    ensures
        literal@ == json_string(text@),
{
    serde_json::Value::String(text.to_owned()).to_string()
}

/// Whether a character stands in a JSON string literal as it is.
pub open spec fn is_plain(c: char) -> bool {
    c != '"' && c != '\\' && c as u32 >= 0x20
}

proof fn lemma_plain_chars(text: Seq<char>)
    requires
        forall|k: int| 0 <= k < text.len() ==> is_plain(#[trigger] text[k]),
    ensures
        json_chars(text) == text,
    decreases text.len(),
{
    if text.len() > 0 {
        let shorter = text.drop_last();
        assert forall|k: int| 0 <= k < shorter.len() implies is_plain(#[trigger] shorter[k]) by {
            assert(shorter[k] == text[k]);
        }
        lemma_plain_chars(shorter);
        assert(is_plain(text[text.len() - 1]));
        assert(shorter + seq![text.last()] =~= text);
    }
}

/// A text without quotation marks, backslashes and control characters stands
/// in its JSON string literal as it is.
pub proof fn law_plain_text_is_only_quoted(text: Seq<char>)
    requires
        forall|k: int| 0 <= k < text.len() ==> is_plain(#[trigger] text[k]),
    ensures
        json_string(text) == seq!['"'] + text + seq!['"'],
{
    lemma_plain_chars(text);
}

/// Escapes can be told apart: what a character is written as, whatever stands
/// behind it, determines the character.
proof fn lemma_char_is_read_back(a: char, b: char, behind_a: Seq<char>, behind_b: Seq<char>)
    requires
        json_char(a) + behind_a == json_char(b) + behind_b,
    ensures
        a == b,
        behind_a == behind_b,
{
    let left = json_char(a) + behind_a;
    let right = json_char(b) + behind_b;
    assert(left[0] == right[0] && left[0] == json_char(a)[0] && right[0] == json_char(b)[0]);
    if json_char(a).len() >= 2 {
        assert(json_char(b).len() >= 2);
        assert(left[1] == right[1] && left[1] == json_char(a)[1] && right[1] == json_char(b)[1]);
        if json_char(a).len() == 6 {
            assert(json_char(b).len() == 6);
            assert(left[4] == right[4] && left[4] == json_char(a)[4] && right[4] == json_char(b)[4]);
            assert(left[5] == right[5] && left[5] == json_char(a)[5] && right[5] == json_char(b)[5]);
            crate::digest::lemma_digits_differ(a as int / 16, b as int / 16);
            crate::digest::lemma_digits_differ(a as int % 16, b as int % 16);
        }
    }
    assert(a == b);
    assert(left.skip(json_char(a).len() as int) =~= behind_a);
    assert(right.skip(json_char(b).len() as int) =~= behind_b);
}

proof fn lemma_chars_from_the_front(text: Seq<char>)
    requires
        text.len() > 0,
    ensures
        json_chars(text) == json_char(text[0]) + json_chars(text.drop_first()),
    decreases text.len(),
{
    if text.len() == 1 {
        assert(json_chars(text.drop_last()) =~= Seq::<char>::empty());
        assert(json_chars(text.drop_first()) =~= Seq::<char>::empty());
        assert(json_chars(text) =~= json_char(text[0]) + json_chars(text.drop_first()));
    } else {
        let shorter = text.drop_last();
        lemma_chars_from_the_front(shorter);
        assert(shorter.drop_first() =~= text.drop_first().drop_last());
        assert(text.drop_first().last() == text.last());
        assert(json_chars(text) =~= json_char(text[0]) + json_chars(text.drop_first()));
    }
}

proof fn lemma_chars_are_read_back(a: Seq<char>, b: Seq<char>, behind_a: Seq<char>, behind_b: Seq<char>)
    requires
        json_chars(a) + seq!['"'] + behind_a == json_chars(b) + seq!['"'] + behind_b,
    ensures
        a == b,
        behind_a == behind_b,
    decreases a.len(),
{
    let left = json_chars(a) + seq!['"'] + behind_a;
    let right = json_chars(b) + seq!['"'] + behind_b;
    if a.len() > 0 {
        lemma_chars_from_the_front(a);
    }
    if b.len() > 0 {
        lemma_chars_from_the_front(b);
    }
    if a.len() == 0 && b.len() == 0 {
        assert(left.skip(1) =~= behind_a);
        assert(right.skip(1) =~= behind_b);
        assert(a =~= b);
    } else if a.len() == 0 {
        assert(left[0] == '"');
        assert(right[0] == json_char(b[0])[0]);
    } else if b.len() == 0 {
        assert(right[0] == '"');
        assert(left[0] == json_char(a[0])[0]);
    } else {
        let rest_a = json_chars(a.drop_first()) + seq!['"'] + behind_a;
        let rest_b = json_chars(b.drop_first()) + seq!['"'] + behind_b;
        assert(left =~= json_char(a[0]) + rest_a);
        assert(right =~= json_char(b[0]) + rest_b);
        lemma_char_is_read_back(a[0], b[0], rest_a, rest_b);
        lemma_chars_are_read_back(a.drop_first(), b.drop_first(), behind_a, behind_b);
        assert(a =~= seq![a[0]] + a.drop_first());
        assert(b =~= seq![b[0]] + b.drop_first());
    }
}

/// A JSON string literal can be read back: whatever stands behind it, it
/// determines the text that it denotes and where it ends.
pub proof fn law_string_literals_are_read_back(a: Seq<char>, b: Seq<char>, behind_a: Seq<char>, behind_b: Seq<char>)
    requires
        json_string(a) + behind_a == json_string(b) + behind_b,
    ensures
        a == b,
        behind_a == behind_b,
{
    let left = json_string(a) + behind_a;
    let right = json_string(b) + behind_b;
    let inner_a = json_chars(a) + seq!['"'] + behind_a;
    let inner_b = json_chars(b) + seq!['"'] + behind_b;
    assert(left =~= seq!['"'] + inner_a);
    assert(right =~= seq!['"'] + inner_b);
    assert(left.skip(1) =~= inner_a);
    assert(right.skip(1) =~= inner_b);
    lemma_chars_are_read_back(a, b, behind_a, behind_b);
}

/// Position of a scan relative to string literals.
#[derive(Clone, Copy, PartialEq, Eq, Structural)]
pub enum Literal {
    /// Outside every string literal.
    Outside,
    /// Inside a string literal.
    Inside,
    /// Behind a backslash inside a string literal.
    Escaped,
}

/// Progress of a scan over compact JSON.
pub struct Scan {
    /// Position relative to string literals.
    pub literal: Literal,
    /// Whether the last structural character opened a container.
    pub opened: bool,
    /// Containers that are open.
    pub depth: int,
    /// Most containers that were open at once.
    pub deepest: int,
    /// Values begun so far.
    pub nodes: int,
}

/// State of a scan before the first character: one value is due.
pub open spec fn scan_start() -> Scan {
    Scan { literal: Literal::Outside, opened: false, depth: 0, deepest: 0, nodes: 1 }
}

/// Effect of one character on a scan.
///
/// Outside string literals every comma announces one more value, and so does
/// every opened container unless it is closed again at once.
pub open spec fn scan_step(scan: Scan, c: char) -> Scan {
    match scan.literal {
        Literal::Escaped => Scan { literal: Literal::Inside, ..scan },
        Literal::Inside => if c == '"' {
            Scan { literal: Literal::Outside, ..scan }
        } else if c == '\\' {
            Scan { literal: Literal::Escaped, ..scan }
        } else {
            scan
        },
        Literal::Outside => if c == '"' {
            Scan { literal: Literal::Inside, opened: false, ..scan }
        } else if c == '[' || c == '{' {
            Scan {
                opened: true,
                depth: scan.depth + 1,
                deepest: if scan.depth + 1 > scan.deepest { scan.depth + 1 } else { scan.deepest },
                nodes: scan.nodes + 1,
                ..scan
            }
        } else if c == ']' || c == '}' {
            Scan { opened: false, depth: scan.depth - 1, nodes: if scan.opened { scan.nodes - 1 } else { scan.nodes }, ..scan }
        } else if c == ',' {
            Scan { opened: false, nodes: scan.nodes + 1, ..scan }
        } else {
            Scan { opened: false, ..scan }
        },
    }
}

/// Scan of a whole text.
pub open spec fn scan(text: Seq<char>) -> Scan {
    text.fold_left(scan_start(), |progress: Scan, c: char| scan_step(progress, c))
}

/// Deepest nesting of arrays and objects in a compact document.
pub open spec fn json_depth(text: Seq<char>) -> int {
    scan(text).deepest
}

/// Number of values in a compact document.
pub open spec fn json_nodes(text: Seq<char>) -> int {
    scan(text).nodes
}

/// Whether nesting and number of values are inside their bounds.
pub open spec fn shape_is_bounded(text: Seq<char>) -> bool {
    json_depth(text) <= MAX_JSON_DEPTH && json_nodes(text) <= MAX_JSON_NODES
}

/// Decides whether nesting and number of values of compact JSON are bounded.
fn bounded_shape(text: &str) -> (result: bool)
    ensures
        result == shape_is_bounded(text@),
{
    let total: usize = text.unicode_len();
    let ghost f = |progress: Scan, c: char| scan_step(progress, c);
    let mut literal: Literal = Literal::Outside;
    let mut opened: bool = false;
    let mut depth: i128 = 0;
    let mut deepest: i128 = 0;
    let mut nodes: i128 = 1;
    for c in it: text.chars()
        invariant
            it.seq() == text@,
            total == text@.len(),
            f == (|progress: Scan, c: char| scan_step(progress, c)),
            text@.take(it.index()).fold_left(scan_start(), f) == (Scan {
                literal,
                opened,
                depth: depth as int,
                deepest: deepest as int,
                nodes: nodes as int,
            }),
            -it.index() <= depth <= it.index(),
            0 <= deepest <= it.index(),
            1 - it.index() <= nodes <= 1 + it.index(),
    {
        proof {
            let shorter = text@.take(it.index());
            let longer = text@.take(it.index() + 1);
            assert(longer.drop_last() =~= shorter);
            assert(longer.last() == c);
        }
        match literal {
            Literal::Escaped => {
                literal = Literal::Inside;
            },
            Literal::Inside => {
                if c == '"' {
                    literal = Literal::Outside;
                } else if c == '\\' {
                    literal = Literal::Escaped;
                }
            },
            Literal::Outside => {
                if c == '"' {
                    literal = Literal::Inside;
                    opened = false;
                } else if c == '[' || c == '{' {
                    opened = true;
                    depth = depth + 1;
                    if depth > deepest {
                        deepest = depth;
                    }
                    nodes = nodes + 1;
                } else if c == ']' || c == '}' {
                    if opened {
                        nodes = nodes - 1;
                    }
                    opened = false;
                    depth = depth - 1;
                } else if c == ',' {
                    opened = false;
                    nodes = nodes + 1;
                } else {
                    opened = false;
                }
            },
        }
    }
    assert(text@.take(text@.len() as int) =~= text@);
    deepest <= MAX_JSON_DEPTH as i128 && nodes <= MAX_JSON_NODES as i128
}

/// JSON value held as its compact encoding.
#[derive(Debug, PartialEq, Eq)]
pub struct JsonDocument {
    text: String,
}

impl View for JsonDocument {
    type V = Seq<char>;

    closed spec fn view(&self) -> Seq<char> {
        self.text@
    }
}

impl Clone for JsonDocument {
    fn clone(&self) -> (result: Self)
        ensures
            result == *self,
    {
        JsonDocument { text: self.text.clone() }
    }
}

/// Why a document could not be measured or digested.
#[derive(Clone, Copy, Debug, PartialEq, Eq, Structural)]
pub enum BoundedJsonError {
    /// The encoding is longer than the limit.
    LimitExceeded,
    /// The value has no encoding.
    CannotEncode,
}

/// Encoded size of a document, bounded by a limit.
pub open spec fn bounded_size(encoding: Seq<char>, maximum: nat) -> Result<nat, BoundedJsonError> {
    if utf8_len(encoding) <= maximum {
        Ok(utf8_len(encoding))
    } else {
        Err(BoundedJsonError::LimitExceeded)
    }
}

/// Object with the single member `error`.
pub open spec fn error_object(message: Seq<char>) -> Seq<char> {
    "{\"error\":"@ + json_string(message) + "}"@
}

impl JsonDocument {
    /// Parses a text and keeps the compact encoding of its value.
    pub fn parse(text: &str) -> (result: Result<JsonDocument, BoundedJsonError>)
        ensures
            match result {
                Ok(document) => canonical_json(text@) == Some(document@),
                Err(error) => canonical_json(text@) is None && error == BoundedJsonError::CannotEncode,
            },
    {
        match canonical_json_text(text) {
            Some(text) => Ok(JsonDocument { text }),
            None => Err(BoundedJsonError::CannotEncode),
        }
    }

    /// Returns the compact encoding.
    pub fn as_str(&self) -> (text: &str)
        ensures
            text@ == self@,
    {
        self.text.as_str()
    }

    /// Creates an object with the single member `error`.
    pub fn error(message: &str) -> (document: JsonDocument)
        ensures
            document@ == error_object(message@),
    {
        let literal = json_string_text(message);
        JsonDocument { text: join3("{\"error\":", literal.as_str(), "}") }
    }

    /// Decides whether nesting and number of values are inside their bounds.
    pub fn shape_is_bounded(&self) -> (result: bool)
        ensures
            result == shape_is_bounded(self@),
    {
        bounded_shape(self.text.as_str())
    }

    /// Measures the encoding, where it is no longer than the limit.
    pub fn bounded_size(&self, maximum: usize) -> (result: Result<usize, BoundedJsonError>)
        ensures
            match result {
                Ok(size) => bounded_size(self@, maximum as nat) == Ok::<nat, BoundedJsonError>(size as nat),
                Err(error) => bounded_size(self@, maximum as nat) == Err::<nat, BoundedJsonError>(error),
            },
    {
        bounded_serialized_size(self.text.as_str(), maximum)
    }

    /// Digests the encoding, where it is no longer than the limit.
    pub fn bounded_sha256(&self, maximum: usize) -> (result: Result<String, BoundedJsonError>)
        ensures
            match result {
                Ok(digest) => utf8_len(self@) <= maximum && digest@ == sha256_hex(encode_utf8(self@)),
                Err(error) => utf8_len(self@) > maximum && error == BoundedJsonError::LimitExceeded,
            },
    {
        bounded_serialized_sha256(self.text.as_str(), maximum)
    }
}

/// Measures an encoding, where it is no longer than the limit.
pub fn bounded_serialized_size(encoding: &str, maximum: usize) -> (result: Result<usize, BoundedJsonError>)
    ensures
        match result {
            Ok(size) => bounded_size(encoding@, maximum as nat) == Ok::<nat, BoundedJsonError>(size as nat),
            Err(error) => bounded_size(encoding@, maximum as nat) == Err::<nat, BoundedJsonError>(error),
        },
{
    let size: usize = byte_len(encoding);
    if size <= maximum {
        Ok(size)
    } else {
        Err(BoundedJsonError::LimitExceeded)
    }
}

/// Digests an encoding, where it is no longer than the limit.
pub fn bounded_serialized_sha256(encoding: &str, maximum: usize) -> (result: Result<String, BoundedJsonError>)
    ensures
        match result {
            Ok(digest) => utf8_len(encoding@) <= maximum && digest@ == sha256_hex(encode_utf8(encoding@)),
            Err(error) => utf8_len(encoding@) > maximum && error == BoundedJsonError::LimitExceeded,
        },
{
    if byte_len(encoding) <= maximum {
        Ok(sha256_text(encoding.as_bytes()))
    } else {
        Err(BoundedJsonError::LimitExceeded)
    }
}

/// A document is measured in bytes, and has a size exactly where that is within
/// the bound.
pub proof fn law_documents_are_measured_in_bytes(encoding: Seq<char>, maximum: nat)
    ensures
        bounded_size(encoding, maximum) is Ok <==> vstd::utf8::encode_utf8(encoding).len() <= maximum,
        bounded_size(encoding, maximum) matches Ok(size) ==> size == vstd::utf8::encode_utf8(encoding).len(),
{
}

} // verus!
