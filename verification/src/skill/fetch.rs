//! Acceptance of fetched packages.

use vstd::prelude::*;
use vstd::utf8::encode_utf8;

use crate::digest::{is_sha256_text, sha256_form};
use crate::error::{settles, ErrorView, HarnessError};
use crate::kernel::{capability_name_is_valid, invalid_name, validate_capability_name};
use crate::secret::{held_bytes, ErasingBytes, SecretValue};
use crate::skill::package::{package_check, package_identity, skill_error, validate_package};
use crate::skill::source::{ConfigView, HttpSkillResponse, HttpsSkillSourceConfig};
use crate::skill::trust::SignedSkillPackage;
use crate::skill::version::{SkillId, SkillIdView};
use crate::text::{decimal, decimal_text, is_whitespace, join2, join3, same_text, whitespace_char};

verus! {

/// Text before the first semicolon.
pub open spec fn before_semicolon(text: Seq<char>) -> Seq<char>
    decreases text.len(),
{
    if text.len() == 0 {
        text
    } else if text[0] == ';' {
        Seq::empty()
    } else {
        seq![text[0]] + before_semicolon(text.drop_first())
    }
}

/// Text without leading white space.
pub open spec fn trim_start(text: Seq<char>) -> Seq<char>
    decreases text.len(),
{
    if text.len() > 0 && is_whitespace(text[0]) {
        trim_start(text.drop_first())
    } else {
        text
    }
}

/// Text without trailing white space.
pub open spec fn trim_end(text: Seq<char>) -> Seq<char>
    decreases text.len(),
{
    if text.len() > 0 && is_whitespace(text.last()) {
        trim_end(text.drop_last())
    } else {
        text
    }
}

/// Character with ASCII capitals in lower case.
pub open spec fn lower(c: char) -> char {
    if 'A' <= c <= 'Z' {
        ((c as u32) + 32) as char
    } else {
        c
    }
}

/// Whether two texts agree up to the case of ASCII letters.
pub open spec fn same_ignoring_case(a: Seq<char>, b: Seq<char>) -> bool {
    a.len() == b.len() && forall|i: int| 0 <= i < a.len() ==> lower(#[trigger] a[i]) == lower(b[i])
}

/// Whether a media type, with or without parameters, is JSON.
pub open spec fn is_json_type(content_type: Seq<char>) -> bool {
    same_ignoring_case(trim_end(trim_start(before_semicolon(content_type))), "application/json"@)
}

fn lower_char(c: char) -> (result: u32)
    ensures
        result == lower(c) as u32,
{
    let code: u32 = c as u32;
    if 'A' <= c && c <= 'Z' {
        code + 32
    } else {
        code
    }
}

proof fn lemma_before_semicolon(text: Seq<char>, n: int)
    requires
        0 <= n <= text.len(),
        forall|i: int| 0 <= i < n ==> #[trigger] text[i] != ';',
        n == text.len() || text[n] == ';',
    ensures
        before_semicolon(text) == text.take(n),
    decreases text.len(),
{
    if n == 0 {
        assert(text.take(0) =~= Seq::empty());
        if text.len() == 0 {
            assert(text =~= Seq::empty());
        }
    } else {
        lemma_before_semicolon(text.drop_first(), n - 1);
        assert(text.take(n) =~= seq![text[0]] + text.drop_first().take(n - 1));
    }
}

fn media_part(content_type: &str) -> (part: Vec<char>)
    ensures
        part@ == before_semicolon(content_type@),
{
    let mut part: Vec<char> = Vec::new();
    for c in it: content_type.chars()
        invariant
            it.seq() == content_type@,
            part@ == content_type@.take(it.index()),
            forall|i: int| 0 <= i < it.index() ==> #[trigger] content_type@[i] != ';',
    {
        assert(content_type@[it.index()] == c);
        if c == ';' {
            proof {
                lemma_before_semicolon(content_type@, it.index());
            }
            return part;
        }
        part.push(c);
        assert(part@ =~= content_type@.take(it.index() + 1));
    }
    proof {
        lemma_before_semicolon(content_type@, content_type@.len() as int);
        assert(part@ =~= content_type@.take(content_type@.len() as int));
    }
    part
}

/// Decides whether a media type is JSON.
pub fn is_json_media_type(content_type: &str) -> (result: bool)
    ensures
        result == is_json_type(content_type@),
{
    let part = media_part(content_type);
    let ghost whole = part@;
    let mut start: usize = 0;
    assert(whole.skip(0) =~= whole);
    while start < part.len() && whitespace_char(part[start])
        invariant
            start <= part@.len(),
            part@ == whole,
            trim_start(whole) == trim_start(whole.skip(start as int)),
        decreases part@.len() - start,
    {
        assert(whole.skip(start as int).drop_first() =~= whole.skip(start + 1));
        start += 1;
    }
    let ghost tail = whole.skip(start as int);
    assert(trim_start(whole) == tail);
    let mut end: usize = part.len();
    assert(whole.subrange(start as int, end as int) =~= tail);
    while end > start && whitespace_char(part[end - 1])
        invariant
            start <= end <= part@.len(),
            part@ == whole,
            trim_end(tail) == trim_end(whole.subrange(start as int, end as int)),
        decreases end,
    {
        assert(whole.subrange(start as int, end as int).drop_last() =~= whole.subrange(start as int, end - 1));
        end -= 1;
    }
    let ghost trimmed = whole.subrange(start as int, end as int);
    assert(trim_end(tail) == trimmed);
    let expected = "application/json";
    if end - start != expected.unicode_len() {
        return false;
    }
    let mut k: usize = start;
    for c in it: expected.chars()
        invariant
            it.seq() == expected@,
            expected@ == "application/json"@,
            k == start + it.index(),
            start <= end <= part@.len(),
            part@ == whole,
            end - start == expected@.len(),
            trimmed == whole.subrange(start as int, end as int),
            trimmed == trim_end(trim_start(before_semicolon(content_type@))),
            forall|i: int| 0 <= i < it.index() ==> lower(#[trigger] trimmed[i]) == lower(expected@[i]),
    {
        assert(expected@[it.index()] == c);
        assert(trimmed[it.index()] == whole[k as int]);
        if lower_char(part[k]) != lower_char(c) {
            proof {
                assert(lower(trimmed[it.index()]) as u32 != lower(expected@[it.index()]) as u32);
            }
            return false;
        }
        proof {
            lemma_same_code(lower(trimmed[it.index()]), lower(c));
        }
        k += 1;
    }
    true
}

proof fn lemma_same_code(a: char, b: char)
    requires
        a as u32 == b as u32,
    ensures
        a == b,
{
}

/// Outcome of accepting a response.
pub open spec fn response_acceptance(config: ConfigView, response: HttpSkillResponse) -> Result<(), ErrorView> {
    if !(200 <= response.status < 300) {
        Err(ErrorView::Skill("remote Skill source returned HTTP status "@ + decimal(response.status as nat)))
    } else if response.body@.len() > config.max_response_bytes {
        Err(ErrorView::Skill("remote Skill response exceeded its configured limit"@))
    } else if response.content_type is None || !is_json_type(response.content_type->0@) {
        Err(ErrorView::Skill("remote Skill response must be application/json"@))
    } else {
        Ok(())
    }
}

/// Decides whether a response may be decoded.
pub fn accept_response(config: &HttpsSkillSourceConfig, response: &HttpSkillResponse) -> (result: Result<(), HarnessError>)
    ensures
        settles(result, response_acceptance(config@, *response)),
{
    if response.status < 200 || response.status >= 300 {
        let status = decimal_text(response.status as u64);
        return Err(HarnessError::Skill(join2("remote Skill source returned HTTP status ", status.as_str())));
    }
    if response.body.len() > config.max_response_bytes() {
        return Err(skill_error("remote Skill response exceeded its configured limit"));
    }
    let json = match &response.content_type {
        Some(content_type) => is_json_media_type(content_type.as_str()),
        None => false,
    };
    if !json {
        return Err(skill_error("remote Skill response must be application/json"));
    }
    Ok(())
}

/// Error that stands for every failure of a transport. What the transport
/// reported is no part of it.
pub fn transport_failure() -> (error: HarnessError)
    ensures
        error@ == ErrorView::Skill("remote Skill transport failed"@),
{
    skill_error("remote Skill transport failed")
}

/// Error of a body that cannot be decoded.
pub fn malformed_response() -> (error: HarnessError)
    ensures
        error@ == ErrorView::Skill("remote Skill response is malformed"@),
{
    skill_error("remote Skill response is malformed")
}

/// Outcome of checking what is expected of a source.
pub open spec fn pin_check(expected: SkillIdView, digest: Seq<char>) -> Result<(), ErrorView> {
    if !capability_name_is_valid(expected.name) {
        Err(invalid_name("expected Skill"@))
    } else if !is_sha256_text(digest) {
        Err(ErrorView::Skill("expected Skill digest must be 64 lowercase hexadecimal characters"@))
    } else {
        Ok(())
    }
}

/// Checks what is expected of a source before anything is requested.
pub fn validate_expected_pin(expected: &SkillId, digest: &str) -> (result: Result<(), HarnessError>)
    ensures
        settles(result, pin_check(expected@, digest@)),
{
    if let Err(error) = validate_capability_name("expected Skill", expected.name.as_str()) {
        return Err(error);
    }
    if !sha256_form(digest) {
        return Err(skill_error("expected Skill digest must be 64 lowercase hexadecimal characters"));
    }
    Ok(())
}

/// Outcome of holding a fetched package against its pin.
pub open spec fn fetched_check(signed: SignedSkillPackage, expected: SkillIdView, digest: Seq<char>) -> Result<(), ErrorView> {
    if package_check(signed.package) is Err {
        package_check(signed.package)
    } else if package_identity(signed.package) != expected {
        Err(ErrorView::Skill("remote Skill identity does not match expected "@ + expected.shown()))
    } else if signed.package.content_sha256@ != digest {
        Err(ErrorView::Skill("remote Skill "@ + expected.shown() + " does not match its expected content pin"@))
    } else {
        Ok(())
    }
}

/// Holds a fetched package against its pin.
pub fn validate_fetched(signed: &SignedSkillPackage, expected: &SkillId, digest: &str) -> (result: Result<(), HarnessError>)
    ensures
        settles(result, fetched_check(*signed, expected@, digest@)),
{
    if let Err(error) = validate_package(&signed.package) {
        return Err(error);
    }
    if !signed.package.id().same(expected) {
        let shown = expected.shown();
        return Err(HarnessError::Skill(join2("remote Skill identity does not match expected ", shown.as_str())));
    }
    if !same_text(signed.package.content_sha256.as_str(), digest) {
        let shown = expected.shown();
        return Err(
            HarnessError::Skill(
                join3("remote Skill ", shown.as_str(), " does not match its expected content pin"),
            ),
        );
    }
    Ok(())
}

/// Number that decimal digits denote, where all characters are digits.
pub open spec fn digits_value(digits: Seq<char>) -> Option<nat>
    decreases digits.len(),
{
    if digits.len() == 0 {
        Some(0)
    } else {
        match digits_value(digits.drop_last()) {
            Some(value) => if '0' <= digits.last() && digits.last() <= '9' {
                Some(10 * value + (digits.last() as nat - '0' as nat) as nat)
            } else {
                None
            },
            None => None,
        }
    }
}

/// Digits of a number behind its sign, where it has one.
pub open spec fn behind_sign(text: Seq<char>) -> Seq<char> {
    if text.len() > 0 && text[0] == '+' {
        text.skip(1)
    } else {
        text
    }
}

/// Length that a header declares: digits, behind a plus sign or not, of a
/// number that fits.
pub open spec fn declared(header: Seq<char>) -> Option<u64> {
    match digits_value(behind_sign(header)) {
        Some(value) => if behind_sign(header).len() > 0 && value <= u64::MAX {
            Some(value as u64)
        } else {
            None
        },
        None => None,
    }
}

/// Reads the length that a header declares.
pub fn declared_length(header: &str) -> (length: Option<u64>)
    ensures
        length == declared(header@),
{
    let mut value: u64 = 0;
    let mut fits: bool = true;
    let mut first: bool = true;
    let mut any: bool = false;
    for c in it: header.chars()
        invariant
            it.seq() == header@,
            first == (it.index() == 0),
            any == (behind_sign(header@.take(it.index())).len() > 0),
            fits == (digits_value(behind_sign(header@.take(it.index()))) matches Some(read) && read <= u64::MAX),
            fits ==> digits_value(behind_sign(header@.take(it.index()))) == Some(value as nat),
    {
        let ghost shorter = header@.take(it.index());
        let ghost longer = header@.take(it.index() + 1);
        proof {
            assert(longer.drop_last() =~= shorter);
            assert(longer.last() == c);
            if it.index() > 0 {
                assert(shorter[0] == longer[0]);
                assert(behind_sign(longer).drop_last() =~= behind_sign(shorter));
                assert(behind_sign(longer).last() == c);
            } else {
                assert(behind_sign(shorter) =~= Seq::empty());
                if c == '+' {
                    assert(behind_sign(longer) =~= Seq::empty());
                } else {
                    assert(behind_sign(longer).drop_last() =~= Seq::empty());
                }
            }
        }
        if !(first && c == '+') {
            any = true;
            if fits {
                if '0' <= c && c <= '9' {
                    let digit: u64 = c as u64 - '0' as u64;
                    match value.checked_mul(10) {
                        Some(tenfold) => match tenfold.checked_add(digit) {
                            Some(sum) => {
                                value = sum;
                            },
                            None => {
                                fits = false;
                            },
                        },
                        None => {
                            fits = false;
                        },
                    }
                } else {
                    fits = false;
                }
            }
        }
        first = false;
    }
    assert(header@.take(header@.len() as int) =~= header@);
    if any && fits {
        Some(value)
    } else {
        None
    }
}

/// Checks the length that a response declares.
pub fn validate_declared_length(length: Option<u64>, max_response_bytes: usize) -> (result: Result<(), HarnessError>)
    ensures
        match result {
            Ok(()) => length is None || length->0 <= max_response_bytes,
            Err(error) => length is Some && length->0 > max_response_bytes && error@ == ErrorView::Skill(
                "HTTPS Skill response declared an oversized body"@,
            ),
        },
{
    if let Some(length) = length {
        if length > max_response_bytes as u64 {
            return Err(skill_error("HTTPS Skill response declared an oversized body"));
        }
    }
    Ok(())
}

/// Bytes of a response that never outgrow their limit.
pub struct BoundedBody {
    bytes: Vec<u8>,
    limit: usize,
}

impl BoundedBody {
    /// Bytes so far.
    pub closed spec fn bytes(self) -> Seq<u8> {
        self.bytes@
    }

    /// Largest number of bytes.
    pub closed spec fn limit(self) -> usize {
        self.limit
    }

    #[verifier::type_invariant]
    spec fn bounded(self) -> bool {
        self.bytes@.len() <= self.limit
    }

    /// Starts without any bytes.
    pub fn new(limit: usize) -> (body: Self)
        ensures
            body.bytes().len() == 0,
            body.limit() == limit,
    {
        BoundedBody { bytes: Vec::new(), limit }
    }

    /// Adds a chunk, where it fits.
    pub fn push(&mut self, chunk: &[u8]) -> (result: Result<(), HarnessError>)
        ensures
            final(self).limit() == old(self).limit(),
            match result {
                Ok(()) => old(self).bytes().len() + chunk@.len() <= old(self).limit() && final(self).bytes() == old(
                    self,
                ).bytes() + chunk@,
                Err(error) => final(self).bytes() == old(self).bytes() && if old(self).bytes().len() + chunk@.len()
                    > usize::MAX {
                    error@ == ErrorView::Skill("HTTPS Skill response size overflow"@)
                } else {
                    old(self).bytes().len() + chunk@.len() > old(self).limit() && error@ == ErrorView::Skill(
                        "HTTPS Skill response exceeded its configured limit"@,
                    )
                },
            },
    {
        proof {
            use_type_invariant(&*self);
        }
        let next = match self.bytes.len().checked_add(chunk.len()) {
            Some(next) => next,
            None => {
                return Err(skill_error("HTTPS Skill response size overflow"));
            },
        };
        if next > self.limit {
            return Err(skill_error("HTTPS Skill response exceeded its configured limit"));
        }
        let mut bytes: Vec<u8> = Vec::new();
        std::mem::swap(&mut bytes, &mut self.bytes);
        bytes.extend_from_slice(chunk);
        self.bytes = bytes;
        Ok(())
    }

    /// Returns the bytes.
    pub fn into_bytes(self) -> (bytes: Vec<u8>)
        ensures
            bytes@ == self.bytes(),
            bytes@.len() <= self.limit(),
    {
        proof {
            use_type_invariant(&self);
        }
        self.bytes
    }
}

/// Whether an HTTP header value may hold this byte.
pub open spec fn is_header_byte(byte: u8) -> bool {
    byte == 9 || (byte >= 32 && byte != 127)
}

/// `reqwest::header::HeaderValue::from_bytes`: whether it accepts the bytes. It
/// does where each of them is a tab, or at least 32 and not 127.
#[verifier::external_body]
fn is_header_value(bytes: &[u8]) -> (result: bool)
    ensures
        result == forall|k: int| 0 <= k < bytes@.len() ==> is_header_byte(#[trigger] bytes@[k]),
{
    reqwest::header::HeaderValue::from_bytes(bytes).is_ok()
}

/// Value of a Bearer authorization header, erased when it is dropped.
#[derive(Debug)]
pub struct BearerHeader {
    bytes: ErasingBytes,
}

impl BearerHeader {
    /// Bytes of the header value.
    pub closed spec fn bytes(self) -> Seq<u8> {
        held_bytes(self.bytes)
    }

    /// Exposes the header value to the immediate request.
    pub fn expose_bytes(&self) -> (bytes: &[u8])
        ensures
            bytes@ == self.bytes(),
    {
        self.bytes.as_slice()
    }
}

/// Bytes of the Bearer authorization header for a credential.
pub open spec fn bearer_bytes(credential: Seq<u8>) -> Seq<u8> {
    encode_utf8("Bearer "@) + credential
}

/// Whether every byte may stand in an HTTP header value.
pub open spec fn header_safe(bytes: Seq<u8>) -> bool {
    forall|k: int| 0 <= k < bytes.len() ==> is_header_byte(#[trigger] bytes[k])
}

/// Makes the header value for a credential. The failure is content-free.
pub fn bearer_header(secret: SecretValue) -> (result: Result<BearerHeader, HarnessError>)
    ensures
        match result {
            Ok(header) => header_safe(secret.bytes()) && header.bytes() == bearer_bytes(secret.bytes()),
            Err(error) => !header_safe(secret.bytes()) && error@ == ErrorView::Skill(
                "private Skill Registry credential is not a valid HTTP header"@,
            ),
        },
{
    let mut bytes = vstd::slice::slice_to_vec("Bearer ".as_bytes());
    bytes.extend_from_slice(secret.expose_bytes());
    assert(bytes@ =~= bearer_bytes(secret.bytes()));
    let encoded = ErasingBytes::new(bytes);
    proof {
        lemma_bearer_prefix(secret.bytes());
    }
    if is_header_value(encoded.as_slice()) {
        Ok(BearerHeader { bytes: encoded })
    } else {
        Err(skill_error("private Skill Registry credential is not a valid HTTP header"))
    }
}

proof fn lemma_bearer_prefix(credential: Seq<u8>)
    ensures
        header_safe(bearer_bytes(credential)) == header_safe(credential),
{
    let prefix = encode_utf8("Bearer "@);
    let whole = bearer_bytes(credential);
    assert(header_safe(prefix)) by {
        reveal_strlit("Bearer ");
        assert(prefix =~= seq![66u8, 101u8, 97u8, 114u8, 101u8, 114u8, 32u8]) by {
            vstd::utf8::is_ascii_chars_encode_utf8("Bearer "@);
        }
    }
    if header_safe(whole) {
        assert forall|k: int| 0 <= k < credential.len() implies is_header_byte(#[trigger] credential[k]) by {
            assert(whole[prefix.len() + k] == credential[k]);
        }
    }
    if header_safe(credential) {
        assert forall|k: int| 0 <= k < whole.len() implies is_header_byte(#[trigger] whole[k]) by {
            if k < prefix.len() {
                assert(whole[k] == prefix[k]);
            } else {
                assert(whole[k] == credential[k - prefix.len()]);
            }
        }
    }
}

/// A package that passes its pin has exactly the expected identity and
/// content.
pub proof fn law_pinned_package_is_the_expected_one(signed: SignedSkillPackage, expected: SkillIdView, digest: Seq<char>)
    requires
        fetched_check(signed, expected, digest) is Ok,
    ensures
        package_check(signed.package) is Ok,
        package_identity(signed.package) == expected,
        signed.package.content_sha256@ == digest,
{
}

proof fn lemma_digits_are_read_back(value: nat)
    ensures
        digits_value(decimal(value)) == Some(value),
        decimal(value).len() > 0,
        decimal(value)[0] != '+',
    decreases value,
{
    let digits = decimal(value);
    assert(digits.last() as u32 == 48 + value % 10);
    if value < 10 {
        assert(digits.drop_last() =~= Seq::<char>::empty());
        assert(digits_value(digits.drop_last()) == Some(0nat));
    } else {
        lemma_digits_are_read_back(value / 10);
        assert(digits.drop_last() =~= decimal(value / 10));
    }
}

proof fn lemma_digits_only(digits: Seq<char>)
    ensures
        digits_value(digits) is Some <==> forall|k: int| 0 <= k < digits.len() ==> '0' <= #[trigger] digits[k] <= '9',
    decreases digits.len(),
{
    if digits.len() > 0 {
        lemma_digits_only(digits.drop_last());
        assert forall|k: int| 0 <= k < digits.len() - 1 implies digits.drop_last()[k] == #[trigger] digits[k] by {}
        if digits_value(digits) is None && (forall|k: int| 0 <= k < digits.len() ==> '0' <= #[trigger] digits[k] <= '9') {
            assert forall|k: int| 0 <= k < digits.drop_last().len() implies '0' <= #[trigger] digits.drop_last()[k] <= '9' by {
                assert('0' <= digits[k] <= '9');
            }
            assert('0' <= digits[digits.len() - 1] <= '9');
        }
        if digits_value(digits) is Some {
            assert forall|k: int| 0 <= k < digits.len() implies '0' <= #[trigger] digits[k] <= '9' by {
                if k < digits.len() - 1 {
                    assert('0' <= digits.drop_last()[k] <= '9');
                }
            }
        }
    }
}

/// A length that is declared in decimal digits is read as that number, with or
/// without a sign before it, unless it is out of range.
pub proof fn law_declared_lengths_are_read(value: nat)
    ensures
        declared(decimal(value)) == if value <= u64::MAX {
            Some(value as u64)
        } else {
            None
        },
        declared(seq!['+'] + decimal(value)) == if value <= u64::MAX {
            Some(value as u64)
        } else {
            None
        },
{
    lemma_digits_are_read_back(value);
    assert((seq!['+'] + decimal(value)).skip(1) =~= decimal(value));
}

/// Nothing but decimal digits behind at most one sign declares a length.
pub proof fn law_other_texts_declare_no_length(header: Seq<char>)
    ensures
        header.len() == 0 ==> declared(header) is None,
        declared(header) is Some && header[0] != '+' ==> forall|k: int|
            0 <= k < header.len() ==> '0' <= #[trigger] header[k] <= '9',
        declared(header) is Some && header[0] == '+' ==> header.len() > 1 && forall|k: int|
            1 <= k < header.len() ==> '0' <= #[trigger] header[k] <= '9',
{
    lemma_digits_only(behind_sign(header));
    if declared(header) is Some && header[0] == '+' {
        assert forall|k: int| 1 <= k < header.len() implies '0' <= #[trigger] header[k] <= '9' by {
            assert('0' <= header.skip(1)[k - 1] <= '9');
        }
    }
}

/// A credential is sent behind the name of its scheme, and only where every
/// byte of it may stand in a header: a tab, or anything from a space on but the
/// delete character.
pub proof fn law_credentials_are_sent_as_bearer_tokens(credential: Seq<u8>)
    ensures
        bearer_bytes(credential) == seq![66u8, 101u8, 97u8, 114u8, 101u8, 114u8, 32u8] + credential,
        header_safe(credential) <==> forall|k: int|
            0 <= k < credential.len() ==> #[trigger] credential[k] == 9 || 32 <= credential[k] <= 126 || 128 <= credential[k],
{
    reveal_strlit("Bearer ");
    vstd::utf8::is_ascii_chars_encode_utf8("Bearer "@);
    assert(encode_utf8("Bearer "@) =~= seq![66u8, 101u8, 97u8, 114u8, 101u8, 114u8, 32u8]);
}

} // verus!
