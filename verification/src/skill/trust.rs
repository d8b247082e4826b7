//! Publisher signatures, transparency receipts, and operator trust.

use vstd::prelude::*;
use vstd::slice::slice_to_vec;
use vstd::utf8::encode_utf8;

use crate::error::{settles, ErrorView, HarnessError};
use crate::json::{json_string, json_string_text};
use crate::kernel::{capability_name_is_valid, invalid_name, validate_capability_name};
use crate::skill::package::{joined, package_check, skill_error, validate_package, SkillPackage};
use crate::text::{decimal, decimal_text, is_plain_token, join2, plain_token};

verus! {

/// Largest number of trusted keys of each sort.
pub const MAX_SKILL_TRUST_ANCHORS: usize = 4_096;

/// Longest accepted identity of a log entry, in bytes.
pub const MAX_TRANSPARENCY_ENTRY_ID_BYTES: usize = 256;

/// How far the clock of a log may run ahead, in milliseconds.
pub const MAX_TRANSPARENCY_CLOCK_SKEW_MS: u64 = 300_000;

/// Number of bytes in an Ed25519 signature.
pub const SIGNATURE_BYTES: usize = 64;

/// Detached publisher signature over one digest-verified Skill package.
#[derive(Clone, Debug, PartialEq, Eq)]
pub struct SkillSignature {
    /// Operator-configured trusted publisher identity.
    pub key_id: String,
    /// Raw 64-byte Ed25519 signature.
    pub ed25519: Vec<u8>,
}

/// Publisher policy for signed transparency receipts.
#[derive(Clone, Copy, Debug, PartialEq, Eq, Structural)]
pub enum SkillTransparencyRequirement {
    /// A missing receipt is accepted; any supplied receipt is still verified.
    Optional,
    /// Every package signed by this publisher must carry a valid receipt.
    Required,
}

impl Default for SkillTransparencyRequirement {
    fn default() -> (requirement: Self)
        ensures
            requirement is Optional,
    {
        SkillTransparencyRequirement::Optional
    }
}

/// Time and transparency policy for one trusted publisher key.
#[derive(Clone, Copy, Debug, PartialEq, Eq)]
pub struct SkillPublisherPolicy {
    /// First Unix millisecond at which signatures are accepted.
    pub not_before_ms: Option<u64>,
    /// Exclusive Unix millisecond after which signatures are rejected.
    pub not_after_ms: Option<u64>,
    /// Whether a trusted-log receipt is mandatory.
    pub transparency: SkillTransparencyRequirement,
}

impl Default for SkillPublisherPolicy {
    fn default() -> (policy: Self)
        ensures
            policy == open_policy(),
    {
        SkillPublisherPolicy {
            not_before_ms: None,
            not_after_ms: None,
            transparency: SkillTransparencyRequirement::Optional,
        }
    }
}

/// Policy without any restriction.
pub open spec fn open_policy() -> SkillPublisherPolicy {
    SkillPublisherPolicy {
        not_before_ms: None,
        not_after_ms: None,
        transparency: SkillTransparencyRequirement::Optional,
    }
}

/// Signed transparency receipt binding one publisher signature to one package.
#[derive(Clone, Debug, PartialEq, Eq)]
pub struct SkillTransparencyReceipt {
    /// Operator-configured transparency-log identity.
    pub log_id: String,
    /// Opaque unique entry identity assigned by the log.
    pub entry_id: String,
    /// Unix millisecond at which the log integrated the entry.
    pub integrated_at_ms: u64,
    /// Raw 64-byte Ed25519 signature by the configured log key.
    pub ed25519: Vec<u8>,
}

/// Skill package and its detached publisher signature.
#[derive(Clone, Debug, PartialEq, Eq)]
pub struct SignedSkillPackage {
    /// Digest-pinned declarative package.
    pub package: SkillPackage,
    /// Detached authenticity proof.
    pub signature: SkillSignature,
    /// Optional signed transparency receipt, required by publisher policy.
    pub transparency: Option<SkillTransparencyReceipt>,
}

/// Content-free immutable key-revocation record.
#[derive(Debug, PartialEq, Eq)]
pub struct SkillKeyRevocation {
    /// Unix millisecond at which the key stops being accepted.
    pub revoked_at_ms: u64,
    /// Stable operator reason code.
    pub reason_code: String,
}

impl Clone for SkillKeyRevocation {
    fn clone(&self) -> (result: Self)
        ensures
            result == *self,
    {
        SkillKeyRevocation { revoked_at_ms: self.revoked_at_ms, reason_code: self.reason_code.clone() }
    }
}

/// Verified transparency evidence preserved with external Skill provenance.
#[derive(Debug, PartialEq, Eq)]
pub struct VerifiedSkillTransparency {
    /// Trusted transparency-log identity.
    pub log_id: String,
    /// Opaque log entry identity.
    pub entry_id: String,
    /// Log integration time in Unix milliseconds.
    pub integrated_at_ms: u64,
}

impl Clone for VerifiedSkillTransparency {
    fn clone(&self) -> (result: Self)
        ensures
            result == *self,
    {
        VerifiedSkillTransparency {
            log_id: self.log_id.clone(),
            entry_id: self.entry_id.clone(),
            integrated_at_ms: self.integrated_at_ms,
        }
    }
}

/// Text whose bytes a publisher signs.
pub open spec fn publisher_message(content_sha256: Seq<char>) -> Seq<char> {
    "y-harness-skill-v1\0"@ + content_sha256
}

/// Returns domain-separated bytes for a publisher to sign.
pub fn skill_signing_bytes(package: &SkillPackage) -> (bytes: Vec<u8>)
    ensures
        bytes@ == encode_utf8(publisher_message(package.content_sha256@)),
{
    let message = join2("y-harness-skill-v1\0", package.content_sha256.as_str());
    slice_to_vec(message.as_str().as_bytes())
}

/// Encoding of a signature as a list of numbers, without brackets.
pub open spec fn bytes_json(bytes: Seq<u8>) -> Seq<char> {
    joined(bytes.len(), |k: int| decimal(bytes[k] as nat))
}

/// Text whose bytes a transparency log signs. The signature of the log itself
/// is no part of it.
pub open spec fn transparency_message(
    log_id: Seq<char>,
    entry_id: Seq<char>,
    integrated_at_ms: u64,
    content_sha256: Seq<char>,
    key_id: Seq<char>,
    signature: Seq<u8>,
) -> Seq<char> {
    "y-harness-skill-transparency-v1\0"@ + "{\"log_id\":"@ + json_string(log_id) + ",\"entry_id\":"@ + json_string(entry_id)
        + ",\"integrated_at_ms\":"@ + decimal(integrated_at_ms as nat) + ",\"content_sha256\":"@ + json_string(
        content_sha256,
    ) + ",\"publisher_key_id\":"@ + json_string(key_id) + ",\"publisher_signature\":["@ + bytes_json(signature) + "]}"@
}

/// Text whose bytes the log of a receipt signs.
pub open spec fn receipt_message(signed: SignedSkillPackage, receipt: SkillTransparencyReceipt) -> Seq<char> {
    transparency_message(
        receipt.log_id@,
        receipt.entry_id@,
        receipt.integrated_at_ms,
        signed.package.content_sha256@,
        signed.signature.key_id@,
        signed.signature.ed25519@,
    )
}

fn bytes_text(bytes: &Vec<u8>) -> (text: String)
    ensures
        text@ == bytes_json(bytes@),
{
    let ghost part = |k: int| decimal(bytes@[k] as nat);
    let mut text = String::from_str("");
    proof {
        reveal_strlit("");
        assert(text@ =~= joined(0, part));
    }
    let mut k: usize = 0;
    while k < bytes.len()
        invariant
            k <= bytes@.len(),
            part == (|k: int| decimal(bytes@[k] as nat)),
            text@ == joined(k as nat, part),
        decreases bytes@.len() - k,
    {
        if k > 0 {
            text.append(",");
        }
        let entry = decimal_text(bytes[k] as u64);
        text.append(entry.as_str());
        proof {
            assert(entry@ == part(k as int));
            assert(text@ =~= joined((k + 1) as nat, part));
        }
        k += 1;
    }
    text
}

pub(crate) fn receipt_signing_bytes(signed: &SignedSkillPackage, receipt: &SkillTransparencyReceipt) -> (bytes: Vec<u8>)
    ensures
        bytes@ == encode_utf8(receipt_message(*signed, *receipt)),
{
    let mut message = String::from_str("y-harness-skill-transparency-v1\0");
    message.append("{\"log_id\":");
    let value = json_string_text(receipt.log_id.as_str());
    message.append(value.as_str());
    message.append(",\"entry_id\":");
    let value = json_string_text(receipt.entry_id.as_str());
    message.append(value.as_str());
    message.append(",\"integrated_at_ms\":");
    let value = decimal_text(receipt.integrated_at_ms);
    message.append(value.as_str());
    message.append(",\"content_sha256\":");
    let value = json_string_text(signed.package.content_sha256.as_str());
    message.append(value.as_str());
    message.append(",\"publisher_key_id\":");
    let value = json_string_text(signed.signature.key_id.as_str());
    message.append(value.as_str());
    message.append(",\"publisher_signature\":[");
    let value = bytes_text(&signed.signature.ed25519);
    message.append(value.as_str());
    message.append("]}");
    slice_to_vec(message.as_str().as_bytes())
}

/// No publisher signature can stand for a log signature, nor the other way
/// round: what they sign always differs.
pub proof fn law_signing_domains_are_separate(content_sha256: Seq<char>, signed: SignedSkillPackage, receipt: SkillTransparencyReceipt)
    ensures
        encode_utf8(publisher_message(content_sha256)) != encode_utf8(receipt_message(signed, receipt)),
{
    let (a, b) = (publisher_message(content_sha256), receipt_message(signed, receipt));
    reveal_strlit("y-harness-skill-v1\0");
    reveal_strlit("y-harness-skill-transparency-v1\0");
    assert(a[16] == 'v');
    assert(b[16] == 't');
    vstd::utf8::encode_utf8_decode_utf8(a);
    vstd::utf8::encode_utf8_decode_utf8(b);
}

/// Outcome of checking the shape of a receipt.
pub open spec fn receipt_shape_check(receipt: SkillTransparencyReceipt) -> Result<(), ErrorView> {
    if !capability_name_is_valid(receipt.log_id@) {
        Err(invalid_name("transparency log"@))
    } else if !is_plain_token(receipt.entry_id@, MAX_TRANSPARENCY_ENTRY_ID_BYTES as nat) {
        Err(
            ErrorView::Skill(
                "transparency entry id must be 1-256 ASCII letters, digits, '.', '_' or '-'"@,
            ),
        )
    } else if receipt.integrated_at_ms == 0 {
        Err(ErrorView::Skill("transparency integration time must be non-zero"@))
    } else {
        Ok(())
    }
}

/// Outcome of checking a receipt at a point of time.
pub open spec fn receipt_check(receipt: SkillTransparencyReceipt, observed_at_ms: u64) -> Result<(), ErrorView> {
    if receipt_shape_check(receipt) is Err {
        receipt_shape_check(receipt)
    } else if receipt.integrated_at_ms > observed_at_ms + MAX_TRANSPARENCY_CLOCK_SKEW_MS {
        Err(ErrorView::Skill("transparency integration time is too far in the future"@))
    } else {
        Ok(())
    }
}

fn validate_transparency_receipt_shape(receipt: &SkillTransparencyReceipt) -> (result: Result<(), HarnessError>)
    ensures
        settles(result, receipt_shape_check(*receipt)),
{
    if let Err(error) = validate_capability_name("transparency log", receipt.log_id.as_str()) {
        return Err(error);
    }
    if !plain_token(receipt.entry_id.as_str(), MAX_TRANSPARENCY_ENTRY_ID_BYTES) {
        return Err(skill_error("transparency entry id must be 1-256 ASCII letters, digits, '.', '_' or '-'"));
    }
    if receipt.integrated_at_ms == 0 {
        return Err(skill_error("transparency integration time must be non-zero"));
    }
    Ok(())
}

pub(crate) fn validate_transparency_receipt(receipt: &SkillTransparencyReceipt, observed_at_ms: u64) -> (result: Result<
    (),
    HarnessError,
>)
    ensures
        settles(result, receipt_check(*receipt, observed_at_ms)),
{
    if let Err(error) = validate_transparency_receipt_shape(receipt) {
        return Err(error);
    }
    if receipt.integrated_at_ms > observed_at_ms.saturating_add(MAX_TRANSPARENCY_CLOCK_SKEW_MS) {
        return Err(skill_error("transparency integration time is too far in the future"));
    }
    Ok(())
}

impl SkillPackage {
    /// Returns domain-separated bytes for an external publisher to sign.
    pub fn publisher_signing_bytes(&self) -> (result: Result<Vec<u8>, HarnessError>)
        ensures
            match result {
                Ok(bytes) => package_check(*self) is Ok && bytes@ == encode_utf8(
                    publisher_message(self.content_sha256@),
                ),
                Err(error) => package_check(*self) == Err::<(), ErrorView>(error@),
            },
    {
        match validate_package(self) {
            Ok(()) => Ok(skill_signing_bytes(self)),
            Err(error) => Err(error),
        }
    }
}

/// Outcome of preparing what a log signs.
pub open spec fn signing_material_check(signed: SignedSkillPackage) -> Result<(), ErrorView> {
    if package_check(signed.package) is Err {
        package_check(signed.package)
    } else if !capability_name_is_valid(signed.signature.key_id@) {
        Err(invalid_name("publisher key"@))
    } else {
        match signed.transparency {
            None => Err(ErrorView::Skill("transparency signing material has no receipt"@)),
            Some(receipt) => receipt_shape_check(receipt),
        }
    }
}

impl SignedSkillPackage {
    /// Returns canonical bytes for the selected transparency log to sign.
    ///
    /// The receipt must already contain its log, entry, and integration fields.
    /// Its `ed25519` field is deliberately excluded from these bytes.
    pub fn transparency_signing_bytes(&self) -> (result: Result<Vec<u8>, HarnessError>)
        ensures
            match result {
                Ok(bytes) => signing_material_check(*self) is Ok && bytes@ == encode_utf8(
                    receipt_message(*self, self.transparency->0),
                ),
                Err(error) => signing_material_check(*self) == Err::<(), ErrorView>(error@),
            },
    {
        if let Err(error) = validate_package(&self.package) {
            return Err(error);
        }
        if let Err(error) = validate_capability_name("publisher key", self.signature.key_id.as_str()) {
            return Err(error);
        }
        match &self.transparency {
            None => Err(skill_error("transparency signing material has no receipt")),
            Some(receipt) => {
                if let Err(error) = validate_transparency_receipt_shape(receipt) {
                    return Err(error);
                }
                Ok(receipt_signing_bytes(self, receipt))
            },
        }
    }
}

/// A publisher that is trusted without a policy is trusted at any time, with or
/// without a receipt.
pub proof fn law_plain_trust_has_no_bounds()
    ensures
        open_policy().not_before_ms is None,
        open_policy().not_after_ms is None,
        open_policy().transparency is Optional,
{
}

/// A log signs for packages that are sound, under the name of a publisher key,
/// with a receipt that names the log and an entry and tells when it was made.
pub proof fn law_receipts_are_signed_in_full(signed: SignedSkillPackage)
    ensures
        signing_material_check(signed) is Ok <==> {
            &&& package_check(signed.package) is Ok
            &&& capability_name_is_valid(signed.signature.key_id@)
            &&& signed.transparency matches Some(receipt) && capability_name_is_valid(receipt.log_id@) && is_plain_token(
                receipt.entry_id@,
                256,
            ) && receipt.integrated_at_ms >= 1
        },
{
}

} // verus!
