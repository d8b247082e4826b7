//! Operator trust in publishers and transparency logs.

use vstd::prelude::*;
use vstd::utf8::encode_utf8;

use crate::error::{settles, ErrorView, HarnessError};
use crate::kernel::{capability_name_is_valid, invalid_name, validate_capability_name};
use crate::skill::package::{package_check, package_identity, skill_error, validate_package};
use crate::skill::trust::{
    open_policy, publisher_message, receipt_check, receipt_message, receipt_signing_bytes, skill_signing_bytes,
    validate_transparency_receipt, SignedSkillPackage, SkillKeyRevocation, SkillPublisherPolicy,
    SkillTransparencyReceipt, SkillTransparencyRequirement, VerifiedSkillTransparency, MAX_SKILL_TRUST_ANCHORS,
    SIGNATURE_BYTES,
};
use crate::table::Table;
use crate::text::{join2, join3, join4, same_text};

verus! {

/// Whether 32 bytes are an Ed25519 public key.
pub uninterp spec fn key_is_valid(key: Seq<u8>) -> bool;

/// Whether a public key has low order.
pub uninterp spec fn key_is_weak(key: Seq<u8>) -> bool;

/// Whether a signature strictly verifies for a message under a public key.
pub uninterp spec fn signature_holds(key: Seq<u8>, message: Seq<u8>, signature: Seq<u8>) -> bool;

/// `ed25519_dalek::VerifyingKey::from_bytes`: whether the bytes decode to a
/// key. What makes bytes a key is left unsaid.
#[verifier::external_body]
fn accepts_key(key: &[u8; 32]) -> (result: bool)
    ensures
        result == key_is_valid(key@),
{
    ed25519_dalek::VerifyingKey::from_bytes(key).is_ok()
}

/// `ed25519_dalek::VerifyingKey::is_weak`, of a key that decodes.
#[verifier::external_body]
fn weak_key(key: &[u8; 32]) -> (result: bool)
    requires
        key_is_valid(key@),
    ensures
        result == key_is_weak(key@),
{
    ed25519_dalek::VerifyingKey::from_bytes(key).unwrap().is_weak()
}

/// `ed25519_dalek::VerifyingKey::verify_strict`, of a key that decodes and a
/// signature of full length. It holds under no weak key. What else makes it
/// hold is left unsaid.
#[verifier::external_body]
fn verifies(key: &[u8; 32], message: &[u8], signature: &[u8]) -> (result: bool)
    requires
        key_is_valid(key@),
        signature@.len() == SIGNATURE_BYTES,
    ensures
        result == signature_holds(key@, message@, signature@),
        result ==> !key_is_weak(key@),
{
    let key = ed25519_dalek::VerifyingKey::from_bytes(key).unwrap();
    let signature = ed25519_dalek::Signature::from_slice(signature).unwrap();
    key.verify_strict(message, &signature).is_ok()
}

/// Public key that decodes and is not weak.
#[derive(Debug)]
pub struct TrustedKey {
    bytes: [u8; 32],
}

impl View for TrustedKey {
    type V = Seq<u8>;

    closed spec fn view(&self) -> Seq<u8> {
        self.bytes@
    }
}

impl Clone for TrustedKey {
    fn clone(&self) -> (result: Self)
        ensures
            result == *self,
    {
        proof {
            use_type_invariant(self);
        }
        TrustedKey { bytes: self.bytes }
    }
}

/// Outcome of taking a public key.
pub open spec fn key_check(kind: Seq<char>, id: Seq<char>, key: Seq<u8>) -> Result<(), ErrorView> {
    if !key_is_valid(key) {
        Err(ErrorView::Skill(kind + " "@ + id + " is invalid"@))
    } else if key_is_weak(key) {
        Err(ErrorView::Skill(kind + " "@ + id + " is cryptographically weak"@))
    } else {
        Ok(())
    }
}

impl TrustedKey {
    #[verifier::type_invariant]
    spec fn usable(self) -> bool {
        key_is_valid(self.bytes@) && !key_is_weak(self.bytes@)
    }

    fn new(kind: &str, id: &str, bytes: [u8; 32]) -> (result: Result<Self, HarnessError>)
        ensures
            match result {
                Ok(key) => key_check(kind@, id@, bytes@) is Ok && key@ == bytes@,
                Err(error) => key_check(kind@, id@, bytes@) == Err::<(), ErrorView>(error@),
            },
    {
        if !accepts_key(&bytes) {
            return Err(HarnessError::Skill(join4(kind, " ", id, " is invalid")));
        }
        if weak_key(&bytes) {
            return Err(HarnessError::Skill(join4(kind, " ", id, " is cryptographically weak")));
        }
        Ok(TrustedKey { bytes })
    }

    fn verifies(&self, message: &[u8], signature: &[u8]) -> (result: bool)
        requires
            signature@.len() == SIGNATURE_BYTES,
        ensures
            result == signature_holds(self@, message@, signature@),
    {
        proof {
            use_type_invariant(self);
        }
        verifies(&self.bytes, message, signature)
    }
}

/// Key of a publisher with its policy.
#[derive(Debug)]
pub struct TrustedPublisher {
    /// Public key.
    pub key: TrustedKey,
    /// Time and transparency policy.
    pub policy: SkillPublisherPolicy,
    /// Revocation, where there is one.
    pub revocation: Option<SkillKeyRevocation>,
}

/// Key of a transparency log.
#[derive(Debug)]
pub struct TrustedLog {
    /// Public key.
    pub key: TrustedKey,
    /// Revocation, where there is one.
    pub revocation: Option<SkillKeyRevocation>,
}

/// What one trust store holds: the keys that an operator trusts.
pub struct SkillTrustState {
    publishers: Table<TrustedPublisher>,
    logs: Table<TrustedLog>,
}

/// What a trust store holds, as values.
pub struct TrustView {
    /// Publishers by key identity.
    pub publishers: Map<Seq<char>, TrustedPublisher>,
    /// Logs by identity.
    pub logs: Map<Seq<char>, TrustedLog>,
}

impl View for SkillTrustState {
    type V = TrustView;

    closed spec fn view(&self) -> TrustView {
        TrustView { publishers: self.publishers@, logs: self.logs@ }
    }
}

/// What a new trust store holds.
pub open spec fn empty_trust() -> TrustView {
    TrustView { publishers: Map::empty(), logs: Map::empty() }
}

/// Outcome of checking a publisher policy.
pub open spec fn policy_check(policy: SkillPublisherPolicy) -> Result<(), ErrorView> {
    if policy.not_after_ms == Some(0u64) || (policy.not_before_ms is Some && policy.not_after_ms is Some
        && policy.not_before_ms->0 >= policy.not_after_ms->0) {
        Err(ErrorView::Skill("publisher key validity window is empty or reversed"@))
    } else {
        Ok(())
    }
}

fn validate_publisher_policy(policy: SkillPublisherPolicy) -> (result: Result<(), HarnessError>)
    ensures
        settles(result, policy_check(policy)),
{
    let empty = match policy.not_after_ms {
        None => false,
        Some(not_after) => not_after == 0 || match policy.not_before_ms {
            None => false,
            Some(not_before) => not_before >= not_after,
        },
    };
    if empty {
        return Err(skill_error("publisher key validity window is empty or reversed"));
    }
    Ok(())
}

/// Outcome of trusting a publisher key.
pub open spec fn publisher_admission(
    publishers: Map<Seq<char>, TrustedPublisher>,
    key_id: Seq<char>,
    key: Seq<u8>,
    policy: SkillPublisherPolicy,
) -> Result<(), ErrorView> {
    if !capability_name_is_valid(key_id) {
        Err(invalid_name("publisher key"@))
    } else if policy_check(policy) is Err {
        policy_check(policy)
    } else if key_check("publisher key"@, key_id, key) is Err {
        key_check("publisher key"@, key_id, key)
    } else if publishers.contains_key(key_id) {
        Err(ErrorView::DuplicateCapability("publisher key "@ + key_id))
    } else if publishers.len() >= MAX_SKILL_TRUST_ANCHORS {
        Err(ErrorView::Skill("publisher trust store exceeds 4096 keys"@))
    } else {
        Ok(())
    }
}

/// Outcome of trusting a log key.
pub open spec fn log_admission(logs: Map<Seq<char>, TrustedLog>, log_id: Seq<char>, key: Seq<u8>) -> Result<(), ErrorView> {
    if !capability_name_is_valid(log_id) {
        Err(invalid_name("transparency log"@))
    } else if key_check("transparency log"@, log_id, key) is Err {
        key_check("transparency log"@, log_id, key)
    } else if logs.contains_key(log_id) {
        Err(ErrorView::DuplicateCapability("transparency log "@ + log_id))
    } else if logs.len() >= MAX_SKILL_TRUST_ANCHORS {
        Err(ErrorView::Skill("transparency-log trust store exceeds 4096 keys"@))
    } else {
        Ok(())
    }
}

/// Outcome of making a revocation record.
pub open spec fn revocation_check(revoked_at_ms: u64, reason_code: Seq<char>) -> Result<(), ErrorView> {
    if revoked_at_ms == 0 {
        Err(ErrorView::Skill("Skill key revocation time must be non-zero"@))
    } else if !capability_name_is_valid(reason_code) {
        Err(invalid_name("Skill key revocation reason"@))
    } else {
        Ok(())
    }
}

fn validate_revocation(revoked_at_ms: u64, reason_code: String) -> (result: Result<SkillKeyRevocation, HarnessError>)
    ensures
        match result {
            Ok(revocation) => revocation_check(revoked_at_ms, reason_code@) is Ok && revocation == (SkillKeyRevocation {
                revoked_at_ms,
                reason_code,
            }),
            Err(error) => revocation_check(revoked_at_ms, reason_code@) == Err::<(), ErrorView>(error@),
        },
{
    if revoked_at_ms == 0 {
        return Err(skill_error("Skill key revocation time must be non-zero"));
    }
    match validate_capability_name("Skill key revocation reason", reason_code.as_str()) {
        Ok(()) => Ok(SkillKeyRevocation { revoked_at_ms, reason_code }),
        Err(error) => Err(error),
    }
}

/// Revocation that holds behind recording one: the first one stands.
pub open spec fn installed(
    current: Option<SkillKeyRevocation>,
    revoked_at_ms: u64,
    reason_code: String,
    kind: Seq<char>,
    id: Seq<char>,
) -> Result<SkillKeyRevocation, ErrorView> {
    match current {
        None => Ok(SkillKeyRevocation { revoked_at_ms, reason_code }),
        Some(existing) => if existing.revoked_at_ms == revoked_at_ms && existing.reason_code@ == reason_code@ {
            Ok(existing)
        } else {
            Err(ErrorView::Skill(kind + " "@ + id + " already has a different immutable revocation"@))
        },
    }
}

/// Records a revocation of a key: the same one may be recorded again, another
/// one is refused, and what is recorded stays as it is.
pub fn install_revocation(
    current: &mut Option<SkillKeyRevocation>,
    revocation: SkillKeyRevocation,
    kind: &str,
    id: &str,
) -> (result: Result<(), HarnessError>)
    ensures
        match installed(*old(current), revocation.revoked_at_ms, revocation.reason_code, kind@, id@) {
            Ok(recorded) => result is Ok && *final(current) == Some(recorded),
            Err(fault) => result matches Err(error) && error@ == fault && *final(current) == *old(current),
        },
{
    if let Some(existing) = &*current {
        if existing.revoked_at_ms == revocation.revoked_at_ms && same_text(
            existing.reason_code.as_str(),
            revocation.reason_code.as_str(),
        ) {
            return Ok(());
        }
        return Err(HarnessError::Skill(join4(kind, " ", id, " already has a different immutable revocation")));
    }
    *current = Some(revocation);
    Ok(())
}

/// Error of a key that is not trusted.
pub open spec fn not_trusted(kind: Seq<char>, id: Seq<char>) -> ErrorView {
    ErrorView::Skill(kind + " "@ + id + " is not trusted"@)
}

fn untrusted(kind: &str, id: &str) -> (error: HarnessError)
    ensures
        error@ == not_trusted(kind@, id@),
{
    HarnessError::Skill(join4(kind, " ", id, " is not trusted"))
}

/// Whether a key may be relied on at a point of time: inside its window, and
/// before its revocation takes effect.
pub open spec fn anchor_check(
    kind: Seq<char>,
    id: Seq<char>,
    not_before_ms: Option<u64>,
    not_after_ms: Option<u64>,
    revocation: Option<SkillKeyRevocation>,
    observed_at_ms: u64,
) -> Result<(), ErrorView> {
    if not_before_ms is Some && observed_at_ms < not_before_ms->0 {
        Err(ErrorView::Skill(kind + " "@ + id + " is not valid yet"@))
    } else if not_after_ms is Some && observed_at_ms >= not_after_ms->0 {
        Err(ErrorView::Skill(kind + " "@ + id + " has expired"@))
    } else if revocation is Some && observed_at_ms >= revocation->0.revoked_at_ms {
        Err(ErrorView::Skill(kind + " "@ + id + " is revoked"@))
    } else {
        Ok(())
    }
}

fn validate_anchor_status(
    kind: &str,
    id: &str,
    not_before_ms: Option<u64>,
    not_after_ms: Option<u64>,
    revocation: &Option<SkillKeyRevocation>,
    observed_at_ms: u64,
) -> (result: Result<(), HarnessError>)
    ensures
        settles(result, anchor_check(kind@, id@, not_before_ms, not_after_ms, *revocation, observed_at_ms)),
{
    if let Some(not_before) = not_before_ms {
        if observed_at_ms < not_before {
            return Err(HarnessError::Skill(join4(kind, " ", id, " is not valid yet")));
        }
    }
    if let Some(not_after) = not_after_ms {
        if observed_at_ms >= not_after {
            return Err(HarnessError::Skill(join4(kind, " ", id, " has expired")));
        }
    }
    if let Some(revocation) = revocation {
        if observed_at_ms >= revocation.revoked_at_ms {
            return Err(HarnessError::Skill(join4(kind, " ", id, " is revoked")));
        }
    }
    Ok(())
}

/// Whether a publisher may be relied on at a point of time.
pub open spec fn publisher_status(key_id: Seq<char>, publisher: TrustedPublisher, observed_at_ms: u64) -> Result<
    (),
    ErrorView,
> {
    anchor_check(
        "publisher key"@,
        key_id,
        publisher.policy.not_before_ms,
        publisher.policy.not_after_ms,
        publisher.revocation,
        observed_at_ms,
    )
}

/// Whether a log may be relied on at a point of time.
pub open spec fn log_status(log_id: Seq<char>, log: TrustedLog, observed_at_ms: u64) -> Result<(), ErrorView> {
    anchor_check("transparency log"@, log_id, None, None, log.revocation, observed_at_ms)
}

/// Outcome of verifying the receipt of a signed package.
pub open spec fn receipt_verification(
    store: TrustView,
    signed: SignedSkillPackage,
    receipt: SkillTransparencyReceipt,
    observed_at_ms: u64,
) -> Result<(), ErrorView> {
    if receipt_check(receipt, observed_at_ms) is Err {
        receipt_check(receipt, observed_at_ms)
    } else if !store.logs.contains_key(receipt.log_id@) {
        Err(not_trusted("transparency log"@, receipt.log_id@))
    } else if log_status(receipt.log_id@, store.logs[receipt.log_id@], observed_at_ms) is Err {
        log_status(receipt.log_id@, store.logs[receipt.log_id@], observed_at_ms)
    } else if receipt.ed25519@.len() != SIGNATURE_BYTES {
        Err(ErrorView::Skill("Ed25519 transparency signature must be exactly 64 bytes"@))
    } else if !signature_holds(
        store.logs[receipt.log_id@].key@,
        encode_utf8(receipt_message(signed, receipt)),
        receipt.ed25519@,
    ) {
        Err(
            ErrorView::Skill(
                "Skill "@ + package_identity(signed.package).shown() + " has an invalid transparency receipt"@,
            ),
        )
    } else {
        Ok(())
    }
}

/// Outcome of verifying a signed package: the first check that fails decides.
pub open spec fn verification(store: TrustView, signed: SignedSkillPackage, observed_at_ms: u64) -> Result<(), ErrorView> {
    let key_id = signed.signature.key_id@;
    if package_check(signed.package) is Err {
        package_check(signed.package)
    } else if !capability_name_is_valid(key_id) {
        Err(invalid_name("publisher key"@))
    } else if !store.publishers.contains_key(key_id) {
        Err(not_trusted("publisher key"@, key_id))
    } else if publisher_status(key_id, store.publishers[key_id], observed_at_ms) is Err {
        publisher_status(key_id, store.publishers[key_id], observed_at_ms)
    } else if signed.signature.ed25519@.len() != SIGNATURE_BYTES {
        Err(ErrorView::Skill("Ed25519 Skill signature must be exactly 64 bytes"@))
    } else if !signature_holds(
        store.publishers[key_id].key@,
        encode_utf8(publisher_message(signed.package.content_sha256@)),
        signed.signature.ed25519@,
    ) {
        Err(
            ErrorView::Skill(
                "Skill "@ + package_identity(signed.package).shown() + " has an invalid publisher signature"@,
            ),
        )
    } else {
        match signed.transparency {
            Some(receipt) => receipt_verification(store, signed, receipt, observed_at_ms),
            None => if store.publishers[key_id].policy.transparency is Required {
                Err(ErrorView::Skill("publisher key "@ + key_id + " requires a transparency receipt"@))
            } else {
                Ok(())
            },
        }
    }
}

/// Evidence that a receipt leaves behind.
pub open spec fn evidence(receipt: Option<SkillTransparencyReceipt>) -> Option<VerifiedSkillTransparency> {
    match receipt {
        None => None,
        Some(receipt) => Some(
            VerifiedSkillTransparency {
                log_id: receipt.log_id,
                entry_id: receipt.entry_id,
                integrated_at_ms: receipt.integrated_at_ms,
            },
        ),
    }
}

/// Outcome of relying again on a package that was verified earlier.
pub open spec fn revalidation(
    store: TrustView,
    key_id: Seq<char>,
    log_id: Option<Seq<char>>,
    observed_at_ms: u64,
) -> Result<(), ErrorView> {
    if !store.publishers.contains_key(key_id) {
        Err(not_trusted("publisher key"@, key_id))
    } else if publisher_status(key_id, store.publishers[key_id], observed_at_ms) is Err {
        publisher_status(key_id, store.publishers[key_id], observed_at_ms)
    } else if store.publishers[key_id].policy.transparency is Required && log_id is None {
        Err(ErrorView::Skill("publisher key "@ + key_id + " requires a transparency receipt"@))
    } else {
        match log_id {
            None => Ok(()),
            Some(log_id) => if !store.logs.contains_key(log_id) {
                Err(not_trusted("transparency log"@, log_id))
            } else {
                log_status(log_id, store.logs[log_id], observed_at_ms)
            },
        }
    }
}

impl SkillTrustState {
    /// Creates the state of a new store; no publisher is trusted by default.
    pub fn new() -> (state: Self)
        ensures
            state@ == empty_trust(),
    {
        SkillTrustState { publishers: Table::new(), logs: Table::new() }
    }

    /// Registers one raw Ed25519 public key without allowing replacement.
    pub fn trust(&mut self, key_id: String, public_key: [u8; 32]) -> (result: Result<(), HarnessError>)
        ensures
            trusts_publisher(old(self)@, final(self)@, key_id@, public_key@, open_policy(), result),
    {
        self.trust_with_policy(key_id, public_key, SkillPublisherPolicy::default())
    }

    /// Registers one publisher key with explicit time and transparency policy.
    pub fn trust_with_policy(&mut self, key_id: String, public_key: [u8; 32], policy: SkillPublisherPolicy) -> (result: Result<
        (),
        HarnessError,
    >)
        ensures
            trusts_publisher(old(self)@, final(self)@, key_id@, public_key@, policy, result),
    {
        if let Err(error) = validate_capability_name("publisher key", key_id.as_str()) {
            return Err(error);
        }
        if let Err(error) = validate_publisher_policy(policy) {
            return Err(error);
        }
        let key = match TrustedKey::new("publisher key", key_id.as_str(), public_key) {
            Ok(key) => key,
            Err(error) => {
                return Err(error);
            },
        };
        if self.publishers.contains(key_id.as_str()) {
            return Err(HarnessError::DuplicateCapability(join2("publisher key ", key_id.as_str())));
        }
        if self.publishers.len() >= MAX_SKILL_TRUST_ANCHORS {
            return Err(skill_error("publisher trust store exceeds 4096 keys"));
        }
        self.publishers.insert(key_id, TrustedPublisher { key, policy, revocation: None });
        Ok(())
    }

    /// Registers one transparency-log verification key without replacement.
    pub fn trust_transparency_log(&mut self, log_id: String, public_key: [u8; 32]) -> (result: Result<(), HarnessError>)
        ensures
            trusts_log(old(self)@, final(self)@, log_id@, public_key@, result),
    {
        if let Err(error) = validate_capability_name("transparency log", log_id.as_str()) {
            return Err(error);
        }
        let key = match TrustedKey::new("transparency log", log_id.as_str(), public_key) {
            Ok(key) => key,
            Err(error) => {
                return Err(error);
            },
        };
        if self.logs.contains(log_id.as_str()) {
            return Err(HarnessError::DuplicateCapability(join2("transparency log ", log_id.as_str())));
        }
        if self.logs.len() >= MAX_SKILL_TRUST_ANCHORS {
            return Err(skill_error("transparency-log trust store exceeds 4096 keys"));
        }
        let log = TrustedLog { key, revocation: None };
        self.logs.insert(log_id, log);
        assert(self@.logs[log_id@] == log);
        Ok(())
    }

    /// Irreversibly records an effective publisher-key revocation.
    pub fn revoke_publisher(&mut self, key_id: &str, revoked_at_ms: u64, reason_code: String) -> (result: Result<
        (),
        HarnessError,
    >)
        ensures
            revokes_publisher(old(self)@, final(self)@, key_id@, revoked_at_ms, reason_code, result),
    {
        if let Err(error) = validate_capability_name("publisher key", key_id) {
            return Err(error);
        }
        let revocation = match validate_revocation(revoked_at_ms, reason_code) {
            Ok(revocation) => revocation,
            Err(error) => {
                return Err(error);
            },
        };
        let updated = match self.publishers.get(key_id) {
            None => {
                return Err(untrusted("publisher key", key_id));
            },
            Some(publisher) => {
                let mut recorded = copied(&publisher.revocation);
                if let Err(error) = install_revocation(&mut recorded, revocation, "publisher key", key_id) {
                    return Err(error);
                }
                TrustedPublisher { key: publisher.key.clone(), policy: publisher.policy, revocation: recorded }
            },
        };
        self.publishers.insert(key_id.to_owned(), updated);
        Ok(())
    }

    /// Irreversibly records an effective transparency-log key revocation.
    pub fn revoke_transparency_log(&mut self, log_id: &str, revoked_at_ms: u64, reason_code: String) -> (result: Result<
        (),
        HarnessError,
    >)
        ensures
            revokes_log(old(self)@, final(self)@, log_id@, revoked_at_ms, reason_code, result),
    {
        if let Err(error) = validate_capability_name("transparency log", log_id) {
            return Err(error);
        }
        let revocation = match validate_revocation(revoked_at_ms, reason_code) {
            Ok(revocation) => revocation,
            Err(error) => {
                return Err(error);
            },
        };
        let updated = match self.logs.get(log_id) {
            None => {
                return Err(untrusted("transparency log", log_id));
            },
            Some(log) => {
                let mut recorded = copied(&log.revocation);
                if let Err(error) = install_revocation(&mut recorded, revocation, "transparency log", log_id) {
                    return Err(error);
                }
                TrustedLog { key: log.key.clone(), revocation: recorded }
            },
        };
        self.logs.insert(log_id.to_owned(), updated);
        Ok(())
    }

    /// Returns the immutable publisher revocation record when present.
    pub fn publisher_revocation(&self, key_id: &str) -> (result: Result<Option<SkillKeyRevocation>, HarnessError>)
        ensures
            reports_publisher(self@, key_id@, result),
    {
        if let Err(error) = validate_capability_name("publisher key", key_id) {
            return Err(error);
        }
        match self.publishers.get(key_id) {
            None => Err(untrusted("publisher key", key_id)),
            Some(publisher) => Ok(copied(&publisher.revocation)),
        }
    }

    /// Returns the immutable transparency-log revocation record when present.
    pub fn transparency_log_revocation(&self, log_id: &str) -> (result: Result<Option<SkillKeyRevocation>, HarnessError>)
        ensures
            reports_log(self@, log_id@, result),
    {
        if let Err(error) = validate_capability_name("transparency log", log_id) {
            return Err(error);
        }
        match self.logs.get(log_id) {
            None => Err(untrusted("transparency log", log_id)),
            Some(log) => Ok(copied(&log.revocation)),
        }
    }

    fn verify_receipt(&self, signed: &SignedSkillPackage, receipt: &SkillTransparencyReceipt, observed_at_ms: u64) -> (result:
        Result<(), HarnessError>)
        ensures
            settles(result, receipt_verification(self@, *signed, *receipt, observed_at_ms)),
    {
        if let Err(error) = validate_transparency_receipt(receipt, observed_at_ms) {
            return Err(error);
        }
        let log_id = receipt.log_id.as_str();
        let log = match self.logs.get(log_id) {
            None => {
                return Err(untrusted("transparency log", log_id));
            },
            Some(log) => log,
        };
        if let Err(error) = validate_anchor_status(
            "transparency log",
            log_id,
            None,
            None,
            &log.revocation,
            observed_at_ms,
        ) {
            return Err(error);
        }
        if receipt.ed25519.len() != SIGNATURE_BYTES {
            return Err(skill_error("Ed25519 transparency signature must be exactly 64 bytes"));
        }
        let message = receipt_signing_bytes(signed, receipt);
        if !log.key.verifies(message.as_slice(), receipt.ed25519.as_slice()) {
            let shown = signed.package.id().shown();
            return Err(
                HarnessError::Skill(join3("Skill ", shown.as_str(), " has an invalid transparency receipt")),
            );
        }
        Ok(())
    }

    /// Verifies content, publisher and receipt of a signed package, and
    /// returns the evidence that the receipt leaves behind.
    pub fn verify(&self, signed: &SignedSkillPackage, observed_at_ms: u64) -> (result: Result<
        Option<VerifiedSkillTransparency>,
        HarnessError,
    >)
        ensures
            verifies_package(self@, *signed, observed_at_ms, result),
    {
        if let Err(error) = validate_package(&signed.package) {
            return Err(error);
        }
        let key_id = signed.signature.key_id.as_str();
        if let Err(error) = validate_capability_name("publisher key", key_id) {
            return Err(error);
        }
        let publisher = match self.publishers.get(key_id) {
            None => {
                return Err(untrusted("publisher key", key_id));
            },
            Some(publisher) => publisher,
        };
        if let Err(error) = validate_anchor_status(
            "publisher key",
            key_id,
            publisher.policy.not_before_ms,
            publisher.policy.not_after_ms,
            &publisher.revocation,
            observed_at_ms,
        ) {
            return Err(error);
        }
        if signed.signature.ed25519.len() != SIGNATURE_BYTES {
            return Err(skill_error("Ed25519 Skill signature must be exactly 64 bytes"));
        }
        let message = skill_signing_bytes(&signed.package);
        if !publisher.key.verifies(message.as_slice(), signed.signature.ed25519.as_slice()) {
            let shown = signed.package.id().shown();
            return Err(
                HarnessError::Skill(join3("Skill ", shown.as_str(), " has an invalid publisher signature")),
            );
        }
        match &signed.transparency {
            Some(receipt) => match self.verify_receipt(signed, receipt, observed_at_ms) {
                Err(error) => Err(error),
                Ok(()) => Ok(
                    Some(
                        VerifiedSkillTransparency {
                            log_id: receipt.log_id.clone(),
                            entry_id: receipt.entry_id.clone(),
                            integrated_at_ms: receipt.integrated_at_ms,
                        },
                    ),
                ),
            },
            None => {
                if publisher.policy.transparency == SkillTransparencyRequirement::Required {
                    return Err(
                        HarnessError::Skill(join3("publisher key ", key_id, " requires a transparency receipt")),
                    );
                }
                Ok(None)
            },
        }
    }

    /// Decides whether a package that was verified earlier may still be relied
    /// on.
    pub fn revalidate_registered(&self, publisher_key_id: &str, transparency_log_id: Option<&str>, observed_at_ms: u64) -> (result:
        Result<(), HarnessError>)
        ensures
            settles(
                result,
                revalidation(self@, publisher_key_id@, optional_log(transparency_log_id), observed_at_ms),
            ),
    {
        let publisher = match self.publishers.get(publisher_key_id) {
            None => {
                return Err(untrusted("publisher key", publisher_key_id));
            },
            Some(publisher) => publisher,
        };
        if let Err(error) = validate_anchor_status(
            "publisher key",
            publisher_key_id,
            publisher.policy.not_before_ms,
            publisher.policy.not_after_ms,
            &publisher.revocation,
            observed_at_ms,
        ) {
            return Err(error);
        }
        match transparency_log_id {
            None => {
                if publisher.policy.transparency == SkillTransparencyRequirement::Required {
                    return Err(
                        HarnessError::Skill(
                            join3("publisher key ", publisher_key_id, " requires a transparency receipt"),
                        ),
                    );
                }
                Ok(())
            },
            Some(log_id) => match self.logs.get(log_id) {
                None => Err(untrusted("transparency log", log_id)),
                Some(log) => validate_anchor_status(
                    "transparency log",
                    log_id,
                    None,
                    None,
                    &log.revocation,
                    observed_at_ms,
                ),
            },
        }
    }
}

fn copied(revocation: &Option<SkillKeyRevocation>) -> (result: Option<SkillKeyRevocation>)
    ensures
        result == *revocation,
{
    match revocation {
        Some(revocation) => Some(revocation.clone()),
        None => None,
    }
}

/// Whether a map of logs grew by one key.
pub open spec fn adds_log(before: Map<Seq<char>, TrustedLog>, after: Map<Seq<char>, TrustedLog>, log_id: Seq<char>, key: Seq<
    u8,
>) -> bool {
    exists|log: TrustedLog| #[trigger] before.insert(log_id, log) == after && log.key@ == key && log.revocation is None
}

/// Effect of trusting a log key on a store.
pub open spec fn trusts_log(
    before: TrustView,
    after: TrustView,
    log_id: Seq<char>,
    key: Seq<u8>,
    result: Result<(), HarnessError>,
) -> bool {
    match log_admission(before.logs, log_id, key) {
        Err(fault) => result matches Err(error) && error@ == fault && after == before,
        Ok(()) => result is Ok && after.publishers == before.publishers && adds_log(before.logs, after.logs, log_id, key),
    }
}

/// Whether a map of publishers grew by one key.
pub open spec fn adds_publisher(
    before: Map<Seq<char>, TrustedPublisher>,
    after: Map<Seq<char>, TrustedPublisher>,
    key_id: Seq<char>,
    key: Seq<u8>,
    policy: SkillPublisherPolicy,
) -> bool {
    exists|publisher: TrustedPublisher| #[trigger]
        before.insert(key_id, publisher) == after && publisher.key@ == key && publisher.policy == policy
            && publisher.revocation is None
}

/// Effect of trusting a publisher key on a store.
pub open spec fn trusts_publisher(
    before: TrustView,
    after: TrustView,
    key_id: Seq<char>,
    key: Seq<u8>,
    policy: SkillPublisherPolicy,
    result: Result<(), HarnessError>,
) -> bool {
    match publisher_admission(before.publishers, key_id, key, policy) {
        Err(fault) => result matches Err(error) && error@ == fault && after == before,
        Ok(()) => result is Ok && after.logs == before.logs && adds_publisher(
            before.publishers,
            after.publishers,
            key_id,
            key,
            policy,
        ),
    }
}

/// Effect of revoking a publisher key on a store.
pub open spec fn revokes_publisher(
    before: TrustView,
    after: TrustView,
    key_id: Seq<char>,
    revoked_at_ms: u64,
    reason_code: String,
    result: Result<(), HarnessError>,
) -> bool {
    match publisher_revocation_outcome(before.publishers, key_id, revoked_at_ms, reason_code) {
        Err(fault) => result matches Err(error) && error@ == fault && after == before,
        Ok(revocation) => result is Ok && after == with_publisher_revoked(before, key_id, revocation),
    }
}

/// Effect of revoking a log key on a store.
pub open spec fn revokes_log(
    before: TrustView,
    after: TrustView,
    log_id: Seq<char>,
    revoked_at_ms: u64,
    reason_code: String,
    result: Result<(), HarnessError>,
) -> bool {
    match log_revocation_outcome(before.logs, log_id, revoked_at_ms, reason_code) {
        Err(fault) => result matches Err(error) && error@ == fault && after == before,
        Ok(revocation) => result is Ok && after == with_log_revoked(before, log_id, revocation),
    }
}

/// Outcome of revoking a publisher key.
pub open spec fn publisher_revocation_outcome(
    publishers: Map<Seq<char>, TrustedPublisher>,
    key_id: Seq<char>,
    revoked_at_ms: u64,
    reason_code: String,
) -> Result<SkillKeyRevocation, ErrorView> {
    if !capability_name_is_valid(key_id) {
        Err(invalid_name("publisher key"@))
    } else if revocation_check(revoked_at_ms, reason_code@) is Err {
        Err(revocation_check(revoked_at_ms, reason_code@)->Err_0)
    } else if !publishers.contains_key(key_id) {
        Err(not_trusted("publisher key"@, key_id))
    } else {
        installed(publishers[key_id].revocation, revoked_at_ms, reason_code, "publisher key"@, key_id)
    }
}

/// What a store holds behind revoking a publisher key.
pub open spec fn with_publisher_revoked(store: TrustView, key_id: Seq<char>, revocation: SkillKeyRevocation) -> TrustView {
    TrustView {
        publishers: store.publishers.insert(
            key_id,
            TrustedPublisher { revocation: Some(revocation), ..store.publishers[key_id] },
        ),
        ..store
    }
}

/// What a store holds behind revoking a log key.
pub open spec fn with_log_revoked(store: TrustView, log_id: Seq<char>, revocation: SkillKeyRevocation) -> TrustView {
    TrustView {
        logs: store.logs.insert(log_id, TrustedLog { revocation: Some(revocation), ..store.logs[log_id] }),
        ..store
    }
}

/// Outcome of revoking a log key.
pub open spec fn log_revocation_outcome(
    logs: Map<Seq<char>, TrustedLog>,
    log_id: Seq<char>,
    revoked_at_ms: u64,
    reason_code: String,
) -> Result<SkillKeyRevocation, ErrorView> {
    if !capability_name_is_valid(log_id) {
        Err(invalid_name("transparency log"@))
    } else if revocation_check(revoked_at_ms, reason_code@) is Err {
        Err(revocation_check(revoked_at_ms, reason_code@)->Err_0)
    } else if !logs.contains_key(log_id) {
        Err(not_trusted("transparency log"@, log_id))
    } else {
        installed(logs[log_id].revocation, revoked_at_ms, reason_code, "transparency log"@, log_id)
    }
}

/// Whether a result is the revocation of a publisher key that a store holds.
pub open spec fn reports_publisher(
    store: TrustView,
    key_id: Seq<char>,
    result: Result<Option<SkillKeyRevocation>, HarnessError>,
) -> bool {
    match result {
        Ok(revocation) => capability_name_is_valid(key_id) && store.publishers.contains_key(key_id) && revocation
            == store.publishers[key_id].revocation,
        Err(error) => if !capability_name_is_valid(key_id) {
            error@ == invalid_name("publisher key"@)
        } else {
            !store.publishers.contains_key(key_id) && error@ == not_trusted("publisher key"@, key_id)
        },
    }
}

/// Whether a result is the revocation of a log key that a store holds.
pub open spec fn reports_log(
    store: TrustView,
    log_id: Seq<char>,
    result: Result<Option<SkillKeyRevocation>, HarnessError>,
) -> bool {
    match result {
        Ok(revocation) => capability_name_is_valid(log_id) && store.logs.contains_key(log_id) && revocation
            == store.logs[log_id].revocation,
        Err(error) => if !capability_name_is_valid(log_id) {
            error@ == invalid_name("transparency log"@)
        } else {
            !store.logs.contains_key(log_id) && error@ == not_trusted("transparency log"@, log_id)
        },
    }
}

/// Whether a result is that of verifying a signed package against a store.
pub open spec fn verifies_package(
    store: TrustView,
    signed: SignedSkillPackage,
    observed_at_ms: u64,
    result: Result<Option<VerifiedSkillTransparency>, HarnessError>,
) -> bool {
    match result {
        Ok(transparency) => verification(store, signed, observed_at_ms) is Ok && transparency == evidence(
            signed.transparency,
        ),
        Err(error) => verification(store, signed, observed_at_ms) == Err::<(), ErrorView>(error@),
    }
}

/// Identity of a log as a text.
pub open spec fn optional_log(log_id: Option<&str>) -> Option<Seq<char>> {
    match log_id {
        Some(log_id) => Some(log_id@),
        None => None,
    }
}

/// Once a publisher key is revoked, no package that it signed is verified or
/// relied on again from that point of time on.
pub proof fn law_revoked_publisher_is_refused(
    store: TrustView,
    signed: SignedSkillPackage,
    log_id: Option<Seq<char>>,
    observed_at_ms: u64,
)
    requires
        store.publishers.contains_key(signed.signature.key_id@),
        store.publishers[signed.signature.key_id@].revocation matches Some(revocation) && revocation.revoked_at_ms
            <= observed_at_ms,
    ensures
        verification(store, signed, observed_at_ms) is Err,
        revalidation(store, signed.signature.key_id@, log_id, observed_at_ms) is Err,
{
}

/// Once a log key is revoked, no package whose receipt comes from it is
/// verified or relied on again from that point of time on.
pub proof fn law_revoked_log_is_refused(
    store: TrustView,
    signed: SignedSkillPackage,
    receipt: SkillTransparencyReceipt,
    observed_at_ms: u64,
)
    requires
        signed.transparency == Some(receipt),
        store.logs.contains_key(receipt.log_id@),
        store.logs[receipt.log_id@].revocation matches Some(revocation) && revocation.revoked_at_ms <= observed_at_ms,
    ensures
        verification(store, signed, observed_at_ms) is Err,
        revalidation(store, signed.signature.key_id@, Some(receipt.log_id@), observed_at_ms) is Err,
{
}

/// A revocation is final: recording another one leaves the first in place,
/// and recording the same one again changes nothing.
pub proof fn law_revocation_is_final(
    existing: SkillKeyRevocation,
    revoked_at_ms: u64,
    reason_code: String,
    kind: Seq<char>,
    id: Seq<char>,
)
    ensures
        installed(Some(existing), revoked_at_ms, reason_code, kind, id) matches Ok(revocation) ==> revocation == existing,
        installed(Some(existing), existing.revoked_at_ms, existing.reason_code, kind, id) == Ok::<
            SkillKeyRevocation,
            ErrorView,
        >(existing),
{
}

/// Whether every revocation that a store holds is still held, unchanged.
pub open spec fn keeps_revocations(before: TrustView, after: TrustView) -> bool {
    &&& forall|key_id: Seq<char>| #[trigger]
        before.publishers.contains_key(key_id) && before.publishers[key_id].revocation is Some ==> (
        after.publishers.contains_key(key_id) && after.publishers[key_id].revocation
            == before.publishers[key_id].revocation)
    &&& forall|log_id: Seq<char>| #[trigger]
        before.logs.contains_key(log_id) && before.logs[log_id].revocation is Some ==> (after.logs.contains_key(log_id)
            && after.logs[log_id].revocation == before.logs[log_id].revocation)
}

/// Revoking a key alters and removes no revocation that is recorded, and
/// revoking it again in the same way succeeds and changes nothing.
pub proof fn law_revoking_keeps_revocations(store: TrustView, id: Seq<char>, revoked_at_ms: u64, reason_code: String)
    ensures
        publisher_revocation_outcome(store.publishers, id, revoked_at_ms, reason_code) matches Ok(revocation) ==> {
            let after = with_publisher_revoked(store, id, revocation);
            &&& keeps_revocations(store, after)
            &&& publisher_revocation_outcome(after.publishers, id, revoked_at_ms, reason_code) == Ok::<
                SkillKeyRevocation,
                ErrorView,
            >(revocation)
            &&& with_publisher_revoked(after, id, revocation) == after
        },
        log_revocation_outcome(store.logs, id, revoked_at_ms, reason_code) matches Ok(revocation) ==> {
            let after = with_log_revoked(store, id, revocation);
            &&& keeps_revocations(store, after)
            &&& log_revocation_outcome(after.logs, id, revoked_at_ms, reason_code) == Ok::<SkillKeyRevocation, ErrorView>(
                revocation,
            )
            &&& with_log_revoked(after, id, revocation) == after
        },
{
    if let Ok(revocation) = publisher_revocation_outcome(store.publishers, id, revoked_at_ms, reason_code) {
        let after = with_publisher_revoked(store, id, revocation);
        assert(with_publisher_revoked(after, id, revocation).publishers =~= after.publishers);
    }
    if let Ok(revocation) = log_revocation_outcome(store.logs, id, revoked_at_ms, reason_code) {
        let after = with_log_revoked(store, id, revocation);
        assert(with_log_revoked(after, id, revocation).logs =~= after.logs);
    }
}

/// Trusting a publisher key alters and removes no revocation.
pub proof fn law_trusting_a_publisher_keeps_revocations(
    before: TrustView,
    after: TrustView,
    key_id: Seq<char>,
    key: Seq<u8>,
    policy: SkillPublisherPolicy,
    result: Result<(), HarnessError>,
)
    requires
        trusts_publisher(before, after, key_id, key, policy, result),
    ensures
        keeps_revocations(before, after),
{
}

/// Trusting a log key alters and removes no revocation.
pub proof fn law_trusting_a_log_keeps_revocations(
    before: TrustView,
    after: TrustView,
    log_id: Seq<char>,
    key: Seq<u8>,
    result: Result<(), HarnessError>,
)
    requires
        trusts_log(before, after, log_id, key, result),
    ensures
        keeps_revocations(before, after),
{
}

/// A verified package is signed, by a publisher that is trusted at that point
/// of time, over the digest of its own content.
pub proof fn law_verified_package_is_authentic(store: TrustView, signed: SignedSkillPackage, observed_at_ms: u64)
    requires
        verification(store, signed, observed_at_ms) is Ok,
    ensures
        package_check(signed.package) is Ok,
        store.publishers.contains_key(signed.signature.key_id@),
        publisher_status(signed.signature.key_id@, store.publishers[signed.signature.key_id@], observed_at_ms) is Ok,
        signature_holds(
            store.publishers[signed.signature.key_id@].key@,
            encode_utf8(publisher_message(signed.package.content_sha256@)),
            signed.signature.ed25519@,
        ),
        store.publishers[signed.signature.key_id@].policy.transparency is Required ==> signed.transparency is Some,
{
}

/// A store tells of a publisher or a log that it trusts whether it is revoked,
/// and nothing of others.
pub proof fn law_revocations_are_told(
    store: TrustView,
    id: Seq<char>,
    of_publisher: Result<Option<SkillKeyRevocation>, HarnessError>,
    of_log: Result<Option<SkillKeyRevocation>, HarnessError>,
)
    requires
        reports_publisher(store, id, of_publisher),
        reports_log(store, id, of_log),
        capability_name_is_valid(id),
    ensures
        of_publisher is Ok <==> store.publishers.contains_key(id),
        of_log is Ok <==> store.logs.contains_key(id),
        of_publisher is Ok ==> of_publisher->Ok_0 == store.publishers[id].revocation,
        of_log is Ok ==> of_log->Ok_0 == store.logs[id].revocation,
{
}

/// A fresh store trusts nobody, and refuses every package.
pub proof fn law_fresh_stores_trust_nobody(
    signed: SignedSkillPackage,
    observed_at_ms: u64,
    result: Result<Option<VerifiedSkillTransparency>, HarnessError>,
)
    requires
        verifies_package(empty_trust(), signed, observed_at_ms, result),
    ensures
        result is Err,
{
}

/// A package is verified with the evidence of its receipt, where it has one.
pub proof fn law_verified_packages_carry_their_evidence(
    store: TrustView,
    signed: SignedSkillPackage,
    observed_at_ms: u64,
    result: Result<Option<VerifiedSkillTransparency>, HarnessError>,
)
    requires
        verifies_package(store, signed, observed_at_ms, result),
    ensures
        result is Ok <==> verification(store, signed, observed_at_ms) is Ok,
        result is Ok ==> (result->Ok_0 is Some <==> signed.transparency is Some),
        result is Ok && signed.transparency is Some ==> {
            &&& result->Ok_0->0.log_id == signed.transparency->0.log_id
            &&& result->Ok_0->0.entry_id == signed.transparency->0.entry_id
            &&& result->Ok_0->0.integrated_at_ms == signed.transparency->0.integrated_at_ms
        },
{
}

} // verus!
