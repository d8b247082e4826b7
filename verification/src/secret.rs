//! Opaque secret references, zeroizing values, and resolver registration.

use vstd::prelude::*;
use vstd::utf8::{decode_utf8, encode_utf8, valid_utf8};
use zeroize::Zeroizing;

use crate::error::{settles, ErrorView, HarnessError};
use crate::kernel::{
    capability_name_is_valid, invalid_name, invalid_origin, invalid_tenant, origin_is_valid, registry_full,
    tenant_is_valid, validate_capability_name, validate_capability_origin, validate_registry_growth, AuthorityContext,
    AuthorityView, CapabilityOrigin, ThreadId, TurnId, MAX_REGISTRY_ENTRIES,
};
use crate::limits::{
    is_letter_or_digit, law_blank_texts_say_nothing, law_names_are_portable, reads_as_identity, reads_as_name,
    says_something,
};
use crate::table::{
    lemma_last_row, lemma_map_size, lemma_row_in_map, lemma_table_rows, lists_keys, rows_map, rows_ordered, Row, Table,
};
use crate::text::{
    alphanumeric_char, blank, byte_len, decimal, decimal_text, is_alphanumeric, is_blank, is_portable_identity, join3,
    join5, portable_identity, utf8_len,
};

verus! {

/// Current Secret Provider contract version.
pub const SECRET_API_VERSION: u32 = 3;

/// Longest accepted reference, in bytes.
pub const MAX_SECRET_REFERENCE_BYTES: usize = 256;

/// Longest accepted credential, in bytes.
pub const MAX_SECRET_VALUE_BYTES: usize = 65_536;

/// Longest accepted description of a provider, in bytes.
pub const MAX_SECRET_DESCRIPTION_BYTES: usize = 4_096;

/// Largest number of mappings of one provider.
pub const MAX_SECRET_MAPPINGS: usize = 1_024;

pub(crate) fn secret_error(message: &str) -> (error: HarnessError)
    ensures
        error@ == ErrorView::Secret(message@),
{
    HarnessError::Secret(message.to_owned())
}

/// Serializable locator that never contains secret material.
#[derive(Debug, PartialEq, Eq, PartialOrd, Ord, Hash)]
pub struct SecretReference(String);

impl View for SecretReference {
    type V = Seq<char>;

    closed spec fn view(&self) -> Seq<char> {
        self.0@
    }
}

impl Clone for SecretReference {
    fn clone(&self) -> (result: Self)
        ensures
            result == *self,
    {
        proof {
            use_type_invariant(self);
        }
        SecretReference(self.0.clone())
    }
}

/// Whether a text is a portable reference.
pub open spec fn reference_is_valid(text: Seq<char>) -> bool {
    is_portable_identity(text, MAX_SECRET_REFERENCE_BYTES as nat)
}

impl SecretReference {
    #[verifier::type_invariant]
    spec fn portable(self) -> bool {
        reference_is_valid(self.0@)
    }

    /// Validates and constructs an opaque provider-owned reference.
    pub fn new(value: String) -> (result: Result<Self, HarnessError>)
        ensures
            match result {
                Ok(reference) => reference_is_valid(value@) && reference@ == value@,
                Err(error) => !reference_is_valid(value@) && error@ == ErrorView::Secret(
                    "secret reference must be 1-256 portable ASCII identity bytes"@,
                ),
            },
    {
        if !portable_identity(value.as_str(), MAX_SECRET_REFERENCE_BYTES) {
            return Err(secret_error("secret reference must be 1-256 portable ASCII identity bytes"));
        }
        Ok(SecretReference(value))
    }

    /// Returns the opaque non-secret locator.
    pub fn as_str(&self) -> (text: &str)
        ensures
            text@ == self@,
            reference_is_valid(text@),
    {
        proof {
            use_type_invariant(self);
        }
        self.0.as_str()
    }
}

/// Byte buffer that is erased when it is dropped.
#[verifier::external_body]
#[derive(Debug)]
pub struct ErasingBytes {
    bytes: Zeroizing<Vec<u8>>,
}

/// Bytes that an erasing buffer holds.
pub uninterp spec fn held_bytes(buffer: ErasingBytes) -> Seq<u8>;

impl ErasingBytes {
    /// `zeroize::Zeroizing::new`: the buffer holds the bytes it was given.
    /// That they are erased on drop is left unsaid.
    #[verifier::external_body]
    pub(crate) fn new(bytes: Vec<u8>) -> (buffer: Self)
        ensures
            held_bytes(buffer) == bytes@,
    {
        ErasingBytes { bytes: Zeroizing::new(bytes) }
    }

    /// `zeroize::Zeroizing::deref`: the bytes that the buffer holds.
    #[verifier::external_body]
    pub(crate) fn as_slice(&self) -> (bytes: &[u8])
        ensures
            bytes@ == held_bytes(*self),
    {
        self.bytes.as_slice()
    }
}

/// `std::str::from_utf8`: the text whose encoding the bytes are, where they
/// are the encoding of one.
#[verifier::external_body]
fn utf8_text(bytes: &[u8]) -> (text: Option<&str>)
    ensures
        match text {
            Some(text) => valid_utf8(bytes@) && text@ == decode_utf8(bytes@),
            None => !valid_utf8(bytes@),
        },
{
    std::str::from_utf8(bytes).ok()
}

/// Non-serializable credential bytes erased when their owner is dropped.
///
/// Its debug output is content-free, because that of `Zeroizing` is. Providers
/// should keep this value short-lived and expose its bytes only while
/// constructing an authenticated request.
#[derive(Debug)]
pub struct SecretValue {
    bytes: ErasingBytes,
}

impl SecretValue {
    /// Credential bytes.
    pub closed spec fn bytes(self) -> Seq<u8> {
        held_bytes(self.bytes)
    }

    #[verifier::type_invariant]
    spec fn bounded(self) -> bool {
        0 < self.bytes().len() <= MAX_SECRET_VALUE_BYTES
    }

    /// Wraps a non-empty, bounded credential buffer.
    pub fn new(bytes: Vec<u8>) -> (result: Result<Self, HarnessError>)
        ensures
            match result {
                Ok(value) => 0 < bytes@.len() <= MAX_SECRET_VALUE_BYTES && value.bytes() == bytes@,
                Err(error) => !(0 < bytes@.len() <= MAX_SECRET_VALUE_BYTES) && error@ == ErrorView::Secret(
                    "secret value must be 1-65536 bytes"@,
                ),
            },
    {
        if bytes.len() == 0 || bytes.len() > MAX_SECRET_VALUE_BYTES {
            return Err(secret_error("secret value must be 1-65536 bytes"));
        }
        Ok(SecretValue { bytes: ErasingBytes::new(bytes) })
    }

    /// Exposes credential bytes to the immediate authenticated operation.
    pub fn expose_bytes(&self) -> (bytes: &[u8])
        ensures
            bytes@ == self.bytes(),
            0 < bytes@.len() <= MAX_SECRET_VALUE_BYTES,
    {
        proof {
            use_type_invariant(self);
        }
        self.bytes.as_slice()
    }

    /// Exposes a UTF-8 credential to an immediate text-only boundary.
    ///
    /// The failure is deliberately content-free. Callers must not add
    /// provider diagnostics or credential bytes to a wider error.
    pub fn expose_str(&self) -> (result: Result<&str, HarnessError>)
        ensures
            match result {
                Ok(text) => valid_utf8(self.bytes()) && encode_utf8(text@) == self.bytes(),
                Err(error) => !valid_utf8(self.bytes()) && error@ == ErrorView::Secret("secret value is not valid UTF-8"@),
            },
    {
        match utf8_text(self.expose_bytes()) {
            Some(text) => {
                proof {
                    broadcast use vstd::utf8::decode_utf8_encode_utf8;

                }
                Ok(text)
            },
            None => Err(secret_error("secret value is not valid UTF-8")),
        }
    }

    /// Returns the credential byte length without exposing its contents.
    pub fn len(&self) -> (length: usize)
        ensures
            length == self.bytes().len(),
    {
        self.bytes.as_slice().len()
    }

    /// Returns the text that stands for the value in diagnostics. It does not
    /// depend on the credential.
    pub fn redacted(&self) -> (text: &'static str)
        ensures
            text@ == "SecretValue([REDACTED])"@,
    {
        "SecretValue([REDACTED])"
    }
}

/// Governed Effect phase that is consuming one credential.
#[derive(Clone, Copy, Debug, PartialEq, Eq, Structural)]
pub enum SecretEffectPhase {
    /// A freshly claimed Effect is entering its mutating Connector.
    Execution,
    /// An uncertain Effect is entering its authoritative read-only lookup.
    Reconciliation,
}

/// Reference-service operation that consumes a credential without a Turn.
#[derive(Clone, Copy, Debug, PartialEq, Eq, Structural)]
pub enum SecretServiceUse {
    /// Startup or Doctor availability validation under deployment authority.
    StartupProbe,
    /// One request on an explicitly configured shared transport session.
    TransportRequest,
}

/// Immutable external operation coordinate of a Governed Effect.
#[derive(Clone, Debug, PartialEq, Eq)]
pub struct EffectOperation {
    /// Connector that performs it.
    pub connector: String,
    /// Operation of the Connector.
    pub operation: String,
}

/// Typed, non-secret reason for resolving one credential.
///
/// A usage is evidence for Provider authorization and audit. It is not an
/// authority source: actor and tenant identity remain exclusively in the
/// separately supplied [`AuthorityContext`].
#[derive(Clone, Debug, PartialEq, Eq)]
pub enum SecretUseContext {
    /// A Model or another capability serving one exact Agent Turn.
    AgentTurn {
        /// Owning Thread.
        thread_id: ThreadId,
        /// Active Turn.
        turn_id: TurnId,
    },
    /// A durable Governed Effect entering one exact Connector attempt.
    GovernedEffect {
        /// Stable durable Effect identity.
        effect_id: String,
        /// Immutable external operation coordinate.
        operation: EffectOperation,
        /// Mutating execution or authoritative read-only reconciliation.
        phase: SecretEffectPhase,
        /// Positive durable attempt.
        attempt: u32,
        /// Exact execution fence associated with the attempt.
        lease_id: String,
    },
    /// A deployment-owned operation with no legitimate Thread or Turn.
    Service {
        /// Exact bounded service purpose.
        use_case: SecretServiceUse,
    },
}

/// Context supplied to a secret resolver without any secret material.
#[derive(Clone, Debug, PartialEq, Eq)]
pub struct SecretRequest {
    /// Opaque reference selected by host configuration.
    pub reference: SecretReference,
    /// Capability consuming the credential.
    pub consumer: String,
    /// Typed operation context; never a substitute for trusted authority.
    pub use_context: SecretUseContext,
}

/// Stable metadata for one resolver implementation.
#[derive(Debug, PartialEq, Eq)]
pub struct SecretProviderDescriptor {
    /// Stable registry name.
    pub name: String,
    /// Human-readable source and custody behavior.
    pub description: String,
    /// Exact provider contract implemented by the resolver.
    pub api_version: u32,
}

impl Clone for SecretProviderDescriptor {
    fn clone(&self) -> (result: Self)
        ensures
            result == *self,
    {
        SecretProviderDescriptor {
            name: self.name.clone(),
            description: self.description.clone(),
            api_version: self.api_version,
        }
    }
}

/// Outcome of checking the metadata of a resolver.
pub open spec fn descriptor_check(descriptor: SecretProviderDescriptor) -> Result<(), ErrorView> {
    if !capability_name_is_valid(descriptor.name@) {
        Err(invalid_name("secret provider"@))
    } else if is_blank(descriptor.description@) || utf8_len(descriptor.description@) > MAX_SECRET_DESCRIPTION_BYTES {
        Err(
            ErrorView::InvalidCapability(
                "secret provider "@ + descriptor.name@ + " description must be 1-4096 bytes"@,
            ),
        )
    } else if descriptor.api_version != SECRET_API_VERSION {
        Err(
            ErrorView::InvalidCapability(
                "secret provider "@ + descriptor.name@ + " API version "@ + decimal(descriptor.api_version as nat)
                    + " is unsupported; expected 3"@,
            ),
        )
    } else {
        Ok(())
    }
}

/// Checks the metadata of a resolver.
pub fn validate_secret_descriptor(descriptor: &SecretProviderDescriptor) -> (result: Result<(), HarnessError>)
    ensures
        settles(result, descriptor_check(*descriptor)),
{
    if let Err(error) = validate_capability_name("secret provider", descriptor.name.as_str()) {
        return Err(error);
    }
    if blank(descriptor.description.as_str()) || byte_len(descriptor.description.as_str()) > MAX_SECRET_DESCRIPTION_BYTES {
        return Err(
            HarnessError::InvalidCapability(
                join3("secret provider ", descriptor.name.as_str(), " description must be 1-4096 bytes"),
            ),
        );
    }
    if descriptor.api_version != SECRET_API_VERSION {
        let version = decimal_text(descriptor.api_version as u64);
        return Err(
            HarnessError::InvalidCapability(
                join5(
                    "secret provider ",
                    descriptor.name.as_str(),
                    " API version ",
                    version.as_str(),
                    " is unsupported; expected 3",
                ),
            ),
        );
    }
    Ok(())
}

/// Registered resolver and its operator-assigned trust origin.
///
/// The resolver itself is a handle of the host, which keeps it under the same
/// name.
#[derive(Debug)]
pub struct RegisteredSecretProvider {
    /// Validated descriptor.
    pub descriptor: SecretProviderDescriptor,
    /// Registration trust origin.
    pub origin: CapabilityOrigin,
}

/// Deterministic, collision-safe Secret Provider registry.
pub struct SecretRegistry {
    providers: Table<RegisteredSecretProvider>,
}

impl View for SecretRegistry {
    type V = Map<Seq<char>, RegisteredSecretProvider>;

    closed spec fn view(&self) -> Map<Seq<char>, RegisteredSecretProvider> {
        self.providers@
    }
}

/// Outcome of registering a resolver: the first check that fails decides.
pub open spec fn registration(
    providers: Map<Seq<char>, RegisteredSecretProvider>,
    origin: CapabilityOrigin,
    descriptor: Result<SecretProviderDescriptor, HarnessError>,
) -> Result<SecretProviderDescriptor, ErrorView> {
    if !origin_is_valid(origin@) {
        Err(invalid_origin())
    } else if providers.len() + 1 > MAX_REGISTRY_ENTRIES {
        Err(registry_full("secret provider"@))
    } else {
        match descriptor {
            Err(error) => Err(error@),
            Ok(descriptor) => if descriptor_check(descriptor) is Err {
                Err(descriptor_check(descriptor)->Err_0)
            } else if providers.contains_key(descriptor.name@) {
                Err(ErrorView::DuplicateCapability(descriptor.name@))
            } else {
                Ok(descriptor)
            },
        }
    }
}

impl Default for SecretRegistry {
    fn default() -> (registry: Self)
        ensures
            registry@ == Map::<Seq<char>, RegisteredSecretProvider>::empty(),
    {
        SecretRegistry::new()
    }
}

impl SecretRegistry {
    /// Creates an empty registry.
    pub fn new() -> (registry: Self)
        ensures
            registry@ == Map::<Seq<char>, RegisteredSecretProvider>::empty(),
    {
        SecretRegistry { providers: Table::new() }
    }

    /// Validates and registers one resolver without identity replacement.
    ///
    /// `descriptor` is what the resolver returned for its metadata.
    pub fn register(
        &mut self,
        origin: CapabilityOrigin,
        descriptor: Result<SecretProviderDescriptor, HarnessError>,
    ) -> (result: Result<(), HarnessError>)
        ensures
            match registration(old(self)@, origin, descriptor) {
                Err(fault) => result matches Err(error) && error@ == fault && *final(self) == *old(self),
                Ok(descriptor) => result is Ok && final(self)@ == old(self)@.insert(
                    descriptor.name@,
                    RegisteredSecretProvider { descriptor, origin },
                ),
            },
    {
        if let Err(error) = validate_capability_origin(&origin) {
            return Err(error);
        }
        if let Err(error) = validate_registry_growth("secret provider", self.providers.len(), 1) {
            return Err(error);
        }
        let descriptor = match descriptor {
            Ok(descriptor) => descriptor,
            Err(error) => {
                return Err(error);
            },
        };
        if let Err(error) = validate_secret_descriptor(&descriptor) {
            return Err(error);
        }
        if self.providers.contains(descriptor.name.as_str()) {
            return Err(HarnessError::DuplicateCapability(descriptor.name));
        }
        self.providers.insert(descriptor.name.clone(), RegisteredSecretProvider { descriptor, origin });
        Ok(())
    }

    /// Looks up a resolver by exact stable identity.
    pub fn get(&self, name: &str) -> (provider: Option<&RegisteredSecretProvider>)
        ensures
            match provider {
                Some(provider) => self@.contains_key(name@) && *provider == self@[name@],
                None => !self@.contains_key(name@),
            },
    {
        self.providers.get(name)
    }

    /// Returns resolver identities in deterministic order.
    pub fn names(&self) -> (names: Vec<String>)
        ensures
            lists_keys(names@, self@),
    {
        self.providers.keys()
    }
}

/// Whether a text names an environment variable portably.
pub open spec fn variable_is_valid(name: Seq<char>) -> bool {
    &&& name.len() > 0
    &&& is_variable_start(name[0])
    &&& forall|i: int| 1 <= i < name.len() ==> is_variable_char(#[trigger] name[i])
}

/// First characters of a variable name.
pub open spec fn is_variable_start(c: char) -> bool {
    'A' <= c <= 'Z' || 'a' <= c <= 'z' || c == '_'
}

/// Later characters of a variable name.
pub open spec fn is_variable_char(c: char) -> bool {
    is_alphanumeric(c) || c == '_'
}

/// Decides whether a text names an environment variable portably.
pub fn valid_environment_name(name: &str) -> (result: bool)
    ensures
        result == variable_is_valid(name@),
{
    let mut first: bool = true;
    for c in it: name.chars()
        invariant
            it.seq() == name@,
            first == (it.index() == 0),
            it.index() > 0 ==> is_variable_start(name@[0]),
            forall|i: int| 1 <= i < it.index() ==> is_variable_char(#[trigger] name@[i]),
    {
        assert(name@[it.index()] == c);
        if first {
            if !(('A' <= c && c <= 'Z') || ('a' <= c && c <= 'z') || c == '_') {
                return false;
            }
            first = false;
        } else if !(alphanumeric_char(c) || c == '_') {
            return false;
        }
    }
    !first
}

/// Variables by the references that are mapped to them.
pub struct SecretMappings {
    variables: Table<String>,
}

impl View for SecretMappings {
    type V = Map<Seq<char>, String>;

    closed spec fn view(&self) -> Map<Seq<char>, String> {
        self.variables@
    }
}

/// Whether some reference is mapped to something that is no variable name.
pub open spec fn maps_invalid(mappings: Map<Seq<char>, String>) -> bool {
    exists|reference: Seq<char>| #[trigger]
        mappings.contains_key(reference) && !variable_is_valid(mappings[reference]@)
}

impl SecretMappings {
    /// Creates mappings that hold nothing.
    pub fn new() -> (mappings: Self)
        ensures
            mappings@ == Map::<Seq<char>, String>::empty(),
    {
        SecretMappings { variables: Table::new() }
    }

    /// Maps a reference to a variable.
    pub fn insert(&mut self, reference: &SecretReference, variable: String)
        ensures
            final(self)@ == old(self)@.insert(reference@, variable),
    {
        self.variables.insert(reference.as_str().to_owned(), variable);
    }

    /// Returns the number of mapped references.
    pub fn len(&self) -> (count: usize)
        ensures
            count == self@.len(),
            self@.dom().finite(),
    {
        self.variables.len()
    }

    /// Finds the variable that a reference is mapped to.
    pub fn variable(&self, reference: &SecretReference) -> (variable: Option<&String>)
        ensures
            match variable {
                Some(variable) => self@.contains_key(reference@) && *variable == self@[reference@],
                None => !self@.contains_key(reference@),
            },
    {
        self.variables.get(reference.as_str())
    }

    fn holds_invalid(&self) -> (result: bool)
        ensures
            result == maps_invalid(self@),
    {
        let count: usize = self.variables.len();
        let mut k: usize = 0;
        while k < count
            invariant
                k <= count == self.variables.rows().len(),
                rows_ordered(self.variables.rows()),
                forall|j: int| 0 <= j < k ==> variable_is_valid((#[trigger] self.variables.rows()[j]).value@),
            decreases count - k,
        {
            if !valid_environment_name(self.variables.value_at(k).as_str()) {
                proof {
                    let key = self.variables.rows()[k as int].key@;
                    lemma_table_rows(&self.variables, k as int, key);
                    assert(self@.contains_key(key));
                }
                return true;
            }
            k += 1;
        }
        proof {
            if maps_invalid(self@) {
                let key = choose|key: Seq<char>| #[trigger] self@.contains_key(key) && !variable_is_valid(self@[key]@);
                lemma_table_rows(&self.variables, 0, key);
                let j = choose|j: int|
                    0 <= j < self.variables.rows().len() && #[trigger] self.variables.rows()[j].key@ == key;
                lemma_table_rows(&self.variables, j, key);
                assert(variable_is_valid(self.variables.rows()[j].value@));
            }
        }
        false
    }
}

/// Explicit allow-list adapter for credentials supplied by process environment.
///
/// Only mapped variable names are read. Values are loaded on demand, never
/// retained by this provider, and never part of an error or debug output.
pub struct EnvironmentSecretProvider {
    descriptor: SecretProviderDescriptor,
    mappings: SecretMappings,
}

/// Outcome of creating a resolver over an explicit mapping.
pub open spec fn environment_check(
    descriptor: SecretProviderDescriptor,
    mappings: Map<Seq<char>, String>,
) -> Result<(), ErrorView> {
    if descriptor_check(descriptor) is Err {
        descriptor_check(descriptor)
    } else if mappings.len() == 0 || mappings.len() > MAX_SECRET_MAPPINGS {
        Err(ErrorView::InvalidConfiguration("environment secret mappings must contain 1-1024 entries"@))
    } else if maps_invalid(mappings) {
        Err(ErrorView::InvalidConfiguration("environment secret mappings contain an invalid variable name"@))
    } else {
        Ok(())
    }
}

/// Whether a descriptor is the one of a built-in resolver.
pub open spec fn describes(descriptor: SecretProviderDescriptor, name: String, description: Seq<char>) -> bool {
    descriptor.name == name && descriptor.description@ == description && descriptor.api_version == SECRET_API_VERSION
}

impl EnvironmentSecretProvider {
    /// Metadata of the resolver.
    pub closed spec fn metadata(self) -> SecretProviderDescriptor {
        self.descriptor
    }

    /// Variables by reference.
    pub closed spec fn mapped(self) -> Map<Seq<char>, String> {
        self.mappings@
    }

    /// Creates a resolver over an explicit reference-to-variable mapping.
    pub fn new(name: String, mappings: SecretMappings) -> (result: Result<Self, HarnessError>)
        ensures
            exists|descriptor: SecretProviderDescriptor| #[trigger]
                describes(
                    descriptor,
                    name,
                    "Resolves explicitly mapped process environment variables on demand"@,
                ) && match result {
                    Ok(provider) => environment_check(descriptor, mappings@) is Ok && provider.metadata() == descriptor
                        && provider.mapped() == mappings@,
                    Err(error) => environment_check(descriptor, mappings@) == Err::<(), ErrorView>(error@),
                },
    {
        let descriptor = SecretProviderDescriptor {
            name,
            description: "Resolves explicitly mapped process environment variables on demand".to_owned(),
            api_version: SECRET_API_VERSION,
        };
        assert(describes(descriptor, name, "Resolves explicitly mapped process environment variables on demand"@));
        if let Err(error) = validate_secret_descriptor(&descriptor) {
            return Err(error);
        }
        if mappings.len() == 0 || mappings.len() > MAX_SECRET_MAPPINGS {
            return Err(
                HarnessError::InvalidConfiguration(
                    "environment secret mappings must contain 1-1024 entries".to_owned(),
                ),
            );
        }
        if mappings.holds_invalid() {
            return Err(
                HarnessError::InvalidConfiguration(
                    "environment secret mappings contain an invalid variable name".to_owned(),
                ),
            );
        }
        Ok(EnvironmentSecretProvider { descriptor, mappings })
    }

    /// Returns stable registration metadata.
    pub fn descriptor(&self) -> (descriptor: SecretProviderDescriptor)
        ensures
            descriptor == self.metadata(),
    {
        self.descriptor.clone()
    }

    /// Finds the variable that has to be read for a request. No reference
    /// that is not mapped leads to a variable.
    pub fn variable(&self, request: &SecretRequest) -> (result: Result<&String, HarnessError>)
        ensures
            match result {
                Ok(variable) => self.mapped().contains_key(request.reference@) && *variable
                    == self.mapped()[request.reference@],
                Err(error) => !self.mapped().contains_key(request.reference@) && error@ == ErrorView::Secret(
                    "secret reference is not mapped by this provider"@,
                ),
            },
    {
        match self.mappings.variable(&request.reference) {
            Some(variable) => Ok(variable),
            None => Err(secret_error("secret reference is not mapped by this provider")),
        }
    }
}

/// Outcome of asking a provider that knows no tenants for a credential.
pub open spec fn unscoped_check(authority: AuthorityView) -> Result<(), ErrorView> {
    if authority.check("Secret Provider authority"@) is Err {
        authority.check("Secret Provider authority"@)
    } else if authority.tenant_id is Some {
        Err(ErrorView::Secret("secret provider does not support tenant-scoped resolution"@))
    } else {
        Ok(())
    }
}

/// Checks that a provider that knows no tenants may be asked: it fails closed
/// for tenant-scoped access.
pub fn require_unscoped(authority: &AuthorityContext) -> (result: Result<(), HarnessError>)
    ensures
        settles(result, unscoped_check(authority@)),
{
    if let Err(error) = authority.validate_current("Secret Provider authority") {
        return Err(error);
    }
    if authority.tenant_id().is_some() {
        return Err(secret_error("secret provider does not support tenant-scoped resolution"));
    }
    Ok(())
}

/// Calls `String::into_bytes`: the bytes are the text in UTF-8. It consumes
/// the text and copies nothing, so that no second buffer holds a credential;
/// the contract speaks of the bytes only.
#[verifier::external_body]
fn text_into_bytes(text: String) -> (bytes: Vec<u8>)
    ensures
        bytes@ == encode_utf8(text@),
{
    text.into_bytes()
}

/// Takes what the environment holds for a mapped variable. Neither the
/// variable nor its value is part of an error, and the text's own buffer
/// becomes that of the credential.
pub fn environment_value(value: Option<String>) -> (result: Result<SecretValue, HarnessError>)
    ensures
        match value {
            None => result matches Err(error) && error@ == ErrorView::Secret(
                "mapped environment credential is unavailable or not Unicode"@,
            ),
            Some(text) => match result {
                Ok(secret) => 0 < utf8_len(text@) <= MAX_SECRET_VALUE_BYTES && secret.bytes() == encode_utf8(text@),
                Err(error) => !(0 < utf8_len(text@) <= MAX_SECRET_VALUE_BYTES) && error@ == ErrorView::Secret(
                    "secret value must be 1-65536 bytes"@,
                ),
            },
        },
{
    match value {
        None => Err(secret_error("mapped environment credential is unavailable or not Unicode")),
        Some(text) => SecretValue::new(text_into_bytes(text)),
    }
}

/// Mappings of several tenants.
pub struct TenantMappings {
    tenants: Table<SecretMappings>,
}

impl View for TenantMappings {
    type V = Map<Seq<char>, SecretMappings>;

    closed spec fn view(&self) -> Map<Seq<char>, SecretMappings> {
        self.tenants@
    }
}

impl TenantMappings {
    /// Mappings in tenant order.
    pub closed spec fn rows(self) -> Seq<Row<SecretMappings>> {
        self.tenants.rows()
    }

    /// Creates mappings of no tenant.
    pub fn new() -> (mappings: Self)
        ensures
            mappings@ == Map::<Seq<char>, SecretMappings>::empty(),
    {
        TenantMappings { tenants: Table::new() }
    }

    /// Sets the mappings of a tenant.
    pub fn insert(&mut self, tenant_id: String, mappings: SecretMappings)
        ensures
            final(self)@ == old(self)@.insert(tenant_id@, mappings),
    {
        self.tenants.insert(tenant_id, mappings);
    }
}

/// Number of references that the first tenants map together.
pub open spec fn total_mappings(rows: Seq<Row<SecretMappings>>) -> nat
    decreases rows.len(),
{
    if rows.len() == 0 {
        0
    } else {
        total_mappings(rows.drop_last()) + rows.last().value@.len()
    }
}

proof fn lemma_total_grows(rows: Seq<Row<SecretMappings>>, n: int)
    requires
        0 <= n <= rows.len(),
    ensures
        total_mappings(rows.take(n)) <= total_mappings(rows),
    decreases rows.len() - n,
{
    if n == rows.len() {
        assert(rows.take(n) =~= rows);
    } else {
        assert(rows.take(n + 1).drop_last() =~= rows.take(n));
        lemma_total_grows(rows, n + 1);
    }
}

/// First fault among the tenants from `n` on, in their order.
pub open spec fn tenant_fault(rows: Seq<Row<SecretMappings>>, n: int) -> Option<ErrorView>
    decreases rows.len() - n,
{
    if n < 0 || n >= rows.len() {
        None
    } else if !tenant_is_valid(rows[n].key@) {
        Some(invalid_tenant())
    } else if maps_invalid(rows[n].value@) {
        Some(
            ErrorView::InvalidConfiguration("tenant environment secret mappings contain an invalid variable name"@),
        )
    } else {
        tenant_fault(rows, n + 1)
    }
}

/// Outcome of creating a resolver over the mappings of tenants.
pub open spec fn tenant_environment_check(
    descriptor: SecretProviderDescriptor,
    rows: Seq<Row<SecretMappings>>,
) -> Result<(), ErrorView> {
    let total = total_mappings(rows);
    if descriptor_check(descriptor) is Err {
        descriptor_check(descriptor)
    } else if total > usize::MAX {
        Err(ErrorView::InvalidConfiguration("tenant environment secret mapping count overflow"@))
    } else if rows.len() == 0 || (exists|k: int| 0 <= k < rows.len() && (#[trigger] rows[k]).value@.len() == 0) || total == 0
        || total > MAX_SECRET_MAPPINGS {
        Err(
            ErrorView::InvalidConfiguration("tenant environment secret mappings must contain 1-1024 total entries"@),
        )
    } else {
        match tenant_fault(rows, 0) {
            Some(fault) => Err(fault),
            None => Ok(()),
        }
    }
}

/// Number of references that tenants map together.
pub open spec fn mapped_total(mappings: Map<Seq<char>, SecretMappings>) -> nat
    decreases mappings.dom().len(),
{
    if !mappings.dom().finite() || mappings.dom().len() == 0 {
        0
    } else {
        let tenant = mappings.dom().choose();
        mappings[tenant]@.len() + mapped_total(mappings.remove(tenant))
    }
}

/// Whether a resolver can be created over the mappings of tenants: there is a
/// tenant, each of them maps something, together they map no more than the
/// limit, and every tenant and variable is valid.
pub open spec fn tenants_are_acceptable(mappings: Map<Seq<char>, SecretMappings>) -> bool {
    &&& mappings.len() > 0
    &&& mapped_total(mappings) <= MAX_SECRET_MAPPINGS
    &&& forall|tenant: Seq<char>| #[trigger]
        mappings.contains_key(tenant) ==> mappings[tenant]@.len() > 0 && tenant_is_valid(tenant) && !maps_invalid(
            mappings[tenant]@,
        )
}

proof fn lemma_total_of_one(mappings: Map<Seq<char>, SecretMappings>, tenant: Seq<char>)
    requires
        mappings.dom().finite(),
        mappings.contains_key(tenant),
    ensures
        mapped_total(mappings) == mappings[tenant]@.len() + mapped_total(mappings.remove(tenant)),
    decreases mappings.dom().len(),
{
    let first = mappings.dom().choose();
    assert(mappings.dom().contains(tenant));
    assert(mappings.dom().contains(first));
    if first != tenant {
        lemma_total_of_one(mappings.remove(first), tenant);
        lemma_total_of_one(mappings.remove(tenant), first);
        assert(mappings.remove(first).remove(tenant) =~= mappings.remove(tenant).remove(first));
    }
}

proof fn lemma_totals_agree(rows: Seq<Row<SecretMappings>>)
    requires
        rows_ordered(rows),
    ensures
        total_mappings(rows) == mapped_total(rows_map(rows)),
    decreases rows.len(),
{
    lemma_map_size(rows);
    if rows.len() > 0 {
        lemma_last_row(rows);
        lemma_totals_agree(rows.drop_last());
        lemma_total_of_one(rows_map(rows), rows.last().key@);
    }
}

proof fn lemma_no_fault(rows: Seq<Row<SecretMappings>>, n: int)
    requires
        0 <= n <= rows.len(),
    ensures
        tenant_fault(rows, n) is None <==> forall|k: int|
            n <= k < rows.len() ==> tenant_is_valid((#[trigger] rows[k]).key@) && !maps_invalid(rows[k].value@),
    decreases rows.len() - n,
{
    if n < rows.len() {
        lemma_no_fault(rows, n + 1);
    }
}

/// The outcome of creating a resolver is that of the mappings alone: rows in
/// tenant order are accepted exactly where the map that they stand for is.
pub proof fn law_tenant_rows_stand_for_the_mappings(
    descriptor: SecretProviderDescriptor,
    rows: Seq<Row<SecretMappings>>,
)
    requires
        rows_ordered(rows),
    ensures
        tenant_environment_check(descriptor, rows) is Ok <==> descriptor_check(descriptor) is Ok
            && tenants_are_acceptable(rows_map(rows)),
{
    let mappings = rows_map(rows);
    lemma_map_size(rows);
    lemma_totals_agree(rows);
    lemma_no_fault(rows, 0);
    assert forall|k: int| 0 <= k < rows.len() implies mappings.contains_key((#[trigger] rows[k]).key@)
        && mappings[rows[k].key@] == rows[k].value by {
        lemma_row_in_map(rows, k);
    }
    if tenants_are_acceptable(mappings) {
        lemma_total_grows(rows, 1);
        assert(rows.take(1).drop_last().len() == 0);
        assert(rows.take(1).last() == rows[0]);
    }
    if tenant_environment_check(descriptor, rows) is Ok {
        assert forall|tenant: Seq<char>| #[trigger] mappings.contains_key(tenant) implies mappings[tenant]@.len() > 0
            && tenant_is_valid(tenant) && !maps_invalid(mappings[tenant]@) by {
            let k = choose|k: int| 0 <= k < rows.len() && #[trigger] rows[k].key@ == tenant;
            assert(rows[k].value@.len() != 0);
        }
    }
}

/// Explicit tenant-to-environment mapping for embedded enterprise hosts.
///
/// Each lookup requires an exact trusted tenant. Unscoped and cross-tenant
/// requests never fall back to another tenant or to ambient variable names.
pub struct TenantEnvironmentSecretProvider {
    descriptor: SecretProviderDescriptor,
    mappings: TenantMappings,
}

/// Variable that has to be read for a request of an authority, or why there
/// is none.
pub open spec fn tenant_variable(
    mappings: Map<Seq<char>, SecretMappings>,
    reference: Seq<char>,
    authority: AuthorityView,
) -> Result<String, ErrorView> {
    if authority.check("Secret Provider authority"@) is Err {
        Err(authority.check("Secret Provider authority"@)->Err_0)
    } else {
        match authority.tenant_id {
            None => Err(ErrorView::Secret("tenant environment secret provider requires tenant authority"@)),
            Some(tenant) => if mappings.contains_key(tenant) && mappings[tenant]@.contains_key(reference) {
                Ok(mappings[tenant]@[reference])
            } else {
                Err(ErrorView::Secret("secret reference is not mapped for this tenant"@))
            },
        }
    }
}

impl TenantEnvironmentSecretProvider {
    /// Metadata of the resolver.
    pub closed spec fn metadata(self) -> SecretProviderDescriptor {
        self.descriptor
    }

    /// Mappings by tenant.
    pub closed spec fn mapped(self) -> Map<Seq<char>, SecretMappings> {
        self.mappings@
    }

    /// Creates a resolver from exact tenant/reference maps.
    ///
    /// Where several tenants are at fault, the first of them in tenant order
    /// decides which error is returned.
    pub fn new(name: String, tenant_mappings: TenantMappings) -> (result: Result<Self, HarnessError>)
        ensures
            rows_ordered(tenant_mappings.rows()),
            tenant_mappings@ == rows_map(tenant_mappings.rows()),
            exists|descriptor: SecretProviderDescriptor| #[trigger]
                describes(
                    descriptor,
                    name,
                    "Resolves explicitly tenant-mapped process environment variables on demand"@,
                ) && (result is Ok <==> descriptor_check(descriptor) is Ok && tenants_are_acceptable(
                    tenant_mappings@,
                )) && match result {
                    Ok(provider) => tenant_environment_check(descriptor, tenant_mappings.rows()) is Ok
                        && provider.metadata() == descriptor && provider.mapped() == tenant_mappings@,
                    Err(error) => tenant_environment_check(descriptor, tenant_mappings.rows()) == Err::<(), ErrorView>(
                        error@,
                    ),
                },
    {
        let descriptor = SecretProviderDescriptor {
            name,
            description: "Resolves explicitly tenant-mapped process environment variables on demand".to_owned(),
            api_version: SECRET_API_VERSION,
        };
        assert(describes(
            descriptor,
            name,
            "Resolves explicitly tenant-mapped process environment variables on demand"@,
        ));
        proof {
            lemma_table_rows(&tenant_mappings.tenants, 0, Seq::empty());
            use_type_invariant(&tenant_mappings.tenants);
            law_tenant_rows_stand_for_the_mappings(descriptor, tenant_mappings.rows());
        }
        if let Err(error) = validate_secret_descriptor(&descriptor) {
            return Err(error);
        }
        if let Err(error) = require_tenant_counts(&tenant_mappings) {
            return Err(error);
        }
        if let Err(error) = require_tenant_rows(&tenant_mappings) {
            return Err(error);
        }
        Ok(TenantEnvironmentSecretProvider { descriptor, mappings: tenant_mappings })
    }

    /// Returns stable registration metadata.
    pub fn descriptor(&self) -> (descriptor: SecretProviderDescriptor)
        ensures
            descriptor == self.metadata(),
    {
        self.descriptor.clone()
    }

    /// Error of a request that comes without any authority.
    pub fn refuse_unscoped(&self) -> (error: HarnessError)
        ensures
            error@ == ErrorView::Secret("tenant environment secret provider requires tenant authority"@),
    {
        secret_error("tenant environment secret provider requires tenant authority")
    }

    /// Finds the variable that has to be read for a request of an authority.
    pub fn variable_as(&self, request: &SecretRequest, authority: &AuthorityContext) -> (result: Result<
        &String,
        HarnessError,
    >)
        ensures
            match result {
                Ok(variable) => tenant_variable(self.mapped(), request.reference@, authority@) == Ok::<String, ErrorView>(
                    *variable,
                ),
                Err(error) => tenant_variable(self.mapped(), request.reference@, authority@) == Err::<String, ErrorView>(
                    error@,
                ),
            },
    {
        if let Err(error) = authority.validate_current("Secret Provider authority") {
            return Err(error);
        }
        let tenant = match authority.tenant_id() {
            Some(tenant) => tenant,
            None => {
                return Err(secret_error("tenant environment secret provider requires tenant authority"));
            },
        };
        if let Some(mappings) = self.mappings.tenants.get(tenant) {
            if let Some(variable) = mappings.variable(&request.reference) {
                return Ok(variable);
            }
        }
        Err(secret_error("secret reference is not mapped for this tenant"))
    }
}

fn require_tenant_counts(mappings: &TenantMappings) -> (result: Result<(), HarnessError>)
    ensures
        ({
            let rows = mappings.rows();
            let total = total_mappings(rows);
            match result {
                Ok(()) => total <= MAX_SECRET_MAPPINGS && rows.len() > 0 && total > 0 && forall|k: int|
                    0 <= k < rows.len() ==> (#[trigger] rows[k]).value@.len() > 0,
                Err(error) => if total > usize::MAX {
                    error@ == ErrorView::InvalidConfiguration("tenant environment secret mapping count overflow"@)
                } else {
                    (rows.len() == 0 || (exists|k: int| 0 <= k < rows.len() && (#[trigger] rows[k]).value@.len() == 0)
                        || total == 0 || total > MAX_SECRET_MAPPINGS) && error@ == ErrorView::InvalidConfiguration(
                        "tenant environment secret mappings must contain 1-1024 total entries"@,
                    )
                },
            }
        }),
{
    let count: usize = mappings.tenants.len();
    let ghost rows = mappings.rows();
    let mut total: usize = 0;
    let mut empty: bool = false;
    let mut k: usize = 0;
    while k < count
        invariant
            k <= count == rows.len(),
            rows == mappings.tenants.rows(),
            rows == mappings.rows(),
            total == total_mappings(rows.take(k as int)),
            empty == exists|j: int| 0 <= j < k && (#[trigger] rows[j]).value@.len() == 0,
        decreases count - k,
    {
        let size: usize = mappings.tenants.value_at(k).len();
        proof {
            assert(rows.take(k + 1).drop_last() =~= rows.take(k as int));
            assert(rows[k as int].value@.len() == size);
        }
        match total.checked_add(size) {
            Some(sum) => {
                total = sum;
            },
            None => {
                proof {
                    lemma_total_grows(rows, k + 1);
                }
                return Err(
                    HarnessError::InvalidConfiguration("tenant environment secret mapping count overflow".to_owned()),
                );
            },
        }
        if size == 0 {
            empty = true;
        }
        k += 1;
    }
    assert(rows.take(k as int) =~= rows);
    if count == 0 || empty || total == 0 || total > MAX_SECRET_MAPPINGS {
        return Err(
            HarnessError::InvalidConfiguration(
                "tenant environment secret mappings must contain 1-1024 total entries".to_owned(),
            ),
        );
    }
    Ok(())
}

fn require_tenant_rows(mappings: &TenantMappings) -> (result: Result<(), HarnessError>)
    ensures
        match result {
            Ok(()) => tenant_fault(mappings.rows(), 0) is None,
            Err(error) => tenant_fault(mappings.rows(), 0) == Some(error@),
        },
{
    let count: usize = mappings.tenants.len();
    let mut k: usize = 0;
    while k < count
        invariant
            k <= count == mappings.rows().len(),
            mappings.rows() == mappings.tenants.rows(),
            tenant_fault(mappings.rows(), 0) == tenant_fault(mappings.rows(), k as int),
        decreases count - k,
    {
        if let Err(error) = AuthorityContext::validate_tenant(mappings.tenants.key_at(k).as_str()) {
            return Err(error);
        }
        if mappings.tenants.value_at(k).holds_invalid() {
            return Err(
                HarnessError::InvalidConfiguration(
                    "tenant environment secret mappings contain an invalid variable name".to_owned(),
                ),
            );
        }
        k += 1;
    }
    Ok(())
}

/// A tenant reaches only its own mappings: what it is given depends on no
/// other tenant.
pub proof fn law_tenants_do_not_share_credentials(
    a: Map<Seq<char>, SecretMappings>,
    b: Map<Seq<char>, SecretMappings>,
    reference: Seq<char>,
    authority: AuthorityView,
)
    requires
        authority.tenant_id matches Some(tenant) ==> (a.contains_key(tenant) <==> b.contains_key(tenant)) && (
        a.contains_key(tenant) ==> a[tenant]@ == b[tenant]@),
    ensures
        tenant_variable(a, reference, authority) == tenant_variable(b, reference, authority),
{
}

/// Without a tenant no credential of any tenant is reached.
pub proof fn law_unscoped_requests_reach_no_tenant(
    mappings: Map<Seq<char>, SecretMappings>,
    reference: Seq<char>,
    authority: AuthorityView,
)
    requires
        authority.tenant_id is None,
    ensures
        tenant_variable(mappings, reference, authority) is Err,
{
}

/// References are portable identities of up to 256 bytes, and environment
/// variables begin with a letter or an underscore and go on with letters,
/// digits and underscores.
pub proof fn law_references_and_variables_are_portable(text: Seq<char>)
    ensures
        reference_is_valid(text) <==> reads_as_identity(text, 256),
        variable_is_valid(text) <==> {
            &&& text.len() > 0
            &&& !('0' <= text[0] <= '9')
            &&& forall|i: int| 0 <= i < text.len() ==> is_letter_or_digit(#[trigger] text[i]) || text[i] == '_'
        },
{
    law_names_are_portable(text, 256);
    if variable_is_valid(text) {
        assert forall|i: int| 0 <= i < text.len() implies is_letter_or_digit(#[trigger] text[i]) || text[i] == '_' by {
            if i > 0 {
                assert(is_variable_char(text[i]));
            }
        }
    }
    if text.len() > 0 && forall|i: int| 0 <= i < text.len() ==> is_letter_or_digit(#[trigger] text[i]) || text[i] == '_' {
        assert(is_letter_or_digit(text[0]) || text[0] == '_');
    }
}

/// A Secret Provider has a portable name of up to 64 bytes, describes itself in
/// up to 4096, and speaks version 3 of the contract. It is registered from a
/// valid origin under a name that is new among 4096.
pub proof fn law_secret_providers_are_registered(
    providers: Map<Seq<char>, RegisteredSecretProvider>,
    origin: CapabilityOrigin,
    descriptor: SecretProviderDescriptor,
)
    ensures
        descriptor_check(descriptor) is Ok <==> {
            &&& reads_as_name(descriptor.name@, 64)
            &&& says_something(descriptor.description@)
            &&& encode_utf8(descriptor.description@).len() <= 4096
            &&& descriptor.api_version == 3
        },
        registration(providers, origin, Ok(descriptor)) is Ok <==> {
            &&& origin_is_valid(origin@)
            &&& providers.len() < 4096
            &&& descriptor_check(descriptor) is Ok
            &&& !providers.contains_key(descriptor.name@)
        },
        registration(providers, origin, Ok(descriptor)) matches Ok(registered) ==> registered == descriptor,
{
    law_names_are_portable(descriptor.name@, 64);
    law_blank_texts_say_nothing(descriptor.description@);
}

/// An environment maps 1 to 1024 references, each to a variable.
pub proof fn law_environments_map_variables(descriptor: SecretProviderDescriptor, mappings: Map<Seq<char>, String>)
    ensures
        environment_check(descriptor, mappings) is Ok <==> {
            &&& descriptor_check(descriptor) is Ok
            &&& 1 <= mappings.len() <= 1024
            &&& forall|reference: Seq<char>| #[trigger]
                mappings.contains_key(reference) ==> variable_is_valid(mappings[reference]@)
        },
{
}

/// Tenants have portable names of up to 128 bytes and map something each, to
/// variables, up to 1024 references together.
pub proof fn law_tenants_map_variables(mappings: Map<Seq<char>, SecretMappings>)
    ensures
        tenants_are_acceptable(mappings) <==> {
            &&& mappings.len() > 0
            &&& mapped_total(mappings) <= 1024
            &&& forall|tenant: Seq<char>| #[trigger]
                mappings.contains_key(tenant) ==> 1 <= mappings[tenant]@.len() && reads_as_name(tenant, 128) && forall|
                    reference: Seq<char>,
                | #[trigger]
                    mappings[tenant]@.contains_key(reference) ==> variable_is_valid(mappings[tenant]@[reference]@)
        },
{
    assert forall|tenant: Seq<char>| #[trigger] mappings.contains_key(tenant) implies tenant_is_valid(tenant)
        == reads_as_name(tenant, 128) by {
        law_names_are_portable(tenant, 128);
    }
}

/// A tenant gets what is mapped for it, and all of it: a variable is found
/// exactly where a valid authority names a tenant for which the reference is
/// mapped, and it is the one mapped there.
pub proof fn law_tenants_get_their_own_variables(
    mappings: Map<Seq<char>, SecretMappings>,
    reference: Seq<char>,
    authority: AuthorityView,
)
    ensures
        tenant_variable(mappings, reference, authority) is Ok <==> {
            &&& authority.check("Secret Provider authority"@) is Ok
            &&& authority.tenant_id matches Some(tenant) && mappings.contains_key(tenant)
                && mappings[tenant]@.contains_key(reference)
        },
        tenant_variable(mappings, reference, authority) matches Ok(variable) ==> variable
            == mappings[authority.tenant_id->0]@[reference],
{
}

/// A provider without tenants serves valid authorities without a tenant, and
/// no others.
pub proof fn law_unscoped_providers_refuse_tenants(authority: AuthorityView)
    ensures
        unscoped_check(authority) is Ok <==> authority.check("Secret Provider authority"@) is Ok && authority.tenant_id is None,
{
}

/// A secret has between one byte and 64 KiB, and is held as it was given; one
/// that is missing from the environment is an error.
pub proof fn law_secrets_are_held_as_given(
    bytes: Vec<u8>,
    kept: Result<SecretValue, HarnessError>,
    text: Option<String>,
    read: Result<SecretValue, HarnessError>,
)
    requires
        call_ensures(SecretValue::new, (bytes,), kept),
        call_ensures(environment_value, (text,), read),
    ensures
        kept is Ok <==> 1 <= bytes@.len() <= 65_536,
        kept matches Ok(value) ==> value.bytes() == bytes@,
        read is Ok <==> text is Some && 1 <= encode_utf8(text->0@).len() <= 65_536,
        read matches Ok(value) ==> value.bytes() == encode_utf8(text->0@),
{
}

} // verus!
