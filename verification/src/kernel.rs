//! Identities, authority, provenance and capability contracts shared by every
//! part of the harness.

use vstd::prelude::*;

use crate::error::{ErrorView, HarnessError};
use crate::text::{
    is_label, is_portable_identity, is_portable_name, join2, label_text, portable_identity, portable_name, same_text,
};

verus! {

/// Identity of a Thread.
#[derive(Debug, PartialEq, Eq)]
pub struct ThreadId(String);

impl View for ThreadId {
    type V = Seq<char>;

    closed spec fn view(&self) -> Seq<char> {
        self.0@
    }
}

impl Clone for ThreadId {
    fn clone(&self) -> (result: Self)
        ensures
            result == *self,
    {
        ThreadId(self.0.clone())
    }
}

impl ThreadId {
    /// Wraps an identity text.
    pub fn from_text(text: &str) -> (id: Self)
        ensures
            id@ == text@,
    {
        ThreadId(String::from_str(text))
    }

    /// Returns the identity text.
    pub fn as_str(&self) -> (text: &str)
        ensures
            text@ == self@,
    {
        self.0.as_str()
    }

    /// Decides whether two identities are the same.
    pub fn same(&self, other: &Self) -> (result: bool)
        ensures
            result == (self@ == other@),
    {
        same_text(self.as_str(), other.as_str())
    }
}

/// Identity of a Turn.
#[derive(Debug, PartialEq, Eq)]
pub struct TurnId(String);

impl View for TurnId {
    type V = Seq<char>;

    closed spec fn view(&self) -> Seq<char> {
        self.0@
    }
}

impl Clone for TurnId {
    fn clone(&self) -> (result: Self)
        ensures
            result == *self,
    {
        TurnId(self.0.clone())
    }
}

impl TurnId {
    /// Wraps an identity text.
    pub fn from_text(text: &str) -> (id: Self)
        ensures
            id@ == text@,
    {
        TurnId(String::from_str(text))
    }

    /// Returns the identity text.
    pub fn as_str(&self) -> (text: &str)
        ensures
            text@ == self@,
    {
        self.0.as_str()
    }

    /// Decides whether two identities are the same.
    pub fn same(&self, other: &Self) -> (result: bool)
        ensures
            result == (self@ == other@),
    {
        same_text(self.as_str(), other.as_str())
    }
}

/// Identity of one steering submission.
#[derive(Debug, PartialEq, Eq)]
pub struct SteeringId(String);

impl View for SteeringId {
    type V = Seq<char>;

    closed spec fn view(&self) -> Seq<char> {
        self.0@
    }
}

impl Clone for SteeringId {
    fn clone(&self) -> (result: Self)
        ensures
            result == *self,
    {
        SteeringId(self.0.clone())
    }
}

impl SteeringId {
    /// Wraps an identity text.
    pub fn from_text(text: &str) -> (id: Self)
        ensures
            id@ == text@,
    {
        SteeringId(String::from_str(text))
    }

    /// Returns the identity text.
    pub fn as_str(&self) -> (text: &str)
        ensures
            text@ == self@,
    {
        self.0.as_str()
    }

    /// Decides whether two identities are the same.
    pub fn same(&self, other: &Self) -> (result: bool)
        ensures
            result == (self@ == other@),
    {
        same_text(self.as_str(), other.as_str())
    }
}

/// Identity of one approval request.
#[derive(Debug, PartialEq, Eq)]
pub struct ApprovalId(String);

impl View for ApprovalId {
    type V = Seq<char>;

    closed spec fn view(&self) -> Seq<char> {
        self.0@
    }
}

impl Clone for ApprovalId {
    fn clone(&self) -> (result: Self)
        ensures
            result == *self,
    {
        ApprovalId(self.0.clone())
    }
}

impl ApprovalId {
    /// Wraps an identity text.
    pub fn from_text(text: &str) -> (id: Self)
        ensures
            id@ == text@,
    {
        ApprovalId(String::from_str(text))
    }

    /// Returns the identity text.
    pub fn as_str(&self) -> (text: &str)
        ensures
            text@ == self@,
    {
        self.0.as_str()
    }

    /// Decides whether two identities are the same.
    pub fn same(&self, other: &Self) -> (result: bool)
        ensures
            result == (self@ == other@),
    {
        same_text(self.as_str(), other.as_str())
    }
}

/// Identity of one batch of Tool calls.
#[derive(Debug, PartialEq, Eq)]
pub struct ToolCallBatchId(String);

impl View for ToolCallBatchId {
    type V = Seq<char>;

    closed spec fn view(&self) -> Seq<char> {
        self.0@
    }
}

impl Clone for ToolCallBatchId {
    fn clone(&self) -> (result: Self)
        ensures
            result == *self,
    {
        ToolCallBatchId(self.0.clone())
    }
}

impl ToolCallBatchId {
    /// Wraps an identity text.
    pub fn from_text(text: &str) -> (id: Self)
        ensures
            id@ == text@,
    {
        ToolCallBatchId(String::from_str(text))
    }

    /// Returns the identity text.
    pub fn as_str(&self) -> (text: &str)
        ensures
            text@ == self@,
    {
        self.0.as_str()
    }

    /// Decides whether two identities are the same.
    pub fn same(&self, other: &Self) -> (result: bool)
        ensures
            result == (self@ == other@),
    {
        same_text(self.as_str(), other.as_str())
    }
}

/// Longest accepted capability name, in bytes.
pub const MAX_CAPABILITY_NAME_BYTES: usize = 64;

/// Longest accepted Model identity, in bytes.
pub const MAX_MODEL_ID_BYTES: usize = 256;

/// Longest accepted tenant identity, in bytes.
pub const MAX_TENANT_BYTES: usize = 128;

/// Longest accepted actor authority or subject, in bytes.
pub const MAX_ACTOR_FIELD_BYTES: usize = 256;

/// Most entries that one registry may hold.
pub const MAX_REGISTRY_ENTRIES: usize = 4_096;

/// Operator-assigned provenance of a capability.
#[derive(Debug, PartialEq, Eq)]
pub enum CapabilityOrigin {
    /// Linked into the host.
    BuiltIn,
    /// Supplied by an extension that the operator trusts.
    TrustedExtension {
        /// Extension identity.
        id: String,
    },
    /// Supplied by an outside party.
    External {
        /// Supplier identity.
        id: String,
    },
}

/// Mathematical content of a [`CapabilityOrigin`].
#[verifier::ext_equal]
pub enum OriginView {
    /// See [`CapabilityOrigin::BuiltIn`].
    BuiltIn,
    /// See [`CapabilityOrigin::TrustedExtension`].
    TrustedExtension(Seq<char>),
    /// See [`CapabilityOrigin::External`].
    External(Seq<char>),
}

impl View for CapabilityOrigin {
    type V = OriginView;

    open spec fn view(&self) -> OriginView {
        match self {
            CapabilityOrigin::BuiltIn => OriginView::BuiltIn,
            CapabilityOrigin::TrustedExtension { id } => OriginView::TrustedExtension(id@),
            CapabilityOrigin::External { id } => OriginView::External(id@),
        }
    }
}

impl Clone for CapabilityOrigin {
    fn clone(&self) -> (result: Self)
        ensures
            result == *self,
    {
        match self {
            CapabilityOrigin::BuiltIn => CapabilityOrigin::BuiltIn,
            CapabilityOrigin::TrustedExtension { id } => CapabilityOrigin::TrustedExtension { id: id.clone() },
            CapabilityOrigin::External { id } => CapabilityOrigin::External { id: id.clone() },
        }
    }
}

impl CapabilityOrigin {
    /// Decides whether two origins are the same.
    pub fn same(&self, other: &Self) -> (result: bool)
        ensures
            result == (self@ == other@),
    {
        match (self, other) {
            (CapabilityOrigin::BuiltIn, CapabilityOrigin::BuiltIn) => true,
            (CapabilityOrigin::TrustedExtension { id: a }, CapabilityOrigin::TrustedExtension { id: b }) => same_text(a.as_str(), b.as_str()),
            (CapabilityOrigin::External { id: a }, CapabilityOrigin::External { id: b }) => same_text(a.as_str(), b.as_str()),
            _ => false,
        }
    }
}

/// Whether an origin names its supplier portably.
pub open spec fn origin_is_valid(origin: OriginView) -> bool {
    match origin {
        OriginView::BuiltIn => true,
        OriginView::TrustedExtension(id) => is_portable_identity(id, MAX_MODEL_ID_BYTES as nat),
        OriginView::External(id) => is_portable_identity(id, MAX_MODEL_ID_BYTES as nat),
    }
}

/// Error reported for an origin without a portable supplier identity.
pub open spec fn invalid_origin() -> ErrorView {
    ErrorView::InvalidCapability("capability origin must name a portable identity"@)
}

/// Checks that an origin names its supplier portably.
pub fn validate_capability_origin(origin: &CapabilityOrigin) -> (result: Result<(), HarnessError>)
    ensures
        result is Ok <==> origin_is_valid(origin@),
        result matches Err(error) ==> error@ == invalid_origin(),
{
    let valid = match origin {
        CapabilityOrigin::BuiltIn => true,
        CapabilityOrigin::TrustedExtension { id } => portable_identity(id.as_str(), MAX_MODEL_ID_BYTES),
        CapabilityOrigin::External { id } => portable_identity(id.as_str(), MAX_MODEL_ID_BYTES),
    };
    if valid {
        Ok(())
    } else {
        Err(HarnessError::InvalidCapability("capability origin must name a portable identity".to_owned()))
    }
}

/// Whether a text is a capability name.
pub open spec fn capability_name_is_valid(name: Seq<char>) -> bool {
    is_portable_name(name, MAX_CAPABILITY_NAME_BYTES as nat)
}

/// Error reported for a malformed capability name.
pub open spec fn invalid_name(kind: Seq<char>) -> ErrorView {
    ErrorView::InvalidCapability(kind + " name must be 1-64 portable ASCII characters"@)
}

/// Checks that a text is a capability name.
pub fn validate_capability_name(kind: &str, name: &str) -> (result: Result<(), HarnessError>)
    ensures
        result is Ok <==> capability_name_is_valid(name@),
        result matches Err(error) ==> error@ == invalid_name(kind@),
{
    if portable_name(name, MAX_CAPABILITY_NAME_BYTES) {
        Ok(())
    } else {
        Err(HarnessError::InvalidCapability(join2(kind, " name must be 1-64 portable ASCII characters")))
    }
}

/// Whether a text is a Model identity.
pub open spec fn model_id_is_valid(id: Seq<char>) -> bool {
    is_portable_identity(id, MAX_MODEL_ID_BYTES as nat)
}

/// Error reported for a malformed Model identity.
pub open spec fn invalid_model_id() -> ErrorView {
    ErrorView::InvalidCapability("model identity does not satisfy the portable contract"@)
}

/// Checks that a text is a Model identity.
pub fn validate_model_id(id: &str) -> (result: Result<(), HarnessError>)
    ensures
        result is Ok <==> model_id_is_valid(id@),
        result matches Err(error) ==> error@ == invalid_model_id(),
{
    if portable_identity(id, MAX_MODEL_ID_BYTES) {
        Ok(())
    } else {
        Err(HarnessError::InvalidCapability("model identity does not satisfy the portable contract".to_owned()))
    }
}

/// Error reported for a registry that may not grow further.
pub open spec fn registry_full(kind: Seq<char>) -> ErrorView {
    ErrorView::InvalidConfiguration(kind + " registry cannot hold more than 4096 entries"@)
}

/// Checks that a registry may grow by a number of entries.
pub fn validate_registry_growth(kind: &str, current: usize, additional: usize) -> (result: Result<(), HarnessError>)
    ensures
        result is Ok <==> current + additional <= MAX_REGISTRY_ENTRIES,
        result matches Err(error) ==> error@ == registry_full(kind@),
{
    if current <= MAX_REGISTRY_ENTRIES && additional <= MAX_REGISTRY_ENTRIES - current {
        Ok(())
    } else {
        Err(HarnessError::InvalidConfiguration(join2(kind, " registry cannot hold more than 4096 entries")))
    }
}

/// Party on whose behalf work is done.
#[derive(Debug, PartialEq, Eq)]
pub enum ActorIdentity {
    /// The embedding process itself.
    LocalProcess,
    /// A party authenticated at a trusted boundary.
    Authenticated {
        /// Authority that authenticated the party.
        authority: String,
        /// Identity inside that authority.
        subject: String,
    },
}

/// Party that may settle an approval.
pub type ApprovalActor = ActorIdentity;

/// Mathematical content of an [`ActorIdentity`].
#[verifier::ext_equal]
pub enum ActorView {
    /// See [`ActorIdentity::LocalProcess`].
    LocalProcess,
    /// See [`ActorIdentity::Authenticated`].
    Authenticated {
        /// Authority that authenticated the party.
        authority: Seq<char>,
        /// Identity inside that authority.
        subject: Seq<char>,
    },
}

impl View for ActorIdentity {
    type V = ActorView;

    open spec fn view(&self) -> ActorView {
        match self {
            ActorIdentity::LocalProcess => ActorView::LocalProcess,
            ActorIdentity::Authenticated { authority, subject } => ActorView::Authenticated { authority: authority@, subject: subject@ },
        }
    }
}

impl Clone for ActorIdentity {
    fn clone(&self) -> (result: Self)
        ensures
            result == *self,
    {
        match self {
            ActorIdentity::LocalProcess => ActorIdentity::LocalProcess,
            ActorIdentity::Authenticated { authority, subject } => ActorIdentity::Authenticated {
                authority: authority.clone(),
                subject: subject.clone(),
            },
        }
    }
}

impl ActorIdentity {
    /// Decides whether two parties are the same.
    pub fn same(&self, other: &Self) -> (result: bool)
        ensures
            result == (self@ == other@),
    {
        match (self, other) {
            (ActorIdentity::LocalProcess, ActorIdentity::LocalProcess) => true,
            (
                ActorIdentity::Authenticated { authority: a, subject: s },
                ActorIdentity::Authenticated { authority: b, subject: t },
            ) => same_text(a.as_str(), b.as_str()) && same_text(s.as_str(), t.as_str()),
            _ => false,
        }
    }
}

/// Whether an actor identity is inside its bounds.
pub open spec fn actor_is_valid(actor: ActorView) -> bool {
    match actor {
        ActorView::LocalProcess => true,
        ActorView::Authenticated { authority, subject } => is_label(authority, MAX_ACTOR_FIELD_BYTES as nat)
            && is_label(subject, MAX_ACTOR_FIELD_BYTES as nat),
    }
}

/// Trusted identity and optional tenant boundary of one operation.
#[derive(Debug, PartialEq, Eq)]
pub struct AuthorityContext {
    actor: ActorIdentity,
    tenant_id: Option<String>,
}

/// Mathematical content of an [`AuthorityContext`].
#[verifier::ext_equal]
pub struct AuthorityView {
    /// Trusted identity.
    pub actor: ActorView,
    /// Tenant boundary, where there is one.
    pub tenant_id: Option<Seq<char>>,
}

/// Mathematical content of an optional text.
pub open spec fn optional_text(text: Option<String>) -> Option<Seq<char>> {
    match text {
        Some(text) => Some(text@),
        None => None,
    }
}

impl View for AuthorityContext {
    type V = AuthorityView;

    closed spec fn view(&self) -> AuthorityView {
        AuthorityView { actor: self.actor@, tenant_id: optional_text(self.tenant_id) }
    }
}

impl Clone for AuthorityContext {
    fn clone(&self) -> (result: Self)
        ensures
            result == *self,
    {
        AuthorityContext {
            actor: self.actor.clone(),
            tenant_id: match &self.tenant_id {
                Some(tenant) => Some(tenant.clone()),
                None => None,
            },
        }
    }
}

/// Whether a text is a canonical tenant identity.
pub open spec fn tenant_is_valid(tenant: Seq<char>) -> bool {
    is_portable_name(tenant, MAX_TENANT_BYTES as nat)
}

/// Error reported for a tenant identity that is not canonical.
pub open spec fn invalid_tenant() -> ErrorView {
    ErrorView::InvalidConfiguration("tenant identity must be 1-128 portable ASCII characters"@)
}

/// Error reported for an actor identity outside its bounds.
pub open spec fn invalid_actor(label: Seq<char>) -> ErrorView {
    ErrorView::Approval(label + " must use 1-256 non-control bytes"@)
}

impl AuthorityView {
    /// Outcome of checking an authority: the actor is checked before the tenant.
    pub open spec fn check(self, label: Seq<char>) -> Result<(), ErrorView> {
        if !actor_is_valid(self.actor) {
            Err(invalid_actor(label))
        } else if self.tenant_id matches Some(tenant) && !tenant_is_valid(tenant) {
            Err(invalid_tenant())
        } else {
            Ok(())
        }
    }
}

impl AuthorityContext {
    /// Creates an authority after checking both identities.
    pub fn new(actor: ActorIdentity, tenant_id: Option<String>) -> (result: Result<Self, HarnessError>)
        ensures
            ({
                let wanted = (AuthorityView { actor: actor@, tenant_id: optional_text(tenant_id) });
                match result {
                    Ok(authority) => authority@ == wanted && wanted.check("authority"@) is Ok,
                    Err(error) => wanted.check("authority"@) == Err::<(), ErrorView>(error@),
                }
            }),
    {
        let authority = AuthorityContext { actor, tenant_id };
        match authority.validate_current("authority") {
            Ok(()) => Ok(authority),
            Err(error) => Err(error),
        }
    }

    /// Creates an authority from identities that a trusted boundary decoded.
    pub fn from_parts(actor: ActorIdentity, tenant_id: Option<String>) -> (authority: Self)
        ensures
            authority@ == (AuthorityView { actor: actor@, tenant_id: optional_text(tenant_id) }),
    {
        AuthorityContext { actor, tenant_id }
    }

    /// Authority of the embedding process, outside any tenant.
    pub fn local_process() -> (authority: Self)
        ensures
            authority@ == (AuthorityView { actor: ActorView::LocalProcess, tenant_id: None }),
    {
        AuthorityContext { actor: ActorIdentity::LocalProcess, tenant_id: None }
    }

    /// Returns the trusted identity.
    pub fn actor(&self) -> (actor: &ActorIdentity)
        ensures
            actor@ == self@.actor,
    {
        &self.actor
    }

    /// Returns the tenant boundary, where there is one.
    pub fn tenant_id(&self) -> (tenant: Option<&str>)
        ensures
            match tenant {
                Some(tenant) => self@.tenant_id == Some(tenant@),
                None => self@.tenant_id is None,
            },
    {
        match &self.tenant_id {
            Some(tenant) => Some(tenant.as_str()),
            None => None,
        }
    }

    /// Checks both identities again at a use.
    pub fn validate_current(&self, label: &str) -> (result: Result<(), HarnessError>)
        ensures
            crate::error::settles(result, self@.check(label@)),
    {
        let valid = match &self.actor {
            ActorIdentity::LocalProcess => true,
            ActorIdentity::Authenticated { authority, subject } => label_text(authority.as_str(), MAX_ACTOR_FIELD_BYTES)
                && label_text(subject.as_str(), MAX_ACTOR_FIELD_BYTES),
        };
        if !valid {
            return Err(HarnessError::Approval(join2(label, " must use 1-256 non-control bytes")));
        }
        match &self.tenant_id {
            Some(tenant) => AuthorityContext::validate_tenant(tenant.as_str()),
            None => Ok(()),
        }
    }

    /// Checks that a text is a canonical tenant identity.
    pub fn validate_tenant(tenant: &str) -> (result: Result<(), HarnessError>)
        ensures
            result is Ok <==> tenant_is_valid(tenant@),
            result matches Err(error) ==> error@ == invalid_tenant(),
    {
        if portable_name(tenant, MAX_TENANT_BYTES) {
            Ok(())
        } else {
            Err(HarnessError::InvalidConfiguration("tenant identity must be 1-128 portable ASCII characters".to_owned()))
        }
    }
}

} // verus!
