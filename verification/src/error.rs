//! Failures of the harness and the phases in which they arise.

use vstd::prelude::*;

use crate::text::{decimal, decimal_text, is_label, join2, join3, join4, label_text};

verus! {

/// Bounded external phase of one Turn.
#[derive(Clone, Copy, Debug, PartialEq, Eq, Structural)]
pub enum ExecutionPhase {
    /// Context work.
    Context,
    /// Model work.
    Model,
    /// Policy work.
    Policy,
    /// Approval work.
    Approval,
    /// Tool work.
    Tool,
    /// Verification work.
    Verification,
}

impl ExecutionPhase {
    /// Name of the phase in diagnostics.
    pub open spec fn label(self) -> Seq<char> {
        match self {
            ExecutionPhase::Context => "Context"@,
            ExecutionPhase::Model => "Model"@,
            ExecutionPhase::Policy => "Policy"@,
            ExecutionPhase::Approval => "Approval"@,
            ExecutionPhase::Tool => "Tool"@,
            ExecutionPhase::Verification => "Verification"@,
        }
    }

    /// Returns the name of the phase.
    pub fn as_str(&self) -> (name: &'static str)
        ensures
            name@ == self.label(),
    {
        match self {
            ExecutionPhase::Context => "Context",
            ExecutionPhase::Model => "Model",
            ExecutionPhase::Policy => "Policy",
            ExecutionPhase::Approval => "Approval",
            ExecutionPhase::Tool => "Tool",
            ExecutionPhase::Verification => "Verification",
        }
    }
}

/// Stable category of a typed Provider failure.
#[derive(Clone, Copy, Debug, PartialEq, Eq, Structural)]
pub enum ModelProviderFailureKind {
    /// The Provider refused the credentials.
    Authentication,
    /// The Provider refused the request itself.
    InvalidRequest,
    /// The Provider asked for a slower request rate.
    RateLimited,
    /// The Provider is temporarily out of capacity.
    Overloaded,
    /// The Provider failed internally.
    Server,
    /// The connection to the Provider failed.
    Transport,
    /// Any other Provider failure.
    Other,
}

/// Longest accepted Provider failure message, in bytes.
pub const MAX_PROVIDER_FAILURE_MESSAGE_BYTES: usize = 4_096;

/// Longest accepted Provider retry hint, in milliseconds.
pub const MAX_PROVIDER_RETRY_AFTER_MS: u64 = 86_400_000;

/// Typed Provider failure with bounded retry metadata.
#[derive(Debug, PartialEq, Eq)]
pub struct ModelProviderFailure {
    pub(crate) kind: ModelProviderFailureKind,
    pub(crate) message: String,
    pub(crate) http_status: Option<u16>,
    pub(crate) retry_after_ms: Option<u64>,
}

/// Mathematical content of a Provider failure.
#[verifier::ext_equal]
pub struct ProviderFailureView {
    /// Category of the failure.
    pub kind: ModelProviderFailureKind,
    /// Diagnostic message.
    pub message: Seq<char>,
    /// HTTP status, where the Provider gave one.
    pub http_status: Option<u16>,
    /// Retry hint, where the Provider gave one.
    pub retry_after_ms: Option<u64>,
}

impl View for ModelProviderFailure {
    type V = ProviderFailureView;

    closed spec fn view(&self) -> ProviderFailureView {
        ProviderFailureView {
            kind: self.kind,
            message: self.message@,
            http_status: self.http_status,
            retry_after_ms: self.retry_after_ms,
        }
    }
}

impl Clone for ModelProviderFailure {
    fn clone(&self) -> (result: Self)
        ensures
            result == *self,
    {
        ModelProviderFailure {
            kind: self.kind,
            message: self.message.clone(),
            http_status: self.http_status,
            retry_after_ms: self.retry_after_ms,
        }
    }
}

impl ProviderFailureView {
    /// Whether message, status and retry hint are inside their bounds.
    pub open spec fn is_bounded(self) -> bool {
        &&& is_label(self.message, MAX_PROVIDER_FAILURE_MESSAGE_BYTES as nat)
        &&& self.http_status matches Some(status) ==> 100 <= status <= 599
        &&& self.retry_after_ms matches Some(delay) ==> delay <= MAX_PROVIDER_RETRY_AFTER_MS
    }
}

impl ModelProviderFailure {
    /// Creates a failure after checking its bounds.
    pub fn new(
        kind: ModelProviderFailureKind,
        message: &str,
        http_status: Option<u16>,
        retry_after_ms: Option<u64>,
    ) -> (result: Result<Self, HarnessError>)
        ensures
            ({
                let wanted = (ProviderFailureView { kind, message: message@, http_status, retry_after_ms });
                match result {
                    Ok(failure) => failure@ == wanted && wanted.is_bounded(),
                    Err(error) => !wanted.is_bounded() && error@ == invalid_provider_failure(),
                }
            }),
    {
        let failure = ModelProviderFailure { kind, message: String::from_str(message), http_status, retry_after_ms };
        match failure.validate() {
            Ok(()) => Ok(failure),
            Err(error) => Err(error),
        }
    }

    /// Checks the bounds of a failure that was decoded rather than built.
    pub fn validate(&self) -> (result: Result<(), HarnessError>)
        ensures
            result is Ok <==> self@.is_bounded(),
            result matches Err(error) ==> error@ == invalid_provider_failure(),
    {
        let message_ok = label_text(self.message.as_str(), MAX_PROVIDER_FAILURE_MESSAGE_BYTES);
        let status_ok = match self.http_status {
            Some(status) => 100 <= status && status <= 599,
            None => true,
        };
        let delay_ok = match self.retry_after_ms {
            Some(delay) => delay <= MAX_PROVIDER_RETRY_AFTER_MS,
            None => true,
        };
        if message_ok && status_ok && delay_ok {
            Ok(())
        } else {
            Err(HarnessError::InvalidCapability("Provider failure metadata is outside its bounds".to_owned()))
        }
    }

    /// Returns the failure category.
    pub fn kind(&self) -> (kind: ModelProviderFailureKind)
        ensures
            kind == self@.kind,
    {
        self.kind
    }

    /// Returns the diagnostic message.
    pub fn message(&self) -> (message: &str)
        ensures
            message@ == self@.message,
    {
        self.message.as_str()
    }

    /// Returns the HTTP status, where one was given.
    pub fn http_status(&self) -> (status: Option<u16>)
        ensures
            status == self@.http_status,
    {
        self.http_status
    }

    /// Returns the retry hint, where one was given.
    pub fn retry_after_ms(&self) -> (delay: Option<u64>)
        ensures
            delay == self@.retry_after_ms,
    {
        self.retry_after_ms
    }
}

/// Error reported for Provider failure metadata outside its bounds.
pub open spec fn invalid_provider_failure() -> ErrorView {
    ErrorView::InvalidCapability("Provider failure metadata is outside its bounds"@)
}

/// Failure of a harness operation.
#[derive(Debug, PartialEq, Eq)]
pub enum HarnessError {
    /// A caller-supplied setting is outside its supported range.
    InvalidConfiguration(String),
    /// Durable or in-memory execution state refused an operation.
    State(String),
    /// A Model returned an unusable response or failed.
    Model(String),
    /// A Tool failed or returned an unusable result.
    Tool(String),
    /// A Skill package, source or registry refused an operation.
    Skill(String),
    /// A secret could not be referenced, bounded or resolved.
    Secret(String),
    /// A completion verifier failed.
    Verification(String),
    /// An approval identity or settlement is unusable.
    Approval(String),
    /// A Policy engine failed.
    Policy(String),
    /// A coordinated current-state operation failed.
    Orchestration(String),
    /// A remote capability connection failed.
    Mcp(String),
    /// A capability violates its contract.
    InvalidCapability(String),
    /// A capability name is already taken.
    DuplicateCapability(String),
    /// No Tool has this name.
    UnknownTool(String),
    /// No Model has this identity.
    UnknownModel(String),
    /// A Model failed with typed Provider metadata.
    ModelProvider(ModelProviderFailure),
    /// The Agent Loop used up its step budget.
    MaxSteps(usize),
    /// One Agent Loop step used up its Model-call budget.
    MaxModelAttempts(usize),
    /// Work was cancelled in a phase.
    Cancelled {
        /// Phase that was stopped.
        phase: ExecutionPhase,
    },
    /// A deadline passed in a phase.
    TimedOut {
        /// Phase that was stopped.
        phase: ExecutionPhase,
    },
    /// An embedded capability panicked.
    CapabilityPanicked {
        /// Phase in which the panic was caught.
        phase: ExecutionPhase,
    },
    /// Policy denied a Tool call.
    PolicyDenied {
        /// Name of the Tool.
        tool: String,
        /// Reason given by Policy.
        reason: String,
    },
    /// The approver denied a Tool call.
    ApprovalDenied {
        /// Name of the Tool.
        tool: String,
        /// Reason given by the approver.
        reason: String,
    },
    /// The Runtime admits no further concurrent Turn.
    RuntimeOverloaded {
        /// Configured concurrency limit.
        limit: usize,
    },
}

/// Mathematical content of a [`HarnessError`].
#[verifier::ext_equal]
pub enum ErrorView {
    /// See [`HarnessError::InvalidConfiguration`].
    InvalidConfiguration(Seq<char>),
    /// See [`HarnessError::State`].
    State(Seq<char>),
    /// See [`HarnessError::Model`].
    Model(Seq<char>),
    /// See [`HarnessError::Tool`].
    Tool(Seq<char>),
    /// See [`HarnessError::Skill`].
    Skill(Seq<char>),
    /// See [`HarnessError::Secret`].
    Secret(Seq<char>),
    /// See [`HarnessError::Verification`].
    Verification(Seq<char>),
    /// See [`HarnessError::Approval`].
    Approval(Seq<char>),
    /// See [`HarnessError::Policy`].
    Policy(Seq<char>),
    /// See [`HarnessError::Orchestration`].
    Orchestration(Seq<char>),
    /// See [`HarnessError::Mcp`].
    Mcp(Seq<char>),
    /// See [`HarnessError::InvalidCapability`].
    InvalidCapability(Seq<char>),
    /// See [`HarnessError::DuplicateCapability`].
    DuplicateCapability(Seq<char>),
    /// See [`HarnessError::UnknownTool`].
    UnknownTool(Seq<char>),
    /// See [`HarnessError::UnknownModel`].
    UnknownModel(Seq<char>),
    /// See [`HarnessError::ModelProvider`].
    ModelProvider(ProviderFailureView),
    /// See [`HarnessError::MaxSteps`].
    MaxSteps(nat),
    /// See [`HarnessError::MaxModelAttempts`].
    MaxModelAttempts(nat),
    /// See [`HarnessError::Cancelled`].
    Cancelled(ExecutionPhase),
    /// See [`HarnessError::TimedOut`].
    TimedOut(ExecutionPhase),
    /// See [`HarnessError::CapabilityPanicked`].
    CapabilityPanicked(ExecutionPhase),
    /// See [`HarnessError::PolicyDenied`].
    PolicyDenied {
        /// Name of the Tool.
        tool: Seq<char>,
        /// Reason given by Policy.
        reason: Seq<char>,
    },
    /// See [`HarnessError::ApprovalDenied`].
    ApprovalDenied {
        /// Name of the Tool.
        tool: Seq<char>,
        /// Reason given by the approver.
        reason: Seq<char>,
    },
    /// See [`HarnessError::RuntimeOverloaded`].
    RuntimeOverloaded(nat),
}

impl View for HarnessError {
    type V = ErrorView;

    open spec fn view(&self) -> ErrorView {
        match self {
            HarnessError::InvalidConfiguration(message) => ErrorView::InvalidConfiguration(message@),
            HarnessError::State(message) => ErrorView::State(message@),
            HarnessError::Model(message) => ErrorView::Model(message@),
            HarnessError::Tool(message) => ErrorView::Tool(message@),
            HarnessError::Skill(message) => ErrorView::Skill(message@),
            HarnessError::Secret(message) => ErrorView::Secret(message@),
            HarnessError::Verification(message) => ErrorView::Verification(message@),
            HarnessError::Approval(message) => ErrorView::Approval(message@),
            HarnessError::Policy(message) => ErrorView::Policy(message@),
            HarnessError::Orchestration(message) => ErrorView::Orchestration(message@),
            HarnessError::Mcp(message) => ErrorView::Mcp(message@),
            HarnessError::InvalidCapability(message) => ErrorView::InvalidCapability(message@),
            HarnessError::DuplicateCapability(message) => ErrorView::DuplicateCapability(message@),
            HarnessError::UnknownTool(message) => ErrorView::UnknownTool(message@),
            HarnessError::UnknownModel(message) => ErrorView::UnknownModel(message@),
            HarnessError::ModelProvider(failure) => ErrorView::ModelProvider(failure@),
            HarnessError::MaxSteps(limit) => ErrorView::MaxSteps(*limit as nat),
            HarnessError::MaxModelAttempts(limit) => ErrorView::MaxModelAttempts(*limit as nat),
            HarnessError::Cancelled { phase } => ErrorView::Cancelled(*phase),
            HarnessError::TimedOut { phase } => ErrorView::TimedOut(*phase),
            HarnessError::CapabilityPanicked { phase } => ErrorView::CapabilityPanicked(*phase),
            HarnessError::PolicyDenied { tool, reason } => ErrorView::PolicyDenied { tool: tool@, reason: reason@ },
            HarnessError::ApprovalDenied { tool, reason } => ErrorView::ApprovalDenied { tool: tool@, reason: reason@ },
            HarnessError::RuntimeOverloaded { limit } => ErrorView::RuntimeOverloaded(*limit as nat),
        }
    }
}

impl ErrorView {
    /// Diagnostic text of an error.
    pub open spec fn text(self) -> Seq<char> {
        match self {
            ErrorView::InvalidConfiguration(message) => "invalid configuration: "@ + message,
            ErrorView::State(message) => "state error: "@ + message,
            ErrorView::Model(message) => "model error: "@ + message,
            ErrorView::Tool(message) => "tool error: "@ + message,
            ErrorView::Skill(message) => "skill error: "@ + message,
            ErrorView::Secret(message) => "secret error: "@ + message,
            ErrorView::Verification(message) => "verification error: "@ + message,
            ErrorView::Approval(message) => "approval error: "@ + message,
            ErrorView::Policy(message) => "policy error: "@ + message,
            ErrorView::Orchestration(message) => "orchestration error: "@ + message,
            ErrorView::Mcp(message) => "MCP error: "@ + message,
            ErrorView::InvalidCapability(message) => "invalid capability: "@ + message,
            ErrorView::DuplicateCapability(message) => "duplicate capability: "@ + message,
            ErrorView::UnknownTool(message) => "unknown tool: "@ + message,
            ErrorView::UnknownModel(message) => "unknown model: "@ + message,
            ErrorView::ModelProvider(failure) => "model provider error: "@ + failure.message,
            ErrorView::MaxSteps(limit) => "agent loop exceeded "@ + decimal(limit) + " steps"@,
            ErrorView::MaxModelAttempts(limit) => "model step exceeded "@ + decimal(limit) + " provider attempts"@,
            ErrorView::Cancelled(phase) => "execution cancelled during "@ + phase.label(),
            ErrorView::TimedOut(phase) => "execution timed out during "@ + phase.label(),
            ErrorView::CapabilityPanicked(phase) => "capability panicked during "@ + phase.label(),
            ErrorView::PolicyDenied { tool, reason } => "policy denied tool "@ + tool + ": "@ + reason,
            ErrorView::ApprovalDenied { tool, reason } => "approval denied tool "@ + tool + ": "@ + reason,
            ErrorView::RuntimeOverloaded(limit) => "runtime is limited to "@ + decimal(limit) + " concurrent turns"@,
        }
    }

    /// Whether the error reports an external stop rather than a failure.
    pub open spec fn is_stop(self) -> bool {
        self is Cancelled || self is TimedOut
    }
}

impl HarnessError {
    /// Returns the diagnostic text of the error.
    pub fn to_string(&self) -> (text: String)
        ensures
            text@ == self@.text(),
    {
        match self {
            HarnessError::InvalidConfiguration(message) => join2("invalid configuration: ", message.as_str()),
            HarnessError::State(message) => join2("state error: ", message.as_str()),
            HarnessError::Model(message) => join2("model error: ", message.as_str()),
            HarnessError::Tool(message) => join2("tool error: ", message.as_str()),
            HarnessError::Skill(message) => join2("skill error: ", message.as_str()),
            HarnessError::Secret(message) => join2("secret error: ", message.as_str()),
            HarnessError::Verification(message) => join2("verification error: ", message.as_str()),
            HarnessError::Approval(message) => join2("approval error: ", message.as_str()),
            HarnessError::Policy(message) => join2("policy error: ", message.as_str()),
            HarnessError::Orchestration(message) => join2("orchestration error: ", message.as_str()),
            HarnessError::Mcp(message) => join2("MCP error: ", message.as_str()),
            HarnessError::InvalidCapability(message) => join2("invalid capability: ", message.as_str()),
            HarnessError::DuplicateCapability(message) => join2("duplicate capability: ", message.as_str()),
            HarnessError::UnknownTool(message) => join2("unknown tool: ", message.as_str()),
            HarnessError::UnknownModel(message) => join2("unknown model: ", message.as_str()),
            HarnessError::ModelProvider(failure) => join2("model provider error: ", failure.message()),
            HarnessError::MaxSteps(limit) => join3("agent loop exceeded ", decimal_text(*limit as u64).as_str(), " steps"),
            HarnessError::MaxModelAttempts(limit) => join3("model step exceeded ", decimal_text(*limit as u64).as_str(), " provider attempts"),
            HarnessError::Cancelled { phase } => join2("execution cancelled during ", phase.as_str()),
            HarnessError::TimedOut { phase } => join2("execution timed out during ", phase.as_str()),
            HarnessError::CapabilityPanicked { phase } => join2("capability panicked during ", phase.as_str()),
            HarnessError::PolicyDenied { tool, reason } => join4("policy denied tool ", tool.as_str(), ": ", reason.as_str()),
            HarnessError::ApprovalDenied { tool, reason } => join4("approval denied tool ", tool.as_str(), ": ", reason.as_str()),
            HarnessError::RuntimeOverloaded { limit } => join3("runtime is limited to ", decimal_text(*limit as u64).as_str(), " concurrent turns"),
        }
    }
}

impl Clone for HarnessError {
    fn clone(&self) -> (result: Self)
        ensures
            result == *self,
    {
        match self {
            HarnessError::InvalidConfiguration(message) => HarnessError::InvalidConfiguration(message.clone()),
            HarnessError::State(message) => HarnessError::State(message.clone()),
            HarnessError::Model(message) => HarnessError::Model(message.clone()),
            HarnessError::Tool(message) => HarnessError::Tool(message.clone()),
            HarnessError::Skill(message) => HarnessError::Skill(message.clone()),
            HarnessError::Secret(message) => HarnessError::Secret(message.clone()),
            HarnessError::Verification(message) => HarnessError::Verification(message.clone()),
            HarnessError::Approval(message) => HarnessError::Approval(message.clone()),
            HarnessError::Policy(message) => HarnessError::Policy(message.clone()),
            HarnessError::Orchestration(message) => HarnessError::Orchestration(message.clone()),
            HarnessError::Mcp(message) => HarnessError::Mcp(message.clone()),
            HarnessError::InvalidCapability(message) => HarnessError::InvalidCapability(message.clone()),
            HarnessError::DuplicateCapability(message) => HarnessError::DuplicateCapability(message.clone()),
            HarnessError::UnknownTool(message) => HarnessError::UnknownTool(message.clone()),
            HarnessError::UnknownModel(message) => HarnessError::UnknownModel(message.clone()),
            HarnessError::ModelProvider(failure) => HarnessError::ModelProvider(failure.clone()),
            HarnessError::MaxSteps(limit) => HarnessError::MaxSteps(*limit),
            HarnessError::MaxModelAttempts(limit) => HarnessError::MaxModelAttempts(*limit),
            HarnessError::Cancelled { phase } => HarnessError::Cancelled { phase: *phase },
            HarnessError::TimedOut { phase } => HarnessError::TimedOut { phase: *phase },
            HarnessError::CapabilityPanicked { phase } => HarnessError::CapabilityPanicked { phase: *phase },
            HarnessError::PolicyDenied { tool, reason } => HarnessError::PolicyDenied { tool: tool.clone(), reason: reason.clone() },
            HarnessError::ApprovalDenied { tool, reason } => HarnessError::ApprovalDenied { tool: tool.clone(), reason: reason.clone() },
            HarnessError::RuntimeOverloaded { limit } => HarnessError::RuntimeOverloaded { limit: *limit },
        }
    }
}

/// Whether an operation settled as expected: the same value, or an error with
/// the expected content.
pub open spec fn settles<T>(result: Result<T, HarnessError>, expected: Result<T, ErrorView>) -> bool {
    match (result, expected) {
        (Ok(value), Ok(wanted)) => value == wanted,
        (Err(error), Err(wanted)) => error@ == wanted,
        _ => false,
    }
}

} // verus!
