//! Turn execution options and the outcome of bounded external waits.

use vstd::prelude::*;

use crate::error::{settles, ErrorView, ExecutionPhase, HarnessError};
use crate::items::ExecutionBinding;
use crate::kernel::{
    invalid_tenant, optional_text, tenant_is_valid, ActorIdentity, ActorView, AuthorityContext, AuthorityView,
};
use crate::runtime::route::invalid_configuration;
use crate::text::same_text;
use crate::time::{after_span, Duration, Moment};

verus! {

/// Boundary of long-term memory operations.
#[derive(Debug, PartialEq, Eq)]
pub struct MemoryScope {
    /// Tenant whose memory is used.
    pub tenant_id: Option<String>,
    /// User whose memory is used.
    pub user_id: Option<String>,
    /// Workspace whose memory is used.
    pub workspace_id: Option<String>,
}

fn copy_optional_text(text: &Option<String>) -> (copy: Option<String>)
    ensures
        copy == *text,
{
    match text {
        Some(text) => Some(text.clone()),
        None => None,
    }
}

impl Clone for MemoryScope {
    fn clone(&self) -> (result: Self)
        ensures
            result == *self,
    {
        MemoryScope {
            tenant_id: copy_optional_text(&self.tenant_id),
            user_id: copy_optional_text(&self.user_id),
            workspace_id: copy_optional_text(&self.workspace_id),
        }
    }
}

impl Default for MemoryScope {
    fn default() -> (scope: Self)
        ensures
            scope.tenant_id is None,
            scope.user_id is None,
            scope.workspace_id is None,
    {
        MemoryScope { tenant_id: None, user_id: None, workspace_id: None }
    }
}

/// Reference context that a caller supplies for one Turn.
#[derive(Debug, PartialEq, Eq)]
pub struct TurnContextInput {
    /// Source that supplies it.
    pub source: String,
    /// Reference inside the source.
    pub reference: String,
    /// Text itself.
    pub text: String,
}

impl Clone for TurnContextInput {
    fn clone(&self) -> (result: Self)
        ensures
            result == *self,
    {
        TurnContextInput {
            source: self.source.clone(),
            reference: self.reference.clone(),
            text: self.text.clone(),
        }
    }
}

/// Caller-controlled isolation and deadline for one Turn.
///
/// The cancellation signal and the sink for provisional output are handles of
/// the host and travel beside these options.
#[derive(Clone, Debug)]
pub struct TurnExecutionOptions {
    /// Trusted identity and optional tenant boundary for this Turn.
    pub authority: AuthorityContext,
    /// Scope applied to long-term memory operations.
    pub memory_scope: MemoryScope,
    /// Bounded non-authoritative reference context supplied for this Turn.
    pub context: Vec<TurnContextInput>,
    /// Optional immutable deployment and environment evidence.
    pub execution_binding: Option<ExecutionBinding>,
    /// Optional total deadline for external work.
    pub timeout: Option<Duration>,
}

impl Default for TurnExecutionOptions {
    fn default() -> (options: Self)
        ensures
            options.authority@ == (AuthorityView { actor: ActorView::LocalProcess, tenant_id: None }),
            options.memory_scope.tenant_id is None,
            options.memory_scope.user_id is None,
            options.memory_scope.workspace_id is None,
            options.context@.len() == 0,
            options.execution_binding is None,
            options.timeout is None,
    {
        TurnExecutionOptions {
            authority: AuthorityContext::local_process(),
            memory_scope: MemoryScope::default(),
            context: Vec::new(),
            execution_binding: None,
            timeout: None,
        }
    }
}

/// Binding under which a Turn runs: it has to be well formed and to belong to
/// the tenant of the authority.
pub open spec fn binding_for(authority: AuthorityView, binding: Option<ExecutionBinding>) -> Result<
    Option<ExecutionBinding>,
    ErrorView,
> {
    match binding {
        None => Ok(None),
        Some(binding) => match binding@.check() {
            Err(fault) => Err(fault),
            Ok(()) => if binding@.tenant_id != authority.tenant_id {
                Err(
                    ErrorView::InvalidConfiguration(
                        "execution binding tenant does not match the trusted Turn authority"@,
                    ),
                )
            } else {
                Ok(Some(binding))
            },
        },
    }
}

/// Tenant whose memory a Turn uses. The tenant of the authority always wins:
/// a different one cannot be selected, and an authenticated actor outside any
/// tenant can select none.
pub open spec fn memory_tenant(authority: AuthorityView, requested: Option<Seq<char>>) -> Result<
    Option<Seq<char>>,
    ErrorView,
> {
    if authority.check("Turn authority"@) is Err {
        Err(authority.check("Turn authority"@)->Err_0)
    } else if requested is Some && !tenant_is_valid(requested->0) {
        Err(invalid_tenant())
    } else {
        match (authority.tenant_id, requested) {
            (Some(own), Some(other)) => if own != other {
                Err(ErrorView::InvalidConfiguration("memory tenant does not match the trusted Turn authority"@))
            } else {
                Ok(Some(other))
            },
            (Some(own), None) => Ok(Some(own)),
            (None, Some(other)) => if authority.actor is Authenticated {
                Err(
                    ErrorView::InvalidConfiguration(
                        "an unscoped authenticated actor cannot select a memory tenant"@,
                    ),
                )
            } else {
                Ok(Some(other))
            },
            (None, None) => Ok(None),
        }
    }
}

impl TurnExecutionOptions {
    /// Checks the execution binding against the authority.
    pub fn validated_execution_binding(&self) -> (result: Result<Option<ExecutionBinding>, HarnessError>)
        ensures
            settles(result, binding_for(self.authority@, self.execution_binding)),
    {
        let binding = match &self.execution_binding {
            Some(binding) => binding,
            None => {
                return Ok(None);
            },
        };
        if let Err(error) = binding.validate() {
            return Err(error);
        }
        let same = match (binding.tenant_id(), self.authority.tenant_id()) {
            (Some(bound), Some(own)) => same_text(bound, own),
            (None, None) => true,
            _ => false,
        };
        if !same {
            return Err(
                invalid_configuration("execution binding tenant does not match the trusted Turn authority"),
            );
        }
        Ok(Some(binding.clone()))
    }

    /// Derives the memory scope from the authority.
    pub fn validated_memory_scope(&self) -> (result: Result<MemoryScope, HarnessError>)
        ensures
            match result {
                Ok(scope) => memory_tenant(self.authority@, optional_text(self.memory_scope.tenant_id)) == Ok::<
                    Option<Seq<char>>,
                    ErrorView,
                >(optional_text(scope.tenant_id)) && scope.user_id == self.memory_scope.user_id && scope.workspace_id
                    == self.memory_scope.workspace_id,
                Err(error) => memory_tenant(self.authority@, optional_text(self.memory_scope.tenant_id)) == Err::<
                    Option<Seq<char>>,
                    ErrorView,
                >(error@),
            },
    {
        if let Err(error) = self.authority.validate_current("Turn authority") {
            return Err(error);
        }
        if let Some(tenant) = &self.memory_scope.tenant_id {
            if let Err(error) = AuthorityContext::validate_tenant(tenant.as_str()) {
                return Err(error);
            }
        }
        let mut scope = self.memory_scope.clone();
        match (self.authority.tenant_id(), &self.memory_scope.tenant_id) {
            (Some(own), Some(requested)) => {
                if !same_text(own, requested.as_str()) {
                    return Err(invalid_configuration("memory tenant does not match the trusted Turn authority"));
                }
            },
            (Some(own), None) => {
                scope.tenant_id = Some(own.to_owned());
            },
            (None, Some(_)) => {
                if let ActorIdentity::Authenticated { .. } = self.authority.actor() {
                    return Err(
                        invalid_configuration("an unscoped authenticated actor cannot select a memory tenant"),
                    );
                }
            },
            (None, None) => {},
        }
        Ok(scope)
    }
}

/// No Turn of a tenant uses the memory of another tenant, and an authenticated
/// actor outside any tenant uses the memory of none.
pub proof fn law_memory_stays_inside_the_tenant(authority: AuthorityView, requested: Option<Seq<char>>)
    ensures
        memory_tenant(authority, requested) matches Ok(tenant) ==> {
            &&& authority.tenant_id is Some ==> tenant == authority.tenant_id
            &&& authority.tenant_id is None && authority.actor is Authenticated ==> tenant is None
        },
{
}

/// Point of time at which the external work of a Turn has to end.
pub open spec fn deadline_at(timeout: Option<Duration>, now: Moment) -> Result<Option<Moment>, ErrorView> {
    match timeout {
        None => Ok(None),
        Some(timeout) => match after_span(now, timeout) {
            Some(deadline) => Ok(Some(deadline)),
            None => Err(ErrorView::InvalidConfiguration("Turn timeout exceeds the runtime clock range"@)),
        },
    }
}

/// Finds the point of time at which the external work of a Turn has to end.
pub fn deadline(timeout: Option<Duration>, now: Moment) -> (result: Result<Option<Moment>, HarnessError>)
    ensures
        settles(result, deadline_at(timeout, now)),
{
    match timeout {
        None => Ok(None),
        Some(timeout) => match now.checked_add(timeout) {
            Some(deadline) => Ok(Some(deadline)),
            None => Err(invalid_configuration("Turn timeout exceeds the runtime clock range")),
        },
    }
}

/// What ended the first wait for an operation. Signals are looked at in the
/// order of these variants.
pub enum WaitEnd<T> {
    /// The cancellation signal.
    Cancelled,
    /// The deadline.
    Elapsed,
    /// The operation, which panicked.
    Panicked,
    /// The operation, which replied.
    Replied(Result<T, HarnessError>),
}

/// What follows the first wait for an operation.
pub enum ControlStep<T> {
    /// The operation is settled.
    Settled(Result<T, HarnessError>),
    /// The operation has to be told to stop, and may be waited for a little
    /// longer.
    Stop(StoppedOperation),
}

/// Operation that was stopped from outside.
pub struct StoppedOperation {
    phase: ExecutionPhase,
    timed_out: bool,
    grace: Duration,
}

impl StoppedOperation {
    /// Error that stopped the operation.
    pub closed spec fn stop_error(self) -> ErrorView {
        if self.timed_out {
            ErrorView::TimedOut(self.phase)
        } else {
            ErrorView::Cancelled(self.phase)
        }
    }

    /// Phase of the operation.
    pub closed spec fn phase(self) -> ExecutionPhase {
        self.phase
    }

    /// Time granted for clean-up.
    pub closed spec fn grace(self) -> Duration {
        self.grace
    }
}

/// Decides what follows the first wait for an operation of a phase.
pub fn controlled<T>(end: WaitEnd<T>, phase: ExecutionPhase, grace: Duration) -> (step: ControlStep<T>)
    ensures
        match end {
            WaitEnd::Cancelled => step matches ControlStep::Stop(stopped) && stopped.stop_error() == ErrorView::Cancelled(
                phase,
            ) && stopped.phase() == phase && stopped.grace() == grace,
            WaitEnd::Elapsed => step matches ControlStep::Stop(stopped) && stopped.stop_error() == ErrorView::TimedOut(
                phase,
            ) && stopped.phase() == phase && stopped.grace() == grace,
            WaitEnd::Panicked => step matches ControlStep::Settled(Err(error)) && error@ == ErrorView::CapabilityPanicked(
                phase,
            ),
            WaitEnd::Replied(result) => step == ControlStep::Settled(result),
        },
{
    match end {
        WaitEnd::Cancelled => ControlStep::Stop(StoppedOperation { phase, timed_out: false, grace }),
        WaitEnd::Elapsed => ControlStep::Stop(StoppedOperation { phase, timed_out: true, grace }),
        WaitEnd::Panicked => ControlStep::Settled(Err(HarnessError::CapabilityPanicked { phase })),
        WaitEnd::Replied(result) => ControlStep::Settled(result),
    }
}

/// How the clean-up of a stopped operation ended.
pub enum CleanUp<T> {
    /// It was not waited for, or did not end in time.
    Unfinished,
    /// The operation panicked.
    Panicked,
    /// The operation replied.
    Replied(Result<T, HarnessError>),
}

impl StoppedOperation {
    /// Returns the time granted for clean-up, where there is any.
    pub fn clean_up_time(&self) -> (grace: Option<Duration>)
        ensures
            grace == if self.grace().nanos() == 0 {
                None
            } else {
                Some(self.grace())
            },
    {
        if self.grace.is_zero() {
            None
        } else {
            Some(self.grace)
        }
    }

    fn stop(&self) -> (error: HarnessError)
        ensures
            error@ == self.stop_error(),
    {
        if self.timed_out {
            HarnessError::TimedOut { phase: self.phase }
        } else {
            HarnessError::Cancelled { phase: self.phase }
        }
    }

    /// Settles a stopped operation: with the stop, unless its clean-up failed
    /// for a reason of its own. A late success is never reported.
    pub fn settle<T>(self, clean_up: CleanUp<T>) -> (result: Result<T, HarnessError>)
        ensures
            result matches Err(error) && error@ == match clean_up {
                CleanUp::Unfinished => self.stop_error(),
                CleanUp::Panicked => ErrorView::CapabilityPanicked(self.phase()),
                CleanUp::Replied(Ok(_)) => self.stop_error(),
                CleanUp::Replied(Err(failure)) => if failure@.is_stop() {
                    self.stop_error()
                } else {
                    failure@
                },
            },
    {
        match clean_up {
            CleanUp::Unfinished => Err(self.stop()),
            CleanUp::Panicked => Err(HarnessError::CapabilityPanicked { phase: self.phase }),
            CleanUp::Replied(Ok(_)) => Err(self.stop()),
            CleanUp::Replied(Err(HarnessError::Cancelled { .. })) => Err(self.stop()),
            CleanUp::Replied(Err(HarnessError::TimedOut { .. })) => Err(self.stop()),
            CleanUp::Replied(Err(failure)) => Err(failure),
        }
    }
}

/// An operation that was stopped from outside never succeeds. It ends with the
/// stop, or with a failure of its own that is no stop.
pub proof fn law_stopped_operations_do_not_succeed<T>(
    end: WaitEnd<T>,
    phase: ExecutionPhase,
    grace: Duration,
    stopped: StoppedOperation,
    clean_up: CleanUp<T>,
    result: Result<T, HarnessError>,
)
    requires
        end is Cancelled || end is Elapsed,
        call_ensures(controlled::<T>, (end, phase, grace), ControlStep::Stop(stopped)),
        call_ensures(StoppedOperation::settle::<T>, (stopped, clean_up), result),
    ensures
        result is Err,
        result->Err_0@ == (match clean_up {
            CleanUp::Panicked => ErrorView::CapabilityPanicked(phase),
            CleanUp::Replied(Err(failure)) if !(failure@ is Cancelled) && !(failure@ is TimedOut) => failure@,
            _ => if end is Elapsed {
                ErrorView::TimedOut(phase)
            } else {
                ErrorView::Cancelled(phase)
            },
        }),
{
}

/// Whoever stops an operation is waited for, and whoever replies is taken at
/// their word: an operation is stopped exactly where a signal came first.
pub proof fn law_operations_are_stopped_by_signals<T>(
    end: WaitEnd<T>,
    phase: ExecutionPhase,
    grace: Duration,
    step: ControlStep<T>,
)
    requires
        call_ensures(controlled::<T>, (end, phase, grace), step),
    ensures
        step is Stop <==> end is Cancelled || end is Elapsed,
        end matches WaitEnd::Replied(result) ==> step == ControlStep::Settled(result),
        end is Panicked ==> (step matches ControlStep::Settled(Err(error)) && error@ == ErrorView::CapabilityPanicked(phase)),
{
}

} // verus!
