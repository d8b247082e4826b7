//! Model attempts of one Agent Loop step: failover, retries and budget.

use vstd::prelude::*;

use crate::capability::{ModelOutput, ModelRequest, ModelResponse};
use crate::error::{ErrorView, ExecutionPhase, HarnessError};
use crate::items::{Item, ItemKind, ModelContinuation};
use crate::kernel::CapabilityOrigin;
use crate::runtime::continuation::{
    continuation_target, is_visible_to, law_models_see_all_but_foreign_state, pending_provider_continuation_target,
    retain_model_continuations, ProviderContinuationTarget,
};
use crate::runtime::route::{
    attempt_deadline_at, cooldown_partition, cooldowns_after_partition, delay_before_retry, entry_cools, is_model,
    FrozenModelIdentity, ModelRoute, RuntimeModel,
};
use crate::runtime::validate::{
    attempt_error, encoding_view, request_check, response_check, validate_model_attempt_error, validate_model_request,
    validate_model_response,
};
use crate::text::join3;
use crate::time::{after_span, Duration, Moment};

verus! {

/// Whether an outside signal ended a Model attempt.
#[derive(Clone, Copy, Debug, PartialEq, Eq, Structural)]
pub enum ModelAttemptControl {
    /// None did.
    NoSignal,
    /// Cancellation did.
    Cancelled,
    /// A deadline did.
    DeadlineElapsed,
}

/// Settled Model attempt.
pub struct ModelAttemptSettlement {
    /// Response or failure, after all bounds were checked.
    pub result: Result<ModelResponse, HarnessError>,
    /// Outside signal, where there was one.
    pub control: ModelAttemptControl,
}

/// How the wait for a Model call ended: an outside stop, or the reply of the
/// Model.
pub enum ModelCallOutcome {
    /// The wait ended before the Model replied.
    Stopped(HarnessError),
    /// The Model replied.
    Replied(Result<ModelResponse, HarnessError>),
}

/// Outside signal that an error reports.
pub open spec fn control_of(error: ErrorView) -> ModelAttemptControl {
    match error {
        ErrorView::Cancelled(_) => ModelAttemptControl::Cancelled,
        ErrorView::TimedOut(_) => ModelAttemptControl::DeadlineElapsed,
        _ => ModelAttemptControl::NoSignal,
    }
}

/// Whether a settlement is that of an outcome: only a stop of the wait itself
/// counts as outside signal, and a response is accepted only inside its
/// bounds.
pub open spec fn settles_attempt(outcome: ModelCallOutcome, settlement: ModelAttemptSettlement) -> bool {
    match outcome {
        ModelCallOutcome::Stopped(error) => settlement.control == control_of(error@) && (
        settlement.result matches Err(reported) && reported@ == attempt_error(error@)),
        ModelCallOutcome::Replied(Err(error)) => settlement.control is NoSignal && (settlement.result matches Err(reported)
            && reported@ == attempt_error(error@)),
        ModelCallOutcome::Replied(Ok(response)) => settlement.control is NoSignal && match settlement.result {
            Ok(accepted) => response_check(response) is Ok && accepted == response,
            Err(reported) => response_check(response) == Err::<(), ErrorView>(reported@),
        },
    }
}

/// Settles a Model attempt. Only a stop of the wait itself counts as outside
/// signal; a response is accepted only inside its bounds.
pub fn settle_model_attempt(outcome: ModelCallOutcome) -> (settlement: ModelAttemptSettlement)
    ensures
        settles_attempt(outcome, settlement),
{
    match outcome {
        ModelCallOutcome::Stopped(error) => {
            let control = match &error {
                HarnessError::Cancelled { .. } => ModelAttemptControl::Cancelled,
                HarnessError::TimedOut { .. } => ModelAttemptControl::DeadlineElapsed,
                _ => ModelAttemptControl::NoSignal,
            };
            ModelAttemptSettlement { result: Err(validate_model_attempt_error(error)), control }
        },
        ModelCallOutcome::Replied(Err(error)) => ModelAttemptSettlement {
            result: Err(validate_model_attempt_error(error)),
            control: ModelAttemptControl::NoSignal,
        },
        ModelCallOutcome::Replied(Ok(response)) => {
            let result = match validate_model_response(&response) {
                Ok(()) => Ok(response),
                Err(error) => Err(error),
            };
            ModelAttemptSettlement { result, control: ModelAttemptControl::NoSignal }
        },
    }
}

/// Decision of a Model together with the Model that made it.
pub struct SettledModelOutput {
    /// Identity of the Model.
    pub model_id: String,
    /// Provenance of the Model.
    pub model_origin: CapabilityOrigin,
    /// Decision.
    pub output: ModelOutput,
    /// Provider state to hand back.
    pub continuation: Option<ModelContinuation>,
}

/// What stays the same while one Agent Loop step tries its candidates.
pub struct RouteRun {
    candidates: Vec<usize>,
    non_cooling: usize,
    index: usize,
    attempts: usize,
    max_attempts: usize,
    turn_deadline: Option<Moment>,
}

impl RouteRun {
    /// Route entries in the order in which they are tried.
    pub closed spec fn candidates(self) -> Seq<usize> {
        self.candidates@
    }

    /// Number of candidates that are not deprioritized.
    pub closed spec fn non_cooling(self) -> nat {
        self.non_cooling as nat
    }

    /// Position of the candidate that is tried.
    pub closed spec fn index(self) -> nat {
        self.index as nat
    }

    /// Model calls made so far in this step.
    pub closed spec fn attempts(self) -> nat {
        self.attempts as nat
    }

    /// Model calls that this step may make.
    pub closed spec fn max_attempts(self) -> nat {
        self.max_attempts as nat
    }

    /// Deadline of the Turn.
    pub closed spec fn turn_deadline(self) -> Option<Moment> {
        self.turn_deadline
    }

    #[verifier::type_invariant]
    spec fn within_budget(self) -> bool {
        &&& self.attempts <= self.max_attempts
        &&& self.index <= self.candidates@.len()
    }

    /// Whether two states belong to the same step.
    pub open spec fn same_step(self, other: Self) -> bool {
        &&& self.candidates() == other.candidates()
        &&& self.non_cooling() == other.non_cooling()
        &&& self.max_attempts() == other.max_attempts()
        &&& self.turn_deadline() == other.turn_deadline()
    }
}

/// Model call that has to be made.
pub struct Attempt {
    run: RouteRun,
    retry_index: u8,
    deadline: Option<Moment>,
    deadline_is_attempt: bool,
}

/// Wait before the same Model is called again.
pub struct RetryWait {
    run: RouteRun,
    next_retry: u8,
    deadline: Option<Moment>,
    deadline_is_attempt: bool,
    delay: Duration,
    error: HarnessError,
}

impl Attempt {
    /// Step that the call belongs to.
    pub closed spec fn run(self) -> RouteRun {
        self.run
    }

    /// Number of earlier calls to the same candidate.
    pub closed spec fn retry_index(self) -> u8 {
        self.retry_index
    }

    /// Deadline of the candidate, and whether it is the candidate's own.
    pub closed spec fn deadline(self) -> (Option<Moment>, bool) {
        (self.deadline, self.deadline_is_attempt)
    }
}

impl RetryWait {
    /// Step that the wait belongs to.
    pub closed spec fn run(self) -> RouteRun {
        self.run
    }

    /// Number of the call that follows the wait.
    pub closed spec fn next_retry(self) -> u8 {
        self.next_retry
    }

    /// Deadline of the candidate, and whether it is the candidate's own.
    pub closed spec fn deadline(self) -> (Option<Moment>, bool) {
        (self.deadline, self.deadline_is_attempt)
    }

    /// Length of the wait.
    pub closed spec fn delay(self) -> Duration {
        self.delay
    }

    /// Failure that led to the wait.
    pub closed spec fn error(self) -> HarnessError {
        self.error
    }
}

/// Progress of one Agent Loop step.
pub enum RouteStep {
    /// A Model has to be called.
    Call(Attempt),
    /// A retry has to be waited for.
    Wait(RetryWait),
    /// The step is settled, with the candidates that were not needed.
    Settled(Result<SettledModelOutput, HarnessError>, Vec<usize>),
}

/// Whether an index may serve a request: any Model, or the one that a pending
/// chain is pinned to.
pub open spec fn may_serve(entries: Seq<RuntimeModel>, target: Option<ProviderContinuationTarget>, index: usize) -> bool {
    match target {
        None => true,
        Some(target) => is_model(entries[index as int], target.model_id@, target.model_origin@),
    }
}

/// Indices below `n` that may serve a request, in route order.
pub open spec fn serving(entries: Seq<RuntimeModel>, target: Option<ProviderContinuationTarget>, n: nat) -> Seq<usize> {
    Seq::new(n, |i: int| i as usize).filter(|index: usize| may_serve(entries, target, index))
}

/// Candidates of a request in the order in which they are tried, and the
/// number of those that are not deprioritized. A pinned chain ignores
/// cooldowns.
pub open spec fn route_candidates(route: ModelRoute, items: Seq<Item>, now: Moment) -> Result<(Seq<usize>, nat), ErrorView> {
    match continuation_target(items) {
        Err(fault) => Err(fault),
        Ok(target) => {
            let candidates = serving(route.entries@, target, route.entries@.len());
            match target {
                Some(target) => if candidates.len() == 0 {
                    Err(
                        ErrorView::State(
                            "provider continuation requires unavailable Model "@ + target.model_id@
                                + " from its recorded origin"@,
                        ),
                    )
                } else {
                    Ok((candidates, candidates.len()))
                },
                None => match cooldown_partition(
                    route.entries@,
                    route.timeout_cooldown,
                    route.timeout_cooldowns@,
                    now,
                    candidates,
                ) {
                    Err(fault) => Err(fault),
                    Ok((available, cooling)) => Ok((available + cooling, available.len())),
                },
            }
        },
    }
}

/// Cooldowns of a route after a step was begun on it: those that have expired
/// are dropped where cooldowns are consulted.
pub open spec fn cooldowns_after_start(route: ModelRoute, items: Seq<Item>, now: Moment) -> Map<Seq<char>, Moment> {
    if continuation_target(items) == Ok::<Option<ProviderContinuationTarget>, ErrorView>(None) {
        cooldowns_after_partition(
            route.timeout_cooldown,
            route.timeout_cooldowns@,
            now,
            serving(route.entries@, None, route.entries@.len()),
        )
    } else {
        route.timeout_cooldowns@
    }
}

/// Deadline of a candidate that is begun now, or why it cannot be begun.
pub open spec fn candidate_start(route: ModelRoute, index: usize, turn_deadline: Option<Moment>, now: Moment) -> Result<
    (Option<Moment>, bool),
    ErrorView,
> {
    match route.entries@[index as int].identity.identity() {
        Err(fault) => Err(fault),
        Ok(_) => attempt_deadline_at(route.attempt_timeout, turn_deadline, now),
    }
}

/// Error of a step that has used up its calls.
pub open spec fn budget_spent(run: RouteRun) -> ErrorView {
    ErrorView::MaxModelAttempts(run.max_attempts())
}

/// Whether a step settled with this error and skipped nothing.
pub open spec fn fails_with(step: RouteStep, error: ErrorView) -> bool {
    step matches RouteStep::Settled(Err(reported), skipped) && reported@ == error && skipped@.len() == 0
}

/// Calling the candidate of a run, where the budget allows it.
pub open spec fn calls_again(
    run: RouteRun,
    retry_index: u8,
    deadline: (Option<Moment>, bool),
    step: RouteStep,
) -> bool {
    if run.attempts() == run.max_attempts() {
        fails_with(step, budget_spent(run))
    } else {
        step matches RouteStep::Call(attempt) && attempt.run().same_step(run) && attempt.run().index() == run.index()
            && attempt.run().attempts() == run.attempts() + 1 && attempt.retry_index() == retry_index && attempt.deadline()
            == deadline
    }
}

/// Whether a run has a candidate at this position, and the route an entry for
/// it.
pub open spec fn stands_in(run: RouteRun, index: nat, route: ModelRoute) -> bool {
    index < run.candidates().len() && run.candidates()[index as int] < route.entries@.len()
}

/// Error of a route that has no entry for a candidate.
pub open spec fn lost_route() -> ErrorView {
    ErrorView::InvalidConfiguration("Model route must contain at least one Model"@)
}

fn lost_route_error() -> (error: HarnessError)
    ensures
        error@ == lost_route(),
{
    HarnessError::InvalidConfiguration("Model route must contain at least one Model".to_owned())
}

/// Beginning the candidate at position `index` of a run, where there is one.
pub open spec fn begins(run: RouteRun, index: nat, route: ModelRoute, now: Moment, step: RouteStep) -> bool {
    if !stands_in(run, index, route) {
        fails_with(step, lost_route())
    } else {
        match candidate_start(route, run.candidates()[index as int], run.turn_deadline(), now) {
            Err(fault) => fails_with(step, fault),
            Ok(deadline) => if run.attempts() == run.max_attempts() {
                fails_with(step, budget_spent(run))
            } else {
                step matches RouteStep::Call(attempt) && attempt.run().same_step(run) && attempt.run().index() == index
                    && attempt.run().attempts() == run.attempts() + 1 && attempt.retry_index() == 0 && attempt.deadline()
                    == deadline
            },
        }
    }
}

/// Whether every candidate of a run is an entry of a route.
pub open spec fn fits(run: RouteRun, route: ModelRoute) -> bool {
    forall|k: int| 0 <= k < run.candidates().len() ==> #[trigger] run.candidates()[k] < route.entries@.len()
}

fn nothing_skipped() -> (skipped: Vec<usize>)
    ensures
        skipped@.len() == 0,
{
    Vec::new()
}

fn failed(error: HarnessError) -> (step: RouteStep)
    ensures
        fails_with(step, error@),
{
    RouteStep::Settled(Err(error), nothing_skipped())
}

fn call_again(run: RouteRun, retry_index: u8, deadline: Option<Moment>, deadline_is_attempt: bool) -> (step: RouteStep)
    ensures
        calls_again(run, retry_index, (deadline, deadline_is_attempt), step),
{
    proof {
        use_type_invariant(&run);
    }
    if run.attempts == run.max_attempts {
        return failed(HarnessError::MaxModelAttempts(run.max_attempts));
    }
    let RouteRun { candidates, non_cooling, index, attempts, max_attempts, turn_deadline } = run;
    RouteStep::Call(
        Attempt {
            run: RouteRun { candidates, non_cooling, index, attempts: attempts + 1, max_attempts, turn_deadline },
            retry_index,
            deadline,
            deadline_is_attempt,
        },
    )
}

fn begin(run: RouteRun, index: usize, route: &ModelRoute, now: Moment) -> (step: RouteStep)
    ensures
        begins(run, index as nat, *route, now, step),
{
    if index >= run.candidates.len() {
        return failed(lost_route_error());
    }
    let entry: usize = run.candidates[index];
    if entry >= route.entries.len() {
        return failed(lost_route_error());
    }
    if let Err(error) = route.entries[entry].identity.get() {
        return failed(error);
    }
    let (deadline, deadline_is_attempt) = match route.attempt_deadline(run.turn_deadline, now) {
        Ok(deadline) => deadline,
        Err(error) => {
            return failed(error);
        },
    };
    proof {
        use_type_invariant(&run);
    }
    if run.attempts == run.max_attempts {
        return failed(HarnessError::MaxModelAttempts(run.max_attempts));
    }
    let RouteRun { candidates, non_cooling, index: _, attempts, max_attempts, turn_deadline } = run;
    RouteStep::Call(
        Attempt {
            run: RouteRun { candidates, non_cooling, index, attempts: attempts + 1, max_attempts, turn_deadline },
            retry_index: 0,
            deadline,
            deadline_is_attempt,
        },
    )
}

proof fn lemma_serving_push(entries: Seq<RuntimeModel>, target: Option<ProviderContinuationTarget>, n: nat)
    ensures
        serving(entries, target, n + 1) == if may_serve(entries, target, n as usize) {
            serving(entries, target, n).push(n as usize)
        } else {
            serving(entries, target, n)
        },
{
    reveal(Seq::filter);
    let longer = Seq::new(n + 1, |i: int| i as usize);
    assert(longer.drop_last() =~= Seq::new(n, |i: int| i as usize));
}

fn select(route: &ModelRoute, target: &Option<ProviderContinuationTarget>) -> (candidates: Vec<usize>)
    ensures
        candidates@ == serving(route.entries@, *target, route.entries@.len()),
        forall|k: int| 0 <= k < candidates@.len() ==> #[trigger] candidates@[k] < route.entries@.len(),
{
    let mut candidates: Vec<usize> = Vec::new();
    let mut n: usize = 0;
    proof {
        reveal(Seq::filter);
        assert(Seq::new(0, |i: int| i as usize) =~= Seq::<usize>::empty());
        assert(serving(route.entries@, *target, 0) =~= Seq::<usize>::empty());
    }
    while n < route.entries.len()
        invariant
            n <= route.entries@.len(),
            candidates@ == serving(route.entries@, *target, n as nat),
            forall|k: int| 0 <= k < candidates@.len() ==> #[trigger] candidates@[k] < n,
        decreases route.entries@.len() - n,
    {
        proof {
            lemma_serving_push(route.entries@, *target, n as nat);
        }
        let serves = match target {
            None => true,
            Some(target) => route.entries[n].is(target.model_id.as_str(), &target.model_origin),
        };
        if serves {
            candidates.push(n);
        }
        n += 1;
    }
    candidates
}

proof fn lemma_filter_members(s: Seq<usize>, keep: spec_fn(usize) -> bool, bound: int)
    requires
        forall|k: int| 0 <= k < s.len() ==> #[trigger] s[k] < bound,
    ensures
        forall|k: int| 0 <= k < s.filter(keep).len() ==> #[trigger] s.filter(keep)[k] < bound,
    decreases s.len(),
{
    reveal(Seq::filter);
    if s.len() > 0 {
        let shorter = s.drop_last();
        assert forall|k: int| 0 <= k < shorter.len() implies #[trigger] shorter[k] < bound by {
            assert(s[k] < bound);
        }
        lemma_filter_members(shorter, keep, bound);
        assert(s[s.len() - 1] < bound);
        assert forall|k: int| 0 <= k < s.filter(keep).len() implies #[trigger] s.filter(keep)[k] < bound by {
            if k < shorter.filter(keep).len() {
                assert(shorter.filter(keep)[k] < bound);
            }
        }
    }
}

/// How one Agent Loop step begins.
pub open spec fn step_begins(
    before: ModelRoute,
    request: ModelRequest,
    encoding: Option<Seq<char>>,
    max_attempts: usize,
    turn_deadline: Option<Moment>,
    now: Moment,
    after: ModelRoute,
    step: RouteStep,
) -> bool {
    if request_check(request, encoding) is Err {
        &&& fails_with(step, request_check(request, encoding)->Err_0)
        &&& after.timeout_cooldowns == before.timeout_cooldowns
    } else {
        &&& after.timeout_cooldowns@ == cooldowns_after_start(before, request.items@, now)
        &&& match route_candidates(before, request.items@, now) {
            Err(fault) => fails_with(step, fault),
            Ok((candidates, non_cooling)) => exists|run: RouteRun| #[trigger]
                begins(run, 0, after, now, step) && run.candidates() == candidates && run.non_cooling() == non_cooling
                    && run.attempts() == 0 && run.max_attempts() == max_attempts && run.turn_deadline() == turn_deadline
                    && fits(run, after),
        }
    }
}

/// Begins one Agent Loop step: checks the request and calls its first
/// candidate.
pub fn complete_model_routed(
    route: &mut ModelRoute,
    request: &ModelRequest,
    encoding: Option<&str>,
    max_attempts: usize,
    turn_deadline: Option<Moment>,
    now: Moment,
) -> (step: RouteStep)
    ensures
        same_route(*old(route), *final(route)),
        step_begins(
            *old(route),
            *request,
            encoding_view(encoding),
            max_attempts,
            turn_deadline,
            now,
            *final(route),
            step,
        ),
{
    if let Err(error) = validate_model_request(request, encoding) {
        return failed(error);
    }
    let target = match pending_provider_continuation_target(&request.items) {
        Ok(target) => target,
        Err(error) => {
            return failed(error);
        },
    };
    let candidates = select(route, &target);
    let ghost selected = candidates@;
    let (candidates, non_cooling): (Vec<usize>, usize) = match &target {
        Some(target) => {
            if candidates.len() == 0 {
                return failed(
                    HarnessError::State(
                        join3(
                            "provider continuation requires unavailable Model ",
                            target.model_id.as_str(),
                            " from its recorded origin",
                        ),
                    ),
                );
            }
            let count: usize = candidates.len();
            (candidates, count)
        },
        None => match route.partition_timeout_cooldown(candidates, now) {
            Ok((available, cooling)) => {
                let count: usize = available.len();
                let mut all = available;
                let mut last = cooling;
                all.append(&mut last);
                proof {
                    let warm = |index: usize| !entry_cools(route.entries@, old(route).timeout_cooldowns@, now, index);
                    let cool = |index: usize| entry_cools(route.entries@, old(route).timeout_cooldowns@, now, index);
                    lemma_filter_members(selected, warm, route.entries@.len() as int);
                    lemma_filter_members(selected, cool, route.entries@.len() as int);
                }
                (all, count)
            },
            Err(error) => {
                return failed(error);
            },
        },
    };
    let run = RouteRun { candidates, non_cooling, index: 0, attempts: 0, max_attempts, turn_deadline };
    let ghost started = run;
    let step = begin(run, 0, route, now);
    assert(begins(started, 0, *route, now, step));
    step
}

/// Whether a result is that of an attempt of this Model.
pub open spec fn settled_as(
    settled: Result<SettledModelOutput, HarnessError>,
    result: Result<ModelResponse, HarnessError>,
    model_id: Seq<char>,
    origin: CapabilityOrigin,
) -> bool {
    match (settled, result) {
        (Ok(settled), Ok(response)) => settled.model_id@ == model_id && settled.model_origin == origin && settled.output
            == response.output && settled.continuation == response.continuation,
        (Err(reported), Err(error)) => reported == error,
        _ => false,
    }
}

/// What follows the failure of an attempt: provisional output that was
/// delivered rules out both failover and retry; otherwise the same Model is
/// retried while its policy grants a delay, and then the next one is tried.
pub open spec fn failure_step(
    attempt: Attempt,
    route: ModelRoute,
    error: ErrorView,
    delivered: u64,
    thread_id: Seq<char>,
    turn_id: Seq<char>,
    model_id: Seq<char>,
    now: Moment,
    step: RouteStep,
) -> bool {
    let run = attempt.run();
    let last = run.index() + 1 == run.candidates().len();
    let next_retry = attempt.retry_index().saturating_add(1);
    let delay = delay_before_retry(route.retry_policy, error, next_retry, thread_id, turn_id, model_id);
    if !last && delivered > 0 {
        fails_with(
            step,
            ErrorView::Model(
                "Model "@ + model_id + " failed after delivering provisional output; failover was suppressed"@,
            ),
        )
    } else if delivered == 0 && delay is Some {
        step matches RouteStep::Wait(wait) && wait.run() == run && wait.next_retry() == next_retry && wait.deadline()
            == attempt.deadline() && wait.delay().nanos() == delay->0 && wait.error()@ == error
    } else if last {
        fails_with(step, error)
    } else {
        begins(run, run.index() + 1, route, now, step)
    }
}

/// Error of an attempt that ran into its own deadline.
pub open spec fn attempt_timeout_error(model_id: Seq<char>) -> ErrorView {
    ErrorView::Model("Model "@ + model_id + " exceeded the configured failover attempt timeout"@)
}

/// Whether two routes differ at most in their cooldowns.
pub open spec fn same_route(a: ModelRoute, b: ModelRoute) -> bool {
    &&& a.entries == b.entries
    &&& a.attempt_timeout == b.attempt_timeout
    &&& a.retry_policy == b.retry_policy
    &&& a.timeout_cooldown == b.timeout_cooldown
}

/// Cooldowns of a route after an attempt of this Model timed out.
pub open spec fn cooldowns_after_timeout(route: ModelRoute, model_id: Seq<char>, now: Moment) -> Result<
    Map<Seq<char>, Moment>,
    ErrorView,
> {
    match route.timeout_cooldown {
        None => Ok(route.timeout_cooldowns@),
        Some(cooldown) => match after_span(now, cooldown) {
            Some(until) => Ok(route.timeout_cooldowns@.insert(model_id, until)),
            None => Err(ErrorView::InvalidConfiguration("Model timeout cooldown exceeds the runtime clock range"@)),
        },
    }
}

/// Whether an outside signal ends the whole step: cancellation, or a deadline
/// that is not the candidate's own.
pub open spec fn ends_step(control: ModelAttemptControl, deadline_is_attempt: bool) -> bool {
    control is Cancelled || (control is DeadlineElapsed && !deadline_is_attempt)
}

/// Effect of a settled attempt on the step and on the route.
pub open spec fn attempt_reply(
    attempt: Attempt,
    before: ModelRoute,
    settlement: ModelAttemptSettlement,
    delivered: u64,
    thread_id: Seq<char>,
    turn_id: Seq<char>,
    now: Moment,
    after: ModelRoute,
    step: RouteStep,
) -> bool {
    let run = attempt.run();
    let entry = before.entries@[run.candidates()[run.index() as int] as int];
    &&& same_route(before, after)
    &&& if !stands_in(run, run.index(), before) {
        fails_with(step, lost_route()) && after == before
    } else {
        attempt_settles(attempt, entry, before, settlement, delivered, thread_id, turn_id, now, after, step)
    }
}

/// Effect of a settled attempt of a route entry.
pub open spec fn attempt_settles(
    attempt: Attempt,
    entry: RuntimeModel,
    before: ModelRoute,
    settlement: ModelAttemptSettlement,
    delivered: u64,
    thread_id: Seq<char>,
    turn_id: Seq<char>,
    now: Moment,
    after: ModelRoute,
    step: RouteStep,
) -> bool {
    let run = attempt.run();
    match entry.identity.identity() {
        Err(fault) => fails_with(step, fault) && after == before,
        Ok(model_id) => if ends_step(settlement.control, attempt.deadline().1) {
            &&& after == before
            &&& step matches RouteStep::Settled(settled, skipped) && skipped@.len() == 0 && settled_as(
                settled,
                settlement.result,
                model_id,
                entry.origin,
            )
        } else if settlement.control is DeadlineElapsed {
            match cooldowns_after_timeout(before, model_id, now) {
                Err(fault) => fails_with(step, fault) && after == before,
                Ok(cooldowns) => after.timeout_cooldowns@ == cooldowns && failure_step(
                    attempt,
                    after,
                    attempt_timeout_error(model_id),
                    delivered,
                    thread_id,
                    turn_id,
                    model_id,
                    now,
                    step,
                ),
            }
        } else {
            match settlement.result {
                Ok(_) => {
                    &&& after.timeout_cooldowns@ == if before.timeout_cooldown is Some {
                        before.timeout_cooldowns@.remove(model_id)
                    } else {
                        before.timeout_cooldowns@
                    }
                    &&& step matches RouteStep::Settled(settled, skipped) && settled_as(
                        settled,
                        settlement.result,
                        model_id,
                        entry.origin,
                    ) && skipped@ == if run.index() < run.non_cooling() <= run.candidates().len() {
                        run.candidates().skip(run.non_cooling() as int)
                    } else {
                        Seq::empty()
                    }
                },
                Err(error) => after == before && failure_step(
                    attempt,
                    after,
                    error@,
                    delivered,
                    thread_id,
                    turn_id,
                    model_id,
                    now,
                    step,
                ),
            }
        },
    }
}

/// Effect of preparing a request for the Model that an attempt has to call.
pub open spec fn narrows(
    run: RouteRun,
    route: ModelRoute,
    before: ModelRequest,
    after: ModelRequest,
    result: Result<(), HarnessError>,
) -> bool {
    if !stands_in(run, run.index(), route) {
        result matches Err(error) && error@ == lost_route() && after == before
    } else {
        narrows_to(route.entries@[run.candidates()[run.index() as int] as int], before, after, result)
    }
}

/// Effect of preparing a request for a route entry.
pub open spec fn narrows_to(
    entry: RuntimeModel,
    before: ModelRequest,
    after: ModelRequest,
    result: Result<(), HarnessError>,
) -> bool {
    match entry.identity.identity() {
        Err(fault) => result matches Err(error) && error@ == fault && after == before,
        Ok(model_id) => {
            &&& result is Ok
            &&& after.items@ == before.items@.filter(|item: Item| is_visible_to(item, model_id, entry.origin@))
            &&& after.thread_id == before.thread_id
            &&& after.turn_id == before.turn_id
            &&& after.authority == before.authority
            &&& after.context == before.context
            &&& after.tools == before.tools
        },
    }
}

impl Attempt {
    /// Returns the route entry that has to be called.
    pub fn entry(&self) -> (entry: Option<usize>)
        ensures
            match entry {
                Some(entry) => self.run().index() < self.run().candidates().len() && entry == self.run().candidates()[self.run().index() as int],
                None => self.run().index() >= self.run().candidates().len(),
            },
    {
        if self.run.index < self.run.candidates.len() {
            Some(self.run.candidates[self.run.index])
        } else {
            None
        }
    }

    /// Returns the number of earlier calls to the same candidate.
    pub fn retry_number(&self) -> (retry: u8)
        ensures
            retry == self.retry_index(),
    {
        self.retry_index
    }

    /// Returns the deadline of the call.
    pub fn call_deadline(&self) -> (deadline: Option<Moment>)
        ensures
            deadline == self.deadline().0,
    {
        self.deadline
    }

    /// Leaves in a request what the Model that has to be called may see: no
    /// Provider state of another Model.
    pub fn narrow(&self, route: &ModelRoute, request: &mut ModelRequest) -> (result: Result<(), HarnessError>)
        ensures
            narrows(self.run(), *route, *old(request), *final(request), result),
    {
        if self.run.index >= self.run.candidates.len() {
            return Err(lost_route_error());
        }
        let entry: usize = self.run.candidates[self.run.index];
        if entry >= route.entries.len() {
            return Err(lost_route_error());
        }
        let registered = &route.entries[entry];
        match registered.identity.get() {
            Ok(model_id) => {
                retain_model_continuations(request, model_id, &registered.origin);
                Ok(())
            },
            Err(error) => Err(error),
        }
    }

    fn failed_attempt(
        self,
        route: &ModelRoute,
        error: HarnessError,
        delivered: u64,
        thread_id: &str,
        turn_id: &str,
        model_id: &str,
        now: Moment,
    ) -> (step: RouteStep)
        requires
            self.run().index() < self.run().candidates().len(),
        ensures
            failure_step(self, *route, error@, delivered, thread_id@, turn_id@, model_id@, now, step),
    {
        let last: bool = self.run.index == self.run.candidates.len() - 1;
        if !last && delivered > 0 {
            return failed(
                HarnessError::Model(
                    join3(
                        "Model ",
                        model_id,
                        " failed after delivering provisional output; failover was suppressed",
                    ),
                ),
            );
        }
        let next_retry: u8 = self.retry_index.saturating_add(1);
        if delivered == 0 {
            if let Some(delay) = route.retry_delay(&error, next_retry, thread_id, turn_id, model_id) {
                return RouteStep::Wait(
                    RetryWait {
                        run: self.run,
                        next_retry,
                        deadline: self.deadline,
                        deadline_is_attempt: self.deadline_is_attempt,
                        delay,
                        error,
                    },
                );
            }
        }
        if last {
            return failed(error);
        }
        let next: usize = self.run.index + 1;
        begin(self.run, next, route, now)
    }

    /// Takes a settled attempt.
    pub fn replied(
        self,
        route: &mut ModelRoute,
        settlement: ModelAttemptSettlement,
        delivered: u64,
        thread_id: &str,
        turn_id: &str,
        now: Moment,
    ) -> (step: RouteStep)
        ensures
            attempt_reply(
                self,
                *old(route),
                settlement,
                delivered,
                thread_id@,
                turn_id@,
                now,
                *final(route),
                step,
            ),
    {
        let ghost before = *route;
        if self.run.index >= self.run.candidates.len() {
            return failed(lost_route_error());
        }
        let entry: usize = self.run.candidates[self.run.index];
        if entry >= route.entries.len() {
            return failed(lost_route_error());
        }
        let model_id: String = match route.entries[entry].identity.get() {
            Ok(id) => id.to_owned(),
            Err(error) => {
                return failed(error);
            },
        };
        let origin = route.entries[entry].origin.clone();
        let ModelAttemptSettlement { result, control } = settlement;
        let ends = match control {
            ModelAttemptControl::Cancelled => true,
            ModelAttemptControl::DeadlineElapsed => !self.deadline_is_attempt,
            ModelAttemptControl::NoSignal => false,
        };
        if ends {
            let settled = match result {
                Ok(response) => Ok(
                    SettledModelOutput {
                        model_id,
                        model_origin: origin,
                        output: response.output,
                        continuation: response.continuation,
                    },
                ),
                Err(error) => Err(error),
            };
            return RouteStep::Settled(settled, nothing_skipped());
        }
        if let ModelAttemptControl::DeadlineElapsed = control {
            if let Err(error) = route.record_attempt_timeout(model_id.as_str(), now) {
                return failed(error);
            }
            let error = HarnessError::Model(
                join3("Model ", model_id.as_str(), " exceeded the configured failover attempt timeout"),
            );
            return self.failed_attempt(route, error, delivered, thread_id, turn_id, model_id.as_str(), now);
        }
        match result {
            Ok(response) => {
                route.clear_attempt_timeout(model_id.as_str());
                let skipped = self.run.unneeded();
                RouteStep::Settled(
                    Ok(
                        SettledModelOutput {
                            model_id,
                            model_origin: origin,
                            output: response.output,
                            continuation: response.continuation,
                        },
                    ),
                    skipped,
                )
            },
            Err(error) => self.failed_attempt(route, error, delivered, thread_id, turn_id, model_id.as_str(), now),
        }
    }
}

impl RouteRun {
    /// Deprioritized candidates that were not needed.
    fn unneeded(&self) -> (skipped: Vec<usize>)
        ensures
            skipped@ == if self.index() < self.non_cooling() <= self.candidates().len() {
                self.candidates().skip(self.non_cooling() as int)
            } else {
                Seq::empty()
            },
    {
        let mut skipped: Vec<usize> = Vec::new();
        if self.index < self.non_cooling && self.non_cooling <= self.candidates.len() {
            let mut k: usize = self.non_cooling;
            while k < self.candidates.len()
                invariant
                    self.non_cooling <= k <= self.candidates@.len(),
                    skipped@ == self.candidates@.subrange(self.non_cooling as int, k as int),
                decreases self.candidates@.len() - k,
            {
                skipped.push(self.candidates[k]);
                assert(skipped@ =~= self.candidates@.subrange(self.non_cooling as int, k + 1));
                k += 1;
            }
            assert(skipped@ =~= self.candidates@.skip(self.non_cooling as int));
        } else {
            assert(skipped@ =~= Seq::<usize>::empty());
        }
        skipped
    }
}

/// Whether to sleep before a retry: not where the deadline has passed or
/// would pass first. Only a deadline of the Turn is an error.
pub open spec fn wait_plan(deadline: (Option<Moment>, bool), delay: Duration, now: Moment) -> Result<bool, ErrorView> {
    match deadline.0 {
        None => Ok(true),
        Some(limit) => if now.nanos >= limit.nanos {
            if deadline.1 {
                Ok(false)
            } else {
                Err(ErrorView::TimedOut(ExecutionPhase::Model))
            }
        } else {
            match after_span(now, delay) {
                None => Ok(false),
                Some(ready) => Ok(ready.nanos < limit.nanos),
            }
        },
    }
}

/// What the end of a sleep means for a retry.
pub open spec fn wait_end(deadline_is_attempt: bool, slept: Result<(), HarnessError>) -> Result<bool, ErrorView> {
    match slept {
        Ok(()) => Ok(true),
        Err(error) => if error@ is TimedOut && deadline_is_attempt {
            Ok(false)
        } else {
            Err(error@)
        },
    }
}

/// What follows the wait before a retry.
pub open spec fn waited_step(
    wait: RetryWait,
    route: ModelRoute,
    outcome: Result<bool, HarnessError>,
    now: Moment,
    step: RouteStep,
) -> bool {
    match outcome {
        Err(error) => fails_with(step, error@),
        Ok(true) => calls_again(wait.run(), wait.next_retry(), wait.deadline(), step),
        Ok(false) => if wait.run().index() + 1 == wait.run().candidates().len() {
            fails_with(step, wait.error()@)
        } else {
            begins(wait.run(), wait.run().index() + 1, route, now, step)
        },
    }
}

impl RetryWait {
    /// Returns the length of the wait.
    pub fn length(&self) -> (delay: Duration)
        ensures
            delay == self.delay(),
    {
        self.delay
    }

    /// Returns the deadline of the wait.
    pub fn wait_deadline(&self) -> (deadline: Option<Moment>)
        ensures
            deadline == self.deadline().0,
    {
        self.deadline
    }

    /// Decides whether to sleep.
    pub fn plan(&self, now: Moment) -> (result: Result<bool, HarnessError>)
        ensures
            crate::error::settles(result, wait_plan(self.deadline(), self.delay(), now)),
    {
        let limit = match self.deadline {
            Some(limit) => limit,
            None => {
                return Ok(true);
            },
        };
        if now.nanos >= limit.nanos {
            return if self.deadline_is_attempt {
                Ok(false)
            } else {
                Err(HarnessError::TimedOut { phase: ExecutionPhase::Model })
            };
        }
        match now.checked_add(self.delay) {
            None => Ok(false),
            Some(ready) => Ok(ready.nanos < limit.nanos),
        }
    }

    /// Decides what the end of a sleep means.
    pub fn slept(&self, result: Result<(), HarnessError>) -> (outcome: Result<bool, HarnessError>)
        ensures
            crate::error::settles(outcome, wait_end(self.deadline().1, result)),
    {
        match result {
            Ok(()) => Ok(true),
            Err(HarnessError::TimedOut { phase }) => if self.deadline_is_attempt {
                Ok(false)
            } else {
                Err(HarnessError::TimedOut { phase })
            },
            Err(error) => Err(error),
        }
    }

    /// Takes the outcome of the wait: another call to the same Model under
    /// the same deadline, the next Model, or the end of the step.
    pub fn waited(self, route: &ModelRoute, outcome: Result<bool, HarnessError>, now: Moment) -> (step: RouteStep)
        ensures
            waited_step(self, *route, outcome, now, step),
    {
        match outcome {
            Err(error) => failed(error),
            Ok(again) => {
                if again {
                    return call_again(self.run, self.next_retry, self.deadline, self.deadline_is_attempt);
                }
                if self.run.index >= self.run.candidates.len() {
                    return failed(lost_route_error());
                }
                if self.run.index == self.run.candidates.len() - 1 {
                    return failed(self.error);
                }
                let next: usize = self.run.index + 1;
                begin(self.run, next, route, now)
            },
        }
    }
}

/// Failover and retries share one budget: no step that stays within its
/// budget is ever led to a call beyond it.
pub proof fn law_calls_stay_within_budget(
    run: RouteRun,
    index: nat,
    route: ModelRoute,
    now: Moment,
    retry_index: u8,
    deadline: (Option<Moment>, bool),
    step: RouteStep,
)
    requires
        run.attempts() <= run.max_attempts(),
        begins(run, index, route, now, step) || calls_again(run, retry_index, deadline, step),
    ensures
        step matches RouteStep::Call(attempt) ==> attempt.run().attempts() == run.attempts() + 1 && attempt.run().attempts()
            <= attempt.run().max_attempts() && attempt.run().max_attempts() == run.max_attempts(),
{
}

/// Provisional output that was delivered rules out every further call of the
/// step.
pub proof fn law_delivered_output_stops_failover(
    attempt: Attempt,
    before: ModelRoute,
    settlement: ModelAttemptSettlement,
    delivered: u64,
    thread_id: Seq<char>,
    turn_id: Seq<char>,
    now: Moment,
    after: ModelRoute,
    step: RouteStep,
)
    requires
        delivered > 0,
        attempt_reply(attempt, before, settlement, delivered, thread_id, turn_id, now, after, step),
    ensures
        step is Settled,
{
}

/// Cancellation, and a deadline of the Turn, end the step with the outcome of
/// the attempt that they stopped.
pub proof fn law_outside_stop_ends_the_step(
    attempt: Attempt,
    before: ModelRoute,
    settlement: ModelAttemptSettlement,
    delivered: u64,
    thread_id: Seq<char>,
    turn_id: Seq<char>,
    now: Moment,
    after: ModelRoute,
    step: RouteStep,
)
    requires
        ends_step(settlement.control, attempt.deadline().1),
        attempt_reply(attempt, before, settlement, delivered, thread_id, turn_id, now, after, step),
    ensures
        step is Settled,
        after == before,
{
}

/// A Model is tried after another one only where the earlier one failed
/// without delivering output and without an outside stop of the step.
pub proof fn law_failover_follows_a_plain_failure(
    attempt: Attempt,
    before: ModelRoute,
    settlement: ModelAttemptSettlement,
    delivered: u64,
    thread_id: Seq<char>,
    turn_id: Seq<char>,
    now: Moment,
    after: ModelRoute,
    step: RouteStep,
)
    requires
        attempt_reply(attempt, before, settlement, delivered, thread_id, turn_id, now, after, step),
        step is Call,
    ensures
        delivered == 0,
        !ends_step(settlement.control, attempt.deadline().1),
        settlement.result is Err || settlement.control is DeadlineElapsed,
        step matches RouteStep::Call(next) && next.run().index() == attempt.run().index() + 1,
{
}

/// A chain that is pinned to a Model is served by that Model alone.
pub proof fn law_pinned_chain_stays_with_its_model(route: ModelRoute, items: Seq<Item>, now: Moment, k: int)
    requires
        route_candidates(route, items, now) is Ok,
        0 <= k < route_candidates(route, items, now)->Ok_0.0.len(),
    ensures
        continuation_target(items) matches Ok(Some(target)) ==> may_serve(
            route.entries@,
            Some(target),
            route_candidates(route, items, now)->Ok_0.0[k],
        ),
{
    let target = continuation_target(items)->Ok_0;
    if target is Some {
        Seq::new(route.entries@.len(), |i: int| i as usize).lemma_filter_pred(
            |index: usize| may_serve(route.entries@, target, index),
            k,
        );
    }
}

/// A reply that fits settles its attempt as it is. A fault is reported, and
/// tells a cancellation and a passed deadline of the wait from all others.
pub proof fn law_replies_settle_attempts(outcome: ModelCallOutcome, settlement: ModelAttemptSettlement)
    requires
        settles_attempt(outcome, settlement),
    ensures
        match outcome {
            ModelCallOutcome::Replied(Ok(response)) => settlement.control is NoSignal && if response_check(response) is Ok {
                settlement.result == Ok::<ModelResponse, HarnessError>(response)
            } else {
                settlement.result matches Err(error) && response_check(response) == Err::<(), ErrorView>(error@)
            },
            ModelCallOutcome::Replied(Err(error)) => settlement.control is NoSignal && (settlement.result matches Err(reported)
                && (!(error@ is ModelProvider) ==> reported@ == error@)),
            ModelCallOutcome::Stopped(error) => (settlement.control is Cancelled <==> error@ is Cancelled) && (
            settlement.control is DeadlineElapsed <==> error@ is TimedOut) && (settlement.result matches Err(reported) && (
            !(error@ is ModelProvider) ==> reported@ == error@)),
        },
{
}

/// An accepted answer settles the step: it is handed on with the identity and
/// the origin of the Model that gave it, and that Model no longer cools.
pub proof fn law_accepted_answers_settle_the_step(
    attempt: Attempt,
    id: String,
    before: ModelRoute,
    response: ModelResponse,
    delivered: u64,
    thread_id: Seq<char>,
    turn_id: Seq<char>,
    now: Moment,
    after: ModelRoute,
    step: RouteStep,
)
    requires
        attempt.run().index() < attempt.run().candidates().len(),
        attempt.run().candidates()[attempt.run().index() as int] < before.entries@.len(),
        before.entries@[attempt.run().candidates()[attempt.run().index() as int] as int].identity
            == FrozenModelIdentity::Valid(id),
        attempt_reply(
            attempt,
            before,
            ModelAttemptSettlement { result: Ok(response), control: ModelAttemptControl::NoSignal },
            delivered,
            thread_id,
            turn_id,
            now,
            after,
            step,
        ),
    ensures
        step matches RouteStep::Settled(Ok(settled), _) && settled.model_id@ == id@ && settled.model_origin
            == before.entries@[attempt.run().candidates()[attempt.run().index() as int] as int].origin && settled.output
            == response.output && settled.continuation == response.continuation,
        forall|other: Seq<char>|
            other != id@ ==> (#[trigger] after.timeout_cooldowns@.contains_key(other) <==> before.timeout_cooldowns@.contains_key(
                other,
            )),
        before.timeout_cooldown is Some ==> !after.timeout_cooldowns@.contains_key(id@),
        attempt.run().index() < attempt.run().non_cooling() <= attempt.run().candidates().len() ==> {
            let unneeded = step->Settled_1@;
            &&& unneeded.len() == attempt.run().candidates().len() - attempt.run().non_cooling()
            &&& forall|k: int|
                0 <= k < unneeded.len() ==> #[trigger] unneeded[k] == attempt.run().candidates()[attempt.run().non_cooling()
                    + k]
        },
        attempt.run().index() >= attempt.run().non_cooling() ==> step->Settled_1@.len() == 0,
{
}

/// An attempt that fails is retried where a delay is granted, as long as no
/// output was delivered; else the next candidate is called, and the fault of
/// the last one is that of the step.
pub proof fn law_failed_attempts_are_passed_on(
    attempt: Attempt,
    id: String,
    before: ModelRoute,
    error: HarnessError,
    thread_id: Seq<char>,
    turn_id: Seq<char>,
    now: Moment,
    after: ModelRoute,
    step: RouteStep,
)
    requires
        attempt.run().index() < attempt.run().candidates().len(),
        attempt.run().candidates()[attempt.run().index() as int] < before.entries@.len(),
        before.entries@[attempt.run().candidates()[attempt.run().index() as int] as int].identity
            == FrozenModelIdentity::Valid(id),
        attempt.retry_index() < 255,
        attempt_reply(
            attempt,
            before,
            ModelAttemptSettlement { result: Err(error), control: ModelAttemptControl::NoSignal },
            0,
            thread_id,
            turn_id,
            now,
            after,
            step,
        ),
    ensures
        after == before,
        match delay_before_retry(
            before.retry_policy,
            error@,
            (attempt.retry_index() + 1) as u8,
            thread_id,
            turn_id,
            id@,
        ) {
            Some(delay) => step matches RouteStep::Wait(wait) && wait.run() == attempt.run() && wait.next_retry()
                == attempt.retry_index() + 1 && wait.deadline() == attempt.deadline() && wait.delay().nanos() == delay
                && wait.error()@ == error@,
            None => if attempt.run().index() + 1 == attempt.run().candidates().len() {
                step matches RouteStep::Settled(Err(reported), _) && reported@ == error@
            } else {
                begins(attempt.run(), attempt.run().index() + 1, before, now, step)
            },
        },
{
}

/// A Model that exceeds its own deadline cools for the configured time from
/// now on, and no other Model does on its account.
pub proof fn law_timed_out_models_cool_down(
    attempt: Attempt,
    id: String,
    cooldown: Duration,
    before: ModelRoute,
    settlement: ModelAttemptSettlement,
    delivered: u64,
    thread_id: Seq<char>,
    turn_id: Seq<char>,
    now: Moment,
    after: ModelRoute,
    step: RouteStep,
)
    requires
        attempt.run().index() < attempt.run().candidates().len(),
        attempt.run().candidates()[attempt.run().index() as int] < before.entries@.len(),
        before.entries@[attempt.run().candidates()[attempt.run().index() as int] as int].identity
            == FrozenModelIdentity::Valid(id),
        before.timeout_cooldown == Some(cooldown),
        now.nanos + cooldown.nanos() <= 9_223_372_036_854_775_807_999_999_999,
        settlement.control is DeadlineElapsed,
        attempt.deadline().1,
        attempt_reply(attempt, before, settlement, delivered, thread_id, turn_id, now, after, step),
    ensures
        after.timeout_cooldowns@.contains_key(id@),
        after.timeout_cooldowns@[id@].nanos == now.nanos + cooldown.nanos(),
        forall|other: Seq<char>|
            other != id@ ==> (#[trigger] after.timeout_cooldowns@.contains_key(other) <==> before.timeout_cooldowns@.contains_key(
                other,
            )),
{
}

proof fn lemma_all_serve(n: nat, entries: Seq<RuntimeModel>)
    ensures
        serving(entries, None, n) == Seq::new(n, |i: int| i as usize),
    decreases n,
{
    let all = Seq::new(n, |i: int| i as usize);
    let wanted = |index: usize| may_serve(entries, None, index);
    lemma_filter_keeps_all(all, wanted);
}

proof fn lemma_filter_keeps_all(all: Seq<usize>, wanted: spec_fn(usize) -> bool)
    requires
        forall|i: int| 0 <= i < all.len() ==> #[trigger] wanted(all[i]),
    ensures
        all.filter(wanted) == all,
    decreases all.len(),
{
    reveal(Seq::filter);
    if all.len() > 0 {
        let shorter = all.drop_last();
        assert forall|i: int| 0 <= i < shorter.len() implies #[trigger] wanted(shorter[i]) by {
            assert(wanted(all[i]));
        }
        lemma_filter_keeps_all(shorter, wanted);
        assert(wanted(all[all.len() - 1]));
        assert(shorter.push(all.last()) =~= all);
    } else {
        assert(all.filter(wanted) =~= all);
    }
}

/// Every Model of a route is a candidate, in the configured order, where no
/// chain is pinned and no Model cools. A pinned chain leaves exactly the
/// entries with its identity and origin.
pub proof fn law_candidates_are_the_models_of_the_route(route: ModelRoute, items: Seq<Item>, now: Moment)
    ensures
        continuation_target(items) == Ok::<Option<ProviderContinuationTarget>, ErrorView>(None) && route.timeout_cooldown is None
            ==> route_candidates(route, items, now) == Ok::<(Seq<usize>, nat), ErrorView>(
            (Seq::new(route.entries@.len(), |i: int| i as usize), route.entries@.len()),
        ),
        continuation_target(items) matches Ok(Some(target)) ==> {
            let pinned = Seq::new(route.entries@.len(), |i: int| i as usize).filter(
                |index: usize|
                    route.entries@[index as int].identity matches FrozenModelIdentity::Valid(id) && id@ == target.model_id@
                        && route.entries@[index as int].origin@ == target.model_origin@,
            );
            &&& route_candidates(route, items, now) is Ok <==> pinned.len() > 0
            &&& pinned.len() > 0 ==> route_candidates(route, items, now)->Ok_0 == (pinned, pinned.len())
        },
{
    lemma_all_serve(route.entries@.len(), route.entries@);
    if let Ok(Some(target)) = continuation_target(items) {
        let inline = |index: usize|
            route.entries@[index as int].identity matches FrozenModelIdentity::Valid(id) && id@ == target.model_id@
                && route.entries@[index as int].origin@ == target.model_origin@;
        let named = |index: usize| may_serve(route.entries@, Some(target), index);
        assert(inline =~= named);
    }
}

/// A step of a route without deadlines, pinned chains and cooling Models begins
/// with a first attempt at its first Model.
pub proof fn law_steps_begin_with_the_first_model(
    before: ModelRoute,
    request: ModelRequest,
    encoding: Option<Seq<char>>,
    max_attempts: usize,
    now: Moment,
    after: ModelRoute,
    step: RouteStep,
    id: String,
)
    requires
        same_route(before, after),
        step_begins(before, request, encoding, max_attempts, None, now, after, step),
        request_check(request, encoding) is Ok,
        continuation_target(request.items@) == Ok::<Option<ProviderContinuationTarget>, ErrorView>(None),
        before.timeout_cooldown is None,
        before.attempt_timeout is None,
        before.entries@.len() > 0,
        before.entries@[0].identity == FrozenModelIdentity::Valid(id),
        max_attempts > 0,
    ensures
        step matches RouteStep::Call(attempt) && attempt.run().index() == 0 && attempt.run().candidates()[0] == 0
            && attempt.run().candidates().len() == before.entries@.len() && attempt.retry_index() == 0
            && attempt.run().attempts() == 1 && attempt.run().max_attempts() == max_attempts && attempt.deadline() == (
            None::<Moment>,
            false,
        ),
{
    law_candidates_are_the_models_of_the_route(before, request.items@, now);
    let candidates = Seq::new(before.entries@.len(), |i: int| i as usize);
    assert(route_candidates(before, request.items@, now)->Ok_0.0 == candidates);
    assert(candidates[0] == 0);
}

/// A step whose request does not fit ends with that fault before any attempt.
pub proof fn law_requests_are_judged_first(
    before: ModelRoute,
    request: ModelRequest,
    encoding: Option<Seq<char>>,
    max_attempts: usize,
    turn_deadline: Option<Moment>,
    now: Moment,
    after: ModelRoute,
    step: RouteStep,
)
    requires
        step_begins(before, request, encoding, max_attempts, turn_deadline, now, after, step),
        request_check(request, encoding) is Err,
    ensures
        step matches RouteStep::Settled(Err(error), _) && error@ == request_check(request, encoding)->Err_0,
{
}

/// Behind a wait the same Model is called again under the same deadline, as the
/// next retry, unless the attempts of the step are spent. A wait that is given
/// up passes on to the next candidate, or ends with the fault it waited on.
pub proof fn law_waits_lead_to_the_same_model(
    wait: RetryWait,
    route: ModelRoute,
    outcome: Result<bool, HarnessError>,
    now: Moment,
    step: RouteStep,
)
    requires
        waited_step(wait, route, outcome, now, step),
    ensures
        match outcome {
            Err(error) => step matches RouteStep::Settled(Err(reported), _) && reported@ == error@,
            Ok(true) => if wait.run().attempts() == wait.run().max_attempts() {
                step matches RouteStep::Settled(Err(reported), _) && reported@ == ErrorView::MaxModelAttempts(
                    wait.run().max_attempts(),
                )
            } else {
                step matches RouteStep::Call(attempt) && attempt.run().index() == wait.run().index()
                    && attempt.run().candidates() == wait.run().candidates() && attempt.run().attempts() == wait.run().attempts()
                    + 1 && attempt.retry_index() == wait.next_retry() && attempt.deadline() == wait.deadline()
            },
            Ok(false) => if wait.run().index() + 1 == wait.run().candidates().len() {
                step matches RouteStep::Settled(Err(reported), _) && reported@ == wait.error()@
            } else {
                begins(wait.run(), wait.run().index() + 1, route, now, step)
            },
        },
{
}

/// The next candidate is called for the first time, under its own deadline, as
/// long as it has a valid identity and attempts are left.
pub proof fn law_next_candidates_are_called(
    run: RouteRun,
    index: nat,
    route: ModelRoute,
    now: Moment,
    step: RouteStep,
    id: String,
)
    requires
        begins(run, index, route, now, step),
        index < run.candidates().len(),
        run.candidates()[index as int] < route.entries@.len(),
        route.entries@[run.candidates()[index as int] as int].identity == FrozenModelIdentity::Valid(id),
        attempt_deadline_at(route.attempt_timeout, run.turn_deadline(), now) is Ok,
    ensures
        if run.attempts() == run.max_attempts() {
            step matches RouteStep::Settled(Err(reported), _) && reported@ == ErrorView::MaxModelAttempts(run.max_attempts())
        } else {
            step matches RouteStep::Call(attempt) && attempt.run().index() == index && attempt.run().candidates()
                == run.candidates() && attempt.run().attempts() == run.attempts() + 1 && attempt.retry_index() == 0
                && attempt.deadline() == attempt_deadline_at(route.attempt_timeout, run.turn_deadline(), now)->Ok_0
        },
{
}

/// A retry is waited for where it begins before the deadline. A deadline that
/// has passed ends the Turn where it is that of the Turn.
pub proof fn law_waits_end_before_the_deadline(deadline: (Option<Moment>, bool), delay: Duration, now: Moment)
    ensures
        deadline.0 is None ==> wait_plan(deadline, delay, now) == Ok::<bool, ErrorView>(true),
        deadline.0 matches Some(limit) ==> {
            &&& wait_plan(deadline, delay, now) == Ok::<bool, ErrorView>(true) <==> now.nanos + delay.nanos() < limit.nanos
                && now.nanos < limit.nanos && now.nanos + delay.nanos() <= 9_223_372_036_854_775_807_999_999_999
            &&& wait_plan(deadline, delay, now) is Err <==> now.nanos >= limit.nanos && !deadline.1
            &&& wait_plan(deadline, delay, now) matches Err(fault) ==> fault == ErrorView::TimedOut(ExecutionPhase::Model)
        },
{
}

/// Sleep that is not disturbed leads to the retry. Only the deadline of the
/// attempt itself gives the retry up; every other disturbance ends the step.
pub proof fn law_disturbed_waits_end_the_step(deadline_is_attempt: bool, slept: Result<(), HarnessError>)
    ensures
        wait_end(deadline_is_attempt, slept) == (match slept {
            Ok(()) => Ok::<bool, ErrorView>(true),
            Err(error) => if deadline_is_attempt && error@ is TimedOut {
                Ok(false)
            } else {
                Err(error@)
            },
        }),
{
}

/// A Model sees a request without the continuations of other Models, in the
/// same order, and with nothing else changed.
pub proof fn law_requests_are_narrowed_to_their_model(
    run: RouteRun,
    route: ModelRoute,
    before: ModelRequest,
    after: ModelRequest,
    result: Result<(), HarnessError>,
    id: String,
)
    requires
        narrows(run, route, before, after, result),
        run.index() < run.candidates().len(),
        run.candidates()[run.index() as int] < route.entries@.len(),
        route.entries@[run.candidates()[run.index() as int] as int].identity == FrozenModelIdentity::Valid(id),
    ensures
        result is Ok,
        after.thread_id == before.thread_id,
        after.turn_id == before.turn_id,
        after.authority == before.authority,
        after.context == before.context,
        after.tools == before.tools,
        after.items@ == before.items@.filter(
            |item: Item|
                match item.kind {
                    ItemKind::ProviderContinuation { model_id, model_origin, .. } => model_id@ == id@ && model_origin@
                        == route.entries@[run.candidates()[run.index() as int] as int].origin@,
                    _ => true,
                },
        ),
{
    let entry = route.entries@[run.candidates()[run.index() as int] as int];
    let seen = |item: Item| is_visible_to(item, id@, entry.origin@);
    let stated = |item: Item|
        match item.kind {
            ItemKind::ProviderContinuation { model_id, model_origin, .. } => model_id@ == id@ && model_origin@
                == entry.origin@,
            _ => true,
        };
    assert forall|item: Item| #[trigger] seen(item) == stated(item) by {
        law_models_see_all_but_foreign_state(item, id@, entry.origin@);
    }
    assert(seen =~= stated);
}

} // verus!
