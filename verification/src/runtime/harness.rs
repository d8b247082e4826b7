//! Configuration of a Runtime.

use vstd::prelude::*;

use crate::capability::{ModelRegistry, ToolRegistry};
use crate::error::{ErrorView, HarnessError};
use crate::kernel::CapabilityOrigin;
use crate::runtime::route::{
    entries_match, invalid_configuration, law_routes_are_distinct_registered_models, route_check, route_length_error,
    FrozenModelIdentity, ModelRetryPolicy, ModelRoute, RuntimeModel, DEFAULT_MODEL_ATTEMPT_TIMEOUT_MS,
    MAX_MODEL_ATTEMPT_TIMEOUT_MS, MAX_MODEL_ROUTE_ENTRIES, MAX_MODEL_TIMEOUT_COOLDOWN_MS,
};
use crate::time::{Duration, Moment, NANOS_PER_MILLI};

verus! {

/// Default Provider-call ceiling for one Agent Loop Model step.
pub const DEFAULT_MAX_MODEL_ATTEMPTS_PER_STEP: usize = 16;

/// Hard Provider-call ceiling for one Agent Loop Model step.
pub const MAX_MODEL_ATTEMPTS_PER_STEP: usize = 144;

/// Default same-batch concurrency ceiling for explicitly `ParallelSafe` Tools.
pub const DEFAULT_MAX_PARALLEL_TOOL_CALLS: usize = 4;

/// Hard same-batch concurrency ceiling.
pub const MAX_PARALLEL_TOOL_CALLS: usize = 64;

/// Default number of Turns that run at the same time.
pub const DEFAULT_MAX_CONCURRENT_TURNS: usize = 32;

/// Largest number of Turns that run at the same time.
pub const MAX_CONCURRENT_TURNS: usize = 4_096;

/// Default step budget of a Turn.
pub const DEFAULT_MAX_AGENT_STEPS: usize = 32;

/// Largest step budget of a Turn.
pub const MAX_AGENT_STEPS: usize = 256;

/// Bounds that every Turn of a Runtime keeps to.
#[derive(Clone, Copy, Debug, PartialEq, Eq, Structural)]
pub struct RuntimeLimits {
    max_concurrent_turns: usize,
    max_parallel_tool_calls: usize,
    max_model_attempts_per_step: usize,
    max_steps: usize,
}

/// Bounds as numbers.
pub struct LimitsView {
    /// Turns that run at the same time.
    pub concurrent_turns: usize,
    /// Calls of one batch that run at the same time.
    pub parallel_tool_calls: usize,
    /// Provider calls of one step.
    pub attempts_per_step: usize,
    /// Steps of a Turn.
    pub steps: usize,
}

impl View for RuntimeLimits {
    type V = LimitsView;

    closed spec fn view(&self) -> LimitsView {
        LimitsView {
            concurrent_turns: self.max_concurrent_turns,
            parallel_tool_calls: self.max_parallel_tool_calls,
            attempts_per_step: self.max_model_attempts_per_step,
            steps: self.max_steps,
        }
    }
}

impl LimitsView {
    /// Whether every bound lies in its supported range.
    pub open spec fn supported(self) -> bool {
        &&& 1 <= self.concurrent_turns <= MAX_CONCURRENT_TURNS
        &&& 1 <= self.parallel_tool_calls <= MAX_PARALLEL_TOOL_CALLS
        &&& 1 <= self.attempts_per_step <= MAX_MODEL_ATTEMPTS_PER_STEP
        &&& 1 <= self.steps <= MAX_AGENT_STEPS
    }
}

/// Bounds of a Runtime before any is chosen.
pub open spec fn default_limits() -> LimitsView {
    LimitsView {
        concurrent_turns: DEFAULT_MAX_CONCURRENT_TURNS,
        parallel_tool_calls: DEFAULT_MAX_PARALLEL_TOOL_CALLS,
        attempts_per_step: DEFAULT_MAX_MODEL_ATTEMPTS_PER_STEP,
        steps: DEFAULT_MAX_AGENT_STEPS,
    }
}

impl RuntimeLimits {
    #[verifier::type_invariant]
    spec fn bounded(self) -> bool {
        self@.supported()
    }

    fn new() -> (limits: Self)
        ensures
            limits@ == default_limits(),
    {
        RuntimeLimits {
            max_concurrent_turns: DEFAULT_MAX_CONCURRENT_TURNS,
            max_parallel_tool_calls: DEFAULT_MAX_PARALLEL_TOOL_CALLS,
            max_model_attempts_per_step: DEFAULT_MAX_MODEL_ATTEMPTS_PER_STEP,
            max_steps: DEFAULT_MAX_AGENT_STEPS,
        }
    }

    /// Returns the number of Turns that run at the same time.
    pub fn max_concurrent_turns(&self) -> (limit: usize)
        ensures
            limit == self@.concurrent_turns,
            self@.supported(),
    {
        proof {
            use_type_invariant(self);
        }
        self.max_concurrent_turns
    }

    /// Returns the number of calls of one batch that run at the same time.
    pub fn max_parallel_tool_calls(&self) -> (limit: usize)
        ensures
            limit == self@.parallel_tool_calls,
            self@.supported(),
    {
        proof {
            use_type_invariant(self);
        }
        self.max_parallel_tool_calls
    }

    /// Returns the number of Provider calls of one step.
    pub fn max_model_attempts_per_step(&self) -> (limit: usize)
        ensures
            limit == self@.attempts_per_step,
            self@.supported(),
    {
        proof {
            use_type_invariant(self);
        }
        self.max_model_attempts_per_step
    }

    /// Returns the step budget of a Turn.
    pub fn max_steps(&self) -> (limit: usize)
        ensures
            limit == self@.steps,
            self@.supported(),
    {
        proof {
            use_type_invariant(self);
        }
        self.max_steps
    }
}

/// Headless Agent Loop coordinating model, context, policy, tools, and state.
///
/// Live capabilities, the state engine and the locks belong to the host. What
/// is decided with them rests on this configuration.
pub struct HarnessRuntime {
    /// Models in the order in which they are tried.
    pub models: ModelRoute,
    /// Tools by name.
    pub tools: ToolRegistry,
    /// Bounds of every Turn.
    pub limits: RuntimeLimits,
}

/// Step budget nearest to the requested one.
pub open spec fn clamped_steps(max_steps: usize) -> usize {
    if max_steps < 1 {
        1
    } else if max_steps > MAX_AGENT_STEPS {
        MAX_AGENT_STEPS
    } else {
        max_steps
    }
}

impl HarnessRuntime {
    /// Creates a runtime for a statically linked built-in model.
    ///
    /// Extension hosts should use [`Self::from_model_registry`] so the
    /// operator-assigned model origin is retained in State evidence.
    pub fn new(model: FrozenModelIdentity, tools: ToolRegistry) -> (runtime: Self)
        ensures
            runtime.models.entries@ == seq![RuntimeModel { identity: model, origin: CapabilityOrigin::BuiltIn }],
            runtime.models.attempt_timeout is None,
            runtime.models.retry_policy is None,
            runtime.models.timeout_cooldown is None,
            runtime.models.timeout_cooldowns@ == Map::<Seq<char>, Moment>::empty(),
            runtime.tools == tools,
            runtime.limits@ == default_limits(),
    {
        HarnessRuntime { models: ModelRoute::built_in(model), tools, limits: RuntimeLimits::new() }
    }

    /// Creates a runtime from one validated, trust-bearing model registration.
    pub fn from_model_registry(models: &ModelRegistry, model_id: &str, tools: ToolRegistry) -> (result: Result<
        Self,
        HarnessError,
    >)
        ensures
            match result {
                Ok(runtime) => models@.contains_key(model_id@) && runtime.models.entries@ == seq![
                    RuntimeModel {
                        identity: FrozenModelIdentity::Valid(models@[model_id@].id),
                        origin: models@[model_id@].origin,
                    },
                ] && runtime.models.attempt_timeout is None && runtime.models.retry_policy is None
                    && runtime.models.timeout_cooldown is None && runtime.models.timeout_cooldowns@ == Map::<
                    Seq<char>,
                    Moment,
                >::empty() && runtime.tools == tools && runtime.limits@ == default_limits(),
                Err(error) => !models@.contains_key(model_id@) && error@ == ErrorView::UnknownModel(model_id@),
            },
    {
        let mut ids: Vec<&str> = Vec::new();
        ids.push(model_id);
        proof {
            assert(ids@ =~= seq![model_id]);
            reveal_with_fuel(route_check, 3);
        }
        let result = Self::from_model_registry_failover(models, ids.as_slice(), tools);
        if let Ok(runtime) = &result {
            assert(runtime.models.entries@ =~= seq![
                RuntimeModel {
                    identity: FrozenModelIdentity::Valid(models@[model_id@].id),
                    origin: models@[model_id@].origin,
                },
            ]);
        }
        result
    }

    /// Creates a runtime with an explicit ordered Model failover route.
    ///
    /// Each identity must already exist in `models`. The first Model is tried
    /// first on every step; a later Model is attempted only after an ordinary
    /// pre-output failure. Multi-model routes use a 30-second per-attempt
    /// timeout by default. Cancellation, the Turn deadline, or successfully
    /// delivered provisional output stop failover.
    pub fn from_model_registry_failover(models: &ModelRegistry, model_ids: &[&str], tools: ToolRegistry) -> (result: Result<
        Self,
        HarnessError,
    >)
        ensures
            match result {
                Ok(runtime) => 1 <= model_ids@.len() <= MAX_MODEL_ROUTE_ENTRIES && route_check(
                    models@,
                    model_ids@,
                    model_ids@.len() as int,
                ) is Ok && entries_match(runtime.models.entries@, models@, model_ids@)
                    && runtime.models.retry_policy is None && runtime.models.timeout_cooldown is None
                    && runtime.models.timeout_cooldowns@ == Map::<Seq<char>, Moment>::empty() && (
                if model_ids@.len() > 1 {
                    runtime.models.attempt_timeout matches Some(timeout) && timeout.nanos()
                        == DEFAULT_MODEL_ATTEMPT_TIMEOUT_MS * NANOS_PER_MILLI
                } else {
                    runtime.models.attempt_timeout is None
                }) && runtime.tools == tools && runtime.limits@ == default_limits(),
                Err(error) => if model_ids@.len() == 0 || model_ids@.len() > MAX_MODEL_ROUTE_ENTRIES {
                    error@ == route_length_error()
                } else {
                    route_check(models@, model_ids@, model_ids@.len() as int) == Err::<(), ErrorView>(error@)
                },
            },
    {
        match ModelRoute::from_registry(models, model_ids) {
            Ok(models) => Ok(HarnessRuntime { models, tools, limits: RuntimeLimits::new() }),
            Err(error) => Err(error),
        }
    }

    /// Sets the hard model-step budget within the supported bounded range.
    pub fn with_max_steps(self, max_steps: usize) -> (runtime: Self)
        ensures
            runtime.models == self.models,
            runtime.tools == self.tools,
            runtime.limits@ == (LimitsView { steps: clamped_steps(max_steps), ..self.limits@ }),
    {
        proof {
            use_type_invariant(&self.limits);
        }
        let steps: usize = if max_steps < 1 {
            1
        } else if max_steps > MAX_AGENT_STEPS {
            MAX_AGENT_STEPS
        } else {
            max_steps
        };
        let limits = RuntimeLimits {
            max_concurrent_turns: self.limits.max_concurrent_turns,
            max_parallel_tool_calls: self.limits.max_parallel_tool_calls,
            max_model_attempts_per_step: self.limits.max_model_attempts_per_step,
            max_steps: steps,
        };
        HarnessRuntime { models: self.models, tools: self.tools, limits }
    }

    /// Sets the independent deadline applied to every configured Model attempt.
    ///
    /// The total Turn deadline remains authoritative when it expires first.
    /// A timed-out attempt may fall through only when no provisional output
    /// was delivered.
    pub fn with_model_attempt_timeout(self, timeout: Duration) -> (result: Result<Self, HarnessError>)
        ensures
            match result {
                Ok(runtime) => NANOS_PER_MILLI <= timeout.nanos() <= MAX_MODEL_ATTEMPT_TIMEOUT_MS * NANOS_PER_MILLI
                    && runtime.models == (ModelRoute { attempt_timeout: Some(timeout), ..self.models }) && runtime.tools
                    == self.tools && runtime.limits == self.limits,
                Err(error) => !(NANOS_PER_MILLI <= timeout.nanos() <= MAX_MODEL_ATTEMPT_TIMEOUT_MS * NANOS_PER_MILLI)
                    && error@ == ErrorView::InvalidConfiguration(
                    "Model attempt timeout must be 1-86400000 milliseconds"@,
                ),
            },
    {
        let nanos: u128 = timeout.as_nanos();
        if nanos < NANOS_PER_MILLI || nanos > MAX_MODEL_ATTEMPT_TIMEOUT_MS as u128 * NANOS_PER_MILLI {
            return Err(invalid_configuration("Model attempt timeout must be 1-86400000 milliseconds"));
        }
        let HarnessRuntime { mut models, tools, limits } = self;
        models.attempt_timeout = Some(timeout);
        Ok(HarnessRuntime { models, tools, limits })
    }

    /// Temporarily deprioritizes a routed Model after its Runtime attempt timeout.
    ///
    /// The cooldown is process-local, applies only when another routed Model
    /// is available, and never overrides Provider Continuation affinity.
    pub fn with_model_timeout_cooldown(self, cooldown: Duration) -> (result: Result<Self, HarnessError>)
        ensures
            match result {
                Ok(runtime) => self.models.entries@.len() >= 2 && NANOS_PER_MILLI <= cooldown.nanos()
                    <= MAX_MODEL_TIMEOUT_COOLDOWN_MS * NANOS_PER_MILLI && runtime.models == (ModelRoute {
                    timeout_cooldown: Some(cooldown),
                    ..self.models
                }) && runtime.tools == self.tools && runtime.limits == self.limits,
                Err(error) => if self.models.entries@.len() < 2 {
                    error@ == ErrorView::InvalidConfiguration("Model timeout cooldown requires a multi-Model route"@)
                } else {
                    !(NANOS_PER_MILLI <= cooldown.nanos() <= MAX_MODEL_TIMEOUT_COOLDOWN_MS * NANOS_PER_MILLI)
                        && error@ == ErrorView::InvalidConfiguration(
                        "Model timeout cooldown must be 1-86400000 milliseconds"@,
                    )
                },
            },
    {
        if self.models.entries.len() < 2 {
            return Err(invalid_configuration("Model timeout cooldown requires a multi-Model route"));
        }
        let nanos: u128 = cooldown.as_nanos();
        if nanos < NANOS_PER_MILLI || nanos > MAX_MODEL_TIMEOUT_COOLDOWN_MS as u128 * NANOS_PER_MILLI {
            return Err(invalid_configuration("Model timeout cooldown must be 1-86400000 milliseconds"));
        }
        let HarnessRuntime { mut models, tools, limits } = self;
        models.timeout_cooldown = Some(cooldown);
        Ok(HarnessRuntime { models, tools, limits })
    }

    /// Enables bounded typed-failure retries for each Model candidate.
    ///
    /// Retries share the candidate's existing attempt deadline and stop after
    /// any provisional output. The total Turn deadline remains authoritative.
    pub fn with_model_retry_policy(self, policy: ModelRetryPolicy) -> (runtime: Self)
        ensures
            runtime.models == (ModelRoute { retry_policy: Some(policy), ..self.models }),
            runtime.tools == self.tools,
            runtime.limits == self.limits,
    {
        let HarnessRuntime { mut models, tools, limits } = self;
        models.retry_policy = Some(policy);
        HarnessRuntime { models, tools, limits }
    }

    /// Sets the Provider-call ceiling for each Agent Loop Model step.
    ///
    /// Route failover and same-Model retries share this budget. Together with
    /// `max_steps`, it gives a hard Runtime-managed Model-call bound for one
    /// Turn, including Turns resumed after approval.
    pub fn with_max_model_attempts_per_step(self, limit: usize) -> (result: Result<Self, HarnessError>)
        ensures
            match result {
                Ok(runtime) => 1 <= limit <= MAX_MODEL_ATTEMPTS_PER_STEP && runtime.models == self.models && runtime.tools
                    == self.tools && runtime.limits@ == (LimitsView { attempts_per_step: limit, ..self.limits@ }),
                Err(error) => !(1 <= limit <= MAX_MODEL_ATTEMPTS_PER_STEP) && error@ == ErrorView::InvalidConfiguration(
                    "Model attempts per step must be 1-144"@,
                ),
            },
    {
        proof {
            use_type_invariant(&self.limits);
        }
        if limit < 1 || limit > MAX_MODEL_ATTEMPTS_PER_STEP {
            return Err(invalid_configuration("Model attempts per step must be 1-144"));
        }
        let limits = RuntimeLimits {
            max_concurrent_turns: self.limits.max_concurrent_turns,
            max_parallel_tool_calls: self.limits.max_parallel_tool_calls,
            max_model_attempts_per_step: limit,
            max_steps: self.limits.max_steps,
        };
        Ok(HarnessRuntime { models: self.models, tools: self.tools, limits })
    }

    /// Returns the maximum Runtime-managed Model calls possible in one Turn,
    /// those of a worker that resumes it included.
    pub fn model_attempts_per_turn_bound(&self) -> (bound: usize)
        ensures
            bound == self.limits@.steps * self.limits@.attempts_per_step,
            bound <= MAX_AGENT_STEPS * MAX_MODEL_ATTEMPTS_PER_STEP,
    {
        proof {
            use_type_invariant(&self.limits);
            let (steps, attempts) = (self.limits.max_steps, self.limits.max_model_attempts_per_step);
            assert(steps * attempts <= 256 * 144) by (nonlinear_arith)
                requires
                    steps <= 256,
                    attempts <= 144,
            ;
        }
        self.limits.max_steps * self.limits.max_model_attempts_per_step
    }

    /// Sets the maximum number of Turns executing concurrently in this Runtime.
    ///
    /// Admission fails before any Turn state is written when the limit is
    /// reached. Separate Runtime instances need host-level coordination.
    pub fn with_turn_concurrency_limit(self, limit: usize) -> (result: Result<Self, HarnessError>)
        ensures
            match result {
                Ok(runtime) => 1 <= limit <= MAX_CONCURRENT_TURNS && runtime.models == self.models && runtime.tools
                    == self.tools && runtime.limits@ == (LimitsView { concurrent_turns: limit, ..self.limits@ }),
                Err(error) => !(1 <= limit <= MAX_CONCURRENT_TURNS) && error@ == ErrorView::InvalidConfiguration(
                    "Turn concurrency limit must be 1-4096"@,
                ),
            },
    {
        proof {
            use_type_invariant(&self.limits);
        }
        if limit < 1 || limit > MAX_CONCURRENT_TURNS {
            return Err(invalid_configuration("Turn concurrency limit must be 1-4096"));
        }
        let limits = RuntimeLimits {
            max_concurrent_turns: limit,
            max_parallel_tool_calls: self.limits.max_parallel_tool_calls,
            max_model_attempts_per_step: self.limits.max_model_attempts_per_step,
            max_steps: self.limits.max_steps,
        };
        Ok(HarnessRuntime { models: self.models, tools: self.tools, limits })
    }

    /// Sets the maximum concurrently executing `ParallelSafe` calls from one
    /// same-response Tool batch.
    pub fn with_max_parallel_tool_calls(self, limit: usize) -> (result: Result<Self, HarnessError>)
        ensures
            match result {
                Ok(runtime) => 1 <= limit <= MAX_PARALLEL_TOOL_CALLS && runtime.models == self.models && runtime.tools
                    == self.tools && runtime.limits@ == (LimitsView { parallel_tool_calls: limit, ..self.limits@ }),
                Err(error) => !(1 <= limit <= MAX_PARALLEL_TOOL_CALLS) && error@ == ErrorView::InvalidConfiguration(
                    "parallel Tool limit must be 1-64"@,
                ),
            },
    {
        proof {
            use_type_invariant(&self.limits);
        }
        if limit < 1 || limit > MAX_PARALLEL_TOOL_CALLS {
            return Err(invalid_configuration("parallel Tool limit must be 1-64"));
        }
        let limits = RuntimeLimits {
            max_concurrent_turns: self.limits.max_concurrent_turns,
            max_parallel_tool_calls: limit,
            max_model_attempts_per_step: self.limits.max_model_attempts_per_step,
            max_steps: self.limits.max_steps,
        };
        Ok(HarnessRuntime { models: self.models, tools: self.tools, limits })
    }
}

/// A runtime runs 32 Turns at a time, four Tool calls of one batch at a time,
/// and takes 32 steps with sixteen Model calls each, unless it is told
/// otherwise.
pub proof fn law_runtimes_have_defaults()
    ensures
        default_limits().concurrent_turns == 32,
        default_limits().parallel_tool_calls == 4,
        default_limits().attempts_per_step == 16,
        default_limits().steps == 32,
        default_limits().supported(),
{
}

/// A runtime takes on each limit exactly where it is supported, and keeps
/// everything else that it was set up with.
pub proof fn law_limits_are_taken_on(
    runtime: HarnessRuntime,
    limit: usize,
    attempts: Result<HarnessRuntime, HarnessError>,
    turns: Result<HarnessRuntime, HarnessError>,
    calls: Result<HarnessRuntime, HarnessError>,
)
    requires
        call_ensures(HarnessRuntime::with_max_model_attempts_per_step, (runtime, limit), attempts),
        call_ensures(HarnessRuntime::with_turn_concurrency_limit, (runtime, limit), turns),
        call_ensures(HarnessRuntime::with_max_parallel_tool_calls, (runtime, limit), calls),
    ensures
        attempts is Ok <==> 1 <= limit <= 144,
        attempts matches Ok(changed) ==> changed.limits@ == (LimitsView { attempts_per_step: limit, ..runtime.limits@ })
            && changed.models == runtime.models && changed.tools == runtime.tools,
        turns is Ok <==> 1 <= limit <= 4096,
        turns matches Ok(changed) ==> changed.limits@ == (LimitsView { concurrent_turns: limit, ..runtime.limits@ })
            && changed.models == runtime.models && changed.tools == runtime.tools,
        calls is Ok <==> 1 <= limit <= 64,
        calls matches Ok(changed) ==> changed.limits@ == (LimitsView { parallel_tool_calls: limit, ..runtime.limits@ })
            && changed.models == runtime.models && changed.tools == runtime.tools,
{
}

/// A Model call may take, and a Model may cool, between a millisecond and a
/// day; only a route with a choice of Models has Models cool.
pub proof fn law_spans_of_a_route_are_taken_on(
    runtime: HarnessRuntime,
    span: Duration,
    timed: Result<HarnessRuntime, HarnessError>,
    cooled: Result<HarnessRuntime, HarnessError>,
)
    requires
        call_ensures(HarnessRuntime::with_model_attempt_timeout, (runtime, span), timed),
        call_ensures(HarnessRuntime::with_model_timeout_cooldown, (runtime, span), cooled),
    ensures
        timed is Ok <==> 1_000_000 <= span.nanos() <= 86_400_000_000_000,
        timed matches Ok(changed) ==> changed.models == (ModelRoute { attempt_timeout: Some(span), ..runtime.models })
            && changed.limits == runtime.limits && changed.tools == runtime.tools,
        cooled is Ok <==> runtime.models.entries@.len() >= 2 && 1_000_000 <= span.nanos() <= 86_400_000_000_000,
        cooled matches Ok(changed) ==> changed.models == (ModelRoute { timeout_cooldown: Some(span), ..runtime.models })
            && changed.limits == runtime.limits && changed.tools == runtime.tools,
{
}

/// A runtime is made of one to sixteen distinct registered Models. Where it has
/// a choice, a call may take thirty seconds; where it has none, a call may take
/// as long as the Turn.
pub proof fn law_runtimes_have_up_to_sixteen_models(
    models: ModelRegistry,
    model_ids: &[&str],
    tools: ToolRegistry,
    result: Result<HarnessRuntime, HarnessError>,
)
    requires
        call_ensures(HarnessRuntime::from_model_registry_failover, (&models, model_ids, tools), result),
    ensures
        result is Ok <==> {
            &&& 1 <= model_ids@.len() <= 16
            &&& forall|k: int| 0 <= k < model_ids@.len() ==> models@.contains_key(#[trigger] model_ids@[k]@)
            &&& forall|j: int, k: int| 0 <= j < k < model_ids@.len() ==> #[trigger] model_ids@[j]@ != #[trigger] model_ids@[k]@
        },
        result matches Ok(runtime) ==> {
            &&& runtime.models.entries@.len() == model_ids@.len()
            &&& runtime.tools == tools
            &&& runtime.models.retry_policy is None
            &&& runtime.models.timeout_cooldown is None
            &&& model_ids@.len() == 1 ==> runtime.models.attempt_timeout is None
            &&& model_ids@.len() > 1 ==> (runtime.models.attempt_timeout matches Some(timeout) && timeout.nanos()
                == 30_000_000_000)
        },
{
    law_routes_are_distinct_registered_models(models@, model_ids@, model_ids@.len() as int);
}

} // verus!
