//! What observers of a Runtime are told of each phase.

use vstd::prelude::*;

use crate::capability::{ModelResponse, ModelUsage};
use crate::error::{ExecutionPhase, HarnessError, ModelProviderFailureKind};
use crate::kernel::{ThreadId, TurnId};
use crate::runtime::validate::{observation_outcome, outcome_of, ObservationOutcome};

verus! {

/// One settled phase of a Turn, without any of its content.
pub struct PhaseObservation {
    /// Thread of the Turn.
    pub thread_id: ThreadId,
    /// Turn.
    pub turn_id: TurnId,
    /// Phase.
    pub phase: ExecutionPhase,
    /// Capability that was asked.
    pub capability: String,
    /// Time that the phase took.
    pub duration_micros: u64,
    /// How the phase ended.
    pub outcome: ObservationOutcome,
    /// Usage that a Model reported.
    pub model_usage: Option<ModelUsage>,
    /// Model that a Provider reported.
    pub provider_model: Option<String>,
    /// Request that a Provider reported.
    pub provider_request_id: Option<String>,
    /// Kind of a typed Provider failure.
    pub provider_failure_kind: Option<ModelProviderFailureKind>,
    /// Status of a typed Provider failure.
    pub provider_status_code: Option<u16>,
    /// Retry hint of a typed Provider failure.
    pub provider_retry_after_ms: Option<u64>,
    /// Number of earlier calls to the same Model.
    pub model_retry_index: Option<u8>,
    /// Provisional events that were not delivered.
    pub stream_events_dropped: u64,
}

impl PhaseObservation {
    /// Whether the observation is of this phase of a Turn.
    pub open spec fn is_of(
        self,
        thread_id: Seq<char>,
        turn_id: Seq<char>,
        phase: ExecutionPhase,
        capability: Seq<char>,
        duration_micros: u64,
        outcome: ObservationOutcome,
    ) -> bool {
        &&& self.thread_id@ == thread_id
        &&& self.turn_id@ == turn_id
        &&& self.phase == phase
        &&& self.capability@ == capability
        &&& self.duration_micros == duration_micros
        &&& self.outcome == outcome
    }

    /// Whether the observation holds nothing that a Model or a Provider said.
    pub open spec fn is_plain(self) -> bool {
        &&& self.model_usage is None
        &&& self.provider_model is None
        &&& self.provider_request_id is None
        &&& self.provider_failure_kind is None
        &&& self.provider_status_code is None
        &&& self.provider_retry_after_ms is None
        &&& self.model_retry_index is None
        &&& self.stream_events_dropped == 0
    }

    /// Whether the observation holds what a Model attempt reported: usage and
    /// Provider evidence of a response, or the metadata of a typed failure.
    pub open spec fn reports(self, result: Result<ModelResponse, HarnessError>) -> bool {
        match result {
            Ok(response) => {
                &&& self.model_usage == response.usage
                &&& self.provider_model == response.provider_model
                &&& self.provider_request_id == response.provider_request_id
                &&& self.provider_failure_kind is None
                &&& self.provider_status_code is None
                &&& self.provider_retry_after_ms is None
            },
            Err(error) => {
                &&& self.model_usage is None
                &&& self.provider_model is None
                &&& self.provider_request_id is None
                &&& match error {
                    HarnessError::ModelProvider(failure) => {
                        &&& self.provider_failure_kind == Some(failure@.kind)
                        &&& self.provider_status_code == failure@.http_status
                        &&& self.provider_retry_after_ms == failure@.retry_after_ms
                    },
                    _ => {
                        &&& self.provider_failure_kind is None
                        &&& self.provider_status_code is None
                        &&& self.provider_retry_after_ms is None
                    },
                }
            },
        }
    }
}

fn plain(
    thread_id: &ThreadId,
    turn_id: &TurnId,
    phase: ExecutionPhase,
    capability: &str,
    duration_micros: u64,
    outcome: ObservationOutcome,
) -> (observation: PhaseObservation)
    ensures
        observation.is_of(thread_id@, turn_id@, phase, capability@, duration_micros, outcome),
        observation.is_plain(),
{
    PhaseObservation {
        thread_id: thread_id.clone(),
        turn_id: turn_id.clone(),
        phase,
        capability: capability.to_owned(),
        duration_micros,
        outcome,
        model_usage: None,
        provider_model: None,
        provider_request_id: None,
        provider_failure_kind: None,
        provider_status_code: None,
        provider_retry_after_ms: None,
        model_retry_index: None,
        stream_events_dropped: 0,
    }
}

/// Observes a phase that is not a Model attempt.
pub fn phase_observation<T>(
    thread_id: &ThreadId,
    turn_id: &TurnId,
    phase: ExecutionPhase,
    capability: &str,
    duration_micros: u64,
    result: &Result<T, HarnessError>,
) -> (observation: PhaseObservation)
    ensures
        observation.is_of(thread_id@, turn_id@, phase, capability@, duration_micros, outcome_of(*result)),
        observation.is_plain(),
{
    plain(thread_id, turn_id, phase, capability, duration_micros, observation_outcome(result))
}

/// Observes a Model that was passed over while it cooled down.
pub fn skipped_observation(thread_id: &ThreadId, turn_id: &TurnId, model_id: &str) -> (observation: PhaseObservation)
    ensures
        observation.is_of(
            thread_id@,
            turn_id@,
            ExecutionPhase::Model,
            model_id@,
            0,
            ObservationOutcome::Skipped,
        ),
        observation.is_plain(),
{
    plain(thread_id, turn_id, ExecutionPhase::Model, model_id, 0, ObservationOutcome::Skipped)
}

fn kept(text: &Option<String>) -> (copy: Option<String>)
    ensures
        copy == *text,
{
    match text {
        Some(text) => Some(text.clone()),
        None => None,
    }
}

/// Observes one Model attempt.
pub fn model_observation(
    thread_id: &ThreadId,
    turn_id: &TurnId,
    model_id: &str,
    duration_micros: u64,
    retry_index: u8,
    stream_events_dropped: u64,
    result: &Result<ModelResponse, HarnessError>,
) -> (observation: PhaseObservation)
    ensures
        observation.is_of(thread_id@, turn_id@, ExecutionPhase::Model, model_id@, duration_micros, outcome_of(*result)),
        observation.reports(*result),
        observation.model_retry_index == Some(retry_index),
        observation.stream_events_dropped == stream_events_dropped,
{
    let mut observation = plain(
        thread_id,
        turn_id,
        ExecutionPhase::Model,
        model_id,
        duration_micros,
        observation_outcome(result),
    );
    observation.model_retry_index = Some(retry_index);
    observation.stream_events_dropped = stream_events_dropped;
    match result {
        Ok(response) => {
            observation.model_usage = response.usage;
            observation.provider_model = kept(&response.provider_model);
            observation.provider_request_id = kept(&response.provider_request_id);
        },
        Err(HarnessError::ModelProvider(failure)) => {
            observation.provider_failure_kind = Some(failure.kind());
            observation.provider_status_code = failure.http_status();
            observation.provider_retry_after_ms = failure.retry_after_ms();
        },
        Err(_) => {},
    }
    observation
}

/// Returns a time in whole microseconds, within the range of its type.
pub fn elapsed_micros(micros: u128) -> (bounded: u64)
    ensures
        bounded == if micros <= u64::MAX {
            micros as int
        } else {
            u64::MAX as int
        },
{
    if micros <= u64::MAX as u128 {
        micros as u64
    } else {
        u64::MAX
    }
}

/// Observers are told of an answer what the Provider said of it, of a typed
/// Provider failure its kind, status and hint, and nothing of either otherwise.
pub proof fn law_observations_tell_what_the_provider_said(observation: PhaseObservation, result: Result<ModelResponse, HarnessError>)
    requires
        observation.reports(result),
    ensures
        observation.model_usage == (match result {
            Ok(response) => response.usage,
            Err(_) => None,
        }),
        observation.provider_model == (match result {
            Ok(response) => response.provider_model,
            Err(_) => None,
        }),
        observation.provider_request_id == (match result {
            Ok(response) => response.provider_request_id,
            Err(_) => None,
        }),
        match result {
            Err(HarnessError::ModelProvider(failure)) => observation.provider_failure_kind == Some(failure@.kind)
                && observation.provider_status_code == failure@.http_status && observation.provider_retry_after_ms
                == failure@.retry_after_ms,
            _ => observation.provider_failure_kind is None && observation.provider_status_code is None
                && observation.provider_retry_after_ms is None,
        },
{
}

} // verus!
