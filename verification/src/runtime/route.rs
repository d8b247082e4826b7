//! Ordered Model routes, retry delays and timeout cooldowns.

use vstd::arithmetic::power2::pow2;
use vstd::prelude::*;
use vstd::utf8::encode_utf8;

use crate::capability::{ModelRegistry, RegisteredModel};
use crate::error::{
    settles, ErrorView, ExecutionPhase, HarnessError, ModelProviderFailureKind, ProviderFailureView,
};
use crate::kernel::{invalid_model_id, model_id_is_valid, validate_model_id, CapabilityOrigin, OriginView};
use crate::table::{lists_keys, Table};
use crate::text::{join2, same_text};
use crate::time::{after_span, Duration, Moment, NANOS_PER_MILLI};

verus! {

/// Most Models of one route.
pub const MAX_MODEL_ROUTE_ENTRIES: usize = 16;

/// Maximum additional calls permitted for one configured Model candidate.
pub const MAX_MODEL_RETRIES: u8 = 8;

/// Maximum configured fallback delay between calls to the same Model.
pub const MAX_MODEL_RETRY_DELAY_MS: u64 = 60_000;

/// Longest deadline of one Model attempt, in milliseconds.
pub const MAX_MODEL_ATTEMPT_TIMEOUT_MS: u64 = 86_400_000;

/// Longest timeout cooldown of one Model, in milliseconds.
pub const MAX_MODEL_TIMEOUT_COOLDOWN_MS: u64 = 86_400_000;

/// Deadline of one Model attempt on a route of several Models, in milliseconds.
pub const DEFAULT_MODEL_ATTEMPT_TIMEOUT_MS: u64 = 30_000;

/// Explicit bounded policy for retrying one Model before Route failover.
#[derive(Clone, Copy, Debug, PartialEq, Eq, Structural)]
pub struct ModelRetryPolicy {
    max_retries: u8,
    initial_delay: Duration,
    max_delay: Duration,
}

/// Whether a retry delay is between one millisecond and the longest delay.
pub open spec fn delay_is_supported(delay: Duration) -> bool {
    NANOS_PER_MILLI <= delay.nanos() <= MAX_MODEL_RETRY_DELAY_MS * NANOS_PER_MILLI
}

impl ModelRetryPolicy {
    #[verifier::type_invariant]
    spec fn bounded(self) -> bool {
        &&& 1 <= self.max_retries <= MAX_MODEL_RETRIES
        &&& delay_is_supported(self.initial_delay)
        &&& delay_is_supported(self.max_delay)
        &&& self.initial_delay.nanos() <= self.max_delay.nanos()
    }

    /// Calls permitted after the first one.
    pub closed spec fn retries(self) -> u8 {
        self.max_retries
    }

    /// First backoff ceiling.
    pub closed spec fn first_ceiling(self) -> Duration {
        self.initial_delay
    }

    /// Longest delay.
    pub closed spec fn longest(self) -> Duration {
        self.max_delay
    }
}

/// Outcome of creating a retry policy.
pub open spec fn retry_policy_check(max_retries: u8, initial_delay: Duration, max_delay: Duration) -> Result<(), ErrorView> {
    if !(1 <= max_retries <= MAX_MODEL_RETRIES) {
        Err(ErrorView::InvalidConfiguration("Model retries must be 1-8"@))
    } else if !delay_is_supported(initial_delay) || !delay_is_supported(max_delay) {
        Err(ErrorView::InvalidConfiguration("Model retry delays must be 1-60000 milliseconds"@))
    } else if initial_delay.nanos() > max_delay.nanos() {
        Err(ErrorView::InvalidConfiguration("Model initial retry delay cannot exceed its maximum delay"@))
    } else {
        Ok(())
    }
}

fn supported_delay(delay: Duration) -> (result: bool)
    ensures
        result == delay_is_supported(delay),
{
    let nanos: u128 = delay.as_nanos();
    NANOS_PER_MILLI <= nanos && nanos <= MAX_MODEL_RETRY_DELAY_MS as u128 * NANOS_PER_MILLI
}

pub(crate) fn invalid_configuration(message: &str) -> (error: HarnessError)
    ensures
        error@ == ErrorView::InvalidConfiguration(message@),
{
    HarnessError::InvalidConfiguration(message.to_owned())
}

impl ModelRetryPolicy {
    /// Creates a policy with bounded equal-jitter exponential fallback delays.
    pub fn new(max_retries: u8, initial_delay: Duration, max_delay: Duration) -> (result: Result<Self, HarnessError>)
        ensures
            match result {
                Ok(policy) => retry_policy_check(max_retries, initial_delay, max_delay) is Ok && policy.retries()
                    == max_retries && policy.first_ceiling() == initial_delay && policy.longest() == max_delay,
                Err(error) => retry_policy_check(max_retries, initial_delay, max_delay) == Err::<(), ErrorView>(error@),
            },
    {
        if !(1 <= max_retries && max_retries <= MAX_MODEL_RETRIES) {
            return Err(invalid_configuration("Model retries must be 1-8"));
        }
        if !supported_delay(initial_delay) || !supported_delay(max_delay) {
            return Err(invalid_configuration("Model retry delays must be 1-60000 milliseconds"));
        }
        if initial_delay.as_nanos() > max_delay.as_nanos() {
            return Err(invalid_configuration("Model initial retry delay cannot exceed its maximum delay"));
        }
        Ok(ModelRetryPolicy { max_retries, initial_delay, max_delay })
    }

    /// Returns the maximum number of calls after the initial attempt.
    pub fn max_retries(&self) -> (retries: u8)
        ensures
            retries == self.retries(),
            1 <= retries <= MAX_MODEL_RETRIES,
    {
        proof {
            use_type_invariant(self);
        }
        self.max_retries
    }

    /// Returns the first fallback backoff ceiling.
    pub fn initial_delay(&self) -> (delay: Duration)
        ensures
            delay == self.first_ceiling(),
            delay_is_supported(delay),
            delay.nanos() <= self.longest().nanos(),
    {
        proof {
            use_type_invariant(self);
        }
        self.initial_delay
    }

    /// Returns the maximum accepted or computed retry delay.
    pub fn max_delay(&self) -> (delay: Duration)
        ensures
            delay == self.longest(),
            delay_is_supported(delay),
    {
        proof {
            use_type_invariant(self);
        }
        self.max_delay
    }
}

/// First state of the retry hash.
pub const RETRY_HASH_BASIS: u64 = 0xcbf2_9ce4_8422_2325;

/// Multiplier of the retry hash.
pub const RETRY_HASH_PRIME: u64 = 0x0000_0100_0000_01b3;

/// Effect of one byte on the retry hash.
pub open spec fn hash_byte(hash: u64, byte: u64) -> u64 {
    (hash ^ byte).wrapping_mul(RETRY_HASH_PRIME)
}

/// Effect of a byte string on the retry hash.
pub open spec fn hash_bytes(hash: u64, bytes: Seq<u8>) -> u64
    decreases bytes.len(),
{
    if bytes.len() == 0 {
        hash
    } else {
        hash_byte(hash_bytes(hash, bytes.drop_last()), bytes.last() as u64)
    }
}

/// Effect of a text and its end mark on the retry hash.
pub open spec fn hash_text(hash: u64, text: Seq<char>) -> u64 {
    hash_byte(hash_bytes(hash, encode_utf8(text)), 0xff)
}

/// Stable hash of one retry of one Model in one Turn.
pub open spec fn retry_hash(thread_id: Seq<char>, turn_id: Seq<char>, model_id: Seq<char>, retry: u8) -> u64 {
    hash_byte(
        hash_text(hash_text(hash_text(RETRY_HASH_BASIS, thread_id), turn_id), model_id),
        retry as u64,
    )
}

fn mix_byte(hash: u64, byte: u64) -> (result: u64)
    ensures
        result == hash_byte(hash, byte),
{
    (hash ^ byte).wrapping_mul(RETRY_HASH_PRIME)
}

fn mix_text(hash: u64, text: &str) -> (result: u64)
    ensures
        result == hash_text(hash, text@),
{
    let bytes = text.as_bytes();
    let mut mixed: u64 = hash;
    let mut i: usize = 0;
    while i < bytes.len()
        invariant
            i <= bytes@.len(),
            mixed == hash_bytes(hash, bytes@.take(i as int)),
        decreases bytes@.len() - i,
    {
        assert(bytes@.take(i + 1).drop_last() =~= bytes@.take(i as int));
        mixed = mix_byte(mixed, bytes[i] as u64);
        i += 1;
    }
    assert(bytes@.take(i as int) =~= bytes@);
    mix_byte(mixed, 0xff)
}

/// Hashes one retry of one Model in one Turn.
pub fn stable_retry_hash(thread_id: &str, turn_id: &str, model_id: &str, retry: u8) -> (hash: u64)
    ensures
        hash == retry_hash(thread_id@, turn_id@, model_id@, retry),
{
    let hash: u64 = mix_text(mix_text(mix_text(RETRY_HASH_BASIS, thread_id), turn_id), model_id);
    mix_byte(hash, retry as u64)
}

/// Model identity as it was when the route was made.
#[derive(Debug, PartialEq, Eq)]
pub enum FrozenModelIdentity {
    /// Portable identity.
    Valid(String),
    /// The Model reported an identity that is not portable.
    Invalid,
    /// The Model panicked when it was asked.
    Panicked,
}

impl FrozenModelIdentity {
    /// The identity, or the error of using the Model.
    pub open spec fn identity(self) -> Result<Seq<char>, ErrorView> {
        match self {
            FrozenModelIdentity::Valid(id) => Ok(id@),
            FrozenModelIdentity::Invalid => Err(invalid_model_id()),
            FrozenModelIdentity::Panicked => Err(ErrorView::CapabilityPanicked(ExecutionPhase::Model)),
        }
    }

    /// Keeps what a Model reported; nothing stands for a panic.
    pub fn capture(reported: Option<String>) -> (identity: Self)
        ensures
            match reported {
                Some(id) => if model_id_is_valid(id@) {
                    identity == FrozenModelIdentity::Valid(id)
                } else {
                    identity == FrozenModelIdentity::Invalid
                },
                None => identity == FrozenModelIdentity::Panicked,
            },
    {
        match reported {
            Some(id) => if validate_model_id(id.as_str()).is_ok() {
                FrozenModelIdentity::Valid(id)
            } else {
                FrozenModelIdentity::Invalid
            },
            None => FrozenModelIdentity::Panicked,
        }
    }

    /// Returns the identity, or the error of using the Model.
    pub fn get(&self) -> (result: Result<&str, HarnessError>)
        ensures
            match result {
                Ok(id) => self.identity() == Ok::<Seq<char>, ErrorView>(id@),
                Err(error) => self.identity() == Err::<Seq<char>, ErrorView>(error@),
            },
    {
        match self {
            FrozenModelIdentity::Valid(id) => Ok(id.as_str()),
            FrozenModelIdentity::Invalid => Err(
                HarnessError::InvalidCapability("model identity does not satisfy the portable contract".to_owned()),
            ),
            FrozenModelIdentity::Panicked => Err(HarnessError::CapabilityPanicked { phase: ExecutionPhase::Model }),
        }
    }
}

/// One Model of a route.
#[derive(Debug, PartialEq, Eq)]
pub struct RuntimeModel {
    /// Identity of the Model.
    pub identity: FrozenModelIdentity,
    /// Provenance of the Model.
    pub origin: CapabilityOrigin,
}

/// Whether a route entry is the Model with this identity and provenance.
pub open spec fn is_model(entry: RuntimeModel, model_id: Seq<char>, origin: OriginView) -> bool {
    entry.identity matches FrozenModelIdentity::Valid(id) && id@ == model_id && entry.origin@ == origin
}

impl RuntimeModel {
    /// Decides whether the entry is a Model with this identity and provenance.
    pub fn is(&self, model_id: &str, origin: &CapabilityOrigin) -> (result: bool)
        ensures
            result == is_model(*self, model_id@, origin@),
    {
        match &self.identity {
            FrozenModelIdentity::Valid(id) => same_text(id.as_str(), model_id) && self.origin.same(origin),
            _ => false,
        }
    }
}

/// Models in the order in which they are tried, and how long each may take.
pub struct ModelRoute {
    /// Models in order.
    pub entries: Vec<RuntimeModel>,
    /// Deadline of one attempt.
    pub attempt_timeout: Option<Duration>,
    /// Retries of one Model.
    pub retry_policy: Option<ModelRetryPolicy>,
    /// How long a Model is deprioritized after a timeout.
    pub timeout_cooldown: Option<Duration>,
    /// Until when each Model is deprioritized.
    pub timeout_cooldowns: Table<Moment>,
}

/// Error reported for a route with too few or too many Models.
pub open spec fn route_length_error() -> ErrorView {
    ErrorView::InvalidConfiguration("Model failover route must contain 1-16 identities"@)
}

/// Outcome of making a route from the first `n` identities.
pub open spec fn route_check(models: Map<Seq<char>, RegisteredModel>, ids: Seq<&str>, n: int) -> Result<(), ErrorView>
    decreases n,
{
    if n <= 0 {
        Ok(())
    } else {
        match route_check(models, ids, n - 1) {
            Err(fault) => Err(fault),
            Ok(()) => if exists|k: int| 0 <= k < n - 1 && #[trigger] ids[k]@ == ids[n - 1]@ {
                Err(ErrorView::InvalidConfiguration("Model failover route contains duplicate identity "@ + ids[n - 1]@))
            } else if !models.contains_key(ids[n - 1]@) {
                Err(ErrorView::UnknownModel(ids[n - 1]@))
            } else {
                Ok(())
            },
        }
    }
}

proof fn lemma_route_prefix(models: Map<Seq<char>, RegisteredModel>, ids: Seq<&str>, n: int, m: int)
    requires
        0 <= n <= m,
        route_check(models, ids, n) is Err,
    ensures
        route_check(models, ids, m) == route_check(models, ids, n),
    decreases m - n,
{
    if n < m {
        lemma_route_prefix(models, ids, n, m - 1);
    }
}

/// Whether route entries are the registered Models with these identities.
pub open spec fn entries_match(entries: Seq<RuntimeModel>, models: Map<Seq<char>, RegisteredModel>, ids: Seq<&str>) -> bool {
    &&& entries.len() == ids.len()
    &&& forall|k: int|
        0 <= k < ids.len() ==> #[trigger] entries[k] == (RuntimeModel {
            identity: FrozenModelIdentity::Valid(models[ids[k]@].id),
            origin: models[ids[k]@].origin,
        })
}

/// First fault among the identities of a route.
pub open spec fn identities_check(entries: Seq<RuntimeModel>) -> Result<(), ErrorView>
    decreases entries.len(),
{
    if entries.len() == 0 {
        Ok(())
    } else {
        match identities_check(entries.drop_last()) {
            Err(fault) => Err(fault),
            Ok(()) => match entries.last().identity.identity() {
                Err(fault) => Err(fault),
                Ok(_) => Ok(()),
            },
        }
    }
}

proof fn lemma_identities_prefix(entries: Seq<RuntimeModel>, n: int)
    requires
        0 <= n <= entries.len(),
        identities_check(entries.take(n)) is Err,
    ensures
        identities_check(entries) == identities_check(entries.take(n)),
    decreases entries.len() - n,
{
    if n == entries.len() {
        assert(entries.take(n) =~= entries);
    } else {
        assert(entries.take(n + 1).drop_last() =~= entries.take(n));
        lemma_identities_prefix(entries, n + 1);
    }
}

/// Outcome of checking a whole route before a Turn.
pub open spec fn route_is_usable(entries: Seq<RuntimeModel>) -> Result<(), ErrorView> {
    if entries.len() == 0 || entries.len() > MAX_MODEL_ROUTE_ENTRIES {
        Err(route_length_error())
    } else {
        identities_check(entries)
    }
}

/// Deadline of one attempt, and whether it is the attempt's own rather than
/// that of the Turn: the earlier of the two, the Turn's where they coincide.
pub open spec fn attempt_deadline_at(timeout: Option<Duration>, turn_deadline: Option<Moment>, now: Moment) -> Result<
    (Option<Moment>, bool),
    ErrorView,
> {
    match timeout {
        None => Ok((turn_deadline, false)),
        Some(timeout) => match after_span(now, timeout) {
            None => Err(ErrorView::InvalidConfiguration("Model attempt timeout exceeds the runtime clock range"@)),
            Some(own) => if turn_deadline is Some && turn_deadline->0.nanos <= own.nanos {
                Ok((turn_deadline, false))
            } else {
                Ok((Some(own), true))
            },
        },
    }
}

/// Whether a Provider failure is worth another call to the same Model.
pub open spec fn is_retryable(kind: ModelProviderFailureKind) -> bool {
    kind is RateLimited || kind is Overloaded || kind is Server || kind is Transport
}

/// Largest delay before a retry, in milliseconds: the first ceiling doubled
/// with every retry, up to the longest delay.
pub open spec fn backoff_ceiling_ms(policy: ModelRetryPolicy, retry: u8) -> nat {
    let doubled = policy.first_ceiling().nanos() * pow2((retry - 1) as nat);
    let longest = policy.longest().nanos();
    (if doubled <= longest {
        doubled
    } else {
        longest
    }) / NANOS_PER_MILLI as nat
}

/// Delay before a retry, in milliseconds: the upper half of the ceiling, the
/// place in it taken from the retry hash.
pub open spec fn backoff_ms(ceiling: nat, hash: u64) -> nat {
    let floor = ((ceiling + 1) / 2) as nat;
    floor + hash as nat % ((ceiling - floor + 1) as nat)
}

/// Delay before the next call to a Model, in nanoseconds, where there is one.
pub open spec fn delay_before_retry(
    policy: Option<ModelRetryPolicy>,
    error: ErrorView,
    next_retry: u8,
    thread_id: Seq<char>,
    turn_id: Seq<char>,
    model_id: Seq<char>,
) -> Option<nat> {
    match (policy, error) {
        (Some(policy), ErrorView::ModelProvider(failure)) => if next_retry == 0 || next_retry > policy.retries()
            || !is_retryable(failure.kind) {
            None
        } else {
            match failure.retry_after_ms {
                Some(delay) => if delay * NANOS_PER_MILLI <= policy.longest().nanos() {
                    Some((delay * NANOS_PER_MILLI) as nat)
                } else {
                    None
                },
                None => Some(
                    backoff_ms(
                        backoff_ceiling_ms(policy, next_retry),
                        retry_hash(thread_id, turn_id, model_id, next_retry),
                    ) * NANOS_PER_MILLI as nat,
                ),
            }
        },
        _ => None,
    }
}

/// Whether a Model is deprioritized at a point of time.
pub open spec fn is_cooling(cooldowns: Map<Seq<char>, Moment>, model_id: Seq<char>, now: Moment) -> bool {
    cooldowns.contains_key(model_id) && cooldowns[model_id].nanos > now.nanos
}

/// Cooldowns that have not expired at a point of time.
pub open spec fn live_cooldowns(cooldowns: Map<Seq<char>, Moment>, now: Moment) -> Map<Seq<char>, Moment> {
    cooldowns.restrict(Set::new(|model_id: Seq<char>| is_cooling(cooldowns, model_id, now)))
}

/// Cooldowns that remain after candidates were deprioritized.
pub open spec fn cooldowns_after_partition(
    cooldown: Option<Duration>,
    cooldowns: Map<Seq<char>, Moment>,
    now: Moment,
    candidates: Seq<usize>,
) -> Map<Seq<char>, Moment> {
    if cooldown is None || candidates.len() < 2 {
        cooldowns
    } else {
        live_cooldowns(cooldowns, now)
    }
}

fn drop_expired(cooldowns: &mut Table<Moment>, now: Moment)
    ensures
        final(cooldowns)@ == live_cooldowns(old(cooldowns)@, now),
{
    let ghost all = cooldowns@;
    let keys = cooldowns.keys();
    let mut k: usize = 0;
    while k < keys.len()
        invariant
            k <= keys@.len(),
            lists_keys(keys@, all),
            forall|id: Seq<char>| #[trigger]
                cooldowns@.contains_key(id) <==> all.contains_key(id) && (is_cooling(all, id, now) || exists|j: int|
                    k <= j < keys@.len() && #[trigger] keys@[j]@ == id),
            forall|id: Seq<char>| #[trigger] cooldowns@.contains_key(id) ==> cooldowns@[id] == all[id],
        decreases keys@.len() - k,
    {
        let id = keys[k].as_str();
        let expired = match cooldowns.get(id) {
            Some(until) => until.nanos <= now.nanos,
            None => false,
        };
        if expired {
            let _ = cooldowns.remove(id);
        }
        k += 1;
    }
    assert(cooldowns@ =~= live_cooldowns(all, now));
}

/// Whether the route entry at an index is deprioritized.
pub open spec fn entry_cools(entries: Seq<RuntimeModel>, cooldowns: Map<Seq<char>, Moment>, now: Moment, index: usize) -> bool {
    entries[index as int].identity matches FrozenModelIdentity::Valid(id) && is_cooling(cooldowns, id@, now)
}

/// First fault among the identities of the candidates.
pub open spec fn candidates_check(entries: Seq<RuntimeModel>, candidates: Seq<usize>) -> Result<(), ErrorView>
    decreases candidates.len(),
{
    if candidates.len() == 0 {
        Ok(())
    } else {
        match candidates_check(entries, candidates.drop_last()) {
            Err(fault) => Err(fault),
            Ok(()) => match entries[candidates.last() as int].identity.identity() {
                Err(fault) => Err(fault),
                Ok(_) => Ok(()),
            },
        }
    }
}

proof fn lemma_candidates_prefix(entries: Seq<RuntimeModel>, candidates: Seq<usize>, n: int)
    requires
        0 <= n <= candidates.len(),
        candidates_check(entries, candidates.take(n)) is Err,
    ensures
        candidates_check(entries, candidates) == candidates_check(entries, candidates.take(n)),
    decreases candidates.len() - n,
{
    if n == candidates.len() {
        assert(candidates.take(n) =~= candidates);
    } else {
        assert(candidates.take(n + 1).drop_last() =~= candidates.take(n));
        lemma_candidates_prefix(entries, candidates, n + 1);
    }
}

/// Candidates that are tried first and candidates that are tried last. Where
/// every candidate is deprioritized, none is.
pub open spec fn cooldown_split(
    entries: Seq<RuntimeModel>,
    cooldowns: Map<Seq<char>, Moment>,
    now: Moment,
    candidates: Seq<usize>,
) -> (Seq<usize>, Seq<usize>) {
    let available = candidates.filter(|index: usize| !entry_cools(entries, cooldowns, now, index));
    let cooling = candidates.filter(|index: usize| entry_cools(entries, cooldowns, now, index));
    if available.len() == 0 {
        (candidates, Seq::empty())
    } else {
        (available, cooling)
    }
}

/// Outcome of deprioritizing candidates.
pub open spec fn cooldown_partition(
    entries: Seq<RuntimeModel>,
    cooldown: Option<Duration>,
    cooldowns: Map<Seq<char>, Moment>,
    now: Moment,
    candidates: Seq<usize>,
) -> Result<(Seq<usize>, Seq<usize>), ErrorView> {
    if cooldown is None || candidates.len() < 2 {
        Ok((candidates, Seq::empty()))
    } else {
        match candidates_check(entries, candidates) {
            Err(fault) => Err(fault),
            Ok(()) => Ok(cooldown_split(entries, cooldowns, now, candidates)),
        }
    }
}

impl ModelRoute {
    /// Makes a route of one built-in Model.
    pub fn built_in(identity: FrozenModelIdentity) -> (route: Self)
        ensures
            route.entries@ == seq![RuntimeModel { identity, origin: CapabilityOrigin::BuiltIn }],
            route.attempt_timeout is None,
            route.retry_policy is None,
            route.timeout_cooldown is None,
            route.timeout_cooldowns@ == Map::<Seq<char>, Moment>::empty(),
    {
        let mut entries: Vec<RuntimeModel> = Vec::new();
        entries.push(RuntimeModel { identity, origin: CapabilityOrigin::BuiltIn });
        assert(entries@ =~= seq![RuntimeModel { identity, origin: CapabilityOrigin::BuiltIn }]);
        ModelRoute {
            entries,
            attempt_timeout: None,
            retry_policy: None,
            timeout_cooldown: None,
            timeout_cooldowns: Table::new(),
        }
    }

    /// Makes a route of distinct registered Models, in the given order.
    pub fn from_registry(models: &ModelRegistry, model_ids: &[&str]) -> (result: Result<Self, HarnessError>)
        ensures
            match result {
                Ok(route) => 1 <= model_ids@.len() <= MAX_MODEL_ROUTE_ENTRIES && route_check(
                    models@,
                    model_ids@,
                    model_ids@.len() as int,
                ) is Ok && entries_match(route.entries@, models@, model_ids@) && route.retry_policy is None
                    && route.timeout_cooldown is None && route.timeout_cooldowns@ == Map::<Seq<char>, Moment>::empty()
                    && if model_ids@.len() > 1 {
                    route.attempt_timeout matches Some(timeout) && timeout.nanos() == DEFAULT_MODEL_ATTEMPT_TIMEOUT_MS
                        * NANOS_PER_MILLI
                } else {
                    route.attempt_timeout is None
                },
                Err(error) => if model_ids@.len() == 0 || model_ids@.len() > MAX_MODEL_ROUTE_ENTRIES {
                    error@ == route_length_error()
                } else {
                    route_check(models@, model_ids@, model_ids@.len() as int) == Err::<(), ErrorView>(error@)
                },
            },
    {
        if model_ids.len() == 0 || model_ids.len() > MAX_MODEL_ROUTE_ENTRIES {
            return Err(invalid_configuration("Model failover route must contain 1-16 identities"));
        }
        let mut entries: Vec<RuntimeModel> = Vec::new();
        let mut n: usize = 0;
        while n < model_ids.len()
            invariant
                n <= model_ids@.len(),
                1 <= model_ids@.len() <= MAX_MODEL_ROUTE_ENTRIES,
                route_check(models@, model_ids@, n as int) is Ok,
                entries@.len() == n,
                forall|k: int|
                    0 <= k < n ==> #[trigger] entries@[k] == (RuntimeModel {
                        identity: FrozenModelIdentity::Valid(models@[model_ids@[k]@].id),
                        origin: models@[model_ids@[k]@].origin,
                    }),
            decreases model_ids@.len() - n,
        {
            let id: &str = model_ids[n];
            let mut k: usize = 0;
            while k < n
                invariant
                    k <= n < model_ids@.len(),
                    id@ == model_ids@[n as int]@,
                    1 <= model_ids@.len() <= MAX_MODEL_ROUTE_ENTRIES,
                    route_check(models@, model_ids@, n as int) is Ok,
                    forall|j: int| 0 <= j < k ==> #[trigger] model_ids@[j]@ != id@,
                decreases n - k,
            {
                if same_text(model_ids[k], id) {
                    proof {
                        assert(model_ids@[k as int]@ == model_ids@[n + 1 - 1]@);
                        lemma_route_prefix(models@, model_ids@, n + 1, model_ids@.len() as int);
                    }
                    return Err(
                        HarnessError::InvalidConfiguration(
                            join2("Model failover route contains duplicate identity ", id),
                        ),
                    );
                }
                k += 1;
            }
            let registered = match models.get(id) {
                Some(registered) => registered,
                None => {
                    proof {
                        assert(route_check(models@, model_ids@, n + 1) == Err::<(), ErrorView>(
                            ErrorView::UnknownModel(id@),
                        ));
                        lemma_route_prefix(models@, model_ids@, n + 1, model_ids@.len() as int);
                    }
                    return Err(HarnessError::UnknownModel(id.to_owned()));
                },
            };
            entries.push(
                RuntimeModel {
                    identity: FrozenModelIdentity::Valid(registered.id.clone()),
                    origin: registered.origin.clone(),
                },
            );
            n += 1;
        }
        Ok(
            ModelRoute {
                entries,
                attempt_timeout: if model_ids.len() > 1 {
                    Some(Duration::from_millis(DEFAULT_MODEL_ATTEMPT_TIMEOUT_MS))
                } else {
                    None
                },
                retry_policy: None,
                timeout_cooldown: None,
                timeout_cooldowns: Table::new(),
            },
        )
    }

    /// Checks the route before a Turn.
    pub fn validate(&self) -> (result: Result<(), HarnessError>)
        ensures
            settles(result, route_is_usable(self.entries@)),
    {
        if self.entries.len() == 0 || self.entries.len() > MAX_MODEL_ROUTE_ENTRIES {
            return Err(invalid_configuration("Model failover route must contain 1-16 identities"));
        }
        let mut n: usize = 0;
        while n < self.entries.len()
            invariant
                n <= self.entries@.len(),
                1 <= self.entries@.len() <= MAX_MODEL_ROUTE_ENTRIES,
                identities_check(self.entries@.take(n as int)) is Ok,
            decreases self.entries@.len() - n,
        {
            proof {
                assert(self.entries@.take(n + 1).drop_last() =~= self.entries@.take(n as int));
            }
            if let Err(error) = self.entries[n].identity.get() {
                proof {
                    lemma_identities_prefix(self.entries@, n + 1);
                }
                return Err(error);
            }
            n += 1;
        }
        assert(self.entries@.take(n as int) =~= self.entries@);
        Ok(())
    }

    /// Decides whether the route holds a Model.
    pub fn contains(&self, model_id: &str, origin: &CapabilityOrigin) -> (result: bool)
        ensures
            result == exists|k: int| 0 <= k < self.entries@.len() && is_model(#[trigger] self.entries@[k], model_id@, origin@),
    {
        let mut n: usize = 0;
        while n < self.entries.len()
            invariant
                n <= self.entries@.len(),
                forall|k: int| 0 <= k < n ==> !is_model(#[trigger] self.entries@[k], model_id@, origin@),
            decreases self.entries@.len() - n,
        {
            if self.entries[n].is(model_id, origin) {
                return true;
            }
            n += 1;
        }
        false
    }

    /// Finds the deadline of an attempt that begins now.
    pub fn attempt_deadline(&self, turn_deadline: Option<Moment>, now: Moment) -> (result: Result<
        (Option<Moment>, bool),
        HarnessError,
    >)
        ensures
            settles(result, attempt_deadline_at(self.attempt_timeout, turn_deadline, now)),
    {
        let timeout = match self.attempt_timeout {
            Some(timeout) => timeout,
            None => {
                return Ok((turn_deadline, false));
            },
        };
        let own = match now.checked_add(timeout) {
            Some(own) => own,
            None => {
                return Err(invalid_configuration("Model attempt timeout exceeds the runtime clock range"));
            },
        };
        match turn_deadline {
            Some(deadline) => if deadline.nanos <= own.nanos {
                Ok((turn_deadline, false))
            } else {
                Ok((Some(own), true))
            },
            None => Ok((Some(own), true)),
        }
    }

    /// Finds the delay before the next call to a Model, where there is one.
    pub fn retry_delay(
        &self,
        error: &HarnessError,
        next_retry: u8,
        thread_id: &str,
        turn_id: &str,
        model_id: &str,
    ) -> (delay: Option<Duration>)
        ensures
            match delay {
                Some(delay) => delay_before_retry(
                    self.retry_policy,
                    error@,
                    next_retry,
                    thread_id@,
                    turn_id@,
                    model_id@,
                ) == Some(delay.nanos()),
                None => delay_before_retry(
                    self.retry_policy,
                    error@,
                    next_retry,
                    thread_id@,
                    turn_id@,
                    model_id@,
                ) is None,
            },
    {
        let policy = match self.retry_policy {
            Some(policy) => policy,
            None => {
                return None;
            },
        };
        if next_retry == 0 || next_retry > policy.max_retries() {
            return None;
        }
        let failure = match error {
            HarnessError::ModelProvider(failure) => failure,
            _ => {
                return None;
            },
        };
        match failure.kind() {
            ModelProviderFailureKind::RateLimited | ModelProviderFailureKind::Overloaded | ModelProviderFailureKind::Server
            | ModelProviderFailureKind::Transport => {},
            _ => {
                return None;
            },
        }
        if let Some(delay_ms) = failure.retry_after_ms() {
            let delay = Duration::from_millis(delay_ms);
            return if delay.as_nanos() <= policy.max_delay().as_nanos() {
                Some(delay)
            } else {
                None
            };
        }
        let ceiling_ms: u64 = ceiling_before_retry(&policy, next_retry);
        let floor_ms: u64 = (ceiling_ms + 1) / 2;
        let width: u64 = ceiling_ms - floor_ms + 1;
        let jitter: u64 = stable_retry_hash(thread_id, turn_id, model_id, next_retry) % width;
        Some(Duration::from_millis(floor_ms + jitter))
    }

    /// Splits candidates into those tried first and those tried last.
    pub fn partition_timeout_cooldown(&mut self, candidates: Vec<usize>, now: Moment) -> (result: Result<
        (Vec<usize>, Vec<usize>),
        HarnessError,
    >)
        requires
            forall|k: int| 0 <= k < candidates@.len() ==> #[trigger] candidates@[k] < old(self).entries@.len(),
        ensures
            final(self).entries == old(self).entries,
            final(self).attempt_timeout == old(self).attempt_timeout,
            final(self).retry_policy == old(self).retry_policy,
            final(self).timeout_cooldown == old(self).timeout_cooldown,
            final(self).timeout_cooldowns@ == cooldowns_after_partition(
                old(self).timeout_cooldown,
                old(self).timeout_cooldowns@,
                now,
                candidates@,
            ),
            match result {
                Ok((available, cooling)) => cooldown_partition(
                    old(self).entries@,
                    old(self).timeout_cooldown,
                    old(self).timeout_cooldowns@,
                    now,
                    candidates@,
                ) == Ok::<(Seq<usize>, Seq<usize>), ErrorView>((available@, cooling@)),
                Err(error) => cooldown_partition(
                    old(self).entries@,
                    old(self).timeout_cooldown,
                    old(self).timeout_cooldowns@,
                    now,
                    candidates@,
                ) == Err::<(Seq<usize>, Seq<usize>), ErrorView>(error@),
            },
    {
        if self.timeout_cooldown.is_none() || candidates.len() < 2 {
            let cooling: Vec<usize> = Vec::new();
            assert(cooling@ =~= Seq::<usize>::empty());
            return Ok((candidates, cooling));
        }
        let ghost cooldowns = self.timeout_cooldowns@;
        drop_expired(&mut self.timeout_cooldowns, now);
        let ghost warm = |index: usize| !entry_cools(self.entries@, cooldowns, now, index);
        let ghost cool = |index: usize| entry_cools(self.entries@, cooldowns, now, index);
        let mut available: Vec<usize> = Vec::new();
        let mut cooling: Vec<usize> = Vec::new();
        let mut n: usize = 0;
        proof {
            assert(candidates@.take(0).filter(warm) =~= Seq::empty());
            assert(candidates@.take(0).filter(cool) =~= Seq::empty());
        }
        while n < candidates.len()
            invariant
                n <= candidates@.len(),
                candidates@.len() >= 2,
                self.timeout_cooldown is Some,
                self.entries == old(self).entries,
                self.attempt_timeout == old(self).attempt_timeout,
                self.retry_policy == old(self).retry_policy,
                self.timeout_cooldown == old(self).timeout_cooldown,
                cooldowns == old(self).timeout_cooldowns@,
                self.timeout_cooldowns@ == live_cooldowns(cooldowns, now),
                forall|k: int| 0 <= k < candidates@.len() ==> #[trigger] candidates@[k] < self.entries@.len(),
                warm == (|index: usize| !entry_cools(self.entries@, cooldowns, now, index)),
                cool == (|index: usize| entry_cools(self.entries@, cooldowns, now, index)),
                candidates_check(self.entries@, candidates@.take(n as int)) is Ok,
                available@ == candidates@.take(n as int).filter(warm),
                cooling@ == candidates@.take(n as int).filter(cool),
            decreases candidates@.len() - n,
        {
            proof {
                assert(candidates@.take(n + 1).drop_last() =~= candidates@.take(n as int));
                reveal(Seq::filter);
            }
            let index: usize = candidates[n];
            match self.entries[index].identity.get() {
                Err(error) => {
                    proof {
                        lemma_candidates_prefix(self.entries@, candidates@, n + 1);
                    }
                    return Err(error);
                },
                Ok(id) => {
                    if self.timeout_cooldowns.contains(id) {
                        cooling.push(index);
                    } else {
                        available.push(index);
                    }
                },
            }
            n += 1;
        }
        assert(candidates@.take(n as int) =~= candidates@);
        if available.len() == 0 {
            let none: Vec<usize> = Vec::new();
            assert(none@ =~= Seq::<usize>::empty());
            return Ok((candidates, none));
        }
        Ok((available, cooling))
    }

    /// Deprioritizes a Model whose attempt timed out.
    pub fn record_attempt_timeout(&mut self, model_id: &str, now: Moment) -> (result: Result<(), HarnessError>)
        ensures
            final(self).entries == old(self).entries,
            final(self).attempt_timeout == old(self).attempt_timeout,
            final(self).retry_policy == old(self).retry_policy,
            final(self).timeout_cooldown == old(self).timeout_cooldown,
            match old(self).timeout_cooldown {
                None => result is Ok && final(self).timeout_cooldowns == old(self).timeout_cooldowns,
                Some(cooldown) => match after_span(now, cooldown) {
                    Some(until) => result is Ok && final(self).timeout_cooldowns@ == old(self).timeout_cooldowns@.insert(
                        model_id@,
                        until,
                    ),
                    None => result matches Err(error) && error@ == ErrorView::InvalidConfiguration(
                        "Model timeout cooldown exceeds the runtime clock range"@,
                    ) && final(self).timeout_cooldowns == old(self).timeout_cooldowns,
                },
            },
    {
        let cooldown = match self.timeout_cooldown {
            Some(cooldown) => cooldown,
            None => {
                return Ok(());
            },
        };
        match now.checked_add(cooldown) {
            Some(until) => {
                self.timeout_cooldowns.insert(model_id.to_owned(), until);
                Ok(())
            },
            None => Err(invalid_configuration("Model timeout cooldown exceeds the runtime clock range")),
        }
    }

    /// Stops deprioritizing a Model that answered.
    pub fn clear_attempt_timeout(&mut self, model_id: &str)
        ensures
            final(self).entries == old(self).entries,
            final(self).attempt_timeout == old(self).attempt_timeout,
            final(self).retry_policy == old(self).retry_policy,
            final(self).timeout_cooldown == old(self).timeout_cooldown,
            final(self).timeout_cooldowns@ == if old(self).timeout_cooldown is Some {
                old(self).timeout_cooldowns@.remove(model_id@)
            } else {
                old(self).timeout_cooldowns@
            },
    {
        if self.timeout_cooldown.is_none() {
            return;
        }
        let _ = self.timeout_cooldowns.remove(model_id);
    }
}

fn ceiling_before_retry(policy: &ModelRetryPolicy, retry: u8) -> (ceiling_ms: u64)
    requires
        1 <= retry <= policy.retries(),
    ensures
        ceiling_ms == backoff_ceiling_ms(*policy, retry),
        1 <= ceiling_ms <= MAX_MODEL_RETRY_DELAY_MS,
{
    let most: u8 = policy.max_retries();
    let first: u128 = policy.initial_delay().as_nanos();
    let longest: u128 = policy.max_delay().as_nanos();
    let mut factor: u128 = 1;
    let mut n: u8 = 1;
    proof {
        vstd::arithmetic::power2::lemma2_to64();
    }
    while n < retry
        invariant
            1 <= n <= retry <= MAX_MODEL_RETRIES,
            factor == pow2((n - 1) as nat),
            1 <= factor <= 128,
            n == 1 ==> factor <= 1,
            n == 2 ==> factor <= 2,
            n == 3 ==> factor <= 4,
            n == 4 ==> factor <= 8,
            n == 5 ==> factor <= 16,
            n == 6 ==> factor <= 32,
            n == 7 ==> factor <= 64,
        decreases retry - n,
    {
        proof {
            vstd::arithmetic::power2::lemma_pow2_unfold(n as nat);
        }
        factor = factor * 2;
        n = n + 1;
    }
    assert(first * factor <= 60_000_000_000u128 * 128u128) by (nonlinear_arith)
        requires
            first <= 60_000_000_000u128,
            factor <= 128u128,
    ;
    let doubled: u128 = first * factor;
    assert(doubled >= first) by (nonlinear_arith)
        requires
            doubled == first * factor,
            factor >= 1u128,
    ;
    let ceiling: u128 = if doubled <= longest {
        doubled
    } else {
        longest
    };
    (ceiling / NANOS_PER_MILLI) as u64
}

/// A computed delay lies in the upper half of its ceiling, and no ceiling
/// exceeds the longest delay of the policy.
pub proof fn law_backoff_is_bounded(policy: ModelRetryPolicy, retry: u8, hash: u64)
    ensures
        ({
            let ceiling = backoff_ceiling_ms(policy, retry);
            let delay = backoff_ms(ceiling, hash);
            &&& 2 * delay >= ceiling
            &&& delay <= ceiling
            &&& ceiling * NANOS_PER_MILLI <= policy.longest().nanos()
        }),
{
    let ceiling = backoff_ceiling_ms(policy, retry);
    let floor = ((ceiling + 1) / 2) as nat;
    let width = (ceiling - floor + 1) as nat;
    assert(0 <= hash as nat % width < width) by {
        vstd::arithmetic::div_mod::lemma_mod_bound(hash as int, width as int);
    }
}

/// Every delay that a policy grants is no longer than its longest delay.
pub proof fn law_retry_delay_is_bounded(
    policy: ModelRetryPolicy,
    error: ErrorView,
    next_retry: u8,
    thread_id: Seq<char>,
    turn_id: Seq<char>,
    model_id: Seq<char>,
)
    ensures
        delay_before_retry(Some(policy), error, next_retry, thread_id, turn_id, model_id) matches Some(delay) ==> delay
            <= policy.longest().nanos(),
{
    let hash = retry_hash(thread_id, turn_id, model_id, next_retry);
    law_backoff_is_bounded(policy, next_retry, hash);
    let ceiling = backoff_ceiling_ms(policy, next_retry);
    assert(backoff_ms(ceiling, hash) * NANOS_PER_MILLI <= ceiling * NANOS_PER_MILLI) by (nonlinear_arith)
        requires
            backoff_ms(ceiling, hash) <= ceiling,
    ;
}

proof fn lemma_split_counts(candidates: Seq<usize>, keep: spec_fn(usize) -> bool)
    ensures
        candidates.to_multiset() =~= candidates.filter(keep).to_multiset().add(
            candidates.filter(|index: usize| !keep(index)).to_multiset(),
        ),
    decreases candidates.len(),
{
    broadcast use vstd::seq_lib::group_to_multiset_ensures;

    let drop = |index: usize| !keep(index);
    reveal(Seq::filter);
    if candidates.len() > 0 {
        let shorter = candidates.drop_last();
        lemma_split_counts(shorter, keep);
        assert(candidates =~= shorter.push(candidates.last()));
        assert(shorter.filter(drop) =~= shorter.filter(|index: usize| !keep(index)));
    } else {
        assert(candidates.filter(keep) =~= Seq::empty());
        assert(candidates.filter(drop) =~= Seq::empty());
        assert(candidates =~= Seq::empty());
    }
}

/// Deprioritizing loses no candidate, repeats none, and always leaves one to
/// be tried first.
pub proof fn law_cooldown_keeps_every_candidate(
    entries: Seq<RuntimeModel>,
    cooldowns: Map<Seq<char>, Moment>,
    now: Moment,
    candidates: Seq<usize>,
)
    ensures
        ({
            let (available, cooling) = cooldown_split(entries, cooldowns, now, candidates);
            &&& candidates.to_multiset() == (available + cooling).to_multiset()
            &&& candidates.len() > 0 ==> available.len() > 0
        }),
{
    broadcast use vstd::seq_lib::group_to_multiset_ensures;

    let warm = |index: usize| !entry_cools(entries, cooldowns, now, index);
    let cool = |index: usize| entry_cools(entries, cooldowns, now, index);
    lemma_split_counts(candidates, warm);
    assert(candidates.filter(|index: usize| !warm(index)) =~= candidates.filter(cool)) by {
        lemma_filter_same(candidates, |index: usize| !warm(index), cool);
    }
    let (available, cooling) = cooldown_split(entries, cooldowns, now, candidates);
    vstd::seq_lib::lemma_multiset_commutative(available, cooling);
    if candidates.filter(warm).len() == 0 {
        assert(available + cooling =~= candidates);
    }
}

proof fn lemma_filter_same(candidates: Seq<usize>, a: spec_fn(usize) -> bool, b: spec_fn(usize) -> bool)
    requires
        forall|index: usize| #[trigger] a(index) == b(index),
    ensures
        candidates.filter(a) == candidates.filter(b),
    decreases candidates.len(),
{
    reveal(Seq::filter);
    if candidates.len() > 0 {
        lemma_filter_same(candidates.drop_last(), a, b);
    }
}

/// A Model that timed out is deprioritized until its cooldown has passed, and
/// no longer.
pub proof fn law_cooldown_expires(
    cooldowns: Map<Seq<char>, Moment>,
    model_id: Seq<char>,
    timed_out: Moment,
    cooldown: Duration,
    later: Moment,
)
    ensures
        after_span(timed_out, cooldown) matches Some(until) ==> (is_cooling(
            cooldowns.insert(model_id, until),
            model_id,
            later,
        ) <==> later.nanos < timed_out.nanos + cooldown.nanos()),
{
}

/// Which failures are worth another call to the same Model: a delay is granted
/// for every retry that the policy allows, exactly where the Provider was rate
/// limited or overloaded, failed on its side or was not reached, and asks for
/// no longer wait than the policy has.
pub proof fn law_transient_failures_are_retried(
    policy: Option<ModelRetryPolicy>,
    error: ErrorView,
    next_retry: u8,
    thread_id: Seq<char>,
    turn_id: Seq<char>,
    model_id: Seq<char>,
)
    ensures
        delay_before_retry(policy, error, next_retry, thread_id, turn_id, model_id) is Some <==> {
            &&& policy is Some
            &&& 1 <= next_retry <= policy->0.retries()
            &&& error matches ErrorView::ModelProvider(failure) && {
                &&& failure.kind == ModelProviderFailureKind::RateLimited || failure.kind
                    == ModelProviderFailureKind::Overloaded || failure.kind == ModelProviderFailureKind::Server || failure.kind
                    == ModelProviderFailureKind::Transport
                &&& failure.retry_after_ms is None || failure.retry_after_ms->0 * 1_000_000 <= policy->0.longest().nanos()
            }
        },
{
}

/// How long a granted wait is: as long as the Provider asked for, and where it
/// asked for nothing whole milliseconds between half of the ceiling and the
/// ceiling, which doubles with every retry up to the longest delay.
pub proof fn law_retry_delays_are_hints_or_backoff(
    policy: ModelRetryPolicy,
    failure: ProviderFailureView,
    next_retry: u8,
    thread_id: Seq<char>,
    turn_id: Seq<char>,
    model_id: Seq<char>,
)
    ensures
        delay_before_retry(
            Some(policy),
            ErrorView::ModelProvider(failure),
            next_retry,
            thread_id,
            turn_id,
            model_id,
        ) matches Some(delay) ==> match failure.retry_after_ms {
            Some(hint) => delay == hint * 1_000_000,
            None => {
                let doubled = policy.first_ceiling().nanos() * pow2((next_retry - 1) as nat);
                let capped = if doubled <= policy.longest().nanos() {
                    doubled
                } else {
                    policy.longest().nanos()
                };
                let ceiling = capped / 1_000_000;
                &&& delay % 1_000_000 == 0
                &&& 2 * (delay / 1_000_000) >= ceiling
                &&& delay / 1_000_000 <= ceiling
            },
        },
{
    if failure.retry_after_ms is None {
        let hash = retry_hash(thread_id, turn_id, model_id, next_retry);
        law_backoff_is_bounded(policy, next_retry, hash);
        let delay = backoff_ms(backoff_ceiling_ms(policy, next_retry), hash);
        assert((delay * 1_000_000) % 1_000_000 == 0 && (delay * 1_000_000) / 1_000_000 == delay) by (nonlinear_arith);
    }
}

/// Every place of the upper half of a ceiling is taken by some hash.
pub proof fn law_jitter_covers_the_upper_half(ceiling: nat, place: nat)
    requires
        ceiling <= 60_000,
        (ceiling + 1) / 2 <= place <= ceiling,
    ensures
        backoff_ms(ceiling, (place - (ceiling + 1) / 2) as u64) == place,
{
    let floor = ((ceiling + 1) / 2) as nat;
    let offset = (place - floor) as nat;
    vstd::arithmetic::div_mod::lemma_small_mod(offset, (ceiling - floor + 1) as nat);
}

/// The retry hash is the 64-bit FNV-1a hash of the three identities, each with
/// an end mark behind it, and the number of the retry.
pub proof fn law_retry_hash_is_fnv1a(thread_id: Seq<char>, turn_id: Seq<char>, model_id: Seq<char>, retry: u8)
    ensures
        retry_hash(thread_id, turn_id, model_id, retry) == (encode_utf8(thread_id) + seq![0xffu8] + encode_utf8(turn_id)
            + seq![0xffu8] + encode_utf8(model_id) + seq![0xffu8] + seq![retry]).fold_left(
            0xcbf2_9ce4_8422_2325u64,
            |hash: u64, byte: u8| (hash ^ (byte as u64)).wrapping_mul(0x0000_0100_0000_01b3u64),
        ),
{
    let mix = |hash: u64, byte: u8| (hash ^ (byte as u64)).wrapping_mul(0x0000_0100_0000_01b3u64);
    let (a, b, c) = (encode_utf8(thread_id), encode_utf8(turn_id), encode_utf8(model_id));
    let end = seq![0xffu8];
    let basis = 0xcbf2_9ce4_8422_2325u64;
    lemma_fold_text(basis, a);
    let h1 = hash_text(basis, thread_id);
    lemma_fold_text(h1, b);
    let h2 = hash_text(h1, turn_id);
    lemma_fold_text(h2, c);
    let h3 = hash_text(h2, model_id);
    lemma_fold_split(basis, a + end, b + end);
    lemma_fold_split(basis, a + end + (b + end), c + end);
    let all = a + end + (b + end) + (c + end);
    lemma_fold_split(basis, all, seq![retry]);
    assert(seq![retry].drop_last() =~= Seq::<u8>::empty());
    reveal_with_fuel(Seq::fold_left, 2);
    assert(seq![retry].fold_left(h3, mix) == mix(h3, retry));
    assert(all + seq![retry] =~= a + end + b + end + c + end + seq![retry]);
}

proof fn lemma_fold_split(hash: u64, first: Seq<u8>, second: Seq<u8>)
    ensures
        ({
            let mix = |hash: u64, byte: u8| (hash ^ (byte as u64)).wrapping_mul(0x0000_0100_0000_01b3u64);
            (first + second).fold_left(hash, mix) == second.fold_left(first.fold_left(hash, mix), mix)
        }),
{
    let mix = |hash: u64, byte: u8| (hash ^ (byte as u64)).wrapping_mul(0x0000_0100_0000_01b3u64);
    (first + second).lemma_fold_left_split(hash, mix, first.len() as int);
    assert((first + second).subrange(0, first.len() as int) =~= first);
    assert((first + second).subrange(first.len() as int, (first + second).len() as int) =~= second);
}

proof fn lemma_fold_text(hash: u64, bytes: Seq<u8>)
    ensures
        ({
            let mix = |hash: u64, byte: u8| (hash ^ (byte as u64)).wrapping_mul(0x0000_0100_0000_01b3u64);
            (bytes + seq![0xffu8]).fold_left(hash, mix) == hash_byte(hash_bytes(hash, bytes), 0xff)
        }),
{
    let longer = bytes + seq![0xffu8];
    assert(longer.drop_last() =~= bytes);
    lemma_fold_bytes(hash, bytes);
}

proof fn lemma_fold_bytes(hash: u64, bytes: Seq<u8>)
    ensures
        ({
            let mix = |hash: u64, byte: u8| (hash ^ (byte as u64)).wrapping_mul(0x0000_0100_0000_01b3u64);
            bytes.fold_left(hash, mix) == hash_bytes(hash, bytes)
        }),
    decreases bytes.len(),
{
    if bytes.len() > 0 {
        lemma_fold_bytes(hash, bytes.drop_last());
    }
}

/// An attempt ends at the earlier of its own deadline and the Turn's, and it is
/// its own fault only where its own deadline is strictly the earlier one.
pub proof fn law_attempts_end_at_the_earlier_deadline(timeout: Option<Duration>, turn_deadline: Option<Moment>, now: Moment)
    ensures
        match attempt_deadline_at(timeout, turn_deadline, now) {
            Err(_) => timeout is Some && now.nanos + timeout->0.nanos() > 9_223_372_036_854_775_807_999_999_999,
            Ok((end, own)) => {
                &&& timeout is Some ==> now.nanos + timeout->0.nanos() <= 9_223_372_036_854_775_807_999_999_999
                &&& own <==> timeout is Some && (turn_deadline is None || now.nanos + timeout->0.nanos()
                    < turn_deadline->0.nanos)
                &&& own ==> end is Some && end->0.nanos == now.nanos + timeout->0.nanos()
                &&& !own ==> end == turn_deadline
            },
        },
{
}

/// Which candidates are tried last: those whose Model timed out and still
/// cools, unless all of them do.
pub proof fn law_cooling_models_are_tried_last(
    entries: Seq<RuntimeModel>,
    cooldowns: Map<Seq<char>, Moment>,
    now: Moment,
    candidates: Seq<usize>,
    cooling: Set<usize>,
    cooldown: Duration,
    index: usize,
)
    requires
        candidates.contains(index),
        candidates.len() >= 2,
        forall|other: usize| #[trigger]
            cooling.contains(other) <==> (entries[other as int].identity matches FrozenModelIdentity::Valid(id)
                && cooldowns.contains_key(id@) && cooldowns[id@].nanos > now.nanos),
        cooldown_partition(entries, Some(cooldown), cooldowns, now, candidates) is Ok,
    ensures
        ({
            let (first, last) = cooldown_partition(entries, Some(cooldown), cooldowns, now, candidates)->Ok_0;
            let any_warm = exists|other: usize| #[trigger] candidates.contains(other) && !cooling.contains(other);
            &&& last.contains(index) <==> cooling.contains(index) && any_warm
            &&& first.contains(index) <==> !cooling.contains(index) || !any_warm
        }),
{
    let warm = |other: usize| !entry_cools(entries, cooldowns, now, other);
    let cool = |other: usize| entry_cools(entries, cooldowns, now, other);
    assert forall|other: usize| #[trigger] cooling.contains(other) == entry_cools(entries, cooldowns, now, other) by {}
    lemma_filter_contains(candidates, warm);
    lemma_filter_contains(candidates, cool);
    assert(candidates.filter(warm).contains(index) <==> !cooling.contains(index));
    assert(candidates.filter(cool).contains(index) <==> cooling.contains(index));
    if candidates.filter(warm).len() == 0 {
        assert forall|other: usize| #[trigger] candidates.contains(other) implies cooling.contains(other) by {
            if !cooling.contains(other) {
                assert(warm(other));
                assert(candidates.filter(warm).contains(other));
            }
        }
        assert(!Seq::<usize>::empty().contains(index));
    } else {
        let other = candidates.filter(warm)[0];
        assert(candidates.filter(warm).contains(other));
        assert(candidates.contains(other) && !cooling.contains(other));
    }
}

/// Without a cooldown, and for a single candidate, nothing is put last; with
/// one, the candidates that are tried first keep their order.
pub proof fn law_failover_keeps_the_configured_order(
    entries: Seq<RuntimeModel>,
    cooldown: Option<Duration>,
    cooldowns: Map<Seq<char>, Moment>,
    now: Moment,
    candidates: Seq<usize>,
)
    requires
        forall|j: int, k: int| 0 <= j < k < candidates.len() ==> #[trigger] candidates[j] < #[trigger] candidates[k],
        cooldown_partition(entries, cooldown, cooldowns, now, candidates) is Ok,
    ensures
        ({
            let (first, last) = cooldown_partition(entries, cooldown, cooldowns, now, candidates)->Ok_0;
            &&& cooldown is None || candidates.len() < 2 ==> first == candidates && last.len() == 0
            &&& forall|j: int, k: int| 0 <= j < k < first.len() ==> #[trigger] first[j] < #[trigger] first[k]
            &&& forall|j: int, k: int| 0 <= j < k < last.len() ==> #[trigger] last[j] < #[trigger] last[k]
        }),
{
    lemma_filter_ascends(candidates, |index: usize| !entry_cools(entries, cooldowns, now, index));
    lemma_filter_ascends(candidates, |index: usize| entry_cools(entries, cooldowns, now, index));
}

proof fn lemma_filter_ascends(candidates: Seq<usize>, keep: spec_fn(usize) -> bool)
    requires
        forall|j: int, k: int| 0 <= j < k < candidates.len() ==> #[trigger] candidates[j] < #[trigger] candidates[k],
    ensures
        ({
            let kept = candidates.filter(keep);
            &&& forall|j: int, k: int| 0 <= j < k < kept.len() ==> #[trigger] kept[j] < #[trigger] kept[k]
        }),
    decreases candidates.len(),
{
    reveal(Seq::filter);
    let kept = candidates.filter(keep);
    if candidates.len() > 0 {
        let shorter = candidates.drop_last();
        lemma_filter_ascends(shorter, keep);
        lemma_filter_contains(shorter, keep);
        assert forall|j: int, k: int| 0 <= j < k < kept.len() implies #[trigger] kept[j] < #[trigger] kept[k] by {
            let earlier = shorter.filter(keep);
            if k < earlier.len() {
                assert(earlier[j] < earlier[k]);
            } else {
                assert(earlier.contains(earlier[j]));
                let n = choose|n: int| 0 <= n < shorter.len() && shorter[n] == earlier[j];
                assert(candidates[n] < candidates[candidates.len() - 1]);
            }
        }
    }
}

proof fn lemma_filter_contains(candidates: Seq<usize>, keep: spec_fn(usize) -> bool)
    ensures
        forall|index: usize| #[trigger]
            candidates.filter(keep).contains(index) <==> candidates.contains(index) && keep(index),
    decreases candidates.len(),
{
    reveal(Seq::filter);
    if candidates.len() > 0 {
        let shorter = candidates.drop_last();
        lemma_filter_contains(shorter, keep);
        assert forall|index: usize| #[trigger]
            candidates.filter(keep).contains(index) <==> candidates.contains(index) && keep(index) by {
            if candidates.contains(index) && keep(index) {
                if index == candidates.last() {
                    assert(candidates.filter(keep)[candidates.filter(keep).len() - 1] == index);
                } else {
                    let k = choose|k: int| 0 <= k < candidates.len() && candidates[k] == index;
                    assert(shorter[k] == index);
                    assert(shorter.filter(keep).contains(index));
                    let j = choose|j: int| 0 <= j < shorter.filter(keep).len() && shorter.filter(keep)[j] == index;
                    assert(candidates.filter(keep)[j] == index);
                }
            }
            if candidates.filter(keep).contains(index) {
                let j = choose|j: int| 0 <= j < candidates.filter(keep).len() && candidates.filter(keep)[j] == index;
                if j < shorter.filter(keep).len() {
                    assert(shorter.filter(keep)[j] == index);
                    assert(shorter.filter(keep).contains(index));
                    let k = choose|k: int| 0 <= k < shorter.len() && shorter[k] == index;
                    assert(candidates[k] == index);
                } else {
                    assert(candidates[candidates.len() - 1] == index);
                }
            }
        }
    } else {
        assert(candidates.filter(keep) =~= Seq::empty());
    }
}

/// A retry policy is accepted for one to eight retries and for delays from one
/// millisecond to a minute, the first of them no longer than the longest.
pub proof fn law_retry_policies_are_bounded(max_retries: u8, initial_delay: Duration, max_delay: Duration)
    ensures
        retry_policy_check(max_retries, initial_delay, max_delay) is Ok <==> 1 <= max_retries <= 8 && 1_000_000
            <= initial_delay.nanos() <= max_delay.nanos() <= 60_000_000_000,
{
}

/// A route of registered Models can be made from every choice of one to sixteen
/// distinct identities that are registered, and from no other.
pub proof fn law_routes_are_distinct_registered_models(models: Map<Seq<char>, RegisteredModel>, ids: Seq<&str>, n: int)
    requires
        0 <= n <= ids.len(),
    ensures
        route_check(models, ids, n) is Ok <==> (forall|k: int| 0 <= k < n ==> models.contains_key(#[trigger] ids[k]@)) && (
        forall|j: int, k: int| 0 <= j < k < n ==> #[trigger] ids[j]@ != #[trigger] ids[k]@),
    decreases n,
{
    if n > 0 {
        law_routes_are_distinct_registered_models(models, ids, n - 1);
        if route_check(models, ids, n) is Ok {
            assert forall|j: int, k: int| 0 <= j < k < n implies #[trigger] ids[j]@ != #[trigger] ids[k]@ by {
                if k == n - 1 {
                    assert(ids[j]@ != ids[n - 1]@);
                }
            }
            assert forall|k: int| 0 <= k < n implies models.contains_key(#[trigger] ids[k]@) by {}
        }
    }
}

/// A route serves a Turn exactly where it has one to sixteen Models and every
/// one of them reported a portable identity.
pub proof fn law_usable_routes_have_portable_identities(entries: Seq<RuntimeModel>)
    ensures
        route_is_usable(entries) is Ok <==> 1 <= entries.len() <= 16 && forall|k: int|
            0 <= k < entries.len() ==> (#[trigger] entries[k]).identity is Valid,
{
    lemma_identities(entries);
}

proof fn lemma_identities(entries: Seq<RuntimeModel>)
    ensures
        identities_check(entries) is Ok <==> forall|k: int| 0 <= k < entries.len() ==> (#[trigger] entries[k]).identity is Valid,
    decreases entries.len(),
{
    if entries.len() > 0 {
        let shorter = entries.drop_last();
        lemma_identities(shorter);
        assert forall|k: int| 0 <= k < shorter.len() implies shorter[k] == entries[k] by {}
        if identities_check(entries) is Ok {
            assert forall|k: int| 0 <= k < entries.len() implies (#[trigger] entries[k]).identity is Valid by {
                if k < shorter.len() {
                    assert(shorter[k].identity is Valid);
                }
            }
        }
        if forall|k: int| 0 <= k < entries.len() ==> (#[trigger] entries[k]).identity is Valid {
            assert forall|k: int| 0 <= k < shorter.len() implies (#[trigger] shorter[k]).identity is Valid by {
                assert(entries[k].identity is Valid);
            }
            assert(entries[entries.len() - 1].identity is Valid);
        }
    }
}

/// A route tries the registered Models in the order in which they were named.
pub proof fn law_routes_keep_the_named_order(
    entries: Seq<RuntimeModel>,
    models: Map<Seq<char>, RegisteredModel>,
    ids: Seq<&str>,
    k: int,
)
    requires
        entries_match(entries, models, ids),
        0 <= k < ids.len(),
    ensures
        entries.len() == ids.len(),
        entries[k].identity == FrozenModelIdentity::Valid(models[ids[k]@].id),
        entries[k].origin == models[ids[k]@].origin,
{
    assert(entries[k] == entries[k]);
}

/// Looking for candidates forgets cooldowns that have ended, and no others.
pub proof fn law_ended_cooldowns_are_forgotten(
    cooldown: Option<Duration>,
    cooldowns: Map<Seq<char>, Moment>,
    now: Moment,
    candidates: Seq<usize>,
    model_id: Seq<char>,
)
    ensures
        ({
            let kept = cooldowns_after_partition(cooldown, cooldowns, now, candidates);
            &&& kept.contains_key(model_id) ==> cooldowns.contains_key(model_id) && kept[model_id] == cooldowns[model_id]
            &&& cooldowns.contains_key(model_id) && cooldowns[model_id].nanos > now.nanos ==> kept.contains_key(model_id)
            &&& cooldowns.contains_key(model_id) && cooldowns[model_id].nanos <= now.nanos ==> (kept.contains_key(model_id)
                <==> cooldown is None || candidates.len() <= 1)
        }),
{
}

} // verus!
