//! Steering of an active Turn: admission, queueing and ordered application.

use std::collections::VecDeque;

use vstd::prelude::*;

use crate::error::{settles, ErrorView, HarnessError};
use crate::items::{Item, ItemKind, Turn};
use crate::kernel::{AuthorityContext, AuthorityView, SteeringId, ThreadId, TurnId};
use crate::runtime::resume::state_error;
use crate::table::Table;
use crate::text::{blank, byte_len, is_blank, join2, join3, join4, same_text, utf8_len};

verus! {

/// Longest accepted prompt or steering text, in bytes.
pub const MAX_PROMPT_BYTES: usize = 1_048_576;

/// Most steering submissions that may wait in one Turn.
pub const MAX_PENDING_STEERING: usize = 64;

/// Most steering bytes that may wait in one Turn.
pub const MAX_PENDING_STEERING_BYTES: usize = 1_048_576;

/// Steering that was accepted and is not yet visible to the Model.
#[derive(Debug, PartialEq, Eq)]
pub struct PendingSteering {
    /// Identity of the submission.
    pub steering_id: SteeringId,
    /// Text of the steering.
    pub content: String,
}

impl Clone for PendingSteering {
    fn clone(&self) -> (result: Self)
        ensures
            result == *self,
    {
        PendingSteering { steering_id: self.steering_id.clone(), content: self.content.clone() }
    }
}

/// Durable acknowledgement for one Turn steering submission.
#[derive(Debug, PartialEq, Eq)]
pub struct SteeringReceipt {
    /// Identity of the submission.
    pub steering_id: SteeringId,
    /// Exact active Turn that accepted the input.
    pub turn_id: TurnId,
}

impl Clone for SteeringReceipt {
    fn clone(&self) -> (result: Self)
        ensures
            result == *self,
    {
        SteeringReceipt { steering_id: self.steering_id.clone(), turn_id: self.turn_id.clone() }
    }
}

/// Whether an item queues steering under this identity.
pub open spec fn queues(item: Item, id: Seq<char>) -> bool {
    item.kind matches ItemKind::SteeringQueued { steering_id, .. } && steering_id@ == id
}

/// Steering that a journal has queued and not applied, in order.
pub open spec fn pending_steering(items: Seq<Item>) -> Result<Seq<PendingSteering>, ErrorView>
    decreases items.len(),
{
    if items.len() == 0 {
        Ok(Seq::empty())
    } else {
        let earlier = items.drop_last();
        match pending_steering(earlier) {
            Err(fault) => Err(fault),
            Ok(pending) => match items.last().kind {
                ItemKind::SteeringQueued { steering_id, content, .. } => if exists|i: int|
                    0 <= i < earlier.len() && queues(#[trigger] earlier[i], steering_id@) {
                    Err(ErrorView::State("duplicate steering identity "@ + steering_id@))
                } else {
                    Ok(pending.push(PendingSteering { steering_id, content }))
                },
                ItemKind::SteeringApplied { steering_id, content } => if pending.len() == 0 {
                    Err(ErrorView::State("applied steering "@ + steering_id@ + " has no pending queue record"@))
                } else if pending[0].steering_id@ != steering_id@ || pending[0].content@ != content@ {
                    Err(
                        ErrorView::State("applied steering "@ + steering_id@ + " does not match queue order and content"@),
                    )
                } else {
                    Ok(pending.drop_first())
                },
                _ => Ok(pending),
            },
        }
    }
}

proof fn lemma_pending_prefix(items: Seq<Item>, n: int)
    requires
        0 <= n <= items.len(),
        pending_steering(items.take(n)) is Err,
    ensures
        pending_steering(items) == pending_steering(items.take(n)),
    decreases items.len() - n,
{
    if n == items.len() {
        assert(items.take(n) =~= items);
    } else {
        assert(items.take(n + 1).drop_last() =~= items.take(n));
        lemma_pending_prefix(items, n + 1);
    }
}

/// Replays a journal and returns the steering that still waits.
pub fn pending_steering_from_items(items: &Vec<Item>) -> (result: Result<VecDeque<PendingSteering>, HarnessError>)
    ensures
        match result {
            Ok(pending) => pending_steering(items@) == Ok::<Seq<PendingSteering>, ErrorView>(pending@),
            Err(error) => pending_steering(items@) == Err::<Seq<PendingSteering>, ErrorView>(error@),
        },
{
    let mut pending: VecDeque<PendingSteering> = VecDeque::new();
    let mut seen: Table<()> = Table::new();
    let mut i: usize = 0;
    assert(pending@ =~= Seq::<PendingSteering>::empty());
    while i < items.len()
        invariant
            i <= items@.len(),
            pending_steering(items@.take(i as int)) == Ok::<Seq<PendingSteering>, ErrorView>(pending@),
            forall|id: Seq<char>| #[trigger] seen@.contains_key(id) <==> exists|k: int|
                0 <= k < i && queues(#[trigger] items@[k], id),
        decreases items@.len() - i,
    {
        let ghost shorter = items@.take(i as int);
        let ghost longer = items@.take(i + 1);
        let ghost known = seen@;
        proof {
            assert(longer.drop_last() =~= shorter);
            assert(longer.last() == items@[i as int]);
        }
        match &items[i].kind {
            ItemKind::SteeringQueued { steering_id, content, .. } => {
                if seen.contains(steering_id.as_str()) {
                    proof {
                        let k = choose|k: int| 0 <= k < i && queues(#[trigger] items@[k], steering_id@);
                        assert(queues(shorter[k], steering_id@));
                        lemma_pending_prefix(items@, i + 1);
                    }
                    return Err(HarnessError::State(join2("duplicate steering identity ", steering_id.as_str())));
                }
                proof {
                    assert forall|k: int| 0 <= k < shorter.len() implies !queues(#[trigger] shorter[k], steering_id@) by {
                        if queues(shorter[k], steering_id@) {
                            assert(queues(items@[k], steering_id@));
                        }
                    }
                }
                seen.insert(String::from_str(steering_id.as_str()), ());
                pending.push_back(PendingSteering { steering_id: steering_id.clone(), content: content.clone() });
                proof {
                    assert forall|id: Seq<char>| #[trigger] seen@.contains_key(id) <==> exists|k: int|
                        0 <= k < i + 1 && queues(#[trigger] items@[k], id) by {
                        assert(queues(items@[i as int], steering_id@));
                        assert(seen@.contains_key(id) <==> known.contains_key(id) || id == steering_id@);
                        if known.contains_key(id) {
                            let k = choose|k: int| 0 <= k < i && queues(#[trigger] items@[k], id);
                            assert(queues(items@[k], id));
                        }
                    }
                }
            },
            ItemKind::SteeringApplied { steering_id, content } => {
                match pending.pop_front() {
                    None => {
                        proof {
                            lemma_pending_prefix(items@, i + 1);
                        }
                        return Err(
                            HarnessError::State(
                                join3("applied steering ", steering_id.as_str(), " has no pending queue record"),
                            ),
                        );
                    },
                    Some(queued) => {
                        if !queued.steering_id.same(steering_id) || !same_text(queued.content.as_str(), content.as_str()) {
                            proof {
                                lemma_pending_prefix(items@, i + 1);
                            }
                            return Err(
                                HarnessError::State(
                                    join3(
                                        "applied steering ",
                                        steering_id.as_str(),
                                        " does not match queue order and content",
                                    ),
                                ),
                            );
                        }
                    },
                }
                proof {
                    lemma_not_queued(items@, i as int, known);
                }
            },
            _ => {
                proof {
                    lemma_not_queued(items@, i as int, known);
                }
            },
        }
        i += 1;
    }
    assert(items@.take(i as int) =~= items@);
    Ok(pending)
}

proof fn lemma_not_queued(items: Seq<Item>, i: int, known: Map<Seq<char>, ()>)
    requires
        0 <= i < items.len(),
        !(items[i].kind is SteeringQueued),
        forall|id: Seq<char>| #[trigger] known.contains_key(id) <==> exists|k: int|
            0 <= k < i && queues(#[trigger] items[k], id),
    ensures
        forall|id: Seq<char>| #[trigger] known.contains_key(id) <==> exists|k: int|
            0 <= k < i + 1 && queues(#[trigger] items[k], id),
{
    assert forall|id: Seq<char>| #[trigger] known.contains_key(id) <==> exists|k: int|
        0 <= k < i + 1 && queues(#[trigger] items[k], id) by {
        if exists|k: int| 0 <= k < i + 1 && queues(#[trigger] items[k], id) {
            let k = choose|k: int| 0 <= k < i + 1 && queues(#[trigger] items[k], id);
            assert(0 <= k < i && queues(items[k], id));
        }
    }
}

/// Bytes of steering texts.
pub open spec fn steering_bytes(pending: Seq<PendingSteering>) -> nat
    decreases pending.len(),
{
    if pending.len() == 0 {
        0
    } else {
        steering_bytes(pending.drop_last()) + utf8_len(pending.last().content@)
    }
}

proof fn lemma_bytes_push(pending: Seq<PendingSteering>, added: PendingSteering)
    ensures
        steering_bytes(pending.push(added)) == steering_bytes(pending) + utf8_len(added.content@),
{
    assert(pending.push(added).drop_last() =~= pending);
}

proof fn lemma_bytes_front(pending: Seq<PendingSteering>)
    requires
        pending.len() > 0,
    ensures
        steering_bytes(pending) == utf8_len(pending[0].content@) + steering_bytes(pending.drop_first()),
    decreases pending.len(),
{
    if pending.len() == 1 {
        assert(pending.drop_first() =~= Seq::empty());
        assert(pending.drop_last() =~= Seq::empty());
    } else {
        lemma_bytes_front(pending.drop_last());
        assert(pending.drop_last().drop_first() =~= pending.drop_first().drop_last());
    }
}

proof fn lemma_bytes_monotonic(pending: Seq<PendingSteering>, n: int)
    requires
        0 <= n <= pending.len(),
    ensures
        steering_bytes(pending.take(n)) <= steering_bytes(pending),
    decreases pending.len() - n,
{
    if n == pending.len() {
        assert(pending.take(n) =~= pending);
    } else {
        lemma_bytes_monotonic(pending, n + 1);
        assert(pending.take(n + 1).drop_last() =~= pending.take(n));
    }
}

/// Steering state of one active Turn.
///
/// The queue never holds more submissions or bytes than it may, and its byte
/// count is always the bytes that it holds.
pub struct ActiveTurnControl {
    turn_id: TurnId,
    authority: AuthorityContext,
    accepting_steering: bool,
    pending: VecDeque<PendingSteering>,
    pending_bytes: usize,
}

impl ActiveTurnControl {
    #[verifier::type_invariant]
    spec fn bounded(self) -> bool {
        &&& self.pending_bytes == steering_bytes(self.pending@)
        &&& self.pending_bytes <= MAX_PENDING_STEERING_BYTES
        &&& self.pending@.len() <= MAX_PENDING_STEERING
    }

    /// Turn that is controlled.
    pub closed spec fn turn(self) -> Seq<char> {
        self.turn_id@
    }

    /// Authority under which the Turn runs.
    pub closed spec fn authority(self) -> AuthorityContext {
        self.authority
    }

    /// Whether the Turn still accepts steering.
    pub closed spec fn accepting(self) -> bool {
        self.accepting_steering
    }

    /// Steering that waits, in order.
    pub closed spec fn pending(self) -> Seq<PendingSteering> {
        self.pending@
    }

    /// Whether only the queue and the acceptance may differ between two states.
    pub open spec fn same_turn(self, other: Self) -> bool {
        self.turn() == other.turn() && self.authority() == other.authority()
    }
}

/// Outcome of taking control of a Turn whose journal may hold steering.
pub open spec fn recovery(items: Seq<Item>) -> Result<Seq<PendingSteering>, ErrorView> {
    match pending_steering(items) {
        Err(fault) => Err(fault),
        Ok(pending) => if steering_bytes(pending) > usize::MAX {
            Err(ErrorView::State("pending steering byte count overflow"@))
        } else if pending.len() > MAX_PENDING_STEERING || steering_bytes(pending) > MAX_PENDING_STEERING_BYTES {
            Err(ErrorView::State("recovered Turn exceeds pending steering capacity"@))
        } else {
            Ok(pending)
        },
    }
}

/// Whether one more submission fits into a queue.
pub open spec fn steering_fits(pending: Seq<PendingSteering>, content: Seq<char>) -> bool {
    pending.len() < MAX_PENDING_STEERING && steering_bytes(pending) + utf8_len(content) <= MAX_PENDING_STEERING_BYTES
}

/// Error reported for a Turn whose steering queue is full.
pub open spec fn steering_full() -> ErrorView {
    ErrorView::State("turn steering capacity reached (64 messages or 1048576 bytes)"@)
}

/// Error reported for steering outside its bounds.
pub open spec fn invalid_steering() -> ErrorView {
    ErrorView::InvalidConfiguration("steering content must be 1-1048576 bytes"@)
}

/// Whether a prompt or steering text is non-blank and bounded.
pub open spec fn prompt_is_valid(text: Seq<char>) -> bool {
    !is_blank(text) && utf8_len(text) <= MAX_PROMPT_BYTES
}

/// Checks that a steering text is non-blank and bounded.
pub fn validate_steering(content: &str) -> (result: Result<(), HarnessError>)
    ensures
        settles(
            result,
            if prompt_is_valid(content@) {
                Ok(())
            } else {
                Err(invalid_steering())
            },
        ),
{
    if blank(content) || byte_len(content) > MAX_PROMPT_BYTES {
        return Err(HarnessError::InvalidConfiguration("steering content must be 1-1048576 bytes".to_owned()));
    }
    Ok(())
}

/// Outcome of submitting steering to a controlled Turn, before anything is
/// written.
pub open spec fn admission(control: ActiveTurnControl, expected_turn: Seq<char>, content: Seq<char>) -> Result<(), ErrorView> {
    if control.turn() != expected_turn {
        Err(
            ErrorView::State(
                "steering expected turn "@ + expected_turn + ", active turn is "@ + control.turn(),
            ),
        )
    } else if !control.accepting() {
        Err(ErrorView::State("turn "@ + expected_turn + " no longer accepts steering"@))
    } else if !steering_fits(control.pending(), content) {
        Err(steering_full())
    } else {
        Ok(())
    }
}

impl ActiveTurnControl {
    /// Takes control of a Turn, replaying the steering in its journal.
    pub fn recover(turn: &Turn, authority: AuthorityContext) -> (result: Result<Self, HarnessError>)
        ensures
            match result {
                Ok(control) => recovery(turn.items@) == Ok::<Seq<PendingSteering>, ErrorView>(control.pending())
                    && control.turn() == turn.id@ && control.authority() == authority && control.accepting(),
                Err(error) => recovery(turn.items@) == Err::<Seq<PendingSteering>, ErrorView>(error@),
            },
    {
        let pending = match pending_steering_from_items(&turn.items) {
            Ok(pending) => pending,
            Err(error) => {
                return Err(error);
            },
        };
        let mut bytes: usize = 0;
        let mut i: usize = 0;
        let total: usize = pending.len();
        while i < total
            invariant
                i <= total == pending@.len(),
                pending_steering(turn.items@) == Ok::<Seq<PendingSteering>, ErrorView>(pending@),
                bytes == steering_bytes(pending@.take(i as int)),
            decreases total - i,
        {
            proof {
                assert(pending@.take(i + 1).drop_last() =~= pending@.take(i as int));
                lemma_bytes_monotonic(pending@, i + 1);
            }
            bytes = match bytes.checked_add(byte_len(pending[i].content.as_str())) {
                Some(bytes) => bytes,
                None => {
                    return Err(state_error("pending steering byte count overflow"));
                },
            };
            i += 1;
        }
        assert(pending@.take(i as int) =~= pending@);
        if total > MAX_PENDING_STEERING || bytes > MAX_PENDING_STEERING_BYTES {
            return Err(state_error("recovered Turn exceeds pending steering capacity"));
        }
        Ok(
            ActiveTurnControl {
                turn_id: turn.id.clone(),
                authority,
                accepting_steering: true,
                pending,
                pending_bytes: bytes,
            },
        )
    }

    /// Decides whether steering may be queued for a Turn.
    pub fn check_admission(&self, expected_turn_id: &TurnId, content: &str) -> (result: Result<(), HarnessError>)
        ensures
            settles(result, admission(*self, expected_turn_id@, content@)),
    {
        proof {
            use_type_invariant(self);
        }
        if !self.turn_id.same(expected_turn_id) {
            return Err(
                HarnessError::State(
                    join4(
                        "steering expected turn ",
                        expected_turn_id.as_str(),
                        ", active turn is ",
                        self.turn_id.as_str(),
                    ),
                ),
            );
        }
        if !self.accepting_steering {
            return Err(HarnessError::State(join3("turn ", expected_turn_id.as_str(), " no longer accepts steering")));
        }
        if self.pending.len() >= MAX_PENDING_STEERING || byte_len(content) > MAX_PENDING_STEERING_BYTES
            - self.pending_bytes {
            return Err(state_error("turn steering capacity reached (64 messages or 1048576 bytes)"));
        }
        Ok(())
    }

    /// Takes the queue out, leaving an empty one.
    fn take_queue(&mut self) -> (taken: (VecDeque<PendingSteering>, usize))
        ensures
            taken.0@ == old(self).pending(),
            taken.1 == steering_bytes(taken.0@),
            taken.1 <= MAX_PENDING_STEERING_BYTES,
            taken.0@.len() <= MAX_PENDING_STEERING,
            final(self).same_turn(*old(self)),
            final(self).accepting() == old(self).accepting(),
            final(self).pending().len() == 0,
    {
        let mut taken = ActiveTurnControl {
            turn_id: self.turn_id.clone(),
            authority: self.authority.clone(),
            accepting_steering: self.accepting_steering,
            pending: VecDeque::new(),
            pending_bytes: 0,
        };
        std::mem::swap(&mut taken, self);
        proof {
            use_type_invariant(&taken);
        }
        (taken.pending, taken.pending_bytes)
    }

    /// Puts a queue in.
    fn put_queue(&mut self, pending: VecDeque<PendingSteering>, pending_bytes: usize)
        requires
            pending_bytes == steering_bytes(pending@),
            pending_bytes <= MAX_PENDING_STEERING_BYTES,
            pending@.len() <= MAX_PENDING_STEERING,
        ensures
            final(self).same_turn(*old(self)),
            final(self).accepting() == old(self).accepting(),
            final(self).pending() == pending@,
    {
        *self = ActiveTurnControl {
            turn_id: self.turn_id.clone(),
            authority: self.authority.clone(),
            accepting_steering: self.accepting_steering,
            pending,
            pending_bytes,
        };
    }

    /// Queues steering that was admitted and durably recorded.
    ///
    /// Where the queue is full nothing changes and no receipt is given.
    pub fn queue(&mut self, steering_id: SteeringId, content: String) -> (receipt: Option<SteeringReceipt>)
        ensures
            final(self).same_turn(*old(self)),
            final(self).accepting() == old(self).accepting(),
            receipt is Some == steering_fits(old(self).pending(), content@),
            final(self).pending() == if receipt is Some {
                old(self).pending().push(PendingSteering { steering_id, content })
            } else {
                old(self).pending()
            },
            receipt matches Some(receipt) ==> receipt.steering_id == steering_id && receipt.turn_id@ == old(self).turn(),
    {
        proof {
            use_type_invariant(&*self);
        }
        let size: usize = byte_len(content.as_str());
        if self.pending.len() >= MAX_PENDING_STEERING || size > MAX_PENDING_STEERING_BYTES - self.pending_bytes {
            return None;
        }
        let receipt = SteeringReceipt { steering_id: steering_id.clone(), turn_id: self.turn_id.clone() };
        let (mut queue, bytes) = self.take_queue();
        proof {
            lemma_bytes_push(queue@, PendingSteering { steering_id, content });
        }
        queue.push_back(PendingSteering { steering_id, content });
        self.put_queue(queue, bytes + size);
        Some(receipt)
    }
}

/// Record that makes steering visible to the Model.
pub open spec fn application(steering: PendingSteering) -> ItemKind {
    ItemKind::SteeringApplied { steering_id: steering.steering_id, content: steering.content }
}

impl ActiveTurnControl {
    /// Returns the identity of the Turn that is controlled.
    pub fn turn_id(&self) -> (id: &TurnId)
        ensures
            id@ == self.turn(),
    {
        &self.turn_id
    }

    /// Returns the authority under which the Turn runs.
    pub fn recording_authority(&self) -> (authority: &AuthorityContext)
        ensures
            *authority == self.authority(),
    {
        &self.authority
    }

    /// Decides whether steering waits.
    pub fn has_pending(&self) -> (result: bool)
        ensures
            result == (self.pending().len() > 0),
    {
        self.pending.len() > 0
    }

    /// Returns the record for the steering that has to be applied next.
    pub fn next_application(&self) -> (record: Option<ItemKind>)
        ensures
            record == if self.pending().len() > 0 {
                Some(application(self.pending()[0]))
            } else {
                None
            },
    {
        if self.pending.len() == 0 {
            return None;
        }
        Some(
            ItemKind::SteeringApplied {
                steering_id: self.pending[0].steering_id.clone(),
                content: self.pending[0].content.clone(),
            },
        )
    }

    /// Drops the first waiting steering once its application is recorded.
    pub fn application_recorded(&mut self)
        ensures
            final(self).same_turn(*old(self)),
            final(self).accepting() == old(self).accepting(),
            final(self).pending() == if old(self).pending().len() > 0 {
                old(self).pending().drop_first()
            } else {
                old(self).pending()
            },
    {
        let (mut queue, bytes) = self.take_queue();
        let ghost before = queue@;
        if queue.len() == 0 {
            self.put_queue(queue, bytes);
            return;
        }
        let size: usize = byte_len(queue[0].content.as_str());
        proof {
            lemma_bytes_front(before);
        }
        let _ = queue.pop_front();
        assert(queue@ =~= before.drop_first());
        self.put_queue(queue, bytes - size);
    }

    /// Stops accepting steering.
    pub fn seal(&mut self)
        ensures
            final(self).same_turn(*old(self)),
            !final(self).accepting(),
            final(self).pending() == old(self).pending(),
    {
        proof {
            use_type_invariant(&*self);
        }
        self.accepting_steering = false;
    }

    /// Checks that the control belongs to a Turn.
    pub fn require_turn(&self, turn: &Turn) -> (result: Result<(), HarnessError>)
        ensures
            settles(
                result,
                if self.turn() == turn.id@ {
                    Ok(())
                } else {
                    Err(ErrorView::State("Turn control "@ + self.turn() + " does not match active turn "@ + turn.id@))
                },
            ),
    {
        if !self.turn_id.same(&turn.id) {
            return Err(
                HarnessError::State(
                    join4("Turn control ", self.turn_id.as_str(), " does not match active turn ", turn.id.as_str()),
                ),
            );
        }
        Ok(())
    }
}

/// Outcome of a steering submission, up to the point where it is recorded.
pub open spec fn submission(
    control: ActiveTurnControl,
    expected_turn: Seq<char>,
    content: Seq<char>,
    authority: AuthorityView,
) -> Result<(), ErrorView> {
    if !prompt_is_valid(content) {
        Err(invalid_steering())
    } else if authority.check("steering authority"@) is Err {
        Err(authority.check("steering authority"@)->Err_0)
    } else {
        admission(control, expected_turn, content)
    }
}

/// Whether a record queues this steering for the party of this authority.
pub open spec fn records_submission(
    record: ItemKind,
    steering_id: SteeringId,
    authority: AuthorityView,
    content: String,
) -> bool {
    record matches ItemKind::SteeringQueued { steering_id: id, submitted_by, content: text } && id == steering_id
        && submitted_by@ == authority.actor && text == content
}

/// Checks a steering submission and returns the record to write for it.
///
/// Nothing is written and nothing changes where the submission is refused.
pub fn steering_record(
    control: &ActiveTurnControl,
    expected_turn_id: &TurnId,
    content: &String,
    steering_id: &SteeringId,
    authority: &AuthorityContext,
) -> (result: Result<ItemKind, HarnessError>)
    ensures
        match result {
            Ok(record) => submission(*control, expected_turn_id@, content@, authority@) is Ok
                && records_submission(record, *steering_id, authority@, *content),
            Err(error) => submission(*control, expected_turn_id@, content@, authority@) == Err::<(), ErrorView>(error@),
        },
{
    if let Err(error) = validate_steering(content.as_str()) {
        return Err(error);
    }
    if let Err(error) = authority.validate_current("steering authority") {
        return Err(error);
    }
    if let Err(error) = control.check_admission(expected_turn_id, content.as_str()) {
        return Err(error);
    }
    Ok(
        ItemKind::SteeringQueued {
            steering_id: steering_id.clone(),
            submitted_by: authority.actor().clone(),
            content: content.clone(),
        },
    )
}

/// Registers the control of a Turn under its Thread.
pub fn register_turn_control<V>(controls: &mut Table<V>, turn: &Turn, control: V) -> (result: Result<(), HarnessError>)
    ensures
        settles(
            result,
            if old(controls)@.contains_key(turn.thread_id@) {
                Err(ErrorView::State("thread "@ + turn.thread_id@ + " already has an active Turn control"@))
            } else {
                Ok(())
            },
        ),
        final(controls)@ == if result is Ok {
            old(controls)@.insert(turn.thread_id@, control)
        } else {
            old(controls)@
        },
{
    if controls.contains(turn.thread_id.as_str()) {
        return Err(
            HarnessError::State(join3("thread ", turn.thread_id.as_str(), " already has an active Turn control")),
        );
    }
    controls.insert(String::from_str(turn.thread_id.as_str()), control);
    Ok(())
}

/// Looks up the control of the active Turn of a Thread.
pub fn turn_control<'a, V>(controls: &'a Table<V>, thread_id: &ThreadId) -> (result: Result<&'a V, HarnessError>)
    ensures
        match result {
            Ok(control) => controls@.contains_key(thread_id@) && *control == controls@[thread_id@],
            Err(error) => !controls@.contains_key(thread_id@) && error@ == ErrorView::State(
                "thread "@ + thread_id@ + " has no active steerable Turn"@,
            ),
        },
{
    match controls.get(thread_id.as_str()) {
        Some(control) => Ok(control),
        None => Err(HarnessError::State(join3("thread ", thread_id.as_str(), " has no active steerable Turn"))),
    }
}

/// Admits a Turn of a Thread, where the Thread has none and the Runtime is
/// not full.
pub fn claim_thread(active: &mut Table<()>, thread_id: &ThreadId, limit: usize) -> (result: Result<(), HarnessError>)
    ensures
        settles(
            result,
            if old(active)@.contains_key(thread_id@) {
                Err(ErrorView::State("thread "@ + thread_id@ + " already has an active turn"@))
            } else if old(active)@.len() + 1 > limit {
                Err(ErrorView::RuntimeOverloaded(limit as nat))
            } else {
                Ok(())
            },
        ),
        final(active)@ == if result is Ok {
            old(active)@.insert(thread_id@, ())
        } else {
            old(active)@
        },
{
    if active.contains(thread_id.as_str()) {
        return Err(HarnessError::State(join3("thread ", thread_id.as_str(), " already has an active turn")));
    }
    if active.len() >= limit {
        return Err(HarnessError::RuntimeOverloaded { limit });
    }
    active.insert(String::from_str(thread_id.as_str()), ());
    Ok(())
}

/// A submission that is admitted leaves the queue within its bounds.
pub proof fn law_admitted_steering_keeps_the_queue_bounded(
    control: ActiveTurnControl,
    expected_turn: Seq<char>,
    steering: PendingSteering,
)
    requires
        admission(control, expected_turn, steering.content@) is Ok,
    ensures
        control.pending().push(steering).len() <= MAX_PENDING_STEERING,
        steering_bytes(control.pending().push(steering)) <= MAX_PENDING_STEERING_BYTES,
{
    lemma_bytes_push(control.pending(), steering);
}

/// Recording the next application keeps journal and queue in step: the replay
/// of the longer journal is the queue without its first submission.
pub proof fn law_replay_follows_application(items: Seq<Item>, pending: Seq<PendingSteering>, applied: Item)
    requires
        pending_steering(items) == Ok::<Seq<PendingSteering>, ErrorView>(pending),
        pending.len() > 0,
        applied.kind == application(pending[0]),
    ensures
        pending_steering(items.push(applied)) == Ok::<Seq<PendingSteering>, ErrorView>(pending.drop_first()),
{
    assert(items.push(applied).drop_last() =~= items);
}

/// Recording a submission under a fresh identity keeps journal and queue in
/// step: the replay of the longer journal is the queue with the submission
/// behind it.
pub proof fn law_replay_follows_submission(items: Seq<Item>, pending: Seq<PendingSteering>, queued: Item)
    requires
        pending_steering(items) == Ok::<Seq<PendingSteering>, ErrorView>(pending),
        queued.kind matches ItemKind::SteeringQueued { steering_id, .. } && forall|i: int|
            0 <= i < items.len() ==> !queues(#[trigger] items[i], steering_id@),
    ensures
        queued.kind matches ItemKind::SteeringQueued { steering_id, content, .. } && pending_steering(items.push(queued))
            == Ok::<Seq<PendingSteering>, ErrorView>(pending.push(PendingSteering { steering_id, content })),
{
    assert(items.push(queued).drop_last() =~= items);
}

/// Submissions of a journal, in order.
pub open spec fn submissions(items: Seq<Item>) -> Seq<PendingSteering>
    decreases items.len(),
{
    if items.len() == 0 {
        Seq::empty()
    } else {
        match items.last().kind {
            ItemKind::SteeringQueued { steering_id, content, .. } => submissions(items.drop_last()).push(
                PendingSteering { steering_id, content },
            ),
            _ => submissions(items.drop_last()),
        }
    }
}

/// Number of applications in a journal.
pub open spec fn applications(items: Seq<Item>) -> nat
    decreases items.len(),
{
    if items.len() == 0 {
        0
    } else if items.last().kind is SteeringApplied {
        applications(items.drop_last()) + 1
    } else {
        applications(items.drop_last())
    }
}

/// What waits is what was queued and not yet applied, in the order of the
/// queue. Everything that was queued has an identity of its own, and what was
/// applied is the oldest message of the queue at that point, word for word.
pub proof fn law_pending_steering_was_queued_and_not_applied(items: Seq<Item>)
    requires
        pending_steering(items) is Ok,
    ensures
        applications(items) <= submissions(items).len(),
        pending_steering(items)->Ok_0 == submissions(items).skip(applications(items) as int),
        forall|i: int, j: int|
            0 <= i < j < submissions(items).len() ==> (#[trigger] submissions(items)[i]).steering_id@ != (
            #[trigger] submissions(items)[j]).steering_id@,
        forall|k: int|
            0 <= k < items.len() ==> ((#[trigger] items[k]).kind matches ItemKind::SteeringApplied { steering_id, content }
                ==> {
                let before = items.take(k);
                applications(before) < submissions(before).len() && submissions(before)[applications(before) as int].steering_id@
                    == steering_id@ && submissions(before)[applications(before) as int].content@ == content@
            }),
    decreases items.len(),
{
    if items.len() > 0 {
        let earlier = items.drop_last();
        law_pending_steering_was_queued_and_not_applied(earlier);
        assert(items.take(items.len() - 1) =~= earlier);
        let pending = pending_steering(earlier)->Ok_0;
        assert forall|k: int| 0 <= k < items.len() implies ((#[trigger] items[k]).kind matches ItemKind::SteeringApplied {
            steering_id,
            content,
        } ==> {
            let before = items.take(k);
            applications(before) < submissions(before).len() && submissions(before)[applications(before) as int].steering_id@
                == steering_id@ && submissions(before)[applications(before) as int].content@ == content@
        }) by {
            if k < earlier.len() {
                assert(earlier[k] == items[k]);
                assert(earlier.take(k) =~= items.take(k));
            } else {
                assert(items.take(k) =~= earlier);
                if items[k].kind is SteeringApplied {
                    assert(pending[0] == submissions(earlier)[applications(earlier) as int]);
                }
            }
        }
        match items.last().kind {
            ItemKind::SteeringQueued { steering_id, content, .. } => {
                let one = PendingSteering { steering_id, content };
                assert(submissions(items) == submissions(earlier).push(one));
                assert(submissions(earlier).skip(applications(earlier) as int).push(one) =~= submissions(items).skip(
                    applications(items) as int,
                ));
                lemma_submissions_are_recorded(earlier);
                assert forall|i: int, j: int| 0 <= i < j < submissions(items).len() implies (
                #[trigger] submissions(items)[i]).steering_id@ != (#[trigger] submissions(items)[j]).steering_id@ by {
                    assert(submissions(items)[i] == submissions(earlier)[i]);
                    if j < submissions(earlier).len() {
                        assert(submissions(items)[j] == submissions(earlier)[j]);
                    } else {
                        let at = choose|at: int|
                            0 <= at < earlier.len() && queues(#[trigger] earlier[at], submissions(earlier)[i].steering_id@);
                        assert(queues(earlier[at], submissions(earlier)[i].steering_id@));
                    }
                }
            },
            ItemKind::SteeringApplied { .. } => {
                assert(pending.drop_first() =~= submissions(items).skip(applications(items) as int));
            },
            _ => {},
        }
    } else {
        assert(submissions(items).skip(0) =~= Seq::empty());
    }
}

proof fn lemma_submissions_are_recorded(items: Seq<Item>)
    ensures
        forall|i: int|
            0 <= i < submissions(items).len() ==> exists|at: int|
                0 <= at < items.len() && queues(#[trigger] items[at], (#[trigger] submissions(items)[i]).steering_id@),
    decreases items.len(),
{
    if items.len() > 0 {
        let earlier = items.drop_last();
        lemma_submissions_are_recorded(earlier);
        assert forall|i: int| 0 <= i < submissions(items).len() implies exists|at: int|
            0 <= at < items.len() && queues(#[trigger] items[at], (#[trigger] submissions(items)[i]).steering_id@) by {
            if i < submissions(earlier).len() {
                assert(submissions(items)[i] == submissions(earlier)[i]);
                let at = choose|at: int|
                    0 <= at < earlier.len() && queues(#[trigger] earlier[at], submissions(earlier)[i].steering_id@);
                assert(queues(items[at], submissions(items)[i].steering_id@));
            } else {
                assert(queues(items[items.len() - 1], submissions(items)[i].steering_id@));
            }
        }
    }
}

/// A queue is recovered as it is recorded, where it holds at most 64 messages
/// of 1048576 bytes in all.
pub proof fn law_recovered_queues_are_bounded(items: Seq<Item>)
    ensures
        recovery(items) is Ok <==> pending_steering(items) is Ok && pending_steering(items)->Ok_0.len() <= 64 && steering_bytes(
            pending_steering(items)->Ok_0,
        ) <= 1_048_576,
        recovery(items) is Ok ==> recovery(items)->Ok_0 == pending_steering(items)->Ok_0,
{
}

/// A submission is recorded with its identity, its author and its words.
pub proof fn law_submissions_are_recorded_as_made(
    record: ItemKind,
    steering_id: SteeringId,
    authority: AuthorityView,
    content: String,
)
    requires
        records_submission(record, steering_id, authority, content),
    ensures
        record is SteeringQueued,
        record->SteeringQueued_steering_id == steering_id,
        record->SteeringQueued_submitted_by@ == authority.actor,
        record->SteeringQueued_content == content,
{
}

} // verus!
