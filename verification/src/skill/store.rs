//! Live trust stores that several parties share.

use vstd::prelude::*;

use crate::error::{settles, HarnessError};
use crate::skill::state::{
    empty_trust, optional_log, reports_log, reports_publisher, revalidation, revokes_log, revokes_publisher, trusts_log,
    trusts_publisher, verifies_package, SkillTrustState, TrustView,
};
use crate::skill::trust::{
    open_policy, SignedSkillPackage, SkillKeyRevocation, SkillPublisherPolicy, VerifiedSkillTransparency,
};

verus! {

/// Explicit, live operator trust policy for external Skill publishers.
///
/// A store is a handle: every copy of it stands for the same store, and what
/// one party does through its copy all others see. What the stores of a
/// process hold stands in one `SkillTrustStates`.
#[derive(Clone, Copy, Debug, PartialEq, Eq)]
pub struct SkillTrustStore {
    number: usize,
}

/// What every trust store of a process holds at present.
pub struct SkillTrustStates {
    states: Vec<SkillTrustState>,
}

impl View for SkillTrustStates {
    type V = Map<SkillTrustStore, TrustView>;

    closed spec fn view(&self) -> Map<SkillTrustStore, TrustView> {
        Map::new(
            |store: SkillTrustStore| true,
            |store: SkillTrustStore|
                if store.number < self.states@.len() {
                    self.states@[store.number as int]@
                } else {
                    empty_trust()
                },
        )
    }
}

impl SkillTrustStates {
    /// Stores that are in use.
    pub closed spec fn stores(self) -> Set<SkillTrustStore> {
        Set::new(|store: SkillTrustStore| store.number < self.states@.len())
    }

    /// Creates the states of a process that has no store yet.
    pub fn new() -> (states: Self)
        ensures
            states.stores() == Set::<SkillTrustStore>::empty(),
            forall|store: SkillTrustStore| #[trigger] states@.contains_key(store) && states@[store] == empty_trust(),
    {
        let states = SkillTrustStates { states: Vec::new() };
        assert(states.stores() =~= Set::<SkillTrustStore>::empty());
        states
    }

    fn find(&self, store: SkillTrustStore) -> (state: Option<&SkillTrustState>)
        ensures
            match state {
                Some(state) => self@[store] == state@,
                None => self@[store] == empty_trust(),
            },
    {
        if store.number < self.states.len() {
            Some(&self.states[store.number])
        } else {
            None
        }
    }

    fn reach(&mut self, store: SkillTrustStore)
        ensures
            final(self)@ == old(self)@,
            old(self).stores().subset_of(final(self).stores()),
            store.number < final(self).states@.len(),
    {
        while self.states.len() <= store.number
            invariant
                self@ == old(self)@,
                old(self).stores().subset_of(self.stores()),
            decreases store.number + 1 - self.states@.len(),
        {
            let ghost before = *self;
            self.states.push(SkillTrustState::new());
            assert forall|other: SkillTrustStore| #[trigger] self@[other] == before@[other] by {}
            assert(self@ =~= before@);
        }
    }
}

/// Whether one store holds something else than before, and every other store
/// what it held.
pub open spec fn changes_store(
    before: SkillTrustStates,
    after: SkillTrustStates,
    store: SkillTrustStore,
    holds: TrustView,
) -> bool {
    after@ == before@.insert(store, holds) && before.stores().subset_of(after.stores())
}

impl SkillTrustStore {
    /// Creates an empty trust store; no publisher is trusted by default.
    pub fn new(states: &mut SkillTrustStates) -> (store: Self)
        ensures
            !old(states).stores().contains(store),
            final(states).stores() == old(states).stores().insert(store),
            final(states)@ == old(states)@,
            final(states)@[store] == empty_trust(),
    {
        let ghost before = *states;
        let store = SkillTrustStore { number: states.states.len() };
        states.states.push(SkillTrustState::new());
        assert forall|other: SkillTrustStore| #[trigger] states@[other] == before@[other] by {}
        assert(states@ =~= before@);
        assert(states.stores() =~= before.stores().insert(store));
        store
    }

    /// Registers one raw Ed25519 public key without allowing replacement.
    pub fn trust(&self, states: &mut SkillTrustStates, key_id: String, public_key: [u8; 32]) -> (result: Result<
        (),
        HarnessError,
    >)
        ensures
            changes_store(*old(states), *final(states), *self, final(states)@[*self]),
            trusts_publisher(
                old(states)@[*self],
                final(states)@[*self],
                key_id@,
                public_key@,
                open_policy(),
                result,
            ),
    {
        self.trust_with_policy(states, key_id, public_key, SkillPublisherPolicy::default())
    }

    /// Registers one publisher key with explicit time and transparency policy.
    pub fn trust_with_policy(
        &self,
        states: &mut SkillTrustStates,
        key_id: String,
        public_key: [u8; 32],
        policy: SkillPublisherPolicy,
    ) -> (result: Result<(), HarnessError>)
        ensures
            changes_store(*old(states), *final(states), *self, final(states)@[*self]),
            trusts_publisher(old(states)@[*self], final(states)@[*self], key_id@, public_key@, policy, result),
    {
        states.reach(*self);
        let ghost reached = *states;
        let result = states.states[self.number].trust_with_policy(key_id, public_key, policy);
        proof {
            lemma_one_changed(reached, *states, *self);
        }
        result
    }

    /// Registers one transparency-log verification key without replacement.
    pub fn trust_transparency_log(&self, states: &mut SkillTrustStates, log_id: String, public_key: [u8; 32]) -> (result:
        Result<(), HarnessError>)
        ensures
            changes_store(*old(states), *final(states), *self, final(states)@[*self]),
            trusts_log(old(states)@[*self], final(states)@[*self], log_id@, public_key@, result),
    {
        states.reach(*self);
        let ghost reached = *states;
        let result = states.states[self.number].trust_transparency_log(log_id, public_key);
        proof {
            lemma_one_changed(reached, *states, *self);
        }
        result
    }

    /// Irreversibly records an effective publisher-key revocation.
    pub fn revoke_publisher(&self, states: &mut SkillTrustStates, key_id: &str, revoked_at_ms: u64, reason_code: String) -> (result:
        Result<(), HarnessError>)
        ensures
            changes_store(*old(states), *final(states), *self, final(states)@[*self]),
            revokes_publisher(
                old(states)@[*self],
                final(states)@[*self],
                key_id@,
                revoked_at_ms,
                reason_code,
                result,
            ),
    {
        states.reach(*self);
        let ghost reached = *states;
        let result = states.states[self.number].revoke_publisher(key_id, revoked_at_ms, reason_code);
        proof {
            lemma_one_changed(reached, *states, *self);
        }
        result
    }

    /// Irreversibly records an effective transparency-log key revocation.
    pub fn revoke_transparency_log(
        &self,
        states: &mut SkillTrustStates,
        log_id: &str,
        revoked_at_ms: u64,
        reason_code: String,
    ) -> (result: Result<(), HarnessError>)
        ensures
            changes_store(*old(states), *final(states), *self, final(states)@[*self]),
            revokes_log(old(states)@[*self], final(states)@[*self], log_id@, revoked_at_ms, reason_code, result),
    {
        states.reach(*self);
        let ghost reached = *states;
        let result = states.states[self.number].revoke_transparency_log(log_id, revoked_at_ms, reason_code);
        proof {
            lemma_one_changed(reached, *states, *self);
        }
        result
    }

    /// Returns the immutable publisher revocation record when present.
    pub fn publisher_revocation(&self, states: &SkillTrustStates, key_id: &str) -> (result: Result<
        Option<SkillKeyRevocation>,
        HarnessError,
    >)
        ensures
            reports_publisher(states@[*self], key_id@, result),
    {
        match states.find(*self) {
            Some(state) => state.publisher_revocation(key_id),
            None => SkillTrustState::new().publisher_revocation(key_id),
        }
    }

    /// Returns the immutable transparency-log revocation record when present.
    pub fn transparency_log_revocation(&self, states: &SkillTrustStates, log_id: &str) -> (result: Result<
        Option<SkillKeyRevocation>,
        HarnessError,
    >)
        ensures
            reports_log(states@[*self], log_id@, result),
    {
        match states.find(*self) {
            Some(state) => state.transparency_log_revocation(log_id),
            None => SkillTrustState::new().transparency_log_revocation(log_id),
        }
    }

    /// Verifies content, publisher and receipt of a signed package, and
    /// returns the evidence that the receipt leaves behind.
    pub fn verify(&self, states: &SkillTrustStates, signed: &SignedSkillPackage, observed_at_ms: u64) -> (result: Result<
        Option<VerifiedSkillTransparency>,
        HarnessError,
    >)
        ensures
            verifies_package(states@[*self], *signed, observed_at_ms, result),
    {
        match states.find(*self) {
            Some(state) => state.verify(signed, observed_at_ms),
            None => SkillTrustState::new().verify(signed, observed_at_ms),
        }
    }

    /// Decides whether a package that was verified earlier may still be relied
    /// on.
    pub fn revalidate_registered(
        &self,
        states: &SkillTrustStates,
        publisher_key_id: &str,
        transparency_log_id: Option<&str>,
        observed_at_ms: u64,
    ) -> (result: Result<(), HarnessError>)
        ensures
            settles(
                result,
                revalidation(states@[*self], publisher_key_id@, optional_log(transparency_log_id), observed_at_ms),
            ),
    {
        match states.find(*self) {
            Some(state) => state.revalidate_registered(publisher_key_id, transparency_log_id, observed_at_ms),
            None => SkillTrustState::new().revalidate_registered(publisher_key_id, transparency_log_id, observed_at_ms),
        }
    }
}

proof fn lemma_one_changed(before: SkillTrustStates, after: SkillTrustStates, store: SkillTrustStore)
    requires
        store.number < before.states@.len(),
        after.states@.len() == before.states@.len(),
        forall|k: int| 0 <= k < before.states@.len() && k != store.number ==> after.states@[k] == before.states@[k],
    ensures
        changes_store(before, after, store, after@[store]),
        before@[store] == before.states@[store.number as int]@,
        after@[store] == after.states@[store.number as int]@,
{
    assert forall|other: SkillTrustStore| other != store implies #[trigger] after@[other] == before@[other] by {}
    assert(after@ =~= before@.insert(store, after@[store]));
}

/// A change to one store is seen there and in no other, and no store is lost.
pub proof fn law_stores_change_one_at_a_time(
    before: SkillTrustStates,
    after: SkillTrustStates,
    store: SkillTrustStore,
    other: SkillTrustStore,
    holds: TrustView,
)
    requires
        changes_store(before, after, store, holds),
    ensures
        after@[store] == holds,
        other != store ==> after@[other] == before@[other],
        before.stores().contains(other) ==> after.stores().contains(other),
{
}

} // verus!
