//! Registered Skill packages.

use vstd::prelude::*;

use crate::clock::now_ms;
use crate::error::{ErrorView, HarnessError};
use crate::kernel::{
    invalid_origin, origin_is_valid, registry_full, validate_capability_origin, validate_registry_growth, CapabilityOrigin,
    MAX_REGISTRY_ENTRIES,
};
use crate::skill::package::{
    envelope, package_check, package_identity, skill_error, validate_package, validate_package_content_envelope,
    SkillPackage,
};
use crate::skill::state::{evidence, verification};
use crate::skill::store::{SkillTrustStates, SkillTrustStore};
use crate::skill::trust::{SignedSkillPackage, VerifiedSkillTransparency};
use crate::skill::version::{SkillId, SkillIdView};
use crate::table::Rank;
use crate::text::join2;

verus! {

/// Largest content of all registered packages, in bytes.
pub const MAX_SKILL_REGISTRY_CONTENT_BYTES: usize = 67_108_864;

/// Registered package with its operator-assigned trust origin.
pub struct RegisteredSkill {
    /// Exact package identity.
    pub id: SkillId,
    /// Registration trust origin.
    pub origin: CapabilityOrigin,
    /// Verified immutable package.
    pub package: SkillPackage,
    /// Verified publisher trust root for an external package.
    pub publisher_key_id: Option<String>,
    /// Verified signed transparency evidence for an external package.
    pub transparency: Option<VerifiedSkillTransparency>,
    /// Trust store that verified an external package, and that it stays under.
    pub publisher_trust: Option<SkillTrustStore>,
}

/// Registry that validates Skill metadata, content integrity, and collisions.
pub struct SkillRegistry {
    skills: Vec<RegisteredSkill>,
    content_bytes: usize,
}

/// What a registry holds.
pub struct RegistryView {
    /// Packages in identity order.
    pub skills: Seq<RegisteredSkill>,
    /// Content of the packages in bytes.
    pub content_bytes: nat,
}

impl View for SkillRegistry {
    type V = RegistryView;

    closed spec fn view(&self) -> RegistryView {
        RegistryView { skills: self.skills@, content_bytes: self.content_bytes as nat }
    }
}

/// Whether packages stand in strictly ascending identity order.
pub open spec fn skills_ordered(skills: Seq<RegisteredSkill>) -> bool {
    forall|i: int, j: int| 0 <= i < j < skills.len() ==> (#[trigger] skills[i]).id@.before((#[trigger] skills[j]).id@)
}

/// Index of the package with an identity, from `n` on.
pub open spec fn index_of(skills: Seq<RegisteredSkill>, id: SkillIdView, n: int) -> Option<int>
    decreases skills.len() - n,
{
    if n < 0 || n >= skills.len() {
        None
    } else if skills[n].id@ == id {
        Some(n)
    } else {
        index_of(skills, id, n + 1)
    }
}

/// Index of the package with an identity.
pub open spec fn find(skills: Seq<RegisteredSkill>, id: SkillIdView) -> Option<int> {
    index_of(skills, id, 0)
}

pub(crate) proof fn lemma_index(skills: Seq<RegisteredSkill>, id: SkillIdView, n: int)
    requires
        0 <= n,
    ensures
        index_of(skills, id, n) matches Some(k) ==> n <= k < skills.len() && skills[k].id@ == id,
        index_of(skills, id, n) is None ==> forall|k: int| n <= k < skills.len() ==> (#[trigger] skills[k]).id@ != id,
    decreases skills.len() - n,
{
    if n < skills.len() && skills[n].id@ != id {
        lemma_index(skills, id, n + 1);
    }
}

/// Error of a second package with the same identity.
pub open spec fn duplicate_skill(id: SkillIdView) -> ErrorView {
    ErrorView::DuplicateCapability("skill "@ + id.shown())
}

/// Outcome of adding a package to what is registered.
pub open spec fn insertion(registry: RegistryView, package: SkillPackage) -> Result<nat, ErrorView> {
    if find(registry.skills, package_identity(package)) is Some {
        Err(duplicate_skill(package_identity(package)))
    } else {
        match envelope(package.manifest, package.instructions@, package.resources.rows()) {
            Err(fault) => Err(fault),
            Ok(size) => if registry.content_bytes + size > usize::MAX {
                Err(ErrorView::Skill("Skill registry byte count overflow"@))
            } else if registry.content_bytes + size > MAX_SKILL_REGISTRY_CONTENT_BYTES {
                Err(ErrorView::Skill("Skill registry content exceeds 67108864 bytes"@))
            } else {
                Ok(registry.content_bytes + size)
            },
        }
    }
}

/// Checks that come before the package is looked at.
pub open spec fn registration_gate(registry: RegistryView, origin: CapabilityOrigin) -> Result<(), ErrorView> {
    if !origin_is_valid(origin@) {
        Err(invalid_origin())
    } else if registry.skills.len() + 1 > MAX_REGISTRY_ENTRIES {
        Err(registry_full("Skill"@))
    } else {
        Ok(())
    }
}

/// Outcome of registering a package that is not external.
pub open spec fn registration(registry: RegistryView, origin: CapabilityOrigin, package: SkillPackage) -> Result<nat, ErrorView> {
    if registration_gate(registry, origin) is Err {
        Err(registration_gate(registry, origin)->Err_0)
    } else if origin is External {
        Err(ErrorView::Skill("external Skill packages require register_signed"@))
    } else if package_check(package) is Err {
        Err(package_check(package)->Err_0)
    } else {
        insertion(registry, package)
    }
}

/// Outcome of registering an external package.
pub open spec fn signed_registration(
    registry: RegistryView,
    origin: CapabilityOrigin,
    signed: SignedSkillPackage,
    trust: SkillTrustStore,
    states: SkillTrustStates,
    observed_at_ms: u64,
) -> Result<nat, ErrorView> {
    if registration_gate(registry, origin) is Err {
        Err(registration_gate(registry, origin)->Err_0)
    } else if !(origin is External) {
        Err(ErrorView::Skill("signed external registration requires an external origin"@))
    } else if verification(states@[trust], signed, observed_at_ms) is Err {
        Err(verification(states@[trust], signed, observed_at_ms)->Err_0)
    } else {
        insertion(registry, signed.package)
    }
}

/// Whether a registry grew by one package, kept in order.
pub open spec fn grows(
    before: RegistryView,
    after: RegistryView,
    content_bytes: nat,
    origin: CapabilityOrigin,
    package: SkillPackage,
    publisher_key_id: Option<String>,
    transparency: Option<VerifiedSkillTransparency>,
    publisher_trust: Option<SkillTrustStore>,
) -> bool {
    &&& after.content_bytes == content_bytes
    &&& skills_ordered(after.skills)
    &&& exists|position: int, skill: RegisteredSkill|
        0 <= position <= before.skills.len() && #[trigger] before.skills.insert(position, skill) == after.skills
            && skill.id@ == package_identity(package) && skill.origin == origin && skill.package == package
            && skill.publisher_key_id == publisher_key_id && skill.transparency == transparency && skill.publisher_trust
            == publisher_trust
}

/// Outcome of registering a signed external package that is looked at at this
/// time: the registry grows by it, or nothing changes.
pub open spec fn registers_signed(
    before: SkillRegistry,
    after: SkillRegistry,
    origin: CapabilityOrigin,
    signed: SignedSkillPackage,
    trust: SkillTrustStore,
    states: SkillTrustStates,
    observed_at_ms: u64,
    result: Result<(), HarnessError>,
) -> bool {
    match signed_registration(before@, origin, signed, trust, states, observed_at_ms) {
        Err(fault) => result matches Err(error) && error@ == fault && after == before,
        Ok(content_bytes) => result is Ok && grows(
            before@,
            after@,
            content_bytes,
            origin,
            signed.package,
            Some(signed.signature.key_id),
            evidence(signed.transparency),
            Some(trust),
        ),
    }
}

impl SkillRegistry {
    #[verifier::type_invariant]
    spec fn ordered(self) -> bool {
        &&& skills_ordered(self.skills@)
        &&& self.content_bytes <= MAX_SKILL_REGISTRY_CONTENT_BYTES
    }

    /// Creates an empty registry.
    pub fn new() -> (registry: Self)
        ensures
            registry@.skills.len() == 0,
            registry@.content_bytes == 0,
    {
        SkillRegistry { skills: Vec::new(), content_bytes: 0 }
    }

    /// Creates an empty registry that shares its content budget with packages
    /// held elsewhere.
    pub fn sharing_budget(content_bytes: usize) -> (registry: Option<Self>)
        ensures
            match registry {
                Some(registry) => content_bytes <= MAX_SKILL_REGISTRY_CONTENT_BYTES && registry@.skills.len() == 0
                    && registry@.content_bytes == content_bytes,
                None => content_bytes > MAX_SKILL_REGISTRY_CONTENT_BYTES,
            },
    {
        if content_bytes > MAX_SKILL_REGISTRY_CONTENT_BYTES {
            return None;
        }
        Some(SkillRegistry { skills: Vec::new(), content_bytes })
    }

    /// Returns the content of the packages in bytes.
    pub fn content_bytes(&self) -> (bytes: usize)
        ensures
            bytes == self@.content_bytes,
            bytes <= MAX_SKILL_REGISTRY_CONTENT_BYTES,
    {
        proof {
            use_type_invariant(self);
        }
        self.content_bytes
    }

    /// Returns the number of packages.
    pub fn len(&self) -> (count: usize)
        ensures
            count == self@.skills.len(),
            skills_ordered(self@.skills),
    {
        proof {
            use_type_invariant(self);
        }
        self.skills.len()
    }

    /// Validates and registers one exact package version.
    pub fn register(&mut self, origin: CapabilityOrigin, package: SkillPackage) -> (result: Result<(), HarnessError>)
        ensures
            match registration(old(self)@, origin, package) {
                Err(fault) => result matches Err(error) && error@ == fault && *final(self) == *old(self),
                Ok(content_bytes) => result is Ok && grows(
                    old(self)@,
                    final(self)@,
                    content_bytes,
                    origin,
                    package,
                    None,
                    None,
                    None,
                ),
            },
    {
        if let Err(error) = validate_capability_origin(&origin) {
            return Err(error);
        }
        if let Err(error) = validate_registry_growth("Skill", self.skills.len(), 1) {
            return Err(error);
        }
        if let CapabilityOrigin::External { .. } = &origin {
            return Err(skill_error("external Skill packages require register_signed"));
        }
        if let Err(error) = validate_package(&package) {
            return Err(error);
        }
        self.insert(origin, package, None, None, None)
    }

    /// Verifies and registers a signed external package at the current time.
    pub fn register_signed(
        &mut self,
        origin: CapabilityOrigin,
        signed: SignedSkillPackage,
        trust: &SkillTrustStore,
        states: &SkillTrustStates,
    ) -> (result: Result<(), HarnessError>)
        ensures
            exists|now: u64| #[trigger]
                registers_signed(*old(self), *final(self), origin, signed, *trust, *states, now, result),
    {
        self.register_signed_at(origin, signed, trust, states, now_ms())
    }

    /// Verifies at one explicit time for deterministic import pipelines.
    pub fn register_signed_at(
        &mut self,
        origin: CapabilityOrigin,
        signed: SignedSkillPackage,
        trust: &SkillTrustStore,
        states: &SkillTrustStates,
        observed_at_ms: u64,
    ) -> (result: Result<(), HarnessError>)
        ensures
            registers_signed(*old(self), *final(self), origin, signed, *trust, *states, observed_at_ms, result),
    {
        if let Err(error) = validate_capability_origin(&origin) {
            return Err(error);
        }
        if let Err(error) = validate_registry_growth("Skill", self.skills.len(), 1) {
            return Err(error);
        }
        match &origin {
            CapabilityOrigin::External { .. } => {},
            _ => {
                return Err(skill_error("signed external registration requires an external origin"));
            },
        }
        match trust.verify(states, &signed, observed_at_ms) {
            Err(error) => Err(error),
            Ok(transparency) => self.insert(
                origin,
                signed.package,
                Some(signed.signature.key_id),
                transparency,
                Some(*trust),
            ),
        }
    }

    fn insert(
        &mut self,
        origin: CapabilityOrigin,
        package: SkillPackage,
        publisher_key_id: Option<String>,
        transparency: Option<VerifiedSkillTransparency>,
        publisher_trust: Option<SkillTrustStore>,
    ) -> (result: Result<(), HarnessError>)
        ensures
            match insertion(old(self)@, package) {
                Err(fault) => result matches Err(error) && error@ == fault && *final(self) == *old(self),
                Ok(content_bytes) => result is Ok && grows(
                    old(self)@,
                    final(self)@,
                    content_bytes,
                    origin,
                    package,
                    publisher_key_id,
                    transparency,
                    publisher_trust,
                ),
            },
    {
        proof {
            use_type_invariant(&*self);
        }
        let id = package.id();
        let position = match self.position(&id) {
            Ok(_) => {
                let shown = id.shown();
                return Err(HarnessError::DuplicateCapability(join2("skill ", shown.as_str())));
            },
            Err(position) => position,
        };
        let size = match validate_package_content_envelope(
            &package.manifest,
            package.instructions.as_str(),
            &package.resources,
        ) {
            Ok(size) => size,
            Err(error) => {
                return Err(error);
            },
        };
        let next = match self.content_bytes.checked_add(size) {
            Some(next) => next,
            None => {
                return Err(skill_error("Skill registry byte count overflow"));
            },
        };
        if next > MAX_SKILL_REGISTRY_CONTENT_BYTES {
            return Err(skill_error("Skill registry content exceeds 67108864 bytes"));
        }
        let skill = RegisteredSkill { id, origin, package, publisher_key_id, transparency, publisher_trust };
        let ghost before = self.skills@;
        let mut skills: Vec<RegisteredSkill> = Vec::new();
        std::mem::swap(&mut skills, &mut self.skills);
        skills.insert(position, skill);
        proof {
            let after = before.insert(position as int, skill);
            assert(skills@ =~= after);
            assert forall|i: int, j: int| 0 <= i < j < after.len() implies (#[trigger] after[i]).id@.before(
                (#[trigger] after[j]).id@,
            ) by {
                if i < position && j > position {
                    assert(before[i].id@.before(before[j - 1].id@));
                } else if i > position {
                    assert(before[i - 1].id@.before(before[j - 1].id@));
                } else if j < position {
                    assert(before[i].id@.before(before[j].id@));
                } else if j == position {
                    assert(before[i].id@.before(skill.id@));
                } else {
                    assert(skill.id@.before(before[j - 1].id@));
                }
            }
        }
        self.content_bytes = next;
        self.skills = skills;
        Ok(())
    }

    /// Index of the package with an identity, or of the place where it would
    /// stand.
    fn position(&self, id: &SkillId) -> (result: Result<usize, usize>)
        ensures
            match result {
                Ok(index) => index < self@.skills.len() && find(self@.skills, id@) == Some(index as int)
                    && self@.skills[index as int].id@ == id@,
                Err(index) => find(self@.skills, id@) is None && index <= self@.skills.len() && (forall|k: int|
                    0 <= k < index ==> (#[trigger] self@.skills[k]).id@.before(id@)) && forall|k: int|
                    index <= k < self@.skills.len() ==> id@.before((#[trigger] self@.skills[k]).id@),
            },
    {
        proof {
            use_type_invariant(self);
        }
        let ghost skills = self.skills@;
        let mut n: usize = 0;
        while n < self.skills.len()
            invariant
                n <= skills.len(),
                skills == self.skills@,
                skills == self@.skills,
                skills_ordered(skills),
                forall|k: int| 0 <= k < n ==> (#[trigger] skills[k]).id@.before(id@),
                forall|k: int| 0 <= k < n ==> (#[trigger] skills[k]).id@ != id@,
                find(skills, id@) == index_of(skills, id@, n as int),
            decreases skills.len() - n,
        {
            match self.skills[n].id.rank(id) {
                Rank::Same => {
                    return Ok(n);
                },
                Rank::Before => {
                    n += 1;
                },
                Rank::After => {
                    proof {
                        assert forall|k: int| n <= k < skills.len() implies id@.before((#[trigger] skills[k]).id@) by {
                            if k > n {
                                assert(skills[n as int].id@.before(skills[k].id@));
                            }
                        }
                        let found = index_of(skills, id@, n as int);
                        lemma_index(skills, id@, n as int);
                        if found is Some {
                            assert(skills[n as int].id@.before(skills[found->0].id@));
                        }
                    }
                    return Err(n);
                },
            }
        }
        Err(n)
    }

    /// Looks up one exact Skill version.
    pub fn get(&self, id: &SkillId) -> (skill: Option<&RegisteredSkill>)
        ensures
            match skill {
                Some(skill) => find(self@.skills, id@) matches Some(index) && 0 <= index < self@.skills.len() && *skill
                    == self@.skills[index],
                None => find(self@.skills, id@) is None,
            },
    {
        match self.position(id) {
            Ok(index) => Some(&self.skills[index]),
            Err(_) => None,
        }
    }

    /// Index of one exact Skill version.
    pub fn index(&self, id: &SkillId) -> (index: Option<usize>)
        ensures
            match index {
                Some(index) => find(self@.skills, id@) == Some(index as int) && index < self@.skills.len(),
                None => find(self@.skills, id@) is None,
            },
    {
        match self.position(id) {
            Ok(index) => Some(index),
            Err(_) => None,
        }
    }

    /// Package at an index.
    pub fn at(&self, index: usize) -> (skill: &RegisteredSkill)
        requires
            index < self@.skills.len(),
        ensures
            *skill == self@.skills[index as int],
    {
        &self.skills[index]
    }

    /// Returns every registered identity in deterministic order.
    pub fn identities(&self) -> (ids: Vec<SkillId>)
        ensures
            ids@.len() == self@.skills.len(),
            forall|k: int| 0 <= k < ids@.len() ==> #[trigger] ids@[k] == self@.skills[k].id,
            skills_ordered(self@.skills),
    {
        proof {
            use_type_invariant(self);
        }
        let mut ids: Vec<SkillId> = Vec::new();
        let mut k: usize = 0;
        while k < self.skills.len()
            invariant
                k <= self.skills@.len(),
                ids@.len() == k,
                forall|j: int| 0 <= j < k ==> #[trigger] ids@[j] == self.skills@[j].id,
            decreases self.skills@.len() - k,
        {
            ids.push(self.skills[k].id.clone());
            k += 1;
        }
        ids
    }
}

/// A registered package can be found from then on, with what it was registered
/// with, and every other package is found as before.
pub proof fn law_registration_adds_one_package(
    before: RegistryView,
    after: RegistryView,
    content_bytes: nat,
    origin: CapabilityOrigin,
    package: SkillPackage,
    publisher_key_id: Option<String>,
    transparency: Option<VerifiedSkillTransparency>,
    publisher_trust: Option<SkillTrustStore>,
)
    requires
        grows(before, after, content_bytes, origin, package, publisher_key_id, transparency, publisher_trust),
    ensures
        after.content_bytes == content_bytes,
        after.skills.len() == before.skills.len() + 1,
        exists|k: int|
            0 <= k < after.skills.len() && {
                let skill = #[trigger] after.skills[k];
                &&& skill.id.name@ == package.manifest.name@
                &&& skill.id.version@ == package.manifest.version@
                &&& skill.origin == origin
                &&& skill.package == package
                &&& skill.publisher_key_id == publisher_key_id
                &&& skill.transparency == transparency
                &&& skill.publisher_trust == publisher_trust
            },
        forall|i: int| 0 <= i < before.skills.len() ==> after.skills.contains(#[trigger] before.skills[i]),
        forall|i: int, j: int|
            0 <= i < j < after.skills.len() ==> (#[trigger] after.skills[i]).id@.before((#[trigger] after.skills[j]).id@),
{
    let (position, skill) = choose|position: int, skill: RegisteredSkill|
        0 <= position <= before.skills.len() && #[trigger] before.skills.insert(position, skill) == after.skills
            && skill.id@ == package_identity(package) && skill.origin == origin && skill.package == package
            && skill.publisher_key_id == publisher_key_id && skill.transparency == transparency && skill.publisher_trust
            == publisher_trust;
    assert(after.skills[position] == skill);
    assert forall|i: int| 0 <= i < before.skills.len() implies after.skills.contains(#[trigger] before.skills[i]) by {
        if i < position {
            assert(after.skills[i] == before.skills[i]);
        } else {
            assert(after.skills[i + 1] == before.skills[i]);
        }
    }
}

/// A signed package is registered with the key and the store that vouch for it
/// and with the evidence of its receipt; a refused one leaves no trace.
pub proof fn law_signed_packages_keep_their_trust(
    before: SkillRegistry,
    after: SkillRegistry,
    origin: CapabilityOrigin,
    signed: SignedSkillPackage,
    trust: SkillTrustStore,
    states: SkillTrustStates,
    observed_at_ms: u64,
    result: Result<(), HarnessError>,
)
    requires
        registers_signed(before, after, origin, signed, trust, states, observed_at_ms, result),
    ensures
        result is Err ==> after == before,
        result is Ok <==> signed_registration(before@, origin, signed, trust, states, observed_at_ms) is Ok,
        result is Ok ==> after@.skills.len() == before@.skills.len() + 1 && exists|k: int|
            0 <= k < after@.skills.len() && {
                let skill = #[trigger] after@.skills[k];
                &&& skill.package == signed.package
                &&& skill.origin == origin
                &&& skill.publisher_key_id == Some(signed.signature.key_id)
                &&& skill.publisher_trust == Some(trust)
                &&& skill.transparency is Some <==> signed.transparency is Some
                &&& signed.transparency is Some ==> skill.transparency->0.log_id == signed.transparency->0.log_id
            },
{
    if result is Ok {
        law_registration_adds_one_package(
            before@,
            after@,
            signed_registration(before@, origin, signed, trust, states, observed_at_ms)->Ok_0,
            origin,
            signed.package,
            Some(signed.signature.key_id),
            evidence(signed.transparency),
            Some(trust),
        );
    }
}

} // verus!
