//! Resolution of exact Skill graphs into context.

use vstd::prelude::*;
use vstd::std_specs::cmp::{PartialEqSpec, PartialEqSpecImpl};

use crate::capability::{ContextBlock, ContextSource, ToolRegistry};
use crate::clock::now_ms;
use crate::error::{settles, ErrorView, HarnessError};
use crate::kernel::{registry_full, validate_registry_growth, CapabilityOrigin, MAX_REGISTRY_ENTRIES};
use crate::skill::graph::{
    all_registered, dependency_ids, is_chain, is_registered, is_resolvable, is_trusted, is_usable,
    law_dependencies_come_before_dependants, law_packages_are_found_by_identity,
    law_requested_packages_keep_their_order, law_resolved_graphs_are_closures, law_selected_skills_have_their_tools,
    law_sound_requests_are_resolved, law_trust_is_what_the_store_says, lemma_reached_by_name, lemma_reached_more,
    log_of, not_registered, reached, readiness, scene_of, select, sound, trust_status,
    validate_registered_skill_trust, visit_all, Scene,
};
use crate::skill::package::skill_error;
use crate::skill::path::{path_check, validate_resource_path};
use crate::skill::registry::{find, RegisteredSkill, SkillRegistry};
use crate::skill::state::{revalidation, revokes_log, revokes_publisher, TrustView};
use crate::skill::store::{SkillTrustStates, SkillTrustStore};
use crate::skill::trust::VerifiedSkillTransparency;
use crate::skill::version::{SkillId, SkillIdView};
use crate::table::Rank;
use crate::text::{decimal, decimal_text, join3, join4, quoted, quoted_text};

verus! {

/// One package selected by deterministic dependency resolution.
#[derive(Clone, Debug, PartialEq, Eq)]
pub struct ResolvedSkill {
    /// Exact selected identity.
    pub id: SkillId,
    /// Verified package digest.
    pub content_sha256: String,
    /// Operator-assigned trust origin.
    pub origin: CapabilityOrigin,
    /// Verified publisher key for external packages.
    pub publisher_key_id: Option<String>,
    /// Verified signed transparency evidence when supplied.
    pub transparency: Option<VerifiedSkillTransparency>,
}

/// Trust that a resolved package rests on.
#[derive(Clone, Debug, PartialEq, Eq)]
pub struct ResolvedSkillTrust {
    trust: SkillTrustStore,
    publisher_key_id: String,
    transparency_log_id: Option<String>,
}

/// Trust as values.
pub struct ResolvedTrustView {
    /// Trust store.
    pub trust: SkillTrustStore,
    /// Publisher key.
    pub publisher_key_id: Seq<char>,
    /// Transparency log, where there is one.
    pub transparency_log_id: Option<Seq<char>>,
}

impl View for ResolvedSkillTrust {
    type V = ResolvedTrustView;

    closed spec fn view(&self) -> ResolvedTrustView {
        ResolvedTrustView {
            trust: self.trust,
            publisher_key_id: self.publisher_key_id@,
            transparency_log_id: match self.transparency_log_id {
                Some(log_id) => Some(log_id@),
                None => None,
            },
        }
    }
}

/// Outcome of relying again on a resolved package.
pub open spec fn trust_recheck(
    trust: ResolvedTrustView,
    stores: Map<SkillTrustStore, TrustView>,
    observed_at_ms: u64,
) -> Result<(), ErrorView> {
    revalidation(stores[trust.trust], trust.publisher_key_id, trust.transparency_log_id, observed_at_ms)
}

impl ResolvedSkillTrust {
    /// Checks the trust again, at a later point of time.
    pub fn validate(&self, states: &SkillTrustStates, observed_at_ms: u64) -> (result: Result<(), HarnessError>)
        ensures
            settles(result, trust_recheck(self@, states@, observed_at_ms)),
    {
        let log_id = match &self.transparency_log_id {
            Some(log_id) => Some(log_id.as_str()),
            None => None,
        };
        self.trust.revalidate_registered(states, self.publisher_key_id.as_str(), log_id, observed_at_ms)
    }
}

/// Dependency-ordered Skills and their model-visible instruction blocks.
#[derive(Clone)]
pub struct ResolvedSkillSet {
    /// Dependencies before dependants, with duplicates removed.
    pub skills: Vec<ResolvedSkill>,
    /// Instructions in the same deterministic order.
    pub context: Vec<ContextBlock>,
    /// Total manifest-estimated token cost.
    pub estimated_tokens: usize,
    /// Trust that the external packages rest on, in the same order.
    pub trust_checks: Vec<ResolvedSkillTrust>,
}

/// Two resolutions are equal where they come to the same Skills and context,
/// whatever store trusts them.
impl PartialEqSpecImpl for ResolvedSkillSet {
    open spec fn obeys_eq_spec() -> bool {
        <Vec<ResolvedSkill> as PartialEqSpec<Vec<ResolvedSkill>>>::obeys_eq_spec() && <Vec<ContextBlock> as PartialEqSpec<
            Vec<ContextBlock>,
        >>::obeys_eq_spec()
    }

    open spec fn eq_spec(&self, other: &Self) -> bool {
        PartialEqSpec::eq_spec(&self.skills, &other.skills) && PartialEqSpec::eq_spec(&self.context, &other.context)
            && self.estimated_tokens == other.estimated_tokens
    }
}

impl PartialEq for ResolvedSkillSet {
    fn eq(&self, other: &Self) -> (result: bool) {
        self.skills == other.skills && self.context == other.context && self.estimated_tokens == other.estimated_tokens
    }
}

impl Eq for ResolvedSkillSet {

}

/// Whether a resolved package is the registered one.
pub open spec fn resolves(resolved: ResolvedSkill, skill: RegisteredSkill) -> bool {
    &&& resolved.id == skill.id
    &&& resolved.content_sha256 == skill.package.content_sha256
    &&& resolved.origin == skill.origin
    &&& resolved.publisher_key_id == skill.publisher_key_id
    &&& resolved.transparency == skill.transparency
}

/// Whether a context block holds the instructions of a registered package.
pub open spec fn instructs(block: ContextBlock, skill: RegisteredSkill) -> bool {
    &&& block.text == skill.package.instructions
    &&& block.estimated_tokens == skill.package.manifest.estimated_tokens
    &&& block.source matches ContextSource::Skill { name, version, content_sha256 } && name@ == skill.id.name@ && version@
        == skill.id.version@ && content_sha256 == skill.package.content_sha256
}

/// Trust that the first `n` packages of a selection rest on.
pub open spec fn trust_of(skills: Seq<RegisteredSkill>, ordered: Seq<usize>, n: int) -> Seq<ResolvedTrustView>
    decreases n,
{
    if n <= 0 {
        Seq::empty()
    } else {
        let earlier = trust_of(skills, ordered, n - 1);
        let skill = skills[ordered[n - 1] as int];
        match (skill.publisher_trust, skill.publisher_key_id) {
            (Some(trust), Some(key_id)) => earlier.push(
                ResolvedTrustView { trust, publisher_key_id: key_id@, transparency_log_id: log_of(skill) },
            ),
            _ => earlier,
        }
    }
}

/// Token cost of the first `n` packages of a selection.
pub open spec fn token_cost(skills: Seq<RegisteredSkill>, ordered: Seq<usize>, n: int) -> nat
    decreases n,
{
    if n <= 0 {
        0
    } else {
        token_cost(skills, ordered, n - 1) + skills[ordered[n - 1] as int].package.manifest.estimated_tokens as nat
    }
}

/// First place from `n` on at which a selection costs more than its budget.
pub open spec fn budget_fault(skills: Seq<RegisteredSkill>, ordered: Seq<usize>, budget: usize, n: int) -> Option<ErrorView>
    decreases ordered.len() - n,
{
    if n < 0 || n >= ordered.len() {
        None
    } else {
        let cost = token_cost(skills, ordered, n + 1);
        if cost > usize::MAX {
            Some(ErrorView::Skill("Skill token budget overflow"@))
        } else if cost > budget {
            Some(
                ErrorView::Skill(
                    "resolved Skills require "@ + decimal(cost) + " tokens, budget is "@ + decimal(budget as nat),
                ),
            )
        } else {
            budget_fault(skills, ordered, budget, n + 1)
        }
    }
}

/// Whether a resolved set is what a selection comes to.
pub open spec fn assembles(set: ResolvedSkillSet, skills: Seq<RegisteredSkill>, ordered: Seq<usize>) -> bool {
    &&& set.skills@.len() == ordered.len()
    &&& set.context@.len() == ordered.len()
    &&& forall|k: int| 0 <= k < ordered.len() ==> resolves(#[trigger] set.skills@[k], skills[ordered[k] as int])
    &&& forall|k: int| 0 <= k < ordered.len() ==> instructs(#[trigger] set.context@[k], skills[ordered[k] as int])
    &&& set.estimated_tokens == token_cost(skills, ordered, ordered.len() as int)
    &&& set.trust_checks@.len() == trust_of(skills, ordered, ordered.len() as int).len()
    &&& forall|k: int|
        0 <= k < set.trust_checks@.len() ==> (#[trigger] set.trust_checks@[k])@ == trust_of(
            skills,
            ordered,
            ordered.len() as int,
        )[k]
}

/// Identities as texts.
pub open spec fn id_views(ids: Seq<SkillId>) -> Seq<SkillIdView> {
    Seq::new(ids.len(), |k: int| ids[k]@)
}

/// Whether one identity strictly precedes another.
pub open spec fn precedes(a: SkillIdView, b: SkillIdView) -> bool {
    a.before(b) && !b.before(a)
}

/// Whether a list names the requested identities, each once, in order.
pub open spec fn lists_roots(roots: Seq<SkillIdView>, requested: Seq<SkillIdView>) -> bool {
    &&& forall|i: int, j: int| 0 <= i < j < roots.len() ==> precedes(#[trigger] roots[i], #[trigger] roots[j])
    &&& forall|id: SkillIdView| roots.contains(id) <==> requested.contains(id)
}

fn add_root(roots: &mut Vec<SkillId>, id: &SkillId)
    requires
        forall|i: int, j: int|
            0 <= i < j < old(roots)@.len() ==> precedes((#[trigger] old(roots)@[i])@, (#[trigger] old(roots)@[j])@),
    ensures
        forall|i: int, j: int|
            0 <= i < j < final(roots)@.len() ==> precedes((#[trigger] final(roots)@[i])@, (#[trigger] final(roots)@[j])@),
        forall|x: SkillIdView| #[trigger]
            id_views(final(roots)@).contains(x) <==> id_views(old(roots)@).contains(x) || x == id@,
{
    let ghost before = roots@;
    let mut n: usize = 0;
    while n < roots.len()
        invariant
            n <= roots@.len(),
            roots@ == before,
            before == old(roots)@,
            forall|i: int, j: int| 0 <= i < j < before.len() ==> precedes((#[trigger] before[i])@, (#[trigger] before[j])@),
            forall|k: int| 0 <= k < n ==> precedes((#[trigger] before[k])@, id@),
        ensures
            n <= roots@.len(),
            roots@ == before,
            forall|k: int| 0 <= k < n ==> precedes((#[trigger] before[k])@, id@),
            forall|k: int| n <= k < before.len() ==> precedes(id@, (#[trigger] before[k])@),
        decreases roots@.len() - n,
    {
        match roots[n].rank(id) {
            Rank::Before => {
                n += 1;
            },
            Rank::Same => {
                proof {
                    assert(id_views(before)[n as int] == id@);
                }
                return;
            },
            Rank::After => {
                proof {
                    assert forall|k: int| n <= k < before.len() implies precedes(id@, (#[trigger] before[k])@) by {
                        if k > n {
                            assert(precedes(before[n as int]@, before[k]@));
                        }
                    }
                }
                break;
            },
        }
    }
    roots.insert(n, id.clone());
    proof {
        let after = roots@;
        assert(after =~= before.insert(n as int, *id));
        assert forall|i: int, j: int| 0 <= i < j < after.len() implies precedes(
            (#[trigger] after[i])@,
            (#[trigger] after[j])@,
        ) by {
            if i < n && j > n {
                assert(precedes(before[i]@, before[j - 1]@));
            } else if i > n {
                assert(precedes(before[i - 1]@, before[j - 1]@));
            } else if j < n {
                assert(precedes(before[i]@, before[j]@));
            } else if j == n {
                assert(precedes(before[i]@, id@));
            } else {
                assert(precedes(id@, before[j - 1]@));
            }
        }
        assert forall|x: SkillIdView| #[trigger]
            id_views(after).contains(x) <==> id_views(before).contains(x) || x == id@ by {
            if id_views(after).contains(x) {
                let k = choose|k: int| 0 <= k < after.len() && id_views(after)[k] == x;
                if k < n {
                    assert(id_views(before)[k] == x);
                } else if k > n {
                    assert(id_views(before)[k - 1] == x);
                }
            }
            if id_views(before).contains(x) {
                let k = choose|k: int| 0 <= k < before.len() && id_views(before)[k] == x;
                if k < n {
                    assert(id_views(after)[k] == x);
                } else {
                    assert(id_views(after)[k + 1] == x);
                }
            }
            assert(id_views(after)[n as int] == id@);
        }
    }
}

fn ordered_roots(requested: &[SkillId]) -> (roots: Vec<SkillId>)
    ensures
        lists_roots(id_views(roots@), id_views(requested@)),
{
    let mut roots: Vec<SkillId> = Vec::new();
    let mut k: usize = 0;
    while k < requested.len()
        invariant
            k <= requested@.len(),
            forall|i: int, j: int| 0 <= i < j < roots@.len() ==> precedes((#[trigger] roots@[i])@, (#[trigger] roots@[j])@),
            forall|x: SkillIdView| #[trigger]
                id_views(roots@).contains(x) <==> exists|m: int| 0 <= m < k && #[trigger] requested@[m]@ == x,
        decreases requested@.len() - k,
    {
        let ghost earlier = id_views(roots@);
        add_root(&mut roots, &requested[k]);
        proof {
            assert forall|x: SkillIdView| #[trigger]
                id_views(roots@).contains(x) <==> exists|m: int| 0 <= m < k + 1 && #[trigger] requested@[m]@ == x by {
                if earlier.contains(x) {
                    let m = choose|m: int| 0 <= m < k && #[trigger] requested@[m]@ == x;
                    assert(requested@[m]@ == x);
                }
                assert(requested@[k as int]@ == requested@[k as int]@);
            }
        }
        k += 1;
    }
    proof {
        let (a, b) = (id_views(roots@), id_views(requested@));
        assert forall|i: int, j: int| 0 <= i < j < a.len() implies precedes(#[trigger] a[i], #[trigger] a[j]) by {
            assert(precedes(roots@[i]@, roots@[j]@));
        }
        assert forall|id: SkillIdView| a.contains(id) <==> b.contains(id) by {
            if a.contains(id) {
                let m = choose|m: int| 0 <= m < k && #[trigger] requested@[m]@ == id;
                assert(b[m] == id);
            }
            if b.contains(id) {
                let m = choose|m: int| 0 <= m < b.len() && b[m] == id;
                assert(requested@[m]@ == id);
            }
        }
    }
    roots
}

/// Resolves exact Skill graphs without executing package code.
pub struct SkillEngine {
    registry: SkillRegistry,
}

/// Outcome of resolving requested identities.
pub open spec fn resolution(
    scene: Scene,
    roots: Seq<SkillIdView>,
    budget_tokens: usize,
    result: Result<ResolvedSkillSet, HarnessError>,
) -> bool {
    match visit_all(scene, roots, 0, Seq::empty(), Seq::empty()) {
        Err(fault) => result matches Err(error) && error@ == fault,
        Ok(ordered) => match budget_fault(scene.skills, ordered, budget_tokens, 0) {
            Some(fault) => result matches Err(error) && error@ == fault,
            None => result matches Ok(set) && assembles(set, scene.skills, ordered),
        },
    }
}

/// Outcome of resolving requested identities against a registry, with trust
/// looked at at this time.
pub open spec fn resolved_at(
    registry: SkillRegistry,
    requested: Seq<SkillId>,
    tools: ToolRegistry,
    budget_tokens: usize,
    states: SkillTrustStates,
    observed_at_ms: u64,
    result: Result<ResolvedSkillSet, HarnessError>,
) -> bool {
    if requested.len() > MAX_REGISTRY_ENTRIES {
        result matches Err(error) && error@ == registry_full("requested Skill"@)
    } else {
        exists|roots: Seq<SkillIdView>|
            lists_roots(roots, id_views(requested)) && #[trigger] resolution(
                scene_of(registry, tools, states, observed_at_ms),
                roots,
                budget_tokens,
                result,
            )
    }
}

/// Outcome of reading a resource.
pub open spec fn resource_outcome(
    scene_skills: Seq<RegisteredSkill>,
    stores: Map<SkillTrustStore, TrustView>,
    skill: SkillIdView,
    path: Seq<char>,
    observed_at_ms: u64,
) -> Result<Seq<char>, ErrorView> {
    if path_check(path) is Err {
        Err(path_check(path)->Err_0)
    } else {
        match find(scene_skills, skill) {
            None => Err(not_registered(skill)),
            Some(index) => {
                let registered = scene_skills[index];
                if trust_status(registered, stores, observed_at_ms) is Err {
                    Err(trust_status(registered, stores, observed_at_ms)->Err_0)
                } else if registered.package.resources@.contains_key(path) {
                    Ok(registered.package.resources@[path]@)
                } else {
                    Err(ErrorView::Skill("Skill "@ + skill.shown() + " has no resource "@ + quoted(path)))
                }
            },
        }
    }
}

/// Whether a read settles as expected.
pub open spec fn reads(result: Result<&str, HarnessError>, expected: Result<Seq<char>, ErrorView>) -> bool {
    match result {
        Ok(content) => expected == Ok::<Seq<char>, ErrorView>(content@),
        Err(error) => expected == Err::<Seq<char>, ErrorView>(error@),
    }
}

impl SkillEngine {
    /// Registry that the engine resolves against.
    pub closed spec fn registered(self) -> SkillRegistry {
        self.registry
    }

    /// Creates an engine over a validated package registry.
    pub fn new(registry: SkillRegistry) -> (engine: Self)
        ensures
            engine.registered() == registry,
    {
        SkillEngine { registry }
    }

    /// Resolves an exact dependency graph and checks tools, token budget and,
    /// at the current time, trust.
    pub fn resolve(
        &self,
        requested: &[SkillId],
        tools: &ToolRegistry,
        budget_tokens: usize,
        states: &SkillTrustStates,
    ) -> (result: Result<ResolvedSkillSet, HarnessError>)
        ensures
            exists|now: u64| #[trigger]
                resolved_at(self.registered(), requested@, *tools, budget_tokens, *states, now, result),
    {
        self.resolve_at(requested, tools, budget_tokens, states, now_ms())
    }

    /// Resolves an exact dependency graph with trust looked at at one explicit
    /// time.
    pub fn resolve_at(
        &self,
        requested: &[SkillId],
        tools: &ToolRegistry,
        budget_tokens: usize,
        states: &SkillTrustStates,
        observed_at_ms: u64,
    ) -> (result: Result<ResolvedSkillSet, HarnessError>)
        ensures
            resolved_at(self.registered(), requested@, *tools, budget_tokens, *states, observed_at_ms, result),
    {
        if let Err(error) = validate_registry_growth("requested Skill", 0, requested.len()) {
            return Err(error);
        }
        let ghost scene = scene_of(self.registry, *tools, *states, observed_at_ms);
        let roots = ordered_roots(requested);
        let ghost ids = id_views(roots@);
        let mut path: Vec<usize> = Vec::new();
        let mut ordered: Vec<usize> = Vec::new();
        assert(path@ =~= Seq::<usize>::empty());
        assert(ordered@ =~= Seq::<usize>::empty());
        let mut n: usize = 0;
        while n < roots.len()
            invariant
                n <= roots@.len(),
                ids == id_views(roots@),
                lists_roots(ids, id_views(requested@)),
                requested@.len() <= MAX_REGISTRY_ENTRIES,
                scene == scene_of(self.registry, *tools, *states, observed_at_ms),
                path@ == Seq::<usize>::empty(),
                visit_all(scene, ids, 0, Seq::empty(), Seq::empty()) == visit_all(
                    scene,
                    ids,
                    n as int,
                    Seq::empty(),
                    ordered@,
                ),
            decreases roots@.len() - n,
        {
            assert(ids[n as int] == roots@[n as int]@);
            if let Err(error) = select(
                &self.registry,
                &roots[n],
                tools,
                states,
                &mut path,
                &mut ordered,
                observed_at_ms,
            ) {
                let result: Result<ResolvedSkillSet, HarnessError> = Err(error);
                assert(resolution(
                    scene_of(self.registered(), *tools, *states, observed_at_ms),
                    ids,
                    budget_tokens,
                    result,
                ));
                return result;
            }
            n += 1;
        }
        let count: usize = self.registry.len();
        proof {
            assert(scene.skills.len() == count);
            law_dependencies_come_before_dependants(scene, ids, ordered@);
        }
        let result = self.assemble(&ordered, budget_tokens);
        assert(resolution(
            scene_of(self.registered(), *tools, *states, observed_at_ms),
            ids,
            budget_tokens,
            result,
        ));
        result
    }

    fn assemble(&self, ordered: &Vec<usize>, budget_tokens: usize) -> (result: Result<ResolvedSkillSet, HarnessError>)
        requires
            forall|k: int| 0 <= k < ordered@.len() ==> (#[trigger] ordered@[k]) < self.registered()@.skills.len(),
        ensures
            match budget_fault(self.registered()@.skills, ordered@, budget_tokens, 0) {
                Some(fault) => result matches Err(error) && error@ == fault,
                None => result matches Ok(set) && assembles(set, self.registered()@.skills, ordered@),
            },
    {
        let ghost all = self.registry@.skills;
        let mut estimated_tokens: usize = 0;
        let mut skills: Vec<ResolvedSkill> = Vec::new();
        let mut context: Vec<ContextBlock> = Vec::new();
        let mut trust_checks: Vec<ResolvedSkillTrust> = Vec::new();
        let mut k: usize = 0;
        while k < ordered.len()
            invariant
                k <= ordered@.len(),
                all == self.registry@.skills,
                all == self.registered()@.skills,
                forall|j: int| 0 <= j < ordered@.len() ==> (#[trigger] ordered@[j]) < all.len(),
                budget_fault(all, ordered@, budget_tokens, 0) == budget_fault(all, ordered@, budget_tokens, k as int),
                estimated_tokens == token_cost(all, ordered@, k as int),
                skills@.len() == k,
                context@.len() == k,
                forall|j: int| 0 <= j < k ==> resolves(#[trigger] skills@[j], all[ordered@[j] as int]),
                forall|j: int| 0 <= j < k ==> instructs(#[trigger] context@[j], all[ordered@[j] as int]),
                trust_checks@.len() == trust_of(all, ordered@, k as int).len(),
                forall|j: int|
                    0 <= j < trust_checks@.len() ==> (#[trigger] trust_checks@[j])@ == trust_of(all, ordered@, k as int)[j],
            decreases ordered@.len() - k,
        {
            let skill = self.registry.at(ordered[k]);
            estimated_tokens = match estimated_tokens.checked_add(skill.package.manifest.estimated_tokens) {
                Some(total) => total,
                None => {
                    return Err(skill_error("Skill token budget overflow"));
                },
            };
            if estimated_tokens > budget_tokens {
                let cost = decimal_text(estimated_tokens as u64);
                let budget = decimal_text(budget_tokens as u64);
                return Err(
                    HarnessError::Skill(
                        join4("resolved Skills require ", cost.as_str(), " tokens, budget is ", budget.as_str()),
                    ),
                );
            }
            skills.push(
                ResolvedSkill {
                    id: skill.id.clone(),
                    content_sha256: skill.package.content_sha256.clone(),
                    origin: skill.origin.clone(),
                    publisher_key_id: copy_text(&skill.publisher_key_id),
                    transparency: match &skill.transparency {
                        Some(transparency) => Some(transparency.clone()),
                        None => None,
                    },
                },
            );
            if let (Some(trust), Some(key_id)) = (skill.publisher_trust, &skill.publisher_key_id) {
                trust_checks.push(
                    ResolvedSkillTrust {
                        trust,
                        publisher_key_id: key_id.clone(),
                        transparency_log_id: match &skill.transparency {
                            Some(transparency) => Some(transparency.log_id.clone()),
                            None => None,
                        },
                    },
                );
            }
            context.push(
                ContextBlock {
                    source: ContextSource::Skill {
                        name: skill.id.name.clone(),
                        version: skill.id.version.as_str().to_owned(),
                        content_sha256: skill.package.content_sha256.clone(),
                    },
                    text: skill.package.instructions.clone(),
                    estimated_tokens: skill.package.manifest.estimated_tokens,
                },
            );
            k += 1;
        }
        Ok(ResolvedSkillSet { skills, context, estimated_tokens, trust_checks })
    }

    /// Reads one digest-verified resource without loading every resource, with
    /// trust looked at at the current time.
    pub fn read_resource<'a>(&'a self, skill: &SkillId, path: &str, states: &SkillTrustStates) -> (result: Result<
        &'a str,
        HarnessError,
    >)
        ensures
            exists|now: u64|
                reads(
                    result,
                    #[trigger] resource_outcome(self.registered()@.skills, states@, skill@, path@, now),
                ),
    {
        self.read_resource_at(skill, path, states, now_ms())
    }

    /// Reads one digest-verified resource with trust looked at at one explicit
    /// time.
    pub fn read_resource_at<'a>(
        &'a self,
        skill: &SkillId,
        path: &str,
        states: &SkillTrustStates,
        observed_at_ms: u64,
    ) -> (result: Result<&'a str, HarnessError>)
        ensures
            reads(
                result,
                resource_outcome(self.registered()@.skills, states@, skill@, path@, observed_at_ms),
            ),
    {
        if let Err(error) = validate_resource_path(path) {
            return Err(error);
        }
        let registered = match self.registry.get(skill) {
            Some(registered) => registered,
            None => {
                let shown = skill.shown();
                return Err(HarnessError::Skill(join3("Skill ", shown.as_str(), " is not registered")));
            },
        };
        if let Err(error) = validate_registered_skill_trust(registered, states, observed_at_ms) {
            return Err(error);
        }
        match registered.package.resources.get(path) {
            Some(content) => Ok(content.as_str()),
            None => {
                let shown = skill.shown();
                let named = quoted_text(path);
                Err(HarnessError::Skill(join4("Skill ", shown.as_str(), " has no resource ", named.as_str())))
            },
        }
    }
}

fn copy_text(text: &Option<String>) -> (result: Option<String>)
    ensures
        result == *text,
{
    match text {
        Some(text) => Some(text.clone()),
        None => None,
    }
}

proof fn lemma_budget(skills: Seq<RegisteredSkill>, ordered: Seq<usize>, budget: usize, from: int, n: int)
    requires
        0 <= from < n <= ordered.len(),
        budget_fault(skills, ordered, budget, from) is None,
    ensures
        token_cost(skills, ordered, n) <= budget,
    decreases n - from,
{
    if from + 1 < n {
        lemma_budget(skills, ordered, budget, from + 1, n);
    }
}

/// A resource is read only from a registered package that is trusted at that
/// point of time, and is what the package holds under that path.
pub proof fn law_read_resources_belong_to_trusted_skills(
    skills: Seq<RegisteredSkill>,
    stores: Map<SkillTrustStore, TrustView>,
    id: SkillIdView,
    path: Seq<char>,
    observed_at_ms: u64,
)
    requires
        resource_outcome(skills, stores, id, path, observed_at_ms) is Ok,
    ensures
        path_check(path) is Ok,
        find(skills, id) matches Some(index) && trust_status(skills[index], stores, observed_at_ms) is Ok
            && skills[index].package.resources@.contains_key(path) && resource_outcome(
            skills,
            stores,
            id,
            path,
            observed_at_ms,
        ) == Ok::<Seq<char>, ErrorView>(skills[index].package.resources@[path]@),
{
}

/// What a resolved graph costs never exceeds the budget it was resolved under.
pub proof fn law_resolved_skills_fit_the_budget(
    scene: Scene,
    roots: Seq<SkillIdView>,
    budget_tokens: usize,
    result: Result<ResolvedSkillSet, HarnessError>,
)
    requires
        resolution(scene, roots, budget_tokens, result),
    ensures
        result matches Ok(set) ==> set.estimated_tokens <= budget_tokens,
{
    if let Ok(ordered) = visit_all(scene, roots, 0, Seq::empty(), Seq::empty()) {
        if ordered.len() > 0 && budget_fault(scene.skills, ordered, budget_tokens, 0) is None {
            lemma_budget(scene.skills, ordered, budget_tokens, 0, ordered.len() as int);
        }
    }
}

/// A resolved set is what its request comes to: the packages that are reached
/// from it through dependencies and no others, each once and behind its
/// dependencies, with its instructions at the same place, with every Tool that
/// it requires, and at a total cost inside the budget.
pub proof fn law_resolved_sets_are_closures(
    registry: SkillRegistry,
    requested: Seq<SkillId>,
    tools: ToolRegistry,
    budget_tokens: usize,
    states: SkillTrustStates,
    observed_at_ms: u64,
    set: ResolvedSkillSet,
) -> (ordered: Seq<usize>)
    requires
        registry@.skills.len() <= usize::MAX,
        resolved_at(registry, requested, tools, budget_tokens, states, observed_at_ms, Ok(set)),
    ensures
        assembles(set, registry@.skills, ordered),
        sound(scene_of(registry, tools, states, observed_at_ms), ordered),
        forall|i: int, j: int|
            0 <= i < j < set.skills@.len() ==> (#[trigger] set.skills@[i]).id@ != (#[trigger] set.skills@[j]).id@,
        forall|index: usize| #[trigger]
            ordered.contains(index) <==> reached(
                scene_of(registry, tools, states, observed_at_ms),
                id_views(requested),
                index,
            ),
        forall|k: int, t: int|
            0 <= k < ordered.len() && 0 <= t < registry@.skills[ordered[k] as int].package.manifest.required_tools.rows().len()
                ==> tools@.contains_key(
                (#[trigger] registry@.skills[ordered[k] as int].package.manifest.required_tools.rows()[t]).key@,
            ),
        set.estimated_tokens <= budget_tokens,
{
    let scene = scene_of(registry, tools, states, observed_at_ms);
    let result: Result<ResolvedSkillSet, HarnessError> = Ok(set);
    let roots = choose|roots: Seq<SkillIdView>|
        lists_roots(roots, id_views(requested)) && #[trigger] resolution(scene, roots, budget_tokens, result);
    let ordered = visit_all(scene, roots, 0, Seq::empty(), Seq::empty())->Ok_0;
    law_dependencies_come_before_dependants(scene, roots, ordered);
    law_resolved_skills_fit_the_budget(scene, roots, budget_tokens, result);
    assert forall|index: usize| #[trigger] ordered.contains(index) <==> reached(scene, id_views(requested), index) by {
        law_resolved_graphs_are_closures(scene, roots, ordered, index);
        lemma_reached_same(scene, roots, id_views(requested), index);
    }
    assert forall|k: int, t: int|
        0 <= k < ordered.len() && 0 <= t < registry@.skills[ordered[k] as int].package.manifest.required_tools.rows().len()
            implies tools@.contains_key(
        (#[trigger] registry@.skills[ordered[k] as int].package.manifest.required_tools.rows()[t]).key@,
    ) by {
        law_selected_skills_have_their_tools(scene, roots, ordered, k, t);
    }
    lemma_ids_are_distinct(set, scene, id_views(requested), ordered);
    ordered
}

proof fn lemma_ids_are_distinct(set: ResolvedSkillSet, scene: Scene, ids: Seq<SkillIdView>, ordered: Seq<usize>)
    requires
        assembles(set, scene.skills, ordered),
        ordered.no_duplicates(),
        forall|index: usize| #[trigger] ordered.contains(index) ==> reached(scene, ids, index),
    ensures
        forall|i: int, j: int|
            0 <= i < j < set.skills@.len() ==> (#[trigger] set.skills@[i]).id@ != (#[trigger] set.skills@[j]).id@,
{
    assert forall|i: int, j: int| 0 <= i < j < set.skills@.len() implies (#[trigger] set.skills@[i]).id@ != (
    #[trigger] set.skills@[j]).id@ by {
        assert(ordered.contains(ordered[i]) && ordered.contains(ordered[j]));
        lemma_reached_by_name(scene, ids, ordered[i]);
        lemma_reached_by_name(scene, ids, ordered[j]);
        assert(resolves(set.skills@[i], scene.skills[ordered[i] as int]));
        assert(resolves(set.skills@[j], scene.skills[ordered[j] as int]));
    }
}

proof fn lemma_reached_same(scene: Scene, a: Seq<SkillIdView>, b: Seq<SkillIdView>, index: usize)
    requires
        forall|id: SkillIdView| a.contains(id) <==> b.contains(id),
    ensures
        reached(scene, a, index) == reached(scene, b, index),
{
    if reached(scene, a, index) {
        lemma_reached_more(scene, a, b, index);
    }
    if reached(scene, b, index) {
        lemma_reached_more(scene, b, a, index);
    }
}

proof fn lemma_same_roots(a: Seq<SkillIdView>, b: Seq<SkillIdView>)
    requires
        forall|i: int, j: int| 0 <= i < j < a.len() ==> precedes(#[trigger] a[i], #[trigger] a[j]),
        forall|i: int, j: int| 0 <= i < j < b.len() ==> precedes(#[trigger] b[i], #[trigger] b[j]),
        forall|id: SkillIdView| a.contains(id) <==> b.contains(id),
    ensures
        a == b,
    decreases a.len(),
{
    if a.len() == 0 {
        if b.len() > 0 {
            assert(b.contains(b[0]));
        }
        assert(a =~= b);
    } else {
        assert(a.contains(a[0]));
        let k = choose|k: int| 0 <= k < b.len() && b[k] == a[0];
        if k > 0 {
            assert(precedes(b[0], b[k]));
            assert(b.contains(b[0]));
            let m = choose|m: int| 0 <= m < a.len() && a[m] == b[0];
            if m > 0 {
                assert(precedes(a[0], a[m]));
            }
        }
        assert(a[0] == b[0]);
        let (x, y) = (a.drop_first(), b.drop_first());
        assert forall|id: SkillIdView| x.contains(id) <==> y.contains(id) by {
            if x.contains(id) {
                let i = choose|i: int| 0 <= i < x.len() && x[i] == id;
                assert(a[i + 1] == id);
                assert(precedes(a[0], a[i + 1]));
                assert(a.contains(id));
                let j = choose|j: int| 0 <= j < b.len() && b[j] == id;
                assert(j > 0);
                assert(y[j - 1] == id);
            }
            if y.contains(id) {
                let i = choose|i: int| 0 <= i < y.len() && y[i] == id;
                assert(b[i + 1] == id);
                assert(precedes(b[0], b[i + 1]));
                assert(b.contains(id));
                let j = choose|j: int| 0 <= j < a.len() && a[j] == id;
                assert(j > 0);
                assert(x[j - 1] == id);
            }
        }
        assert forall|i: int, j: int| 0 <= i < j < x.len() implies precedes(#[trigger] x[i], #[trigger] x[j]) by {
            assert(precedes(a[i + 1], a[j + 1]));
        }
        assert forall|i: int, j: int| 0 <= i < j < y.len() implies precedes(#[trigger] y[i], #[trigger] y[j]) by {
            assert(precedes(b[i + 1], b[j + 1]));
        }
        lemma_same_roots(x, y);
        assert(a =~= seq![a[0]] + x);
        assert(b =~= seq![b[0]] + y);
    }
}

/// Whether two context blocks show the same: the same text at the same cost,
/// from the same package.
pub open spec fn same_block(a: ContextBlock, b: ContextBlock) -> bool {
    &&& a.text == b.text
    &&& a.estimated_tokens == b.estimated_tokens
    &&& a.source matches ContextSource::Skill { name, version, content_sha256 } && b.source matches ContextSource::Skill {
        name: other_name,
        version: other_version,
        content_sha256: other_sha256,
    } && name@ == other_name@ && version@ == other_version@ && content_sha256 == other_sha256
}

/// Neither the order of a request nor a repetition in it changes what it comes
/// to: requests for the same identities give the same Skills and context, or
/// the same error.
pub proof fn law_request_order_does_not_matter(
    registry: SkillRegistry,
    first: Seq<SkillId>,
    second: Seq<SkillId>,
    tools: ToolRegistry,
    budget_tokens: usize,
    states: SkillTrustStates,
    observed_at_ms: u64,
    a: Result<ResolvedSkillSet, HarnessError>,
    b: Result<ResolvedSkillSet, HarnessError>,
)
    requires
        first.len() <= MAX_REGISTRY_ENTRIES,
        second.len() <= MAX_REGISTRY_ENTRIES,
        forall|id: SkillIdView| id_views(first).contains(id) <==> id_views(second).contains(id),
        resolved_at(registry, first, tools, budget_tokens, states, observed_at_ms, a),
        resolved_at(registry, second, tools, budget_tokens, states, observed_at_ms, b),
    ensures
        match (a, b) {
            (Ok(x), Ok(y)) => x.skills@ == y.skills@ && x.estimated_tokens == y.estimated_tokens && x.context@.len()
                == y.context@.len() && forall|k: int|
                0 <= k < x.context@.len() ==> same_block(#[trigger] x.context@[k], y.context@[k]),
            (Err(x), Err(y)) => x@ == y@,
            _ => false,
        },
{
    let scene = scene_of(registry, tools, states, observed_at_ms);
    let roots = choose|roots: Seq<SkillIdView>|
        lists_roots(roots, id_views(first)) && #[trigger] resolution(scene, roots, budget_tokens, a);
    let others = choose|roots: Seq<SkillIdView>|
        lists_roots(roots, id_views(second)) && #[trigger] resolution(scene, roots, budget_tokens, b);
    assert forall|id: SkillIdView| roots.contains(id) <==> others.contains(id) by {
        assert(id_views(first).contains(id) <==> id_views(second).contains(id));
    }
    lemma_same_roots(roots, others);
    if let (Ok(x), Ok(y)) = (a, b) {
        let ordered = visit_all(scene, roots, 0, Seq::empty(), Seq::empty())->Ok_0;
        assert forall|k: int| 0 <= k < x.skills@.len() implies #[trigger] x.skills@[k] == y.skills@[k] by {
            assert(resolves(x.skills@[k], scene.skills[ordered[k] as int]));
            assert(resolves(y.skills@[k], scene.skills[ordered[k] as int]));
        }
        assert(x.skills@ =~= y.skills@);
        assert forall|k: int| 0 <= k < x.context@.len() implies same_block(#[trigger] x.context@[k], y.context@[k]) by {
            assert(instructs(x.context@[k], scene.skills[ordered[k] as int]));
            assert(instructs(y.context@[k], scene.skills[ordered[k] as int]));
        }
    }
}

/// Revocation is live: once a store has recorded that a publisher key is
/// revoked, nothing is resolved from then on that needs a package which was
/// registered under that key and that store, however long ago.
pub proof fn law_revoked_publishers_block_resolution(
    registry: SkillRegistry,
    requested: Seq<SkillId>,
    tools: ToolRegistry,
    budget_tokens: usize,
    before: SkillTrustStates,
    after: SkillTrustStates,
    revoked_at_ms: u64,
    reason_code: String,
    observed_at_ms: u64,
    index: usize,
    result: Result<ResolvedSkillSet, HarnessError>,
)
    requires
        registry@.skills.len() <= usize::MAX,
        reached(scene_of(registry, tools, after, observed_at_ms), id_views(requested), index),
        registry@.skills[index as int].origin is External,
        registry@.skills[index as int].publisher_trust matches Some(store) && registry@.skills[index as int].publisher_key_id
            matches Some(key_id) && revokes_publisher(
            before@[store],
            after@[store],
            key_id@,
            revoked_at_ms,
            reason_code,
            Ok(()),
        ),
        revoked_at_ms <= observed_at_ms,
        resolved_at(registry, requested, tools, budget_tokens, after, observed_at_ms, result),
    ensures
        result is Err,
{
    if let Ok(set) = result {
        lemma_reached_skills_are_ready(registry, requested, tools, budget_tokens, after, observed_at_ms, set, index);
    }
}

/// Revocation of logs is live too: nothing is resolved that needs a package
/// whose receipt comes from a log key which its store has recorded as revoked.
pub proof fn law_revoked_logs_block_resolution(
    registry: SkillRegistry,
    requested: Seq<SkillId>,
    tools: ToolRegistry,
    budget_tokens: usize,
    before: SkillTrustStates,
    after: SkillTrustStates,
    revoked_at_ms: u64,
    reason_code: String,
    observed_at_ms: u64,
    index: usize,
    result: Result<ResolvedSkillSet, HarnessError>,
)
    requires
        registry@.skills.len() <= usize::MAX,
        reached(scene_of(registry, tools, after, observed_at_ms), id_views(requested), index),
        registry@.skills[index as int].origin is External,
        registry@.skills[index as int].publisher_trust matches Some(store) && log_of(registry@.skills[index as int]) matches Some(
            log_id,
        ) && revokes_log(before@[store], after@[store], log_id, revoked_at_ms, reason_code, Ok(())),
        revoked_at_ms <= observed_at_ms,
        resolved_at(registry, requested, tools, budget_tokens, after, observed_at_ms, result),
    ensures
        result is Err,
{
    if let Ok(set) = result {
        lemma_reached_skills_are_ready(registry, requested, tools, budget_tokens, after, observed_at_ms, set, index);
    }
}

proof fn lemma_reached_skills_are_ready(
    registry: SkillRegistry,
    requested: Seq<SkillId>,
    tools: ToolRegistry,
    budget_tokens: usize,
    states: SkillTrustStates,
    observed_at_ms: u64,
    set: ResolvedSkillSet,
    index: usize,
)
    requires
        registry@.skills.len() <= usize::MAX,
        reached(scene_of(registry, tools, states, observed_at_ms), id_views(requested), index),
        resolved_at(registry, requested, tools, budget_tokens, states, observed_at_ms, Ok(set)),
    ensures
        trust_status(registry@.skills[index as int], states@, observed_at_ms) is Ok,
{
    let scene = scene_of(registry, tools, states, observed_at_ms);
    let ordered = law_resolved_sets_are_closures(
        registry,
        requested,
        tools,
        budget_tokens,
        states,
        observed_at_ms,
        set,
    );
    assert(ordered.contains(index));
    let k = choose|k: int| 0 <= k < ordered.len() && ordered[k] == index;
    assert(readiness(scene, scene.skills[ordered[k] as int]) is Ok);
}

proof fn lemma_cost_is_sum(skills: Seq<RegisteredSkill>, ordered: Seq<usize>, n: int)
    requires
        0 <= n <= ordered.len(),
    ensures
        token_cost(skills, ordered, n) == ordered.take(n).fold_left(
            0int,
            |sum: int, index: usize| sum + skills[index as int].package.manifest.estimated_tokens,
        ),
    decreases n,
{
    if n > 0 {
        lemma_cost_is_sum(skills, ordered, n - 1);
        assert(ordered.take(n).drop_last() =~= ordered.take(n - 1));
        assert(ordered.take(n).last() == ordered[n - 1]);
    }
}

proof fn lemma_cost_grows(skills: Seq<RegisteredSkill>, ordered: Seq<usize>, n: int, m: int)
    requires
        0 <= n <= m <= ordered.len(),
    ensures
        token_cost(skills, ordered, n) <= token_cost(skills, ordered, m),
    decreases m - n,
{
    if n < m {
        lemma_cost_grows(skills, ordered, n, m - 1);
    }
}

proof fn lemma_within_budget(skills: Seq<RegisteredSkill>, ordered: Seq<usize>, budget: usize, n: int)
    requires
        0 <= n <= ordered.len(),
        token_cost(skills, ordered, ordered.len() as int) <= budget,
    ensures
        budget_fault(skills, ordered, budget, n) is None,
    decreases ordered.len() - n,
{
    if n < ordered.len() {
        lemma_cost_grows(skills, ordered, n + 1, ordered.len() as int);
        lemma_within_budget(skills, ordered, budget, n + 1);
    }
}

/// Resolution is complete: a request of at most 4096 identities is refused
/// only where it reaches something that is not registered, not usable or on a
/// cycle, or where the packages that it reaches, each counted once, need more
/// tokens than the budget has.
pub proof fn law_sound_requests_within_budget_are_resolved(
    registry: SkillRegistry,
    requested: Seq<SkillId>,
    tools: ToolRegistry,
    budget_tokens: usize,
    states: SkillTrustStates,
    observed_at_ms: u64,
    result: Result<ResolvedSkillSet, HarnessError>,
)
    requires
        registry@.skills.len() <= usize::MAX,
        requested.len() <= 4096,
        is_resolvable(scene_of(registry, tools, states, observed_at_ms), id_views(requested)),
        resolved_at(registry, requested, tools, budget_tokens, states, observed_at_ms, result),
    ensures
        result is Ok || exists|closure: Seq<usize>| #[trigger]
            closure.no_duplicates() && (forall|index: usize| #[trigger]
                closure.contains(index) <==> reached(
                    scene_of(registry, tools, states, observed_at_ms),
                    id_views(requested),
                    index,
                )) && closure.fold_left(
                0int,
                |sum: int, index: usize| sum + registry@.skills[index as int].package.manifest.estimated_tokens,
            ) > budget_tokens,
{
    let scene = scene_of(registry, tools, states, observed_at_ms);
    let ids = id_views(requested);
    let roots = choose|roots: Seq<SkillIdView>|
        lists_roots(roots, ids) && #[trigger] resolution(scene, roots, budget_tokens, result);
    lemma_resolvable_same(scene, ids, roots);
    law_sound_requests_are_resolved(scene, roots);
    let ordered = visit_all(scene, roots, 0, Seq::empty(), Seq::empty())->Ok_0;
    law_dependencies_come_before_dependants(scene, roots, ordered);
    let cost = token_cost(scene.skills, ordered, ordered.len() as int);
    lemma_cost_is_sum(scene.skills, ordered, ordered.len() as int);
    assert(ordered.take(ordered.len() as int) =~= ordered);
    if cost <= budget_tokens {
        lemma_within_budget(scene.skills, ordered, budget_tokens, 0);
    } else {
        assert forall|index: usize| #[trigger] ordered.contains(index) <==> reached(scene, ids, index) by {
            law_resolved_graphs_are_closures(scene, roots, ordered, index);
            lemma_reached_same(scene, roots, ids, index);
        }
        assert(ordered.no_duplicates());
    }
}

proof fn lemma_resolvable_same(scene: Scene, ids: Seq<SkillIdView>, roots: Seq<SkillIdView>)
    requires
        is_resolvable(scene, ids),
        forall|id: SkillIdView| roots.contains(id) <==> ids.contains(id),
    ensures
        is_resolvable(scene, roots),
{
    assert forall|k: int| 0 <= k < roots.len() implies is_registered(scene.skills, #[trigger] roots[k]) by {
        assert(roots.contains(roots[k]));
        let n = choose|n: int| 0 <= n < ids.len() && ids[n] == roots[k];
        assert(is_registered(scene.skills, ids[n]));
    }
    assert forall|index: usize| #[trigger] reached(scene, roots, index) implies is_usable(scene, scene.skills[index as int])
        && all_registered(scene.skills, dependency_ids(scene.skills[index as int])) by {
        lemma_reached_same(scene, roots, ids, index);
        assert(reached(scene, ids, index));
    }
    assert forall|chain: Seq<usize>| #[trigger] is_chain(scene, roots, chain) implies chain.no_duplicates() by {
        let id = choose|id: SkillIdView| #[trigger] roots.contains(id) && find(scene.skills, id) == Some(chain[0] as int);
        assert(ids.contains(id));
        assert(is_chain(scene, ids, chain));
    }
}

/// What a resolved set shows of its packages: at every place the identity,
/// digest, origin and trust evidence of one registered package and, at the same
/// place of the context, its instructions under its name, version and digest,
/// with its own estimate; and the sum of these estimates as the total.
pub proof fn law_resolved_sets_show_their_packages(
    registry: SkillRegistry,
    requested: Seq<SkillId>,
    tools: ToolRegistry,
    budget_tokens: usize,
    states: SkillTrustStates,
    observed_at_ms: u64,
    set: ResolvedSkillSet,
) -> (places: Seq<usize>)
    requires
        registry@.skills.len() <= usize::MAX,
        resolved_at(registry, requested, tools, budget_tokens, states, observed_at_ms, Ok(set)),
    ensures
        set.skills@.len() == places.len(),
        set.context@.len() == places.len(),
        forall|k: int|
            0 <= k < places.len() ==> {
                let skill = registry@.skills[#[trigger] places[k] as int];
                let shown = set.skills@[k];
                let block = set.context@[k];
                &&& places[k] < registry@.skills.len()
                &&& shown.id == skill.id
                &&& shown.content_sha256 == skill.package.content_sha256
                &&& shown.origin == skill.origin
                &&& shown.publisher_key_id == skill.publisher_key_id
                &&& shown.transparency == skill.transparency
                &&& block.text == skill.package.instructions
                &&& block.estimated_tokens == skill.package.manifest.estimated_tokens
                &&& block.source matches ContextSource::Skill { name, version, content_sha256 } && name@ == skill.id.name@
                    && version@ == skill.id.version@ && content_sha256 == skill.package.content_sha256
            },
        set.estimated_tokens == set.context@.fold_left(0int, |sum: int, block: ContextBlock| sum + block.estimated_tokens),
{
    let ordered = law_resolved_sets_are_closures(
        registry,
        requested,
        tools,
        budget_tokens,
        states,
        observed_at_ms,
        set,
    );
    assert forall|k: int| 0 <= k < ordered.len() implies resolves(
        set.skills@[k],
        registry@.skills[#[trigger] ordered[k] as int],
    ) && instructs(set.context@[k], registry@.skills[ordered[k] as int]) by {
        assert(resolves(set.skills@[k], registry@.skills[ordered[k] as int]));
        assert(instructs(set.context@[k], registry@.skills[ordered[k] as int]));
    }
    lemma_context_cost(registry@.skills, ordered, set.context@, ordered.len() as int);
    assert(set.context@.take(ordered.len() as int) =~= set.context@);
    ordered
}

proof fn lemma_context_cost(skills: Seq<RegisteredSkill>, ordered: Seq<usize>, context: Seq<ContextBlock>, n: int)
    requires
        0 <= n <= ordered.len() == context.len(),
        forall|k: int| 0 <= k < ordered.len() ==> instructs(#[trigger] context[k], skills[ordered[k] as int]),
    ensures
        token_cost(skills, ordered, n) == context.take(n).fold_left(
            0int,
            |sum: int, block: ContextBlock| sum + block.estimated_tokens,
        ),
    decreases n,
{
    if n > 0 {
        lemma_context_cost(skills, ordered, context, n - 1);
        assert(context.take(n).drop_last() =~= context.take(n - 1));
        assert(context.take(n).last() == context[n - 1]);
        assert(instructs(context[n - 1], skills[ordered[n - 1] as int]));
    }
}

/// The trust of a resolved package can be checked again: its store, its
/// publisher key and its log are kept, and the check succeeds exactly where the
/// package is trusted at the later time.
pub proof fn law_kept_trust_is_checked_again(
    skill: RegisteredSkill,
    store: SkillTrustStore,
    key_id: String,
    stores: Map<SkillTrustStore, TrustView>,
    later_ms: u64,
)
    requires
        skill.origin is External,
        skill.publisher_trust == Some(store),
        skill.publisher_key_id == Some(key_id),
    ensures
        trust_of(seq![skill], seq![0usize], 1).len() == 1,
        trust_recheck(trust_of(seq![skill], seq![0usize], 1)[0], stores, later_ms) is Ok <==> is_trusted(
            skill,
            stores,
            later_ms,
        ),
{
    reveal_with_fuel(trust_of, 2);
    assert(trust_of(seq![skill], seq![0usize], 0) =~= Seq::empty());
    law_trust_is_what_the_store_says(skill, stores, later_ms);
}

/// One trust is kept for every package of a selection that has a store and a
/// key, and for no other.
pub proof fn law_trust_is_kept_for_every_signed_package(skills: Seq<RegisteredSkill>, ordered: Seq<usize>, n: int)
    requires
        0 < n <= ordered.len(),
    ensures
        ({
            let skill = skills[ordered[n - 1] as int];
            let kept = trust_of(skills, ordered, n);
            let before = trust_of(skills, ordered, n - 1);
            if skill.publisher_trust is Some && skill.publisher_key_id is Some {
                &&& kept.len() == before.len() + 1
                &&& kept.drop_last() == before
                &&& kept.last().trust == skill.publisher_trust->0
                &&& kept.last().publisher_key_id == skill.publisher_key_id->0@
                &&& kept.last().transparency_log_id is Some <==> skill.transparency is Some
                &&& skill.transparency is Some ==> kept.last().transparency_log_id->0 == skill.transparency->0.log_id@
            } else {
                kept == before
            }
        }),
{
    let kept = trust_of(skills, ordered, n);
    let before = trust_of(skills, ordered, n - 1);
    if kept.len() == before.len() + 1 {
        assert(kept.drop_last() =~= before);
    }
}

/// A resource is read exactly where its path is normal, its package is
/// registered and trusted at this time, and the package holds something under
/// the path; that is what is read.
pub proof fn law_resources_of_trusted_packages_are_read(
    skills: Seq<RegisteredSkill>,
    stores: Map<SkillTrustStore, TrustView>,
    id: SkillIdView,
    path: Seq<char>,
    observed_at_ms: u64,
)
    ensures
        resource_outcome(skills, stores, id, path, observed_at_ms) is Ok <==> path_check(path) is Ok && find(skills, id) is Some
            && is_trusted(skills[find(skills, id)->0], stores, observed_at_ms) && skills[find(
            skills,
            id,
        )->0].package.resources@.contains_key(path),
        resource_outcome(skills, stores, id, path, observed_at_ms) matches Ok(content) ==> content == skills[find(
            skills,
            id,
        )->0].package.resources@[path]@,
{
    if find(skills, id) is Some {
        law_trust_is_what_the_store_says(skills[find(skills, id)->0], stores, observed_at_ms);
    }
}

/// Requested packages are resolved in the order of their identities, however
/// they were requested: one stands before a later one that no other requested
/// package depends on.
pub proof fn law_requested_packages_are_ordered(
    registry: SkillRegistry,
    requested: Seq<SkillId>,
    tools: ToolRegistry,
    budget_tokens: usize,
    states: SkillTrustStates,
    observed_at_ms: u64,
    set: ResolvedSkillSet,
    a: SkillIdView,
    b: SkillIdView,
) -> (places: (int, int))
    requires
        registry@.skills.len() <= usize::MAX,
        resolved_at(registry, requested, tools, budget_tokens, states, observed_at_ms, Ok(set)),
        id_views(requested).contains(a),
        id_views(requested).contains(b),
        a.before(b),
        !b.before(a),
        forall|c: SkillIdView| #[trigger]
            id_views(requested).contains(c) && c != b ==> !reached(
                scene_of(registry, tools, states, observed_at_ms),
                seq![c],
                find(registry@.skills, b)->0 as usize,
            ),
    ensures
        0 <= places.0 < places.1 < set.skills@.len(),
        set.skills@[places.0].id@ == a,
        set.skills@[places.1].id@ == b,
{
    let scene = scene_of(registry, tools, states, observed_at_ms);
    let roots = choose|roots: Seq<SkillIdView>|
        lists_roots(roots, id_views(requested)) && #[trigger] resolution(scene, roots, budget_tokens, Ok(set));
    assert(roots.contains(a) && roots.contains(b));
    let i = choose|i: int| 0 <= i < roots.len() && roots[i] == a;
    let j = choose|j: int| 0 <= j < roots.len() && roots[j] == b;
    if j < i {
        assert(precedes(roots[j], roots[i]));
    }
    let ordered = visit_all(scene, roots, 0, Seq::empty(), Seq::empty())->Ok_0;
    assert forall|k: int| 0 <= k <= i implies !reached(
        scene,
        seq![#[trigger] roots[k]],
        find(scene.skills, roots[j])->0 as usize,
    ) by {
        assert(roots.contains(roots[k]));
        assert(id_views(requested).contains(roots[k]));
        if roots[k] == b {
            assert(precedes(roots[k], roots[j]));
        }
    }
    let (m, n) = law_requested_packages_keep_their_order(scene, roots, ordered, i, j);
    law_packages_are_found_by_identity(scene.skills, a);
    law_packages_are_found_by_identity(scene.skills, b);
    assert(resolves(set.skills@[m], scene.skills[ordered[m] as int]));
    assert(resolves(set.skills@[n], scene.skills[ordered[n] as int]));
    (m, n)
}

} // verus!
