//! Exact dependency graphs of Skills.

use vstd::prelude::*;

use crate::capability::{RegisteredTool, ToolRegistry};
use crate::error::{settles, ErrorView, HarnessError};
use crate::kernel::CapabilityOrigin;
use crate::skill::package::SkillDependency;
use crate::skill::registry::{find, lemma_index, RegisteredSkill, SkillRegistry};
use crate::skill::state::{log_status, publisher_status, revalidation, TrustView};
use crate::skill::store::{SkillTrustStates, SkillTrustStore};
use crate::skill::version::{SkillId, SkillIdView};
use crate::table::{Row, Table};
use crate::text::{join2, join3, join4};

verus! {

/// What a resolution is made against.
pub struct Scene {
    /// Registered packages.
    pub skills: Seq<RegisteredSkill>,
    /// Registered Tools.
    pub tools: Map<Seq<char>, RegisteredTool>,
    /// What the live trust stores hold.
    pub stores: Map<SkillTrustStore, TrustView>,
    /// Point of time.
    pub observed_at_ms: u64,
}

/// Log that a package was verified through.
pub open spec fn log_of(skill: RegisteredSkill) -> Option<Seq<char>> {
    match skill.transparency {
        Some(receipt) => Some(receipt.log_id@),
        None => None,
    }
}

/// Whether a registered package may be relied on now.
pub open spec fn trust_status(
    skill: RegisteredSkill,
    stores: Map<SkillTrustStore, TrustView>,
    observed_at_ms: u64,
) -> Result<(), ErrorView> {
    if skill.origin is External {
        match (skill.publisher_key_id, skill.publisher_trust) {
            (Some(key_id), Some(trust)) => revalidation(stores[trust], key_id@, log_of(skill), observed_at_ms),
            _ => Err(ErrorView::Skill("external Skill "@ + skill.id@.shown() + " has no live publisher trust"@)),
        }
    } else if skill.publisher_key_id is None && skill.publisher_trust is None {
        Ok(())
    } else {
        Err(ErrorView::Skill("non-external Skill "@ + skill.id@.shown() + " has external trust metadata"@))
    }
}

/// Checks that a registered package may be relied on now.
pub fn validate_registered_skill_trust(skill: &RegisteredSkill, states: &SkillTrustStates, observed_at_ms: u64) -> (result:
    Result<(), HarnessError>)
    ensures
        settles(result, trust_status(*skill, states@, observed_at_ms)),
{
    match &skill.origin {
        CapabilityOrigin::External { .. } => {
            match (&skill.publisher_key_id, &skill.publisher_trust) {
                (Some(key_id), Some(trust)) => {
                    let log_id = match &skill.transparency {
                        Some(receipt) => Some(receipt.log_id.as_str()),
                        None => None,
                    };
                    trust.revalidate_registered(states, key_id.as_str(), log_id, observed_at_ms)
                },
                _ => {
                    let shown = skill.id.shown();
                    Err(HarnessError::Skill(join3("external Skill ", shown.as_str(), " has no live publisher trust")))
                },
            }
        },
        _ => {
            if skill.publisher_key_id.is_none() && skill.publisher_trust.is_none() {
                return Ok(());
            }
            let shown = skill.id.shown();
            Err(HarnessError::Skill(join3("non-external Skill ", shown.as_str(), " has external trust metadata")))
        },
    }
}

/// First Tool of a package that is not registered, from `n` on.
pub open spec fn missing_tool(required: Seq<Row<()>>, tools: Map<Seq<char>, RegisteredTool>, n: int) -> Option<Seq<char>>
    decreases required.len() - n,
{
    if n < 0 || n >= required.len() {
        None
    } else if !tools.contains_key(required[n].key@) {
        Some(required[n].key@)
    } else {
        missing_tool(required, tools, n + 1)
    }
}

/// Whether a registered package may be selected now: it is trusted, and its
/// Tools are registered.
pub open spec fn readiness(scene: Scene, skill: RegisteredSkill) -> Result<(), ErrorView> {
    match trust_status(skill, scene.stores, scene.observed_at_ms) {
        Err(fault) => Err(fault),
        Ok(()) => match missing_tool(skill.package.manifest.required_tools.rows(), scene.tools, 0) {
            Some(tool) => Err(ErrorView::Skill("Skill "@ + skill.id@.shown() + " requires missing tool "@ + tool)),
            None => Ok(()),
        },
    }
}

fn find_missing_tool<'a>(required: &'a Table<()>, tools: &ToolRegistry) -> (tool: Option<&'a String>)
    ensures
        match tool {
            Some(tool) => missing_tool(required.rows(), tools@, 0) == Some(tool@),
            None => missing_tool(required.rows(), tools@, 0) is None,
        },
{
    let count: usize = required.len();
    let mut n: usize = 0;
    while n < count
        invariant
            n <= count == required.rows().len(),
            missing_tool(required.rows(), tools@, 0) == missing_tool(required.rows(), tools@, n as int),
        decreases count - n,
    {
        let tool = required.key_at(n);
        if tools.get(tool.as_str()).is_none() {
            return Some(tool);
        }
        n += 1;
    }
    None
}

/// Identities of the dependencies of a package.
pub open spec fn dependency_ids(skill: RegisteredSkill) -> Seq<SkillIdView> {
    Seq::new(skill.package.manifest.dependencies@.len(), |k: int| skill.package.manifest.dependencies@[k].identity())
}

/// Error of an identity that is not registered.
pub open spec fn not_registered(id: SkillIdView) -> ErrorView {
    ErrorView::Skill("Skill "@ + id.shown() + " is not registered"@)
}

/// Packages in the order in which they are loaded, behind selecting one more:
/// its dependencies come first, and nothing is selected twice. `path` holds
/// the packages whose dependencies are being selected; a path that holds every
/// package cannot grow.
pub open spec fn visit(scene: Scene, id: SkillIdView, path: Seq<usize>, ordered: Seq<usize>) -> Result<Seq<usize>, ErrorView>
    decreases scene.skills.len() - path.len(), 0int, 0int,
{
    match find(scene.skills, id) {
        None => Err(not_registered(id)),
        Some(found) => {
            let index = found as usize;
            if ordered.contains(index) {
                Ok(ordered)
            } else if path.contains(index) || path.len() >= scene.skills.len() {
                Err(ErrorView::Skill("Skill dependency cycle includes "@ + id.shown()))
            } else {
                match readiness(scene, scene.skills[found]) {
                    Err(fault) => Err(fault),
                    Ok(()) => match visit_all(scene, dependency_ids(scene.skills[found]), 0, path.push(index), ordered) {
                        Err(fault) => Err(fault),
                        Ok(deeper) => Ok(deeper.push(index)),
                    },
                }
            }
        },
    }
}

/// Packages in the order in which they are loaded, behind selecting the
/// identities from `n` on.
pub open spec fn visit_all(scene: Scene, ids: Seq<SkillIdView>, n: int, path: Seq<usize>, ordered: Seq<usize>) -> Result<
    Seq<usize>,
    ErrorView,
>
    decreases scene.skills.len() - path.len(), 1int, ids.len() - n,
{
    if n < 0 || n >= ids.len() {
        Ok(ordered)
    } else {
        match visit(scene, ids[n], path, ordered) {
            Err(fault) => Err(fault),
            Ok(further) => visit_all(scene, ids, n + 1, path, further),
        }
    }
}

fn holds(list: &Vec<usize>, value: usize) -> (result: bool)
    ensures
        result == list@.contains(value),
{
    let mut k: usize = 0;
    while k < list.len()
        invariant
            k <= list@.len(),
            forall|j: int| 0 <= j < k ==> #[trigger] list@[j] != value,
        decreases list@.len() - k,
    {
        if list[k] == value {
            return true;
        }
        k += 1;
    }
    false
}

/// What a resolution is made against, from its parts.
pub open spec fn scene_of(registry: SkillRegistry, tools: ToolRegistry, states: SkillTrustStates, observed_at_ms: u64) -> Scene {
    Scene { skills: registry@.skills, tools: tools@, stores: states@, observed_at_ms }
}

/// Selects one more package, behind its dependencies.
pub fn select(
    registry: &SkillRegistry,
    id: &SkillId,
    tools: &ToolRegistry,
    states: &SkillTrustStates,
    path: &mut Vec<usize>,
    ordered: &mut Vec<usize>,
    observed_at_ms: u64,
) -> (result: Result<(), HarnessError>)
    ensures
        match visit(scene_of(*registry, *tools, *states, observed_at_ms), id@, old(path)@, old(ordered)@) {
            Err(fault) => result matches Err(error) && error@ == fault,
            Ok(further) => result is Ok && final(ordered)@ == further && final(path)@ == old(path)@,
        },
    decreases registry@.skills.len() - old(path)@.len(),
{
    let ghost scene = scene_of(*registry, *tools, *states, observed_at_ms);
    let ghost start = path@;
    let ghost before = ordered@;
    let index = match registry.index(id) {
        Some(index) => index,
        None => {
            let shown = id.shown();
            return Err(HarnessError::Skill(join3("Skill ", shown.as_str(), " is not registered")));
        },
    };
    if holds(ordered, index) {
        return Ok(());
    }
    if holds(path, index) || path.len() >= registry.len() {
        let shown = id.shown();
        return Err(HarnessError::Skill(join2("Skill dependency cycle includes ", shown.as_str())));
    }
    let skill = registry.at(index);
    proof {
        lemma_index(scene.skills, id@, 0);
    }
    if let Err(error) = validate_registered_skill_trust(skill, states, observed_at_ms) {
        return Err(error);
    }
    if let Some(tool) = find_missing_tool(&skill.package.manifest.required_tools, tools) {
        let shown = skill.id.shown();
        return Err(
            HarnessError::Skill(join4("Skill ", shown.as_str(), " requires missing tool ", tool.as_str())),
        );
    }
    path.push(index);
    let dependencies: &Vec<SkillDependency> = &skill.package.manifest.dependencies;
    let ghost ids = dependency_ids(*skill);
    let mut n: usize = 0;
    while n < dependencies.len()
        invariant
            n <= dependencies@.len() == ids.len(),
            *dependencies == skill.package.manifest.dependencies,
            ids == dependency_ids(*skill),
            scene == scene_of(*registry, *tools, *states, observed_at_ms),
            start == old(path)@,
            before == old(ordered)@,
            path@ == start.push(index),
            start.len() < registry@.skills.len(),
            visit_all(scene, ids, 0, path@, before) == visit_all(scene, ids, n as int, path@, ordered@),
            visit(scene, id@, start, before) == match visit_all(scene, ids, 0, start.push(index), before) {
                Err(fault) => Err(fault),
                Ok(deeper) => Ok(deeper.push(index)),
            },
        decreases dependencies@.len() - n,
    {
        let dependency = dependencies[n].id();
        assert(ids[n as int] == dependency@);
        if let Err(error) = select(registry, &dependency, tools, states, path, ordered, observed_at_ms) {
            return Err(error);
        }
        n += 1;
    }
    let _ = path.pop();
    assert(path@ =~= start);
    ordered.push(index);
    Ok(())
}

/// Whether every package of a selection stands behind its dependencies.
pub open spec fn dependencies_first(scene: Scene, ordered: Seq<usize>) -> bool {
    forall|k: int, d: int|
        0 <= k < ordered.len() && 0 <= d < dependency_ids(scene.skills[ordered[k] as int]).len() ==> stands_before(
            scene,
            ordered,
            k,
            #[trigger] dependency_ids(scene.skills[#[trigger] ordered[k] as int])[d],
        )
}

/// Whether a package stands before a place of a selection.
pub open spec fn stands_before(scene: Scene, ordered: Seq<usize>, place: int, id: SkillIdView) -> bool {
    find(scene.skills, id) matches Some(index) && exists|m: int| 0 <= m < place && #[trigger] ordered[m] == index as usize
}

/// Whether a selection is sound: it names registered packages, each once, each
/// ready and behind its dependencies.
pub open spec fn sound(scene: Scene, ordered: Seq<usize>) -> bool {
    &&& ordered.no_duplicates()
    &&& forall|k: int| 0 <= k < ordered.len() ==> (#[trigger] ordered[k]) < scene.skills.len()
    &&& forall|k: int| 0 <= k < ordered.len() ==> readiness(scene, scene.skills[#[trigger] ordered[k] as int]) is Ok
    &&& dependencies_first(scene, ordered)
}

/// Whether a selection holds a package.
pub open spec fn selects(scene: Scene, ordered: Seq<usize>, id: SkillIdView) -> bool {
    find(scene.skills, id) matches Some(index) && ordered.contains(index as usize)
}

proof fn lemma_visit(scene: Scene, id: SkillIdView, path: Seq<usize>, ordered: Seq<usize>)
    requires
        scene.skills.len() <= usize::MAX,
        sound(scene, ordered),
    ensures
        visit(scene, id, path, ordered) matches Ok(further) ==> {
            &&& sound(scene, further)
            &&& ordered.is_prefix_of(further)
            &&& selects(scene, further, id)
            &&& forall|x: usize| path.contains(x) && #[trigger] further.contains(x) ==> ordered.contains(x)
        },
    decreases scene.skills.len() - path.len(), 0int, 0int,
{
    lemma_index(scene.skills, id, 0);
    if let Some(found) = find(scene.skills, id) {
        let index = found as usize;
        if !ordered.contains(index) && !path.contains(index) && path.len() < scene.skills.len() && readiness(
            scene,
            scene.skills[found],
        ) is Ok {
            let ids = dependency_ids(scene.skills[found]);
            let deeper_path = path.push(index);
            lemma_visit_all(scene, ids, 0, deeper_path, ordered);
            if let Ok(deeper) = visit_all(scene, ids, 0, deeper_path, ordered) {
                let further = deeper.push(index);
                assert(deeper_path[path.len() as int] == index);
                assert(!deeper.contains(index));
                lemma_extended(scene, deeper, index, ids);
                assert(ordered.is_prefix_of(further)) by {
                    assert(further.take(ordered.len() as int) =~= deeper.take(ordered.len() as int));
                }
                assert(further[deeper.len() as int] == index);
                assert forall|x: usize| path.contains(x) && #[trigger] further.contains(x) implies ordered.contains(x) by {
                    let k = choose|k: int| 0 <= k < path.len() && path[k] == x;
                    assert(deeper_path[k] == x);
                    assert(deeper_path.contains(x));
                    let j = choose|j: int| 0 <= j < further.len() && further[j] == x;
                    if j < deeper.len() {
                        assert(deeper[j] == x);
                        assert(deeper.contains(x));
                    }
                }
            }
        }
    }
}

proof fn lemma_extended(scene: Scene, deeper: Seq<usize>, index: usize, ids: Seq<SkillIdView>)
    requires
        sound(scene, deeper),
        !deeper.contains(index),
        index < scene.skills.len(),
        readiness(scene, scene.skills[index as int]) is Ok,
        ids == dependency_ids(scene.skills[index as int]),
        forall|d: int| 0 <= d < ids.len() ==> selects(scene, deeper, #[trigger] ids[d]),
    ensures
        sound(scene, deeper.push(index)),
{
    let further = deeper.push(index);
    assert forall|i: int, j: int| 0 <= i < further.len() && 0 <= j < further.len() && i != j implies further[i]
        != further[j] by {
        if i == deeper.len() {
            assert(deeper[j] == further[j]);
        } else if j == deeper.len() {
            assert(deeper[i] == further[i]);
        }
    }
    assert forall|k: int, d: int|
        0 <= k < further.len() && 0 <= d < dependency_ids(scene.skills[further[k] as int]).len() implies stands_before(
        scene,
        further,
        k,
        #[trigger] dependency_ids(scene.skills[#[trigger] further[k] as int])[d],
    ) by {
        let id = dependency_ids(scene.skills[further[k] as int])[d];
        if k < deeper.len() {
            assert(further[k] == deeper[k]);
            assert(stands_before(scene, deeper, k, dependency_ids(scene.skills[deeper[k] as int])[d]));
            let found = find(scene.skills, id)->0;
            let m = choose|m: int| 0 <= m < k && #[trigger] deeper[m] == found as usize;
            assert(further[m] == found as usize);
        } else {
            assert(selects(scene, deeper, ids[d]));
            let found = find(scene.skills, id)->0;
            let m = choose|m: int| 0 <= m < deeper.len() && deeper[m] == found as usize;
            assert(further[m] == found as usize);
        }
    }
}

proof fn lemma_visit_all(scene: Scene, ids: Seq<SkillIdView>, n: int, path: Seq<usize>, ordered: Seq<usize>)
    requires
        scene.skills.len() <= usize::MAX,
        sound(scene, ordered),
        0 <= n <= ids.len(),
    ensures
        visit_all(scene, ids, n, path, ordered) matches Ok(further) ==> {
            &&& sound(scene, further)
            &&& ordered.is_prefix_of(further)
            &&& forall|d: int| n <= d < ids.len() ==> selects(scene, further, #[trigger] ids[d])
            &&& forall|x: usize| path.contains(x) && #[trigger] further.contains(x) ==> ordered.contains(x)
        },
    decreases scene.skills.len() - path.len(), 1int, ids.len() - n,
{
    if n < ids.len() {
        lemma_visit(scene, ids[n], path, ordered);
        if let Ok(middle) = visit(scene, ids[n], path, ordered) {
            lemma_visit_all(scene, ids, n + 1, path, middle);
            if let Ok(further) = visit_all(scene, ids, n + 1, path, middle) {
                assert(ordered.is_prefix_of(further)) by {
                    assert(further.take(ordered.len() as int) =~= middle.take(ordered.len() as int));
                }
                assert forall|d: int| n <= d < ids.len() implies selects(scene, further, #[trigger] ids[d]) by {
                    if d == n {
                        let found = find(scene.skills, ids[n])->0;
                        let m = choose|m: int| 0 <= m < middle.len() && middle[m] == found as usize;
                        assert(further[m] == found as usize);
                    }
                }
                assert forall|x: usize| path.contains(x) && #[trigger] further.contains(x) implies ordered.contains(x) by {
                    assert(middle.contains(x));
                }
            }
        }
    }
}

/// A resolved graph loads every requested package, each package once, and each
/// behind all of its dependencies. Every one of them is trusted at that point
/// of time and has its Tools.
pub proof fn law_dependencies_come_before_dependants(scene: Scene, roots: Seq<SkillIdView>, ordered: Seq<usize>)
    requires
        scene.skills.len() <= usize::MAX,
        visit_all(scene, roots, 0, Seq::empty(), Seq::empty()) == Ok::<Seq<usize>, ErrorView>(ordered),
    ensures
        sound(scene, ordered),
        forall|k: int| 0 <= k < roots.len() ==> selects(scene, ordered, #[trigger] roots[k]),
{
    lemma_visit_all(scene, roots, 0, Seq::empty(), Seq::empty());
}

/// Every external package of a resolved graph rests on trust that is live at
/// that point of time: in its own store, its publisher and its log, where it
/// has one, are inside their windows and not revoked.
pub proof fn law_selected_external_skills_are_trusted_now(
    scene: Scene,
    roots: Seq<SkillIdView>,
    ordered: Seq<usize>,
    k: int,
)
    requires
        scene.skills.len() <= usize::MAX,
        visit_all(scene, roots, 0, Seq::empty(), Seq::empty()) == Ok::<Seq<usize>, ErrorView>(ordered),
        0 <= k < ordered.len(),
        scene.skills[ordered[k] as int].origin is External,
    ensures
        ({
            let skill = scene.skills[ordered[k] as int];
            &&& skill.publisher_trust is Some
            &&& skill.publisher_key_id is Some
            &&& {
                let store = scene.stores[skill.publisher_trust->0];
                let key_id = skill.publisher_key_id->0@;
                &&& store.publishers.contains_key(key_id)
                &&& publisher_status(key_id, store.publishers[key_id], scene.observed_at_ms) is Ok
                &&& log_of(skill) matches Some(log_id) ==> store.logs.contains_key(log_id) && log_status(
                    log_id,
                    store.logs[log_id],
                    scene.observed_at_ms,
                ) is Ok
            }
        }),
{
    law_dependencies_come_before_dependants(scene, roots, ordered);
    assert(readiness(scene, scene.skills[ordered[k] as int]) is Ok);
}

/// A resolved graph has no cycle: no package of it depends on itself.
pub proof fn law_resolved_graphs_have_no_cycle(scene: Scene, roots: Seq<SkillIdView>, ordered: Seq<usize>, k: int, d: int)
    requires
        scene.skills.len() <= usize::MAX,
        visit_all(scene, roots, 0, Seq::empty(), Seq::empty()) == Ok::<Seq<usize>, ErrorView>(ordered),
        0 <= k < ordered.len(),
        0 <= d < dependency_ids(scene.skills[ordered[k] as int]).len(),
    ensures
        find(scene.skills, dependency_ids(scene.skills[ordered[k] as int])[d]) != Some(ordered[k] as int),
{
    law_dependencies_come_before_dependants(scene, roots, ordered);
    let id = dependency_ids(scene.skills[ordered[k] as int])[d];
    assert(stands_before(scene, ordered, k, id));
}

/// Whether identities name a registered package.
pub open spec fn names(scene: Scene, ids: Seq<SkillIdView>, index: usize) -> bool {
    exists|id: SkillIdView| #[trigger] ids.contains(id) && find(scene.skills, id) == Some(index as int)
}

/// Whether a chain of registered packages begins with one that is named, and
/// each of the others is a dependency of the one before it.
pub open spec fn is_chain(scene: Scene, ids: Seq<SkillIdView>, chain: Seq<usize>) -> bool {
    &&& chain.len() > 0
    &&& names(scene, ids, chain[0])
    &&& forall|i: int| 0 <= i < chain.len() ==> (#[trigger] chain[i]) < scene.skills.len()
    &&& forall|i: int|
        0 < i < chain.len() ==> names(
            scene,
            dependency_ids(scene.skills[chain[i - 1] as int]),
            #[trigger] chain[i],
        )
}

/// Whether a package is one of the named ones, or reached from them through
/// dependencies.
pub open spec fn reached(scene: Scene, ids: Seq<SkillIdView>, index: usize) -> bool {
    exists|chain: Seq<usize>| #[trigger] is_chain(scene, ids, chain) && chain.last() == index
}

proof fn lemma_reached_deeper(scene: Scene, id: SkillIdView, root: usize, index: usize)
    requires
        find(scene.skills, id) == Some(root as int),
        root < scene.skills.len(),
        reached(scene, dependency_ids(scene.skills[root as int]), index),
    ensures
        reached(scene, seq![id], index),
{
    let ids = dependency_ids(scene.skills[root as int]);
    let chain = choose|chain: Seq<usize>| #[trigger] is_chain(scene, ids, chain) && chain.last() == index;
    let longer = seq![root] + chain;
    assert(seq![id][0] == id);
    assert(seq![id].contains(id));
    assert forall|i: int| 0 <= i < longer.len() implies (#[trigger] longer[i]) < scene.skills.len() by {
        if i > 0 {
            assert(longer[i] == chain[i - 1]);
        }
    }
    assert forall|i: int| 0 < i < longer.len() implies names(
        scene,
        dependency_ids(scene.skills[longer[i - 1] as int]),
        #[trigger] longer[i],
    ) by {
        assert(longer[i] == chain[i - 1]);
        if i > 1 {
            assert(longer[i - 1] == chain[i - 2]);
        }
    }
    assert(is_chain(scene, seq![id], longer));
    assert(longer.last() == index);
}

pub(crate) proof fn lemma_reached_more(scene: Scene, few: Seq<SkillIdView>, many: Seq<SkillIdView>, index: usize)
    requires
        reached(scene, few, index),
        forall|id: SkillIdView| few.contains(id) ==> many.contains(id),
    ensures
        reached(scene, many, index),
{
    let chain = choose|chain: Seq<usize>| #[trigger] is_chain(scene, few, chain) && chain.last() == index;
    let id = choose|id: SkillIdView| #[trigger] few.contains(id) && find(scene.skills, id) == Some(chain[0] as int);
    assert(many.contains(id));
    assert(is_chain(scene, many, chain));
}

pub(crate) proof fn lemma_reached_by_name(scene: Scene, ids: Seq<SkillIdView>, index: usize)
    requires
        reached(scene, ids, index),
    ensures
        index < scene.skills.len(),
        find(scene.skills, scene.skills[index as int].id@) == Some(index as int),
{
    let chain = choose|chain: Seq<usize>| #[trigger] is_chain(scene, ids, chain) && chain.last() == index;
    let last = chain.len() - 1;
    let named = if last == 0 {
        ids
    } else {
        dependency_ids(scene.skills[chain[last - 1] as int])
    };
    assert(names(scene, named, chain[last]));
    let id = choose|id: SkillIdView| #[trigger] named.contains(id) && find(scene.skills, id) == Some(index as int);
    lemma_index(scene.skills, id, 0);
}

proof fn lemma_visit_reached(scene: Scene, id: SkillIdView, path: Seq<usize>, ordered: Seq<usize>)
    requires
        scene.skills.len() <= usize::MAX,
    ensures
        visit(scene, id, path, ordered) matches Ok(further) ==> forall|x: usize| #[trigger]
            further.contains(x) ==> ordered.contains(x) || reached(scene, seq![id], x),
    decreases scene.skills.len() - path.len(), 0int, 0int,
{
    lemma_index(scene.skills, id, 0);
    if let Some(found) = find(scene.skills, id) {
        let index = found as usize;
        if !ordered.contains(index) && !path.contains(index) && path.len() < scene.skills.len() && readiness(
            scene,
            scene.skills[found],
        ) is Ok {
            let ids = dependency_ids(scene.skills[found]);
            lemma_visit_all_reached(scene, ids, 0, path.push(index), ordered);
            if let Ok(deeper) = visit_all(scene, ids, 0, path.push(index), ordered) {
                let further = deeper.push(index);
                assert forall|x: usize| #[trigger] further.contains(x) implies ordered.contains(x) || reached(
                    scene,
                    seq![id],
                    x,
                ) by {
                    let k = choose|k: int| 0 <= k < further.len() && further[k] == x;
                    if k < deeper.len() {
                        assert(deeper[k] == x);
                        assert(deeper.contains(x));
                        if !ordered.contains(x) {
                            lemma_reached_deeper(scene, id, index, x);
                        }
                    } else {
                        assert(seq![id][0] == id);
                        assert(seq![id].contains(id));
                        assert(is_chain(scene, seq![id], seq![index]));
                    }
                }
            }
        }
    }
}

proof fn lemma_visit_all_reached(scene: Scene, ids: Seq<SkillIdView>, n: int, path: Seq<usize>, ordered: Seq<usize>)
    requires
        scene.skills.len() <= usize::MAX,
        0 <= n <= ids.len(),
    ensures
        visit_all(scene, ids, n, path, ordered) matches Ok(further) ==> forall|x: usize| #[trigger]
            further.contains(x) ==> ordered.contains(x) || reached(scene, ids, x),
    decreases scene.skills.len() - path.len(), 1int, ids.len() - n,
{
    if n < ids.len() {
        lemma_visit_reached(scene, ids[n], path, ordered);
        if let Ok(middle) = visit(scene, ids[n], path, ordered) {
            lemma_visit_all_reached(scene, ids, n + 1, path, middle);
            if let Ok(further) = visit_all(scene, ids, n + 1, path, middle) {
                assert forall|x: usize| #[trigger] further.contains(x) implies ordered.contains(x) || reached(
                    scene,
                    ids,
                    x,
                ) by {
                    if !reached(scene, ids, x) && !ordered.contains(x) {
                        assert(middle.contains(x));
                        let one = seq![ids[n]];
                        assert forall|id: SkillIdView| one.contains(id) implies ids.contains(id) by {
                            assert(ids[n] == id);
                        }
                        lemma_reached_more(scene, one, ids, x);
                    }
                }
            }
        }
    }
}

proof fn lemma_reached_selected(scene: Scene, roots: Seq<SkillIdView>, ordered: Seq<usize>, chain: Seq<usize>, n: int)
    requires
        sound(scene, ordered),
        forall|k: int| 0 <= k < roots.len() ==> selects(scene, ordered, #[trigger] roots[k]),
        is_chain(scene, roots, chain),
        0 <= n < chain.len(),
    ensures
        ordered.contains(chain[n]),
    decreases n,
{
    if n == 0 {
        let id = choose|id: SkillIdView| #[trigger] roots.contains(id) && find(scene.skills, id) == Some(chain[0] as int);
        let k = choose|k: int| 0 <= k < roots.len() && roots[k] == id;
        assert(selects(scene, ordered, roots[k]));
    } else {
        lemma_reached_selected(scene, roots, ordered, chain, n - 1);
        let k = choose|k: int| 0 <= k < ordered.len() && ordered[k] == chain[n - 1];
        let ids = dependency_ids(scene.skills[ordered[k] as int]);
        assert(names(scene, dependency_ids(scene.skills[chain[n - 1] as int]), chain[n]));
        let id = choose|id: SkillIdView| #[trigger] ids.contains(id) && find(scene.skills, id) == Some(chain[n] as int);
        let d = choose|d: int| 0 <= d < ids.len() && ids[d] == id;
        assert(stands_before(scene, ordered, k, dependency_ids(scene.skills[ordered[k] as int])[d]));
        let m = choose|m: int| 0 <= m < k && #[trigger] ordered[m] == chain[n] as usize;
        assert(ordered[m] == chain[n]);
    }
}

/// A resolved graph is the dependency closure of what was requested: it holds
/// every package that is reached from a request, and no other.
pub proof fn law_resolved_graphs_are_closures(scene: Scene, roots: Seq<SkillIdView>, ordered: Seq<usize>, index: usize)
    requires
        scene.skills.len() <= usize::MAX,
        visit_all(scene, roots, 0, Seq::empty(), Seq::empty()) == Ok::<Seq<usize>, ErrorView>(ordered),
    ensures
        ordered.contains(index) <==> reached(scene, roots, index),
{
    let none = Seq::<usize>::empty();
    lemma_visit_all_reached(scene, roots, 0, none, none);
    law_dependencies_come_before_dependants(scene, roots, ordered);
    if ordered.contains(index) {
        assert(visit_all(scene, roots, 0, none, none)->Ok_0.contains(index));
        assert(!none.contains(index));
    }
    if reached(scene, roots, index) {
        let chain = choose|chain: Seq<usize>| #[trigger] is_chain(scene, roots, chain) && chain.last() == index;
        lemma_reached_selected(scene, roots, ordered, chain, chain.len() - 1);
        assert(ordered.contains(index));
    }
}

/// Every Tool that a package of a resolved graph requires is registered.
pub proof fn law_selected_skills_have_their_tools(
    scene: Scene,
    roots: Seq<SkillIdView>,
    ordered: Seq<usize>,
    k: int,
    t: int,
)
    requires
        scene.skills.len() <= usize::MAX,
        visit_all(scene, roots, 0, Seq::empty(), Seq::empty()) == Ok::<Seq<usize>, ErrorView>(ordered),
        0 <= k < ordered.len(),
        0 <= t < scene.skills[ordered[k] as int].package.manifest.required_tools.rows().len(),
    ensures
        scene.tools.contains_key(scene.skills[ordered[k] as int].package.manifest.required_tools.rows()[t].key@),
{
    law_dependencies_come_before_dependants(scene, roots, ordered);
    assert(readiness(scene, scene.skills[ordered[k] as int]) is Ok);
    lemma_no_tool_missing(scene.skills[ordered[k] as int].package.manifest.required_tools.rows(), scene.tools, 0, t);
}

proof fn lemma_no_tool_missing(required: Seq<Row<()>>, tools: Map<Seq<char>, RegisteredTool>, n: int, t: int)
    requires
        0 <= n <= t < required.len(),
        missing_tool(required, tools, n) is None,
    ensures
        tools.contains_key(required[t].key@),
    decreases required.len() - n,
{
    if n < t {
        lemma_no_tool_missing(required, tools, n + 1, t);
    }
}

/// A package is found under exactly the identity it was registered with: the
/// search ends at a package with that name and version, and finds none only
/// where there is none.
pub proof fn law_packages_are_found_by_identity(skills: Seq<RegisteredSkill>, id: SkillIdView)
    ensures
        match find(skills, id) {
            Some(k) => 0 <= k < skills.len() && skills[k].id.name@ == id.name && skills[k].id.version@ == id.version,
            None => forall|k: int|
                0 <= k < skills.len() ==> (#[trigger] skills[k]).id.name@ != id.name || skills[k].id.version@ != id.version,
        },
{
    lemma_index(skills, id, 0);
    if find(skills, id) is None {
        assert forall|k: int| 0 <= k < skills.len() implies (#[trigger] skills[k]).id.name@ != id.name
            || skills[k].id.version@ != id.version by {
            assert(skills[k].id@ != id);
        }
    }
}

/// The dependencies of a package are all those of its manifest, in their
/// order, each with its exact version.
pub proof fn law_dependencies_are_those_of_the_manifest(skill: RegisteredSkill)
    ensures
        dependency_ids(skill).len() == skill.package.manifest.dependencies@.len(),
        forall|k: int|
            0 <= k < skill.package.manifest.dependencies@.len() ==> (#[trigger] dependency_ids(skill)[k]).name
                == skill.package.manifest.dependencies@[k].name@ && dependency_ids(skill)[k].version
                == skill.package.manifest.dependencies@[k].version@,
{
}

/// Whether a package can be relied on at a point of time: one from outside
/// needs a publisher that its own store trusts then, and a log that is not
/// revoked where it has a receipt, or has to have one; any other needs no
/// trust.
pub open spec fn is_trusted(skill: RegisteredSkill, stores: Map<SkillTrustStore, TrustView>, observed_at_ms: u64) -> bool {
    if skill.origin is External {
        &&& skill.publisher_key_id is Some
        &&& skill.publisher_trust is Some
        &&& {
            let store = stores[skill.publisher_trust->0];
            let key_id = skill.publisher_key_id->0@;
            let publisher = store.publishers[key_id];
            &&& store.publishers.contains_key(key_id)
            &&& publisher.policy.not_before_ms is None || publisher.policy.not_before_ms->0 <= observed_at_ms
            &&& publisher.policy.not_after_ms is None || observed_at_ms < publisher.policy.not_after_ms->0
            &&& publisher.revocation is None || observed_at_ms < publisher.revocation->0.revoked_at_ms
            &&& match skill.transparency {
                None => publisher.policy.transparency is Optional,
                Some(receipt) => store.logs.contains_key(receipt.log_id@) && {
                    let log = store.logs[receipt.log_id@];
                    log.revocation is None || observed_at_ms < log.revocation->0.revoked_at_ms
                },
            }
        }
    } else {
        skill.publisher_key_id is None && skill.publisher_trust is None
    }
}

/// Whether a package can be selected now: it is trusted, and every Tool that it
/// requires is registered.
pub open spec fn is_usable(scene: Scene, skill: RegisteredSkill) -> bool {
    &&& is_trusted(skill, scene.stores, scene.observed_at_ms)
    &&& forall|t: int|
        0 <= t < skill.package.manifest.required_tools.rows().len() ==> scene.tools.contains_key(
            (#[trigger] skill.package.manifest.required_tools.rows()[t]).key@,
        )
}

/// The trust check of a package passes exactly where the package is trusted.
pub proof fn law_trust_is_what_the_store_says(
    skill: RegisteredSkill,
    stores: Map<SkillTrustStore, TrustView>,
    observed_at_ms: u64,
)
    ensures
        trust_status(skill, stores, observed_at_ms) is Ok <==> is_trusted(skill, stores, observed_at_ms),
{
}

proof fn lemma_missing_tool(required: Seq<Row<()>>, tools: Map<Seq<char>, RegisteredTool>, n: int)
    requires
        0 <= n <= required.len(),
    ensures
        missing_tool(required, tools, n) is None <==> forall|t: int|
            n <= t < required.len() ==> tools.contains_key((#[trigger] required[t]).key@),
        missing_tool(required, tools, n) matches Some(tool) ==> !tools.contains_key(tool),
    decreases required.len() - n,
{
    if n < required.len() {
        lemma_missing_tool(required, tools, n + 1);
    }
}

/// A package is ready exactly where it is usable: trust and Tools decide, and
/// nothing else.
pub proof fn law_ready_packages_are_usable(scene: Scene, skill: RegisteredSkill)
    ensures
        readiness(scene, skill) is Ok <==> is_usable(scene, skill),
{
    lemma_missing_tool(skill.package.manifest.required_tools.rows(), scene.tools, 0);
}

proof fn lemma_distinct_below(list: Seq<usize>, bound: int)
    requires
        list.no_duplicates(),
        0 <= bound,
        forall|k: int| 0 <= k < list.len() ==> (#[trigger] list[k]) < bound,
    ensures
        list.len() <= bound,
    decreases bound,
{
    if list.len() > 0 {
        if bound == 0 {
            assert(list[0] < 0);
        }
        let top = (bound - 1) as usize;
        if list.contains(top) {
            let at = choose|k: int| 0 <= k < list.len() && list[k] == top;
            let rest = list.remove(at);
            assert forall|j: int, k: int| 0 <= j < k < rest.len() implies rest[j] != rest[k] by {
                let (from, to) = (if j < at { j } else { j + 1 }, if k < at { k } else { k + 1 });
                assert(rest[j] == list[from] && rest[k] == list[to]);
            }
            assert(rest.no_duplicates());
            assert forall|k: int| 0 <= k < rest.len() implies (#[trigger] rest[k]) < bound - 1 by {
                let from = if k < at { k } else { k + 1 };
                assert(rest[k] == list[from]);
                assert(list[from] < bound);
                assert(list[from] != list[at]);
            }
            lemma_distinct_below(rest, bound - 1);
        } else {
            assert forall|k: int| 0 <= k < list.len() implies (#[trigger] list[k]) < bound - 1 by {
                assert(list.contains(list[k]));
            }
            lemma_distinct_below(list, bound - 1);
        }
    }
}

/// Whether the packages on a path are being selected for one that was
/// requested, each for the one before it, and an identity is wanted next.
spec fn wants(scene: Scene, roots: Seq<SkillIdView>, path: Seq<usize>, id: SkillIdView) -> bool {
    if path.len() == 0 {
        roots.contains(id)
    } else {
        is_chain(scene, roots, path) && dependency_ids(scene.skills[path.last() as int]).contains(id)
    }
}

/// Whether there is a package with this identity.
pub open spec fn is_registered(skills: Seq<RegisteredSkill>, id: SkillIdView) -> bool {
    exists|j: int| 0 <= j < skills.len() && (#[trigger] skills[j]).id@ == id
}

/// Whether there is a package for every one of these identities.
pub open spec fn all_registered(skills: Seq<RegisteredSkill>, ids: Seq<SkillIdView>) -> bool {
    forall|k: int| 0 <= k < ids.len() ==> is_registered(skills, #[trigger] ids[k])
}

/// What a request needs to be resolved: every identity that is requested or
/// reached is registered, every package that is reached is usable, and no
/// chain of dependencies comes back to a package on it.
pub open spec fn is_resolvable(scene: Scene, roots: Seq<SkillIdView>) -> bool {
    &&& all_registered(scene.skills, roots)
    &&& forall|index: usize| #[trigger]
        reached(scene, roots, index) ==> is_usable(scene, scene.skills[index as int]) && all_registered(
            scene.skills,
            dependency_ids(scene.skills[index as int]),
        )
    &&& forall|chain: Seq<usize>| #[trigger] is_chain(scene, roots, chain) ==> chain.no_duplicates()
}

proof fn lemma_registered(skills: Seq<RegisteredSkill>, id: SkillIdView)
    requires
        is_registered(skills, id),
    ensures
        find(skills, id) is Some,
        0 <= find(skills, id)->0 < skills.len(),
{
    lemma_index(skills, id, 0);
}

proof fn lemma_visit_succeeds(
    scene: Scene,
    roots: Seq<SkillIdView>,
    id: SkillIdView,
    path: Seq<usize>,
    ordered: Seq<usize>,
)
    requires
        scene.skills.len() <= usize::MAX,
        is_resolvable(scene, roots),
        wants(scene, roots, path, id),
        is_registered(scene.skills, id),
    ensures
        visit(scene, id, path, ordered) is Ok,
    decreases scene.skills.len() - path.len(), 0int, 0int,
{
    lemma_registered(scene.skills, id);
    let found = find(scene.skills, id)->0;
    let index = found as usize;
    let longer = path.push(index);
    assert(names(
        scene,
        if path.len() == 0 {
            roots
        } else {
            dependency_ids(scene.skills[path.last() as int])
        },
        index,
    ));
    assert(is_chain(scene, roots, longer)) by {
        assert(longer.len() > 0);
        if path.len() == 0 {
            assert(longer[0] == index);
        } else {
            assert(longer[0] == path[0]);
        }
        assert forall|i: int| 0 <= i < longer.len() implies (#[trigger] longer[i]) < scene.skills.len() by {
            if i < path.len() {
                assert(longer[i] == path[i]);
            }
        }
        assert forall|i: int| 0 < i < longer.len() implies names(
            scene,
            dependency_ids(scene.skills[longer[i - 1] as int]),
            #[trigger] longer[i],
        ) by {
            assert(longer[i - 1] == path[i - 1]);
            if i < path.len() {
                assert(longer[i] == path[i]);
            } else {
                assert(longer[i] == index);
                assert(path[i - 1] == path.last());
            }
        }
    }
    assert(longer.no_duplicates());
    assert(!path.contains(index)) by {
        if path.contains(index) {
            let k = choose|k: int| 0 <= k < path.len() && path[k] == index;
            assert(longer[k] == longer[path.len() as int]);
        }
    }
    lemma_distinct_below(longer, scene.skills.len() as int);
    assert(longer.last() == index);
    assert(reached(scene, roots, index));
    law_ready_packages_are_usable(scene, scene.skills[found]);
    if !ordered.contains(index) {
        lemma_visit_all_succeeds(scene, roots, dependency_ids(scene.skills[found]), 0, longer, ordered);
    }
}

proof fn lemma_visit_all_succeeds(
    scene: Scene,
    roots: Seq<SkillIdView>,
    ids: Seq<SkillIdView>,
    n: int,
    path: Seq<usize>,
    ordered: Seq<usize>,
)
    requires
        scene.skills.len() <= usize::MAX,
        is_resolvable(scene, roots),
        0 <= n <= ids.len(),
        path.len() <= scene.skills.len(),
        forall|k: int| 0 <= k < ids.len() ==> wants(scene, roots, path, #[trigger] ids[k]),
        all_registered(scene.skills, ids),
    ensures
        visit_all(scene, ids, n, path, ordered) is Ok,
    decreases scene.skills.len() - path.len(), 1int, ids.len() - n,
{
    if n < ids.len() {
        lemma_visit_succeeds(scene, roots, ids[n], path, ordered);
        if let Ok(further) = visit(scene, ids[n], path, ordered) {
            lemma_visit_all_succeeds(scene, roots, ids, n + 1, path, further);
        }
    }
}

/// The resolution of a graph is complete: where everything that a request
/// reaches is registered, trusted and has its Tools, and no chain of
/// dependencies comes back to a package on it, the request is resolved,
/// however long its chains are.
pub proof fn law_sound_requests_are_resolved(scene: Scene, roots: Seq<SkillIdView>)
    requires
        scene.skills.len() <= usize::MAX,
        is_resolvable(scene, roots),
    ensures
        visit_all(scene, roots, 0, Seq::empty(), Seq::empty()) is Ok,
{
    let none = Seq::<usize>::empty();
    assert forall|k: int| 0 <= k < roots.len() implies wants(scene, roots, none, #[trigger] roots[k]) by {
        assert(roots.contains(roots[k]));
    }
    lemma_visit_all_succeeds(scene, roots, roots, 0, none, none);
}

/// What cannot be resolved is refused: a request that reaches something that is
/// not registered, a package that is not usable, or a chain of dependencies
/// that comes back to a package on it.
pub proof fn law_unsound_requests_are_refused(scene: Scene, roots: Seq<SkillIdView>)
    requires
        scene.skills.len() <= usize::MAX,
        visit_all(scene, roots, 0, Seq::empty(), Seq::empty()) is Ok,
    ensures
        is_resolvable(scene, roots),
{
    let ordered = visit_all(scene, roots, 0, Seq::empty(), Seq::empty())->Ok_0;
    law_dependencies_come_before_dependants(scene, roots, ordered);
    assert forall|k: int| 0 <= k < roots.len() implies is_registered(scene.skills, #[trigger] roots[k]) by {
        assert(selects(scene, ordered, roots[k]));
        lemma_index(scene.skills, roots[k], 0);
        assert(scene.skills[find(scene.skills, roots[k])->0].id@ == roots[k]);
    }
    assert(all_registered(scene.skills, roots));
    assert forall|index: usize| #[trigger] reached(scene, roots, index) implies is_usable(scene, scene.skills[index as int])
        && all_registered(scene.skills, dependency_ids(scene.skills[index as int])) by {
        law_resolved_graphs_are_closures(scene, roots, ordered, index);
        let k = choose|k: int| 0 <= k < ordered.len() && ordered[k] == index;
        assert(readiness(scene, scene.skills[ordered[k] as int]) is Ok);
        law_ready_packages_are_usable(scene, scene.skills[index as int]);
        let ids = dependency_ids(scene.skills[index as int]);
        assert forall|d: int| 0 <= d < ids.len() implies is_registered(scene.skills, #[trigger] ids[d]) by {
            assert(stands_before(scene, ordered, k, dependency_ids(scene.skills[ordered[k] as int])[d]));
            lemma_index(scene.skills, ids[d], 0);
            assert(scene.skills[find(scene.skills, ids[d])->0].id@ == ids[d]);
        }
    }
    assert forall|chain: Seq<usize>| #[trigger] is_chain(scene, roots, chain) implies chain.no_duplicates() by {
        assert forall|i: int, j: int| 0 <= i < j < chain.len() implies chain[i] != chain[j] by {
            lemma_chain_places(scene, roots, ordered, chain, i, j);
        }
    }
}

spec fn place_of(ordered: Seq<usize>, index: usize) -> int {
    choose|k: int| 0 <= k < ordered.len() && ordered[k] == index
}

proof fn lemma_chain_places(scene: Scene, roots: Seq<SkillIdView>, ordered: Seq<usize>, chain: Seq<usize>, i: int, j: int)
    requires
        sound(scene, ordered),
        forall|k: int| 0 <= k < roots.len() ==> selects(scene, ordered, #[trigger] roots[k]),
        is_chain(scene, roots, chain),
        0 <= i < j < chain.len(),
    ensures
        ordered.contains(chain[i]),
        ordered.contains(chain[j]),
        place_of(ordered, chain[j]) < place_of(ordered, chain[i]),
    decreases j - i,
{
    lemma_reached_selected(scene, roots, ordered, chain, i);
    lemma_reached_selected(scene, roots, ordered, chain, j);
    if i + 1 < j {
        lemma_chain_places(scene, roots, ordered, chain, i, j - 1);
    }
    lemma_reached_selected(scene, roots, ordered, chain, j - 1);
    let k = place_of(ordered, chain[j - 1]);
    let ids = dependency_ids(scene.skills[chain[j - 1] as int]);
    assert(names(scene, dependency_ids(scene.skills[chain[j - 1] as int]), chain[j]));
    let id = choose|id: SkillIdView| #[trigger] ids.contains(id) && find(scene.skills, id) == Some(chain[j] as int);
    let d = choose|d: int| 0 <= d < ids.len() && ids[d] == id;
    assert(stands_before(scene, ordered, k, dependency_ids(scene.skills[ordered[k] as int])[d]));
    let m = choose|m: int| 0 <= m < k && #[trigger] ordered[m] == chain[j] as usize;
    assert(ordered[m] == chain[j]);
    assert(place_of(ordered, chain[j]) == m);
}

proof fn lemma_visits_in_turn(
    scene: Scene,
    roots: Seq<SkillIdView>,
    n: int,
    end: int,
    path: Seq<usize>,
    ordered: Seq<usize>,
)
    requires
        0 <= n <= end <= roots.len(),
    ensures
        visit_all(scene, roots, n, path, ordered) matches Ok(further) ==> (visit_all(
            scene,
            roots.take(end),
            n,
            path,
            ordered,
        ) matches Ok(middle) && visit_all(scene, roots, end, path, middle) == Ok::<Seq<usize>, ErrorView>(further)),
    decreases end - n,
{
    if n < end {
        assert(roots.take(end)[n] == roots[n]);
        if let Ok(next) = visit(scene, roots[n], path, ordered) {
            lemma_visits_in_turn(scene, roots, n + 1, end, path, next);
        }
    }
}

/// Requested packages come in the order of the request: one stands before a
/// later one that none of the earlier requests reaches.
pub proof fn law_requested_packages_keep_their_order(
    scene: Scene,
    roots: Seq<SkillIdView>,
    ordered: Seq<usize>,
    i: int,
    j: int,
) -> (places: (int, int))
    requires
        scene.skills.len() <= usize::MAX,
        visit_all(scene, roots, 0, Seq::empty(), Seq::empty()) == Ok::<Seq<usize>, ErrorView>(ordered),
        0 <= i < j < roots.len(),
        forall|k: int|
            0 <= k <= i ==> !reached(scene, seq![#[trigger] roots[k]], find(scene.skills, roots[j])->0 as usize),
    ensures
        find(scene.skills, roots[i]) is Some,
        find(scene.skills, roots[j]) is Some,
        0 <= places.0 < places.1 < ordered.len(),
        ordered[places.0] == find(scene.skills, roots[i])->0 as usize,
        ordered[places.1] == find(scene.skills, roots[j])->0 as usize,
{
    let earlier = roots.take(i + 1);
    let (none, nothing) = (Seq::<usize>::empty(), Seq::<usize>::empty());
    lemma_visits_in_turn(scene, roots, 0, i + 1, none, nothing);
    let middle = visit_all(scene, earlier, 0, none, nothing)->Ok_0;
    lemma_visit_all(scene, earlier, 0, none, nothing);
    lemma_visit_all_reached(scene, earlier, 0, none, nothing);
    lemma_visit_all(scene, roots, i + 1, none, middle);
    assert(earlier[i] == roots[i]);
    assert(selects(scene, middle, earlier[i]));
    assert(selects(scene, ordered, roots[j]));
    let a = find(scene.skills, roots[i])->0 as usize;
    let b = find(scene.skills, roots[j])->0 as usize;
    let m = choose|m: int| 0 <= m < middle.len() && middle[m] == a;
    let n = choose|n: int| 0 <= n < ordered.len() && ordered[n] == b;
    if middle.contains(b) {
        let chain = choose|chain: Seq<usize>| #[trigger] is_chain(scene, earlier, chain) && chain.last() == b;
        let id = choose|id: SkillIdView| #[trigger]
            earlier.contains(id) && find(scene.skills, id) == Some(chain[0] as int);
        let k = choose|k: int| 0 <= k < earlier.len() && earlier[k] == id;
        assert(roots[k] == id);
        assert(seq![id][0] == id);
        assert(seq![id].contains(id));
        assert(is_chain(scene, seq![id], chain));
    }
    if n < middle.len() {
        assert(middle[n] == ordered[n]);
        assert(middle.contains(b));
    }
    assert(ordered[m] == middle[m]);
    (m, n)
}

} // verus!
