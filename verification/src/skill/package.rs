//! Declarative Skill packages and their content digest.

use vstd::prelude::*;
use vstd::utf8::encode_utf8;

use crate::digest::{is_sha256_text, sha256_form, sha256_hex, sha256_text};
use crate::error::{settles, ErrorView, HarnessError};
use crate::json::{json_string, json_string_text};
use crate::kernel::{capability_name_is_valid, invalid_name, validate_capability_name};
use crate::skill::path::{path_check, validate_resource_path};
use crate::skill::version::{SkillId, SkillIdView, Version};
use crate::table::{Rank, Row, Table};
use crate::text::{
    blank, byte_len, decimal, decimal_text, is_blank, join2, join3, join4, quoted, quoted_text, same_text, utf8_len,
};

verus! {

/// Current declarative Skill package contract version.
pub const SKILL_API_VERSION: &'static str = "1";

/// Longest accepted description, in bytes.
pub const MAX_DESCRIPTION_BYTES: usize = 4_096;

/// Longest accepted instructions, in bytes.
pub const MAX_INSTRUCTIONS_BYTES: usize = 1_048_576;

/// Longest accepted resource, in bytes.
pub const MAX_RESOURCE_BYTES: usize = 1_048_576;

/// Largest number of resources.
pub const MAX_RESOURCES: usize = 256;

/// Largest number of dependencies.
pub const MAX_SKILL_DEPENDENCIES: usize = 256;

/// Largest number of required Tools.
pub const MAX_SKILL_REQUIRED_TOOLS: usize = 256;

/// Largest content of one package, in bytes.
pub const MAX_SKILL_PACKAGE_CONTENT_BYTES: usize = 2_097_152;

/// Longest canonical encoding of one package, in bytes.
pub const MAX_SKILL_CANONICAL_BYTES: usize = 16_777_216;

/// Largest estimated token cost of one package.
pub const MAX_ESTIMATED_TOKENS: usize = 262_144;

pub(crate) fn skill_error(message: &str) -> (error: HarnessError)
    ensures
        error@ == ErrorView::Skill(message@),
{
    HarnessError::Skill(message.to_owned())
}

/// One exact dependency declared by a Skill package.
#[derive(Debug, PartialEq, Eq)]
pub struct SkillDependency {
    /// Required Skill name.
    pub name: String,
    /// Required exact version.
    pub version: Version,
}

impl Clone for SkillDependency {
    fn clone(&self) -> (result: Self)
        ensures
            result == *self,
    {
        SkillDependency { name: self.name.clone(), version: self.version.clone() }
    }
}

impl SkillDependency {
    /// Identity as texts.
    pub open spec fn identity(self) -> SkillIdView {
        SkillIdView { name: self.name@, version: self.version@ }
    }

    /// Returns the identity of the required Skill.
    pub fn id(&self) -> (id: SkillId)
        ensures
            id@ == self.identity(),
            id.name == self.name,
            id.version == self.version,
    {
        SkillId { name: self.name.clone(), version: self.version.clone() }
    }
}

/// Declarative metadata covered by the package content digest.
#[derive(Clone, Debug, PartialEq, Eq)]
pub struct SkillManifest {
    /// Skill contract version.
    pub api_version: String,
    /// Stable Skill name.
    pub name: String,
    /// Exact package version.
    pub version: Version,
    /// Human-readable capability summary.
    pub description: String,
    /// Provider-estimated instruction token cost.
    pub estimated_tokens: usize,
    /// Exact Skill dependencies in deterministic sorted order.
    pub dependencies: Vec<SkillDependency>,
    /// Tool names that must already be registered.
    pub required_tools: Table<()>,
}

/// Immutable Skill package whose complete content is digest pinned.
#[derive(Clone, Debug, PartialEq, Eq)]
pub struct SkillPackage {
    /// Declarative manifest.
    pub manifest: SkillManifest,
    /// Model-facing instructions loaded as one reversible context block.
    pub instructions: String,
    /// Optional named resources loaded explicitly rather than automatically.
    pub resources: Table<String>,
    /// Lowercase SHA-256 digest of manifest, instructions, and resources.
    pub content_sha256: String,
}

/// Texts joined by commas, the first `n` of them.
pub open spec fn joined(n: nat, part: spec_fn(int) -> Seq<char>) -> Seq<char>
    decreases n,
{
    if n == 0 {
        Seq::empty()
    } else if n == 1 {
        part(0)
    } else {
        joined((n - 1) as nat, part) + ","@ + part(n - 1)
    }
}

/// Canonical encoding of one dependency.
pub open spec fn dependency_json(dependency: SkillDependency) -> Seq<char> {
    "{\"name\":"@ + json_string(dependency.name@) + ",\"version\":"@ + json_string(dependency.version@) + "}"@
}

/// Canonical encoding of the dependencies, without brackets.
pub open spec fn dependencies_json(dependencies: Seq<SkillDependency>) -> Seq<char> {
    joined(dependencies.len(), |k: int| dependency_json(dependencies[k]))
}

/// Canonical encoding of the required Tools, without brackets.
pub open spec fn tools_json(tools: Seq<Row<()>>) -> Seq<char> {
    joined(tools.len(), |k: int| json_string(tools[k].key@))
}

/// Canonical encoding of one resource.
pub open spec fn resource_json(resource: Row<String>) -> Seq<char> {
    json_string(resource.key@) + ":"@ + json_string(resource.value@)
}

/// Canonical encoding of the resources, without braces.
pub open spec fn resources_json(resources: Seq<Row<String>>) -> Seq<char> {
    joined(resources.len(), |k: int| resource_json(resources[k]))
}

/// Canonical encoding of the manifest.
pub open spec fn manifest_json(manifest: SkillManifest) -> Seq<char> {
    "{\"api_version\":"@ + json_string(manifest.api_version@) + ",\"name\":"@ + json_string(manifest.name@)
        + ",\"version\":"@ + json_string(manifest.version@) + ",\"description\":"@ + json_string(manifest.description@)
        + ",\"estimated_tokens\":"@ + decimal(manifest.estimated_tokens as nat) + ",\"dependencies\":["@
        + dependencies_json(manifest.dependencies@) + "],\"required_tools\":["@ + tools_json(
        manifest.required_tools.rows(),
    ) + "]}"@
}

/// Canonical encoding of everything that the content digest covers.
pub open spec fn canonical_package(manifest: SkillManifest, instructions: Seq<char>, resources: Seq<Row<String>>) -> Seq<char> {
    "{\"manifest\":"@ + manifest_json(manifest) + ",\"instructions\":"@ + json_string(instructions) + ",\"resources\":{"@
        + resources_json(resources) + "}}"@
}

fn dependencies_text(dependencies: &Vec<SkillDependency>) -> (text: String)
    ensures
        text@ == dependencies_json(dependencies@),
{
    let ghost part = |k: int| dependency_json(dependencies@[k]);
    let mut text = String::from_str("");
    proof {
        reveal_strlit("");
        assert(text@ =~= joined(0, part));
    }
    let mut k: usize = 0;
    while k < dependencies.len()
        invariant
            k <= dependencies@.len(),
            part == (|k: int| dependency_json(dependencies@[k])),
            text@ == joined(k as nat, part),
        decreases dependencies@.len() - k,
    {
        if k > 0 {
            text.append(",");
        }
        let name = json_string_text(dependencies[k].name.as_str());
        let version = json_string_text(dependencies[k].version.as_str());
        let head = join4("{\"name\":", name.as_str(), ",\"version\":", version.as_str());
        let entry = join2(head.as_str(), "}");
        text.append(entry.as_str());
        proof {
            assert(entry@ == part(k as int));
            assert(joined((k + 1) as nat, part) == if k == 0 {
                part(0)
            } else {
                joined(k as nat, part) + ","@ + part(k as int)
            });
            assert(text@ =~= joined((k + 1) as nat, part));
        }
        k += 1;
    }
    text
}

fn tools_text(tools: &Table<()>) -> (text: String)
    ensures
        text@ == tools_json(tools.rows()),
{
    let ghost rows = tools.rows();
    let ghost part = |k: int| json_string(rows[k].key@);
    let count: usize = tools.len();
    let mut text = String::from_str("");
    proof {
        reveal_strlit("");
        assert(text@ =~= joined(0, part));
    }
    let mut k: usize = 0;
    while k < count
        invariant
            k <= count == rows.len(),
            rows == tools.rows(),
            part == (|k: int| json_string(rows[k].key@)),
            text@ == joined(k as nat, part),
        decreases count - k,
    {
        if k > 0 {
            text.append(",");
        }
        let entry = json_string_text(tools.key_at(k).as_str());
        text.append(entry.as_str());
        proof {
            assert(entry@ == part(k as int));
            assert(text@ =~= joined((k + 1) as nat, part));
        }
        k += 1;
    }
    text
}

fn resources_text(resources: &Table<String>) -> (text: String)
    ensures
        text@ == resources_json(resources.rows()),
{
    let ghost rows = resources.rows();
    let ghost part = |k: int| resource_json(rows[k]);
    let count: usize = resources.len();
    let mut text = String::from_str("");
    proof {
        reveal_strlit("");
        assert(text@ =~= joined(0, part));
    }
    let mut k: usize = 0;
    while k < count
        invariant
            k <= count == rows.len(),
            rows == resources.rows(),
            part == (|k: int| resource_json(rows[k])),
            text@ == joined(k as nat, part),
        decreases count - k,
    {
        if k > 0 {
            text.append(",");
        }
        let path = json_string_text(resources.key_at(k).as_str());
        let content = json_string_text(resources.value_at(k).as_str());
        let entry = join3(path.as_str(), ":", content.as_str());
        text.append(entry.as_str());
        proof {
            assert(entry@ == part(k as int));
            assert(text@ =~= joined((k + 1) as nat, part));
        }
        k += 1;
    }
    text
}

fn manifest_text(manifest: &SkillManifest) -> (text: String)
    ensures
        text@ == manifest_json(*manifest),
{
    let mut text = String::from_str("{\"api_version\":");
    let value = json_string_text(manifest.api_version.as_str());
    text.append(value.as_str());
    text.append(",\"name\":");
    let value = json_string_text(manifest.name.as_str());
    text.append(value.as_str());
    text.append(",\"version\":");
    let value = json_string_text(manifest.version.as_str());
    text.append(value.as_str());
    text.append(",\"description\":");
    let value = json_string_text(manifest.description.as_str());
    text.append(value.as_str());
    text.append(",\"estimated_tokens\":");
    let value = decimal_text(manifest.estimated_tokens as u64);
    text.append(value.as_str());
    text.append(",\"dependencies\":[");
    let value = dependencies_text(&manifest.dependencies);
    text.append(value.as_str());
    text.append("],\"required_tools\":[");
    let value = tools_text(&manifest.required_tools);
    text.append(value.as_str());
    text.append("]}");
    text
}

/// Writes everything that the content digest covers.
pub fn canonical_text(manifest: &SkillManifest, instructions: &str, resources: &Table<String>) -> (text: String)
    ensures
        text@ == canonical_package(*manifest, instructions@, resources.rows()),
{
    let mut text = String::from_str("{\"manifest\":");
    let value = manifest_text(manifest);
    text.append(value.as_str());
    text.append(",\"instructions\":");
    let value = json_string_text(instructions);
    text.append(value.as_str());
    text.append(",\"resources\":{");
    let value = resources_text(resources);
    text.append(value.as_str());
    text.append("}}");
    text
}

/// Bytes of the names and versions of the first `n` dependencies.
pub open spec fn dependencies_size(dependencies: Seq<SkillDependency>, n: nat) -> nat
    decreases n,
{
    if n == 0 {
        0
    } else {
        dependencies_size(dependencies, (n - 1) as nat) + utf8_len(dependencies[n - 1].name@) + utf8_len(
            dependencies[n - 1].version@,
        )
    }
}

/// Bytes of the names of the first `n` Tools.
pub open spec fn tools_size(tools: Seq<Row<()>>, n: nat) -> nat
    decreases n,
{
    if n == 0 {
        0
    } else {
        tools_size(tools, (n - 1) as nat) + utf8_len(tools[n - 1].key@)
    }
}

/// Bytes of the first `n` resources and their paths.
pub open spec fn resources_size(resources: Seq<Row<String>>, n: nat) -> nat
    decreases n,
{
    if n == 0 {
        0
    } else {
        resources_size(resources, (n - 1) as nat) + utf8_len(resources[n - 1].key@) + utf8_len(resources[n - 1].value@)
    }
}

/// Content of a package in bytes.
pub open spec fn content_size(manifest: SkillManifest, instructions: Seq<char>, resources: Seq<Row<String>>) -> nat {
    utf8_len(instructions) + utf8_len(manifest.api_version@) + utf8_len(manifest.name@) + utf8_len(manifest.version@)
        + utf8_len(manifest.description@) + dependencies_size(manifest.dependencies@, manifest.dependencies@.len())
        + tools_size(manifest.required_tools.rows(), manifest.required_tools.rows().len()) + resources_size(
        resources,
        resources.len(),
    )
}

/// Whether a part of a package is larger than its own bound.
pub open spec fn exceeds_a_bound(manifest: SkillManifest, instructions: Seq<char>, resources: Seq<Row<String>>) -> bool {
    ||| utf8_len(instructions) > MAX_INSTRUCTIONS_BYTES
    ||| utf8_len(manifest.description@) > MAX_DESCRIPTION_BYTES
    ||| manifest.dependencies@.len() > MAX_SKILL_DEPENDENCIES
    ||| manifest.required_tools.rows().len() > MAX_SKILL_REQUIRED_TOOLS
    ||| resources.len() > MAX_RESOURCES
    ||| exists|k: int| 0 <= k < resources.len() && utf8_len((#[trigger] resources[k]).value@) > MAX_RESOURCE_BYTES
}

/// Content of a package in bytes, or why it is too large.
pub open spec fn envelope(manifest: SkillManifest, instructions: Seq<char>, resources: Seq<Row<String>>) -> Result<
    nat,
    ErrorView,
> {
    let total = content_size(manifest, instructions, resources);
    if exceeds_a_bound(manifest, instructions, resources) {
        Err(ErrorView::Skill("Skill package exceeds an individual or collection byte bound"@))
    } else if total > usize::MAX {
        Err(ErrorView::Skill("Skill package byte count overflow"@))
    } else if total > MAX_SKILL_PACKAGE_CONTENT_BYTES {
        Err(ErrorView::Skill("Skill package content exceeds 2097152 bytes"@))
    } else {
        Ok(total)
    }
}

fn large_resource(resources: &Table<String>) -> (result: bool)
    ensures
        result == exists|k: int|
            0 <= k < resources.rows().len() && utf8_len((#[trigger] resources.rows()[k]).value@) > MAX_RESOURCE_BYTES,
{
    let count: usize = resources.len();
    let mut k: usize = 0;
    while k < count
        invariant
            k <= count == resources.rows().len(),
            forall|j: int| 0 <= j < k ==> utf8_len((#[trigger] resources.rows()[j]).value@) <= MAX_RESOURCE_BYTES,
        decreases count - k,
    {
        if byte_len(resources.value_at(k).as_str()) > MAX_RESOURCE_BYTES {
            return true;
        }
        k += 1;
    }
    false
}

/// Measures the content of a package after checking the bounds of its parts.
pub fn validate_package_content_envelope(manifest: &SkillManifest, instructions: &str, resources: &Table<String>) -> (result:
    Result<usize, HarnessError>)
    ensures
        match result {
            Ok(total) => envelope(*manifest, instructions@, resources.rows()) == Ok::<nat, ErrorView>(total as nat),
            Err(error) => envelope(*manifest, instructions@, resources.rows()) == Err::<nat, ErrorView>(error@),
        },
{
    if byte_len(instructions) > MAX_INSTRUCTIONS_BYTES || byte_len(manifest.description.as_str()) > MAX_DESCRIPTION_BYTES
        || manifest.dependencies.len() > MAX_SKILL_DEPENDENCIES || manifest.required_tools.len() > MAX_SKILL_REQUIRED_TOOLS
        || resources.len() > MAX_RESOURCES || large_resource(resources) {
        return Err(skill_error("Skill package exceeds an individual or collection byte bound"));
    }
    let mut total: u128 = byte_len(instructions) as u128 + byte_len(manifest.api_version.as_str()) as u128 + byte_len(
        manifest.name.as_str(),
    ) as u128 + byte_len(manifest.version.as_str()) as u128 + byte_len(manifest.description.as_str()) as u128;
    let ghost base = total as nat;
    let count: usize = manifest.dependencies.len();
    let mut k: usize = 0;
    while k < count
        invariant
            k <= count == manifest.dependencies@.len(),
            count <= MAX_SKILL_DEPENDENCIES,
            base <= 5 * 0xffff_ffff_ffff_ffff,
            total == base + dependencies_size(manifest.dependencies@, k as nat),
            total <= (5 + 2 * k) * 0xffff_ffff_ffff_ffff,
        decreases count - k,
    {
        let dependency = &manifest.dependencies[k];
        total = total + byte_len(dependency.name.as_str()) as u128 + byte_len(dependency.version.as_str()) as u128;
        k += 1;
    }
    let ghost named = total as nat;
    let count: usize = manifest.required_tools.len();
    let mut k: usize = 0;
    while k < count
        invariant
            k <= count == manifest.required_tools.rows().len(),
            count <= MAX_SKILL_REQUIRED_TOOLS,
            named <= 517 * 0xffff_ffff_ffff_ffff,
            total == named + tools_size(manifest.required_tools.rows(), k as nat),
            total <= (517 + k) * 0xffff_ffff_ffff_ffff,
        decreases count - k,
    {
        total = total + byte_len(manifest.required_tools.key_at(k).as_str()) as u128;
        k += 1;
    }
    let ghost tooled = total as nat;
    let count: usize = resources.len();
    let mut k: usize = 0;
    while k < count
        invariant
            k <= count == resources.rows().len(),
            count <= MAX_RESOURCES,
            tooled <= 773 * 0xffff_ffff_ffff_ffff,
            total == tooled + resources_size(resources.rows(), k as nat),
            total <= (773 + 2 * k) * 0xffff_ffff_ffff_ffff,
        decreases count - k,
    {
        total = total + byte_len(resources.key_at(k).as_str()) as u128 + byte_len(resources.value_at(k).as_str()) as u128;
        k += 1;
    }
    if total > usize::MAX as u128 {
        return Err(skill_error("Skill package byte count overflow"));
    }
    if total > MAX_SKILL_PACKAGE_CONTENT_BYTES as u128 {
        return Err(skill_error("Skill package content exceeds 2097152 bytes"));
    }
    Ok(total as usize)
}

/// Digest of the content of a package, or why it has none.
pub open spec fn content_digest(manifest: SkillManifest, instructions: Seq<char>, resources: Seq<Row<String>>) -> Result<
    Seq<char>,
    ErrorView,
> {
    let bytes = encode_utf8(canonical_package(manifest, instructions, resources));
    match envelope(manifest, instructions, resources) {
        Err(fault) => Err(fault),
        Ok(_) => if bytes.len() > MAX_SKILL_CANONICAL_BYTES {
            Err(ErrorView::Skill("canonical Skill package exceeds 16777216 bytes"@))
        } else {
            Ok(sha256_hex(bytes))
        },
    }
}

/// Outcome of checking a text that has to say something.
pub open spec fn text_check(field: Seq<char>, value: Seq<char>, maximum: nat) -> Result<(), ErrorView> {
    if is_blank(value) {
        Err(ErrorView::Skill(field + " must not be empty"@))
    } else if utf8_len(value) > maximum {
        Err(ErrorView::Skill(field + " exceeds "@ + decimal(maximum) + " bytes"@))
    } else {
        Ok(())
    }
}

fn validate_bounded_text(field: &str, value: &str, maximum: usize) -> (result: Result<(), HarnessError>)
    ensures
        settles(result, text_check(field@, value@, maximum as nat)),
{
    if blank(value) {
        return Err(HarnessError::Skill(join2(field, " must not be empty")));
    }
    if byte_len(value) > maximum {
        let limit = decimal_text(maximum as u64);
        return Err(HarnessError::Skill(join4(field, " exceeds ", limit.as_str(), " bytes")));
    }
    Ok(())
}

/// First fault among the dependencies from `n` on: each has a valid name, and
/// each comes strictly behind the one before it.
pub open spec fn dependency_fault(dependencies: Seq<SkillDependency>, n: int) -> Option<ErrorView>
    decreases dependencies.len() - n,
{
    if n < 0 || n >= dependencies.len() {
        None
    } else if !capability_name_is_valid(dependencies[n].name@) {
        Some(invalid_name("skill dependency"@))
    } else if n > 0 && !dependencies[n - 1].identity().before(dependencies[n].identity()) {
        Some(ErrorView::Skill("Skill dependencies must be unique and sorted"@))
    } else {
        dependency_fault(dependencies, n + 1)
    }
}

/// First fault among the required Tools from `n` on.
pub open spec fn tool_fault(tools: Seq<Row<()>>, n: int) -> Option<ErrorView>
    decreases tools.len() - n,
{
    if n < 0 || n >= tools.len() {
        None
    } else if !capability_name_is_valid(tools[n].key@) {
        Some(invalid_name("required tool"@))
    } else {
        tool_fault(tools, n + 1)
    }
}

/// First fault among the resources from `n` on.
pub open spec fn resource_fault(resources: Seq<Row<String>>, n: int) -> Option<ErrorView>
    decreases resources.len() - n,
{
    if n < 0 || n >= resources.len() {
        None
    } else if path_check(resources[n].key@) is Err {
        Some(path_check(resources[n].key@)->Err_0)
    } else if utf8_len(resources[n].value@) > MAX_RESOURCE_BYTES {
        Some(ErrorView::Skill("Skill resource "@ + quoted(resources[n].key@) + " exceeds 1048576 bytes"@))
    } else {
        resource_fault(resources, n + 1)
    }
}

/// Outcome of checking the manifest and the instructions of a package.
pub open spec fn manifest_check(manifest: SkillManifest, instructions: Seq<char>) -> Result<(), ErrorView> {
    if manifest.api_version@ != SKILL_API_VERSION@ {
        Err(
            ErrorView::Skill(
                "Skill "@ + manifest.name@ + " uses unsupported API version "@ + manifest.api_version@,
            ),
        )
    } else if !capability_name_is_valid(manifest.name@) {
        Err(invalid_name("skill"@))
    } else if text_check("Skill description"@, manifest.description@, MAX_DESCRIPTION_BYTES as nat) is Err {
        text_check("Skill description"@, manifest.description@, MAX_DESCRIPTION_BYTES as nat)
    } else if text_check("Skill instructions"@, instructions, MAX_INSTRUCTIONS_BYTES as nat) is Err {
        text_check("Skill instructions"@, instructions, MAX_INSTRUCTIONS_BYTES as nat)
    } else if manifest.estimated_tokens == 0 || manifest.estimated_tokens > MAX_ESTIMATED_TOKENS {
        Err(ErrorView::Skill("Skill estimated_tokens must be between 1 and 262144"@))
    } else if manifest.dependencies@.len() > MAX_SKILL_DEPENDENCIES {
        Err(ErrorView::Skill("Skill contains more than 256 dependencies"@))
    } else if manifest.required_tools.rows().len() > MAX_SKILL_REQUIRED_TOOLS {
        Err(ErrorView::Skill("Skill contains more than 256 required tools"@))
    } else if dependency_fault(manifest.dependencies@, 0) is Some {
        Err(dependency_fault(manifest.dependencies@, 0)->0)
    } else if tool_fault(manifest.required_tools.rows(), 0) is Some {
        Err(tool_fault(manifest.required_tools.rows(), 0)->0)
    } else {
        Ok(())
    }
}

/// Identity of a package as texts.
pub open spec fn package_identity(package: SkillPackage) -> SkillIdView {
    SkillIdView { name: package.manifest.name@, version: package.manifest.version@ }
}

/// Outcome of checking a package: the first check that fails decides.
pub open spec fn package_check(package: SkillPackage) -> Result<(), ErrorView> {
    let resources = package.resources.rows();
    if manifest_check(package.manifest, package.instructions@) is Err {
        manifest_check(package.manifest, package.instructions@)
    } else if resources.len() > MAX_RESOURCES {
        Err(ErrorView::Skill("Skill contains more than 256 resources"@))
    } else if resource_fault(resources, 0) is Some {
        Err(resource_fault(resources, 0)->0)
    } else if !is_sha256_text(package.content_sha256@) {
        Err(ErrorView::Skill("Skill content_sha256 must be 64 lowercase hexadecimal characters"@))
    } else {
        match content_digest(package.manifest, package.instructions@, resources) {
            Err(fault) => Err(fault),
            Ok(digest) => if digest != package.content_sha256@ {
                Err(
                    ErrorView::Skill(
                        "Skill "@ + package_identity(package).shown() + " content digest does not match"@,
                    ),
                )
            } else {
                Ok(())
            },
        }
    }
}

fn find_dependency_fault(dependencies: &Vec<SkillDependency>) -> (result: Result<(), HarnessError>)
    ensures
        match result {
            Ok(()) => dependency_fault(dependencies@, 0) is None,
            Err(error) => dependency_fault(dependencies@, 0) == Some(error@),
        },
{
    let mut n: usize = 0;
    while n < dependencies.len()
        invariant
            n <= dependencies@.len(),
            dependency_fault(dependencies@, 0) == dependency_fault(dependencies@, n as int),
        decreases dependencies@.len() - n,
    {
        if let Err(error) = validate_capability_name("skill dependency", dependencies[n].name.as_str()) {
            return Err(error);
        }
        if n > 0 {
            let previous = dependencies[n - 1].id();
            if previous.rank(&dependencies[n].id()) != Rank::Before {
                return Err(skill_error("Skill dependencies must be unique and sorted"));
            }
        }
        n += 1;
    }
    Ok(())
}

fn find_tool_fault(tools: &Table<()>) -> (result: Result<(), HarnessError>)
    ensures
        match result {
            Ok(()) => tool_fault(tools.rows(), 0) is None,
            Err(error) => tool_fault(tools.rows(), 0) == Some(error@),
        },
{
    let count: usize = tools.len();
    let mut n: usize = 0;
    while n < count
        invariant
            n <= count == tools.rows().len(),
            tool_fault(tools.rows(), 0) == tool_fault(tools.rows(), n as int),
        decreases count - n,
    {
        if let Err(error) = validate_capability_name("required tool", tools.key_at(n).as_str()) {
            return Err(error);
        }
        n += 1;
    }
    Ok(())
}

fn find_resource_fault(resources: &Table<String>) -> (result: Result<(), HarnessError>)
    ensures
        match result {
            Ok(()) => resource_fault(resources.rows(), 0) is None,
            Err(error) => resource_fault(resources.rows(), 0) == Some(error@),
        },
{
    let count: usize = resources.len();
    let mut n: usize = 0;
    while n < count
        invariant
            n <= count == resources.rows().len(),
            resource_fault(resources.rows(), 0) == resource_fault(resources.rows(), n as int),
        decreases count - n,
    {
        let path = resources.key_at(n).as_str();
        if let Err(error) = validate_resource_path(path) {
            return Err(error);
        }
        if byte_len(resources.value_at(n).as_str()) > MAX_RESOURCE_BYTES {
            let shown = quoted_text(path);
            return Err(HarnessError::Skill(join3("Skill resource ", shown.as_str(), " exceeds 1048576 bytes")));
        }
        n += 1;
    }
    Ok(())
}

fn validate_manifest(manifest: &SkillManifest, instructions: &str) -> (result: Result<(), HarnessError>)
    ensures
        settles(result, manifest_check(*manifest, instructions@)),
{
    if !same_text(manifest.api_version.as_str(), SKILL_API_VERSION) {
        return Err(
            HarnessError::Skill(
                join4(
                    "Skill ",
                    manifest.name.as_str(),
                    " uses unsupported API version ",
                    manifest.api_version.as_str(),
                ),
            ),
        );
    }
    if let Err(error) = validate_capability_name("skill", manifest.name.as_str()) {
        return Err(error);
    }
    if let Err(error) = validate_bounded_text("Skill description", manifest.description.as_str(), MAX_DESCRIPTION_BYTES) {
        return Err(error);
    }
    if let Err(error) = validate_bounded_text("Skill instructions", instructions, MAX_INSTRUCTIONS_BYTES) {
        return Err(error);
    }
    if manifest.estimated_tokens == 0 || manifest.estimated_tokens > MAX_ESTIMATED_TOKENS {
        return Err(skill_error("Skill estimated_tokens must be between 1 and 262144"));
    }
    if manifest.dependencies.len() > MAX_SKILL_DEPENDENCIES {
        return Err(skill_error("Skill contains more than 256 dependencies"));
    }
    if manifest.required_tools.len() > MAX_SKILL_REQUIRED_TOOLS {
        return Err(skill_error("Skill contains more than 256 required tools"));
    }
    if let Err(error) = find_dependency_fault(&manifest.dependencies) {
        return Err(error);
    }
    find_tool_fault(&manifest.required_tools)
}

/// Checks a package.
pub fn validate_package(package: &SkillPackage) -> (result: Result<(), HarnessError>)
    ensures
        settles(result, package_check(*package)),
{
    if let Err(error) = validate_manifest(&package.manifest, package.instructions.as_str()) {
        return Err(error);
    }
    if package.resources.len() > MAX_RESOURCES {
        return Err(skill_error("Skill contains more than 256 resources"));
    }
    if let Err(error) = find_resource_fault(&package.resources) {
        return Err(error);
    }
    if !sha256_form(package.content_sha256.as_str()) {
        return Err(skill_error("Skill content_sha256 must be 64 lowercase hexadecimal characters"));
    }
    match package.computed_sha256() {
        Err(error) => Err(error),
        Ok(digest) => {
            if !same_text(digest.as_str(), package.content_sha256.as_str()) {
                let shown = package.id().shown();
                return Err(
                    HarnessError::Skill(join3("Skill ", shown.as_str(), " content digest does not match")),
                );
            }
            Ok(())
        },
    }
}

impl SkillPackage {
    /// Creates a package and fills its content digest.
    pub fn seal(manifest: SkillManifest, instructions: String, resources: Table<String>) -> (result: Result<
        Self,
        HarnessError,
    >)
        ensures
            match content_digest(manifest, instructions@, resources.rows()) {
                Err(fault) => result matches Err(error) && error@ == fault,
                Ok(digest) => match result {
                    Ok(package) => package.manifest == manifest && package.instructions == instructions
                        && package.resources == resources && package.content_sha256@ == digest && package_check(
                        package,
                    ) is Ok,
                    Err(error) => exists|package: SkillPackage|
                        package.manifest == manifest && package.instructions == instructions && package.resources
                            == resources && package.content_sha256@ == digest && #[trigger] package_check(package) == Err::<
                            (),
                            ErrorView,
                        >(error@),
                },
            },
    {
        let mut package = SkillPackage { manifest, instructions, resources, content_sha256: String::from_str("") };
        match package.computed_sha256() {
            Err(error) => {
                return Err(error);
            },
            Ok(digest) => {
                package.content_sha256 = digest;
            },
        }
        match validate_package(&package) {
            Ok(()) => Ok(package),
            Err(error) => Err(error),
        }
    }

    /// Computes the canonical package digest without trusting the declared value.
    pub fn computed_sha256(&self) -> (result: Result<String, HarnessError>)
        ensures
            match result {
                Ok(digest) => content_digest(self.manifest, self.instructions@, self.resources.rows()) == Ok::<
                    Seq<char>,
                    ErrorView,
                >(digest@),
                Err(error) => content_digest(self.manifest, self.instructions@, self.resources.rows()) == Err::<
                    Seq<char>,
                    ErrorView,
                >(error@),
            },
    {
        if let Err(error) = validate_package_content_envelope(
            &self.manifest,
            self.instructions.as_str(),
            &self.resources,
        ) {
            return Err(error);
        }
        let canonical = canonical_text(&self.manifest, self.instructions.as_str(), &self.resources);
        let bytes = canonical.as_str().as_bytes();
        if bytes.len() > MAX_SKILL_CANONICAL_BYTES {
            return Err(skill_error("canonical Skill package exceeds 16777216 bytes"));
        }
        Ok(sha256_text(bytes))
    }

    /// Returns the identity of the package.
    pub fn id(&self) -> (id: SkillId)
        ensures
            id@ == package_identity(*self),
            id.name == self.manifest.name,
            id.version == self.manifest.version,
    {
        SkillId { name: self.manifest.name.clone(), version: self.manifest.version.clone() }
    }
}

/// A package that passes its checks carries the digest of its own content:
/// content that was changed behind the seal no longer passes.
pub proof fn law_checked_package_has_its_own_digest(package: SkillPackage)
    requires
        package_check(package) is Ok,
    ensures
        package.content_sha256@ == sha256_hex(
            encode_utf8(canonical_package(package.manifest, package.instructions@, package.resources.rows())),
        ),
{
}

/// Dependencies of a package that passes its checks are distinct and stand in
/// order.
pub proof fn law_checked_dependencies_are_ordered(package: SkillPackage, n: int)
    requires
        package_check(package) is Ok,
        0 < n < package.manifest.dependencies@.len(),
    ensures
        package.manifest.dependencies@[n - 1].identity().before(package.manifest.dependencies@[n].identity()),
{
    lemma_no_dependency_fault(package.manifest.dependencies@, 0, n);
}

proof fn lemma_no_dependency_fault(dependencies: Seq<SkillDependency>, from: int, n: int)
    requires
        0 <= from <= n < dependencies.len(),
        dependency_fault(dependencies, from) is None,
    ensures
        n > 0 ==> dependencies[n - 1].identity().before(dependencies[n].identity()),
    decreases n - from,
{
    if from < n {
        lemma_no_dependency_fault(dependencies, from + 1, n);
    }
}

} // verus!
