//! What packages, signatures and sources have to be to be accepted, in full.

use vstd::prelude::*;
use vstd::utf8::encode_utf8;

use crate::error::ErrorView;
use crate::kernel::{origin_is_valid, CapabilityOrigin};
use crate::limits::{
    is_letter_or_digit, is_space, law_blank_texts_say_nothing, law_digests_have_their_form, law_names_are_portable,
    reads_as_digest, reads_as_name, says_something,
};
use crate::skill::fetch::{
    before_semicolon, fetched_check, is_json_type, lower, pin_check, response_acceptance, trim_end, trim_start,
};
use crate::skill::package::{
    content_digest, content_size, dependencies_size, dependency_fault, envelope, manifest_check, package_check,
    package_identity, resource_fault, resources_size, tool_fault, tools_size, SkillDependency, SkillManifest, SkillPackage,
};
use crate::skill::path::{component_is_normal, components, path_check, path_is_normal};
use crate::skill::registry::{index_of, registration, signed_registration, RegisteredSkill, RegistryView};
use crate::skill::source::{config_check, pem_certificates, url_parts, ConfigView, HttpSkillResponse};
use crate::skill::state::{
    evidence, installed, key_is_valid, key_is_weak, log_admission, publisher_admission, receipt_verification,
    revalidation, revocation_check, signature_holds, verification, TrustView,
};
use crate::skill::store::{SkillTrustStates, SkillTrustStore};
use crate::skill::trust::{
    receipt_message, SignedSkillPackage, SkillKeyRevocation, SkillPublisherPolicy, SkillTransparencyReceipt,
};
use crate::skill::version::SkillIdView;
use crate::table::Row;

verus! {

/// Whether part of a path stands between slashes, or between a slash and an
/// end of the path, without a slash inside.
pub open spec fn stands_between_slashes(path: Seq<char>, from: int, to: int) -> bool {
    &&& 0 <= from <= to <= path.len()
    &&& from == 0 || path[from - 1] == '/'
    &&& to == path.len() || path[to] == '/'
    &&& forall|i: int| from <= i < to ==> #[trigger] path[i] != '/'
}

/// Where the components of a path stand.
spec fn spans(path: Seq<char>) -> Seq<(int, int)>
    decreases path.len(),
{
    if path.len() == 0 {
        seq![(0int, 0int)]
    } else {
        let earlier = spans(path.drop_last());
        if path.last() == '/' {
            earlier.push((path.len() as int, path.len() as int))
        } else {
            earlier.drop_last().push((earlier.last().0, path.len() as int))
        }
    }
}

proof fn lemma_spans(path: Seq<char>)
    ensures
        spans(path).len() == components(path).len(),
        spans(path).len() > 0,
        spans(path).last().1 == path.len(),
        forall|k: int| 0 <= k < spans(path).len() - 1 ==> (#[trigger] spans(path)[k]).1 < path.len(),
        forall|k: int|
            0 <= k < spans(path).len() ==> stands_between_slashes(path, (#[trigger] spans(path)[k]).0, spans(path)[k].1)
                && components(path)[k] == path.subrange(spans(path)[k].0, spans(path)[k].1),
        forall|from: int, to: int| #[trigger]
            stands_between_slashes(path, from, to) ==> spans(path).contains((from, to)),
    decreases path.len(),
{
    let all = spans(path);
    let parts = components(path);
    let n = path.len() as int;
    if n == 0 {
        assert(parts[0] =~= path.subrange(0, 0));
        assert forall|from: int, to: int| #[trigger] stands_between_slashes(path, from, to) implies all.contains(
            (from, to),
        ) by {
            assert(all[0] == (from, to));
        }
    } else {
        let shorter = path.drop_last();
        let earlier = spans(shorter);
        lemma_spans(shorter);
        assert forall|k: int| 0 <= k < all.len() implies stands_between_slashes(path, (#[trigger] all[k]).0, all[k].1)
            && parts[k] == path.subrange(all[k].0, all[k].1) by {
            if path.last() == '/' && k == earlier.len() {
                assert(parts[k] =~= path.subrange(n, n));
            } else {
                let (from, to) = earlier[k];
                assert(stands_between_slashes(shorter, earlier[k].0, earlier[k].1));
                assert forall|i: int| from <= i < all[k].1 implies #[trigger] path[i] != '/' by {
                    if i < n - 1 {
                        assert(shorter[i] != '/');
                    }
                }
                if path.last() == '/' || k < earlier.len() - 1 {
                    assert(all[k] == earlier[k]);
                    assert(parts[k] == components(shorter)[k]);
                    assert(shorter.subrange(from, to) =~= path.subrange(from, to));
                } else {
                    assert(components(shorter).last() == shorter.subrange(from, n - 1));
                    assert(shorter.subrange(from, n - 1).push(path.last()) =~= path.subrange(from, n));
                }
            }
        }
        assert forall|from: int, to: int| #[trigger] stands_between_slashes(path, from, to) implies all.contains(
            (from, to),
        ) by {
            if path.last() == '/' && from == n {
                assert(all[all.len() - 1] == (from, to));
            } else {
                let end = if to == n {
                    n - 1
                } else {
                    to
                };
                if to == n && path.last() == '/' {
                    assert(path[n - 1] != '/');
                }
                assert forall|i: int| from <= i < end implies #[trigger] shorter[i] != '/' by {
                    assert(path[i] != '/');
                }
                if from == n {
                    assert(path[n - 1] == '/');
                }
                assert(stands_between_slashes(shorter, from, end));
                let k = choose|k: int| 0 <= k < earlier.len() && earlier[k] == (from, end);
                assert(earlier[k] == (from, end));
                if path.last() == '/' {
                    assert(all[k] == (from, to));
                } else if to == n {
                    assert(k == earlier.len() - 1);
                    assert(all[k] == (from, to));
                } else {
                    assert(to != n - 1);
                    assert(k < earlier.len() - 1);
                    assert(all[k] == (from, to));
                }
            }
        }
    }
}

/// A resource path is relative and normal: between its slashes, and before the
/// first and behind the last, stands something other than one or two dots, and
/// it holds no backslash.
pub proof fn law_resource_paths_are_normal(path: Seq<char>)
    ensures
        path_check(path) is Ok <==> {
            &&& path.len() > 0
            &&& forall|i: int| 0 <= i < path.len() ==> #[trigger] path[i] != '\\'
            &&& forall|from: int, to: int| #[trigger]
                stands_between_slashes(path, from, to) ==> from < to && path.subrange(from, to) != seq!['.']
                    && path.subrange(from, to) != seq!['.', '.']
        },
{
    lemma_spans(path);
    let all = spans(path);
    if path_is_normal(path) {
        assert forall|from: int, to: int| #[trigger] stands_between_slashes(path, from, to) implies from < to
            && path.subrange(from, to) != seq!['.'] && path.subrange(from, to) != seq!['.', '.'] by {
            let k = choose|k: int| 0 <= k < all.len() && all[k] == (from, to);
            assert(all[k] == (from, to));
            assert(component_is_normal(components(path)[k]));
        }
    }
    if forall|from: int, to: int| #[trigger]
        stands_between_slashes(path, from, to) ==> from < to && path.subrange(from, to) != seq!['.'] && path.subrange(from, to)
            != seq!['.', '.'] {
        assert forall|k: int| 0 <= k < components(path).len() implies component_is_normal(#[trigger] components(path)[k]) by {
            assert(stands_between_slashes(path, all[k].0, all[k].1));
            assert(path.subrange(all[k].0, all[k].1).len() > 0);
        }
    }
}

proof fn lemma_dependencies(dependencies: Seq<SkillDependency>, from: int)
    requires
        0 <= from,
    ensures
        dependency_fault(dependencies, from) is None <==> forall|k: int|
            from <= k < dependencies.len() ==> reads_as_name((#[trigger] dependencies[k]).name@, 64) && (k > 0
                ==> dependencies[k - 1].identity().before(dependencies[k].identity())),
    decreases dependencies.len() - from,
{
    if from < dependencies.len() {
        law_names_are_portable(dependencies[from].name@, 64);
        lemma_dependencies(dependencies, from + 1);
    }
}

proof fn lemma_tools(tools: Seq<Row<()>>, from: int)
    requires
        0 <= from,
    ensures
        tool_fault(tools, from) is None <==> forall|k: int|
            from <= k < tools.len() ==> reads_as_name((#[trigger] tools[k]).key@, 64),
    decreases tools.len() - from,
{
    if from < tools.len() {
        law_names_are_portable(tools[from].key@, 64);
        lemma_tools(tools, from + 1);
    }
}

proof fn lemma_resources(resources: Seq<Row<String>>, from: int)
    requires
        0 <= from,
    ensures
        resource_fault(resources, from) is None <==> forall|k: int|
            from <= k < resources.len() ==> path_check((#[trigger] resources[k]).key@) is Ok && encode_utf8(
                resources[k].value@,
            ).len() <= 1_048_576,
    decreases resources.len() - from,
{
    if from < resources.len() {
        lemma_resources(resources, from + 1);
    }
}

/// A manifest is accepted for API version 1, with a portable name, a
/// description that says something in up to 4096 bytes, instructions that say
/// something in up to 1048576, an estimate of 1 to 262144 tokens, and up to 256
/// dependencies and required Tools with portable names, the dependencies in
/// strict order.
pub proof fn law_manifests_are_accepted(manifest: SkillManifest, instructions: Seq<char>)
    ensures
        manifest_check(manifest, instructions) is Ok <==> {
            &&& manifest.api_version@ == seq!['1']
            &&& reads_as_name(manifest.name@, 64)
            &&& says_something(manifest.description@)
            &&& encode_utf8(manifest.description@).len() <= 4096
            &&& says_something(instructions)
            &&& encode_utf8(instructions).len() <= 1_048_576
            &&& 1 <= manifest.estimated_tokens <= 262_144
            &&& manifest.dependencies@.len() <= 256
            &&& manifest.required_tools.rows().len() <= 256
            &&& forall|k: int|
                0 <= k < manifest.dependencies@.len() ==> reads_as_name((#[trigger] manifest.dependencies@[k]).name@, 64) && (k
                    > 0 ==> manifest.dependencies@[k - 1].identity().before(manifest.dependencies@[k].identity()))
            &&& forall|k: int|
                0 <= k < manifest.required_tools.rows().len() ==> reads_as_name(
                    (#[trigger] manifest.required_tools.rows()[k]).key@,
                    64,
                )
        },
{
    reveal_strlit("1");
    assert("1"@ =~= seq!['1']);
    law_names_are_portable(manifest.name@, 64);
    law_blank_texts_say_nothing(manifest.description@);
    law_blank_texts_say_nothing(instructions);
    lemma_dependencies(manifest.dependencies@, 0);
    lemma_tools(manifest.required_tools.rows(), 0);
}

/// The content of a package may take 2097152 bytes, no part of it more than its
/// own share: 1048576 bytes of instructions, 4096 of description, 256
/// dependencies, required Tools and resources, and 1048576 bytes for each
/// resource.
pub proof fn law_contents_fit(manifest: SkillManifest, instructions: Seq<char>, resources: Seq<Row<String>>)
    ensures
        envelope(manifest, instructions, resources) is Ok <==> {
            &&& encode_utf8(instructions).len() <= 1_048_576
            &&& encode_utf8(manifest.description@).len() <= 4096
            &&& manifest.dependencies@.len() <= 256
            &&& manifest.required_tools.rows().len() <= 256
            &&& resources.len() <= 256
            &&& forall|k: int| 0 <= k < resources.len() ==> encode_utf8((#[trigger] resources[k]).value@).len() <= 1_048_576
            &&& content_size(manifest, instructions, resources) <= 2_097_152
        },
        envelope(manifest, instructions, resources) matches Ok(size) ==> size == content_size(
            manifest,
            instructions,
            resources,
        ),
        content_size(manifest, instructions, resources) == encode_utf8(instructions).len() + encode_utf8(
            manifest.api_version@,
        ).len() + encode_utf8(manifest.name@).len() + encode_utf8(manifest.version@).len() + encode_utf8(
            manifest.description@,
        ).len() + dependencies_size(manifest.dependencies@, manifest.dependencies@.len()) + tools_size(
            manifest.required_tools.rows(),
            manifest.required_tools.rows().len(),
        ) + resources_size(resources, resources.len()),
{
}

/// Every dependency counts with its name and its version, every required Tool
/// with its name, every resource with its path and its text.
pub proof fn law_every_part_counts(
    dependencies: Seq<SkillDependency>,
    tools: Seq<Row<()>>,
    resources: Seq<Row<String>>,
    n: nat,
)
    ensures
        dependencies_size(dependencies, n + 1) == dependencies_size(dependencies, n) + encode_utf8(
            dependencies[n as int].name@,
        ).len() + encode_utf8(dependencies[n as int].version@).len(),
        tools_size(tools, n + 1) == tools_size(tools, n) + encode_utf8(tools[n as int].key@).len(),
        resources_size(resources, n + 1) == resources_size(resources, n) + encode_utf8(resources[n as int].key@).len()
            + encode_utf8(resources[n as int].value@).len(),
        dependencies_size(dependencies, 0) == 0 && tools_size(tools, 0) == 0 && resources_size(resources, 0) == 0,
{
}

/// A package is accepted where its manifest is, its resources have normal
/// paths and fit, and its digest is that of its content.
pub proof fn law_packages_are_accepted(package: SkillPackage)
    ensures
        package_check(package) is Ok <==> {
            &&& manifest_check(package.manifest, package.instructions@) is Ok
            &&& package.resources.rows().len() <= 256
            &&& forall|k: int|
                0 <= k < package.resources.rows().len() ==> path_check((#[trigger] package.resources.rows()[k]).key@) is Ok
                    && encode_utf8(package.resources.rows()[k].value@).len() <= 1_048_576
            &&& reads_as_digest(package.content_sha256@)
            &&& content_digest(package.manifest, package.instructions@, package.resources.rows()) == Ok::<
                Seq<char>,
                ErrorView,
            >(package.content_sha256@)
        },
{
    lemma_resources(package.resources.rows(), 0);
    law_digests_have_their_form(package.content_sha256@);
}

/// Whether a trust anchor holds at a time: its window has begun and not ended,
/// and it is not revoked yet.
pub open spec fn anchor_holds(
    not_before_ms: Option<u64>,
    not_after_ms: Option<u64>,
    revocation: Option<SkillKeyRevocation>,
    now: u64,
) -> bool {
    &&& not_before_ms matches Some(begin) ==> begin <= now
    &&& not_after_ms matches Some(end) ==> now < end
    &&& revocation matches Some(revoked) ==> now < revoked.revoked_at_ms
}

/// Whether a receipt stands for a signed package at a time.
pub open spec fn receipt_stands(
    store: TrustView,
    signed: SignedSkillPackage,
    receipt: SkillTransparencyReceipt,
    now: u64,
) -> bool {
    &&& reads_as_name(receipt.log_id@, 64)
    &&& 1 <= receipt.entry_id@.len()
    &&& encode_utf8(receipt.entry_id@).len() <= 256
    &&& forall|i: int|
        0 <= i < receipt.entry_id@.len() ==> is_letter_or_digit(#[trigger] receipt.entry_id@[i]) || receipt.entry_id@[i] == '.'
            || receipt.entry_id@[i] == '_' || receipt.entry_id@[i] == '-'
    &&& 0 < receipt.integrated_at_ms <= now + 300_000
    &&& store.logs.contains_key(receipt.log_id@)
    &&& anchor_holds(None, None, store.logs[receipt.log_id@].revocation, now)
    &&& receipt.ed25519@.len() == 64
    &&& signature_holds(
        store.logs[receipt.log_id@].key@,
        encode_utf8(receipt_message(signed, receipt)),
        receipt.ed25519@,
    )
}

/// A signed package is verified exactly where the package is accepted, its
/// publisher is trusted and holds at the time, the signature of the publisher
/// is one over its digest, and a receipt stands for it; only where the policy
/// of the publisher does not ask for a receipt may there be none.
pub proof fn law_signed_packages_are_verified(store: TrustView, signed: SignedSkillPackage, now: u64)
    ensures
        verification(store, signed, now) is Ok <==> {
            let key_id = signed.signature.key_id@;
            &&& package_check(signed.package) is Ok
            &&& reads_as_name(key_id, 64)
            &&& store.publishers.contains_key(key_id)
            &&& anchor_holds(
                store.publishers[key_id].policy.not_before_ms,
                store.publishers[key_id].policy.not_after_ms,
                store.publishers[key_id].revocation,
                now,
            )
            &&& signed.signature.ed25519@.len() == 64
            &&& signature_holds(
                store.publishers[key_id].key@,
                encode_utf8("y-harness-skill-v1\0"@ + signed.package.content_sha256@),
                signed.signature.ed25519@,
            )
            &&& match signed.transparency {
                Some(receipt) => receipt_stands(store, signed, receipt, now),
                None => store.publishers[key_id].policy.transparency is Optional,
            }
        },
{
    law_names_are_portable(signed.signature.key_id@, 64);
    if let Some(receipt) = signed.transparency {
        law_names_are_portable(receipt.log_id@, 64);
        law_names_are_portable(receipt.entry_id@, 256);
        assert(receipt_verification(store, signed, receipt, now) is Ok <==> receipt_stands(store, signed, receipt, now));
    }
}

/// What was verified once is trusted on as long as its publisher and its log
/// are, and hold, and the policy of the publisher does not ask for a receipt
/// that there is none of.
pub proof fn law_registered_packages_are_trusted_on(store: TrustView, key_id: Seq<char>, log_id: Option<Seq<char>>, now: u64)
    ensures
        revalidation(store, key_id, log_id, now) is Ok <==> {
            &&& store.publishers.contains_key(key_id)
            &&& anchor_holds(
                store.publishers[key_id].policy.not_before_ms,
                store.publishers[key_id].policy.not_after_ms,
                store.publishers[key_id].revocation,
                now,
            )
            &&& match log_id {
                Some(log) => store.logs.contains_key(log) && anchor_holds(None, None, store.logs[log].revocation, now),
                None => store.publishers[key_id].policy.transparency is Optional,
            }
        },
{
}

/// A publisher key is trusted with a portable identity that is new among 4096,
/// a window that is not empty, and a key that is valid and not weak; a log in
/// the same way, without a window.
pub proof fn law_anchors_are_admitted(store: TrustView, id: Seq<char>, key: Seq<u8>, policy: SkillPublisherPolicy)
    ensures
        publisher_admission(store.publishers, id, key, policy) is Ok <==> {
            &&& reads_as_name(id, 64)
            &&& policy.not_after_ms matches Some(end) ==> 0 < end && (policy.not_before_ms matches Some(begin) ==> begin < end)
            &&& key_is_valid(key) && !key_is_weak(key)
            &&& !store.publishers.contains_key(id)
            &&& store.publishers.len() < 4096
        },
        log_admission(store.logs, id, key) is Ok <==> {
            &&& reads_as_name(id, 64)
            &&& key_is_valid(key) && !key_is_weak(key)
            &&& !store.logs.contains_key(id)
            &&& store.logs.len() < 4096
        },
{
    law_names_are_portable(id, 64);
}

/// A revocation has a time from 1 on and a portable reason; a key that is
/// revoked already keeps its revocation, which only itself can repeat.
pub proof fn law_revocations_are_recorded(
    current: Option<SkillKeyRevocation>,
    revoked_at_ms: u64,
    reason_code: String,
    kind: Seq<char>,
    id: Seq<char>,
)
    ensures
        revocation_check(revoked_at_ms, reason_code@) is Ok <==> 1 <= revoked_at_ms && reads_as_name(reason_code@, 64),
        current is None ==> installed(current, revoked_at_ms, reason_code, kind, id) == Ok::<SkillKeyRevocation, ErrorView>(
            SkillKeyRevocation { revoked_at_ms, reason_code },
        ),
        current matches Some(existing) ==> (installed(current, revoked_at_ms, reason_code, kind, id) is Ok
            <==> existing.revoked_at_ms == revoked_at_ms && existing.reason_code@ == reason_code@),
{
    law_names_are_portable(reason_code@, 64);
}

proof fn lemma_unknown(skills: Seq<RegisteredSkill>, id: SkillIdView, from: int)
    requires
        0 <= from,
    ensures
        index_of(skills, id, from) is None <==> forall|k: int| from <= k < skills.len() ==> (#[trigger] skills[k]).id@ != id,
    decreases skills.len() - from,
{
    if from < skills.len() {
        lemma_unknown(skills, id, from + 1);
    }
}

/// A package is registered without a signature where its origin is valid and
/// not external, the registry has room for it among 4096 and in 67108864 bytes,
/// the package is accepted and its identity is new. An external package is
/// registered in the same way where it is verified instead.
pub proof fn law_packages_are_registered(
    registry: RegistryView,
    origin: CapabilityOrigin,
    signed: SignedSkillPackage,
    trust: SkillTrustStore,
    states: SkillTrustStates,
    now: u64,
)
    ensures
        registration(registry, origin, signed.package) is Ok <==> {
            &&& origin_is_valid(origin@)
            &&& !(origin is External)
            &&& registry.skills.len() < 4096
            &&& package_check(signed.package) is Ok
            &&& forall|k: int|
                0 <= k < registry.skills.len() ==> (#[trigger] registry.skills[k]).id@ != package_identity(signed.package)
            &&& registry.content_bytes + content_size(
                signed.package.manifest,
                signed.package.instructions@,
                signed.package.resources.rows(),
            ) <= 67_108_864
        },
        signed_registration(registry, origin, signed, trust, states, now) is Ok <==> {
            &&& origin_is_valid(origin@)
            &&& origin is External
            &&& registry.skills.len() < 4096
            &&& verification(states@[trust], signed, now) is Ok
            &&& forall|k: int|
                0 <= k < registry.skills.len() ==> (#[trigger] registry.skills[k]).id@ != package_identity(signed.package)
            &&& registry.content_bytes + content_size(
                signed.package.manifest,
                signed.package.instructions@,
                signed.package.resources.rows(),
            ) <= 67_108_864
        },
        registration(registry, origin, signed.package) matches Ok(bytes) ==> bytes == registry.content_bytes + content_size(
            signed.package.manifest,
            signed.package.instructions@,
            signed.package.resources.rows(),
        ),
{
    lemma_unknown(registry.skills, package_identity(signed.package), 0);
    law_signed_packages_are_verified(states@[trust], signed, now);
}

/// A source is reached by HTTPS at a host, without user, password, query and
/// fragment, by a URL of up to 8192 bytes; it connects in at least a
/// millisecond and answers no earlier, within five minutes; it answers with up
/// to 16777216 bytes to up to 64 requests at once; and its own root
/// certificates are 1 to 64 in up to 1048576 bytes.
pub proof fn law_sources_are_configured(config: ConfigView)
    ensures
        config_check(config) is Ok <==> {
            &&& encode_utf8(config.endpoint).len() <= 8192
            &&& url_parts(config.endpoint) matches Some((scheme, has_host, username, has_password, has_query, has_fragment))
                && scheme == "https"@ && has_host && username.len() == 0 && !has_password && !has_query && !has_fragment
            &&& 1_000_000 <= config.connect_timeout.nanos() <= config.request_timeout.nanos() <= 300_000_000_000
            &&& 1 <= config.max_response_bytes <= 16_777_216
            &&& 1 <= config.max_concurrency <= 64
            &&& config.exclusive_root_ca_pem matches Some(pem) ==> 1 <= pem.len() <= 1_048_576 && (
            pem_certificates(pem) matches Some(count) && 1 <= count <= 64)
        },
{
}

/// An answer is accepted with a status of success, a body inside the limit of
/// the source, and JSON as its declared type.
pub proof fn law_answers_are_accepted(config: ConfigView, response: HttpSkillResponse)
    ensures
        response_acceptance(config, response) is Ok <==> {
            &&& 200 <= response.status <= 299
            &&& response.body@.len() <= config.max_response_bytes
            &&& response.content_type matches Some(content_type) && is_json_type(content_type@)
        },
{
}

/// What is fetched has to be the expected package: accepted, with the expected
/// identity, and with the pinned digest. A pin is a portable name and a digest.
pub proof fn law_fetched_packages_are_the_expected_ones(signed: SignedSkillPackage, expected: SkillIdView, digest: Seq<char>)
    ensures
        fetched_check(signed, expected, digest) is Ok <==> {
            &&& package_check(signed.package) is Ok
            &&& signed.package.manifest.name@ == expected.name
            &&& signed.package.manifest.version@ == expected.version
            &&& signed.package.content_sha256@ == digest
        },
        pin_check(expected, digest) is Ok <==> reads_as_name(expected.name, 64) && reads_as_digest(digest),
{
    law_names_are_portable(expected.name, 64);
    law_digests_have_their_form(digest);
}

/// What is kept of a verified receipt is its log, its entry and its time.
pub proof fn law_receipts_leave_evidence(receipt: SkillTransparencyReceipt)
    ensures
        evidence(None) is None,
        evidence(Some(receipt)) matches Some(kept) && kept.log_id == receipt.log_id && kept.entry_id == receipt.entry_id
            && kept.integrated_at_ms == receipt.integrated_at_ms,
{
}

proof fn lemma_before_semicolon(text: Seq<char>) -> (cut: int)
    ensures
        0 <= cut <= text.len(),
        before_semicolon(text) == text.take(cut),
        cut == text.len() || text[cut] == ';',
        forall|i: int| 0 <= i < cut ==> #[trigger] text[i] != ';',
    decreases text.len(),
{
    if text.len() == 0 {
        assert(text.take(0) =~= text);
        0
    } else if text[0] == ';' {
        assert(text.take(0) =~= Seq::empty());
        0
    } else {
        let rest = text.drop_first();
        let cut = lemma_before_semicolon(rest);
        assert(seq![text[0]] + rest.take(cut) =~= text.take(cut + 1));
        assert forall|i: int| 0 <= i < cut + 1 implies #[trigger] text[i] != ';' by {
            if i > 0 {
                assert(rest[i - 1] != ';');
            }
        }
        cut + 1
    }
}

proof fn lemma_trim_start(text: Seq<char>) -> (n: int)
    ensures
        0 <= n <= text.len(),
        trim_start(text) == text.skip(n),
        forall|i: int| 0 <= i < n ==> is_space(#[trigger] text[i]),
        n < text.len() ==> !is_space(text[n]),
    decreases text.len(),
{
    if text.len() > 0 && is_space(text[0]) {
        let rest = text.drop_first();
        let n = lemma_trim_start(rest);
        assert(rest.skip(n) =~= text.skip(n + 1));
        assert forall|i: int| 0 <= i < n + 1 implies is_space(#[trigger] text[i]) by {
            if i > 0 {
                assert(is_space(rest[i - 1]));
            }
        }
        n + 1
    } else {
        assert(text.skip(0) =~= text);
        0
    }
}

proof fn lemma_trim_end(text: Seq<char>) -> (n: int)
    ensures
        0 <= n <= text.len(),
        trim_end(text) == text.take(n),
        forall|i: int| n <= i < text.len() ==> is_space(#[trigger] text[i]),
        n > 0 ==> !is_space(text[n - 1]),
    decreases text.len(),
{
    if text.len() > 0 && is_space(text.last()) {
        let rest = text.drop_last();
        let n = lemma_trim_end(rest);
        assert(rest.take(n) =~= text.take(n));
        assert forall|i: int| n <= i < text.len() implies is_space(#[trigger] text[i]) by {
            if i < text.len() - 1 {
                assert(is_space(rest[i]));
            }
        }
        n
    } else {
        assert(text.take(text.len() as int) =~= text);
        text.len() as int
    }
}

/// Whether a character is one of a word, in either case.
pub open spec fn is_either_case(c: char, small: char) -> bool {
    c == small || ('a' <= small <= 'z' && c as u32 + 32 == small as u32)
}

/// Whether a text reads `application/json` at a place, in either case.
pub open spec fn reads_json_at(text: Seq<char>, at: int) -> bool {
    &&& 0 <= at
    &&& at + 16 <= text.len()
    &&& is_either_case(text[at], 'a') && is_either_case(text[at + 1], 'p') && is_either_case(text[at + 2], 'p')
    &&& is_either_case(text[at + 3], 'l') && is_either_case(text[at + 4], 'i') && is_either_case(text[at + 5], 'c')
    &&& is_either_case(text[at + 6], 'a') && is_either_case(text[at + 7], 't') && is_either_case(text[at + 8], 'i')
    &&& is_either_case(text[at + 9], 'o') && is_either_case(text[at + 10], 'n') && text[at + 11] == '/'
    &&& is_either_case(text[at + 12], 'j') && is_either_case(text[at + 13], 's') && is_either_case(text[at + 14], 'o')
    &&& is_either_case(text[at + 15], 'n')
}

/// A declared type is JSON where nothing but white space stands around
/// `application/json` before the first semicolon, whatever stands behind it.
pub proof fn law_json_is_declared_as_such(text: Seq<char>)
    ensures
        is_json_type(text) <==> exists|at: int, cut: int| #[trigger]
            reads_json_at(text, at) && #[trigger] ends_media_type(text, at + 16, cut) && forall|i: int|
                0 <= i < at ==> is_space(#[trigger] text[i]),
{
    reveal_strlit("application/json");
    let word = "application/json"@;
    let cut = lemma_before_semicolon(text);
    let part = text.take(cut);
    let n = lemma_trim_start(part);
    let tail = part.skip(n);
    let m = lemma_trim_end(tail);
    let core = tail.take(m);
    assert forall|i: int| 0 <= i < m implies core[i] == text[n + i] by {}
    if is_json_type(text) {
        assert(core.len() == 16);
        assert forall|i: int| 0 <= i < 16 implies lower(#[trigger] core[i]) == lower(word[i]) by {}
        assert(reads_json_at(text, n)) by {
            assert(lower(core[0]) == 'a' && lower(core[1]) == 'p' && lower(core[2]) == 'p' && lower(core[3]) == 'l');
            assert(lower(core[4]) == 'i' && lower(core[5]) == 'c' && lower(core[6]) == 'a' && lower(core[7]) == 't');
            assert(lower(core[8]) == 'i' && lower(core[9]) == 'o' && lower(core[10]) == 'n' && lower(core[11]) == '/');
            assert(lower(core[12]) == 'j' && lower(core[13]) == 's' && lower(core[14]) == 'o' && lower(core[15]) == 'n');
        }
        assert forall|i: int| n + 16 <= i < cut implies is_space(#[trigger] text[i]) by {
            assert(tail[i - n] == text[i]);
        }
        assert forall|i: int| 0 <= i < cut implies #[trigger] text[i] != ';' by {}
        assert(ends_media_type(text, n + 16, cut));
        assert forall|i: int| 0 <= i < n implies is_space(#[trigger] text[i]) by {
            assert(part[i] == text[i]);
        }
    }
    if exists|at: int, end: int| #[trigger]
        reads_json_at(text, at) && #[trigger] ends_media_type(text, at + 16, end) && forall|i: int|
            0 <= i < at ==> is_space(#[trigger] text[i]) {
        let (at, end) = choose|at: int, end: int| #[trigger]
            reads_json_at(text, at) && #[trigger] ends_media_type(text, at + 16, end) && forall|i: int|
                0 <= i < at ==> is_space(#[trigger] text[i]);
        assert(end == cut) by {
            if end < cut {
                assert(text[end] != ';');
            }
            if cut < end {
                if cut < at {
                    assert(is_space(text[cut]));
                } else if cut >= at + 16 {
                    assert(is_space(text[cut]));
                } else {
                    assert(text[cut] != ';');
                }
            }
        }
        assert(n == at) by {
            if n < at {
                assert(is_space(text[n]));
                assert(part[n] == text[n]);
            }
            if at < n {
                assert(is_space(part[at]));
                assert(part[at] == text[at]);
            }
        }
        assert(m == 16) by {
            if m > 16 {
                assert(is_space(text[n + m - 1]));
                assert(tail[m - 1] == text[n + m - 1]);
            }
            if m < 16 {
                assert(is_space(tail[15]));
                assert(tail[15] == text[n + 15]);
            }
        }
        assert forall|i: int| 0 <= i < 16 implies lower(#[trigger] core[i]) == lower(word[i]) by {
            assert(core[i] == text[at + i]);
        }
    }
}

/// Whether the rest of a declared type up to its first semicolon, or to its
/// end, is white space.
pub open spec fn ends_media_type(text: Seq<char>, from: int, cut: int) -> bool {
    &&& from <= cut <= text.len()
    &&& cut == text.len() || text[cut] == ';'
    &&& forall|i: int| from <= i < cut ==> is_space(#[trigger] text[i])
}

} // verus!
