//! What a package and a receipt are signed over determines them.
//!
//! A digest or a signature vouches for the bytes it is made of. The laws here
//! say that these bytes have one reading: two packages with the same canonical
//! text agree in every field, and so do two receipts.

use vstd::prelude::*;
use vstd::utf8::{encode_utf8, encode_utf8_decode_utf8};

use crate::digest::{law_equal_digests_have_equal_bytes, sha256_collides};
use crate::json::{json_string, law_string_literals_are_read_back};
use crate::skill::package::{
    canonical_package, content_digest, dependencies_json, dependency_json, joined, manifest_json, resource_json,
    resources_json, tools_json, SkillDependency, SkillManifest,
};
use crate::skill::trust::{bytes_json, publisher_message, transparency_message};
use crate::table::Row;
use crate::text::{decimal, law_decimals_are_read_back, lemma_cancel};

verus! {

proof fn lemma_assoc(a: Seq<char>, b: Seq<char>, c: Seq<char>)
    ensures
        a + b + c == a + (b + c),
{
    assert(a + b + c =~= a + (b + c));
}

/// Texts with commas between them.
spec fn listed(parts: Seq<Seq<char>>) -> Seq<char>
    decreases parts.len(),
{
    if parts.len() == 0 {
        Seq::empty()
    } else if parts.len() == 1 {
        parts[0]
    } else {
        parts[0] + (","@ + listed(parts.drop_first()))
    }
}

proof fn lemma_listed_from_the_back(parts: Seq<Seq<char>>)
    requires
        parts.len() >= 2,
    ensures
        listed(parts) == listed(parts.drop_last()) + ","@ + parts.last(),
    decreases parts.len(),
{
    let rest = parts.drop_first();
    let shorter = parts.drop_last();
    if parts.len() == 2 {
        assert(listed(rest) == parts[1]);
        assert(listed(shorter) == parts[0]);
        lemma_assoc(parts[0], ","@, parts[1]);
    } else {
        lemma_listed_from_the_back(rest);
        assert(rest.drop_last() =~= shorter.drop_first());
        assert(rest.last() == parts.last());
        let middle = listed(shorter.drop_first());
        assert(listed(shorter) == parts[0] + (","@ + middle));
        assert(parts[0] + (","@ + (middle + ","@ + parts.last())) =~= parts[0] + (","@ + middle) + ","@ + parts.last());
    }
}

proof fn lemma_joined_is_listed(n: nat, part: spec_fn(int) -> Seq<char>)
    ensures
        joined(n, part) == listed(Seq::new(n, |k: int| part(k))),
    decreases n,
{
    let parts = Seq::new(n, |k: int| part(k));
    if n >= 2 {
        lemma_joined_is_listed((n - 1) as nat, part);
        lemma_listed_from_the_back(parts);
        assert(parts.drop_last() =~= Seq::new((n - 1) as nat, |k: int| part(k)));
    }
}

/// Whether the parts of two lists can be told apart where they end.
spec fn told_apart(a: Seq<Seq<char>>, b: Seq<Seq<char>>, close: char) -> bool {
    forall|i: int, j: int, u: Seq<char>, v: Seq<char>|
        #![trigger a[i] + u, b[j] + v]
        0 <= i < a.len() && 0 <= j < b.len() && u.len() > 0 && v.len() > 0 && (u[0] == ',' || u[0] == close) && (v[0] == ','
            || v[0] == close) && a[i] + u == b[j] + v ==> a[i] == b[j] && u == v
}

/// Whether no part of a list can be taken for its end.
spec fn begins_apart(parts: Seq<Seq<char>>, close: char) -> bool {
    forall|i: int| 0 <= i < parts.len() ==> (#[trigger] parts[i]).len() > 0 && parts[i][0] != close
}

proof fn lemma_list_front(parts: Seq<Seq<char>>, behind: Seq<char>)
    requires
        parts.len() > 0,
    ensures
        listed(parts) + behind == parts[0] + (if parts.len() == 1 {
            behind
        } else {
            ","@ + (listed(parts.drop_first()) + behind)
        }),
{
    if parts.len() > 1 {
        lemma_assoc(parts[0], ","@ + listed(parts.drop_first()), behind);
        lemma_assoc(","@, listed(parts.drop_first()), behind);
    }
}

proof fn lemma_lists_are_read_back(
    a: Seq<Seq<char>>,
    b: Seq<Seq<char>>,
    close: char,
    behind_a: Seq<char>,
    behind_b: Seq<char>,
)
    requires
        listed(a) + behind_a == listed(b) + behind_b,
        behind_a.len() > 0,
        behind_b.len() > 0,
        behind_a[0] == close,
        behind_b[0] == close,
        close != ',',
        told_apart(a, b, close),
        begins_apart(a, close),
        begins_apart(b, close),
    ensures
        a == b,
        behind_a == behind_b,
    decreases a.len(),
{
    reveal_strlit(",");
    let left = listed(a) + behind_a;
    let right = listed(b) + behind_b;
    if a.len() == 0 && b.len() == 0 {
        assert(listed(a) + behind_a =~= behind_a);
        assert(listed(b) + behind_b =~= behind_b);
        assert(a =~= b);
    } else if a.len() == 0 {
        lemma_list_front(b, behind_b);
        assert(left[0] == close);
        assert(right[0] == b[0][0]);
    } else if b.len() == 0 {
        lemma_list_front(a, behind_a);
        assert(right[0] == close);
        assert(left[0] == a[0][0]);
    } else {
        lemma_list_front(a, behind_a);
        lemma_list_front(b, behind_b);
        let (rest_a, rest_b) = (a.drop_first(), b.drop_first());
        let next_a = if a.len() == 1 {
            behind_a
        } else {
            ","@ + (listed(rest_a) + behind_a)
        };
        let next_b = if b.len() == 1 {
            behind_b
        } else {
            ","@ + (listed(rest_b) + behind_b)
        };
        assert(a.len() > 1 ==> next_a[0] == ',');
        assert(b.len() > 1 ==> next_b[0] == ',');
        assert(a[0] + next_a == b[0] + next_b);
        assert(a[0] == b[0] && next_a == next_b);
        if a.len() > 1 {
            lemma_cancel(","@, listed(rest_a) + behind_a, listed(rest_b) + behind_b);
            assert forall|i: int, j: int, u: Seq<char>, v: Seq<char>|
                #![trigger rest_a[i] + u, rest_b[j] + v]
                0 <= i < rest_a.len() && 0 <= j < rest_b.len() && u.len() > 0 && v.len() > 0 && (u[0] == ',' || u[0] == close)
                    && (v[0] == ',' || v[0] == close) && rest_a[i] + u == rest_b[j] + v implies rest_a[i] == rest_b[j] && u
                == v by {
                assert(a[i + 1] + u == b[j + 1] + v);
            }
            assert forall|i: int| 0 <= i < rest_a.len() implies (#[trigger] rest_a[i]).len() > 0 && rest_a[i][0] != close by {
                assert(rest_a[i] == a[i + 1]);
            }
            assert forall|i: int| 0 <= i < rest_b.len() implies (#[trigger] rest_b[i]).len() > 0 && rest_b[i][0] != close by {
                assert(rest_b[i] == b[i + 1]);
            }
            lemma_lists_are_read_back(rest_a, rest_b, close, behind_a, behind_b);
            assert(a =~= seq![a[0]] + rest_a);
            assert(b =~= seq![b[0]] + rest_b);
        } else {
            assert(a =~= b);
        }
    }
}

proof fn lemma_same_literal(a: Seq<char>, b: Seq<char>)
    requires
        json_string(a) == json_string(b),
    ensures
        a == b,
{
    law_string_literals_are_read_back(a, b, Seq::empty(), Seq::empty());
}

proof fn lemma_dependency_is_read_back(a: SkillDependency, b: SkillDependency, behind_a: Seq<char>, behind_b: Seq<char>)
    requires
        dependency_json(a) + behind_a == dependency_json(b) + behind_b,
    ensures
        a.name@ == b.name@,
        a.version@ == b.version@,
        behind_a == behind_b,
{
    let (open, middle, close) = ("{\"name\":"@, ",\"version\":"@, "}"@);
    lemma_dependency_shape(a, behind_a);
    lemma_dependency_shape(b, behind_b);
    let (tail_a, tail_b) = (
        middle + (json_string(a.version@) + (close + behind_a)),
        middle + (json_string(b.version@) + (close + behind_b)),
    );
    lemma_cancel(open, json_string(a.name@) + tail_a, json_string(b.name@) + tail_b);
    law_string_literals_are_read_back(a.name@, b.name@, tail_a, tail_b);
    lemma_cancel(middle, json_string(a.version@) + (close + behind_a), json_string(b.version@) + (close + behind_b));
    law_string_literals_are_read_back(a.version@, b.version@, close + behind_a, close + behind_b);
    lemma_cancel(close, behind_a, behind_b);
}

proof fn lemma_dependency_shape(a: SkillDependency, behind: Seq<char>)
    ensures
        dependency_json(a) + behind == "{\"name\":"@ + (json_string(a.name@) + (",\"version\":"@ + (json_string(a.version@) + (
        "}"@ + behind)))),
{
    let (open, name, middle, version, close) = (
        "{\"name\":"@,
        json_string(a.name@),
        ",\"version\":"@,
        json_string(a.version@),
        "}"@,
    );
    lemma_assoc(open + name + middle + version, close, behind);
    lemma_assoc(open + name + middle, version, (close + behind));
    lemma_assoc(open + name, middle, (version + (close + behind)));
    lemma_assoc(open, name, (middle + (version + (close + behind))));
}

proof fn lemma_dependencies_are_read_back(
    a: Seq<SkillDependency>,
    b: Seq<SkillDependency>,
    behind_a: Seq<char>,
    behind_b: Seq<char>,
)
    requires
        dependencies_json(a) + behind_a == dependencies_json(b) + behind_b,
        behind_a.len() > 0,
        behind_b.len() > 0,
        behind_a[0] == ']',
        behind_b[0] == ']',
    ensures
        a.len() == b.len(),
        forall|k: int| 0 <= k < a.len() ==> (#[trigger] a[k]).name@ == b[k].name@ && a[k].version@ == b[k].version@,
        behind_a == behind_b,
{
    let part_a = |k: int| dependency_json(a[k]);
    let part_b = |k: int| dependency_json(b[k]);
    let parts_a = Seq::new(a.len(), |k: int| part_a(k));
    let parts_b = Seq::new(b.len(), |k: int| part_b(k));
    lemma_joined_is_listed(a.len(), part_a);
    lemma_joined_is_listed(b.len(), part_b);
    assert(told_apart(parts_a, parts_b, ']')) by {
        assert forall|i: int, j: int, u: Seq<char>, v: Seq<char>|
            #![trigger parts_a[i] + u, parts_b[j] + v]
            0 <= i < parts_a.len() && 0 <= j < parts_b.len() && u.len() > 0 && v.len() > 0 && (u[0] == ',' || u[0] == ']')
                && (v[0] == ',' || v[0] == ']') && parts_a[i] + u == parts_b[j] + v implies parts_a[i] == parts_b[j] && u
            == v by {
            lemma_dependency_is_read_back(a[i], b[j], u, v);
        }
    }
    reveal_strlit("{\"name\":");
    assert forall|i: int| 0 <= i < parts_a.len() implies (#[trigger] parts_a[i]).len() > 0 && parts_a[i][0] != ']' by {
        assert(parts_a[i] == dependency_json(a[i]));
        assert(dependency_json(a[i])[0] == '{');
    }
    assert forall|i: int| 0 <= i < parts_b.len() implies (#[trigger] parts_b[i]).len() > 0 && parts_b[i][0] != ']' by {
        assert(parts_b[i] == dependency_json(b[i]));
        assert(dependency_json(b[i])[0] == '{');
    }
    lemma_lists_are_read_back(parts_a, parts_b, ']', behind_a, behind_b);
    assert(parts_a.len() == a.len() && parts_b.len() == b.len());
    assert forall|k: int| 0 <= k < a.len() implies (#[trigger] a[k]).name@ == b[k].name@ && a[k].version@ == b[k].version@ by {
        assert(parts_a[k] == dependency_json(a[k]) && parts_b[k] == dependency_json(b[k]));
        assert(dependency_json(a[k]) + Seq::<char>::empty() == dependency_json(b[k]) + Seq::<char>::empty());
        lemma_dependency_is_read_back(a[k], b[k], Seq::empty(), Seq::empty());
    }
}

proof fn lemma_tools_are_read_back(a: Seq<Row<()>>, b: Seq<Row<()>>, behind_a: Seq<char>, behind_b: Seq<char>)
    requires
        tools_json(a) + behind_a == tools_json(b) + behind_b,
        behind_a.len() > 0,
        behind_b.len() > 0,
        behind_a[0] == ']',
        behind_b[0] == ']',
    ensures
        a.len() == b.len(),
        forall|k: int| 0 <= k < a.len() ==> (#[trigger] a[k]).key@ == b[k].key@,
        behind_a == behind_b,
{
    let part_a = |k: int| json_string(a[k].key@);
    let part_b = |k: int| json_string(b[k].key@);
    let parts_a = Seq::new(a.len(), |k: int| part_a(k));
    let parts_b = Seq::new(b.len(), |k: int| part_b(k));
    lemma_joined_is_listed(a.len(), part_a);
    lemma_joined_is_listed(b.len(), part_b);
    assert(told_apart(parts_a, parts_b, ']')) by {
        assert forall|i: int, j: int, u: Seq<char>, v: Seq<char>|
            #![trigger parts_a[i] + u, parts_b[j] + v]
            0 <= i < parts_a.len() && 0 <= j < parts_b.len() && u.len() > 0 && v.len() > 0 && (u[0] == ',' || u[0] == ']')
                && (v[0] == ',' || v[0] == ']') && parts_a[i] + u == parts_b[j] + v implies parts_a[i] == parts_b[j] && u
            == v by {
            law_string_literals_are_read_back(a[i].key@, b[j].key@, u, v);
        }
    }
    assert forall|i: int| 0 <= i < parts_a.len() implies (#[trigger] parts_a[i]).len() > 0 && parts_a[i][0] != ']' by {
        assert(parts_a[i] == json_string(a[i].key@));
    }
    assert forall|i: int| 0 <= i < parts_b.len() implies (#[trigger] parts_b[i]).len() > 0 && parts_b[i][0] != ']' by {
        assert(parts_b[i] == json_string(b[i].key@));
    }
    lemma_lists_are_read_back(parts_a, parts_b, ']', behind_a, behind_b);
    assert(parts_a.len() == a.len() && parts_b.len() == b.len());
    assert forall|k: int| 0 <= k < a.len() implies (#[trigger] a[k]).key@ == b[k].key@ by {
        assert(parts_a[k] == json_string(a[k].key@) && parts_b[k] == json_string(b[k].key@));
        lemma_same_literal(a[k].key@, b[k].key@);
    }
}

proof fn lemma_resource_is_read_back(a: Row<String>, b: Row<String>, behind_a: Seq<char>, behind_b: Seq<char>)
    requires
        resource_json(a) + behind_a == resource_json(b) + behind_b,
    ensures
        a.key@ == b.key@,
        a.value@ == b.value@,
        behind_a == behind_b,
{
    let (ka, va, kb, vb) = (json_string(a.key@), json_string(a.value@), json_string(b.key@), json_string(b.value@));
    lemma_assoc(ka + ":"@, va, behind_a);
    lemma_assoc(ka, ":"@, va + behind_a);
    lemma_assoc(kb + ":"@, vb, behind_b);
    lemma_assoc(kb, ":"@, vb + behind_b);
    law_string_literals_are_read_back(a.key@, b.key@, ":"@ + (va + behind_a), ":"@ + (vb + behind_b));
    lemma_cancel(":"@, va + behind_a, vb + behind_b);
    law_string_literals_are_read_back(a.value@, b.value@, behind_a, behind_b);
}

proof fn lemma_resources_are_read_back(a: Seq<Row<String>>, b: Seq<Row<String>>, behind_a: Seq<char>, behind_b: Seq<char>)
    requires
        resources_json(a) + behind_a == resources_json(b) + behind_b,
        behind_a.len() > 0,
        behind_b.len() > 0,
        behind_a[0] == '}',
        behind_b[0] == '}',
    ensures
        a.len() == b.len(),
        forall|k: int| 0 <= k < a.len() ==> (#[trigger] a[k]).key@ == b[k].key@ && a[k].value@ == b[k].value@,
        behind_a == behind_b,
{
    let part_a = |k: int| resource_json(a[k]);
    let part_b = |k: int| resource_json(b[k]);
    let parts_a = Seq::new(a.len(), |k: int| part_a(k));
    let parts_b = Seq::new(b.len(), |k: int| part_b(k));
    lemma_joined_is_listed(a.len(), part_a);
    lemma_joined_is_listed(b.len(), part_b);
    assert(told_apart(parts_a, parts_b, '}')) by {
        assert forall|i: int, j: int, u: Seq<char>, v: Seq<char>|
            #![trigger parts_a[i] + u, parts_b[j] + v]
            0 <= i < parts_a.len() && 0 <= j < parts_b.len() && u.len() > 0 && v.len() > 0 && (u[0] == ',' || u[0] == '}')
                && (v[0] == ',' || v[0] == '}') && parts_a[i] + u == parts_b[j] + v implies parts_a[i] == parts_b[j] && u
            == v by {
            lemma_resource_is_read_back(a[i], b[j], u, v);
        }
    }
    assert forall|i: int| 0 <= i < parts_a.len() implies (#[trigger] parts_a[i]).len() > 0 && parts_a[i][0] != '}' by {
        assert(parts_a[i] == resource_json(a[i]));
        assert(resource_json(a[i])[0] == '"');
    }
    assert forall|i: int| 0 <= i < parts_b.len() implies (#[trigger] parts_b[i]).len() > 0 && parts_b[i][0] != '}' by {
        assert(parts_b[i] == resource_json(b[i]));
        assert(resource_json(b[i])[0] == '"');
    }
    lemma_lists_are_read_back(parts_a, parts_b, '}', behind_a, behind_b);
    assert(parts_a.len() == a.len() && parts_b.len() == b.len());
    assert forall|k: int| 0 <= k < a.len() implies (#[trigger] a[k]).key@ == b[k].key@ && a[k].value@ == b[k].value@ by {
        assert(parts_a[k] == resource_json(a[k]) && parts_b[k] == resource_json(b[k]));
        assert(resource_json(a[k]) + Seq::<char>::empty() == resource_json(b[k]) + Seq::<char>::empty());
        lemma_resource_is_read_back(a[k], b[k], Seq::empty(), Seq::empty());
    }
}

proof fn lemma_bytes_are_read_back(a: Seq<u8>, b: Seq<u8>, behind_a: Seq<char>, behind_b: Seq<char>)
    requires
        bytes_json(a) + behind_a == bytes_json(b) + behind_b,
        behind_a.len() > 0,
        behind_b.len() > 0,
        behind_a[0] == ']',
        behind_b[0] == ']',
    ensures
        a == b,
        behind_a == behind_b,
{
    let part_a = |k: int| decimal(a[k] as nat);
    let part_b = |k: int| decimal(b[k] as nat);
    let parts_a = Seq::new(a.len(), |k: int| part_a(k));
    let parts_b = Seq::new(b.len(), |k: int| part_b(k));
    lemma_joined_is_listed(a.len(), part_a);
    lemma_joined_is_listed(b.len(), part_b);
    assert(told_apart(parts_a, parts_b, ']')) by {
        assert forall|i: int, j: int, u: Seq<char>, v: Seq<char>|
            #![trigger parts_a[i] + u, parts_b[j] + v]
            0 <= i < parts_a.len() && 0 <= j < parts_b.len() && u.len() > 0 && v.len() > 0 && (u[0] == ',' || u[0] == ']')
                && (v[0] == ',' || v[0] == ']') && parts_a[i] + u == parts_b[j] + v implies parts_a[i] == parts_b[j] && u
            == v by {
            law_decimals_are_read_back(a[i] as nat, b[j] as nat, u, v);
        }
    }
    assert forall|i: int| 0 <= i < parts_a.len() implies (#[trigger] parts_a[i]).len() > 0 && parts_a[i][0] != ']' by {
        assert(parts_a[i] == decimal(a[i] as nat));
        lemma_decimal_begins(a[i] as nat);
    }
    assert forall|i: int| 0 <= i < parts_b.len() implies (#[trigger] parts_b[i]).len() > 0 && parts_b[i][0] != ']' by {
        assert(parts_b[i] == decimal(b[i] as nat));
        lemma_decimal_begins(b[i] as nat);
    }
    lemma_lists_are_read_back(parts_a, parts_b, ']', behind_a, behind_b);
    assert(parts_a.len() == a.len() && parts_b.len() == b.len());
    assert forall|k: int| 0 <= k < a.len() implies a[k] == b[k] by {
        assert(parts_a[k] == decimal(a[k] as nat) && parts_b[k] == decimal(b[k] as nat));
        law_decimals_are_read_back(a[k] as nat, b[k] as nat, seq![']'], seq![']']);
    }
    assert(a =~= b);
}

proof fn lemma_decimal_begins(value: nat)
    ensures
        decimal(value).len() > 0,
        '0' <= decimal(value)[0] <= '9',
    decreases value,
{
    if value >= 10 {
        lemma_decimal_begins(value / 10);
    }
}

/// What follows the dependencies of a manifest.
spec fn behind_dependencies(m: SkillManifest, behind: Seq<char>) -> Seq<char> {
    "],\"required_tools\":["@ + (tools_json(m.required_tools.rows()) + ("]}"@ + behind))
}

/// What follows the description of a manifest.
spec fn behind_description(m: SkillManifest, behind: Seq<char>) -> Seq<char> {
    ",\"estimated_tokens\":"@ + (decimal(m.estimated_tokens as nat) + (",\"dependencies\":["@ + (dependencies_json(m.dependencies@)
        + behind_dependencies(m, behind))))
}

/// What follows the name of a manifest.
spec fn behind_name(m: SkillManifest, behind: Seq<char>) -> Seq<char> {
    ",\"version\":"@ + (json_string(m.version@) + (",\"description\":"@ + (json_string(m.description@)
        + behind_description(m, behind))))
}

proof fn lemma_manifest_shape(m: SkillManifest, behind: Seq<char>)
    ensures
        manifest_json(m) + behind == "{\"api_version\":"@ + (json_string(m.api_version@) + (",\"name\":"@ + (json_string(
            m.name@,
        ) + behind_name(m, behind)))),
{
    let a0 = "{\"api_version\":"@;
    let api = json_string(m.api_version@);
    let a1 = ",\"name\":"@;
    let name = json_string(m.name@);
    let a2 = ",\"version\":"@;
    let version = json_string(m.version@);
    let a3 = ",\"description\":"@;
    let description = json_string(m.description@);
    let a4 = ",\"estimated_tokens\":"@;
    let tokens = decimal(m.estimated_tokens as nat);
    let a5 = ",\"dependencies\":["@;
    let dependencies = dependencies_json(m.dependencies@);
    let a6 = "],\"required_tools\":["@;
    let tools = tools_json(m.required_tools.rows());
    let a7 = "]}"@;
    let s1 = a0 + api;
    let s2 = s1 + a1;
    let s3 = s2 + name;
    let s4 = s3 + a2;
    let s5 = s4 + version;
    let s6 = s5 + a3;
    let s7 = s6 + description;
    let s8 = s7 + a4;
    let s9 = s8 + tokens;
    let s10 = s9 + a5;
    let s11 = s10 + dependencies;
    let s12 = s11 + a6;
    let s13 = s12 + tools;
    let s14 = s13 + a7;
    let t15 = behind;
    lemma_assoc(s13, a7, t15);
    let t14 = a7 + t15;
    lemma_assoc(s12, tools, t14);
    let t13 = tools + t14;
    lemma_assoc(s11, a6, t13);
    let t12 = a6 + t13;
    lemma_assoc(s10, dependencies, t12);
    let t11 = dependencies + t12;
    lemma_assoc(s9, a5, t11);
    let t10 = a5 + t11;
    lemma_assoc(s8, tokens, t10);
    let t9 = tokens + t10;
    lemma_assoc(s7, a4, t9);
    let t8 = a4 + t9;
    lemma_assoc(s6, description, t8);
    let t7 = description + t8;
    lemma_assoc(s5, a3, t7);
    let t6 = a3 + t7;
    lemma_assoc(s4, version, t6);
    let t5 = version + t6;
    lemma_assoc(s3, a2, t5);
    let t4 = a2 + t5;
    lemma_assoc(s2, name, t4);
    let t3 = name + t4;
    lemma_assoc(s1, a1, t3);
    let t2 = a1 + t3;
    lemma_assoc(a0, api, t2);
    let t1 = api + t2;
}

proof fn lemma_manifest_end(a: SkillManifest, b: SkillManifest, behind_a: Seq<char>, behind_b: Seq<char>)
    requires
        behind_description(a, behind_a) == behind_description(b, behind_b),
    ensures
        a.estimated_tokens == b.estimated_tokens,
        a.dependencies@.len() == b.dependencies@.len(),
        forall|k: int|
            0 <= k < a.dependencies@.len() ==> (#[trigger] a.dependencies@[k]).name@ == b.dependencies@[k].name@
                && a.dependencies@[k].version@ == b.dependencies@[k].version@,
        a.required_tools.rows().len() == b.required_tools.rows().len(),
        forall|k: int|
            0 <= k < a.required_tools.rows().len() ==> (#[trigger] a.required_tools.rows()[k]).key@
                == b.required_tools.rows()[k].key@,
        behind_a == behind_b,
{
    reveal_strlit(",\"dependencies\":[");
    reveal_strlit("],\"required_tools\":[");
    reveal_strlit("]}");
    let (fifth, last) = (",\"dependencies\":["@, "]}"@);
    let (list_a, list_b) = (
        dependencies_json(a.dependencies@) + behind_dependencies(a, behind_a),
        dependencies_json(b.dependencies@) + behind_dependencies(b, behind_b),
    );
    lemma_cancel(
        ",\"estimated_tokens\":"@,
        decimal(a.estimated_tokens as nat) + (fifth + list_a),
        decimal(b.estimated_tokens as nat) + (fifth + list_b),
    );
    law_decimals_are_read_back(a.estimated_tokens as nat, b.estimated_tokens as nat, fifth + list_a, fifth + list_b);
    lemma_cancel(fifth, list_a, list_b);
    lemma_dependencies_are_read_back(
        a.dependencies@,
        b.dependencies@,
        behind_dependencies(a, behind_a),
        behind_dependencies(b, behind_b),
    );
    lemma_cancel(
        "],\"required_tools\":["@,
        tools_json(a.required_tools.rows()) + (last + behind_a),
        tools_json(b.required_tools.rows()) + (last + behind_b),
    );
    lemma_tools_are_read_back(a.required_tools.rows(), b.required_tools.rows(), last + behind_a, last + behind_b);
    lemma_cancel(last, behind_a, behind_b);
}

proof fn lemma_manifest_is_read_back(a: SkillManifest, b: SkillManifest, behind_a: Seq<char>, behind_b: Seq<char>)
    requires
        manifest_json(a) + behind_a == manifest_json(b) + behind_b,
    ensures
        same_manifest(a, b),
        behind_a == behind_b,
{
    lemma_manifest_shape(a, behind_a);
    lemma_manifest_shape(b, behind_b);
    let (name_a, name_b) = (json_string(a.name@) + behind_name(a, behind_a), json_string(b.name@) + behind_name(b, behind_b));
    let first = ",\"name\":"@;
    lemma_cancel("{\"api_version\":"@, json_string(a.api_version@) + (first + name_a), json_string(b.api_version@) + (first + name_b));
    law_string_literals_are_read_back(a.api_version@, b.api_version@, first + name_a, first + name_b);
    lemma_cancel(first, name_a, name_b);
    law_string_literals_are_read_back(a.name@, b.name@, behind_name(a, behind_a), behind_name(b, behind_b));
    let (text_a, text_b) = (
        json_string(a.description@) + behind_description(a, behind_a),
        json_string(b.description@) + behind_description(b, behind_b),
    );
    let third = ",\"description\":"@;
    lemma_cancel(",\"version\":"@, json_string(a.version@) + (third + text_a), json_string(b.version@) + (third + text_b));
    law_string_literals_are_read_back(a.version@, b.version@, third + text_a, third + text_b);
    lemma_cancel(third, text_a, text_b);
    law_string_literals_are_read_back(
        a.description@,
        b.description@,
        behind_description(a, behind_a),
        behind_description(b, behind_b),
    );
    lemma_manifest_end(a, b, behind_a, behind_b);
}

/// Whether two manifests say the same.
pub open spec fn same_manifest(a: SkillManifest, b: SkillManifest) -> bool {
    &&& a.api_version@ == b.api_version@
    &&& a.name@ == b.name@
    &&& a.version@ == b.version@
    &&& a.description@ == b.description@
    &&& a.estimated_tokens == b.estimated_tokens
    &&& a.dependencies@.len() == b.dependencies@.len()
    &&& forall|k: int|
        0 <= k < a.dependencies@.len() ==> (#[trigger] a.dependencies@[k]).name@ == b.dependencies@[k].name@
            && a.dependencies@[k].version@ == b.dependencies@[k].version@
    &&& a.required_tools.rows().len() == b.required_tools.rows().len()
    &&& forall|k: int|
        0 <= k < a.required_tools.rows().len() ==> (#[trigger] a.required_tools.rows()[k]).key@
            == b.required_tools.rows()[k].key@
}

/// Whether resources have the same paths and texts.
pub open spec fn same_resources(a: Seq<Row<String>>, b: Seq<Row<String>>) -> bool {
    a.len() == b.len() && forall|k: int|
        0 <= k < a.len() ==> (#[trigger] a[k]).key@ == b[k].key@ && a[k].value@ == b[k].value@
}

proof fn lemma_package_shape(manifest: SkillManifest, instructions: Seq<char>, resources: Seq<Row<String>>)
    ensures
        canonical_package(manifest, instructions, resources) == "{\"manifest\":"@ + (manifest_json(manifest) + (
        ",\"instructions\":"@ + (json_string(instructions) + (",\"resources\":{"@ + (resources_json(resources) + "}}"@))))),
{
    let (a, b, c, d, e, f, g) = (
        "{\"manifest\":"@,
        manifest_json(manifest),
        ",\"instructions\":"@,
        json_string(instructions),
        ",\"resources\":{"@,
        resources_json(resources),
        "}}"@,
    );
    lemma_assoc(a + b + c + d + e, f, g);
    lemma_assoc(a + b + c + d, e, f + g);
    lemma_assoc(a + b + c, d, e + (f + g));
    lemma_assoc(a + b, c, d + (e + (f + g)));
    lemma_assoc(a, b, c + (d + (e + (f + g))));
}

/// What a package is digested from determines the package: equal canonical
/// texts have the same manifest, field by field, the same instructions and the
/// same resources.
pub proof fn law_canonical_packages_are_told_apart(
    manifest: SkillManifest,
    instructions: Seq<char>,
    resources: Seq<Row<String>>,
    other_manifest: SkillManifest,
    other_instructions: Seq<char>,
    other_resources: Seq<Row<String>>,
)
    requires
        canonical_package(manifest, instructions, resources) == canonical_package(
            other_manifest,
            other_instructions,
            other_resources,
        ),
    ensures
        same_manifest(manifest, other_manifest),
        instructions == other_instructions,
        same_resources(resources, other_resources),
{
    reveal_strlit("}}");
    lemma_package_shape(manifest, instructions, resources);
    lemma_package_shape(other_manifest, other_instructions, other_resources);
    let (third, fifth, close) = (",\"instructions\":"@, ",\"resources\":{"@, "}}"@);
    let (list_a, list_b) = (resources_json(resources) + close, resources_json(other_resources) + close);
    let (text_a, text_b) = (json_string(instructions) + (fifth + list_a), json_string(other_instructions) + (fifth + list_b));
    lemma_cancel(
        "{\"manifest\":"@,
        manifest_json(manifest) + (third + text_a),
        manifest_json(other_manifest) + (third + text_b),
    );
    lemma_manifest_is_read_back(manifest, other_manifest, third + text_a, third + text_b);
    lemma_cancel(third, text_a, text_b);
    law_string_literals_are_read_back(instructions, other_instructions, fifth + list_a, fifth + list_b);
    lemma_cancel(fifth, list_a, list_b);
    lemma_resources_are_read_back(resources, other_resources, close, close);
}

proof fn lemma_same_bytes(a: Seq<char>, b: Seq<char>)
    requires
        encode_utf8(a) == encode_utf8(b),
    ensures
        a == b,
{
    encode_utf8_decode_utf8(a);
    encode_utf8_decode_utf8(b);
}

/// Packages with one digest are one package, up to a collision of SHA-256.
pub proof fn law_content_digests_vouch_for_the_package(
    manifest: SkillManifest,
    instructions: Seq<char>,
    resources: Seq<Row<String>>,
    other_manifest: SkillManifest,
    other_instructions: Seq<char>,
    other_resources: Seq<Row<String>>,
)
    requires
        content_digest(manifest, instructions, resources) is Ok,
        content_digest(manifest, instructions, resources) == content_digest(
            other_manifest,
            other_instructions,
            other_resources,
        ),
    ensures
        sha256_collides() || (same_manifest(manifest, other_manifest) && instructions == other_instructions && same_resources(
            resources,
            other_resources,
        )),
{
    let text = canonical_package(manifest, instructions, resources);
    let other = canonical_package(other_manifest, other_instructions, other_resources);
    law_equal_digests_have_equal_bytes(encode_utf8(text), encode_utf8(other));
    if !sha256_collides() {
        lemma_same_bytes(text, other);
        law_canonical_packages_are_told_apart(
            manifest,
            instructions,
            resources,
            other_manifest,
            other_instructions,
            other_resources,
        );
    }
}

/// A publisher signs one digest.
pub proof fn law_publishers_sign_one_digest(content_sha256: Seq<char>, other: Seq<char>)
    requires
        encode_utf8(publisher_message(content_sha256)) == encode_utf8(publisher_message(other)),
    ensures
        content_sha256 == other,
{
    lemma_same_bytes(publisher_message(content_sha256), publisher_message(other));
    lemma_cancel("y-harness-skill-v1\0"@, content_sha256, other);
}

/// What follows the entry of a receipt.
spec fn behind_entry(integrated_at_ms: u64, content_sha256: Seq<char>, key_id: Seq<char>, signature: Seq<u8>) -> Seq<char> {
    ",\"integrated_at_ms\":"@ + (decimal(integrated_at_ms as nat) + (",\"content_sha256\":"@ + (json_string(content_sha256) + behind_digest(
        key_id,
        signature,
    ))))
}

/// What follows the digest of a receipt.
spec fn behind_digest(key_id: Seq<char>, signature: Seq<u8>) -> Seq<char> {
    ",\"publisher_key_id\":"@ + (json_string(key_id) + (",\"publisher_signature\":["@ + (bytes_json(signature) + "]}"@)))
}

proof fn lemma_receipt_shape(
    log_id: Seq<char>,
    entry_id: Seq<char>,
    integrated_at_ms: u64,
    content_sha256: Seq<char>,
    key_id: Seq<char>,
    signature: Seq<u8>,
)
    ensures
        transparency_message(log_id, entry_id, integrated_at_ms, content_sha256, key_id, signature) == "y-harness-skill-transparency-v1\0"@ + ("{\"log_id\":"@ + (
        json_string(log_id) + (",\"entry_id\":"@ + (json_string(entry_id) + behind_entry(
            integrated_at_ms,
            content_sha256,
            key_id,
            signature,
        ))))),
{
    let b0 = "y-harness-skill-transparency-v1\0"@;
    let b1 = "{\"log_id\":"@;
    let log = json_string(log_id);
    let b2 = ",\"entry_id\":"@;
    let entry = json_string(entry_id);
    let b3 = ",\"integrated_at_ms\":"@;
    let time = decimal(integrated_at_ms as nat);
    let b4 = ",\"content_sha256\":"@;
    let digest = json_string(content_sha256);
    let b5 = ",\"publisher_key_id\":"@;
    let key = json_string(key_id);
    let b6 = ",\"publisher_signature\":["@;
    let bytes = bytes_json(signature);
    let b7 = "]}"@;
    let s1 = b0 + b1;
    let s2 = s1 + log;
    let s3 = s2 + b2;
    let s4 = s3 + entry;
    let s5 = s4 + b3;
    let s6 = s5 + time;
    let s7 = s6 + b4;
    let s8 = s7 + digest;
    let s9 = s8 + b5;
    let s10 = s9 + key;
    let s11 = s10 + b6;
    let s12 = s11 + bytes;
    let t13 = b7;
    lemma_assoc(s11, bytes, t13);
    let t12 = bytes + t13;
    lemma_assoc(s10, b6, t12);
    let t11 = b6 + t12;
    lemma_assoc(s9, key, t11);
    let t10 = key + t11;
    lemma_assoc(s8, b5, t10);
    let t9 = b5 + t10;
    lemma_assoc(s7, digest, t9);
    let t8 = digest + t9;
    lemma_assoc(s6, b4, t8);
    let t7 = b4 + t8;
    lemma_assoc(s5, time, t7);
    let t6 = time + t7;
    lemma_assoc(s4, b3, t6);
    let t5 = b3 + t6;
    lemma_assoc(s3, entry, t5);
    let t4 = entry + t5;
    lemma_assoc(s2, b2, t4);
    let t3 = b2 + t4;
    lemma_assoc(s1, log, t3);
    let t2 = log + t3;
    lemma_assoc(b0, b1, t2);
    let t1 = b1 + t2;
}

/// What a log signs determines the receipt: equal messages have the same log,
/// entry, time, digest, publisher key and publisher signature.
pub proof fn law_receipts_are_told_apart(
    log_id: Seq<char>,
    entry_id: Seq<char>,
    integrated_at_ms: u64,
    content_sha256: Seq<char>,
    key_id: Seq<char>,
    signature: Seq<u8>,
    other_log_id: Seq<char>,
    other_entry_id: Seq<char>,
    other_integrated_at_ms: u64,
    other_content_sha256: Seq<char>,
    other_key_id: Seq<char>,
    other_signature: Seq<u8>,
)
    requires
        encode_utf8(transparency_message(log_id, entry_id, integrated_at_ms, content_sha256, key_id, signature))
            == encode_utf8(
            transparency_message(
                other_log_id,
                other_entry_id,
                other_integrated_at_ms,
                other_content_sha256,
                other_key_id,
                other_signature,
            ),
        ),
    ensures
        log_id == other_log_id,
        entry_id == other_entry_id,
        integrated_at_ms == other_integrated_at_ms,
        content_sha256 == other_content_sha256,
        key_id == other_key_id,
        signature == other_signature,
{
    lemma_same_bytes(
        transparency_message(log_id, entry_id, integrated_at_ms, content_sha256, key_id, signature),
        transparency_message(
            other_log_id,
            other_entry_id,
            other_integrated_at_ms,
            other_content_sha256,
            other_key_id,
            other_signature,
        ),
    );
    lemma_receipt_shape(log_id, entry_id, integrated_at_ms, content_sha256, key_id, signature);
    lemma_receipt_shape(
        other_log_id,
        other_entry_id,
        other_integrated_at_ms,
        other_content_sha256,
        other_key_id,
        other_signature,
    );
    let entry_a = json_string(entry_id) + behind_entry(integrated_at_ms, content_sha256, key_id, signature);
    let entry_b = json_string(other_entry_id) + behind_entry(
        other_integrated_at_ms,
        other_content_sha256,
        other_key_id,
        other_signature,
    );
    let second = ",\"entry_id\":"@;
    let (log_a, log_b) = (json_string(log_id) + (second + entry_a), json_string(other_log_id) + (second + entry_b));
    lemma_cancel("y-harness-skill-transparency-v1\0"@, "{\"log_id\":"@ + log_a, "{\"log_id\":"@ + log_b);
    lemma_cancel("{\"log_id\":"@, log_a, log_b);
    law_string_literals_are_read_back(log_id, other_log_id, second + entry_a, second + entry_b);
    lemma_cancel(second, entry_a, entry_b);
    law_string_literals_are_read_back(
        entry_id,
        other_entry_id,
        behind_entry(integrated_at_ms, content_sha256, key_id, signature),
        behind_entry(other_integrated_at_ms, other_content_sha256, other_key_id, other_signature),
    );
    lemma_receipt_end(
        integrated_at_ms,
        content_sha256,
        key_id,
        signature,
        other_integrated_at_ms,
        other_content_sha256,
        other_key_id,
        other_signature,
    );
}

proof fn lemma_receipt_end(
    integrated_at_ms: u64,
    content_sha256: Seq<char>,
    key_id: Seq<char>,
    signature: Seq<u8>,
    other_integrated_at_ms: u64,
    other_content_sha256: Seq<char>,
    other_key_id: Seq<char>,
    other_signature: Seq<u8>,
)
    requires
        behind_entry(integrated_at_ms, content_sha256, key_id, signature) == behind_entry(
            other_integrated_at_ms,
            other_content_sha256,
            other_key_id,
            other_signature,
        ),
    ensures
        integrated_at_ms == other_integrated_at_ms,
        content_sha256 == other_content_sha256,
        key_id == other_key_id,
        signature == other_signature,
{
    reveal_strlit(",\"content_sha256\":");
    reveal_strlit("]}");
    let (fourth, sixth, close) = (",\"content_sha256\":"@, ",\"publisher_signature\":["@, "]}"@);
    let digest_a = json_string(content_sha256) + behind_digest(key_id, signature);
    let digest_b = json_string(other_content_sha256) + behind_digest(other_key_id, other_signature);
    lemma_cancel(
        ",\"integrated_at_ms\":"@,
        decimal(integrated_at_ms as nat) + (fourth + digest_a),
        decimal(other_integrated_at_ms as nat) + (fourth + digest_b),
    );
    law_decimals_are_read_back(
        integrated_at_ms as nat,
        other_integrated_at_ms as nat,
        fourth + digest_a,
        fourth + digest_b,
    );
    lemma_cancel(fourth, digest_a, digest_b);
    law_string_literals_are_read_back(
        content_sha256,
        other_content_sha256,
        behind_digest(key_id, signature),
        behind_digest(other_key_id, other_signature),
    );
    let (bytes_a, bytes_b) = (bytes_json(signature) + close, bytes_json(other_signature) + close);
    lemma_cancel(",\"publisher_key_id\":"@, json_string(key_id) + (sixth + bytes_a), json_string(other_key_id) + (sixth + bytes_b));
    law_string_literals_are_read_back(key_id, other_key_id, sixth + bytes_a, sixth + bytes_b);
    lemma_cancel(sixth, bytes_a, bytes_b);
    lemma_bytes_are_read_back(signature, other_signature, close, close);
}

} // verus!
