//! Exact semantic versions and Skill identities.

use vstd::prelude::*;

use crate::table::{
    law_texts_are_ordered, lemma_before_asymmetric, lemma_before_irreflexive, lemma_before_transitive, rank, text_before, Rank,
};
use crate::text::{join3, same_text};

verus! {

/// Whether `semver` accepts a text as a version.
pub uninterp spec fn is_version(text: Seq<char>) -> bool;

/// Whether one version comes strictly before another, as `semver` orders them.
pub uninterp spec fn version_before(a: Seq<char>, b: Seq<char>) -> bool;

/// `semver::Version::parse`: whether the text is a version.
#[verifier::external_body]
fn accepts(text: &str) -> (result: bool)
    ensures
        result == is_version(text@),
{
    semver::Version::parse(text).is_ok()
}

/// `semver::Version::cmp`: a total order of versions. Two versions are equal
/// only where their texts are, because parsing keeps every character and
/// accepts no second spelling of a number.
#[verifier::external_body]
fn rank_versions(a: &str, b: &str) -> (result: Rank)
    requires
        is_version(a@),
        is_version(b@),
    ensures
        result is Before <==> version_before(a@, b@),
        result is After <==> version_before(b@, a@),
        result is Same <==> a@ == b@,
        result is Before ==> forall|c: Seq<char>| #[trigger] version_before(b@, c) ==> version_before(a@, c),
        result is Before ==> forall|c: Seq<char>| #[trigger] version_before(c, a@) ==> version_before(c, b@),
        result is After ==> forall|c: Seq<char>| #[trigger] version_before(a@, c) ==> version_before(b@, c),
        result is After ==> forall|c: Seq<char>| #[trigger] version_before(c, b@) ==> version_before(c, a@),
{
    let (a, b) = (semver::Version::parse(a).unwrap(), semver::Version::parse(b).unwrap());
    match a.cmp(&b) {
        std::cmp::Ordering::Less => Rank::Before,
        std::cmp::Ordering::Equal => Rank::Same,
        std::cmp::Ordering::Greater => Rank::After,
    }
}

/// Exact semantic version, held as its text.
#[derive(Debug, PartialEq, Eq)]
pub struct Version {
    text: String,
}

impl View for Version {
    type V = Seq<char>;

    closed spec fn view(&self) -> Seq<char> {
        self.text@
    }
}

impl Clone for Version {
    fn clone(&self) -> (result: Self)
        ensures
            result == *self,
    {
        proof {
            use_type_invariant(self);
        }
        Version { text: self.text.clone() }
    }
}

impl Version {
    #[verifier::type_invariant]
    spec fn accepted(self) -> bool {
        is_version(self.text@)
    }

    /// Takes a text that is a version.
    pub fn parse(text: &str) -> (version: Option<Self>)
        ensures
            match version {
                Some(version) => is_version(text@) && version@ == text@,
                None => !is_version(text@),
            },
    {
        if accepts(text) {
            Some(Version { text: text.to_owned() })
        } else {
            None
        }
    }

    /// Returns the version as text.
    pub fn as_str(&self) -> (text: &str)
        ensures
            text@ == self@,
            is_version(text@),
    {
        proof {
            use_type_invariant(self);
        }
        self.text.as_str()
    }

    /// Decides whether two versions are the same.
    pub fn same(&self, other: &Self) -> (result: bool)
        ensures
            result == (self@ == other@),
    {
        same_text(self.text.as_str(), other.text.as_str())
    }
}

/// Exact Skill identity used for selection and dependency pins.
#[derive(Debug, PartialEq, Eq)]
pub struct SkillId {
    /// Stable registry name.
    pub name: String,
    /// Exact semantic version.
    pub version: Version,
}

/// Identity as texts.
pub struct SkillIdView {
    /// Name.
    pub name: Seq<char>,
    /// Version.
    pub version: Seq<char>,
}

impl View for SkillId {
    type V = SkillIdView;

    open spec fn view(&self) -> SkillIdView {
        SkillIdView { name: self.name@, version: self.version@ }
    }
}

impl Clone for SkillId {
    fn clone(&self) -> (result: Self)
        ensures
            result == *self,
    {
        SkillId { name: self.name.clone(), version: self.version.clone() }
    }
}

impl SkillIdView {
    /// Identity as it is shown in messages.
    pub open spec fn shown(self) -> Seq<char> {
        self.name + "@"@ + self.version
    }

    /// Order of identities: by name, then by version.
    pub open spec fn before(self, other: SkillIdView) -> bool {
        text_before(self.name, other.name) || (self.name == other.name && version_before(self.version, other.version))
    }
}

impl SkillId {
    /// Returns the identity as it is shown in messages.
    pub fn shown(&self) -> (text: String)
        ensures
            text@ == self@.shown(),
    {
        join3(self.name.as_str(), "@", self.version.as_str())
    }

    /// Decides whether two identities are the same.
    pub fn same(&self, other: &Self) -> (result: bool)
        ensures
            result == (self@ == other@),
    {
        same_text(self.name.as_str(), other.name.as_str()) && self.version.same(&other.version)
    }

    /// Places an identity against another.
    pub fn rank(&self, other: &Self) -> (result: Rank)
        ensures
            result is Before <==> self@.before(other@),
            result is After <==> other@.before(self@),
            result is Same <==> self@ == other@,
            result is Before ==> forall|c: SkillIdView| #[trigger] other@.before(c) ==> self@.before(c),
            result is Before ==> forall|c: SkillIdView| #[trigger] c.before(self@) ==> c.before(other@),
            result is After ==> forall|c: SkillIdView| #[trigger] self@.before(c) ==> other@.before(c),
            result is After ==> forall|c: SkillIdView| #[trigger] c.before(other@) ==> c.before(self@),
    {
        match rank(self.name.as_str(), other.name.as_str()) {
            Rank::Before => {
                proof {
                    lemma_before_asymmetric(self@.name, other@.name);
                    lemma_before_irreflexive(self@.name);
                    assert forall|c: SkillIdView| #[trigger] other@.before(c) implies self@.before(c) by {
                        if text_before(other@.name, c.name) {
                            lemma_before_transitive(self@.name, other@.name, c.name);
                        }
                    }
                    assert forall|c: SkillIdView| #[trigger] c.before(self@) implies c.before(other@) by {
                        if text_before(c.name, self@.name) {
                            lemma_before_transitive(c.name, self@.name, other@.name);
                        }
                    }
                }
                Rank::Before
            },
            Rank::After => {
                proof {
                    lemma_before_asymmetric(other@.name, self@.name);
                    lemma_before_irreflexive(self@.name);
                    assert forall|c: SkillIdView| #[trigger] self@.before(c) implies other@.before(c) by {
                        if text_before(self@.name, c.name) {
                            lemma_before_transitive(other@.name, self@.name, c.name);
                        }
                    }
                    assert forall|c: SkillIdView| #[trigger] c.before(other@) implies c.before(self@) by {
                        if text_before(c.name, other@.name) {
                            lemma_before_transitive(c.name, other@.name, self@.name);
                        }
                    }
                }
                Rank::After
            },
            Rank::Same => {
                proof {
                    lemma_before_irreflexive(self@.name);
                }
                rank_versions(self.version.as_str(), other.version.as_str())
            },
        }
    }
}

/// Packages are ordered by name, and by version where the name is the same.
pub proof fn law_names_come_before_versions(a: SkillIdView, b: SkillIdView)
    ensures
        a.name == b.name ==> (a.before(b) <==> version_before(a.version, b.version)),
        a.name != b.name ==> (a.before(b) <==> text_before(a.name, b.name)),
        a.name != b.name ==> a.before(b) != b.before(a),
{
    law_texts_are_ordered(a.name, b.name);
}

} // verus!
