//! Paths of named resources.

use vstd::prelude::*;

use crate::error::{settles, ErrorView, HarnessError};
use crate::text::{join3, quoted, quoted_text};

verus! {

/// Parts of a path between its slashes.
pub open spec fn components(path: Seq<char>) -> Seq<Seq<char>>
    decreases path.len(),
{
    if path.len() == 0 {
        seq![Seq::empty()]
    } else {
        let earlier = components(path.drop_last());
        if path.last() == '/' {
            earlier.push(Seq::empty())
        } else {
            earlier.drop_last().push(earlier.last().push(path.last()))
        }
    }
}

/// Whether a part names something below its parent.
pub open spec fn component_is_normal(component: Seq<char>) -> bool {
    component.len() > 0 && component != seq!['.'] && component != seq!['.', '.']
}

/// Whether a path is relative, uses slashes, and never leaves its root.
pub open spec fn path_is_normal(path: Seq<char>) -> bool {
    &&& path.len() > 0
    &&& forall|i: int| 0 <= i < path.len() ==> #[trigger] path[i] != '\\'
    &&& forall|k: int| 0 <= k < components(path).len() ==> component_is_normal(#[trigger] components(path)[k])
}

proof fn lemma_components_nonempty(path: Seq<char>)
    ensures
        components(path).len() > 0,
    decreases path.len(),
{
    if path.len() > 0 {
        lemma_components_nonempty(path.drop_last());
    }
}

/// Whether a part consists of dots.
spec fn only_dots(component: Seq<char>) -> bool {
    forall|i: int| 0 <= i < component.len() ==> #[trigger] component[i] == '.'
}

proof fn lemma_dots_decide(component: Seq<char>)
    ensures
        component_is_normal(component) <==> component.len() > 0 && !(only_dots(component) && component.len() <= 2),
{
    if only_dots(component) && component.len() == 1 {
        assert(component =~= seq!['.']);
    }
    if only_dots(component) && component.len() == 2 {
        assert(component =~= seq!['.', '.']);
    }
    if component == seq!['.'] {
        assert(only_dots(component));
    }
    if component == seq!['.', '.'] {
        assert(only_dots(component));
    }
}

/// Decides whether a path is normal.
pub fn normal_path(path: &str) -> (result: bool)
    ensures
        result == path_is_normal(path@),
{
    let mut length: usize = 0;
    let mut dots: bool = true;
    let mut normal: bool = true;
    let mut empty: bool = true;
    let ghost mut seen: Seq<char> = Seq::empty();
    for c in it: path.chars()
        invariant
            it.seq() == path@,
            seen == path@.take(it.index()),
            empty == (seen.len() == 0),
            components(seen).len() > 0,
            length == components(seen).last().len() || (length == 3 && components(seen).last().len() >= 3),
            length <= 3,
            dots == only_dots(components(seen).last()),
            normal == ((forall|i: int| 0 <= i < seen.len() ==> #[trigger] seen[i] != '\\') && forall|k: int|
                0 <= k < components(seen).len() - 1 ==> component_is_normal(#[trigger] components(seen)[k])),
    {
        let ghost before = seen;
        let ghost parts = components(before);
        proof {
            assert(path@[it.index()] == c);
            seen = path@.take(it.index() + 1);
            assert(seen.drop_last() =~= before);
            assert(seen.last() == c);
            lemma_components_nonempty(seen);
            lemma_dots_decide(parts.last());
            assert(forall|i: int| 0 <= i < before.len() ==> seen[i] == before[i]);
        }
        empty = false;
        if c == '\\' {
            assert(seen[before.len() as int] == '\\');
            normal = false;
        }
        if c == '/' {
            if length == 0 || (dots && length <= 2) {
                assert(components(seen)[parts.len() - 1] == parts.last());
                normal = false;
            }
            proof {
                assert(components(seen) =~= parts.push(Seq::empty()));
                assert(forall|k: int| 0 <= k < parts.len() ==> components(seen)[k] == parts[k]);
            }
            length = 0;
            dots = true;
        } else {
            proof {
                let grown = parts.last().push(c);
                assert(components(seen) =~= parts.drop_last().push(grown));
                assert(forall|k: int| 0 <= k < parts.len() - 1 ==> components(seen)[k] == parts[k]);
                assert(grown[parts.last().len() as int] == c);
                assert(components(seen).last() == grown);
                assert(only_dots(grown) == (only_dots(parts.last()) && c == '.')) by {
                    if only_dots(grown) {
                        assert forall|i: int| 0 <= i < parts.last().len() implies #[trigger] parts.last()[i] == '.' by {
                            assert(grown[i] == parts.last()[i]);
                        }
                    }
                }
            }
            if length < 3 {
                length += 1;
            }
            if c != '.' {
                dots = false;
            }
        }
    }
    proof {
        assert(seen =~= path@);
        lemma_dots_decide(components(path@).last());
    }
    !empty && normal && !(length == 0 || (dots && length <= 2))
}

/// Outcome of checking the path of a resource.
pub open spec fn path_check(path: Seq<char>) -> Result<(), ErrorView> {
    if path_is_normal(path) {
        Ok(())
    } else {
        Err(
            ErrorView::Skill(
                "Skill resource path "@ + quoted(path) + " must be a normalized relative slash path"@,
            ),
        )
    }
}

/// Checks the path of a resource.
pub fn validate_resource_path(path: &str) -> (result: Result<(), HarnessError>)
    ensures
        settles(result, path_check(path@)),
{
    if normal_path(path) {
        return Ok(());
    }
    let shown = quoted_text(path);
    Err(
        HarnessError::Skill(
            join3("Skill resource path ", shown.as_str(), " must be a normalized relative slash path"),
        ),
    )
}

} // verus!
