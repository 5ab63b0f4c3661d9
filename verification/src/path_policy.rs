//! Which paths the agent observes: a path is watched unless an exclude
//! matches it, and, where includes are given, only if it lies under one.
//! Paths are compared component by component, as the standard library
//! splits them.

use vstd::prelude::*;
use std::path::Path;
use crate::text::{chars_of, same_text, texts_of};

verus! {

/// The components of a path, each as text: the root as `/`, then the names
/// between the separators.
pub uninterp spec fn components_of(path: Seq<char>) -> Seq<Seq<char>>;

/// The components of a path.
///
/// Wraps `Path::components`, which depends on the text of the path alone,
/// and hands out each component by `Component::as_os_str`. A path given
/// as a string has components that are strings.
#[verifier::external_body]
fn path_components(path: &str) -> (parts: Vec<String>)
    ensures
        texts_of(parts@) == components_of(path@),
{
    Path::new(path).components().map(|c| c.as_os_str().to_string_lossy().into_owned()).collect()
}

/// Whether a path is absolute: it starts with a slash.
pub open spec fn is_absolute(path: Seq<char>) -> bool {
    path.len() > 0 && path[0] == '/'
}

/// Whether `path` lies under `base`: the components of `base` are the
/// first components of `path`.
pub open spec fn under(path: Seq<char>, base: Seq<char>) -> bool {
    components_of(base).is_prefix_of(components_of(path))
}

/// Whether an exclude matches a path: an absolute exclude matches the
/// paths under it, a relative one the paths with a component that is the
/// exclude.
pub open spec fn exclude_matches(exclude: Seq<char>, path: Seq<char>) -> bool {
    if is_absolute(exclude) {
        under(path, exclude)
    } else {
        components_of(path).contains(exclude)
    }
}

/// Whether one of the excludes matches a path.
pub open spec fn excluded(excludes: Seq<Seq<char>>, path: Seq<char>) -> bool {
    exists|i: int| 0 <= i < excludes.len() && exclude_matches(#[trigger] excludes[i], path)
}

/// Whether a path lies under one of the includes.
pub open spec fn included(includes: Seq<Seq<char>>, path: Seq<char>) -> bool {
    exists|i: int| 0 <= i < includes.len() && under(path, #[trigger] includes[i])
}

/// Whether a path is watched: no exclude matches it, and it lies under an
/// include or there is no include.
pub open spec fn watched(includes: Seq<Seq<char>>, excludes: Seq<Seq<char>>, path: Seq<char>) -> bool {
    !excluded(excludes, path) && (includes.len() == 0 || included(includes, path))
}

/// A path after the file system was asked for its canonical form: that
/// form if there is one, and the path as it is if the path does not exist
/// or cannot be resolved.
pub open spec fn resolved(path: Seq<char>, canonical: Option<Seq<char>>) -> Seq<char> {
    match canonical {
        Some(c) => c,
        None => path,
    }
}

/// An exclude after the file system was asked: a relative exclude stays
/// as it is.
pub open spec fn resolved_exclude(path: Seq<char>, canonical: Option<Seq<char>>) -> Seq<char> {
    if is_absolute(path) {
        resolved(path, canonical)
    } else {
        path
    }
}

/// The canonical form that is given for the path at position `i`; none
/// where the list is too short.
pub open spec fn form_at(forms: Seq<Option<String>>, i: int) -> Option<Seq<char>> {
    if 0 <= i < forms.len() {
        match forms[i] {
            Some(s) => Some(s@),
            None => None,
        }
    } else {
        None
    }
}

/// The includes after normalizing with the given canonical forms.
pub open spec fn resolved_all(paths: Seq<Seq<char>>, forms: Seq<Option<String>>) -> Seq<Seq<char>> {
    Seq::new(paths.len(), |i: int| resolved(paths[i], form_at(forms, i)))
}

/// The excludes after normalizing with the given canonical forms.
pub open spec fn resolved_excludes(paths: Seq<Seq<char>>, forms: Seq<Option<String>>) -> Seq<
    Seq<char>,
> {
    Seq::new(paths.len(), |i: int| resolved_exclude(paths[i], form_at(forms, i)))
}

/// Whether a path starts with a slash.
pub fn starts_at_root(path: &str) -> (r: bool)
    ensures
        r == is_absolute(path@),
{
    let chars = chars_of(path);
    chars.len() > 0 && chars[0] == '/'
}

/// Whether the parts `base` are the first of the parts `path`.
fn is_prefix(base: &Vec<String>, path: &Vec<String>) -> (r: bool)
    ensures
        r == texts_of(base@).is_prefix_of(texts_of(path@)),
{
    if base.len() > path.len() {
        return false;
    }
    let mut i: usize = 0;
    while i < base.len()
        invariant
            i <= base.len(),
            base.len() <= path.len(),
            forall|j: int| 0 <= j < i ==> base@[j]@ == path@[j]@,
        decreases base.len() - i,
    {
        if !same_text(base[i].as_str(), path[i].as_str()) {
            assert(texts_of(base@)[i as int] != texts_of(path@)[i as int]);
            return false;
        }
        i += 1;
    }
    assert(texts_of(base@) =~= texts_of(path@).subrange(0, base.len() as int));
    true
}

/// Whether one of the parts is the text `name`.
fn has_part_named(parts: &Vec<String>, name: &str) -> (r: bool)
    ensures
        r == texts_of(parts@).contains(name@),
{
    let mut i: usize = 0;
    while i < parts.len()
        invariant
            i <= parts.len(),
            forall|j: int| 0 <= j < i ==> parts@[j]@ != name@,
        decreases parts.len() - i,
    {
        if same_text(parts[i].as_str(), name) {
            assert(texts_of(parts@)[i as int] == name@);
            return true;
        }
        i += 1;
    }
    assert forall|j: int| 0 <= j < texts_of(parts@).len() implies texts_of(parts@)[j] != name@ by {
        assert(parts@[j]@ != name@);
    }
    false
}

/// Whether `path` lies under `base`.
pub fn lies_under(path: &str, base: &str) -> (r: bool)
    ensures
        r == under(path@, base@),
{
    let parts = path_components(path);
    let base_parts = path_components(base);
    is_prefix(&base_parts, &parts)
}

/// A path after the file system was asked for its canonical form.
pub fn normalize_path(path: &str, canonical: Option<String>) -> (r: String)
    ensures
        r@ == resolved(
            path@,
            match canonical {
                Some(c) => Some(c@),
                None => None,
            },
        ),
{
    match canonical {
        Some(c) => c,
        None => String::from_str(path),
    }
}

/// An exclude after the file system was asked for its canonical form.
pub fn normalize_exclude_path(path: &str, canonical: Option<String>) -> (r: String)
    ensures
        r@ == resolved_exclude(
            path@,
            match canonical {
                Some(c) => Some(c@),
                None => None,
            },
        ),
{
    if starts_at_root(path) {
        normalize_path(path, canonical)
    } else {
        String::from_str(path)
    }
}

/// The lists of paths that decide what is watched.
#[derive(Debug, PartialEq, Eq)]
pub struct PathPolicy {
    includes: Vec<String>,
    excludes: Vec<String>,
}

impl Clone for PathPolicy {
    fn clone(&self) -> (r: Self)
        ensures
            r.include_texts() == self.include_texts(),
            r.exclude_texts() == self.exclude_texts(),
    {
        let r = PathPolicy { includes: self.includes.clone(), excludes: self.excludes.clone() };
        proof {
            assert(r.includes@.len() == self.includes@.len());
            assert forall|i: int| 0 <= i < r.includes@.len() implies r.includes@[i]@ == self.includes@[i]@ by {
                assert(vstd::pervasive::cloned(self.includes@[i], r.includes@[i]));
            }
            assert forall|i: int| 0 <= i < r.excludes@.len() implies r.excludes@[i]@ == self.excludes@[i]@ by {
                assert(vstd::pervasive::cloned(self.excludes@[i], r.excludes@[i]));
            }
            assert(r.include_texts() =~= self.include_texts());
            assert(r.exclude_texts() =~= self.exclude_texts());
        }
        r
    }
}

impl PathPolicy {
    /// The includes, as texts.
    pub closed spec fn include_texts(&self) -> Seq<Seq<char>> {
        texts_of(self.includes@)
    }

    /// The excludes, as texts.
    pub closed spec fn exclude_texts(&self) -> Seq<Seq<char>> {
        texts_of(self.excludes@)
    }

    /// Whether the policy watches a path.
    pub open spec fn watches(&self, path: Seq<char>) -> bool {
        watched(self.include_texts(), self.exclude_texts(), path)
    }

    /// A policy with the given includes and excludes.
    pub fn new(includes: Vec<String>, excludes: Vec<String>) -> (policy: Self)
        ensures
            policy.include_texts() == texts_of(includes@),
            policy.exclude_texts() == texts_of(excludes@),
    {
        PathPolicy { includes, excludes }
    }

    /// Replaces every include by its canonical form, and every absolute
    /// exclude by its, as far as the file system gave one. `include_forms`
    /// and `exclude_forms` hold, position by position, what it gave.
    pub fn normalize(&mut self, include_forms: &Vec<Option<String>>, exclude_forms: &Vec<Option<String>>)
        ensures
            final(self).include_texts() == resolved_all(old(self).include_texts(), include_forms@),
            final(self).exclude_texts() == resolved_excludes(old(self).exclude_texts(), exclude_forms@),
    {
        let mut includes: Vec<String> = Vec::new();
        let mut i: usize = 0;
        while i < self.includes.len()
            invariant
                i <= self.includes.len(),
                *self == *old(self),
                includes.len() == i,
                forall|j: int|
                    0 <= j < i ==> (#[trigger] includes@[j])@ == resolved(
                        self.includes@[j]@,
                        form_at(include_forms@, j),
                    ),
            decreases self.includes.len() - i,
        {
            let form = if i < include_forms.len() {
                match &include_forms[i] {
                    Some(c) => Some(c.clone()),
                    None => None,
                }
            } else {
                None
            };
            includes.push(normalize_path(self.includes[i].as_str(), form));
            i += 1;
        }
        let mut excludes: Vec<String> = Vec::new();
        let mut k: usize = 0;
        while k < self.excludes.len()
            invariant
                k <= self.excludes.len(),
                *self == *old(self),
                excludes.len() == k,
                forall|j: int|
                    0 <= j < k ==> (#[trigger] excludes@[j])@ == resolved_exclude(
                        self.excludes@[j]@,
                        form_at(exclude_forms@, j),
                    ),
            decreases self.excludes.len() - k,
        {
            let form = if k < exclude_forms.len() {
                match &exclude_forms[k] {
                    Some(c) => Some(c.clone()),
                    None => None,
                }
            } else {
                None
            };
            excludes.push(normalize_exclude_path(self.excludes[k].as_str(), form));
            k += 1;
        }
        proof {
            assert(texts_of(includes@) =~= resolved_all(old(self).include_texts(), include_forms@));
            assert(texts_of(excludes@) =~= resolved_excludes(
                old(self).exclude_texts(),
                exclude_forms@,
            ));
        }
        self.includes = includes;
        self.excludes = excludes;
    }

    /// The includes.
    pub fn includes(&self) -> (paths: &Vec<String>)
        ensures
            texts_of(paths@) == self.include_texts(),
    {
        &self.includes
    }

    /// The excludes.
    pub fn excludes(&self) -> (paths: &Vec<String>)
        ensures
            texts_of(paths@) == self.exclude_texts(),
    {
        &self.excludes
    }

    /// Whether an exclude matches the path with the components `parts`.
    fn excluded_parts(&self, path: &str, parts: &Vec<String>) -> (r: bool)
        requires
            texts_of(parts@) == components_of(path@),
        ensures
            r == excluded(self.exclude_texts(), path@),
    {
        let mut i: usize = 0;
        while i < self.excludes.len()
            invariant
                i <= self.excludes.len(),
                texts_of(parts@) == components_of(path@),
                forall|j: int|
                    0 <= j < i ==> !exclude_matches(#[trigger] self.exclude_texts()[j], path@),
            decreases self.excludes.len() - i,
        {
            let exclude = self.excludes[i].as_str();
            assert(self.exclude_texts()[i as int] == exclude@);
            let hit = if starts_at_root(exclude) {
                let base = path_components(exclude);
                is_prefix(&base, parts)
            } else {
                has_part_named(parts, exclude)
            };
            if hit {
                return true;
            }
            i += 1;
        }
        false
    }

    /// Whether an exclude matches a path.
    pub fn is_excluded(&self, path: &str) -> (r: bool)
        ensures
            r == excluded(self.exclude_texts(), path@),
    {
        let parts = path_components(path);
        self.excluded_parts(path, &parts)
    }

    /// Whether a path lies under an include.
    pub fn is_included(&self, path: &str) -> (r: bool)
        ensures
            r == included(self.include_texts(), path@),
    {
        let parts = path_components(path);
        let mut i: usize = 0;
        while i < self.includes.len()
            invariant
                i <= self.includes.len(),
                texts_of(parts@) == components_of(path@),
                forall|j: int| 0 <= j < i ==> !under(path@, #[trigger] self.include_texts()[j]),
            decreases self.includes.len() - i,
        {
            let root = self.includes[i].as_str();
            assert(self.include_texts()[i as int] == root@);
            let base = path_components(root);
            if is_prefix(&base, &parts) {
                return true;
            }
            i += 1;
        }
        false
    }

    /// Whether a path is watched. The path is taken as it is given; a
    /// caller that wants links resolved resolves them before.
    pub fn should_watch(&self, path: &str) -> (r: bool)
        ensures
            r == self.watches(path@),
    {
        if self.is_excluded(path) {
            return false;
        }
        if self.includes.len() == 0 {
            return true;
        }
        self.is_included(path)
    }
}

/// Without includes every path that no exclude matches is watched.
pub proof fn law_no_includes_watch_all(policy: PathPolicy, path: Seq<char>)
    requires
        policy.include_texts().len() == 0,
        !excluded(policy.exclude_texts(), path),
    ensures
        policy.watches(path),
{
}

/// Excludes win over includes: a path that an exclude matches is not
/// watched, whatever the includes.
pub proof fn law_excludes_win(policy: PathPolicy, path: Seq<char>)
    requires
        excluded(policy.exclude_texts(), path),
    ensures
        !policy.watches(path),
{
}

/// A relative exclude keeps out every path that has it as a component,
/// wherever in the path the component stands.
pub proof fn law_relative_exclude_anywhere(policy: PathPolicy, i: int, path: Seq<char>, at: int)
    requires
        0 <= i < policy.exclude_texts().len(),
        !is_absolute(policy.exclude_texts()[i]),
        0 <= at < components_of(path).len(),
        components_of(path)[at] == policy.exclude_texts()[i],
    ensures
        !policy.watches(path),
{
    assert(exclude_matches(policy.exclude_texts()[i], path));
}

/// A path for which the file system has no canonical form stays as it is.
pub proof fn law_unresolved_path_kept(path: Seq<char>)
    ensures
        resolved(path, None) == path,
        resolved_exclude(path, None) == path,
{
}

/// Normalizing again changes nothing where the file system gives for
/// every path of a normalized policy that path itself, or nothing. So
/// what is watched is stable under repeated normalization.
pub proof fn law_normalize_stable(
    once: PathPolicy,
    twice: PathPolicy,
    include_forms: Seq<Option<String>>,
    exclude_forms: Seq<Option<String>>,
    path: Seq<char>,
)
    requires
        twice.include_texts() == resolved_all(once.include_texts(), include_forms),
        twice.exclude_texts() == resolved_excludes(once.exclude_texts(), exclude_forms),
        forall|i: int|
            0 <= i < once.include_texts().len() ==> #[trigger] form_at(include_forms, i) is None || form_at(
                include_forms,
                i,
            ) == Some(once.include_texts()[i]),
        forall|i: int|
            0 <= i < once.exclude_texts().len() ==> #[trigger] form_at(exclude_forms, i) is None || form_at(
                exclude_forms,
                i,
            ) == Some(once.exclude_texts()[i]),
    ensures
        twice.include_texts() == once.include_texts(),
        twice.exclude_texts() == once.exclude_texts(),
        twice.watches(path) == once.watches(path),
{
    assert forall|i: int| 0 <= i < once.include_texts().len() implies twice.include_texts()[i]
        == once.include_texts()[i] by {
        let f = form_at(include_forms, i);
    }
    assert forall|i: int| 0 <= i < once.exclude_texts().len() implies twice.exclude_texts()[i]
        == once.exclude_texts()[i] by {
        let f = form_at(exclude_forms, i);
    }
    assert(twice.include_texts() =~= once.include_texts());
    assert(twice.exclude_texts() =~= once.exclude_texts());
}

} // verus!
