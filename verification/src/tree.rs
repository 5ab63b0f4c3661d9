//! The tree of files by their paths: the parent of a path, the roots in
//! the order in which they are shown, and the order of the children of a
//! directory.

use vstd::prelude::*;
use std::path::Path;
use crate::collections::VecMap;
use crate::text::{lemma_text_lt_negative, lemma_text_lt_total, same_text, sort_by, text_before, text_lt, texts_of, Order};
use crate::path_policy::{lies_under, under};
use crate::wire::NodeId;

verus! {

/// The parent of a path, as the standard library gives it: the path
/// without its last component, and nothing for a root or an empty path.
pub uninterp spec fn parent_of(path: Seq<char>) -> Option<Seq<char>>;

/// The parent of a path.
///
/// Wraps `Path::parent`, which depends on the text of the path alone.
/// The parent of a path given as a string is a string.
#[verifier::external_body]
fn path_parent(path: &str) -> (parent: Option<String>)
    ensures
        crate::settings::text_of(parent) == parent_of(path@),
{
    Path::new(path).parent().map(|parent| parent.to_string_lossy().to_string())
}

/// The parent of a path.
pub fn parent_path(path: &str) -> (parent: Option<String>)
    ensures
        crate::settings::text_of(parent) == parent_of(path@),
{
    path_parent(path)
}

/// The texts of a list, each only where it first occurs.
pub open spec fn first_occurrences(items: Seq<Seq<char>>) -> Seq<Seq<char>>
    decreases items.len(),
{
    if items.len() == 0 {
        Seq::<Seq<char>>::empty()
    } else {
        let before = first_occurrences(items.drop_last());
        if before.contains(items.last()) {
            before
        } else {
            before.push(items.last())
        }
    }
}

/// The roots under which files are shown, in their order: the given
/// roots, each once, and the root of the file system where none is given.
pub fn ordered_roots(include_roots: &Vec<String>) -> (roots: Vec<String>)
    ensures
        texts_of(roots@) == if include_roots.len() == 0 {
            seq!["/"@]
        } else {
            first_occurrences(texts_of(include_roots@))
        },
{
    let mut out: Vec<String> = Vec::new();
    if include_roots.len() == 0 {
        out.push(String::from_str("/"));
        assert(texts_of(out@) =~= seq!["/"@]);
        return out;
    }
    let ghost all = texts_of(include_roots@);
    let mut i: usize = 0;
    proof {
        assert(all.take(0) =~= Seq::<Seq<char>>::empty());
        assert(texts_of(out@) =~= Seq::<Seq<char>>::empty());
    }
    while i < include_roots.len()
        invariant
            i <= include_roots.len(),
            all == texts_of(include_roots@),
            texts_of(out@) == first_occurrences(all.take(i as int)),
        decreases include_roots.len() - i,
    {
        proof {
            assert(all.take(i + 1).drop_last() =~= all.take(i as int));
            assert(all.take(i + 1).last() == include_roots@[i as int]@);
        }
        let root = &include_roots[i];
        let mut known = false;
        let mut k: usize = 0;
        while k < out.len()
            invariant
                k <= out.len(),
                !known ==> forall|j: int| 0 <= j < k ==> out@[j]@ != root@,
                known ==> texts_of(out@).contains(root@),
            decreases out.len() - k,
        {
            if same_text(out[k].as_str(), root.as_str()) {
                assert(texts_of(out@)[k as int] == root@);
                known = true;
            }
            k += 1;
        }
        proof {
            if !known {
                assert forall|j: int| 0 <= j < texts_of(out@).len() implies texts_of(out@)[j]
                    != root@ by {
                    assert(out@[j]@ != root@);
                }
            }
        }
        if !known {
            let ghost before = texts_of(out@);
            out.push(root.clone());
            assert(texts_of(out@) =~= before.push(root@));
        }
        i += 1;
    }
    proof {
        assert(all.take(include_roots.len() as int) =~= all);
    }
    out
}

/// The position of the first root under which a path lies, if it lies
/// under one.
pub open spec fn root_of(path: Seq<char>, roots: Seq<Seq<char>>) -> Option<int>
    decreases roots.len(),
{
    if roots.len() == 0 {
        None
    } else {
        match root_of(path, roots.drop_last()) {
            Some(k) => Some(k),
            None => if under(path, roots.last()) {
                Some(roots.len() - 1)
            } else {
                None
            },
        }
    }
}

/// Under which of the roots a file is shown: the first under which its
/// path lies; under none if it lies under none.
pub fn first_root(path: &str, roots: &Vec<String>) -> (r: Option<usize>)
    ensures
        match r {
            Some(k) => root_of(path@, texts_of(roots@)) == Some(k as int),
            None => root_of(path@, texts_of(roots@)) is None,
        },
{
    let ghost all = texts_of(roots@);
    let mut i: usize = 0;
    proof {
        assert(all.take(0) =~= Seq::<Seq<char>>::empty());
    }
    while i < roots.len()
        invariant
            i <= roots.len(),
            all == texts_of(roots@),
            root_of(path@, all.take(i as int)) is None,
        decreases roots.len() - i,
    {
        proof {
            assert(all.take(i + 1).drop_last() =~= all.take(i as int));
            assert(all.take(i + 1).last() == roots@[i as int]@);
        }
        if lies_under(path, roots[i].as_str()) {
            proof {
                lemma_root_stays(path@, all, i + 1);
            }
            return Some(i);
        }
        i += 1;
    }
    proof {
        assert(all.take(roots.len() as int) =~= all);
    }
    None
}

/// A root that was found among the first roots is the root among all.
proof fn lemma_root_stays(path: Seq<char>, roots: Seq<Seq<char>>, n: int)
    requires
        0 <= n <= roots.len(),
        root_of(path, roots.take(n)) is Some,
    ensures
        root_of(path, roots) == root_of(path, roots.take(n)),
    decreases roots.len() - n,
{
    if n < roots.len() {
        assert(roots.take(n + 1).drop_last() =~= roots.take(n));
        lemma_root_stays(path, roots, n + 1);
    } else {
        assert(roots.take(n) =~= roots);
    }
}

/// The path under which a node is sorted: its path, and the empty text
/// for a node without one.
pub open spec fn path_key(paths: Map<Seq<char>, String>, id: Seq<char>) -> Seq<char> {
    if paths.contains_key(id) {
        paths[id]@
    } else {
        Seq::<char>::empty()
    }
}

/// The order of nodes by path, and by identifier among nodes with the
/// same path.
pub struct ByPath<'a> {
    paths: &'a VecMap<NodeId, String>,
}

impl<'a> ByPath<'a> {
    #[verifier::type_invariant]
    spec fn inv(self) -> bool {
        self.paths.wf()
    }

    /// The paths by which the order goes.
    pub closed spec fn paths(&self) -> Map<Seq<char>, String> {
        self.paths@
    }

    /// The order by the given paths.
    pub fn new(paths: &'a VecMap<NodeId, String>) -> (order: Self)
        requires
            paths.wf(),
        ensures
            order.paths() == paths@,
    {
        ByPath { paths }
    }

    fn key(&self, id: &NodeId) -> (key: &str)
        ensures
            key@ == path_key(self.paths(), id@),
    {
        proof {
            use_type_invariant(self);
            reveal_strlit("");
            assert(""@ =~= Seq::<char>::empty());
        }
        match self.paths.get(id) {
            Some(path) => path.as_str(),
            None => "",
        }
    }
}

impl<'a> Order<NodeId> for ByPath<'a> {
    open spec fn lt(&self, a: NodeId, b: NodeId) -> bool {
        let pa = path_key(self.paths(), a@);
        let pb = path_key(self.paths(), b@);
        text_lt(pa, pb) || (pa == pb && text_lt(a@, b@))
    }

    fn before(&self, a: &NodeId, b: &NodeId) -> (r: bool) {
        let pa = self.key(a);
        let pb = self.key(b);
        if text_before(pa, pb) {
            true
        } else if same_text(pa, pb) {
            text_before(a.0.as_str(), b.0.as_str())
        } else {
            false
        }
    }

    proof fn lemma_asymmetric(&self, a: NodeId, b: NodeId) {
        let pa = path_key(self.paths(), a@);
        let pb = path_key(self.paths(), b@);
        lemma_text_lt_total(pa, pb);
        lemma_text_lt_total(a@, b@);
        crate::text::lemma_text_lt_irreflexive(pa);
    }

    proof fn lemma_negative_transitive(&self, a: NodeId, b: NodeId, c: NodeId) {
        let pa = path_key(self.paths(), a@);
        let pb = path_key(self.paths(), b@);
        let pc = path_key(self.paths(), c@);
        lemma_text_lt_negative(pa, pb, pc);
        lemma_text_lt_total(pa, pb);
        lemma_text_lt_total(pb, pc);
        crate::text::lemma_text_lt_irreflexive(pa);
        crate::text::lemma_text_lt_irreflexive(pb);
        if text_lt(pa, pb) && pb == pc {
        }
        if pa == pb && pb == pc {
            lemma_text_lt_negative(a@, b@, c@);
        }
    }
}

/// Sorts the children of a directory by path, and by identifier where
/// two have the same path; a child without a path sorts as the empty path.
pub fn sort_children_by_path(children: &mut Vec<NodeId>, paths: &VecMap<NodeId, String>)
    requires
        paths.wf(),
    ensures
        final(children)@.to_multiset() == old(children)@.to_multiset(),
        forall|i: int, j: int|
            0 <= i < j < final(children)@.len() ==> {
                let a = #[trigger] final(children)@[i];
                let b = #[trigger] final(children)@[j];
                !(text_lt(path_key(paths@, b@), path_key(paths@, a@)) || (path_key(paths@, b@)
                    == path_key(paths@, a@) && text_lt(b@, a@)))
            },
{
    let order = ByPath::new(paths);
    sort_by(children, &order);
    assert forall|i: int, j: int| 0 <= i < j < children@.len() implies {
        let a = #[trigger] children@[i];
        let b = #[trigger] children@[j];
        !(text_lt(path_key(paths@, b@), path_key(paths@, a@)) || (path_key(paths@, b@) == path_key(
            paths@,
            a@,
        ) && text_lt(b@, a@)))
    } by {
        assert(!order.lt(children@[j], children@[i]));
    }
}

} // verus!
