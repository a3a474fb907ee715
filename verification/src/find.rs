//! Path-indexed lookup into a finished tree.
//!
//! `find` walks from a node towards the entry whose path matches the target:
//! at each step it descends into the first child whose path is a path-prefix
//! of the target. When no child matches, the walk stops and hands back the
//! node it reached — the nearest ancestor — rather than failing, so a stale
//! path still leads somewhere sensible.

use vstd::prelude::*;

use crate::file_types::{spec_entries, spec_is_root, spec_path, well_formed, DirectoryEntry};
use crate::paths::{is_path_prefix, spec_path_prefix, str_eq, SEPARATOR};

verus! {

/// The first index of `entries` whose path is a path-prefix of `target`,
/// or `-1` when none is.
pub open spec fn first_prefix_match(entries: Seq<DirectoryEntry>, target: Seq<char>) -> int
    decreases entries.len(),
{
    if entries.len() == 0 {
        -1
    } else if spec_path_prefix(spec_path(entries[0]), target) {
        0
    } else {
        let rest = first_prefix_match(entries.drop_first(), target);
        if rest < 0 {
            -1
        } else {
            1 + rest
        }
    }
}

proof fn lemma_first_prefix_match(entries: Seq<DirectoryEntry>, target: Seq<char>)
    ensures
        -1 <= first_prefix_match(entries, target) < entries.len(),
        first_prefix_match(entries, target) >= 0 ==> spec_path_prefix(
            spec_path(entries[first_prefix_match(entries, target)]),
            target,
        ),
        forall|j: int|
            0 <= j < entries.len() && (first_prefix_match(entries, target) == -1 || j
                < first_prefix_match(entries, target)) ==> !spec_path_prefix(
                spec_path(#[trigger] entries[j]),
                target,
            ),
    decreases entries.len(),
{
    if entries.len() > 0 && !spec_path_prefix(spec_path(entries[0]), target) {
        lemma_first_prefix_match(entries.drop_first(), target);
        let m = first_prefix_match(entries, target);
        assert forall|j: int|
            0 <= j < entries.len() && (m == -1 || j < m) implies !spec_path_prefix(
            spec_path(#[trigger] entries[j]),
            target,
        ) by {
            if j > 0 {
                assert(entries[j] == entries.drop_first()[j - 1]);
            }
        }
        if m >= 0 {
            assert(entries[m] == entries.drop_first()[m - 1]);
        }
    }
}

/// The node the lookup reaches for `target`, starting at `e`.
pub open spec fn spec_find(e: DirectoryEntry, target: Seq<char>) -> DirectoryEntry
    decreases e,
{
    if spec_path(e) == target {
        e
    } else {
        match e {
            DirectoryEntry::Folder { entries, .. } => {
                let m = first_prefix_match(entries@, target);
                if 0 <= m < entries@.len() {
                    spec_find(entries@[m], target)
                } else {
                    e
                }
            },
            DirectoryEntry::Rollup { entries, .. } => {
                let m = first_prefix_match(entries@, target);
                if 0 <= m < entries@.len() {
                    spec_find(entries@[m], target)
                } else {
                    e
                }
            },
            _ => e,
        }
    }
}

impl DirectoryEntry {
    /// Looks `match_path` up in the tree rooted at this entry. The lookup
    /// always lands on some node: the matching entry when the walk reaches
    /// it, else the nearest node it got to.
    #[verifier::loop_isolation(false)]
    pub fn find<'a>(&'a self, match_path: &str) -> (r: Option<&'a DirectoryEntry>)
        ensures
            match r {
                Some(e) => *e == spec_find(*self, match_path@),
                None => false,
            },
        decreases *self,
    {
        if str_eq(self.path(), match_path) {
            return Some(self);
        }
        match self {
            DirectoryEntry::Folder { entries, .. } => {
                let mut i: usize = 0;
                while i < entries.len()
                    invariant
                        i <= entries@.len(),
                        forall|j: int|
                            0 <= j < i ==> !spec_path_prefix(
                                spec_path(#[trigger] entries@[j]),
                                match_path@,
                            ),
                    decreases entries@.len() - i,
                {
                    let child = &entries[i];
                    if is_path_prefix(child.path(), match_path) {
                        proof {
                            lemma_first_prefix_match(entries@, match_path@);
                            let m = first_prefix_match(entries@, match_path@);
                            assert(m == i as int) by {
                                if m == -1 || m < i as int {
                                    assert(!spec_path_prefix(
                                        spec_path(entries@[i as int]),
                                        match_path@,
                                    ));
                                }
                            }
                            assert(*child == entries@[i as int]);
                            assert(entries@ == self->Folder_entries@);
                            assert(decreases_to!(*self => self->Folder_entries@[i as int]));
                        }
                        return child.find(match_path);
                    }
                    i = i + 1;
                }
                proof {
                    lemma_first_prefix_match(entries@, match_path@);
                    let m = first_prefix_match(entries@, match_path@);
                    assert(m == -1) by {
                        if m >= 0 {
                            assert(!spec_path_prefix(spec_path(entries@[m]), match_path@));
                        }
                    }
                }
                Some(self)
            },
            DirectoryEntry::Rollup { entries, .. } => {
                let mut i: usize = 0;
                while i < entries.len()
                    invariant
                        i <= entries@.len(),
                        forall|j: int|
                            0 <= j < i ==> !spec_path_prefix(
                                spec_path(#[trigger] entries@[j]),
                                match_path@,
                            ),
                    decreases entries@.len() - i,
                {
                    let child = &entries[i];
                    if is_path_prefix(child.path(), match_path) {
                        proof {
                            lemma_first_prefix_match(entries@, match_path@);
                            let m = first_prefix_match(entries@, match_path@);
                            assert(m == i as int) by {
                                if m == -1 || m < i as int {
                                    assert(!spec_path_prefix(
                                        spec_path(entries@[i as int]),
                                        match_path@,
                                    ));
                                }
                            }
                            assert(*child == entries@[i as int]);
                            assert(entries@ == self->Rollup_entries@);
                            assert(decreases_to!(*self => self->Rollup_entries@[i as int]));
                        }
                        return child.find(match_path);
                    }
                    i = i + 1;
                }
                proof {
                    lemma_first_prefix_match(entries@, match_path@);
                    let m = first_prefix_match(entries@, match_path@);
                    assert(m == -1) by {
                        if m >= 0 {
                            assert(!spec_path_prefix(spec_path(entries@[m]), match_path@));
                        }
                    }
                }
                Some(self)
            },
            _ => Some(self),
        }
    }
}

/// `n` occurs (as a value) in the tree rooted at `root`.
pub open spec fn contains_node(root: DirectoryEntry, n: DirectoryEntry) -> bool
    decreases root,
{
    root == n || match root {
        DirectoryEntry::Folder { entries, .. } => exists|i: int|
            0 <= i < entries@.len() && contains_node(#[trigger] entries@[i], n),
        DirectoryEntry::Rollup { entries, .. } => exists|i: int|
            0 <= i < entries@.len() && contains_node(#[trigger] entries@[i], n),
        _ => false,
    }
}

/// Every child's path extends its parent's path on a component boundary,
/// recursively — the shape a tree built from a real directory walk has.
pub open spec fn path_coherent(e: DirectoryEntry) -> bool
    decreases e,
{
    match e {
        DirectoryEntry::Folder { path, entries, .. } => forall|i: int|
            0 <= i < entries@.len() ==> spec_path_prefix(path@, spec_path(#[trigger] entries@[i]))
                && path_coherent(entries@[i]),
        DirectoryEntry::Rollup { path, entries, .. } => forall|i: int|
            0 <= i < entries@.len() ==> spec_path_prefix(path@, spec_path(#[trigger] entries@[i]))
                && path_coherent(entries@[i]),
        _ => true,
    }
}

/// Law (single root): in a well-formed tree, only the tree's own top entry
/// can carry the root mark — no entry below it does.
pub proof fn lemma_single_root(root: DirectoryEntry, n: DirectoryEntry)
    requires
        well_formed(root),
        contains_node(root, n),
        spec_is_root(n),
    ensures
        n == root,
    decreases root,
{
    if root != n {
        match root {
            DirectoryEntry::Folder { entries, .. } => {
                let i = choose|i: int|
                    0 <= i < entries@.len() && contains_node(#[trigger] entries@[i], n);
                assert(well_formed(entries@[i]) && !spec_is_root(entries@[i]));
                lemma_single_root(entries@[i], n);
            },
            DirectoryEntry::Rollup { entries, .. } => {
                let i = choose|i: int|
                    0 <= i < entries@.len() && contains_node(#[trigger] entries@[i], n);
                assert(well_formed(entries@[i]) && !spec_is_root(entries@[i]));
                lemma_single_root(entries@[i], n);
            },
            _ => {},
        }
    }
}

proof fn lemma_prefix_refl(p: Seq<char>)
    ensures
        spec_path_prefix(p, p),
{
    assert(p.subrange(0, p.len() as int) =~= p);
}

proof fn lemma_prefix_trans(a: Seq<char>, b: Seq<char>, c: Seq<char>)
    requires
        spec_path_prefix(a, b),
        spec_path_prefix(b, c),
    ensures
        spec_path_prefix(a, c),
{
    assert(c.subrange(0, a.len() as int) =~= a) by {
        assert forall|j: int| 0 <= j < a.len() implies c.subrange(0, a.len() as int)[j] == a[j] by {
            assert(c.subrange(0, b.len() as int)[j] == c[j]);
            assert(b.subrange(0, a.len() as int)[j] == b[j]);
        }
    }
    if a.len() < c.len() {
        if a.len() == b.len() {
            assert(b.subrange(0, b.len() as int) =~= b);
            assert(a =~= b);
        } else {
            assert(c.subrange(0, b.len() as int)[a.len() as int] == c[a.len() as int]);
            assert(b[a.len() as int] == SEPARATOR);
        }
    }
}

proof fn lemma_contains_trans(a: DirectoryEntry, b: DirectoryEntry, c: DirectoryEntry)
    requires
        contains_node(a, b),
        contains_node(b, c),
    ensures
        contains_node(a, c),
    decreases a,
{
    if a == b {
    } else {
        match a {
            DirectoryEntry::Folder { entries, .. } => {
                let i = choose|i: int|
                    0 <= i < entries@.len() && contains_node(#[trigger] entries@[i], b);
                lemma_contains_trans(entries@[i], b, c);
            },
            DirectoryEntry::Rollup { entries, .. } => {
                let i = choose|i: int|
                    0 <= i < entries@.len() && contains_node(#[trigger] entries@[i], b);
                lemma_contains_trans(entries@[i], b, c);
            },
            _ => {},
        }
    }
}

/// In a path-coherent tree, an ancestor's path is a path-prefix of every
/// node beneath it.
proof fn lemma_ancestor_prefix(e: DirectoryEntry, n: DirectoryEntry)
    requires
        path_coherent(e),
        contains_node(e, n),
    ensures
        spec_path_prefix(spec_path(e), spec_path(n)),
    decreases e,
{
    if e == n {
        lemma_prefix_refl(spec_path(e));
    } else {
        match e {
            DirectoryEntry::Folder { entries, .. } => {
                let i = choose|i: int|
                    0 <= i < entries@.len() && contains_node(#[trigger] entries@[i], n);
                lemma_ancestor_prefix(entries@[i], n);
                lemma_prefix_trans(spec_path(e), spec_path(entries@[i]), spec_path(n));
            },
            DirectoryEntry::Rollup { entries, .. } => {
                let i = choose|i: int|
                    0 <= i < entries@.len() && contains_node(#[trigger] entries@[i], n);
                lemma_ancestor_prefix(entries@[i], n);
                lemma_prefix_trans(spec_path(e), spec_path(entries@[i]), spec_path(n));
            },
            _ => {},
        }
    }
}

/// Law (find identity): in a path-coherent tree, looking up the path of a
/// node that occurs in the tree lands exactly on that node, provided the
/// path picks the node out uniquely: no other node carries the same path,
/// and any node whose path is a path-prefix of it lies on the ancestor
/// chain.
pub proof fn lemma_find_identity(root: DirectoryEntry, n: DirectoryEntry)
    requires
        path_coherent(root),
        contains_node(root, n),
        spec_path_prefix(spec_path(root), spec_path(n)),
        forall|x: DirectoryEntry|
            contains_node(root, x) && spec_path(x) == spec_path(n) ==> x == n,
        forall|x: DirectoryEntry|
            contains_node(root, x) && #[trigger] spec_path_prefix(spec_path(x), spec_path(n))
                ==> contains_node(x, n),
    ensures
        spec_find(root, spec_path(n)) == n,
    decreases root, 1nat,
{
    let target = spec_path(n);
    if spec_path(root) == target {
        assert(contains_node(root, root));
        assert(root == n);
    } else {
        assert(root != n);
        match root {
            DirectoryEntry::Folder { entries, .. } => {
                lemma_find_identity_step(root, entries@, n);
            },
            DirectoryEntry::Rollup { entries, .. } => {
                lemma_find_identity_step(root, entries@, n);
            },
            _ => {
                assert(false);
            },
        }
    }
}

/// The inner step of `lemma_find_identity`, shared by the two child-bearing
/// variants: the first prefix-matching child is the one that holds `n`, and
/// the lookup recurses into it.
proof fn lemma_find_identity_step(root: DirectoryEntry, entries: Seq<DirectoryEntry>, n: DirectoryEntry)
    requires
        path_coherent(root),
        contains_node(root, n),
        root != n,
        spec_entries(root) == Some(entries),
        root is Folder || root is Rollup,
        spec_path(root) != spec_path(n),
        forall|x: DirectoryEntry|
            contains_node(root, x) && spec_path(x) == spec_path(n) ==> x == n,
        forall|x: DirectoryEntry|
            contains_node(root, x) && #[trigger] spec_path_prefix(spec_path(x), spec_path(n))
                ==> contains_node(x, n),
    ensures
        spec_find(root, spec_path(n)) == n,
    decreases root, 0nat,
{
    let target = spec_path(n);
    let i = choose|i: int| 0 <= i < entries.len() && contains_node(#[trigger] entries[i], n);
    assert(path_coherent(entries[i]));
    lemma_ancestor_prefix(entries[i], n);
    lemma_first_prefix_match(entries, target);
    let m = first_prefix_match(entries, target);
    assert(m >= 0) by {
        if m == -1 {
            assert(!spec_path_prefix(spec_path(entries[i]), target));
        }
    }
    let c = entries[m];
    assert(contains_node(root, c)) by {
        assert(contains_node(c, c));
    }
    assert(contains_node(c, n));
    assert(spec_find(root, target) == spec_find(c, target));
    assert forall|x: DirectoryEntry|
        contains_node(c, x) && spec_path(x) == spec_path(n) implies x == n by {
        lemma_contains_trans(root, c, x);
    }
    assert forall|x: DirectoryEntry|
        contains_node(c, x) && #[trigger] spec_path_prefix(spec_path(x), spec_path(n)) implies
        contains_node(x, n) by {
        lemma_contains_trans(root, c, x);
    }
    lemma_find_identity(c, n);
}

/// Where the lookup stopped: either it reached the target's very path, or
/// it sits at a node none of whose children path-prefix the target (a leaf,
/// or the deepest ancestor reached).
pub open spec fn search_stops_at(e: DirectoryEntry, target: Seq<char>) -> bool {
    spec_path(e) == target || match spec_entries(e) {
        None => true,
        Some(children) => first_prefix_match(children, target) == -1,
    }
}

/// Law (find fallback): the lookup never leaves the tree and never fails:
/// it lands on a node of the tree, and when no node carries the target path
/// that node is the deepest one the prefix walk could reach — the nearest
/// ancestor, or the starting node itself when no child matched at all.
pub proof fn lemma_find_fallback(root: DirectoryEntry, target: Seq<char>)
    ensures
        contains_node(root, spec_find(root, target)),
        search_stops_at(spec_find(root, target), target),
    decreases root,
{
    if spec_path(root) == target {
    } else {
        match root {
            DirectoryEntry::Folder { entries, .. } => {
                let m = first_prefix_match(entries@, target);
                if 0 <= m < entries@.len() {
                    lemma_find_fallback(entries@[m], target);
                    assert(contains_node(root, entries@[m])) by {
                        assert(contains_node(entries@[m], entries@[m]));
                    }
                    lemma_contains_trans(root, entries@[m], spec_find(entries@[m], target));
                } else {
                    lemma_first_prefix_match(entries@, target);
                }
            },
            DirectoryEntry::Rollup { entries, .. } => {
                let m = first_prefix_match(entries@, target);
                if 0 <= m < entries@.len() {
                    lemma_find_fallback(entries@[m], target);
                    assert(contains_node(root, entries@[m])) by {
                        assert(contains_node(entries@[m], entries@[m]));
                    }
                    lemma_contains_trans(root, entries@[m], spec_find(entries@[m], target));
                } else {
                    lemma_first_prefix_match(entries@, target);
                }
            },
            _ => {},
        }
    }
}

} // verus!
