//! The traversal engine.
//!
//! The engine walks a filesystem abstraction depth-first, classifies every
//! child (excluded path, symlink, directory, regular file), aggregates sizes
//! bottom-up, applies the hidden-entry policy, and hands each finished
//! folder's children to the rollup engine. Listing and metadata failures are
//! local: the node degrades (empty folder, or a skipped file) and the scan
//! goes on. The per-entry decision is the verified [`classify`], and every
//! folder the scan produces is tied to some listing through
//! [`children_of_listing`] and [`scan_outcome`].

use vstd::prelude::*;

use crate::file_types::{
    clamp_u64, size_of, spec_entries, spec_is_hidden, spec_is_root, spec_len, spec_path, sum_sizes,
    well_formed, Byteable, DirectoryEntry,
};
use crate::paths::{file_name_part, spec_file_name, str_eq};
use crate::rollup::{entry_size, lemma_rollup_rel_empty, rollup_rel};

verus! {

/// A word character as the exclusion patterns understand it. The set is the
/// ASCII one — letters, digits and the underscore; mount points named with
/// characters beyond ASCII are not matched and are scanned normally.
pub open spec fn is_word_char(c: char) -> bool {
    ||| ('a' <= c && c <= 'z')
    ||| ('A' <= c && c <= 'Z')
    ||| ('0' <= c && c <= '9')
    ||| c == '_'
}

/// The fixed do-not-descend set: the process-information and system
/// pseudo-filesystems, and any single-segment mount point under `/mnt`.
pub open spec fn spec_is_excluded(p: Seq<char>) -> bool {
    ||| p == seq!['/', 'p', 'r', 'o', 'c']
    ||| p == seq!['/', 's', 'y', 's']
    ||| (p.len() >= 5 && p.subrange(0, 5) == seq!['/', 'm', 'n', 't', '/'] && (forall|i: int|
        5 <= i < p.len() ==> is_word_char(#[trigger] p[i])))
}

/// Tests a path against the exclusion patterns.
pub fn is_excluded(path: &str) -> (r: bool)
    ensures
        r == spec_is_excluded(path@),
{
    proof {
        reveal_strlit("/proc");
        reveal_strlit("/sys");
        reveal_strlit("/mnt/");
        assert("/proc"@ =~= seq!['/', 'p', 'r', 'o', 'c']);
        assert("/sys"@ =~= seq!['/', 's', 'y', 's']);
        assert("/mnt/"@ =~= seq!['/', 'm', 'n', 't', '/']);
    }
    if str_eq(path, "/proc") {
        return true;
    }
    if str_eq(path, "/sys") {
        return true;
    }
    let n = path.unicode_len();
    if n < 5 {
        return false;
    }
    let head = path.substring_char(0, 5);
    if !str_eq(head, "/mnt/") {
        return false;
    }
    let mut i: usize = 5;
    while i < n
        invariant
            5 <= i <= n,
            n == path@.len(),
            forall|j: int| 5 <= j < i ==> is_word_char(#[trigger] path@[j]),
        decreases n - i,
    {
        let c = path.get_char(i);
        let w = ('a' <= c && c <= 'z') || ('A' <= c && c <= 'Z') || ('0' <= c && c <= '9') || c
            == '_';
        if !w {
            return false;
        }
        i = i + 1;
    }
    true
}

/// How hidden entries are recognized: by a leading dot on the file name, or
/// by the hidden bit in the platform file attributes. The choice stands in
/// for the platform the scan runs on.
#[derive(Debug, Clone, Copy, PartialEq, Eq)]
pub enum HiddenPolicy {
    DotPrefix,
    FileAttributes,
}

/// A file name beginning with a dot marks the entry hidden.
pub open spec fn spec_hidden_by_name(p: Seq<char>) -> bool {
    spec_file_name(p).len() > 0 && spec_file_name(p)[0] == '.'
}

/// The conventional hidden bit of a platform attribute mask.
pub open spec fn spec_hidden_by_attributes(attrs: u32) -> bool {
    attrs & 2 == 2
}

/// Tests whether the final path component begins with a dot.
pub fn hidden_by_name(path: &str) -> (r: bool)
    ensures
        r == spec_hidden_by_name(path@),
{
    let name = file_name_part(path);
    if name.as_str().unicode_len() == 0 {
        false
    } else {
        let c = name.as_str().get_char(0);
        c == '.'
    }
}

/// Reads the hidden bit out of a metadata answer; an entry whose metadata
/// cannot be read is treated as hidden.
pub fn hidden_from_metadata(res: &Result<Metadata, FSProxyError>) -> (r: bool)
    ensures
        r == match res {
            Ok(m) => spec_hidden_by_attributes(m.file_attributes),
            Err(_) => true,
        },
{
    match res {
        Ok(m) => m.file_attributes & 2 == 2,
        Err(_) => true,
    }
}

/// The file-type flags of a listed entry.
#[derive(Debug, Clone, Copy, PartialEq, Eq)]
pub struct FileType {
    pub is_dir: bool,
    pub is_symlink: bool,
}

/// One entry of a directory listing.
#[derive(Debug)]
pub struct DirPathEntry {
    pub path: String,
    pub file_type: FileType,
}

/// Per-path metadata: the byte size and the platform attribute mask.
#[derive(Debug, Clone, Copy, PartialEq, Eq)]
pub struct Metadata {
    pub len: u64,
    pub file_attributes: u32,
}

/// A failed provider call: the path it concerned and what went wrong.
#[derive(Debug)]
pub struct FSProxyError {
    pub path: String,
    pub message: String,
}

/// The rendering of a provider error.
pub open spec fn spec_error_message(path: Seq<char>, message: Seq<char>) -> Seq<char> {
    seq!['p', 'a', 't', 'h', ' '] + path + seq![',', ' ', 'c', 'a', 'u', 's', 'e', 'd', ' ', 'b', 'y', ' ']
        + message
}

impl FSProxyError {
    /// Renders the error as `"path <path>, caused by <message>"`.
    pub fn write_message(&self) -> (r: String)
        ensures
            r@ == spec_error_message(self.path@, self.message@),
    {
        proof {
            reveal_strlit("path ");
            reveal_strlit(", caused by ");
        }
        let mut s = String::from_str("path ");
        s.append(self.path.as_str());
        s.append(", caused by ");
        s.append(self.message.as_str());
        proof {
            assert(s@ =~= spec_error_message(self.path@, self.message@));
        }
        s
    }
}

/// The filesystem abstraction the engine walks: a directory lister and a
/// per-path metadata reader. Implementations are outside the engine — a
/// real OS-backed one, or a scripted double — so nothing is promised about
/// what the calls return; the engine states what holds of its output for
/// every possible answer.
pub trait FileSystemProxy {
    fn read_dir(&self, directory: &str) -> Result<Vec<DirPathEntry>, FSProxyError>;

    fn metadata(&self, path: &str) -> Result<Metadata, FSProxyError>;
}

/// Applies the hidden policy to one path, asking the provider for
/// attributes where the policy needs them.
fn is_hidden_path<P: FileSystemProxy>(ops: &P, path: &str, policy: HiddenPolicy) -> (r: bool)
    ensures
        policy is DotPrefix ==> r == spec_hidden_by_name(path@),
{
    match policy {
        HiddenPolicy::DotPrefix => hidden_by_name(path),
        HiddenPolicy::FileAttributes => {
            let res = ops.metadata(path);
            hidden_from_metadata(&res)
        },
    }
}

/// Adds a size to a running total, saturating at the largest representable
/// size.
fn saturating_add(a: u64, b: u64) -> (r: u64)
    ensures
        r as int == clamp_u64(a as int + b as int),
{
    if b > u64::MAX - a {
        u64::MAX
    } else {
        a + b
    }
}

/// What one listed entry turns into, given the hidden flag computed for it,
/// the metadata answer (for a regular file) and the recursively built
/// subtree (for a directory): an excluded path becomes an `Excluded` leaf
/// carrying the listing's directory flag, never marked root; a symlink
/// becomes a `Link` leaf, never marked root; a directory stands for its
/// subtree; a regular file becomes a `File` of exactly the metadata's size,
/// or is omitted entirely when the metadata could not be read.
pub open spec fn child_outcome(
    entry: DirPathEntry,
    hidden: bool,
    meta: Option<Metadata>,
    subtree: Option<DirectoryEntry>,
    r: Option<DirectoryEntry>,
) -> bool {
    if spec_is_excluded(entry.path@) {
        &&& r matches Some(c)
        &&& c matches DirectoryEntry::Excluded { path, was_directory, is_hidden, is_root }
        &&& path@ == entry.path@
        &&& was_directory == entry.file_type.is_dir
        &&& is_hidden == hidden
        &&& !is_root
    } else if entry.file_type.is_symlink {
        &&& r matches Some(c)
        &&& c matches DirectoryEntry::Link { path, is_root, is_hidden }
        &&& path@ == entry.path@
        &&& !is_root
        &&& is_hidden == hidden
    } else if entry.file_type.is_dir {
        r == subtree
    } else {
        match meta {
            Some(m) => {
                &&& r matches Some(c)
                &&& c matches DirectoryEntry::File { len, path, is_hidden }
                &&& len.0 == m.len
                &&& path@ == entry.path@
                &&& is_hidden == hidden
            },
            None => r is None,
        }
    }
}

/// The per-entry decision of the scan, on plain values: every outside
/// answer it depends on (hidden flag, metadata, subtree) comes in as an
/// argument, so the decision itself is exact.
pub fn classify(
    entry: DirPathEntry,
    hidden: bool,
    meta: Option<Metadata>,
    subtree: Option<DirectoryEntry>,
) -> (r: Option<DirectoryEntry>)
    ensures
        child_outcome(entry, hidden, meta, subtree, r),
{
    let DirPathEntry { path, file_type } = entry;
    if is_excluded(path.as_str()) {
        Some(DirectoryEntry::new_excluded(path, file_type.is_dir, hidden, false))
    } else if file_type.is_symlink {
        Some(DirectoryEntry::new_link(path, false, hidden))
    } else if file_type.is_dir {
        subtree
    } else {
        match meta {
            Some(m) => Some(DirectoryEntry::new_file(Byteable(m.len), path, hidden)),
            None => None,
        }
    }
}

/// What the scan may make of one listed entry: [`child_outcome`] for some
/// hidden flag, metadata answer and subtree, where the hidden flag is the
/// dot test's exact verdict under the `DotPrefix` policy and a directory's
/// subtree is a well-formed folder at the entry's own path, not marked
/// root.
pub open spec fn listed_child(
    entry: DirPathEntry,
    policy: HiddenPolicy,
    r: Option<DirectoryEntry>,
) -> bool {
    exists|hidden: bool, meta: Option<Metadata>, subtree: Option<DirectoryEntry>|
        {
            &&& #[trigger] child_outcome(entry, hidden, meta, subtree, r)
            &&& (policy is DotPrefix ==> hidden == spec_hidden_by_name(entry.path@))
            &&& (!spec_is_excluded(entry.path@) && !entry.file_type.is_symlink
                && entry.file_type.is_dir ==> {
                &&& subtree matches Some(t)
                &&& well_formed(t)
                &&& spec_path(t) == entry.path@
                &&& !spec_is_root(t)
                &&& t is Folder
            })
        }
}

/// The scan's pre-rollup children correspond to the listing one for one, in
/// listing order: each listed entry becomes its [`listed_child`] outcome,
/// and only an entry whose outcome is "omitted" (a file whose metadata
/// failed) is missing — nothing is invented.
pub open spec fn children_of_listing(
    listing: Seq<DirPathEntry>,
    children: Seq<DirectoryEntry>,
    policy: HiddenPolicy,
) -> bool
    decreases listing.len(),
{
    if listing.len() == 0 {
        children.len() == 0
    } else {
        exists|r: Option<DirectoryEntry>|
            #[trigger] listed_child(listing[0], policy, r) && match r {
                Some(c) => children.len() > 0 && children[0] == c && children_of_listing(
                    listing.drop_first(),
                    children.drop_first(),
                    policy,
                ),
                None => children_of_listing(listing.drop_first(), children, policy),
            }
    }
}

proof fn lemma_children_of_listing_snoc(
    listing: Seq<DirPathEntry>,
    children: Seq<DirectoryEntry>,
    policy: HiddenPolicy,
    entry: DirPathEntry,
    r: Option<DirectoryEntry>,
)
    requires
        children_of_listing(listing, children, policy),
        listed_child(entry, policy, r),
    ensures
        match r {
            Some(c) => children_of_listing(listing.push(entry), children.push(c), policy),
            None => children_of_listing(listing.push(entry), children, policy),
        },
    decreases listing.len(),
{
    if listing.len() == 0 {
        assert(children.len() == 0);
        assert(listing.push(entry)[0] == entry);
        assert(listing.push(entry).drop_first() =~= Seq::<DirPathEntry>::empty());
        assert(children_of_listing(
            Seq::<DirPathEntry>::empty(),
            Seq::<DirectoryEntry>::empty(),
            policy,
        ));
        match r {
            Some(c) => {
                assert(children.push(c)[0] == c);
                assert(children.push(c).drop_first() =~= Seq::<DirectoryEntry>::empty());
                assert(children =~= Seq::<DirectoryEntry>::empty());
                assert(listed_child(listing.push(entry)[0], policy, r));
            },
            None => {
                assert(children =~= Seq::<DirectoryEntry>::empty());
                assert(listed_child(listing.push(entry)[0], policy, r));
            },
        }
    } else {
        let r0 = choose|r0: Option<DirectoryEntry>|
            #[trigger] listed_child(listing[0], policy, r0) && match r0 {
                Some(c0) => children.len() > 0 && children[0] == c0 && children_of_listing(
                    listing.drop_first(),
                    children.drop_first(),
                    policy,
                ),
                None => children_of_listing(listing.drop_first(), children, policy),
            };
        assert(listing.push(entry)[0] == listing[0]);
        assert(listing.push(entry).drop_first() =~= listing.drop_first().push(entry));
        match r0 {
            Some(c0) => {
                lemma_children_of_listing_snoc(
                    listing.drop_first(),
                    children.drop_first(),
                    policy,
                    entry,
                    r,
                );
                match r {
                    Some(c) => {
                        assert(children.push(c)[0] == c0);
                        assert(children.push(c).drop_first() =~= children.drop_first().push(c));
                        assert(listed_child(listing.push(entry)[0], policy, r0));
                    },
                    None => {
                        assert(listed_child(listing.push(entry)[0], policy, r0));
                    },
                }
            },
            None => {
                lemma_children_of_listing_snoc(listing.drop_first(), children, policy, entry, r);
                match r {
                    Some(c) => {
                        assert(listed_child(listing.push(entry)[0], policy, r0));
                    },
                    None => {
                        assert(listed_child(listing.push(entry)[0], policy, r0));
                    },
                }
            },
        }
    }
}

/// Handles one listed entry: tests exclusion, applies the hidden policy,
/// recurses into directories, reads file metadata, and classifies.
fn scan_child<P: FileSystemProxy>(
    file_operations: &P,
    entry: DirPathEntry,
    policy: HiddenPolicy,
    depth: u64,
) -> (r: Option<DirectoryEntry>)
    ensures
        listed_child(entry, policy, r),
        r matches Some(c) ==> well_formed(c) && !spec_is_root(c),
    decreases depth, 0nat,
{
    let excluded = is_excluded(entry.path.as_str());
    if excluded || entry.file_type.is_symlink {
        let hidden = is_hidden_path(file_operations, entry.path.as_str(), policy);
        let r = classify(entry, hidden, None, None);
        proof {
            assert(child_outcome(entry, hidden, None, None, r));
        }
        r
    } else if entry.file_type.is_dir {
        let subtree = if depth > 0 {
            populate_tree(file_operations, entry.path.clone(), false, policy, depth - 1)
        } else {
            proof {
                assert(sum_sizes(Seq::<DirectoryEntry>::empty()) == 0);
            }
            DirectoryEntry::new_folder(Byteable(0), entry.path.clone(), false, Vec::new(), false)
        };
        let ghost sub = subtree;
        let ghost hidden_w = spec_hidden_by_name(entry.path@);
        let r = classify(entry, false, None, Some(subtree));
        proof {
            assert(child_outcome(entry, false, None, Some(sub), r));
            assert(child_outcome(entry, hidden_w, None, Some(sub), r));
        }
        r
    } else {
        match file_operations.metadata(entry.path.as_str()) {
            Ok(md) => {
                let hidden = is_hidden_path(file_operations, entry.path.as_str(), policy);
                let r = classify(entry, hidden, Some(md), None);
                proof {
                    assert(child_outcome(entry, hidden, Some(md), None, r));
                }
                r
            },
            Err(_) => {
                let ghost hidden_w = spec_hidden_by_name(entry.path@);
                let r = classify(entry, false, None, None);
                proof {
                    assert(child_outcome(entry, false, None, None, r));
                    assert(child_outcome(entry, hidden_w, None, None, r));
                }
                r
            },
        }
    }
}

/// What a finished folder node may look like: either its listing could not
/// be read — an empty folder of size zero, not hidden — or its children are
/// the rollup of the classified children of some listing, its size the
/// clamped sum of those children's sizes, and its hidden flag the dot
/// test's verdict under the `DotPrefix` policy.
pub open spec fn scan_outcome(
    current_dir: Seq<char>,
    policy: HiddenPolicy,
    r: DirectoryEntry,
) -> bool {
    ||| {
        &&& spec_entries(r) == Some(Seq::<DirectoryEntry>::empty())
        &&& spec_len(r) == Some(0u64)
        &&& !spec_is_hidden(r)
    }
    ||| (exists|listing: Seq<DirPathEntry>, pre: Seq<DirectoryEntry>|
        {
            &&& #[trigger] children_of_listing(listing, pre, policy)
            &&& rollup_rel(pre, spec_entries(r).unwrap(), current_dir)
            &&& spec_len(r) == Some(clamp_u64(sum_sizes(pre)) as u64)
            &&& (policy is DotPrefix ==> spec_is_hidden(r) == spec_hidden_by_name(current_dir))
        })
}

/// Builds the usage tree for `current_dir`, walking depth-first through the
/// provider, up to `depth` levels deep; deeper directories degrade to empty
/// folders, as an inaccessible directory does.
#[verifier::loop_isolation(false)]
fn populate_tree<P: FileSystemProxy>(
    file_operations: &P,
    current_dir: String,
    is_root: bool,
    policy: HiddenPolicy,
    depth: u64,
) -> (r: DirectoryEntry)
    ensures
        well_formed(r),
        spec_path(r) == current_dir@,
        spec_is_root(r) == is_root,
        r is Folder || r is Excluded,
        (r is Excluded) == spec_is_excluded(current_dir@),
        r is Folder ==> scan_outcome(current_dir@, policy, r),
    decreases depth, 1nat,
{
    if is_excluded(current_dir.as_str()) {
        let hidden = is_hidden_path(file_operations, current_dir.as_str(), policy);
        return DirectoryEntry::new_excluded(current_dir, true, hidden, is_root);
    }
    match file_operations.read_dir(current_dir.as_str()) {
        Err(_) => {
            proof {
                assert(sum_sizes(Seq::<DirectoryEntry>::empty()) == 0);
            }
            let r = DirectoryEntry::new_folder(
                Byteable(0),
                current_dir,
                false,
                Vec::new(),
                is_root,
            );
            proof {
                lemma_rollup_rel_empty(spec_entries(r).unwrap(), spec_path(r));
            }
            r
        },
        Ok(listing) => {
            let ghost full_listing = listing@;
            let mut len: u64 = 0;
            let mut entries: Vec<DirectoryEntry> = Vec::new();
            let mut items = listing;
            let total = items.len();
            let mut i: usize = 0;
            proof {
                assert(items@ =~= full_listing.skip(0));
                assert(full_listing.take(0) =~= Seq::<DirPathEntry>::empty());
                assert(sum_sizes(entries@) == 0);
                assert(children_of_listing(full_listing.take(0), entries@, policy));
            }
            while items.len() > 0
                invariant
                    i <= total,
                    total == full_listing.len(),
                    items@ == full_listing.skip(i as int),
                    len as int == clamp_u64(sum_sizes(entries@)),
                    forall|k: int|
                        0 <= k < entries@.len() ==> well_formed(#[trigger] entries@[k])
                            && !spec_is_root(entries@[k]),
                    children_of_listing(full_listing.take(i as int), entries@, policy),
                decreases items.len(),
            {
                let entry = items.remove(0);
                proof {
                    assert(full_listing.skip(i as int)[0] == full_listing[i as int]);
                    assert(full_listing.skip(i as int).remove(0) =~= full_listing.skip(i + 1));
                }
                let ghost before = entries@;
                let child = scan_child(file_operations, entry, policy, depth);
                proof {
                    lemma_children_of_listing_snoc(
                        full_listing.take(i as int),
                        before,
                        policy,
                        full_listing[i as int],
                        child,
                    );
                    assert(full_listing.take(i + 1) =~= full_listing.take(i as int).push(
                        full_listing[i as int],
                    ));
                }
                match child {
                    Some(c) => {
                        len = saturating_add(len, entry_size(&c));
                        entries.push(c);
                        proof {
                            assert(entries@ == before.push(c));
                            assert(entries@.drop_last() =~= before);
                            assert(sum_sizes(entries@) == sum_sizes(before) + size_of(
                                entries@.last(),
                            ));
                        }
                    },
                    None => {},
                }
                i = i + 1;
            }
            proof {
                assert(full_listing.take(full_listing.len() as int) =~= full_listing);
            }
            let hidden = is_hidden_path(file_operations, current_dir.as_str(), policy);
            let ghost pre = entries@;
            let r = DirectoryEntry::new_folder(Byteable(len), current_dir, hidden, entries, is_root);
            proof {
                assert(children_of_listing(full_listing, pre, policy));
                assert(rollup_rel(pre, spec_entries(r).unwrap(), spec_path(r)));
                assert(scan_outcome(spec_path(r), policy, r));
            }
            r
        },
    }
}

/// Builds the usage tree rooted at `current_dir`: the public entry point of
/// a scan. The finished tree is well formed — sizes aggregate bottom-up and
/// every folder's children are rolled up and sorted — its root carries the
/// given path and the root mark, it is an excluded leaf exactly when the
/// root path itself matches the exclusion patterns, and otherwise it is a
/// folder whose children are tied to some provider listing by
/// [`scan_outcome`].
pub fn read_fs<P: FileSystemProxy>(
    current_dir: String,
    file_operations: &P,
    policy: HiddenPolicy,
) -> (r: DirectoryEntry)
    ensures
        well_formed(r),
        spec_path(r) == current_dir@,
        spec_is_root(r),
        r is Folder || r is Excluded,
        (r is Excluded) == spec_is_excluded(current_dir@),
        r is Folder ==> scan_outcome(current_dir@, policy, r),
{
    populate_tree(file_operations, current_dir, true, policy, u64::MAX)
}

} // verus!
