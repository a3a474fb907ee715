//! The directory-entry tree model.
//!
//! A single recursive node type covers plain files, folders with aggregated
//! sizes, symlinks (no size), synthetic rollup summaries, and entries that
//! the exclusion policy refused to descend into.

use vstd::prelude::*;

use crate::decimal::{format_scaled, spec_dec, spec_scaled, u64_to_string};
use crate::paths::{file_name_part, parent_part, spec_file_name, spec_parent, SEPARATOR};

verus! {

pub const KB: u64 = 1024;

pub const MB: u64 = 1048576;

pub const GB: u64 = 1073741824;

pub const TB: u64 = 1099511627776;

/// The display label of a rollup node.
pub const ROLLUP_NAME: &'static str = "<other files...>";

/// A byte count, displayed against binary (1024-based) unit scales.
#[derive(Debug, Copy, Clone, PartialEq)]
pub struct Byteable(pub u64);

/// A byte count rendered against binary unit thresholds: the largest unit
/// whose threshold the value reaches, with a truncated two-digit fraction
/// when the value is not a whole multiple of the unit.
pub open spec fn spec_format_binary(v: int) -> Seq<char> {
    if v >= TB {
        spec_scaled(v, TB as int, seq!['T', 'B'])
    } else if v >= GB {
        spec_scaled(v, GB as int, seq!['G', 'B'])
    } else if v >= MB {
        spec_scaled(v, MB as int, seq!['M', 'B'])
    } else if v >= KB {
        spec_scaled(v, KB as int, seq!['K', 'B'])
    } else {
        spec_dec(v) + seq![' ', 'B']
    }
}

impl Byteable {
    /// Renders the byte count with its unit, for example `"1023.99 KB"`.
    pub fn to_string(&self) -> (r: String)
        ensures
            r@ == spec_format_binary(self.0 as int),
    {
        proof {
            reveal_strlit("TB");
            reveal_strlit("GB");
            reveal_strlit("MB");
            reveal_strlit("KB");
            reveal_strlit(" B");
        }
        let r = if self.0 >= TB {
            format_scaled(self.0, TB, "TB")
        } else if self.0 >= GB {
            format_scaled(self.0, GB, "GB")
        } else if self.0 >= MB {
            format_scaled(self.0, MB, "MB")
        } else if self.0 >= KB {
            format_scaled(self.0, KB, "KB")
        } else {
            let mut s = u64_to_string(self.0);
            s.append(" B");
            s
        };
        proof {
            assert(r@ =~= spec_format_binary(self.0 as int));
        }
        r
    }
}

/// Law: a byte count below the smallest unit threshold is always rendered
/// as its bare digits followed by `" B"`, with no decimals.
pub proof fn lemma_small_count_renders_as_bytes(v: int)
    requires
        0 <= v < 1024,
    ensures
        spec_format_binary(v) == spec_dec(v) + seq![' ', 'B'],
{
}

/// One node of the disk-usage tree.
#[derive(Debug, PartialEq)]
pub enum DirectoryEntry {
    File { len: Byteable, path: String, is_hidden: bool },
    Folder {
        path: String,
        len: Byteable,
        entries: Vec<DirectoryEntry>,
        is_root: bool,
        is_hidden: bool,
    },
    Link { path: String, is_root: bool, is_hidden: bool },
    Rollup { path: String, len: Byteable, entries: Vec<DirectoryEntry> },
    Excluded { path: String, was_directory: bool, is_hidden: bool, is_root: bool },
}

/// The path of an entry.
pub open spec fn spec_path(e: DirectoryEntry) -> Seq<char> {
    match e {
        DirectoryEntry::File { path, .. } => path@,
        DirectoryEntry::Folder { path, .. } => path@,
        DirectoryEntry::Link { path, .. } => path@,
        DirectoryEntry::Rollup { path, .. } => path@,
        DirectoryEntry::Excluded { path, .. } => path@,
    }
}

/// The size of an entry, if it has one: links and excluded entries have none.
pub open spec fn spec_len(e: DirectoryEntry) -> Option<u64> {
    match e {
        DirectoryEntry::File { len, .. } => Some(len.0),
        DirectoryEntry::Folder { len, .. } => Some(len.0),
        DirectoryEntry::Rollup { len, .. } => Some(len.0),
        DirectoryEntry::Link { .. } => None,
        DirectoryEntry::Excluded { .. } => None,
    }
}

/// The size an entry contributes to an aggregate: zero where none is defined.
pub open spec fn size_of(e: DirectoryEntry) -> int {
    match spec_len(e) {
        Some(l) => l as int,
        None => 0,
    }
}

/// Whether the entry is a directory proper (only a `Folder` is).
pub open spec fn spec_is_dir(e: DirectoryEntry) -> bool {
    e is Folder
}

pub open spec fn spec_is_root(e: DirectoryEntry) -> bool {
    match e {
        DirectoryEntry::Folder { is_root, .. } => is_root,
        DirectoryEntry::Link { is_root, .. } => is_root,
        DirectoryEntry::Excluded { is_root, .. } => is_root,
        _ => false,
    }
}

pub open spec fn spec_is_hidden(e: DirectoryEntry) -> bool {
    match e {
        DirectoryEntry::File { is_hidden, .. } => is_hidden,
        DirectoryEntry::Folder { is_hidden, .. } => is_hidden,
        DirectoryEntry::Link { is_hidden, .. } => is_hidden,
        DirectoryEntry::Excluded { is_hidden, .. } => is_hidden,
        DirectoryEntry::Rollup { .. } => false,
    }
}

/// The children of an entry, where it has any (folders and rollups).
pub open spec fn spec_entries(e: DirectoryEntry) -> Option<Seq<DirectoryEntry>> {
    match e {
        DirectoryEntry::Folder { entries, .. } => Some(entries@),
        DirectoryEntry::Rollup { entries, .. } => Some(entries@),
        _ => None,
    }
}

/// An entry a rollup may absorb: it has a defined size and is no directory.
pub open spec fn rollable(e: DirectoryEntry) -> bool {
    spec_len(e) is Some && !spec_is_dir(e)
}

/// `v` clamped to the largest representable size.
pub open spec fn clamp_u64(v: int) -> int {
    if v > u64::MAX {
        u64::MAX as int
    } else {
        v
    }
}

/// The sum of the sizes the entries of `s` contribute to an aggregate.
pub open spec fn sum_sizes(s: Seq<DirectoryEntry>) -> int
    decreases s.len(),
{
    if s.len() == 0 {
        0
    } else {
        sum_sizes(s.drop_last()) + size_of(s.last())
    }
}

pub open spec fn sorted_desc(s: Seq<DirectoryEntry>) -> bool {
    forall|i: int, j: int| 0 <= i <= j < s.len() ==> size_of(s[i]) >= size_of(s[j])
}

pub open spec fn sorted_asc(s: Seq<DirectoryEntry>) -> bool {
    forall|i: int, j: int| 0 <= i <= j < s.len() ==> size_of(s[i]) <= size_of(s[j])
}

/// Well-formedness of a finished tree: every folder's size is the (clamped)
/// sum of its children's sizes and its children are sorted by size,
/// descending; every rollup's size is the (clamped) sum of what it absorbed,
/// none of which is a directory or sizeless; and no nested entry claims to
/// be the root.
pub open spec fn well_formed(e: DirectoryEntry) -> bool
    decreases e,
{
    match e {
        DirectoryEntry::File { .. } => true,
        DirectoryEntry::Link { .. } => true,
        DirectoryEntry::Excluded { .. } => true,
        DirectoryEntry::Folder { len, entries, .. } => {
            &&& len.0 == clamp_u64(sum_sizes(entries@))
            &&& sorted_desc(entries@)
            &&& forall|i: int|
                0 <= i < entries@.len() ==> well_formed(#[trigger] entries@[i]) && !spec_is_root(
                    entries@[i],
                )
        },
        DirectoryEntry::Rollup { len, entries, .. } => {
            &&& len.0 == clamp_u64(sum_sizes(entries@))
            &&& forall|i: int|
                0 <= i < entries@.len() ==> well_formed(#[trigger] entries@[i]) && rollable(
                    entries@[i],
                ) && !spec_is_root(entries@[i])
        },
    }
}

/// Law (aggregation invariant): in a well-formed tree a folder's size is
/// exactly the sum of its children's sizes whenever that sum is
/// representable; children without a defined size contribute zero.
pub proof fn lemma_aggregation_invariant(e: DirectoryEntry)
    requires
        well_formed(e),
        e is Folder,
        sum_sizes(spec_entries(e).unwrap()) <= u64::MAX,
    ensures
        spec_len(e) == Some(sum_sizes(spec_entries(e).unwrap()) as u64),
{
}

/// Law (ordering invariant): in a well-formed tree every folder's
/// children — the synthetic rollup node among them, where one was added —
/// are sorted by size, descending.
pub proof fn lemma_ordering_invariant(e: DirectoryEntry)
    requires
        well_formed(e),
        e is Folder,
    ensures
        sorted_desc(spec_entries(e).unwrap()),
{
}

/// Law (rollup soundness): in a well-formed tree a rollup node's size is
/// exactly the sum of the sizes of the entries it absorbed whenever that sum
/// is representable, and it never absorbs a directory or a sizeless entry.
pub proof fn lemma_rollup_soundness(e: DirectoryEntry)
    requires
        well_formed(e),
        e is Rollup,
        sum_sizes(spec_entries(e).unwrap()) <= u64::MAX,
    ensures
        spec_len(e) == Some(sum_sizes(spec_entries(e).unwrap()) as u64),
        forall|i: int|
            0 <= i < spec_entries(e).unwrap().len() ==> rollable(
                #[trigger] spec_entries(e).unwrap()[i],
            ),
{
    match e {
        DirectoryEntry::Rollup { entries, .. } => {
            let s = spec_entries(e).unwrap();
            assert(s == entries@);
            assert forall|i: int| 0 <= i < s.len() implies rollable(#[trigger] s[i]) by {
                assert(well_formed(entries@[i]) && rollable(entries@[i]));
            }
        },
        _ => {},
    }
}

impl DirectoryEntry {
    pub fn new_file(len: Byteable, path: String, is_hidden: bool) -> (r: DirectoryEntry)
        ensures
            r == (DirectoryEntry::File { len, path, is_hidden }),
    {
        DirectoryEntry::File { len, path, is_hidden }
    }

    pub fn new_link(path: String, is_root: bool, is_hidden: bool) -> (r: DirectoryEntry)
        ensures
            r == (DirectoryEntry::Link { path, is_root, is_hidden }),
    {
        DirectoryEntry::Link { path, is_root, is_hidden }
    }

    pub fn new_excluded(path: String, was_directory: bool, is_hidden: bool, is_root: bool) -> (r:
        DirectoryEntry)
        ensures
            r == (DirectoryEntry::Excluded { path, was_directory, is_hidden, is_root }),
    {
        DirectoryEntry::Excluded { path, was_directory, is_hidden, is_root }
    }

    pub fn is_hidden(&self) -> (r: bool)
        ensures
            r == spec_is_hidden(*self),
    {
        match self {
            DirectoryEntry::File { is_hidden, .. } => *is_hidden,
            DirectoryEntry::Link { is_hidden, .. } => *is_hidden,
            DirectoryEntry::Folder { is_hidden, .. } => *is_hidden,
            DirectoryEntry::Excluded { is_hidden, .. } => *is_hidden,
            DirectoryEntry::Rollup { .. } => false,
        }
    }

    pub fn is_root(&self) -> (r: bool)
        ensures
            r == spec_is_root(*self),
    {
        match self {
            DirectoryEntry::File { .. } => false,
            DirectoryEntry::Folder { is_root, .. } => *is_root,
            DirectoryEntry::Link { is_root, .. } => *is_root,
            DirectoryEntry::Excluded { is_root, .. } => *is_root,
            DirectoryEntry::Rollup { .. } => false,
        }
    }

    pub fn path(&self) -> (r: &str)
        ensures
            r@ == spec_path(*self),
    {
        match self {
            DirectoryEntry::File { path, .. } => path.as_str(),
            DirectoryEntry::Folder { path, .. } => path.as_str(),
            DirectoryEntry::Link { path, .. } => path.as_str(),
            DirectoryEntry::Rollup { path, .. } => path.as_str(),
            DirectoryEntry::Excluded { path, .. } => path.as_str(),
        }
    }

    pub fn entries(&self) -> (r: Option<&Vec<DirectoryEntry>>)
        ensures
            match r {
                Some(v) => spec_entries(*self) == Some(v@),
                None => spec_entries(*self) is None,
            },
    {
        match self {
            DirectoryEntry::File { .. } => None,
            DirectoryEntry::Link { .. } => None,
            DirectoryEntry::Excluded { .. } => None,
            DirectoryEntry::Folder { entries, .. } => Some(entries),
            DirectoryEntry::Rollup { entries, .. } => Some(entries),
        }
    }

    pub fn has_children(&self) -> (r: bool)
        ensures
            r == match spec_entries(*self) {
                Some(s) => *self is Rollup || s.len() > 0,
                None => false,
            },
    {
        match self {
            DirectoryEntry::File { .. } => false,
            DirectoryEntry::Link { .. } => false,
            DirectoryEntry::Excluded { .. } => false,
            DirectoryEntry::Folder { entries, .. } => !entries.is_empty(),
            DirectoryEntry::Rollup { .. } => true,
        }
    }

    pub fn is_dir(&self) -> (r: bool)
        ensures
            r == spec_is_dir(*self),
    {
        match self {
            DirectoryEntry::Folder { .. } => true,
            _ => false,
        }
    }

    pub fn len(&self) -> (r: Option<&Byteable>)
        ensures
            match r {
                Some(b) => spec_len(*self) == Some(b.0),
                None => spec_len(*self) is None,
            },
    {
        match self {
            DirectoryEntry::File { len, .. } => Some(len),
            DirectoryEntry::Folder { len, .. } => Some(len),
            DirectoryEntry::Rollup { len, .. } => Some(len),
            DirectoryEntry::Link { .. } => None,
            DirectoryEntry::Excluded { .. } => None,
        }
    }

    /// The size rendered for display: the formatted byte count where one is
    /// defined, and a fixed marker for sizeless entries.
    pub fn len_str(&self) -> (r: String)
        ensures
            r@ == match spec_len(*self) {
                Some(l) => spec_format_binary(l as int),
                None => if *self is Link {
                    link_marker()
                } else {
                    excluded_marker()
                },
            },
    {
        match self {
            DirectoryEntry::File { len, .. } => len.to_string(),
            DirectoryEntry::Folder { len, .. } => len.to_string(),
            DirectoryEntry::Rollup { len, .. } => len.to_string(),
            DirectoryEntry::Link { .. } => {
                let r = String::from_str("--link--");
                proof {
                    reveal_strlit("--link--");
                    assert(r@ =~= link_marker());
                }
                r
            },
            DirectoryEntry::Excluded { .. } => {
                let r = String::from_str("--excluded--");
                proof {
                    reveal_strlit("--excluded--");
                    assert(r@ =~= excluded_marker());
                }
                r
            },
        }
    }

    /// The display name: the final path component, with a trailing separator
    /// for folders and a fixed label for rollup nodes.
    pub fn name(&self) -> (r: String)
        ensures
            r@ == spec_name(*self),
    {
        match self {
            DirectoryEntry::File { path, .. } => file_name_part(path.as_str()),
            DirectoryEntry::Link { path, .. } => file_name_part(path.as_str()),
            DirectoryEntry::Excluded { path, .. } => file_name_part(path.as_str()),
            DirectoryEntry::Folder { path, .. } => {
                let mut r = file_name_part(path.as_str());
                proof {
                    reveal_strlit("\\");
                }
                r.append("\\");
                proof {
                    assert(r@ =~= spec_file_name(path@).push(SEPARATOR));
                }
                r
            },
            DirectoryEntry::Rollup { .. } => {
                let r = String::from_str(ROLLUP_NAME);
                proof {
                    reveal_strlit("<other files...>");
                    assert(r@ =~= rollup_label());
                }
                r
            },
        }
    }

    /// The parent path of this entry's path, if the path is non-empty.
    pub fn get_parent(&self) -> (r: Option<String>)
        ensures
            match r {
                Some(p) => spec_parent(spec_path(*self)) == Some(p@),
                None => spec_parent(spec_path(*self)) is None,
            },
    {
        parent_part(self.path())
    }
}

/// The size marker shown for a symlink.
pub open spec fn link_marker() -> Seq<char> {
    seq!['-', '-', 'l', 'i', 'n', 'k', '-', '-']
}

/// The size marker shown for an excluded entry.
pub open spec fn excluded_marker() -> Seq<char> {
    seq!['-', '-', 'e', 'x', 'c', 'l', 'u', 'd', 'e', 'd', '-', '-']
}

/// The display label of a rollup node.
pub open spec fn rollup_label() -> Seq<char> {
    seq!['<', 'o', 't', 'h', 'e', 'r', ' ', 'f', 'i', 'l', 'e', 's', '.', '.', '.', '>']
}

/// The display name of an entry.
pub open spec fn spec_name(e: DirectoryEntry) -> Seq<char> {
    match e {
        DirectoryEntry::Folder { path, .. } => spec_file_name(path@).push(SEPARATOR),
        DirectoryEntry::Rollup { .. } => rollup_label(),
        _ => spec_file_name(spec_path(e)),
    }
}

} // verus!
