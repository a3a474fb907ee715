//! A flat, name-keyed usage tree.
//!
//! An earlier shape of the model: a tree node carries a plain name rather
//! than a full path, children are added one by one, and a rollup pass
//! collapses the small files of a node exactly as the path-keyed model
//! does. Every entry of this model carries a size.

use vstd::prelude::*;
use vstd::seq_lib::lemma_multiset_commutative;

use crate::file_types::{clamp_u64, spec_format_binary};
use crate::paths::SEPARATOR;

verus! {

/// A byte count, displayed against binary (1024-based) unit scales.
#[derive(Debug, Copy, Clone)]
pub struct Byteable {
    pub val: u64,
}

impl Byteable {
    /// Renders the byte count with its unit, for example `"1023.99 KB"`.
    pub fn to_string(&self) -> (r: String)
        ensures
            r@ == spec_format_binary(self.val as int),
    {
        crate::file_types::Byteable(self.val).to_string()
    }
}

/// A node of the flat tree: a name, an aggregate size, and the children.
#[derive(Debug)]
pub struct DirectoryTree {
    pub name: String,
    pub len: Byteable,
    pub entries: Vec<DirectoryEntry>,
}

/// One child of a flat tree node.
#[derive(Debug)]
pub enum DirectoryEntry {
    File { name: String, len: Byteable },
    Folder(DirectoryTree),
    Rollup { len: Byteable, entries: Vec<DirectoryEntry> },
}

/// The display label of a rollup entry.
pub const ROLLUP_NAME: &'static str = "<other files...>";

/// The size of an entry; in this model every entry has one.
pub open spec fn entry_len(e: DirectoryEntry) -> int {
    match e {
        DirectoryEntry::File { len, .. } => len.val as int,
        DirectoryEntry::Folder(t) => t.len.val as int,
        DirectoryEntry::Rollup { len, .. } => len.val as int,
    }
}

pub open spec fn spec_entry_is_dir(e: DirectoryEntry) -> bool {
    e is Folder
}

pub open spec fn sum_lens(s: Seq<DirectoryEntry>) -> int
    decreases s.len(),
{
    if s.len() == 0 {
        0
    } else {
        sum_lens(s.drop_last()) + entry_len(s.last())
    }
}

pub open spec fn sorted_desc_by_len(s: Seq<DirectoryEntry>) -> bool {
    forall|i: int, j: int| 0 <= i <= j < s.len() ==> entry_len(s[i]) >= entry_len(s[j])
}

pub open spec fn sorted_asc_by_len(s: Seq<DirectoryEntry>) -> bool {
    forall|i: int, j: int| 0 <= i <= j < s.len() ==> entry_len(s[i]) <= entry_len(s[j])
}

/// How a size-ascending child sequence splits: every entry before the
/// first directory is absorbed; from the first directory on, everything is
/// kept unchanged.
pub open spec fn split_rolled_flat(s: Seq<DirectoryEntry>) -> (Seq<DirectoryEntry>, Seq<
    DirectoryEntry,
>)
    decreases s.len(),
{
    if s.len() == 0 {
        (Seq::empty(), Seq::empty())
    } else if spec_entry_is_dir(s[0]) {
        (Seq::empty(), s)
    } else {
        let rest = split_rolled_flat(s.drop_first());
        (seq![s[0]] + rest.0, rest.1)
    }
}

proof fn lemma_sum_lens_concat(a: Seq<DirectoryEntry>, b: Seq<DirectoryEntry>)
    ensures
        sum_lens(a + b) == sum_lens(a) + sum_lens(b),
    decreases b.len(),
{
    if b.len() == 0 {
        assert(a + b =~= a);
    } else {
        lemma_sum_lens_concat(a, b.drop_last());
        assert((a + b).drop_last() =~= a + b.drop_last());
        assert((a + b).last() == b.last());
    }
}

/// The split loses nothing, keeps size totals, and absorbs no directory.
proof fn lemma_split_flat_parts(s: Seq<DirectoryEntry>)
    ensures
        (split_rolled_flat(s).0 + split_rolled_flat(s).1).to_multiset() == s.to_multiset(),
        sum_lens(split_rolled_flat(s).0) + sum_lens(split_rolled_flat(s).1) == sum_lens(s),
        forall|i: int|
            0 <= i < split_rolled_flat(s).0.len() ==> !spec_entry_is_dir(
                #[trigger] split_rolled_flat(s).0[i],
            ),
    decreases s.len(),
{
    broadcast use lemma_multiset_commutative;
    broadcast use vstd::multiset::group_multiset_axioms;

    let rolled = split_rolled_flat(s).0;
    let kept = split_rolled_flat(s).1;
    if s.len() == 0 {
        assert(rolled + kept =~= s);
    } else if spec_entry_is_dir(s[0]) {
        assert(rolled + kept =~= s);
        assert(sum_lens(rolled) == 0);
    } else {
        let tail = s.drop_first();
        lemma_split_flat_parts(tail);
        let r0 = split_rolled_flat(tail).0;
        let k0 = split_rolled_flat(tail).1;
        let head = seq![s[0]];
        assert(s =~= head + tail);
        lemma_sum_lens_concat(head, tail);
        assert(sum_lens(head) == entry_len(s[0])) by {
            assert(head.last() == s[0]);
            assert(head.drop_last() =~= Seq::<DirectoryEntry>::empty());
            assert(sum_lens(Seq::<DirectoryEntry>::empty()) == 0);
        }
        assert(rolled == head + r0 && kept == k0);
        lemma_sum_lens_concat(head, r0);
        assert((rolled + kept).to_multiset() =~= s.to_multiset()) by {
            assert(rolled + kept =~= head + (r0 + k0));
        }
        assert forall|i: int| 0 <= i < rolled.len() implies !spec_entry_is_dir(
            #[trigger] rolled[i],
        ) by {
            if i > 0 {
                assert(rolled[i] == r0[i - 1]);
            }
        }
    }
}

/// The size an entry carries.
fn entry_size_flat(e: &DirectoryEntry) -> (r: u64)
    ensures
        r as int == entry_len(*e),
{
    match e {
        DirectoryEntry::File { len, .. } => len.val,
        DirectoryEntry::Folder(t) => t.len.val,
        DirectoryEntry::Rollup { len, .. } => len.val,
    }
}

fn sort_ascending_flat(v: Vec<DirectoryEntry>) -> (r: Vec<DirectoryEntry>)
    ensures
        sorted_asc_by_len(r@),
        r@.to_multiset() == v@.to_multiset(),
{
    let ghost orig = v@;
    let mut rest = v;
    let n = rest.len();
    let mut out: Vec<DirectoryEntry> = Vec::new();
    let mut i: usize = 0;
    proof {
        assert(rest@ =~= orig.skip(0));
        assert(out@ =~= orig.take(0));
    }
    while rest.len() > 0
        invariant
            i <= n,
            n == orig.len(),
            rest@ == orig.skip(i as int),
            sorted_asc_by_len(out@),
            out@.to_multiset() == orig.take(i as int).to_multiset(),
        decreases rest.len(),
    {
        let e = rest.remove(0);
        proof {
            assert(orig.skip(i as int)[0] == orig[i as int]);
            assert(orig.skip(i as int).remove(0) =~= orig.skip(i + 1));
        }
        let key = entry_size_flat(&e);
        let mut j: usize = 0;
        while j < out.len() && entry_size_flat(&out[j]) <= key
            invariant
                j <= out@.len(),
                sorted_asc_by_len(out@),
                forall|m: int| 0 <= m < j ==> entry_len(out@[m]) <= key as int,
            decreases out@.len() - j,
        {
            j = j + 1;
        }
        proof {
            assert(forall|m: int| j <= m < out@.len() ==> entry_len(out@[m]) >= key as int);
        }
        let ghost prev = out@;
        out.insert(j, e);
        proof {
            prev.insert_ensures(j as int, e);
            assert forall|p: int, q: int| 0 <= p <= q < out@.len() implies entry_len(out@[p])
                <= entry_len(out@[q]) by {
                if p > j {
                    assert(out@[p] == prev[p - 1]);
                }
                if q > j {
                    assert(out@[q] == prev[q - 1]);
                }
            }
            assert(sorted_asc_by_len(out@));
            vstd::seq_lib::to_multiset_insert(prev, j as int, e);
            vstd::seq_lib::to_multiset_build(orig.take(i as int), orig[i as int]);
            assert(orig.take(i + 1) =~= orig.take(i as int).push(orig[i as int]));
            assert(out@.to_multiset() == orig.take(i + 1).to_multiset());
        }
        i = i + 1;
    }
    proof {
        assert(orig.take(orig.len() as int) =~= orig);
    }
    out
}

fn sort_descending_flat(v: Vec<DirectoryEntry>) -> (r: Vec<DirectoryEntry>)
    ensures
        sorted_desc_by_len(r@),
        r@.to_multiset() == v@.to_multiset(),
{
    let ghost orig = v@;
    let mut rest = v;
    let n = rest.len();
    let mut out: Vec<DirectoryEntry> = Vec::new();
    let mut i: usize = 0;
    proof {
        assert(rest@ =~= orig.skip(0));
        assert(out@ =~= orig.take(0));
    }
    while rest.len() > 0
        invariant
            i <= n,
            n == orig.len(),
            rest@ == orig.skip(i as int),
            sorted_desc_by_len(out@),
            out@.to_multiset() == orig.take(i as int).to_multiset(),
        decreases rest.len(),
    {
        let e = rest.remove(0);
        proof {
            assert(orig.skip(i as int)[0] == orig[i as int]);
            assert(orig.skip(i as int).remove(0) =~= orig.skip(i + 1));
        }
        let key = entry_size_flat(&e);
        let mut j: usize = 0;
        while j < out.len() && entry_size_flat(&out[j]) >= key
            invariant
                j <= out@.len(),
                sorted_desc_by_len(out@),
                forall|m: int| 0 <= m < j ==> entry_len(out@[m]) >= key as int,
            decreases out@.len() - j,
        {
            j = j + 1;
        }
        proof {
            assert(forall|m: int| j <= m < out@.len() ==> entry_len(out@[m]) <= key as int);
        }
        let ghost prev = out@;
        out.insert(j, e);
        proof {
            prev.insert_ensures(j as int, e);
            assert forall|p: int, q: int| 0 <= p <= q < out@.len() implies entry_len(out@[p])
                >= entry_len(out@[q]) by {
                if p > j {
                    assert(out@[p] == prev[p - 1]);
                }
                if q > j {
                    assert(out@[q] == prev[q - 1]);
                }
            }
            assert(sorted_desc_by_len(out@));
            vstd::seq_lib::to_multiset_insert(prev, j as int, e);
            vstd::seq_lib::to_multiset_build(orig.take(i as int), orig[i as int]);
            assert(orig.take(i + 1) =~= orig.take(i as int).push(orig[i as int]));
            assert(out@.to_multiset() == orig.take(i + 1).to_multiset());
        }
        i = i + 1;
    }
    proof {
        assert(orig.take(orig.len() as int) =~= orig);
    }
    out
}

/// The summary entry over the absorbed run.
pub open spec fn is_flat_rollup_node(node: DirectoryEntry, rolled: Seq<DirectoryEntry>) -> bool {
    &&& node is Rollup
    &&& entry_len(node) == clamp_u64(sum_lens(rolled))
    &&& (node matches DirectoryEntry::Rollup { entries, .. } ==> entries@ == rolled)
}

/// `result` is what the flat rollup pass may produce from `input`.
pub open spec fn flat_rollup_rel(input: Seq<DirectoryEntry>, result: Seq<DirectoryEntry>) -> bool {
    exists|s: Seq<DirectoryEntry>|
        {
            &&& #[trigger] s.to_multiset() == input.to_multiset()
            &&& sorted_asc_by_len(s)
            &&& {
                let rolled = split_rolled_flat(s).0;
                let kept = split_rolled_flat(s).1;
                if rolled.len() == 0 {
                    result.to_multiset() == kept.to_multiset()
                } else {
                    exists|node: DirectoryEntry|
                        #[trigger] is_flat_rollup_node(node, rolled) && result.to_multiset()
                            == kept.to_multiset().insert(node)
                }
            }
        }
}

fn new_flat_rollup(entries: Vec<DirectoryEntry>) -> (r: DirectoryEntry)
    ensures
        r is Rollup,
        entry_len(r) == clamp_u64(sum_lens(entries@)),
        (r matches DirectoryEntry::Rollup { entries: re, .. } ==> re@ == entries@),
{
    let mut acc: u64 = 0;
    let mut i: usize = 0;
    proof {
        assert(entries@.take(0) =~= Seq::<DirectoryEntry>::empty());
        assert(sum_lens(Seq::<DirectoryEntry>::empty()) == 0);
    }
    while i < entries.len()
        invariant
            i <= entries@.len(),
            acc as int == clamp_u64(sum_lens(entries@.take(i as int))),
        decreases entries@.len() - i,
    {
        let sz = entry_size_flat(&entries[i]);
        proof {
            assert(entries@.take(i + 1).drop_last() =~= entries@.take(i as int));
            assert(entries@.take(i + 1).last() == entries@[i as int]);
            lemma_sum_lens_nonneg(entries@.take(i as int));
        }
        acc = if sz > u64::MAX - acc {
            u64::MAX
        } else {
            acc + sz
        };
        i = i + 1;
    }
    proof {
        assert(entries@.take(entries@.len() as int) =~= entries@);
        lemma_sum_lens_nonneg(entries@);
    }
    DirectoryEntry::Rollup { len: Byteable { val: acc }, entries }
}

proof fn lemma_sum_lens_nonneg(s: Seq<DirectoryEntry>)
    ensures
        sum_lens(s) >= 0,
    decreases s.len(),
{
    if s.len() > 0 {
        lemma_sum_lens_nonneg(s.drop_last());
    }
}

fn rolled_up_flat(entries: Vec<DirectoryEntry>) -> (r: Vec<DirectoryEntry>)
    ensures
        sorted_desc_by_len(r@),
        flat_rollup_rel(entries@, r@),
{
    let ghost input = entries@;
    let sorted = sort_ascending_flat(entries);
    let ghost s = sorted@;
    let n = sorted.len();
    let mut rest = sorted;
    let mut rolled: Vec<DirectoryEntry> = Vec::new();
    let mut kept: Vec<DirectoryEntry> = Vec::new();
    let mut still = true;
    let mut i: usize = 0;
    proof {
        assert(rest@ =~= s.skip(0));
        assert(rolled@ + split_rolled_flat(s.skip(0)).0 =~= split_rolled_flat(s).0);
        assert(kept@ + split_rolled_flat(s.skip(0)).1 =~= split_rolled_flat(s).1);
    }
    while rest.len() > 0
        invariant
            i <= n,
            n == s.len(),
            rest@ == s.skip(i as int),
            still ==> split_rolled_flat(s).0 == rolled@ + split_rolled_flat(s.skip(i as int)).0
                && split_rolled_flat(s).1 == kept@ + split_rolled_flat(s.skip(i as int)).1,
            !still ==> split_rolled_flat(s).0 == rolled@ && split_rolled_flat(s).1 == kept@
                + s.skip(i as int),
        decreases rest.len(),
    {
        let ghost tail = s.skip(i as int);
        let ghost rolled_prev = rolled@;
        let ghost kept_prev = kept@;
        let ghost still_prev = still;
        let e = rest.remove(0);
        proof {
            assert(tail[0] == s[i as int]);
            assert(tail.drop_first() =~= s.skip(i + 1));
            assert(s.skip(i as int).remove(0) =~= s.skip(i + 1));
        }
        let is_dir = match &e {
            DirectoryEntry::Folder(_) => true,
            _ => false,
        };
        if !is_dir && still {
            rolled.push(e);
            proof {
                assert(split_rolled_flat(tail).0 == seq![tail[0]] + split_rolled_flat(
                    tail.drop_first(),
                ).0);
                assert(split_rolled_flat(tail).1 == split_rolled_flat(tail.drop_first()).1);
                assert(split_rolled_flat(s).0 =~= rolled@ + split_rolled_flat(s.skip(i + 1)).0)
                    by {
                    assert(rolled_prev + (seq![tail[0]] + split_rolled_flat(tail.drop_first()).0)
                        =~= (rolled_prev + seq![tail[0]]) + split_rolled_flat(
                        tail.drop_first(),
                    ).0);
                    assert(rolled@ =~= rolled_prev + seq![tail[0]]);
                }
            }
        } else {
            still = false;
            kept.push(e);
            proof {
                if still_prev {
                    assert(spec_entry_is_dir(tail[0]));
                    assert(split_rolled_flat(tail).0 == Seq::<DirectoryEntry>::empty());
                    assert(split_rolled_flat(tail).1 == tail);
                    assert(split_rolled_flat(s).0 =~= rolled@) by {
                        assert(rolled_prev + Seq::<DirectoryEntry>::empty() =~= rolled_prev);
                    }
                }
                assert(split_rolled_flat(s).1 =~= kept@ + s.skip(i + 1)) by {
                    assert(tail =~= seq![tail[0]] + tail.drop_first());
                    assert(kept_prev + (seq![tail[0]] + tail.drop_first()) =~= (kept_prev + seq![
                        tail[0],
                    ]) + tail.drop_first());
                    assert(kept@ =~= kept_prev + seq![tail[0]]);
                }
            }
        }
        i = i + 1;
    }
    proof {
        assert(s.skip(n as int) =~= Seq::<DirectoryEntry>::empty());
        assert(split_rolled_flat(Seq::<DirectoryEntry>::empty()).0 == Seq::<
            DirectoryEntry,
        >::empty());
        if still {
            assert(split_rolled_flat(s).0 =~= rolled@) by {
                assert(rolled@ + Seq::<DirectoryEntry>::empty() =~= rolled@);
            }
            assert(split_rolled_flat(s).1 =~= kept@) by {
                assert(kept@ + Seq::<DirectoryEntry>::empty() =~= kept@);
            }
        } else {
            assert(split_rolled_flat(s).1 =~= kept@) by {
                assert(kept@ + Seq::<DirectoryEntry>::empty() =~= kept@);
            }
        }
        assert(split_rolled_flat(s).0 == rolled@ && split_rolled_flat(s).1 == kept@);
    }
    let ghost rolled_seq = rolled@;
    let ghost kept_base = kept@;
    if rolled.len() > 0 {
        let node = new_flat_rollup(rolled);
        proof {
            assert(is_flat_rollup_node(node, rolled_seq));
        }
        kept.push(node);
        proof {
            vstd::seq_lib::to_multiset_build(kept_base, node);
        }
    }
    let result = sort_descending_flat(kept);
    proof {
        assert(s.to_multiset() == input.to_multiset() && sorted_asc_by_len(s) && {
            let rolled_w = split_rolled_flat(s).0;
            let kept_w = split_rolled_flat(s).1;
            if rolled_w.len() == 0 {
                result@.to_multiset() == kept_w.to_multiset()
            } else {
                exists|node: DirectoryEntry|
                    #[trigger] is_flat_rollup_node(node, rolled_w) && result@.to_multiset()
                        == kept_w.to_multiset().insert(node)
            }
        });
    }
    result
}

impl DirectoryTree {
    /// Starts an empty node under `name`.
    pub fn new(name: String) -> (r: DirectoryTree)
        ensures
            r.name == name,
            r.len.val == 0,
            r.entries@ == Seq::<DirectoryEntry>::empty(),
    {
        DirectoryTree { name, len: Byteable { val: 0 }, entries: Vec::new() }
    }

    /// Adds a finished subtree as a child.
    pub fn add_directory(&mut self, tree: DirectoryTree)
        ensures
            final(self).entries@ == old(self).entries@.push(DirectoryEntry::Folder(tree)),
            final(self).name == old(self).name,
            final(self).len == old(self).len,
    {
        self.entries.push(DirectoryEntry::Folder(tree));
    }

    /// Adds a file child.
    pub fn add_file(&mut self, name: String, len: Byteable)
        ensures
            final(self).entries@ == old(self).entries@.push(DirectoryEntry::File { name, len }),
            final(self).name == old(self).name,
            final(self).len == old(self).len,
    {
        self.entries.push(DirectoryEntry::File { name, len });
    }

    /// Rolls the children up: sorted ascending by size, the run of files
    /// before the first directory is absorbed into one summary entry, and
    /// the final children are sorted descending by size.
    pub fn rollup(&mut self)
        ensures
            final(self).name == old(self).name,
            final(self).len == old(self).len,
            sorted_desc_by_len(final(self).entries@),
            flat_rollup_rel(old(self).entries@, final(self).entries@),
    {
        let mut taken: Vec<DirectoryEntry> = Vec::new();
        core::mem::swap(&mut self.entries, &mut taken);
        let rolled = rolled_up_flat(taken);
        self.entries = rolled;
    }
}

impl DirectoryEntry {
    pub fn is_dir(&self) -> (r: bool)
        ensures
            r == spec_entry_is_dir(*self),
    {
        match self {
            DirectoryEntry::File { .. } => false,
            DirectoryEntry::Folder(_) => true,
            DirectoryEntry::Rollup { .. } => false,
        }
    }

    /// The size the entry carries.
    pub fn len(&self) -> (r: &Byteable)
        ensures
            r.val as int == entry_len(*self),
    {
        match self {
            DirectoryEntry::File { len, .. } => len,
            DirectoryEntry::Folder(dir) => &dir.len,
            DirectoryEntry::Rollup { len, .. } => len,
        }
    }

    /// The display name: the file's name, the folder's name with a trailing
    /// separator, or the fixed rollup label.
    pub fn name(&self) -> (r: String)
        ensures
            r@ == match *self {
                DirectoryEntry::File { name, .. } => name@,
                DirectoryEntry::Folder(t) => t.name@.push(SEPARATOR),
                DirectoryEntry::Rollup { .. } => crate::file_types::rollup_label(),
            },
    {
        match self {
            DirectoryEntry::File { name, .. } => {
                let mut out = String::new();
                out.append(name.as_str());
                proof {
                    assert(out@ =~= name@);
                }
                out
            },
            DirectoryEntry::Folder(dir) => {
                let mut out = String::new();
                out.append(dir.name.as_str());
                proof {
                    reveal_strlit("\\");
                }
                out.append("\\");
                proof {
                    assert(out@ =~= dir.name@.push(SEPARATOR));
                }
                out
            },
            DirectoryEntry::Rollup { .. } => {
                let out = String::from_str(ROLLUP_NAME);
                proof {
                    reveal_strlit("<other files...>");
                    assert(out@ =~= crate::file_types::rollup_label());
                }
                out
            },
        }
    }
}

} // verus!
