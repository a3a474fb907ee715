//! The rollup engine.
//!
//! Given a folder's fully-populated children, the engine sorts them by size
//! ascending, absorbs the run of sized non-directory entries that precedes
//! the first directory into one synthetic summary node, and hands back the
//! final children sorted by size descending.

use vstd::prelude::*;
use vstd::seq_lib::group_to_multiset_ensures;
use vstd::seq_lib::lemma_multiset_commutative;

use crate::file_types::{
    clamp_u64, rollable, size_of, sorted_asc, sorted_desc, spec_entries, spec_is_dir,
    spec_is_hidden, spec_is_root, spec_len, spec_path, sum_sizes, well_formed, Byteable,
    DirectoryEntry,
};

verus! {

/// Sums are unchanged by concatenation order.
proof fn lemma_sum_concat(a: Seq<DirectoryEntry>, b: Seq<DirectoryEntry>)
    ensures
        sum_sizes(a + b) == sum_sizes(a) + sum_sizes(b),
    decreases b.len(),
{
    if b.len() == 0 {
        assert(a + b =~= a);
    } else {
        lemma_sum_concat(a, b.drop_last());
        assert((a + b).drop_last() =~= a + b.drop_last());
        assert((a + b).last() == b.last());
    }
}

proof fn lemma_sum_nonneg(s: Seq<DirectoryEntry>)
    ensures
        sum_sizes(s) >= 0,
    decreases s.len(),
{
    if s.len() > 0 {
        lemma_sum_nonneg(s.drop_last());
    }
}

proof fn lemma_sum_remove(s: Seq<DirectoryEntry>, j: int)
    requires
        0 <= j < s.len(),
    ensures
        sum_sizes(s) == sum_sizes(s.remove(j)) + size_of(s[j]),
{
    let front = s.take(j);
    let mid = seq![s[j]];
    let back = s.skip(j + 1);
    assert(s =~= front + mid + back);
    assert(s.remove(j) =~= front + back);
    lemma_sum_concat(front + mid, back);
    lemma_sum_concat(front, mid);
    lemma_sum_concat(front, back);
    assert(sum_sizes(mid) == size_of(s[j])) by {
        assert(mid.last() == s[j]);
        assert(mid.drop_last() =~= Seq::<DirectoryEntry>::empty());
        assert(sum_sizes(Seq::<DirectoryEntry>::empty()) == 0);
    }
}

/// Two sequences holding the same entries with the same multiplicities have
/// the same size sum.
proof fn lemma_sum_permutation(a: Seq<DirectoryEntry>, b: Seq<DirectoryEntry>)
    requires
        a.to_multiset() == b.to_multiset(),
    ensures
        sum_sizes(a) == sum_sizes(b),
    decreases a.len(),
{
    broadcast use group_to_multiset_ensures;

    if a.len() == 0 {
        vstd::seq_lib::to_multiset_len(a);
        vstd::seq_lib::to_multiset_len(b);
        assert(b.len() == 0);
    } else {
        let x = a.last();
        assert(a.contains(x));
        assert(b.to_multiset().count(x) > 0);
        assert(b.contains(x));
        let j = choose|j: int| 0 <= j < b.len() && b[j] == x;
        assert(a.drop_last() =~= a.remove(a.len() - 1));
        assert(a.remove(a.len() - 1).to_multiset() == a.to_multiset().remove(x));
        assert(b.remove(j).to_multiset() == b.to_multiset().remove(x));
        lemma_sum_permutation(a.drop_last(), b.remove(j));
        lemma_sum_remove(b, j);
        lemma_sum_remove(a, a.len() - 1);
        assert(a.remove(a.len() - 1) =~= a.drop_last());
    }
}

/// The size an entry contributes to an aggregate.
pub(crate) fn entry_size(e: &DirectoryEntry) -> (r: u64)
    ensures
        r as int == size_of(*e),
{
    match e.len() {
        Some(b) => b.0,
        None => 0,
    }
}

/// Sorts entries by size, ascending; the relative order of equal sizes is
/// left to the implementation.
fn sort_ascending(v: Vec<DirectoryEntry>) -> (r: Vec<DirectoryEntry>)
    ensures
        sorted_asc(r@),
        r@.to_multiset() == v@.to_multiset(),
{
    let ghost orig = v@;
    let mut rest = v;
    let n = rest.len();
    let mut out: Vec<DirectoryEntry> = Vec::new();
    let mut i: usize = 0;
    proof {
        assert(rest@ =~= orig.skip(0));
        assert(out@ =~= orig.take(0));
    }
    while rest.len() > 0
        invariant
            i <= n,
            n == orig.len(),
            rest@ == orig.skip(i as int),
            sorted_asc(out@),
            out@.to_multiset() == orig.take(i as int).to_multiset(),
        decreases rest.len(),
    {
        let e = rest.remove(0);
        proof {
            assert(orig.skip(i as int)[0] == orig[i as int]);
            assert(orig.skip(i as int).remove(0) =~= orig.skip(i + 1));
        }
        let key = entry_size(&e);
        let mut j: usize = 0;
        while j < out.len() && entry_size(&out[j]) <= key
            invariant
                j <= out@.len(),
                sorted_asc(out@),
                forall|m: int| 0 <= m < j ==> size_of(out@[m]) <= key as int,
            decreases out@.len() - j,
        {
            j = j + 1;
        }
        proof {
            assert(forall|m: int| j <= m < out@.len() ==> size_of(out@[m]) >= key as int);
        }
        let ghost prev = out@;
        out.insert(j, e);
        proof {
            prev.insert_ensures(j as int, e);
            assert forall|p: int, q: int| 0 <= p <= q < out@.len() implies size_of(out@[p])
                <= size_of(out@[q]) by {
                if p > j {
                    assert(out@[p] == prev[p - 1]);
                }
                if q > j {
                    assert(out@[q] == prev[q - 1]);
                }
            }
            assert(sorted_asc(out@));
            vstd::seq_lib::to_multiset_insert(prev, j as int, e);
            vstd::seq_lib::to_multiset_build(orig.take(i as int), orig[i as int]);
            assert(orig.take(i + 1) =~= orig.take(i as int).push(orig[i as int]));
            assert(out@.to_multiset() == orig.take(i + 1).to_multiset());
        }
        i = i + 1;
    }
    proof {
        assert(orig.take(orig.len() as int) =~= orig);
    }
    out
}

/// Sorts entries by size, descending; the relative order of equal sizes is
/// left to the implementation.
fn sort_descending(v: Vec<DirectoryEntry>) -> (r: Vec<DirectoryEntry>)
    ensures
        sorted_desc(r@),
        r@.to_multiset() == v@.to_multiset(),
{
    let ghost orig = v@;
    let mut rest = v;
    let n = rest.len();
    let mut out: Vec<DirectoryEntry> = Vec::new();
    let mut i: usize = 0;
    proof {
        assert(rest@ =~= orig.skip(0));
        assert(out@ =~= orig.take(0));
    }
    while rest.len() > 0
        invariant
            i <= n,
            n == orig.len(),
            rest@ == orig.skip(i as int),
            sorted_desc(out@),
            out@.to_multiset() == orig.take(i as int).to_multiset(),
        decreases rest.len(),
    {
        let e = rest.remove(0);
        proof {
            assert(orig.skip(i as int)[0] == orig[i as int]);
            assert(orig.skip(i as int).remove(0) =~= orig.skip(i + 1));
        }
        let key = entry_size(&e);
        let mut j: usize = 0;
        while j < out.len() && entry_size(&out[j]) >= key
            invariant
                j <= out@.len(),
                sorted_desc(out@),
                forall|m: int| 0 <= m < j ==> size_of(out@[m]) >= key as int,
            decreases out@.len() - j,
        {
            j = j + 1;
        }
        proof {
            assert(forall|m: int| j <= m < out@.len() ==> size_of(out@[m]) <= key as int);
        }
        let ghost prev = out@;
        out.insert(j, e);
        proof {
            prev.insert_ensures(j as int, e);
            assert forall|p: int, q: int| 0 <= p <= q < out@.len() implies size_of(out@[p])
                >= size_of(out@[q]) by {
                if p > j {
                    assert(out@[p] == prev[p - 1]);
                }
                if q > j {
                    assert(out@[q] == prev[q - 1]);
                }
            }
            assert(sorted_desc(out@));
            vstd::seq_lib::to_multiset_insert(prev, j as int, e);
            vstd::seq_lib::to_multiset_build(orig.take(i as int), orig[i as int]);
            assert(orig.take(i + 1) =~= orig.take(i as int).push(orig[i as int]));
            assert(out@.to_multiset() == orig.take(i + 1).to_multiset());
        }
        i = i + 1;
    }
    proof {
        assert(orig.take(orig.len() as int) =~= orig);
    }
    out
}

/// How a size-ascending child sequence splits into the absorbed run and the
/// kept entries: sized non-directories are absorbed until the first
/// directory is reached, from which point everything is kept unchanged;
/// sizeless entries (links, excluded paths) are never absorbed and do not
/// stop the run.
pub open spec fn split_rolled(s: Seq<DirectoryEntry>) -> (Seq<DirectoryEntry>, Seq<
    DirectoryEntry,
>)
    decreases s.len(),
{
    if s.len() == 0 {
        (Seq::empty(), Seq::empty())
    } else if spec_is_dir(s[0]) {
        (Seq::empty(), s)
    } else if rollable(s[0]) {
        let rest = split_rolled(s.drop_first());
        (seq![s[0]] + rest.0, rest.1)
    } else {
        let rest = split_rolled(s.drop_first());
        (rest.0, seq![s[0]] + rest.1)
    }
}

/// The split loses nothing, keeps size totals, and absorbs only sized
/// non-directories.
proof fn lemma_split_parts(s: Seq<DirectoryEntry>)
    ensures
        (split_rolled(s).0 + split_rolled(s).1).to_multiset() == s.to_multiset(),
        sum_sizes(split_rolled(s).0) + sum_sizes(split_rolled(s).1) == sum_sizes(s),
        forall|i: int| 0 <= i < split_rolled(s).0.len() ==> rollable(#[trigger] split_rolled(s).0[i]),
    decreases s.len(),
{
    broadcast use lemma_multiset_commutative;
    broadcast use vstd::multiset::group_multiset_axioms;

    let rolled = split_rolled(s).0;
    let kept = split_rolled(s).1;
    if s.len() == 0 {
        assert(rolled + kept =~= s);
    } else if spec_is_dir(s[0]) {
        assert(rolled + kept =~= s);
        assert(sum_sizes(rolled) == 0);
    } else {
        let tail = s.drop_first();
        lemma_split_parts(tail);
        let r0 = split_rolled(tail).0;
        let k0 = split_rolled(tail).1;
        let head = seq![s[0]];
        assert(s =~= head + tail);
        lemma_sum_concat(head, tail);
        assert(sum_sizes(head) == size_of(s[0])) by {
            assert(head.last() == s[0]);
            assert(head.drop_last() =~= Seq::<DirectoryEntry>::empty());
            assert(sum_sizes(Seq::<DirectoryEntry>::empty()) == 0);
        }
        if rollable(s[0]) {
            assert(rolled == head + r0 && kept == k0);
            lemma_sum_concat(head, r0);
            assert((rolled + kept).to_multiset() =~= s.to_multiset()) by {
                assert(rolled + kept =~= head + (r0 + k0));
            }
            assert forall|i: int| 0 <= i < rolled.len() implies rollable(#[trigger] rolled[i]) by {
                if i > 0 {
                    assert(rolled[i] == r0[i - 1]);
                }
            }
        } else {
            assert(rolled == r0 && kept == head + k0);
            lemma_sum_concat(head, k0);
            assert((rolled + kept).to_multiset() =~= s.to_multiset()) by {
                assert((r0 + (head + k0)).to_multiset() =~= ((head + r0) + k0).to_multiset());
                assert(rolled + kept =~= r0 + (head + k0));
                assert(head + (r0 + k0) =~= (head + r0) + k0);
            }
        }
    }
}

/// The index of the first directory in `s`, or `s.len()` when there is none.
pub open spec fn first_dir_index(s: Seq<DirectoryEntry>) -> int
    decreases s.len(),
{
    if s.len() == 0 {
        0
    } else if spec_is_dir(s[0]) {
        0
    } else {
        1 + first_dir_index(s.drop_first())
    }
}

/// Law (rollup eligibility): a rollup never absorbs a directory, and the
/// absorbed entries come solely from the part of the size-ascending order
/// that precedes the first directory — from the first directory on, every
/// entry is kept as it stands, whatever its size.
pub proof fn lemma_rollup_eligibility(s: Seq<DirectoryEntry>)
    ensures
        0 <= first_dir_index(s) <= s.len(),
        forall|j: int| 0 <= j < first_dir_index(s) ==> !spec_is_dir(#[trigger] s[j]),
        first_dir_index(s) < s.len() ==> spec_is_dir(s[first_dir_index(s)]),
        split_rolled(s).0 == split_rolled(s.take(first_dir_index(s))).0,
        split_rolled(s).1 == split_rolled(s.take(first_dir_index(s))).1 + s.skip(
            first_dir_index(s),
        ),
        forall|i: int| 0 <= i < split_rolled(s).0.len() ==> rollable(#[trigger] split_rolled(s).0[i]),
    decreases s.len(),
{
    lemma_split_parts(s);
    let k = first_dir_index(s);
    if s.len() == 0 {
        assert(s.take(0) =~= s);
        assert(split_rolled(s).1 =~= split_rolled(s.take(0)).1 + s.skip(0));
    } else if spec_is_dir(s[0]) {
        assert(s.take(0) =~= Seq::<DirectoryEntry>::empty());
        assert(s.skip(0) =~= s);
        assert(split_rolled(s).1 =~= split_rolled(s.take(0)).1 + s.skip(0));
    } else {
        let tail = s.drop_first();
        lemma_rollup_eligibility(tail);
        let k0 = first_dir_index(tail);
        assert(k == 1 + k0);
        assert forall|j: int| 0 <= j < k implies !spec_is_dir(#[trigger] s[j]) by {
            if j > 0 {
                assert(s[j] == tail[j - 1]);
            }
        }
        if k < s.len() {
            assert(s[k] == tail[k0]);
        }
        let p = s.take(k);
        assert(p[0] == s[0]);
        assert(p.drop_first() =~= tail.take(k0));
        assert(s.skip(k) =~= tail.skip(k0));
        if rollable(s[0]) {
            assert(split_rolled(p).0 == seq![s[0]] + split_rolled(tail.take(k0)).0);
            assert(split_rolled(p).1 == split_rolled(tail.take(k0)).1);
            assert(split_rolled(s).0 == seq![s[0]] + split_rolled(tail).0);
            assert(split_rolled(s).0 == split_rolled(p).0);
            assert(split_rolled(s).1 == split_rolled(p).1 + s.skip(k));
        } else {
            assert(split_rolled(p).0 == split_rolled(tail.take(k0)).0);
            assert(split_rolled(p).1 == seq![s[0]] + split_rolled(tail.take(k0)).1);
            assert(split_rolled(s).0 == split_rolled(p).0);
            assert(split_rolled(s).1 =~= split_rolled(p).1 + s.skip(k)) by {
                assert(split_rolled(s).1 == seq![s[0]] + split_rolled(tail).1);
                assert(split_rolled(tail).1 == split_rolled(tail.take(k0)).1 + tail.skip(k0));
                assert(seq![s[0]] + (split_rolled(tail.take(k0)).1 + tail.skip(k0)) =~= (seq![s[0]]
                    + split_rolled(tail.take(k0)).1) + tail.skip(k0));
            }
        }
    }
}

/// A synthetic summary node: it carries the parent folder's path, the
/// clamped sum of the absorbed entries' sizes, and the absorbed entries.
pub open spec fn is_rollup_node(
    node: DirectoryEntry,
    parent: Seq<char>,
    rolled: Seq<DirectoryEntry>,
) -> bool {
    &&& node is Rollup
    &&& spec_path(node) == parent
    &&& spec_len(node) == Some(clamp_u64(sum_sizes(rolled)) as u64)
    &&& spec_entries(node) == Some(rolled)
}

/// `result` is what the rollup engine may hand back for the children
/// `input` of a folder at `parent`, witnessed by the size-ascending order
/// `s` that the engine worked through.
pub open spec fn rollup_witness(
    input: Seq<DirectoryEntry>,
    result: Seq<DirectoryEntry>,
    parent: Seq<char>,
    s: Seq<DirectoryEntry>,
) -> bool {
    &&& s.to_multiset() == input.to_multiset()
    &&& sorted_asc(s)
    &&& {
        let rolled = split_rolled(s).0;
        let kept = split_rolled(s).1;
        if rolled.len() == 0 {
            result.to_multiset() == kept.to_multiset()
        } else {
            exists|node: DirectoryEntry|
                #[trigger] is_rollup_node(node, parent, rolled) && result.to_multiset()
                    == kept.to_multiset().insert(node)
        }
    }
}

/// `result` relates to `input` as some run of the rollup engine: ties in
/// the size order make the witness, and so the exact outcome, ambiguous by
/// design.
pub open spec fn rollup_rel(
    input: Seq<DirectoryEntry>,
    result: Seq<DirectoryEntry>,
    parent: Seq<char>,
) -> bool {
    exists|s: Seq<DirectoryEntry>| #[trigger] rollup_witness(input, result, parent, s)
}

/// Builds the synthetic summary node over the absorbed entries.
fn new_rollup(entries: Vec<DirectoryEntry>, path: String) -> (r: DirectoryEntry)
    ensures
        r == (DirectoryEntry::Rollup {
            path,
            len: Byteable(clamp_u64(sum_sizes(entries@)) as u64),
            entries,
        }),
{
    let mut acc: u64 = 0;
    let mut i: usize = 0;
    proof {
        assert(entries@.take(0) =~= Seq::<DirectoryEntry>::empty());
        assert(sum_sizes(Seq::<DirectoryEntry>::empty()) == 0);
    }
    while i < entries.len()
        invariant
            i <= entries@.len(),
            acc as int == clamp_u64(sum_sizes(entries@.take(i as int))),
        decreases entries@.len() - i,
    {
        let sz = entry_size(&entries[i]);
        proof {
            assert(entries@.take(i + 1).drop_last() =~= entries@.take(i as int));
            assert(entries@.take(i + 1).last() == entries@[i as int]);
            lemma_sum_nonneg(entries@.take(i as int));
        }
        acc = if sz > u64::MAX - acc {
            u64::MAX
        } else {
            acc + sz
        };
        i = i + 1;
    }
    proof {
        assert(entries@.take(entries@.len() as int) =~= entries@);
        lemma_sum_nonneg(entries@);
    }
    DirectoryEntry::Rollup { path, len: Byteable(acc), entries }
}

/// The rollup engine: sorts the children by size ascending, absorbs the run
/// of sized non-directory entries before the first directory into one
/// summary node (when that run is non-empty), and returns the final
/// children sorted by size descending.
pub(crate) fn rolled_up(entries: Vec<DirectoryEntry>, parent: &str) -> (r: Vec<DirectoryEntry>)
    ensures
        sorted_desc(r@),
        rollup_rel(entries@, r@, parent@),
{
    let ghost input = entries@;
    let sorted = sort_ascending(entries);
    let ghost s = sorted@;
    let n = sorted.len();
    let mut rest = sorted;
    let mut rolled: Vec<DirectoryEntry> = Vec::new();
    let mut kept: Vec<DirectoryEntry> = Vec::new();
    let mut still = true;
    let mut i: usize = 0;
    proof {
        assert(rest@ =~= s.skip(0));
        assert(rolled@ + split_rolled(s.skip(0)).0 =~= split_rolled(s).0);
        assert(kept@ + split_rolled(s.skip(0)).1 =~= split_rolled(s).1);
    }
    while rest.len() > 0
        invariant
            i <= n,
            n == s.len(),
            rest@ == s.skip(i as int),
            still ==> split_rolled(s).0 == rolled@ + split_rolled(s.skip(i as int)).0
                && split_rolled(s).1 == kept@ + split_rolled(s.skip(i as int)).1,
            !still ==> split_rolled(s).0 == rolled@ && split_rolled(s).1 == kept@ + s.skip(
                i as int,
            ),
        decreases rest.len(),
    {
        let ghost tail = s.skip(i as int);
        let ghost rolled_prev = rolled@;
        let ghost kept_prev = kept@;
        let ghost still_prev = still;
        let e = rest.remove(0);
        proof {
            assert(tail[0] == s[i as int]);
            assert(tail.drop_first() =~= s.skip(i + 1));
            assert(s.skip(i as int).remove(0) =~= s.skip(i + 1));
        }
        if e.is_dir() {
            still = false;
            kept.push(e);
            proof {
                assert(split_rolled(tail).0 == Seq::<DirectoryEntry>::empty());
                assert(split_rolled(tail).1 == tail);
                if still_prev {
                    assert(split_rolled(s).0 =~= rolled@) by {
                        assert(rolled_prev + Seq::<DirectoryEntry>::empty() =~= rolled_prev);
                    }
                    assert(split_rolled(s).1 =~= kept@ + s.skip(i + 1)) by {
                        assert(tail =~= seq![tail[0]] + tail.drop_first());
                        assert(kept_prev + (seq![tail[0]] + tail.drop_first()) =~= (kept_prev
                            + seq![tail[0]]) + tail.drop_first());
                        assert(kept@ =~= kept_prev + seq![tail[0]]);
                    }
                } else {
                    assert(split_rolled(s).1 =~= kept@ + s.skip(i + 1)) by {
                        assert(tail =~= seq![tail[0]] + tail.drop_first());
                        assert(kept_prev + (seq![tail[0]] + tail.drop_first()) =~= (kept_prev
                            + seq![tail[0]]) + tail.drop_first());
                        assert(kept@ =~= kept_prev + seq![tail[0]]);
                    }
                }
            }
        } else if still && e.len().is_some() {
            rolled.push(e);
            proof {
                assert(rollable(tail[0]));
                assert(split_rolled(tail).0 == seq![tail[0]] + split_rolled(tail.drop_first()).0);
                assert(split_rolled(tail).1 == split_rolled(tail.drop_first()).1);
                assert(split_rolled(s).0 =~= rolled@ + split_rolled(s.skip(i + 1)).0) by {
                    assert(rolled_prev + (seq![tail[0]] + split_rolled(tail.drop_first()).0) =~= (
                    rolled_prev + seq![tail[0]]) + split_rolled(tail.drop_first()).0);
                    assert(rolled@ =~= rolled_prev + seq![tail[0]]);
                }
            }
        } else {
            kept.push(e);
            proof {
                if still_prev {
                    assert(!spec_is_dir(tail[0]) && !rollable(tail[0]));
                    assert(split_rolled(tail).0 == split_rolled(tail.drop_first()).0);
                    assert(split_rolled(tail).1 == seq![tail[0]] + split_rolled(
                        tail.drop_first(),
                    ).1);
                    assert(split_rolled(s).1 =~= kept@ + split_rolled(s.skip(i + 1)).1) by {
                        assert(kept_prev + (seq![tail[0]] + split_rolled(tail.drop_first()).1) =~= (
                        kept_prev + seq![tail[0]]) + split_rolled(tail.drop_first()).1);
                        assert(kept@ =~= kept_prev + seq![tail[0]]);
                    }
                } else {
                    assert(split_rolled(s).1 =~= kept@ + s.skip(i + 1)) by {
                        assert(tail =~= seq![tail[0]] + tail.drop_first());
                        assert(kept_prev + (seq![tail[0]] + tail.drop_first()) =~= (kept_prev
                            + seq![tail[0]]) + tail.drop_first());
                        assert(kept@ =~= kept_prev + seq![tail[0]]);
                    }
                }
            }
        }
        i = i + 1;
    }
    proof {
        assert(s.skip(n as int) =~= Seq::<DirectoryEntry>::empty());
        assert(split_rolled(Seq::<DirectoryEntry>::empty()).0 == Seq::<DirectoryEntry>::empty());
        if still {
            assert(split_rolled(s).0 =~= rolled@) by {
                assert(rolled@ + Seq::<DirectoryEntry>::empty() =~= rolled@);
            }
            assert(split_rolled(s).1 =~= kept@) by {
                assert(kept@ + Seq::<DirectoryEntry>::empty() =~= kept@);
            }
        } else {
            assert(split_rolled(s).1 =~= kept@) by {
                assert(kept@ + Seq::<DirectoryEntry>::empty() =~= kept@);
            }
        }
        assert(split_rolled(s).0 == rolled@ && split_rolled(s).1 == kept@);
    }
    let ghost rolled_seq = rolled@;
    let ghost kept_base = kept@;
    if rolled.len() > 0 {
        let node = new_rollup(rolled, String::from_str(parent));
        kept.push(node);
        proof {
            vstd::seq_lib::to_multiset_build(kept_base, node);
            assert(is_rollup_node(node, parent@, rolled_seq));
        }
    }
    let result = sort_descending(kept);
    proof {
        assert(rollup_witness(input, result@, parent@, s));
        assert(rollup_rel(input, result@, parent@));
    }
    result
}

/// Rolling up an empty child sequence yields an empty child sequence.
pub proof fn lemma_rollup_rel_empty(result: Seq<DirectoryEntry>, parent: Seq<char>)
    requires
        rollup_rel(Seq::empty(), result, parent),
    ensures
        result == Seq::<DirectoryEntry>::empty(),
{
    let s = choose|s: Seq<DirectoryEntry>|
        rollup_witness(Seq::empty(), result, parent, s);
    vstd::seq_lib::to_multiset_len(s);
    vstd::seq_lib::to_multiset_len(Seq::<DirectoryEntry>::empty());
    assert(s =~= Seq::<DirectoryEntry>::empty());
    assert(split_rolled(s).0 == Seq::<DirectoryEntry>::empty());
    assert(result.to_multiset() == s.to_multiset());
    vstd::seq_lib::to_multiset_len(result);
    assert(result =~= Seq::<DirectoryEntry>::empty());
}

/// The rollup engine neither invents nor loses entries: every entry it
/// hands back is either one of the folder's own (well-formed) children or
/// the well-formed summary node, and the clamped size total is unchanged.
pub proof fn lemma_rollup_preserves_wf(
    input: Seq<DirectoryEntry>,
    result: Seq<DirectoryEntry>,
    parent: Seq<char>,
)
    requires
        rollup_rel(input, result, parent),
        forall|i: int|
            0 <= i < input.len() ==> well_formed(#[trigger] input[i]) && !spec_is_root(input[i]),
    ensures
        forall|i: int|
            0 <= i < result.len() ==> well_formed(#[trigger] result[i]) && !spec_is_root(
                result[i],
            ),
        clamp_u64(sum_sizes(result)) == clamp_u64(sum_sizes(input)),
{
    broadcast use vstd::multiset::group_multiset_axioms;

    let s = choose|s: Seq<DirectoryEntry>| rollup_witness(input, result, parent, s);
    lemma_split_parts(s);
    lemma_sum_permutation(s, input);
    let rolled = split_rolled(s).0;
    let kept = split_rolled(s).1;
    lemma_multiset_commutative(rolled, kept);
    assert forall|x: DirectoryEntry| s.contains(x) implies well_formed(x) && !spec_is_root(x) by {
        vstd::seq_lib::to_multiset_contains(s, x);
        vstd::seq_lib::to_multiset_contains(input, x);
        let j = choose|j: int| 0 <= j < input.len() && input[j] == x;
        assert(well_formed(input[j]));
    }
    assert forall|x: DirectoryEntry| kept.contains(x) implies s.contains(x) by {
        vstd::seq_lib::to_multiset_contains(kept, x);
        vstd::seq_lib::to_multiset_contains(s, x);
    }
    assert forall|x: DirectoryEntry| rolled.contains(x) implies s.contains(x) by {
        vstd::seq_lib::to_multiset_contains(rolled, x);
        vstd::seq_lib::to_multiset_contains(s, x);
    }
    lemma_sum_nonneg(rolled);
    lemma_sum_nonneg(kept);
    if rolled.len() == 0 {
        assert(result.to_multiset() == kept.to_multiset());
        lemma_sum_permutation(result, kept);
        assert forall|i: int| 0 <= i < result.len() implies well_formed(#[trigger] result[i])
            && !spec_is_root(result[i]) by {
            assert(result.contains(result[i]));
            vstd::seq_lib::to_multiset_contains(result, result[i]);
            vstd::seq_lib::to_multiset_contains(kept, result[i]);
        }
        assert(sum_sizes(rolled) == 0) by {
            assert(rolled =~= Seq::<DirectoryEntry>::empty());
        }
    } else {
        let node = choose|node: DirectoryEntry|
            is_rollup_node(node, parent, rolled) && result.to_multiset()
                == kept.to_multiset().insert(node);
        assert(well_formed(node)) by {
            match node {
                DirectoryEntry::Rollup { len, entries, .. } => {
                    assert(entries@ == rolled);
                    assert forall|i: int|
                        0 <= i < entries@.len() implies well_formed(#[trigger] entries@[i])
                        && rollable(entries@[i]) && !spec_is_root(entries@[i]) by {
                        assert(rolled.contains(rolled[i]));
                        assert(rollable(split_rolled(s).0[i]));
                    }
                },
                _ => {},
            }
        }
        vstd::seq_lib::to_multiset_build(kept, node);
        assert(result.to_multiset() == kept.push(node).to_multiset());
        lemma_sum_permutation(result, kept.push(node));
        assert(sum_sizes(kept.push(node)) == sum_sizes(kept) + size_of(node)) by {
            assert(kept.push(node).drop_last() =~= kept);
            assert(kept.push(node).last() == node);
        }
        assert forall|i: int| 0 <= i < result.len() implies well_formed(#[trigger] result[i])
            && !spec_is_root(result[i]) by {
            assert(result.contains(result[i]));
            vstd::seq_lib::to_multiset_contains(result, result[i]);
            if result[i] == node {
            } else {
                assert(kept.to_multiset().insert(node).count(result[i]) == kept.to_multiset().count(
                    result[i],
                ));
                vstd::seq_lib::to_multiset_contains(kept, result[i]);
            }
        }
    }
}

impl DirectoryEntry {
    /// Builds a folder node: the children are handed to the rollup engine
    /// and come out sorted by size descending; the stated size is stored as
    /// given. When the given size is the (clamped) sum of the given
    /// children's sizes and those children are themselves well formed, the
    /// finished folder is well formed.
    pub fn new_folder(
        len: Byteable,
        path: String,
        is_hidden: bool,
        entries: Vec<DirectoryEntry>,
        is_root: bool,
    ) -> (r: DirectoryEntry)
        ensures
            r is Folder,
            spec_path(r) == path@,
            spec_len(r) == Some(len.0),
            spec_is_hidden(r) == is_hidden,
            spec_is_root(r) == is_root,
            sorted_desc(spec_entries(r).unwrap()),
            rollup_rel(entries@, spec_entries(r).unwrap(), path@),
            (len.0 as int == clamp_u64(sum_sizes(entries@)) && (forall|i: int|
                0 <= i < entries@.len() ==> well_formed(#[trigger] entries@[i]) && !spec_is_root(
                    entries@[i],
                ))) ==> well_formed(r),
    {
        let ghost input = entries@;
        let children = rolled_up(entries, path.as_str());
        proof {
            if len.0 as int == clamp_u64(sum_sizes(input)) && (forall|i: int|
                0 <= i < input.len() ==> well_formed(#[trigger] input[i]) && !spec_is_root(
                    input[i],
                )) {
                lemma_rollup_preserves_wf(input, children@, path@);
            }
        }
        DirectoryEntry::Folder { path, len, entries: children, is_root, is_hidden }
    }
}

} // verus!
