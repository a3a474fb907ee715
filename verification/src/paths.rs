//! Path strings: the separator convention, file-name extraction, the
//! component-boundary prefix test used by tree lookup, and normalization of
//! doubled separators in pattern text.

use vstd::prelude::*;

verus! {

/// The path separator the tree model is written against.
pub const SEPARATOR: char = '\\';

/// The index of the last separator in `p`, or `-1` when `p` holds none.
pub open spec fn last_sep(p: Seq<char>) -> int
    decreases p.len(),
{
    if p.len() == 0 {
        -1
    } else if p.last() == SEPARATOR {
        p.len() - 1
    } else {
        last_sep(p.drop_last())
    }
}

/// The final path component: everything after the last separator.
pub open spec fn spec_file_name(p: Seq<char>) -> Seq<char> {
    p.subrange(last_sep(p) + 1, p.len() as int)
}

/// The parent of a path: everything before the last separator, the empty
/// path for a separator-free non-empty path, and nothing for the empty path.
pub open spec fn spec_parent(p: Seq<char>) -> Option<Seq<char>> {
    if p.len() == 0 {
        None
    } else if last_sep(p) < 0 {
        Some(Seq::empty())
    } else {
        Some(p.subrange(0, last_sep(p)))
    }
}

/// `p` is a path-prefix of `f`: a plain prefix that ends on a component
/// boundary, either because the paths are equal or because a separator
/// follows in `f`.
pub open spec fn spec_path_prefix(p: Seq<char>, f: Seq<char>) -> bool {
    &&& p.len() <= f.len()
    &&& f.subrange(0, p.len() as int) == p
    &&& (p.len() == f.len() || f[p.len() as int] == SEPARATOR)
}

/// Escaped-pattern separators rewritten for a forward-slash platform: each
/// non-overlapping doubled backslash becomes one `/`, left to right. The
/// slash cannot pair up again, so the rewriting is idempotent
/// (`lemma_fix_separators_idempotent`).
pub open spec fn spec_fix_separators(p: Seq<char>) -> Seq<char>
    decreases p.len(),
{
    if p.len() == 0 {
        p
    } else if p.len() >= 2 && p[0] == SEPARATOR && p[1] == SEPARATOR {
        seq!['/'] + spec_fix_separators(p.skip(2))
    } else {
        seq![p[0]] + spec_fix_separators(p.skip(1))
    }
}

/// No doubled backslash remains anywhere in `s`.
spec fn no_doubled_separator(s: Seq<char>) -> bool {
    forall|i: int|
        #![trigger s[i]]
        0 <= i && i + 1 < s.len() ==> !(s[i] == SEPARATOR && s[i + 1] == SEPARATOR)
}

proof fn lemma_fix_separators_head(p: Seq<char>)
    requires
        p.len() > 0,
    ensures
        spec_fix_separators(p).len() > 0,
        spec_fix_separators(p)[0] == '/' || spec_fix_separators(p)[0] == p[0],
{
}

proof fn lemma_fix_separators_no_doubles(p: Seq<char>)
    ensures
        no_doubled_separator(spec_fix_separators(p)),
    decreases p.len(),
{
    let out = spec_fix_separators(p);
    if p.len() == 0 {
    } else if p.len() >= 2 && p[0] == SEPARATOR && p[1] == SEPARATOR {
        let rest = spec_fix_separators(p.skip(2));
        lemma_fix_separators_no_doubles(p.skip(2));
        assert(out == seq!['/'] + rest);
        assert forall|i: int|
            #![trigger out[i]]
            0 <= i && i + 1 < out.len() implies !(out[i] == SEPARATOR && out[i + 1]
            == SEPARATOR) by {
            if i == 0 {
                assert(out[0] == '/');
            } else {
                assert(out[i] == rest[i - 1]);
                assert(out[i + 1] == rest[i]);
                assert(!(rest[i - 1] == SEPARATOR && rest[i] == SEPARATOR));
            }
        }
    } else {
        let tail = p.skip(1);
        let rest = spec_fix_separators(tail);
        lemma_fix_separators_no_doubles(tail);
        assert(out == seq![p[0]] + rest);
        assert forall|i: int|
            #![trigger out[i]]
            0 <= i && i + 1 < out.len() implies !(out[i] == SEPARATOR && out[i + 1]
            == SEPARATOR) by {
            if i == 0 {
                assert(out[0] == p[0]);
                assert(out[1] == rest[0]);
                if p[0] == SEPARATOR {
                    lemma_fix_separators_head(tail);
                    assert(tail[0] == p[1]);
                    assert(p[1] != SEPARATOR);
                    assert(rest[0] == '/' || rest[0] == p[1]);
                }
            } else {
                assert(out[i] == rest[i - 1]);
                assert(out[i + 1] == rest[i]);
                assert(!(rest[i - 1] == SEPARATOR && rest[i] == SEPARATOR));
            }
        }
    }
}

proof fn lemma_fix_separators_fixed(s: Seq<char>)
    requires
        no_doubled_separator(s),
    ensures
        spec_fix_separators(s) == s,
    decreases s.len(),
{
    if s.len() > 0 {
        if s.len() >= 2 {
            assert(!(s[0] == SEPARATOR && s[1] == SEPARATOR));
        }
        let tail = s.skip(1);
        assert forall|i: int|
            #![trigger tail[i]]
            0 <= i && i + 1 < tail.len() implies !(tail[i] == SEPARATOR && tail[i + 1]
            == SEPARATOR) by {
            assert(tail[i] == s[i + 1] && tail[i + 1] == s[i + 2]);
        }
        lemma_fix_separators_fixed(tail);
        assert(seq![s[0]] + tail =~= s);
    }
}

/// Law: the rewriting is idempotent — running it over its own output
/// changes nothing, as the original text transformation did on either
/// platform.
pub proof fn lemma_fix_separators_idempotent(p: Seq<char>)
    ensures
        spec_fix_separators(spec_fix_separators(p)) == spec_fix_separators(p),
{
    lemma_fix_separators_no_doubles(p);
    lemma_fix_separators_fixed(spec_fix_separators(p));
}

proof fn lemma_last_sep_bounds(p: Seq<char>)
    ensures
        -1 <= last_sep(p) < p.len(),
        last_sep(p) >= 0 ==> p[last_sep(p)] == SEPARATOR,
        forall|j: int| last_sep(p) < j < p.len() ==> p[j] != SEPARATOR,
    decreases p.len(),
{
    if p.len() == 0 {
    } else if p.last() == SEPARATOR {
    } else {
        lemma_last_sep_bounds(p.drop_last());
        assert forall|j: int| last_sep(p) < j < p.len() implies p[j] != SEPARATOR by {
            if j < p.len() - 1 {
                assert(p.drop_last()[j] == p[j]);
            }
        }
    }
}

/// `last_sep` is pinned by any index that carries a separator with none after
/// it, and is `-1` when no index carries one.
proof fn lemma_last_sep_unique(p: Seq<char>, i: int)
    requires
        0 <= i < p.len(),
        p[i] == SEPARATOR,
        forall|j: int| i < j < p.len() ==> p[j] != SEPARATOR,
    ensures
        last_sep(p) == i,
    decreases p.len(),
{
    if p.last() == SEPARATOR {
    } else {
        assert(p.drop_last()[i] == p[i]);
        lemma_last_sep_unique(p.drop_last(), i);
    }
}

proof fn lemma_last_sep_none(p: Seq<char>)
    requires
        forall|j: int| 0 <= j < p.len() ==> p[j] != SEPARATOR,
    ensures
        last_sep(p) == -1,
    decreases p.len(),
{
    if p.len() > 0 {
        lemma_last_sep_none(p.drop_last());
    }
}

/// Finds the index one past the last separator of `s`, scanning from the end.
fn after_last_separator(s: &str) -> (r: usize)
    ensures
        r as int == last_sep(s@) + 1,
{
    let n = s.unicode_len();
    let mut i: usize = n;
    while i > 0
        invariant
            i <= n,
            n == s@.len(),
            forall|j: int| i <= j < n ==> s@[j] != SEPARATOR,
        decreases i,
    {
        if s.get_char(i - 1) == SEPARATOR {
            proof {
                lemma_last_sep_unique(s@, i - 1);
            }
            return i;
        }
        i = i - 1;
    }
    proof {
        lemma_last_sep_none(s@);
    }
    0
}

/// The final path component of `s`.
pub fn file_name_part(s: &str) -> (r: String)
    ensures
        r@ == spec_file_name(s@),
{
    let n = s.unicode_len();
    proof {
        lemma_last_sep_bounds(s@);
    }
    let start = after_last_separator(s);
    let part = s.substring_char(start, n);
    String::from_str(part)
}

/// The parent path of `s`, if `s` is non-empty.
pub fn parent_part(s: &str) -> (r: Option<String>)
    ensures
        match r {
            Some(p) => spec_parent(s@) == Some(p@),
            None => spec_parent(s@) is None,
        },
{
    let n = s.unicode_len();
    if n == 0 {
        return None;
    }
    proof {
        lemma_last_sep_bounds(s@);
    }
    let start = after_last_separator(s);
    if start == 0 {
        let r = String::new();
        proof {
            assert(r@ =~= Seq::<char>::empty());
        }
        Some(r)
    } else {
        let part = s.substring_char(0, start - 1);
        Some(String::from_str(part))
    }
}

/// Character-wise string equality.
pub fn str_eq(a: &str, b: &str) -> (r: bool)
    ensures
        r == (a@ == b@),
{
    let an = a.unicode_len();
    let bn = b.unicode_len();
    if an != bn {
        return false;
    }
    let mut i: usize = 0;
    while i < an
        invariant
            i <= an,
            an == a@.len(),
            bn == b@.len(),
            an == bn,
            forall|j: int| 0 <= j < i ==> a@[j] == b@[j],
        decreases an - i,
    {
        if a.get_char(i) != b.get_char(i) {
            return false;
        }
        i = i + 1;
    }
    proof {
        assert(a@ =~= b@);
    }
    true
}

/// Tests whether `prefix` is a path-prefix of `full`.
pub fn is_path_prefix(prefix: &str, full: &str) -> (r: bool)
    ensures
        r == spec_path_prefix(prefix@, full@),
{
    let pn = prefix.unicode_len();
    let fln = full.unicode_len();
    if pn > fln {
        return false;
    }
    let mut i: usize = 0;
    while i < pn
        invariant
            i <= pn,
            pn == prefix@.len(),
            fln == full@.len(),
            pn <= fln,
            forall|j: int| 0 <= j < i ==> full@[j] == prefix@[j],
        decreases pn - i,
    {
        if full.get_char(i) != prefix.get_char(i) {
            proof {
                assert(full@.subrange(0, pn as int)[i as int] != prefix@[i as int]);
            }
            return false;
        }
        i = i + 1;
    }
    proof {
        assert(full@.subrange(0, pn as int) =~= prefix@);
    }
    if pn == fln {
        true
    } else {
        full.get_char(pn) == SEPARATOR
    }
}

/// Rewrites each doubled (escaped) backslash in `path` to a single `/`,
/// the separator form pattern text takes on a forward-slash platform.
pub fn fix_separators(path: &str) -> (r: String)
    ensures
        r@ == spec_fix_separators(path@),
{
    let n = path.unicode_len();
    let mut out = String::new();
    let mut i: usize = 0;
    proof {
        assert(path@.skip(0) =~= path@);
        assert(out@ + spec_fix_separators(path@.skip(0)) =~= spec_fix_separators(path@));
    }
    while i < n
        invariant
            i <= n,
            n == path@.len(),
            spec_fix_separators(path@) == out@ + spec_fix_separators(path@.skip(i as int)),
        decreases n - i,
    {
        let ghost prev = out@;
        let c = path.get_char(i);
        if c == SEPARATOR && i + 1 < n && path.get_char(i + 1) == SEPARATOR {
            proof {
                reveal_strlit("/");
            }
            out.append("/");
            proof {
                let rest = path@.skip(i as int);
                assert(rest[0] == SEPARATOR && rest[1] == SEPARATOR);
                assert(rest.skip(2) =~= path@.skip(i + 2));
                assert(out@ =~= prev + seq!['/']);
                assert(spec_fix_separators(path@) == out@ + spec_fix_separators(
                    path@.skip(i + 2),
                ));
            }
            i = i + 2;
        } else {
            let piece = path.substring_char(i, i + 1);
            out.append(piece);
            proof {
                let rest = path@.skip(i as int);
                assert(rest[0] == path@[i as int]);
                assert(!(rest.len() >= 2 && rest[0] == SEPARATOR && rest[1] == SEPARATOR));
                assert(rest.skip(1) =~= path@.skip(i + 1));
                assert(out@ =~= prev + seq![path@[i as int]]);
                assert(spec_fix_separators(path@) == out@ + spec_fix_separators(
                    path@.skip(i + 1),
                ));
            }
            i = i + 1;
        }
    }
    proof {
        assert(path@.skip(n as int) =~= Seq::<char>::empty());
        assert(out@ + Seq::<char>::empty() =~= out@);
    }
    out
}

} // verus!
