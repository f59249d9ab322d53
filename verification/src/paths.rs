//! Textual model of filesystem paths.
//!
//! A path is the byte string of its textual form; `/` separates components.
//! Joining a root with a relative path and taking the parent of a path are
//! defined here, together with the facts the planner and the scheduler need:
//! joining is injective in the relative part, and a joined path always has a
//! parent.

use vstd::prelude::*;

verus! {

/// The path component separator, the byte of `/`.
pub const SEP: u8 = 47;

/// The path obtained by appending `rel` under the directory `root`:
/// `root` and `rel` joined with a single separator between them.
pub open spec fn join_spec(root: Seq<u8>, rel: Seq<u8>) -> Seq<u8> {
    if root.len() == 0 {
        rel
    } else if root.last() == SEP {
        root + rel
    } else {
        root + seq![SEP] + rel
    }
}

/// Whether `p` contains a separator at all.
pub open spec fn has_sep(p: Seq<u8>) -> bool {
    exists|i: int| 0 <= i < p.len() && p[i] == SEP
}

/// The index of the last separator in `p`, or `-1` if there is none.
pub open spec fn last_sep(p: Seq<u8>) -> int
    decreases p.len(),
{
    if p.len() == 0 {
        -1
    } else if p.last() == SEP {
        p.len() - 1
    } else {
        last_sep(p.drop_last())
    }
}

/// The directory that contains `p`: everything before the last separator,
/// or the root directory itself when the last separator comes first.
pub open spec fn parent_spec(p: Seq<u8>) -> Seq<u8>
    recommends
        has_sep(p),
{
    if last_sep(p) == 0 {
        seq![SEP]
    } else {
        p.take(last_sep(p))
    }
}

/// Joins `root` and `rel` into one path.
pub fn join_path(root: &Vec<u8>, rel: &Vec<u8>) -> (r: Vec<u8>)
    ensures
        r@ == join_spec(root@, rel@),
{
    let mut out: Vec<u8> = Vec::new();
    out.extend_from_slice(root.as_slice());
    if root.len() > 0 && root[root.len() - 1] != SEP {
        out.push(SEP);
    }
    out.extend_from_slice(rel.as_slice());
    proof {
        assert(out@ =~= join_spec(root@, rel@));
    }
    out
}

/// The parent directory of `p`, or `None` when `p` has no separator.
pub fn parent_dir(p: &Vec<u8>) -> (r: Option<Vec<u8>>)
    ensures
        r is Some <==> has_sep(p@),
        r matches Some(v) ==> v@ == parent_spec(p@),
{
    let mut i: usize = p.len();
    while i > 0
        invariant
            i <= p.len(),
            forall|j: int| i <= j < p@.len() ==> p@[j] != SEP,
        decreases i,
    {
        i = i - 1;
        if p[i] == SEP {
            proof {
                lemma_last_sep_at(p@, i as int);
            }
            let mut v: Vec<u8> = Vec::new();
            if i == 0 {
                v.push(SEP);
                assert(v@ =~= parent_spec(p@));
                return Some(v);
            }
            let mut j: usize = 0;
            while j < i
                invariant
                    j <= i,
                    i < p@.len(),
                    v@ =~= p@.take(j as int),
                decreases i - j,
            {
                v.push(p[j]);
                j = j + 1;
            }
            return Some(v);
        }
    }
    proof {
        lemma_no_sep_means_none(p@);
    }
    None
}

/// If `p[i]` is the last separator of `p`, then `last_sep` finds it.
proof fn lemma_last_sep_at(p: Seq<u8>, i: int)
    requires
        0 <= i < p.len(),
        p[i] == SEP,
        forall|j: int| i < j < p.len() ==> p[j] != SEP,
    ensures
        last_sep(p) == i,
    decreases p.len(),
{
    if i < p.len() - 1 {
        lemma_last_sep_at(p.drop_last(), i);
    }
}

/// A path without a separator has `last_sep` equal to `-1`.
proof fn lemma_no_sep_means_none(p: Seq<u8>)
    requires
        forall|j: int| 0 <= j < p.len() ==> p[j] != SEP,
    ensures
        last_sep(p) == -1,
    decreases p.len(),
{
    if p.len() > 0 {
        lemma_no_sep_means_none(p.drop_last());
    }
}

/// Appending different suffixes to one prefix gives different sequences.
proof fn lemma_prefix_cancel(p: Seq<u8>, a: Seq<u8>, b: Seq<u8>)
    requires
        p + a == p + b,
    ensures
        a == b,
{
    assert((p + a).len() == p.len() + a.len());
    assert((p + b).len() == p.len() + b.len());
    assert(a.len() == b.len());
    assert forall|i: int| 0 <= i < a.len() implies a[i] == b[i] by {
        assert((p + a)[p.len() + i] == a[i]);
        assert((p + b)[p.len() + i] == b[i]);
    }
    assert(a =~= b);
}

/// Joining one root with two relative paths gives equal results only for
/// equal relative paths.
pub proof fn lemma_join_injective(root: Seq<u8>, a: Seq<u8>, b: Seq<u8>)
    requires
        join_spec(root, a) == join_spec(root, b),
    ensures
        a == b,
{
    if root.len() == 0 {
    } else if root.last() == SEP {
        lemma_prefix_cancel(root, a, b);
    } else {
        assert(root + seq![SEP] + a =~= root + (seq![SEP] + a));
        assert(root + seq![SEP] + b =~= root + (seq![SEP] + b));
        lemma_prefix_cancel(root, seq![SEP] + a, seq![SEP] + b);
        lemma_prefix_cancel(seq![SEP], a, b);
    }
}

/// A path joined under a non-empty root always contains a separator.
pub proof fn lemma_join_has_sep(root: Seq<u8>, rel: Seq<u8>)
    requires
        root.len() > 0,
    ensures
        has_sep(join_spec(root, rel)),
{
    let joined = join_spec(root, rel);
    if root.last() == SEP {
        assert(joined[root.len() - 1] == SEP);
    } else {
        assert(joined[root.len() as int] == SEP);
    }
}

} // verus!
