//! The reconciliation planner.
//!
//! The planner consumes the matches that expanding one pattern list against
//! the source root and against the destination root produced, and classifies
//! them into three disjoint operation lists: files to add to the
//! destination, files to overwrite there, and files to remove from there.
//!
//! A matched source file whose destination path already exists becomes an
//! overwrite, any other matched source file an addition.  A matched
//! destination file becomes a removal unless it is about to be overwritten.
//! Directory matches produce nothing.  A path matched by several patterns is
//! processed once, at its first match.

use vstd::prelude::*;

use crate::bytes_eq;
use crate::paths::{join_path, join_spec, lemma_join_injective};

verus! {

/// One match of the pattern list against the source root: the path relative
/// to that root, whether it is a directory, and whether the same relative
/// path currently exists under the destination root.
pub struct SourceEntry {
    pub rel: Vec<u8>,
    pub is_dir: bool,
    pub target_exists: bool,
}

/// One match of the pattern list against the destination root.
pub struct DestEntry {
    pub rel: Vec<u8>,
    pub is_dir: bool,
}

/// Copy `from` (a source file) to `to`, which does not exist yet.
#[derive(Debug, Clone, PartialEq, Eq)]
pub struct Add {
    pub from: Vec<u8>,
    pub to: Vec<u8>,
}

/// Copy `from` (a source file) over `to`, which already exists.
#[derive(Debug, Clone, PartialEq, Eq)]
pub struct Overwrite {
    pub from: Vec<u8>,
    pub to: Vec<u8>,
}

/// Delete the destination file at the carried path.
#[derive(Debug, Clone, PartialEq, Eq)]
pub struct Remove(pub Vec<u8>);

/// What one reconciliation asks for: nothing at all, or three operation
/// lists of which at least one is non-empty.
#[derive(Debug, Clone, PartialEq, Eq)]
pub enum PlanResult {
    Empty,
    Plan { adds: Vec<Add>, overwrites: Vec<Overwrite>, removes: Vec<Remove> },
}

/// Whether the source match at `i` is a file seen here for the first time:
/// not a directory, and no earlier file match has the same relative path.
pub open spec fn file_first_at(s: Seq<SourceEntry>, i: int) -> bool {
    &&& !s[i].is_dir
    &&& forall|j: int| 0 <= j < i ==> s[j].is_dir || s[j].rel@ != s[i].rel@
}

/// The relative paths of the deduplicated source file matches, in the order
/// of their first match.
pub open spec fn claimed_rels(s: Seq<SourceEntry>) -> Seq<Seq<u8>>
    decreases s.len(),
{
    if s.len() == 0 {
        Seq::empty()
    } else if file_first_at(s, s.len() - 1) {
        claimed_rels(s.drop_last()).push(s.last().rel@)
    } else {
        claimed_rels(s.drop_last())
    }
}

/// The relative paths that become additions: first file matches whose
/// destination path does not exist yet.
pub open spec fn add_rels(s: Seq<SourceEntry>) -> Seq<Seq<u8>>
    decreases s.len(),
{
    if s.len() == 0 {
        Seq::empty()
    } else if file_first_at(s, s.len() - 1) && !s.last().target_exists {
        add_rels(s.drop_last()).push(s.last().rel@)
    } else {
        add_rels(s.drop_last())
    }
}

/// The relative paths that become overwrites: first file matches whose
/// destination path already exists.
pub open spec fn overwrite_rels(s: Seq<SourceEntry>) -> Seq<Seq<u8>>
    decreases s.len(),
{
    if s.len() == 0 {
        Seq::empty()
    } else if file_first_at(s, s.len() - 1) && s.last().target_exists {
        overwrite_rels(s.drop_last()).push(s.last().rel@)
    } else {
        overwrite_rels(s.drop_last())
    }
}

/// Whether the destination match at `i` is a file seen here for the first
/// time.
pub open spec fn dest_file_first_at(d: Seq<DestEntry>, i: int) -> bool {
    &&& !d[i].is_dir
    &&& forall|j: int| 0 <= j < i ==> d[j].is_dir || d[j].rel@ != d[i].rel@
}

/// The relative paths that become removals: deduplicated destination file
/// matches that are not about to be overwritten.
pub open spec fn remove_rels(d: Seq<DestEntry>, overs: Seq<Seq<u8>>) -> Seq<Seq<u8>>
    decreases d.len(),
{
    if d.len() == 0 {
        Seq::empty()
    } else if dest_file_first_at(d, d.len() - 1) && !overs.contains(d.last().rel@) {
        remove_rels(d.drop_last(), overs).push(d.last().rel@)
    } else {
        remove_rels(d.drop_last(), overs)
    }
}

/// A relative path is claimed exactly when some source file match carries it.
pub proof fn lemma_claimed_contains(s: Seq<SourceEntry>, r: Seq<u8>)
    ensures
        claimed_rels(s).contains(r) <==> exists|j: int|
            0 <= j < s.len() && !s[j].is_dir && s[j].rel@ == r,
    decreases s.len(),
{
    if s.len() > 0 {
        lemma_claimed_contains(s.drop_last(), r);
        let pre = claimed_rels(s.drop_last());
        if file_first_at(s, s.len() - 1) {
            assert(claimed_rels(s) == pre.push(s.last().rel@));
            assert(forall|k: int| 0 <= k < pre.len() ==> pre.push(s.last().rel@)[k] == pre[k]);
            assert(pre.push(s.last().rel@)[pre.len() as int] == s.last().rel@);
            if claimed_rels(s).contains(r) {
                let k = choose|k: int| 0 <= k < claimed_rels(s).len() && claimed_rels(s)[k] == r;
                if k < pre.len() {
                    assert(pre.contains(r));
                } else {
                    assert(s.last().rel@ == r);
                    assert(!s[s.len() - 1].is_dir && s[s.len() - 1].rel@ == r);
                }
            }
            if exists|j: int| 0 <= j < s.len() && !s[j].is_dir && s[j].rel@ == r {
                let j = choose|j: int| 0 <= j < s.len() && !s[j].is_dir && s[j].rel@ == r;
                if j < s.len() - 1 {
                    assert(s.drop_last()[j] == s[j]);
                    assert(pre.contains(r));
                    let k = choose|k: int| 0 <= k < pre.len() && pre[k] == r;
                    assert(claimed_rels(s)[k] == r);
                } else {
                    assert(claimed_rels(s)[pre.len() as int] == r);
                }
            }
        } else {
            assert(claimed_rels(s) == pre);
            if exists|j: int| 0 <= j < s.len() && !s[j].is_dir && s[j].rel@ == r {
                let j = choose|j: int| 0 <= j < s.len() && !s[j].is_dir && s[j].rel@ == r;
                if j == s.len() - 1 {
                    // the last match is a file already seen earlier
                    assert(!s[j].is_dir);
                    let e = choose|e: int|
                        0 <= e < s.len() - 1 && !s[e].is_dir && s[e].rel@ == s[j].rel@;
                    assert(s.drop_last()[e] == s[e]);
                    assert(pre.contains(r));
                } else {
                    assert(s.drop_last()[j] == s[j]);
                    assert(pre.contains(r));
                }
            }
            if pre.contains(r) {
                let k = choose|k: int| 0 <= k < pre.len() && pre[k] == r;
                assert(pre[k] == r);
            }
        }
    }
}

/// A relative path is removed exactly when some destination file match
/// carries it and it is not overwritten.
pub proof fn lemma_remove_contains(d: Seq<DestEntry>, overs: Seq<Seq<u8>>, r: Seq<u8>)
    ensures
        remove_rels(d, overs).contains(r) <==> (!overs.contains(r) && exists|j: int|
            0 <= j < d.len() && !d[j].is_dir && d[j].rel@ == r),
    decreases d.len(),
{
    if d.len() > 0 {
        lemma_remove_contains(d.drop_last(), overs, r);
        let pre = remove_rels(d.drop_last(), overs);
        if dest_file_first_at(d, d.len() - 1) && !overs.contains(d.last().rel@) {
            assert(remove_rels(d, overs) == pre.push(d.last().rel@));
            if remove_rels(d, overs).contains(r) {
                let k = choose|k: int|
                    0 <= k < remove_rels(d, overs).len() && remove_rels(d, overs)[k] == r;
                if k < pre.len() {
                    assert(pre.contains(r));
                } else {
                    assert(d.last().rel@ == r);
                    assert(!d[d.len() - 1].is_dir && d[d.len() - 1].rel@ == r);
                }
            }
            if !overs.contains(r) && exists|j: int|
                0 <= j < d.len() && !d[j].is_dir && d[j].rel@ == r {
                let j = choose|j: int| 0 <= j < d.len() && !d[j].is_dir && d[j].rel@ == r;
                if j < d.len() - 1 {
                    assert(d.drop_last()[j] == d[j]);
                    assert(pre.contains(r));
                    let k = choose|k: int| 0 <= k < pre.len() && pre[k] == r;
                    assert(remove_rels(d, overs)[k] == r);
                } else {
                    assert(remove_rels(d, overs)[pre.len() as int] == r);
                }
            }
        } else {
            assert(remove_rels(d, overs) == pre);
            if !overs.contains(r) && exists|j: int|
                0 <= j < d.len() && !d[j].is_dir && d[j].rel@ == r {
                let j = choose|j: int| 0 <= j < d.len() && !d[j].is_dir && d[j].rel@ == r;
                if j == d.len() - 1 {
                    assert(!d[j].is_dir);
                    assert(!overs.contains(d.last().rel@));
                    let e = choose|e: int|
                        0 <= e < d.len() - 1 && !d[e].is_dir && d[e].rel@ == d[j].rel@;
                    assert(d.drop_last()[e] == d[e]);
                    assert(pre.contains(r));
                } else {
                    assert(d.drop_last()[j] == d[j]);
                    assert(pre.contains(r));
                }
            }
            if pre.contains(r) {
                let k = choose|k: int| 0 <= k < pre.len() && pre[k] == r;
                assert(pre[k] == r);
            }
        }
    }
}

/// Whether three operation lists are exactly the classification of the given
/// matches, every path joined under its root.
pub open spec fn ops_match(
    adds: Seq<Add>,
    overwrites: Seq<Overwrite>,
    removes: Seq<Remove>,
    s: Seq<SourceEntry>,
    d: Seq<DestEntry>,
    from_root: Seq<u8>,
    to_root: Seq<u8>,
) -> bool {
    let a = add_rels(s);
    let o = overwrite_rels(s);
    let m = remove_rels(d, o);
    &&& adds.len() == a.len()
    &&& forall|i: int|
        0 <= i < a.len() ==> (#[trigger] adds[i]).from@ == join_spec(from_root, a[i])
            && adds[i].to@ == join_spec(to_root, a[i])
    &&& overwrites.len() == o.len()
    &&& forall|i: int|
        0 <= i < o.len() ==> (#[trigger] overwrites[i]).from@ == join_spec(from_root, o[i])
            && overwrites[i].to@ == join_spec(to_root, o[i])
    &&& removes.len() == m.len()
    &&& forall|i: int| 0 <= i < m.len() ==> (#[trigger] removes[i]).0@ == join_spec(to_root, m[i])
}

/// Whether a planner result is exactly the reconciliation of the given
/// matches: `Empty` when nothing is classified, otherwise the three lists.
pub open spec fn plan_matches(
    r: PlanResult,
    s: Seq<SourceEntry>,
    d: Seq<DestEntry>,
    from_root: Seq<u8>,
    to_root: Seq<u8>,
) -> bool {
    match r {
        PlanResult::Empty => add_rels(s).len() == 0 && overwrite_rels(s).len() == 0
            && remove_rels(d, overwrite_rels(s)).len() == 0,
        PlanResult::Plan { adds, overwrites, removes } => {
            &&& adds@.len() + overwrites@.len() + removes@.len() > 0
            &&& ops_match(adds@, overwrites@, removes@, s, d, from_root, to_root)
        },
    }
}

/// How the three classifications grow from one source match to the next.
proof fn lemma_source_step(s: Seq<SourceEntry>, i: int)
    requires
        0 <= i < s.len(),
    ensures
        file_first_at(s.take(i + 1), i) == file_first_at(s, i),
        claimed_rels(s.take(i + 1)) == if file_first_at(s, i) {
            claimed_rels(s.take(i)).push(s[i].rel@)
        } else {
            claimed_rels(s.take(i))
        },
        add_rels(s.take(i + 1)) == if file_first_at(s, i) && !s[i].target_exists {
            add_rels(s.take(i)).push(s[i].rel@)
        } else {
            add_rels(s.take(i))
        },
        overwrite_rels(s.take(i + 1)) == if file_first_at(s, i) && s[i].target_exists {
            overwrite_rels(s.take(i)).push(s[i].rel@)
        } else {
            overwrite_rels(s.take(i))
        },
{
    let t = s.take(i + 1);
    assert(t.drop_last() =~= s.take(i));
    assert(t.last() == s[i]);
    assert(forall|j: int| 0 <= j <= i ==> t[j] == s[j]);
    assert(file_first_at(t, i) == file_first_at(s, i));
}

/// How the removal list grows from one destination match to the next.
proof fn lemma_dest_step(d: Seq<DestEntry>, overs: Seq<Seq<u8>>, i: int)
    requires
        0 <= i < d.len(),
    ensures
        dest_file_first_at(d.take(i + 1), i) == dest_file_first_at(d, i),
        remove_rels(d.take(i + 1), overs) == if dest_file_first_at(d, i) && !overs.contains(
            d[i].rel@,
        ) {
            remove_rels(d.take(i), overs).push(d[i].rel@)
        } else {
            remove_rels(d.take(i), overs)
        },
{
    let t = d.take(i + 1);
    assert(t.drop_last() =~= d.take(i));
    assert(t.last() == d[i]);
    assert(forall|j: int| 0 <= j <= i ==> t[j] == d[j]);
    assert(dest_file_first_at(t, i) == dest_file_first_at(d, i));
}

/// Classifies the matches of one reconciliation into its operation lists.
///
/// The forward pass turns every first file match from the source into an
/// addition or an overwrite, by whether its destination path exists; the
/// backward pass turns every remaining destination file match into a
/// removal.  The result is `Empty` exactly when no operation is needed.
pub fn compute_operations(
    from_dir: &Vec<u8>,
    to_dir: &Vec<u8>,
    source_matches: &Vec<SourceEntry>,
    dest_matches: &Vec<DestEntry>,
) -> (r: PlanResult)
    ensures
        plan_matches(r, source_matches@, dest_matches@, from_dir@, to_dir@),
{
    let ghost s = source_matches@;
    let ghost d = dest_matches@;
    let ghost fd = from_dir@;
    let ghost td = to_dir@;
    let mut adds: Vec<Add> = Vec::new();
    let mut overwrites: Vec<Overwrite> = Vec::new();
    let mut removes: Vec<Remove> = Vec::new();
    let mut seen: Vec<Vec<u8>> = Vec::new();

    let mut i: usize = 0;
    proof {
        assert(s.take(0) =~= Seq::<SourceEntry>::empty());
    }
    while i < source_matches.len()
        invariant
            s == source_matches@,
            fd == from_dir@,
            td == to_dir@,
            i <= s.len(),
            seen@.len() == claimed_rels(s.take(i as int)).len(),
            forall|k: int|
                0 <= k < seen@.len() ==> (#[trigger] seen@[k])@ == claimed_rels(s.take(i as int))[k],
            adds@.len() == add_rels(s.take(i as int)).len(),
            forall|k: int|
                0 <= k < adds@.len() ==> (#[trigger] adds@[k]).from@ == join_spec(
                    fd,
                    add_rels(s.take(i as int))[k],
                ) && adds@[k].to@ == join_spec(td, add_rels(s.take(i as int))[k]),
            overwrites@.len() == overwrite_rels(s.take(i as int)).len(),
            forall|k: int|
                0 <= k < overwrites@.len() ==> (#[trigger] overwrites@[k]).from@ == join_spec(
                    fd,
                    overwrite_rels(s.take(i as int))[k],
                ) && overwrites@[k].to@ == join_spec(td, overwrite_rels(s.take(i as int))[k]),
        decreases s.len() - i,
    {
        let ghost pre = s.take(i as int);
        let ghost rel = s[i as int].rel@;
        proof {
            lemma_source_step(s, i as int);
        }
        if !source_matches[i].is_dir {
            let mut found = false;
            let mut k: usize = 0;
            while k < seen.len()
                invariant
                    k <= seen@.len(),
                    seen@.len() == claimed_rels(pre).len(),
                    forall|kk: int|
                        0 <= kk < seen@.len() ==> (#[trigger] seen@[kk])@ == claimed_rels(pre)[kk],
                    s == source_matches@,
                    0 <= i < s.len(),
                    pre == s.take(i as int),
                    rel == s[i as int].rel@,
                    found == exists|kk: int| 0 <= kk < k && claimed_rels(pre)[kk] == rel,
                decreases seen@.len() - k,
            {
                if bytes_eq(&seen[k], &source_matches[i].rel) {
                    found = true;
                }
                k = k + 1;
            }
            proof {
                let cr = claimed_rels(pre);
                lemma_claimed_contains(pre, rel);
                assert(forall|j: int| 0 <= j < i ==> pre[j] == s[j]);
                if found {
                    assert(cr.contains(rel));
                    let j = choose|j: int|
                        0 <= j < pre.len() && !pre[j].is_dir && pre[j].rel@ == rel;
                    assert(!s[j].is_dir && s[j].rel@ == rel);
                    assert(!file_first_at(s, i as int));
                } else {
                    if cr.contains(rel) {
                        let kk = choose|kk: int| 0 <= kk < cr.len() && cr[kk] == rel;
                        assert(false);
                    }
                    assert(file_first_at(s, i as int));
                }
            }
            if !found {
                let rel_copy = crate::copy_bytes(&source_matches[i].rel);
                let from = join_path(from_dir, &source_matches[i].rel);
                let to = join_path(to_dir, &source_matches[i].rel);
                seen.push(rel_copy);
                if source_matches[i].target_exists {
                    overwrites.push(Overwrite { from, to });
                } else {
                    adds.push(Add { from, to });
                }
            }
        }
        i = i + 1;
    }
    proof {
        assert(s.take(s.len() as int) =~= s);
        assert(d.take(0) =~= Seq::<DestEntry>::empty());
    }
    let ghost overs = overwrite_rels(s);

    let mut h: usize = 0;
    while h < dest_matches.len()
        invariant
            s == source_matches@,
            d == dest_matches@,
            fd == from_dir@,
            td == to_dir@,
            h <= d.len(),
            overs == overwrite_rels(s),
            overwrites@.len() == overs.len(),
            forall|k: int|
                0 <= k < overwrites@.len() ==> (#[trigger] overwrites@[k]).from@ == join_spec(
                    fd,
                    overs[k],
                ) && overwrites@[k].to@ == join_spec(td, overs[k]),
            removes@.len() == remove_rels(d.take(h as int), overs).len(),
            forall|k: int|
                0 <= k < removes@.len() ==> (#[trigger] removes@[k]).0@ == join_spec(
                    td,
                    remove_rels(d.take(h as int), overs)[k],
                ),
        decreases d.len() - h,
    {
        let ghost pre = d.take(h as int);
        let ghost rel = d[h as int].rel@;
        proof {
            lemma_dest_step(d, overs, h as int);
        }
        if !dest_matches[h].is_dir {
            let target = join_path(to_dir, &dest_matches[h].rel);
            let ghost tgt = target@;
            let mut in_overs = false;
            let mut k: usize = 0;
            while k < overwrites.len()
                invariant
                    k <= overwrites@.len(),
                    overwrites@.len() == overs.len(),
                    forall|kk: int|
                        0 <= kk < overwrites@.len() ==> (#[trigger] overwrites@[kk]).to@
                            == join_spec(td, overs[kk]),
                    tgt == target@,
                    in_overs == exists|kk: int| 0 <= kk < k && overwrites@[kk].to@ == tgt,
                decreases overwrites@.len() - k,
            {
                if bytes_eq(&overwrites[k].to, &target) {
                    in_overs = true;
                }
                k = k + 1;
            }
            proof {
                assert(tgt == join_spec(td, rel));
                if in_overs {
                    let kk = choose|kk: int|
                        0 <= kk < overwrites@.len() && overwrites@[kk].to@ == tgt;
                    lemma_join_injective(td, overs[kk], rel);
                    assert(overs.contains(rel));
                } else {
                    if overs.contains(rel) {
                        let kk = choose|kk: int| 0 <= kk < overs.len() && overs[kk] == rel;
                        assert(overwrites@[kk].to@ == tgt);
                        assert(false);
                    }
                }
            }
            if !in_overs {
                let mut dup = false;
                let ghost mr = remove_rels(pre, overs);
                let mut k2: usize = 0;
                while k2 < removes.len()
                    invariant
                        k2 <= removes@.len(),
                        removes@.len() == mr.len(),
                        forall|kk: int|
                            0 <= kk < removes@.len() ==> (#[trigger] removes@[kk]).0@ == join_spec(
                                td,
                                mr[kk],
                            ),
                        tgt == target@,
                        dup == exists|kk: int| 0 <= kk < k2 && removes@[kk].0@ == tgt,
                    decreases removes@.len() - k2,
                {
                    if bytes_eq(&removes[k2].0, &target) {
                        dup = true;
                    }
                    k2 = k2 + 1;
                }
                proof {
                    lemma_remove_contains(pre, overs, rel);
                    assert(forall|j: int| 0 <= j < h ==> pre[j] == d[j]);
                    if dup {
                        let kk = choose|kk: int| 0 <= kk < removes@.len() && removes@[kk].0@ == tgt;
                        lemma_join_injective(td, mr[kk], rel);
                        assert(mr.contains(rel));
                        let j = choose|j: int|
                            0 <= j < pre.len() && !pre[j].is_dir && pre[j].rel@ == rel;
                        assert(!d[j].is_dir && d[j].rel@ == rel);
                        assert(!dest_file_first_at(d, h as int));
                    } else {
                        if mr.contains(rel) {
                            let kk = choose|kk: int| 0 <= kk < mr.len() && mr[kk] == rel;
                            assert(removes@[kk].0@ == tgt);
                            assert(false);
                        }
                        assert(dest_file_first_at(d, h as int));
                    }
                }
                if !dup {
                    removes.push(Remove(target));
                }
            }
        }
        h = h + 1;
    }
    proof {
        assert(d.take(d.len() as int) =~= d);
    }
    if adds.is_empty() && overwrites.is_empty() && removes.is_empty() {
        PlanResult::Empty
    } else {
        PlanResult::Plan { adds, overwrites, removes }
    }
}

} // verus!
