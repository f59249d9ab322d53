//! Laws of the planner.
//!
//! The proof functions here state what holds of every reconciliation:
//! planning is deterministic; the operation lists of one plan never name a
//! destination path twice; a file matched in both trees is overwritten,
//! never removed; directory matches produce nothing; and a plan, once
//! applied, leaves nothing to add or remove.

use vstd::prelude::*;

use crate::paths::{has_sep, join_spec, lemma_join_has_sep, lemma_join_injective};
use crate::plan::{
    add_rels, claimed_rels, dest_file_first_at, file_first_at, lemma_claimed_contains,
    lemma_remove_contains, overwrite_rels, plan_matches, remove_rels, DestEntry, PlanResult,
    SourceEntry,
};

verus! {

/// A sequence of paths without repetition.
pub open spec fn distinct_seq(x: Seq<Seq<u8>>) -> bool {
    forall|k1: int, k2: int| 0 <= k1 < k2 < x.len() ==> x[k1] != x[k2]
}

/// Two sequences of paths without a common member.
pub open spec fn disjoint_seqs(x: Seq<Seq<u8>>, y: Seq<Seq<u8>>) -> bool {
    forall|k1: int, k2: int| 0 <= k1 < x.len() && 0 <= k2 < y.len() ==> x[k1] != y[k2]
}

/// Every relative path of `rels` joined under `root`.
pub open spec fn joined(root: Seq<u8>, rels: Seq<Seq<u8>>) -> Seq<Seq<u8>> {
    rels.map(|_k: int, r: Seq<u8>| join_spec(root, r))
}

/// Both match lists describe one state of the trees: a relative path that
/// is a file match in the destination exists under the destination root, so
/// a source file match of the same relative path carries `target_exists`.
pub open spec fn matches_consistent(s: Seq<SourceEntry>, d: Seq<DestEntry>) -> bool {
    forall|i: int, j: int|
        0 <= i < s.len() && 0 <= j < d.len() && !s[i].is_dir && !d[j].is_dir && s[i].rel@
            == d[j].rel@ ==> s[i].target_exists
}

/// A relative path has at most one first file match.
proof fn lemma_first_unique(s: Seq<SourceEntry>, i1: int, i2: int)
    requires
        0 <= i1 < s.len(),
        0 <= i2 < s.len(),
        file_first_at(s, i1),
        file_first_at(s, i2),
        s[i1].rel@ == s[i2].rel@,
    ensures
        i1 == i2,
{
    if i1 < i2 {
        assert(s[i1].is_dir || s[i1].rel@ != s[i2].rel@);
    }
    if i2 < i1 {
        assert(s[i2].is_dir || s[i2].rel@ != s[i1].rel@);
    }
}

/// Every file match is preceded (or met) by a first file match of its
/// relative path.
proof fn lemma_exists_first(s: Seq<SourceEntry>, i: int)
    requires
        0 <= i < s.len(),
        !s[i].is_dir,
    ensures
        exists|i0: int|
            0 <= i0 <= i && #[trigger] file_first_at(s, i0) && s[i0].rel@ == s[i].rel@,
    decreases i,
{
    if file_first_at(s, i) {
    } else {
        let j = choose|j: int| 0 <= j < i && !s[j].is_dir && s[j].rel@ == s[i].rel@;
        lemma_exists_first(s, j);
        let i0 = choose|i0: int|
            0 <= i0 <= j && #[trigger] file_first_at(s, i0) && s[i0].rel@ == s[j].rel@;
        assert(file_first_at(s, i0) && s[i0].rel@ == s[i].rel@);
    }
}

/// A relative path is added exactly when its first file match has no
/// destination file yet.
pub proof fn lemma_add_contains(s: Seq<SourceEntry>, r: Seq<u8>)
    ensures
        add_rels(s).contains(r) <==> exists|i: int|
            0 <= i < s.len() && #[trigger] file_first_at(s, i) && s[i].rel@ == r
                && !s[i].target_exists,
    decreases s.len(),
{
    if s.len() > 0 {
        lemma_add_contains(s.drop_last(), r);
        let n = s.len() - 1;
        assert(forall|j: int| 0 <= j < n ==> s.drop_last()[j] == s[j]);
        assert(forall|i: int|
            0 <= i < n ==> #[trigger] file_first_at(s.drop_last(), i) == file_first_at(s, i));
        let pre = add_rels(s.drop_last());
        if file_first_at(s, n) && !s.last().target_exists {
            assert(add_rels(s) == pre.push(s[n].rel@));
            if add_rels(s).contains(r) {
                let k = choose|k: int| 0 <= k < add_rels(s).len() && add_rels(s)[k] == r;
                if k < pre.len() {
                    assert(pre.contains(r));
                } else {
                    assert(file_first_at(s, n) && s[n].rel@ == r && !s[n].target_exists);
                }
            }
            if exists|i: int|
                0 <= i < s.len() && #[trigger] file_first_at(s, i) && s[i].rel@ == r
                    && !s[i].target_exists {
                let i = choose|i: int|
                    0 <= i < s.len() && #[trigger] file_first_at(s, i) && s[i].rel@ == r
                        && !s[i].target_exists;
                if i < n {
                    assert(s.drop_last()[i] == s[i]);
                    assert(file_first_at(s.drop_last(), i) && s.drop_last()[i].rel@ == r
                        && !s.drop_last()[i].target_exists);
                    assert(pre.contains(r));
                    let k = choose|k: int| 0 <= k < pre.len() && pre[k] == r;
                    assert(add_rels(s)[k] == r);
                } else {
                    assert(add_rels(s)[pre.len() as int] == r);
                }
            }
        } else {
            assert(add_rels(s) == pre);
            if exists|i: int|
                0 <= i < s.len() && #[trigger] file_first_at(s, i) && s[i].rel@ == r
                    && !s[i].target_exists {
                let i = choose|i: int|
                    0 <= i < s.len() && #[trigger] file_first_at(s, i) && s[i].rel@ == r
                        && !s[i].target_exists;
                assert(i < n);
                assert(s.drop_last()[i] == s[i]);
                assert(file_first_at(s.drop_last(), i) && s.drop_last()[i].rel@ == r
                    && !s.drop_last()[i].target_exists);
                assert(pre.contains(r));
            }
            if pre.contains(r) {
                let k = choose|k: int| 0 <= k < pre.len() && pre[k] == r;
                assert(pre[k] == r);
            }
        }
    }
}

/// A relative path is overwritten exactly when its first file match already
/// has a destination file.
pub proof fn lemma_overwrite_contains(s: Seq<SourceEntry>, r: Seq<u8>)
    ensures
        overwrite_rels(s).contains(r) <==> exists|i: int|
            0 <= i < s.len() && #[trigger] file_first_at(s, i) && s[i].rel@ == r
                && s[i].target_exists,
    decreases s.len(),
{
    if s.len() > 0 {
        lemma_overwrite_contains(s.drop_last(), r);
        let n = s.len() - 1;
        assert(forall|j: int| 0 <= j < n ==> s.drop_last()[j] == s[j]);
        assert(forall|i: int|
            0 <= i < n ==> #[trigger] file_first_at(s.drop_last(), i) == file_first_at(s, i));
        let pre = overwrite_rels(s.drop_last());
        if file_first_at(s, n) && s.last().target_exists {
            assert(overwrite_rels(s) == pre.push(s[n].rel@));
            if overwrite_rels(s).contains(r) {
                let k = choose|k: int|
                    0 <= k < overwrite_rels(s).len() && overwrite_rels(s)[k] == r;
                if k < pre.len() {
                    assert(pre.contains(r));
                } else {
                    assert(file_first_at(s, n) && s[n].rel@ == r && s[n].target_exists);
                }
            }
            if exists|i: int|
                0 <= i < s.len() && #[trigger] file_first_at(s, i) && s[i].rel@ == r
                    && s[i].target_exists {
                let i = choose|i: int|
                    0 <= i < s.len() && #[trigger] file_first_at(s, i) && s[i].rel@ == r
                        && s[i].target_exists;
                if i < n {
                    assert(s.drop_last()[i] == s[i]);
                    assert(file_first_at(s.drop_last(), i) && s.drop_last()[i].rel@ == r
                        && s.drop_last()[i].target_exists);
                    assert(pre.contains(r));
                    let k = choose|k: int| 0 <= k < pre.len() && pre[k] == r;
                    assert(overwrite_rels(s)[k] == r);
                } else {
                    assert(overwrite_rels(s)[pre.len() as int] == r);
                }
            }
        } else {
            assert(overwrite_rels(s) == pre);
            if exists|i: int|
                0 <= i < s.len() && #[trigger] file_first_at(s, i) && s[i].rel@ == r
                    && s[i].target_exists {
                let i = choose|i: int|
                    0 <= i < s.len() && #[trigger] file_first_at(s, i) && s[i].rel@ == r
                        && s[i].target_exists;
                assert(i < n);
                assert(s.drop_last()[i] == s[i]);
                assert(file_first_at(s.drop_last(), i) && s.drop_last()[i].rel@ == r
                    && s.drop_last()[i].target_exists);
                assert(pre.contains(r));
            }
            if pre.contains(r) {
                let k = choose|k: int| 0 <= k < pre.len() && pre[k] == r;
                assert(pre[k] == r);
            }
        }
    }
}

/// The added relative paths never repeat.
proof fn lemma_add_rels_distinct(s: Seq<SourceEntry>)
    ensures
        distinct_seq(add_rels(s)),
    decreases s.len(),
{
    if s.len() > 0 {
        lemma_add_rels_distinct(s.drop_last());
        let n = s.len() - 1;
        let pre = add_rels(s.drop_last());
        if file_first_at(s, n) && !s.last().target_exists {
            assert(!pre.contains(s[n].rel@)) by {
                lemma_add_contains(s.drop_last(), s[n].rel@);
                if pre.contains(s[n].rel@) {
                    let i = choose|i: int|
                        0 <= i < s.drop_last().len() && #[trigger] file_first_at(s.drop_last(), i)
                            && s.drop_last()[i].rel@ == s[n].rel@ && !s.drop_last()[i].target_exists;
                    assert(s.drop_last()[i] == s[i]);
                    assert(!s[i].is_dir && s[i].rel@ == s[n].rel@);
                }
            }
            assert forall|k1: int, k2: int|
                0 <= k1 < k2 < add_rels(s).len() implies add_rels(s)[k1] != add_rels(s)[k2] by {
                if k2 < pre.len() {
                } else {
                    assert(add_rels(s)[k1] == pre[k1]);
                    if add_rels(s)[k1] == s[n].rel@ {
                        assert(pre.contains(s[n].rel@));
                    }
                }
            }
        }
    }
}

/// The overwritten relative paths never repeat.
proof fn lemma_overwrite_rels_distinct(s: Seq<SourceEntry>)
    ensures
        distinct_seq(overwrite_rels(s)),
    decreases s.len(),
{
    if s.len() > 0 {
        lemma_overwrite_rels_distinct(s.drop_last());
        let n = s.len() - 1;
        let pre = overwrite_rels(s.drop_last());
        if file_first_at(s, n) && s.last().target_exists {
            assert(!pre.contains(s[n].rel@)) by {
                lemma_overwrite_contains(s.drop_last(), s[n].rel@);
                if pre.contains(s[n].rel@) {
                    let i = choose|i: int|
                        0 <= i < s.drop_last().len() && #[trigger] file_first_at(s.drop_last(), i)
                            && s.drop_last()[i].rel@ == s[n].rel@ && s.drop_last()[i].target_exists;
                    assert(s.drop_last()[i] == s[i]);
                    assert(!s[i].is_dir && s[i].rel@ == s[n].rel@);
                }
            }
            assert forall|k1: int, k2: int|
                0 <= k1 < k2 < overwrite_rels(s).len() implies overwrite_rels(s)[k1]
                    != overwrite_rels(s)[k2] by {
                if k2 < pre.len() {
                } else {
                    assert(overwrite_rels(s)[k1] == pre[k1]);
                    if overwrite_rels(s)[k1] == s[n].rel@ {
                        assert(pre.contains(s[n].rel@));
                    }
                }
            }
        }
    }
}

/// The removed relative paths never repeat.
proof fn lemma_remove_rels_distinct(d: Seq<DestEntry>, overs: Seq<Seq<u8>>)
    ensures
        distinct_seq(remove_rels(d, overs)),
    decreases d.len(),
{
    if d.len() > 0 {
        lemma_remove_rels_distinct(d.drop_last(), overs);
        let n = d.len() - 1;
        let pre = remove_rels(d.drop_last(), overs);
        if dest_file_first_at(d, n) && !overs.contains(d.last().rel@) {
            assert(!pre.contains(d[n].rel@)) by {
                lemma_remove_contains(d.drop_last(), overs, d[n].rel@);
                if pre.contains(d[n].rel@) {
                    let j = choose|j: int|
                        0 <= j < d.drop_last().len() && !d.drop_last()[j].is_dir
                            && d.drop_last()[j].rel@ == d[n].rel@;
                    assert(d.drop_last()[j] == d[j]);
                    assert(!d[j].is_dir && d[j].rel@ == d[n].rel@);
                }
            }
            assert forall|k1: int, k2: int|
                0 <= k1 < k2 < remove_rels(d, overs).len() implies remove_rels(d, overs)[k1]
                    != remove_rels(d, overs)[k2] by {
                if k2 < pre.len() {
                } else {
                    assert(remove_rels(d, overs)[k1] == pre[k1]);
                    if remove_rels(d, overs)[k1] == d[n].rel@ {
                        assert(pre.contains(d[n].rel@));
                    }
                }
            }
        }
    }
}

/// Joining distinct relative paths under one root keeps them distinct.
proof fn lemma_joined_distinct(root: Seq<u8>, x: Seq<Seq<u8>>)
    requires
        distinct_seq(x),
    ensures
        distinct_seq(joined(root, x)),
{
    assert forall|k1: int, k2: int|
        0 <= k1 < k2 < joined(root, x).len() implies joined(root, x)[k1] != joined(
        root,
        x,
    )[k2] by {
        if joined(root, x)[k1] == joined(root, x)[k2] {
            lemma_join_injective(root, x[k1], x[k2]);
        }
    }
}

/// Joining disjoint families of relative paths under one root keeps them
/// disjoint.
proof fn lemma_joined_disjoint(root: Seq<u8>, x: Seq<Seq<u8>>, y: Seq<Seq<u8>>)
    requires
        disjoint_seqs(x, y),
    ensures
        disjoint_seqs(joined(root, x), joined(root, y)),
{
    assert forall|k1: int, k2: int|
        0 <= k1 < joined(root, x).len() && 0 <= k2 < joined(root, y).len() implies joined(
        root,
        x,
    )[k1] != joined(root, y)[k2] by {
        if joined(root, x)[k1] == joined(root, y)[k2] {
            lemma_join_injective(root, x[k1], y[k2]);
        }
    }
}

/// No destination path is the object of two operations: within one plan the
/// added, overwritten and removed destination paths are pairwise distinct,
/// within each list and across the three lists.
pub proof fn lemma_no_path_in_two_operations(
    s: Seq<SourceEntry>,
    d: Seq<DestEntry>,
    to_root: Seq<u8>,
)
    requires
        matches_consistent(s, d),
    ensures
        distinct_seq(joined(to_root, add_rels(s))),
        distinct_seq(joined(to_root, overwrite_rels(s))),
        distinct_seq(joined(to_root, remove_rels(d, overwrite_rels(s)))),
        disjoint_seqs(joined(to_root, add_rels(s)), joined(to_root, overwrite_rels(s))),
        disjoint_seqs(
            joined(to_root, add_rels(s)),
            joined(to_root, remove_rels(d, overwrite_rels(s))),
        ),
        disjoint_seqs(
            joined(to_root, overwrite_rels(s)),
            joined(to_root, remove_rels(d, overwrite_rels(s))),
        ),
{
    let a = add_rels(s);
    let o = overwrite_rels(s);
    let m = remove_rels(d, o);
    lemma_add_rels_distinct(s);
    lemma_overwrite_rels_distinct(s);
    lemma_remove_rels_distinct(d, o);
    lemma_joined_distinct(to_root, a);
    lemma_joined_distinct(to_root, o);
    lemma_joined_distinct(to_root, m);
    assert forall|k1: int, k2: int|
        0 <= k1 < a.len() && 0 <= k2 < o.len() implies a[k1] != o[k2] by {
        if a[k1] == o[k2] {
            lemma_add_contains(s, a[k1]);
            lemma_overwrite_contains(s, a[k1]);
            assert(a.contains(a[k1]));
            assert(o.contains(a[k1]));
            let i1 = choose|i: int|
                0 <= i < s.len() && #[trigger] file_first_at(s, i) && s[i].rel@ == a[k1]
                    && !s[i].target_exists;
            let i2 = choose|i: int|
                0 <= i < s.len() && #[trigger] file_first_at(s, i) && s[i].rel@ == a[k1]
                    && s[i].target_exists;
            lemma_first_unique(s, i1, i2);
        }
    }
    assert forall|k1: int, k2: int|
        0 <= k1 < a.len() && 0 <= k2 < m.len() implies a[k1] != m[k2] by {
        if a[k1] == m[k2] {
            lemma_add_contains(s, a[k1]);
            lemma_remove_contains(d, o, a[k1]);
            assert(a.contains(a[k1]));
            assert(m.contains(a[k1]));
            let i = choose|i: int|
                0 <= i < s.len() && #[trigger] file_first_at(s, i) && s[i].rel@ == a[k1]
                    && !s[i].target_exists;
            let j = choose|j: int| 0 <= j < d.len() && !d[j].is_dir && d[j].rel@ == a[k1];
            assert(s[i].target_exists);
        }
    }
    assert forall|k1: int, k2: int|
        0 <= k1 < o.len() && 0 <= k2 < m.len() implies o[k1] != m[k2] by {
        if o[k1] == m[k2] {
            lemma_remove_contains(d, o, o[k1]);
            assert(m.contains(o[k1]));
            assert(o.contains(o[k1]));
        }
    }
    lemma_joined_disjoint(to_root, a, o);
    lemma_joined_disjoint(to_root, a, m);
    lemma_joined_disjoint(to_root, o, m);
}

/// A file matched in both trees under one relative path is overwritten:
/// never added, never removed.
pub proof fn lemma_matched_in_both_is_overwrite(
    s: Seq<SourceEntry>,
    d: Seq<DestEntry>,
    i: int,
    j: int,
)
    requires
        matches_consistent(s, d),
        0 <= i < s.len(),
        !s[i].is_dir,
        0 <= j < d.len(),
        !d[j].is_dir,
        s[i].rel@ == d[j].rel@,
    ensures
        overwrite_rels(s).contains(s[i].rel@),
        !add_rels(s).contains(s[i].rel@),
        !remove_rels(d, overwrite_rels(s)).contains(s[i].rel@),
{
    let r = s[i].rel@;
    lemma_exists_first(s, i);
    let i0 = choose|i0: int| 0 <= i0 <= i && #[trigger] file_first_at(s, i0) && s[i0].rel@ == r;
    assert(s[i0].target_exists);
    lemma_overwrite_contains(s, r);
    assert(overwrite_rels(s).contains(r));
    lemma_add_contains(s, r);
    if add_rels(s).contains(r) {
        let i1 = choose|i1: int|
            0 <= i1 < s.len() && #[trigger] file_first_at(s, i1) && s[i1].rel@ == r
                && !s[i1].target_exists;
        lemma_first_unique(s, i0, i1);
    }
    lemma_remove_contains(d, overwrite_rels(s), r);
}

/// Directory matches alone plan nothing on the source side.
proof fn lemma_dirs_only_source(s: Seq<SourceEntry>)
    requires
        forall|i: int| 0 <= i < s.len() ==> s[i].is_dir,
    ensures
        add_rels(s).len() == 0,
        overwrite_rels(s).len() == 0,
        claimed_rels(s).len() == 0,
    decreases s.len(),
{
    if s.len() > 0 {
        lemma_dirs_only_source(s.drop_last());
    }
}

/// Directory matches alone plan nothing on the destination side.
proof fn lemma_dirs_only_dest(d: Seq<DestEntry>, overs: Seq<Seq<u8>>)
    requires
        forall|j: int| 0 <= j < d.len() ==> d[j].is_dir,
    ensures
        remove_rels(d, overs).len() == 0,
    decreases d.len(),
{
    if d.len() > 0 {
        lemma_dirs_only_dest(d.drop_last(), overs);
    }
}

/// Directory matches never produce an operation: when every match is a
/// directory, the plan is empty.
pub proof fn lemma_dirs_only_empty_plan(s: Seq<SourceEntry>, d: Seq<DestEntry>)
    requires
        forall|i: int| 0 <= i < s.len() ==> s[i].is_dir,
        forall|j: int| 0 <= j < d.len() ==> d[j].is_dir,
    ensures
        add_rels(s).len() == 0,
        overwrite_rels(s).len() == 0,
        remove_rels(d, overwrite_rels(s)).len() == 0,
{
    lemma_dirs_only_source(s);
    lemma_dirs_only_dest(d, overwrite_rels(s));
}

/// Whether two planner results describe the same plan, operation for
/// operation.
pub open spec fn plan_equiv(r1: PlanResult, r2: PlanResult) -> bool {
    match (r1, r2) {
        (PlanResult::Empty, PlanResult::Empty) => true,
        (
            PlanResult::Plan { adds: a1, overwrites: o1, removes: m1 },
            PlanResult::Plan { adds: a2, overwrites: o2, removes: m2 },
        ) => {
            &&& a1@.len() == a2@.len()
            &&& forall|k: int|
                0 <= k < a1@.len() ==> (#[trigger] a1@[k]).from@ == a2@[k].from@ && a1@[k].to@
                    == a2@[k].to@
            &&& o1@.len() == o2@.len()
            &&& forall|k: int|
                0 <= k < o1@.len() ==> (#[trigger] o1@[k]).from@ == o2@[k].from@ && o1@[k].to@
                    == o2@[k].to@
            &&& m1@.len() == m2@.len()
            &&& forall|k: int| 0 <= k < m1@.len() ==> (#[trigger] m1@[k]).0@ == m2@[k].0@
        },
        _ => false,
    }
}

/// Planning is deterministic: two planner results for one set of matches
/// and one pair of roots describe the same plan.
pub proof fn lemma_planner_deterministic(
    r1: PlanResult,
    r2: PlanResult,
    s: Seq<SourceEntry>,
    d: Seq<DestEntry>,
    from_root: Seq<u8>,
    to_root: Seq<u8>,
)
    requires
        plan_matches(r1, s, d, from_root, to_root),
        plan_matches(r2, s, d, from_root, to_root),
    ensures
        plan_equiv(r1, r2),
{
}

/// Every destination path a plan touches lies under a directory: joined
/// under a non-empty destination root, each added, overwritten or removed
/// path contains a separator, so the scheduler can always name its parent.
pub proof fn lemma_planned_paths_have_parents(
    r: PlanResult,
    s: Seq<SourceEntry>,
    d: Seq<DestEntry>,
    from_root: Seq<u8>,
    to_root: Seq<u8>,
)
    requires
        plan_matches(r, s, d, from_root, to_root),
        to_root.len() > 0,
    ensures
        r matches PlanResult::Plan { adds, overwrites, removes } ==> {
            &&& forall|k: int| 0 <= k < adds@.len() ==> has_sep((#[trigger] adds@[k]).to@)
            &&& forall|k: int|
                0 <= k < overwrites@.len() ==> has_sep((#[trigger] overwrites@[k]).to@)
            &&& forall|k: int| 0 <= k < removes@.len() ==> has_sep((#[trigger] removes@[k]).0@)
        },
{
    if let PlanResult::Plan { adds, overwrites, removes } = r {
        assert forall|k: int| 0 <= k < adds@.len() implies has_sep((adds@[k]).to@) by {
            lemma_join_has_sep(to_root, add_rels(s)[k]);
        }
        assert forall|k: int| 0 <= k < overwrites@.len() implies has_sep(
            (overwrites@[k]).to@,
        ) by {
            lemma_join_has_sep(to_root, overwrite_rels(s)[k]);
        }
        assert forall|k: int| 0 <= k < removes@.len() implies has_sep((removes@[k]).0@) by {
            lemma_join_has_sep(to_root, remove_rels(d, overwrite_rels(s))[k]);
        }
    }
}

/// One source match list, refreshed after the plan was applied: the same
/// matches in the same order, every file match now with its destination
/// file in place.
pub open spec fn synced_source(s: Seq<SourceEntry>, s2: Seq<SourceEntry>) -> bool {
    &&& s2.len() == s.len()
    &&& forall|i: int|
        0 <= i < s.len() ==> (#[trigger] s2[i]).rel@ == s[i].rel@ && s2[i].is_dir == s[i].is_dir
            && (!s2[i].is_dir ==> s2[i].target_exists)
}

/// After a plan is applied, every first file match of the refreshed source
/// list becomes an overwrite of a claimed path, and nothing is added.
proof fn lemma_synced_source_rels(s: Seq<SourceEntry>, s2: Seq<SourceEntry>)
    requires
        synced_source(s, s2),
    ensures
        claimed_rels(s2) == claimed_rels(s),
        overwrite_rels(s2) == claimed_rels(s),
        add_rels(s2).len() == 0,
    decreases s.len(),
{
    if s.len() > 0 {
        assert(synced_source(s.drop_last(), s2.drop_last())) by {
            assert(forall|i: int|
                0 <= i < s.drop_last().len() ==> s2.drop_last()[i] == s2[i] && s.drop_last()[i]
                    == s[i]);
        }
        lemma_synced_source_rels(s.drop_last(), s2.drop_last());
        let n = s.len() - 1;
        assert(file_first_at(s2, n) == file_first_at(s, n)) by {
            if file_first_at(s, n) {
                assert forall|j: int| 0 <= j < n implies s2[j].is_dir || s2[j].rel@
                    != s2[n].rel@ by {
                    assert(s2[j].is_dir == s[j].is_dir && s2[j].rel@ == s[j].rel@);
                    assert(s2[n].rel@ == s[n].rel@);
                }
            }
            if file_first_at(s2, n) {
                assert forall|j: int| 0 <= j < n implies s[j].is_dir || s[j].rel@
                    != s[n].rel@ by {
                    assert(s2[j].is_dir == s[j].is_dir && s2[j].rel@ == s[j].rel@);
                    assert(s2[n].rel@ == s[n].rel@);
                }
            }
        }
        if file_first_at(s, n) {
            assert(s2[n].target_exists);
            assert(claimed_rels(s2) == claimed_rels(s2.drop_last()).push(s2[n].rel@));
            assert(s2[n].rel@ == s[n].rel@);
        }
    }
}

/// A destination match list in which every file match is a claimed path of
/// `s` plans no removal once all claimed paths are overwritten.
proof fn lemma_synced_dest_rels(d2: Seq<DestEntry>, overs: Seq<Seq<u8>>)
    requires
        forall|j: int| 0 <= j < d2.len() ==> (#[trigger] d2[j]).is_dir || overs.contains(d2[j].rel@),
    ensures
        remove_rels(d2, overs).len() == 0,
    decreases d2.len(),
{
    if d2.len() > 0 {
        lemma_synced_dest_rels(d2.drop_last(), overs);
    }
}

/// Applying a plan settles the trees: re-planning with the refreshed
/// matches asks for no addition and no removal, and overwrites exactly the
/// relative paths that the applied plan itself added or overwrote.
///
/// `s2` are the source matches seen again after the apply (`synced_source`),
/// and `d2` the destination matches seen then, every one of them a directory
/// or a path the apply put or kept there.
pub proof fn lemma_replan_after_apply(
    s: Seq<SourceEntry>,
    d: Seq<DestEntry>,
    s2: Seq<SourceEntry>,
    d2: Seq<DestEntry>,
)
    requires
        synced_source(s, s2),
        forall|j: int|
            0 <= j < d2.len() ==> (#[trigger] d2[j]).is_dir || claimed_rels(s).contains(
                d2[j].rel@,
            ),
    ensures
        add_rels(s2).len() == 0,
        remove_rels(d2, overwrite_rels(s2)).len() == 0,
        overwrite_rels(s2) == claimed_rels(s),
        forall|r: Seq<u8>|
            overwrite_rels(s2).contains(r) <==> add_rels(s).contains(r) || overwrite_rels(
                s,
            ).contains(r),
{
    lemma_synced_source_rels(s, s2);
    lemma_synced_dest_rels(d2, claimed_rels(s));
    assert forall|r: Seq<u8>|
        overwrite_rels(s2).contains(r) <==> add_rels(s).contains(r) || overwrite_rels(s).contains(
            r,
        ) by {
        lemma_claimed_contains(s, r);
        lemma_add_contains(s, r);
        lemma_overwrite_contains(s, r);
        if claimed_rels(s).contains(r) {
            let j = choose|j: int| 0 <= j < s.len() && !s[j].is_dir && s[j].rel@ == r;
            lemma_exists_first(s, j);
            let i0 = choose|i0: int|
                0 <= i0 <= j && #[trigger] file_first_at(s, i0) && s[i0].rel@ == r;
            if s[i0].target_exists {
                assert(overwrite_rels(s).contains(r));
            } else {
                assert(add_rels(s).contains(r));
            }
        }
        if add_rels(s).contains(r) || overwrite_rels(s).contains(r) {
            let i = choose|i: int|
                0 <= i < s.len() && #[trigger] file_first_at(s, i) && s[i].rel@ == r;
            assert(!s[i].is_dir && s[i].rel@ == r);
        }
    }
}

} // verus!
