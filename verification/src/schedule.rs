//! Turning a plan into an ordered list of filesystem steps.
//!
//! A plan is applied in a fixed order: every removal first, then every
//! addition, then every overwrite.  Each addition or overwrite first creates
//! the parent directory of its destination, then copies the file.  The
//! scheduler fixes that order; carrying the steps out is the caller's part.

use vstd::prelude::*;
use vstd::pervasive::unreached;

use crate::copy_bytes;
use crate::paths::{has_sep, parent_dir, parent_spec};
use crate::plan::{Add, Overwrite, Remove};

verus! {

/// One primitive filesystem step.
#[derive(Debug, Clone, PartialEq, Eq)]
pub enum FsOp {
    /// Create the carried directory, with its missing ancestors.
    CreateDirAll(Vec<u8>),
    /// Copy the file at the first path to the second, replacing what is
    /// there.
    CopyFile(Vec<u8>, Vec<u8>),
    /// Delete the file at the carried path.
    RemoveFile(Vec<u8>),
}

/// Lays out the steps that apply a plan, in their fixed order: the removals
/// first, then for each addition and finally for each overwrite the creation
/// of the destination's parent directory followed by the copy.
pub fn schedule_operations(adds: &Vec<Add>, overwrites: &Vec<Overwrite>, removes: &Vec<Remove>)
    -> (r: Vec<FsOp>)
    requires
        forall|k: int| 0 <= k < adds@.len() ==> has_sep((#[trigger] adds@[k]).to@),
        forall|k: int| 0 <= k < overwrites@.len() ==> has_sep((#[trigger] overwrites@[k]).to@),
    ensures
        r@.len() == removes@.len() + 2 * adds@.len() + 2 * overwrites@.len(),
        forall|k: int|
            0 <= k < removes@.len() ==> ((#[trigger] r@[k]) matches FsOp::RemoveFile(p) && p@
                == removes@[k].0@),
        forall|k: int|
            0 <= k < adds@.len() ==> ((#[trigger] r@[removes@.len() + 2 * k]) matches
                FsOp::CreateDirAll(p) && p@ == parent_spec(adds@[k].to@)),
        forall|k: int|
            0 <= k < adds@.len() ==> ((#[trigger] r@[removes@.len() + 2 * k + 1]) matches
                FsOp::CopyFile(f, t) && f@ == adds@[k].from@ && t@ == adds@[k].to@),
        forall|k: int|
            0 <= k < overwrites@.len() ==> ((#[trigger] r@[removes@.len() + 2 * adds@.len() + 2
                * k]) matches FsOp::CreateDirAll(p) && p@ == parent_spec(overwrites@[k].to@)),
        forall|k: int|
            0 <= k < overwrites@.len() ==> ((#[trigger] r@[removes@.len() + 2 * adds@.len() + 2 * k
                + 1]) matches FsOp::CopyFile(f, t) && f@ == overwrites@[k].from@ && t@
                == overwrites@[k].to@),
{
    let mut r: Vec<FsOp> = Vec::new();
    let nr = removes.len();
    let na = adds.len();

    let mut k: usize = 0;
    while k < removes.len()
        invariant
            k <= removes@.len(),
            r@.len() == k,
            forall|j: int|
                0 <= j < k ==> ((#[trigger] r@[j]) matches FsOp::RemoveFile(p) && p@
                    == removes@[j].0@),
        decreases removes@.len() - k,
    {
        r.push(FsOp::RemoveFile(copy_bytes(&removes[k].0)));
        k = k + 1;
    }

    let mut k: usize = 0;
    while k < adds.len()
        invariant
            k <= adds@.len(),
            nr == removes@.len(),
            r@.len() == nr + 2 * k,
            forall|k2: int| 0 <= k2 < adds@.len() ==> has_sep((#[trigger] adds@[k2]).to@),
            forall|j: int|
                0 <= j < nr ==> ((#[trigger] r@[j]) matches FsOp::RemoveFile(p) && p@
                    == removes@[j].0@),
            forall|j: int|
                0 <= j < k ==> ((#[trigger] r@[nr + 2 * j]) matches FsOp::CreateDirAll(p) && p@
                    == parent_spec(adds@[j].to@)),
            forall|j: int|
                0 <= j < k ==> ((#[trigger] r@[nr + 2 * j + 1]) matches FsOp::CopyFile(f, t) && f@
                    == adds@[j].from@ && t@ == adds@[j].to@),
        decreases adds@.len() - k,
    {
        let par = match parent_dir(&adds[k].to) {
            Some(p) => p,
            None => unreached(),
        };
        r.push(FsOp::CreateDirAll(par));
        r.push(FsOp::CopyFile(copy_bytes(&adds[k].from), copy_bytes(&adds[k].to)));
        k = k + 1;
    }

    let mut k: usize = 0;
    while k < overwrites.len()
        invariant
            k <= overwrites@.len(),
            nr == removes@.len(),
            na == adds@.len(),
            r@.len() == nr + 2 * na + 2 * k,
            forall|k2: int|
                0 <= k2 < overwrites@.len() ==> has_sep((#[trigger] overwrites@[k2]).to@),
            forall|j: int|
                0 <= j < nr ==> ((#[trigger] r@[j]) matches FsOp::RemoveFile(p) && p@
                    == removes@[j].0@),
            forall|j: int|
                0 <= j < na ==> ((#[trigger] r@[nr + 2 * j]) matches FsOp::CreateDirAll(p) && p@
                    == parent_spec(adds@[j].to@)),
            forall|j: int|
                0 <= j < na ==> ((#[trigger] r@[nr + 2 * j + 1]) matches FsOp::CopyFile(f, t) && f@
                    == adds@[j].from@ && t@ == adds@[j].to@),
            forall|j: int|
                0 <= j < k ==> ((#[trigger] r@[nr + 2 * na + 2 * j]) matches FsOp::CreateDirAll(p)
                    && p@ == parent_spec(overwrites@[j].to@)),
            forall|j: int|
                0 <= j < k ==> ((#[trigger] r@[nr + 2 * na + 2 * j + 1]) matches FsOp::CopyFile(
                    f,
                    t,
                ) && f@ == overwrites@[j].from@ && t@ == overwrites@[j].to@),
        decreases overwrites@.len() - k,
    {
        let par = match parent_dir(&overwrites[k].to) {
            Some(p) => p,
            None => unreached(),
        };
        r.push(FsOp::CreateDirAll(par));
        r.push(FsOp::CopyFile(copy_bytes(&overwrites[k].from), copy_bytes(&overwrites[k].to)));
        k = k + 1;
    }
    r
}

} // verus!
