//! Pattern-scoped reconciliation of two directory trees.
//!
//! Given a list of glob patterns and two directory roots, the library
//! classifies every matched file as an addition, an overwrite or a removal,
//! and schedules the resulting operations in a fixed order.  All path and
//! planning logic here works on plain byte-string paths; reading the trees
//! and applying the operations is left to the caller.

use vstd::prelude::*;

pub mod absolute;
pub mod cli;
pub mod error;
pub mod laws;
pub mod lines;
pub mod paths;
pub mod patterns;
pub mod plan;
pub mod report;
pub mod schedule;
pub mod validate;

pub use cli::{Cli, Commands, InstallArgs, NextStep, SyncArgs};
pub use error::DotrError;
pub use plan::{Add, DestEntry, Overwrite, PlanResult, Remove, SourceEntry};
pub use validate::{validate_paths, PathStatus};

verus! {

/// Compares two byte strings for equality of contents.
pub(crate) fn bytes_eq(a: &Vec<u8>, b: &Vec<u8>) -> (r: bool)
    ensures
        r == (a@ == b@),
{
    if a.len() != b.len() {
        assert(a@ != b@);
        return false;
    }
    let mut i: usize = 0;
    while i < a.len()
        invariant
            0 <= i <= a.len(),
            a.len() == b.len(),
            forall|j: int| 0 <= j < i ==> a@[j] == b@[j],
        decreases a.len() - i,
    {
        if a[i] != b[i] {
            return false;
        }
        i = i + 1;
    }
    assert(a@ =~= b@);
    true
}

/// Copies a byte string.
pub(crate) fn copy_bytes(v: &Vec<u8>) -> (r: Vec<u8>)
    ensures
        r@ == v@,
{
    let mut out: Vec<u8> = Vec::new();
    out.extend_from_slice(v.as_slice());
    proof {
        assert(out@ =~= v@);
    }
    out
}

} // verus!
