//! Syntax checking of the glob patterns.
//!
//! A reconciliation aborts on the first pattern that the glob engine does
//! not accept, before anything is expanded or touched.  Whether a pattern is
//! well formed is the glob engine's own judgement; it is named here and
//! checked through it.

use vstd::prelude::*;

use crate::copy_bytes;
use crate::error::DotrError;

verus! {

/// Whether the glob engine accepts these bytes as a well-formed pattern.
pub uninterp spec fn pattern_ok(p: Seq<u8>) -> bool;

/// Relies on `glob::Pattern::new`: whether it accepts a pattern depends on
/// the pattern text alone; on rejection it reports position and cause.
#[verifier::external_body]
fn check_pattern(p: &Vec<u8>) -> (r: Option<Vec<u8>>)
    ensures
        r is None <==> pattern_ok(p@),
{
    let text = match core::str::from_utf8(p.as_slice()) {
        Ok(t) => t,
        Err(e) => return Some(format!("{}", e).into_bytes()),
    };
    match glob::Pattern::new(text) {
        Ok(_) => None,
        Err(e) => Some(format!("{}", e).into_bytes()),
    }
}

/// Checks every pattern of the list, failing on the first one that the glob
/// engine rejects, with that pattern and the engine's cause in the error.
pub fn validate_patterns(patterns: &Vec<Vec<u8>>) -> (r: Result<(), DotrError>)
    ensures
        r is Ok <==> (forall|k: int|
            0 <= k < patterns@.len() ==> #[trigger] pattern_ok(patterns@[k]@)),
        r matches Err(e) ==> exists|k: int|
            0 <= k < patterns@.len() && !pattern_ok(patterns@[k]@) && (forall|j: int|
                0 <= j < k ==> #[trigger] pattern_ok(patterns@[j]@)) && (e matches
            DotrError::BadGlob(pat, _) && pat@ == patterns@[k]@),
{
    let mut k: usize = 0;
    while k < patterns.len()
        invariant
            k <= patterns@.len(),
            forall|j: int| 0 <= j < k ==> #[trigger] pattern_ok(patterns@[j]@),
        decreases patterns@.len() - k,
    {
        if let Some(cause) = check_pattern(&patterns[k]) {
            return Err(DotrError::BadGlob(copy_bytes(&patterns[k]), cause));
        }
        k = k + 1;
    }
    Ok(())
}

} // verus!
