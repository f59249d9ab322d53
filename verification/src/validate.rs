//! Pre-flight validation of the three paths of one reconciliation.
//!
//! Before anything is planned, the source and destination roots must be
//! existing directories and the pattern file an existing regular file.  The
//! caller observes each path on disk and hands the observations in; the
//! decision which error, if any, to raise is made here.

use vstd::prelude::*;

use crate::copy_bytes;
use crate::error::DotrError;

verus! {

/// One observation of a path on disk: the path itself, whether anything
/// exists there, and whether that is a directory or a regular file.
pub struct PathStatus {
    pub path: Vec<u8>,
    pub exists: bool,
    pub is_dir: bool,
    pub is_file: bool,
}

/// Decides whether a reconciliation may start: the source root must be an
/// existing directory, then the destination root, then the pattern file an
/// existing regular file; the first violated condition names its path.
pub fn validate_paths(pattern_file: &PathStatus, from_dir: &PathStatus, to_dir: &PathStatus) -> (r:
    Result<(), DotrError>)
    ensures
        r is Ok <==> (from_dir.exists && from_dir.is_dir && to_dir.exists && to_dir.is_dir
            && pattern_file.exists && pattern_file.is_file),
        !from_dir.exists ==> (r matches Err(DotrError::PathNotFound(p)) && p@ == from_dir.path@),
        from_dir.exists && !from_dir.is_dir ==> (r matches Err(DotrError::NotDir(p)) && p@
            == from_dir.path@),
        from_dir.exists && from_dir.is_dir && !to_dir.exists ==> (r matches Err(
            DotrError::PathNotFound(p),
        ) && p@ == to_dir.path@),
        from_dir.exists && from_dir.is_dir && to_dir.exists && !to_dir.is_dir ==> (r matches Err(
            DotrError::NotDir(p),
        ) && p@ == to_dir.path@),
        from_dir.exists && from_dir.is_dir && to_dir.exists && to_dir.is_dir
            && !pattern_file.exists ==> (r matches Err(DotrError::PathNotFound(p)) && p@
            == pattern_file.path@),
        from_dir.exists && from_dir.is_dir && to_dir.exists && to_dir.is_dir
            && pattern_file.exists && !pattern_file.is_file ==> (r matches Err(
            DotrError::NotFile(p),
        ) && p@ == pattern_file.path@),
{
    if !from_dir.exists {
        return Err(DotrError::PathNotFound(copy_bytes(&from_dir.path)));
    }
    if !from_dir.is_dir {
        return Err(DotrError::NotDir(copy_bytes(&from_dir.path)));
    }
    if !to_dir.exists {
        return Err(DotrError::PathNotFound(copy_bytes(&to_dir.path)));
    }
    if !to_dir.is_dir {
        return Err(DotrError::NotDir(copy_bytes(&to_dir.path)));
    }
    if !pattern_file.exists {
        return Err(DotrError::PathNotFound(copy_bytes(&pattern_file.path)));
    }
    if !pattern_file.is_file {
        return Err(DotrError::NotFile(copy_bytes(&pattern_file.path)));
    }
    Ok(())
}

} // verus!
