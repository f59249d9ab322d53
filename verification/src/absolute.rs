//! Resolving the reconciliation roots to absolute paths.
//!
//! Each root and the pattern file are absolutized against the caller's
//! working directory before they are validated.  The resolution is a pure
//! path computation — no filesystem state is read — done by the path
//! absolutizer and named here.

use vstd::prelude::*;

use path_absolutize::Absolutize;

verus! {

/// The absolute form of the path `p` resolved against the working directory
/// `cwd`, with `.` and `..` components folded away.
pub uninterp spec fn absolutized(p: Seq<u8>, cwd: Seq<u8>) -> Seq<u8>;

/// Relies on `path_absolutize::Absolutize::absolutize_from`: a pure
/// computation on the two paths that reads no filesystem or process state.
#[verifier::external_body]
fn absolutize_from(p: &Vec<u8>, cwd: &Vec<u8>) -> (r: Vec<u8>)
    ensures
        r@ == absolutized(p@, cwd@),
{
    let path_text = String::from_utf8_lossy(p.as_slice()).into_owned();
    let cwd_text = String::from_utf8_lossy(cwd.as_slice()).into_owned();
    let path = std::path::PathBuf::from(path_text);
    let resolved = path.absolutize_from(std::path::PathBuf::from(cwd_text));
    resolved.as_os_str().to_string_lossy().into_owned().into_bytes()
}

/// Resolves the pattern file, the source root and the destination root
/// against the working directory, in that order.
pub fn resolve_paths(pattern_file: &Vec<u8>, from_dir: &Vec<u8>, to_dir: &Vec<u8>, cwd: &Vec<u8>)
    -> (r: (Vec<u8>, Vec<u8>, Vec<u8>))
    ensures
        r.0@ == absolutized(pattern_file@, cwd@),
        r.1@ == absolutized(from_dir@, cwd@),
        r.2@ == absolutized(to_dir@, cwd@),
{
    let pf = absolutize_from(pattern_file, cwd);
    let fd = absolutize_from(from_dir, cwd);
    let td = absolutize_from(to_dir, cwd);
    (pf, fd, td)
}

} // verus!
