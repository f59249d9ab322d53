use dotr::absolute::resolve_paths;
use dotr::error::DotrError;
use dotr::patterns::validate_patterns;
use dotr::validate::{validate_paths, PathStatus};

fn b(s: &str) -> Vec<u8> {
    s.as_bytes().to_vec()
}

fn dir_at(path: &str) -> PathStatus {
    PathStatus { path: b(path), exists: true, is_dir: true, is_file: false }
}

fn file_at(path: &str) -> PathStatus {
    PathStatus { path: b(path), exists: true, is_dir: false, is_file: true }
}

fn missing(path: &str) -> PathStatus {
    PathStatus { path: b(path), exists: false, is_dir: false, is_file: false }
}

#[test]
fn valid_paths_pass() {
    let r = validate_paths(&file_at("/cfg/dotr.config"), &dir_at("/source"), &dir_at("/dest"));
    assert_eq!(r, Ok(()));
}

#[test]
fn missing_source_root_is_reported_first() {
    let r = validate_paths(&missing("/cfg/dotr.config"), &missing("/source"), &missing("/dest"));
    assert_eq!(r, Err(DotrError::PathNotFound(b("/source"))));
}

#[test]
fn source_root_must_be_a_directory() {
    let r = validate_paths(&file_at("/cfg/dotr.config"), &file_at("/source"), &dir_at("/dest"));
    assert_eq!(r, Err(DotrError::NotDir(b("/source"))));
}

#[test]
fn missing_destination_root_is_reported() {
    let r = validate_paths(&file_at("/cfg/dotr.config"), &dir_at("/source"), &missing("/dest"));
    assert_eq!(r, Err(DotrError::PathNotFound(b("/dest"))));
}

#[test]
fn destination_root_must_be_a_directory() {
    let r = validate_paths(&file_at("/cfg/dotr.config"), &dir_at("/source"), &file_at("/dest"));
    assert_eq!(r, Err(DotrError::NotDir(b("/dest"))));
}

#[test]
fn missing_pattern_file_is_reported() {
    let r = validate_paths(&missing("/cfg/dotr.config"), &dir_at("/source"), &dir_at("/dest"));
    assert_eq!(r, Err(DotrError::PathNotFound(b("/cfg/dotr.config"))));
}

#[test]
fn pattern_file_must_be_a_regular_file() {
    let r = validate_paths(&dir_at("/cfg/dotr.config"), &dir_at("/source"), &dir_at("/dest"));
    assert_eq!(r, Err(DotrError::NotFile(b("/cfg/dotr.config"))));
}

#[test]
fn well_formed_patterns_pass() {
    let patterns = vec![b("some_file.txt"), b("**/*.txt"), b(".config/**/*")];
    assert_eq!(validate_patterns(&patterns), Ok(()));
}

#[test]
fn first_malformed_pattern_fails_the_list() {
    let patterns = vec![b("*.txt"), b("a**b"), b("***")];
    match validate_patterns(&patterns) {
        Err(DotrError::BadGlob(pattern, cause)) => {
            assert_eq!(pattern, b("a**b"));
            assert!(!cause.is_empty());
        }
        other => panic!("a malformed pattern was accepted: {:?}", other),
    }
}

#[test]
fn relative_paths_resolve_against_the_working_directory() {
    let (pf, fd, td) =
        resolve_paths(&b("dotr.config"), &b("."), &b("../other"), &b("/home/user/repo"));
    assert_eq!(pf, b("/home/user/repo/dotr.config"));
    assert_eq!(fd, b("/home/user/repo"));
    assert_eq!(td, b("/home/user/other"));
}

#[test]
fn absolute_paths_stay_as_they_are() {
    let (pf, fd, td) = resolve_paths(&b("/cfg/dotr.config"), &b("/a/./b"), &b("/a/c/.."), &b("/"));
    assert_eq!(pf, b("/cfg/dotr.config"));
    assert_eq!(fd, b("/a/b"));
    assert_eq!(td, b("/a"));
}
