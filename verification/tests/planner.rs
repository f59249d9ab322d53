use dotr::plan::{compute_operations, Add, DestEntry, Overwrite, PlanResult, Remove, SourceEntry};

fn b(s: &str) -> Vec<u8> {
    s.as_bytes().to_vec()
}

fn file(rel: &str, target_exists: bool) -> SourceEntry {
    SourceEntry { rel: b(rel), is_dir: false, target_exists }
}

fn dir(rel: &str) -> SourceEntry {
    SourceEntry { rel: b(rel), is_dir: true, target_exists: false }
}

fn dest_file(rel: &str) -> DestEntry {
    DestEntry { rel: b(rel), is_dir: false }
}

fn dest_dir(rel: &str) -> DestEntry {
    DestEntry { rel: b(rel), is_dir: true }
}

fn plan(
    src: Vec<SourceEntry>,
    dst: Vec<DestEntry>,
) -> (Vec<Add>, Vec<Overwrite>, Vec<Remove>) {
    match compute_operations(&b("/source"), &b("/dest"), &src, &dst) {
        PlanResult::Empty => (Vec::new(), Vec::new(), Vec::new()),
        PlanResult::Plan { adds, overwrites, removes } => (adds, overwrites, removes),
    }
}

#[test]
fn empty_pattern_file_plans_nothing() {
    let r = compute_operations(&b("/source"), &b("/dest"), &Vec::new(), &Vec::new());
    assert_eq!(r, PlanResult::Empty);
}

#[test]
fn missing_destination_file_is_added() {
    let (adds, overwrites, removes) = plan(vec![file("some_file.txt", false)], vec![]);
    assert_eq!(
        adds,
        vec![Add { from: b("/source/some_file.txt"), to: b("/dest/some_file.txt") }]
    );
    assert!(overwrites.is_empty());
    assert!(removes.is_empty());
}

#[test]
fn existing_destination_file_is_overwritten() {
    let (adds, overwrites, removes) = plan(
        vec![file("some_file.txt", true)],
        vec![dest_file("some_file.txt")],
    );
    assert!(adds.is_empty());
    assert_eq!(
        overwrites,
        vec![Overwrite { from: b("/source/some_file.txt"), to: b("/dest/some_file.txt") }]
    );
    assert!(removes.is_empty());
}

#[test]
fn tracked_file_missing_in_source_is_removed() {
    let (adds, overwrites, removes) = plan(
        vec![file("some_file.txt", true)],
        vec![dest_file("some_file.txt"), dest_file("another_file.txt")],
    );
    assert!(adds.is_empty());
    assert_eq!(
        overwrites,
        vec![Overwrite { from: b("/source/some_file.txt"), to: b("/dest/some_file.txt") }]
    );
    assert_eq!(removes, vec![Remove(b("/dest/another_file.txt"))]);
}

#[test]
fn nested_file_keeps_its_relative_path() {
    let (adds, overwrites, removes) =
        plan(vec![file(".config/some/nested/dir/some_file.txt", false)], vec![]);
    assert_eq!(
        adds,
        vec![Add {
            from: b("/source/.config/some/nested/dir/some_file.txt"),
            to: b("/dest/.config/some/nested/dir/some_file.txt"),
        }]
    );
    assert!(overwrites.is_empty());
    assert!(removes.is_empty());
}

#[test]
fn directory_matches_plan_nothing() {
    let r = compute_operations(
        &b("/source"),
        &b("/dest"),
        &vec![dir(".config"), dir(".config/some")],
        &vec![dest_dir(".config")],
    );
    assert_eq!(r, PlanResult::Empty);
}

#[test]
fn planning_is_deterministic() {
    let make_src = || vec![file("a.txt", true), file("b.txt", false), dir("c")];
    let make_dst = || vec![dest_file("a.txt"), dest_file("obsolete.txt")];
    let r1 = compute_operations(&b("/source"), &b("/dest"), &make_src(), &make_dst());
    let r2 = compute_operations(&b("/source"), &b("/dest"), &make_src(), &make_dst());
    assert_eq!(r1, r2);
}

#[test]
fn overlapping_patterns_process_a_path_once() {
    // the same file matched by two patterns: classified once, at its first match
    let (adds, overwrites, removes) = plan(
        vec![file("some_file.txt", false), file("some_file.txt", true)],
        vec![],
    );
    assert_eq!(
        adds,
        vec![Add { from: b("/source/some_file.txt"), to: b("/dest/some_file.txt") }]
    );
    assert!(overwrites.is_empty());
    assert!(removes.is_empty());
}

#[test]
fn duplicate_destination_matches_remove_once() {
    let (adds, overwrites, removes) = plan(
        vec![],
        vec![dest_file("another_file.txt"), dest_file("another_file.txt")],
    );
    assert!(adds.is_empty());
    assert!(overwrites.is_empty());
    assert_eq!(removes, vec![Remove(b("/dest/another_file.txt"))]);
}

#[test]
fn no_path_is_the_object_of_two_operations() {
    let (adds, overwrites, removes) = plan(
        vec![file("a.txt", false), file("b.txt", true), dir("sub")],
        vec![dest_file("b.txt"), dest_file("c.txt"), dest_file("c.txt")],
    );
    let mut targets: Vec<Vec<u8>> = Vec::new();
    targets.extend(adds.iter().map(|a| a.to.clone()));
    targets.extend(overwrites.iter().map(|o| o.to.clone()));
    targets.extend(removes.iter().map(|r| r.0.clone()));
    for i in 0..targets.len() {
        for j in 0..targets.len() {
            if i != j {
                assert_ne!(targets[i], targets[j]);
            }
        }
    }
}

#[test]
fn file_matched_in_both_trees_is_overwritten_not_removed() {
    let (adds, overwrites, removes) = plan(
        vec![file("some_file.txt", true)],
        vec![dest_file("some_file.txt")],
    );
    assert!(adds.is_empty());
    assert_eq!(overwrites.len(), 1);
    assert_eq!(overwrites[0].to, b("/dest/some_file.txt"));
    assert!(removes.is_empty());
}

#[test]
fn replanning_after_apply_leaves_only_refreshing_overwrites() {
    // first plan: one add, one overwrite, one remove
    let src = vec![file("a.txt", false), file("b.txt", true)];
    let dst = vec![dest_file("b.txt"), dest_file("obsolete.txt")];
    let (adds, overwrites, removes) = plan(src, dst);
    assert_eq!(adds.len(), 1);
    assert_eq!(overwrites.len(), 1);
    assert_eq!(removes.len(), 1);

    // after the apply both trees agree: every source match has its
    // destination file, and the destination matches are exactly the synced
    // relative paths
    let src2 = vec![file("a.txt", true), file("b.txt", true)];
    let dst2 = vec![dest_file("a.txt"), dest_file("b.txt")];
    let (adds2, overwrites2, removes2) = plan(src2, dst2);
    assert!(adds2.is_empty());
    assert!(removes2.is_empty());
    let mut refreshed: Vec<Vec<u8>> = overwrites2.iter().map(|o| o.to.clone()).collect();
    refreshed.sort();
    assert_eq!(refreshed, vec![b("/dest/a.txt"), b("/dest/b.txt")]);
}

#[test]
fn roots_with_trailing_separator_join_cleanly() {
    let src = vec![file("x.txt", false)];
    let r = compute_operations(&b("/source/"), &b("/dest/"), &src, &Vec::new());
    match r {
        PlanResult::Plan { adds, .. } => {
            assert_eq!(adds[0].from, b("/source/x.txt"));
            assert_eq!(adds[0].to, b("/dest/x.txt"));
        }
        PlanResult::Empty => panic!("one addition was planned"),
    }
}
