use dotr::cli::{next_step, NextStep};
use dotr::plan::{Add, Overwrite, Remove};
use dotr::report::{report_lines, ReportLine};
use dotr::schedule::{schedule_operations, FsOp};

fn b(s: &str) -> Vec<u8> {
    s.as_bytes().to_vec()
}

fn add(from: &str, to: &str) -> Add {
    Add { from: b(from), to: b(to) }
}

fn overwrite(from: &str, to: &str) -> Overwrite {
    Overwrite { from: b(from), to: b(to) }
}

#[test]
fn removals_run_first_then_adds_then_overwrites() {
    let adds = vec![add("/source/a.txt", "/dest/a.txt")];
    let overwrites = vec![overwrite("/source/b.txt", "/dest/b.txt")];
    let removes = vec![Remove(b("/dest/obsolete.txt"))];
    let steps = schedule_operations(&adds, &overwrites, &removes);
    assert_eq!(
        steps,
        vec![
            FsOp::RemoveFile(b("/dest/obsolete.txt")),
            FsOp::CreateDirAll(b("/dest")),
            FsOp::CopyFile(b("/source/a.txt"), b("/dest/a.txt")),
            FsOp::CreateDirAll(b("/dest")),
            FsOp::CopyFile(b("/source/b.txt"), b("/dest/b.txt")),
        ]
    );
}

#[test]
fn nested_destinations_get_their_directory_chain() {
    let adds = vec![add(
        "/source/.config/some/nested/dir/some_file.txt",
        "/dest/.config/some/nested/dir/some_file.txt",
    )];
    let steps = schedule_operations(&adds, &Vec::new(), &Vec::new());
    assert_eq!(
        steps,
        vec![
            FsOp::CreateDirAll(b("/dest/.config/some/nested/dir")),
            FsOp::CopyFile(
                b("/source/.config/some/nested/dir/some_file.txt"),
                b("/dest/.config/some/nested/dir/some_file.txt"),
            ),
        ]
    );
}

#[test]
fn empty_plan_schedules_no_step() {
    let steps = schedule_operations(&Vec::new(), &Vec::new(), &Vec::new());
    assert!(steps.is_empty());
}

#[test]
fn report_sections_keep_their_order() {
    let adds = vec![add("/source/a.txt", "/dest/a.txt")];
    let overwrites = vec![overwrite("/source/b.txt", "/dest/b.txt")];
    let removes = vec![Remove(b("/dest/c.txt"))];
    let lines = report_lines(&adds, &overwrites, &removes);
    assert_eq!(
        lines,
        vec![
            ReportLine::Blank,
            ReportLine::AddHeader,
            ReportLine::Path(b("/dest/a.txt")),
            ReportLine::Blank,
            ReportLine::OverwriteHeader,
            ReportLine::Path(b("/dest/b.txt")),
            ReportLine::Blank,
            ReportLine::RemoveHeader,
            ReportLine::Path(b("/dest/c.txt")),
        ]
    );
}

#[test]
fn empty_report_sections_are_omitted() {
    let removes = vec![Remove(b("/dest/c.txt")), Remove(b("/dest/d.txt"))];
    let lines = report_lines(&Vec::new(), &Vec::new(), &removes);
    assert_eq!(
        lines,
        vec![
            ReportLine::Blank,
            ReportLine::RemoveHeader,
            ReportLine::Path(b("/dest/c.txt")),
            ReportLine::Path(b("/dest/d.txt")),
        ]
    );
    assert!(report_lines(&Vec::new(), &Vec::new(), &Vec::new()).is_empty());
}

#[test]
fn raw_stops_before_any_mutation() {
    assert_eq!(next_step(true, false), NextStep::Stop);
    assert_eq!(next_step(true, true), NextStep::Stop);
}

#[test]
fn skip_prompt_executes_at_once() {
    assert_eq!(next_step(false, true), NextStep::Execute);
}

#[test]
fn otherwise_the_user_is_asked() {
    assert_eq!(next_step(false, false), NextStep::AskUser);
}
