use dotr::lines::split_lines;
use dotr::paths::{join_path, parent_dir};

fn b(s: &str) -> Vec<u8> {
    s.as_bytes().to_vec()
}

#[test]
fn splits_lines_at_line_feeds() {
    let lines = split_lines(&b("some_file.txt\nanother_file.txt"));
    assert_eq!(lines, vec![b("some_file.txt"), b("another_file.txt")]);
}

#[test]
fn final_line_ending_is_optional() {
    let lines = split_lines(&b("some_file.txt\n"));
    assert_eq!(lines, vec![b("some_file.txt")]);
}

#[test]
fn empty_text_has_no_lines() {
    assert_eq!(split_lines(&b("")), Vec::<Vec<u8>>::new());
}

#[test]
fn blank_lines_are_kept() {
    let lines = split_lines(&b("a\n\nb"));
    assert_eq!(lines, vec![b("a"), b(""), b("b")]);
}

#[test]
fn carriage_return_before_line_feed_is_stripped() {
    let lines = split_lines(&b("a\r\nb\rc\nd\r"));
    assert_eq!(lines, vec![b("a"), b("b\rc"), b("d\r")]);
}

#[test]
fn whitespace_inside_a_line_is_significant() {
    let lines = split_lines(&b("  padded.txt \n"));
    assert_eq!(lines, vec![b("  padded.txt ")]);
}

#[test]
fn join_inserts_one_separator() {
    assert_eq!(join_path(&b("/root"), &b("a/b.txt")), b("/root/a/b.txt"));
    assert_eq!(join_path(&b("/root/"), &b("a/b.txt")), b("/root/a/b.txt"));
    assert_eq!(join_path(&b("/"), &b("x")), b("/x"));
}

#[test]
fn parent_is_everything_before_the_last_separator() {
    assert_eq!(parent_dir(&b("/root/a/b.txt")), Some(b("/root/a")));
    assert_eq!(parent_dir(&b("/x")), Some(b("/")));
    assert_eq!(parent_dir(&b("plain.txt")), None);
}
