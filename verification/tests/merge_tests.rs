use std::rc::Rc;

use web_ch_file_line::ChangeFileSection;
use web_ch_file_line::FileLine;
use web_ch_file_line::apply_changefile;

fn line(name: &str, num: usize, text: &str) -> FileLine {
    FileLine {
        filename: Rc::new(String::from(name)),
        line_num: num,
        contents: text.as_bytes().to_vec(),
    }
}

fn base(texts: &[&str]) -> Vec<FileLine> {
    texts
        .iter()
        .enumerate()
        .map(|(i, t)| line("web", i + 1, t))
        .collect()
}

fn section(old: &[&str], new: &[&str]) -> ChangeFileSection {
    ChangeFileSection {
        headline: line("ch", 1, "@x"),
        oldlines: old.iter().enumerate().map(|(i, t)| line("ch", i + 2, t)).collect(),
        newlines: new.iter().enumerate().map(|(i, t)| line("ch", i + 10, t)).collect(),
    }
}

fn texts(lines: &[FileLine]) -> Vec<String> {
    lines
        .iter()
        .map(|l| String::from_utf8(l.contents.clone()).unwrap())
        .collect()
}

#[test]
fn empty_section_list_is_identity() {
    let web = base(&["A", "B", "C"]);
    let out = apply_changefile(web, Vec::new()).unwrap();
    assert_eq!(texts(&out), vec!["A", "B", "C"]);
    assert_eq!(out[0].line_num, 1);
    assert_eq!(out[2].line_num, 3);
    assert_eq!(*out[0].filename, "web");
}

#[test]
fn replaces_matching_block() {
    let web = base(&["A", "B", "C", "D"]);
    let out = apply_changefile(web, vec![section(&["B", "C"], &["X"])]).unwrap();
    assert_eq!(texts(&out), vec!["A", "X", "D"]);
}

#[test]
fn replacement_changes_length_by_difference() {
    let web = base(&["A", "B", "C", "D", "E"]);
    let out = apply_changefile(web, vec![section(&["B", "C"], &["X", "Y", "Z"])]).unwrap();
    assert_eq!(out.len(), 5 - 2 + 3);
    assert_eq!(texts(&out), vec!["A", "X", "Y", "Z", "D", "E"]);
}

#[test]
fn unmatched_block_fails() {
    let web = base(&["A", "B", "C"]);
    let err = apply_changefile(web, vec![section(&["Z"], &["X"])]).unwrap_err();
    assert_eq!(*err.headline.filename, "ch");
    assert_eq!(err.headline.line_num, 1);
}

#[test]
fn empty_old_block_is_pure_insertion() {
    let web = base(&["A", "B"]);
    let out = apply_changefile(web, vec![section(&[], &["X", "Y"])]).unwrap();
    assert_eq!(texts(&out), vec!["X", "Y", "A", "B"]);
}

#[test]
fn empty_old_block_inserts_even_into_empty_text() {
    let out = apply_changefile(Vec::new(), vec![section(&[], &["X"])]).unwrap();
    assert_eq!(texts(&out), vec!["X"]);
}

#[test]
fn pure_deletion_with_empty_new_block() {
    let web = base(&["A", "B", "C"]);
    let out = apply_changefile(web, vec![section(&["B"], &[])]).unwrap();
    assert_eq!(texts(&out), vec!["A", "C"]);
}

#[test]
fn second_application_of_same_change_fails() {
    let web = base(&["A", "B", "C", "D"]);
    let once = apply_changefile(web, vec![section(&["B", "C"], &["X"])]).unwrap();
    assert_eq!(texts(&once), vec!["A", "X", "D"]);
    let err = apply_changefile(once, vec![section(&["B", "C"], &["X"])]).unwrap_err();
    assert_eq!(err.headline.line_num, 1);
}

#[test]
fn matching_is_forward_only() {
    // The second section's target lies before the first section's match, so
    // the search, which never rewinds, cannot find it.
    let web = base(&["A", "B", "C", "D"]);
    let sections = vec![section(&["C"], &["X"]), section(&["A"], &["Y"])];
    assert!(apply_changefile(web, sections).is_err());

    let web = base(&["A", "B", "C", "D"]);
    let sections = vec![section(&["A"], &["Y"]), section(&["C"], &["X"])];
    let out = apply_changefile(web, sections).unwrap();
    assert_eq!(texts(&out), vec!["Y", "B", "X", "D"]);
}

#[test]
fn inserted_lines_keep_change_file_origin() {
    let web = base(&["A", "B"]);
    let out = apply_changefile(web, vec![section(&["B"], &["X"])]).unwrap();
    assert_eq!(*out[0].filename, "web");
    assert_eq!(out[0].line_num, 1);
    assert_eq!(*out[1].filename, "ch");
    assert_eq!(out[1].line_num, 10);
}

#[test]
fn change_files_apply_cumulatively() {
    let web = base(&["A", "B", "C"]);
    let first = apply_changefile(web, vec![section(&["B"], &["X"])]).unwrap();
    let second = apply_changefile(first, vec![section(&["X"], &["Y"])]).unwrap();
    assert_eq!(texts(&second), vec!["A", "Y", "C"]);
}

#[test]
fn matches_first_of_equal_positions() {
    let web = base(&["A", "B", "A", "B"]);
    let out = apply_changefile(web, vec![section(&["A", "B"], &["X"])]).unwrap();
    assert_eq!(texts(&out), vec!["X", "A", "B"]);
}

#[test]
fn comparison_ignores_line_numbers_and_names() {
    let web = base(&["A", "B"]);
    let sec = ChangeFileSection {
        headline: line("other", 99, "@x"),
        oldlines: vec![line("elsewhere", 7, "B")],
        newlines: vec![line("elsewhere", 8, "C")],
    };
    let out = apply_changefile(web, vec![sec]).unwrap();
    assert_eq!(texts(&out), vec!["A", "C"]);
}
