use std::rc::Rc;

use web_ch_file_line::ParseError;
use web_ch_file_line::FileLine;
use web_ch_file_line::parse_changefile;

fn lines(texts: &[&str]) -> Vec<FileLine> {
    let name = Rc::new(String::from("ch"));
    texts
        .iter()
        .enumerate()
        .map(|(i, t)| FileLine {
            filename: Rc::clone(&name),
            line_num: i + 1,
            contents: t.as_bytes().to_vec(),
        })
        .collect()
}

fn texts(lines: &[FileLine]) -> Vec<String> {
    lines
        .iter()
        .map(|l| String::from_utf8(l.contents.clone()).unwrap())
        .collect()
}

#[test]
fn empty_change_file_has_no_sections() {
    let (sections, warn) = parse_changefile(Vec::new()).unwrap();
    assert!(sections.is_empty());
    assert!(!warn);
}

#[test]
fn plain_text_without_markers_has_no_sections() {
    let (sections, warn) = parse_changefile(lines(&["no", "markers", "here"])).unwrap();
    assert!(sections.is_empty());
    assert!(!warn);
}

#[test]
fn one_complete_section() {
    let (sections, warn) =
        parse_changefile(lines(&["@x", "old1", "old2", "@y", "new1", "@z"])).unwrap();
    assert!(!warn);
    assert_eq!(sections.len(), 1);
    assert_eq!(texts(&sections[0].oldlines), vec!["old1", "old2"]);
    assert_eq!(texts(&sections[0].newlines), vec!["new1"]);
    assert_eq!(sections[0].headline.line_num, 1);
}

#[test]
fn two_sections_in_order() {
    let (sections, warn) =
        parse_changefile(lines(&["@x", "a", "@y", "b", "@z", "skip", "@x", "c", "@y", "d", "@z"]))
            .unwrap();
    assert!(!warn);
    assert_eq!(sections.len(), 2);
    assert_eq!(texts(&sections[0].oldlines), vec!["a"]);
    assert_eq!(texts(&sections[1].oldlines), vec!["c"]);
    assert_eq!(sections[1].headline.line_num, 7);
}

#[test]
fn leading_blank_lines_of_old_block_are_trimmed() {
    let (sections, _) =
        parse_changefile(lines(&["@x", "", "  ", "foo", "", "@y", "new", "@z"])).unwrap();
    assert_eq!(texts(&sections[0].oldlines), vec!["foo", ""]);
}

#[test]
fn all_blank_old_block_parses_empty() {
    let (sections, _) = parse_changefile(lines(&["@x", "", "\t", "@y", "new", "@z"])).unwrap();
    assert!(sections[0].oldlines.is_empty());
    assert_eq!(texts(&sections[0].newlines), vec!["new"]);
}

#[test]
fn missing_final_terminator_is_tolerated() {
    let (sections, warn) =
        parse_changefile(lines(&["@x", "old", "@y", "new1", "new2"])).unwrap();
    assert!(warn);
    assert_eq!(sections.len(), 1);
    assert_eq!(texts(&sections[0].newlines), vec!["new1", "new2"]);
}

#[test]
fn separator_without_header_is_structure_error() {
    match parse_changefile(lines(&["text", "@y", "new"])) {
        Err(ParseError::Structure { line }) => {
            assert_eq!(line.line_num, 2);
            assert_eq!(*line.filename, "ch");
        }
        other => panic!("expected a structure error, got {:?}", other.is_ok()),
    }
}

#[test]
fn terminator_without_header_is_structure_error() {
    assert!(matches!(
        parse_changefile(lines(&["@z"])),
        Err(ParseError::Structure { .. })
    ));
}

#[test]
fn header_without_separator_is_unterminated() {
    match parse_changefile(lines(&["@x", "old", "more"])) {
        Err(ParseError::Unterminated { headline }) => {
            assert_eq!(headline.line_num, 1);
        }
        other => panic!("expected an unterminated section, got {:?}", other.is_ok()),
    }
}

#[test]
fn marker_is_a_prefix_test() {
    let (sections, warn) =
        parse_changefile(lines(&["@x change one", "old", "@y replacement", "new", "@z done"]))
            .unwrap();
    assert!(!warn);
    assert_eq!(texts(&sections[0].oldlines), vec!["old"]);
    assert_eq!(texts(&sections[0].newlines), vec!["new"]);
}

#[test]
fn markers_inside_blocks_are_content() {
    // Inside an old block only `@y` is a marker; inside a new block only
    // `@z` is: a stray `@x` line there is kept verbatim.
    let (sections, _) =
        parse_changefile(lines(&["@x", "@x not a header here", "@y", "@y kept", "@z"])).unwrap();
    assert_eq!(texts(&sections[0].oldlines), vec!["@x not a header here"]);
    assert_eq!(texts(&sections[0].newlines), vec!["@y kept"]);
}
