use std::rc::Rc;

use web_ch_file_line::FileLine;
use web_ch_file_line::split_filelines;
use web_ch_file_line::u8_slice_trim_start;

fn texts(lines: &[FileLine]) -> Vec<Vec<u8>> {
    lines.iter().map(|l| l.contents.clone()).collect()
}

#[test]
fn splits_on_line_feed_and_strips_it() {
    let out = split_filelines("f", b"one\ntwo\n", false);
    assert_eq!(texts(&out), vec![b"one".to_vec(), b"two".to_vec()]);
}

#[test]
fn trailing_chunk_without_line_feed_is_a_line() {
    let out = split_filelines("f", b"one\ntwo", false);
    assert_eq!(texts(&out), vec![b"one".to_vec(), b"two".to_vec()]);
}

#[test]
fn empty_input_has_no_lines() {
    assert!(split_filelines("f", b"", false).is_empty());
}

#[test]
fn empty_lines_are_kept() {
    let out = split_filelines("f", b"\n\na\n", false);
    assert_eq!(texts(&out), vec![b"".to_vec(), b"".to_vec(), b"a".to_vec()]);
}

#[test]
fn line_numbers_start_at_one() {
    let out = split_filelines("f", b"a\nb\nc", false);
    let nums: Vec<usize> = out.iter().map(|l| l.line_num).collect();
    assert_eq!(nums, vec![1, 2, 3]);
}

#[test]
fn every_line_carries_the_source_name() {
    let out = split_filelines("source.web", b"a\nb", false);
    assert!(out.iter().all(|l| *l.filename == "source.web"));
    assert!(Rc::strong_count(&out[0].filename) >= 2);
}

#[test]
fn carriage_return_kept_when_unpaired() {
    let out = split_filelines("f", b"a\r\nb\n", false);
    assert_eq!(texts(&out), vec![b"a\r".to_vec(), b"b".to_vec()]);
}

#[test]
fn carriage_return_stripped_when_paired() {
    let out = split_filelines("f", b"a\r\nb\n", true);
    assert_eq!(texts(&out), vec![b"a".to_vec(), b"b".to_vec()]);
}

#[test]
fn unpaired_trailing_carriage_return_is_content() {
    // Only a carriage return directly before the line feed is stripped.
    let out = split_filelines("f", b"a\rb\n", true);
    assert_eq!(texts(&out), vec![b"a\rb".to_vec()]);
}

#[test]
fn non_utf8_bytes_pass_through() {
    let out = split_filelines("f", &[0xFF, 0xFE, 0x0A, 0x80], false);
    assert_eq!(texts(&out), vec![vec![0xFF, 0xFE], vec![0x80]]);
}

#[test]
fn trim_start_removes_ascii_whitespace() {
    assert_eq!(u8_slice_trim_start(b"  \t x "), b"x ");
    assert_eq!(u8_slice_trim_start(b"   "), b"");
    assert_eq!(u8_slice_trim_start(b""), b"");
    assert_eq!(u8_slice_trim_start(b"x"), b"x");
}
