use std::rc::Rc;

use web_ch_file_line::FileLine;
use web_ch_file_line::render_listing;
use web_ch_file_line::usize_str_len;
use web_ch_file_line::write_filelines;

fn line(name: &str, num: usize, bytes: &[u8]) -> FileLine {
    FileLine {
        filename: Rc::new(String::from(name)),
        line_num: num,
        contents: bytes.to_vec(),
    }
}

#[test]
fn decimal_widths() {
    assert_eq!(usize_str_len(0), 1);
    assert_eq!(usize_str_len(9), 1);
    assert_eq!(usize_str_len(10), 2);
    assert_eq!(usize_str_len(99), 2);
    assert_eq!(usize_str_len(100), 3);
    assert_eq!(usize_str_len(65535), 5);
    assert_eq!(usize_str_len(usize::MAX), usize::MAX.to_string().len());
}

#[test]
fn file_form_writes_column_and_raw_bytes() {
    let lines = vec![line("f", 1, b"X")];
    // Widest filename is 1 byte, widest line number 1 digit: width 4.
    // The label "f(1)" fills the column exactly.
    assert_eq!(write_filelines(&lines, false), b"f(1) | X\n".to_vec());
}

#[test]
fn file_form_can_pair_carriage_return() {
    let lines = vec![line("f", 1, b"X")];
    assert_eq!(write_filelines(&lines, true), b"f(1) | X\r\n".to_vec());
}

#[test]
fn columns_align_across_lines() {
    let lines = vec![line("a", 1, b"one"), line("long", 12, b"two")];
    // width = 4 (bytes of "long") + 2 (digits of 12) + 2 = 8.
    let expected = b"a(1)     | one\nlong(12) | two\n".to_vec();
    assert_eq!(write_filelines(&lines, false), expected);
}

#[test]
fn listing_escapes_non_printable_bytes() {
    let lines = vec![line("f", 1, &[0x41, 0x01, 0x42])];
    let expected = b"f(1) | A\x1B[7m<01>\x1B[0mB\n".to_vec();
    assert_eq!(render_listing(&lines), expected);
}

#[test]
fn listing_uses_uppercase_hex() {
    let lines = vec![line("f", 1, &[0xAB])];
    let expected = b"f(1) | \x1B[7m<AB>\x1B[0m\n".to_vec();
    assert_eq!(render_listing(&lines), expected);
}

#[test]
fn renderers_agree_on_printable_content() {
    let lines = vec![
        line("web", 1, b"alpha"),
        line("change", 23, b"beta gamma"),
        line("w", 456, b""),
    ];
    assert_eq!(render_listing(&lines), write_filelines(&lines, false));
}

#[test]
fn renderers_share_column_layout_always() {
    let printable = vec![line("web", 1, b"aa"), line("w", 100, b"bb")];
    let escaped = vec![line("web", 1, b"\x00a"), line("w", 100, b"b\x7F")];
    let listing = render_listing(&escaped);
    let file = write_filelines(&printable, false);
    // Same widths were chosen, so the columns line up byte for byte.
    let column = |out: &Vec<u8>| -> Vec<Vec<u8>> {
        out.split(|b| *b == 0x0A)
            .filter(|l| !l.is_empty())
            .map(|l| l[..l.iter().position(|b| *b == 0x7C).unwrap() + 2].to_vec())
            .collect()
    };
    assert_eq!(column(&listing), column(&file));
}

#[test]
fn width_counts_bytes_but_padding_counts_characters() {
    // A two-byte, one-character filename: the column width comes from byte
    // lengths, while padding makes up the difference in characters.
    let lines = vec![line("\u{e9}", 1, b"x")];
    // width = 2 (bytes) + 1 (digit) + 2 = 5; the label holds 4 characters.
    let mut expected = "\u{e9}(1)".as_bytes().to_vec();
    expected.extend_from_slice(b"  | x\n");
    assert_eq!(write_filelines(&lines, false), expected);
}

#[test]
fn empty_line_sequence_renders_nothing() {
    assert_eq!(write_filelines(&Vec::new(), false), Vec::<u8>::new());
    assert_eq!(render_listing(&Vec::new()), Vec::<u8>::new());
}
