//! Rendering a finished line sequence to bytes.
//!
//! Both renderers write, for every line, a fixed-width column holding
//! `filename(line_number)`, then `" | "`, then the line's contents. The
//! listing form escapes every byte outside printable ASCII; the file form
//! passes the bytes through and appends the platform line terminator.

use vstd::prelude::*;
use vstd::string::StringSliceAdditionalSpecFns;
use vstd::utf8::encode_utf8;
use crate::line::FileLine;
use crate::line::LineView;
use crate::line::line_views;

verus! {

pub open spec fn pow10(k: nat) -> int
    decreases k,
{
    if k == 0 {
        1
    } else {
        10 * pow10((k - 1) as nat)
    }
}

/// The decimal digits of `n`, most significant first.
pub open spec fn dec_digits(n: int) -> Seq<u8>
    recommends
        n >= 0,
    decreases n,
{
    if n < 10 {
        seq![(0x30 + if n >= 0 { n } else { 0 }) as u8]
    } else {
        dec_digits(n / 10).push((0x30 + n % 10) as u8)
    }
}

/// A number of `[pow10(k - 1), pow10(k))` has exactly `k` decimal digits.
proof fn lemma_dec_digits_len(n: int, k: int)
    requires
        1 <= k,
        pow10((k - 1) as nat) <= n,
        n < pow10(k as nat),
    ensures
        dec_digits(n).len() == k,
    decreases k,
{
    if k == 1 {
        assert(n < 10);
    } else {
        assert(pow10((k - 1) as nat) == 10 * pow10((k - 2) as nat));
        assert(pow10((k - 2) as nat) >= 1) by {
            lemma_pow10_pos((k - 2) as nat);
        }
        assert(n >= 10);
        assert(n / 10 >= pow10((k - 2) as nat)) by {
            vstd::arithmetic::div_mod::lemma_div_by_multiple(pow10((k - 2) as nat), 10);
            vstd::arithmetic::div_mod::lemma_div_is_ordered(
                10 * pow10((k - 2) as nat),
                n,
                10,
            );
        }
        assert(n / 10 < pow10((k - 1) as nat)) by {
            vstd::arithmetic::div_mod::lemma_multiply_divide_lt(n, pow10((k - 1) as nat), 10);
        }
        lemma_dec_digits_len(n / 10, k - 1);
    }
}

proof fn lemma_pow10_pos(k: nat)
    ensures
        pow10(k) >= 1,
    decreases k,
{
    if k > 0 {
        lemma_pow10_pos((k - 1) as nat);
    }
}

proof fn lemma_pow10_gt(k: nat)
    ensures
        pow10(k) >= k + 1,
    decreases k,
{
    if k > 0 {
        lemma_pow10_gt((k - 1) as nat);
    }
}

/// The width of `n` written in decimal, as the listing column needs it.
pub fn usize_str_len(n: usize) -> (count: usize)
    ensures
        count == dec_digits(n as int).len(),
{
    let mut power: usize = 10;
    let mut count: usize = 1;
    proof {
        assert(pow10(0) == 1);
        assert(pow10(1) == 10);
    }
    while n >= power
        invariant
            1 <= count,
            power == pow10(count as nat),
            power >= count + 1,
            count == 1 || n >= pow10((count - 1) as nat),
        decreases n + 1 - count,
    {
        count = count + 1;
        proof {
            assert(pow10(count as nat) == 10 * pow10((count - 1) as nat));
            assert(pow10((count - 1) as nat) == power);
            lemma_pow10_gt(count as nat);
        }
        if let Some(new_power) = power.checked_mul(10) {
            proof {
                assert(power * 10 <= usize::MAX);
                assert(new_power == power * 10);
                assert(new_power == pow10(count as nat));
            }
            power = new_power;
        } else {
            proof {
                assert(pow10(count as nat) > usize::MAX >= n);
                lemma_dec_digits_len(n as int, count as int);
            }
            return count;
        }
    }
    proof {
        if count == 1 {
            assert(dec_digits(n as int).len() == 1);
        } else {
            lemma_dec_digits_len(n as int, count as int);
        }
    }
    count
}

/// The column label `filename(line_number)`, as bytes.
pub open spec fn spec_label(l: LineView) -> Seq<u8> {
    encode_utf8(l.filename) + seq![0x28u8] + dec_digits(l.line_num) + seq![0x29u8]
}

/// How many characters the label takes: padding counts characters, while the
/// column width is computed from byte lengths.
pub open spec fn label_chars(l: LineView) -> int {
    l.filename.len() + 2 + dec_digits(l.line_num).len() as int
}

/// `n` spaces, or nothing when the label already fills the column.
pub open spec fn spaces(n: int) -> Seq<u8> {
    if n <= 0 {
        Seq::empty()
    } else {
        Seq::new(n as nat, |i: int| 0x20u8)
    }
}

/// The fixed-width left column of one line: the label, padding out to
/// `width`, and the `" | "` separator.
pub open spec fn spec_column(l: LineView, width: int) -> Seq<u8> {
    spec_label(l) + spaces(width - label_chars(l)) + seq![0x20u8, 0x7Cu8, 0x20u8]
}

/// The largest filename byte length over the lines.
pub open spec fn max_filename_bytes(lines: Seq<LineView>) -> int
    decreases lines.len(),
{
    if lines.len() == 0 {
        0
    } else {
        let rest = max_filename_bytes(lines.drop_first());
        let cur = encode_utf8(lines[0].filename).len() as int;
        if cur >= rest {
            cur
        } else {
            rest
        }
    }
}

/// The largest line number over the lines.
pub open spec fn max_line_num(lines: Seq<LineView>) -> int
    decreases lines.len(),
{
    if lines.len() == 0 {
        0
    } else {
        let rest = max_line_num(lines.drop_first());
        if lines[0].line_num >= rest {
            lines[0].line_num
        } else {
            rest
        }
    }
}

/// The column width both renderers use: widest filename in bytes, plus the
/// digits of the largest line number, plus the two parentheses.
pub open spec fn spec_width(lines: Seq<LineView>) -> int {
    max_filename_bytes(lines) + dec_digits(max_line_num(lines)).len() + 2
}

pub open spec fn hex_digit(d: int) -> u8 {
    if d < 10 {
        (0x30 + d) as u8
    } else {
        (0x41 + (d - 10)) as u8
    }
}

/// A printable ASCII byte stands for itself; anything else becomes the
/// reverse-video `<XX>` escape.
pub open spec fn escape_byte(b: u8) -> Seq<u8> {
    if 0x20 <= b && b <= 0x7E {
        seq![b]
    } else {
        seq![
            0x1Bu8,
            0x5Bu8,
            0x37u8,
            0x6Du8,
            0x3Cu8,
            hex_digit(b as int / 16),
            hex_digit(b as int % 16),
            0x3Eu8,
            0x1Bu8,
            0x5Bu8,
            0x30u8,
            0x6Du8,
        ]
    }
}

pub open spec fn escape_bytes(s: Seq<u8>) -> Seq<u8>
    decreases s.len(),
{
    if s.len() == 0 {
        Seq::empty()
    } else {
        escape_byte(s[0]) + escape_bytes(s.drop_first())
    }
}

/// The line terminator the file renderer appends.
pub open spec fn terminator(crlf: bool) -> Seq<u8> {
    if crlf {
        seq![0x0Du8, 0x0Au8]
    } else {
        seq![0x0Au8]
    }
}

/// One line of the terminal listing: column, escaped contents, line feed.
pub open spec fn spec_listing_line(l: LineView, width: int) -> Seq<u8> {
    spec_column(l, width) + escape_bytes(l.contents) + seq![0x0Au8]
}

/// One line of the file output: column, raw contents, terminator.
pub open spec fn spec_file_line(l: LineView, width: int, crlf: bool) -> Seq<u8> {
    spec_column(l, width) + l.contents + terminator(crlf)
}

pub open spec fn spec_listing_lines(lines: Seq<LineView>, width: int) -> Seq<u8>
    decreases lines.len(),
{
    if lines.len() == 0 {
        Seq::empty()
    } else {
        spec_listing_line(lines[0], width) + spec_listing_lines(lines.drop_first(), width)
    }
}

pub open spec fn spec_file_lines(lines: Seq<LineView>, width: int, crlf: bool) -> Seq<u8>
    decreases lines.len(),
{
    if lines.len() == 0 {
        Seq::empty()
    } else {
        spec_file_line(lines[0], width, crlf) + spec_file_lines(lines.drop_first(), width, crlf)
    }
}

/// The whole terminal listing.
pub open spec fn spec_render_listing(lines: Seq<LineView>) -> Seq<u8> {
    spec_listing_lines(lines, spec_width(lines))
}

/// The whole file output.
pub open spec fn spec_render_file(lines: Seq<LineView>, crlf: bool) -> Seq<u8> {
    spec_file_lines(lines, spec_width(lines), crlf)
}

/// Escaping passes printable ASCII through unchanged.
pub proof fn lemma_escape_printable(s: Seq<u8>)
    requires
        forall|i: int| 0 <= i < s.len() ==> 0x20 <= #[trigger] s[i] && s[i] <= 0x7E,
    ensures
        escape_bytes(s) == s,
    decreases s.len(),
{
    if s.len() > 0 {
        lemma_escape_printable(s.drop_first());
        assert(escape_bytes(s) =~= s);
    }
}

/// The two renderers agree: they share one column layout, and when every
/// content byte is printable and the terminator is a bare line feed their
/// whole outputs are byte-identical; in general they differ only in the
/// escaping of non-printable bytes and in the terminator.
pub proof fn lemma_renderers_agree(lines: Seq<LineView>)
    requires
        forall|k: int, i: int|
            0 <= k < lines.len() && 0 <= i < (#[trigger] lines[k]).contents.len() ==> 0x20 <= #[trigger] lines[k].contents[i] && lines[k].contents[i] <= 0x7E,
    ensures
        spec_render_listing(lines) == spec_render_file(lines, false),
{
    lemma_renderers_agree_width(lines, spec_width(lines));
}

proof fn lemma_renderers_agree_width(lines: Seq<LineView>, width: int)
    requires
        forall|k: int, i: int|
            0 <= k < lines.len() && 0 <= i < (#[trigger] lines[k]).contents.len() ==> 0x20 <= #[trigger] lines[k].contents[i] && lines[k].contents[i] <= 0x7E,
    ensures
        spec_listing_lines(lines, width) == spec_file_lines(lines, width, false),
    decreases lines.len(),
{
    if lines.len() > 0 {
        lemma_escape_printable(lines[0].contents);
        assert forall|k: int, i: int|
            0 <= k < lines.drop_first().len() && 0 <= i < (#[trigger] lines.drop_first()[k]).contents.len() implies 0x20 <= #[trigger] lines.drop_first()[k].contents[i]
            && lines.drop_first()[k].contents[i] <= 0x7E by {
            assert(lines.drop_first()[k] == lines[k + 1]);
        }
        lemma_renderers_agree_width(lines.drop_first(), width);
        assert(spec_listing_line(lines[0], width) =~= spec_file_line(lines[0], width, false));
    }
}

/// Append the bytes of `s`.
fn push_bytes(out: &mut Vec<u8>, s: &[u8])
    ensures
        final(out)@ == old(out)@ + s@,
{
    let ghost base = out@;
    let n = s.len();
    let mut i: usize = 0;
    while i < n
        invariant
            0 <= i <= n,
            n == s@.len(),
            out@ == base + s@.subrange(0, i as int),
        decreases n - i,
    {
        out.push(s[i]);
        proof {
            assert(base + s@.subrange(0, i + 1) =~= (base + s@.subrange(0, i as int)).push(
                s@[i as int],
            ));
        }
        i = i + 1;
    }
    proof {
        assert(s@.subrange(0, n as int) =~= s@);
    }
}

/// Append `count` spaces.
fn push_n_spaces(out: &mut Vec<u8>, count: usize)
    ensures
        final(out)@ == old(out)@ + spaces(count as int),
{
    let ghost base = out@;
    let mut i: usize = 0;
    while i < count
        invariant
            0 <= i <= count,
            out@.len() == base.len() + i,
            forall|k: int| 0 <= k < base.len() ==> out@[k] == base[k],
            forall|k: int| base.len() <= k < out@.len() ==> out@[k] == 0x20u8,
        decreases count - i,
    {
        out.push(0x20);
        i = i + 1;
    }
    proof {
        assert(out@ =~= base + spaces(count as int));
    }
}

/// Append the decimal digits of `n`.
fn push_dec_digits(out: &mut Vec<u8>, n: usize)
    ensures
        final(out)@ == old(out)@ + dec_digits(n as int),
    decreases n,
{
    if n < 10 {
        out.push(0x30 + n as u8);
        proof {
            assert(out@ =~= old(out)@ + dec_digits(n as int));
        }
    } else {
        push_dec_digits(out, n / 10);
        out.push(0x30 + (n % 10) as u8);
        proof {
            assert(out@ =~= old(out)@ + dec_digits(n as int));
        }
    }
}

/// Append the fixed-width column of one line: label, padding, separator.
fn push_column(out: &mut Vec<u8>, l: &FileLine, width: usize)
    ensures
        final(out)@ == old(out)@ + spec_column(l@, width as int),
{
    let ghost base = out@;
    push_bytes(out, l.filename.as_str().as_bytes());
    out.push(0x28);
    push_dec_digits(out, l.line_num);
    out.push(0x29);
    let chars = l.filename.as_str().unicode_len();
    let digits = usize_str_len(l.line_num);
    let mut pad = width;
    pad = if pad > chars {
        pad - chars
    } else {
        0
    };
    pad = if pad > 2 {
        pad - 2
    } else {
        0
    };
    pad = if pad > digits {
        pad - digits
    } else {
        0
    };
    proof {
        assert(spaces(pad as int) == spaces(width - label_chars(l@)));
    }
    push_n_spaces(out, pad);
    out.push(0x20);
    out.push(0x7C);
    out.push(0x20);
    proof {
        assert(out@ =~= base + spec_column(l@, width as int));
    }
}

/// Append the contents with every non-printable byte escaped.
fn push_escaped(out: &mut Vec<u8>, v: &Vec<u8>)
    ensures
        final(out)@ == old(out)@ + escape_bytes(v@),
{
    let ghost base = out@;
    let n = v.len();
    proof {
        assert(v@.subrange(0, n as int) =~= v@);
    }
    let mut i: usize = 0;
    while i < n
        invariant
            0 <= i <= n,
            n == v@.len(),
            base + escape_bytes(v@) == out@ + escape_bytes(v@.subrange(i as int, n as int)),
        decreases n - i,
    {
        let ghost out_pre = out@;
        let b = v[i];
        if 0x20 <= b && b <= 0x7E {
            out.push(b);
            proof {
                assert(out@ =~= out_pre + escape_byte(v@[i as int]));
            }
        } else {
            out.push(0x1B);
            out.push(0x5B);
            out.push(0x37);
            out.push(0x6D);
            out.push(0x3C);
            let hi = b / 16;
            let lo = b % 16;
            out.push(
                if hi < 10 {
                    0x30 + hi
                } else {
                    0x41 + (hi - 10)
                },
            );
            out.push(
                if lo < 10 {
                    0x30 + lo
                } else {
                    0x41 + (lo - 10)
                },
            );
            out.push(0x3E);
            out.push(0x1B);
            out.push(0x5B);
            out.push(0x30);
            out.push(0x6D);
            proof {
                assert(out@ =~= out_pre + escape_byte(v@[i as int]));
            }
        }
        proof {
            assert(v@.subrange(i as int, n as int)[0] == v@[i as int]);
            assert(v@.subrange(i as int, n as int).drop_first() =~= v@.subrange(
                i as int + 1,
                n as int,
            ));
            assert(escape_bytes(v@.subrange(i as int, n as int)) == escape_byte(v@[i as int])
                + escape_bytes(v@.subrange(i as int + 1, n as int)));
            assert(base + escape_bytes(v@) =~= out@ + escape_bytes(
                v@.subrange(i as int + 1, n as int),
            ));
        }
        i = i + 1;
    }
    proof {
        assert(escape_bytes(v@.subrange(n as int, n as int)) == Seq::<u8>::empty());
        assert(out@ + Seq::<u8>::empty() =~= out@);
    }
}

/// The column width of the output: widest filename plus widest line number.
fn compute_width(lines: &Vec<FileLine>) -> (w: usize)
    requires
        spec_width(line_views(lines@)) <= usize::MAX,
    ensures
        w as int == spec_width(line_views(lines@)),
{
    let ghost lv = line_views(lines@);
    let n = lines.len();
    proof {
        assert(lv.subrange(0, n as int) =~= lv);
    }
    let mut max_fn: usize = 0;
    let mut i: usize = 0;
    while i < n
        invariant
            0 <= i <= n,
            n == lines@.len(),
            lv == line_views(lines@),
            max_filename_bytes(lv) == (if max_fn as int >= max_filename_bytes(
                lv.subrange(i as int, n as int),
            ) {
                max_fn as int
            } else {
                max_filename_bytes(lv.subrange(i as int, n as int))
            }),
        decreases n - i,
    {
        let fs = lines[i].filename.as_str();
        proof {
            assert(fs@ == lv[i as int].filename);
        }
        let flen = fs.as_bytes().len();
        proof {
            assert(fs.spec_bytes() == encode_utf8(fs@));
            assert(lv.subrange(i as int, n as int)[0] == lv[i as int]);
            assert(lv.subrange(i as int, n as int).drop_first() =~= lv.subrange(
                i as int + 1,
                n as int,
            ));
            assert(flen as int == encode_utf8(lv[i as int].filename).len());
        }
        if flen > max_fn {
            max_fn = flen;
        }
        i = i + 1;
    }
    proof {
        assert(max_filename_bytes(lv.subrange(n as int, n as int)) == 0);
    }
    proof {
        assert(lv.subrange(0, n as int) =~= lv);
    }
    let mut max_ln: usize = 0;
    let mut j: usize = 0;
    while j < n
        invariant
            0 <= j <= n,
            n == lines@.len(),
            lv == line_views(lines@),
            max_line_num(lv) == (if max_ln as int >= max_line_num(
                lv.subrange(j as int, n as int),
            ) {
                max_ln as int
            } else {
                max_line_num(lv.subrange(j as int, n as int))
            }),
        decreases n - j,
    {
        proof {
            assert(lv.subrange(j as int, n as int)[0] == lv[j as int]);
            assert(lv.subrange(j as int, n as int).drop_first() =~= lv.subrange(
                j as int + 1,
                n as int,
            ));
        }
        if lines[j].line_num > max_ln {
            max_ln = lines[j].line_num;
        }
        j = j + 1;
    }
    proof {
        assert(max_line_num(lv.subrange(n as int, n as int)) == 0);
    }
    let digits = usize_str_len(max_ln);
    max_fn + digits + 2
}

/// Render the lines in the file form: fixed-width column, raw contents,
/// then the chosen line terminator, once per line.
pub fn write_filelines(lines: &Vec<FileLine>, crlf: bool) -> (out: Vec<u8>)
    requires
        spec_width(line_views(lines@)) <= usize::MAX,
    ensures
        out@ == spec_render_file(line_views(lines@), crlf),
{
    let ghost lv = line_views(lines@);
    let width = compute_width(lines);
    let n = lines.len();
    let mut out: Vec<u8> = Vec::new();
    let mut i: usize = 0;
    proof {
        assert(lv.subrange(0, n as int) =~= lv);
        assert(Seq::<u8>::empty() + spec_file_lines(lv, width as int, crlf) =~= spec_file_lines(
            lv,
            width as int,
            crlf,
        ));
    }
    while i < n
        invariant
            0 <= i <= n,
            n == lines@.len(),
            lv == line_views(lines@),
            width as int == spec_width(lv),
            spec_file_lines(lv, width as int, crlf) == out@ + spec_file_lines(
                lv.subrange(i as int, n as int),
                width as int,
                crlf,
            ),
        decreases n - i,
    {
        let ghost out_pre = out@;
        push_column(&mut out, &lines[i], width);
        push_bytes(&mut out, lines[i].contents.as_slice());
        if crlf {
            out.push(0x0D);
        }
        out.push(0x0A);
        proof {
            assert(out@ =~= out_pre + spec_file_line(lv[i as int], width as int, crlf));
            assert(lv.subrange(i as int, n as int)[0] == lv[i as int]);
            assert(lv.subrange(i as int, n as int).drop_first() =~= lv.subrange(
                i as int + 1,
                n as int,
            ));
            assert(spec_file_lines(lv, width as int, crlf) =~= out@ + spec_file_lines(
                lv.subrange(i as int + 1, n as int),
                width as int,
                crlf,
            ));
        }
        i = i + 1;
    }
    proof {
        assert(out@ + spec_file_lines(lv.subrange(n as int, n as int), width as int, crlf)
            =~= out@);
    }
    out
}

/// Render the lines in the terminal-listing form: the same column as the
/// file form, then the contents with non-printable bytes escaped.
pub fn render_listing(lines: &Vec<FileLine>) -> (out: Vec<u8>)
    requires
        spec_width(line_views(lines@)) <= usize::MAX,
    ensures
        out@ == spec_render_listing(line_views(lines@)),
{
    let ghost lv = line_views(lines@);
    let width = compute_width(lines);
    let n = lines.len();
    let mut out: Vec<u8> = Vec::new();
    let mut i: usize = 0;
    proof {
        assert(lv.subrange(0, n as int) =~= lv);
        assert(Seq::<u8>::empty() + spec_listing_lines(lv, width as int) =~= spec_listing_lines(
            lv,
            width as int,
        ));
    }
    while i < n
        invariant
            0 <= i <= n,
            n == lines@.len(),
            lv == line_views(lines@),
            width as int == spec_width(lv),
            spec_listing_lines(lv, width as int) == out@ + spec_listing_lines(
                lv.subrange(i as int, n as int),
                width as int,
            ),
        decreases n - i,
    {
        let ghost out_pre = out@;
        push_column(&mut out, &lines[i], width);
        push_escaped(&mut out, &lines[i].contents);
        out.push(0x0A);
        proof {
            assert(out@ =~= out_pre + spec_listing_line(lv[i as int], width as int));
            assert(lv.subrange(i as int, n as int)[0] == lv[i as int]);
            assert(lv.subrange(i as int, n as int).drop_first() =~= lv.subrange(
                i as int + 1,
                n as int,
            ));
            assert(spec_listing_lines(lv, width as int) =~= out@ + spec_listing_lines(
                lv.subrange(i as int + 1, n as int),
                width as int,
            ));
        }
        i = i + 1;
    }
    proof {
        assert(out@ + spec_listing_lines(lv.subrange(n as int, n as int), width as int) =~= out@);
    }
    out
}

} // verus!
