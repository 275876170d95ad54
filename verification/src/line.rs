//! The line model: one physical line of a text file, and line splitting.

use vstd::prelude::*;
use vstd::slice::slice_subrange;
use std::rc::Rc;

verus! {

/// Mathematical model of one line: source name, 1-based number, raw bytes.
pub ghost struct LineView {
    pub filename: Seq<char>,
    pub line_num: int,
    pub contents: Seq<u8>,
}

/// One physical line of a text file: the source name (shared by every line of
/// the same file), the 1-based line number, and the raw bytes of the line with
/// its terminator stripped. Contents are opaque bytes; no encoding is assumed.
#[derive(Debug)]
pub struct FileLine {
    pub filename: Rc<String>,
    pub line_num: usize,
    pub contents: Vec<u8>,
}

impl View for FileLine {
    type V = LineView;

    open spec fn view(&self) -> LineView {
        LineView {
            filename: self.filename@,
            line_num: self.line_num as int,
            contents: self.contents@,
        }
    }
}

/// The views of a sequence of lines.
pub open spec fn line_views(s: Seq<FileLine>) -> Seq<LineView> {
    s.map_values(|l: FileLine| l@)
}

/// The least index `j >= i` whose element satisfies `p`, if any.
pub open spec fn find_from<A>(s: Seq<A>, i: int, p: spec_fn(A) -> bool) -> Option<int>
    decreases s.len() - i,
{
    if i < 0 || i >= s.len() {
        None
    } else if p(s[i]) {
        Some(i)
    } else {
        find_from(s, i + 1, p)
    }
}

pub proof fn lemma_find_from_bounds<A>(s: Seq<A>, i: int, p: spec_fn(A) -> bool)
    requires
        0 <= i,
    ensures
        match find_from(s, i, p) {
            Some(j) => i <= j < s.len() && p(s[j]),
            None => true,
        },
    decreases s.len() - i,
{
    if i < s.len() && !p(s[i]) {
        lemma_find_from_bounds(s, i + 1, p);
    }
}

pub proof fn lemma_find_from_exact<A>(s: Seq<A>, i: int, j: int, p: spec_fn(A) -> bool)
    requires
        0 <= i <= j < s.len(),
        p(s[j]),
        forall|k: int| i <= k < j ==> !p(#[trigger] s[k]),
    ensures
        find_from(s, i, p) == Some(j),
    decreases j - i,
{
    if i < j {
        lemma_find_from_exact(s, i + 1, j, p);
    }
}

pub proof fn lemma_find_from_none<A>(s: Seq<A>, i: int, p: spec_fn(A) -> bool)
    requires
        0 <= i,
        forall|k: int| i <= k < s.len() ==> !p(#[trigger] s[k]),
    ensures
        find_from(s, i, p) == None::<int>,
    decreases s.len() - i,
{
    if i < s.len() {
        lemma_find_from_none(s, i + 1, p);
    }
}

/// An ASCII whitespace byte: space, tab, line feed, form feed, carriage return.
pub open spec fn is_ascii_ws(b: u8) -> bool {
    b == 0x20 || b == 0x09 || b == 0x0A || b == 0x0C || b == 0x0D
}

/// The byte sequence with its leading ASCII whitespace removed.
pub open spec fn trimmed_start(s: Seq<u8>) -> Seq<u8>
    decreases s.len(),
{
    if s.len() == 0 {
        s
    } else if is_ascii_ws(s[0]) {
        trimmed_start(s.drop_first())
    } else {
        s
    }
}

/// A line is blank when nothing is left of it once leading whitespace goes.
pub open spec fn is_blank(s: Seq<u8>) -> bool {
    trimmed_start(s).len() == 0
}

/// Relies on std's `Rc::clone`: the returned handle refers to the same
/// string value as the argument.
#[verifier::external_body]
fn rc_clone(r: &Rc<String>) -> (res: Rc<String>)
    ensures
        res == r,
{
    Rc::clone(r)
}

/// A fresh copy of a byte vector.
fn clone_bytes(v: &Vec<u8>) -> (r: Vec<u8>)
    ensures
        r@ == v@,
{
    let n = v.len();
    let mut r: Vec<u8> = Vec::new();
    let mut i: usize = 0;
    while i < n
        invariant
            0 <= i <= n,
            n == v@.len(),
            r@ == v@.subrange(0, i as int),
        decreases n - i,
    {
        r.push(v[i]);
        proof {
            assert(r@ =~= v@.subrange(0, i + 1));
        }
        i = i + 1;
    }
    proof {
        assert(v@.subrange(0, n as int) =~= v@);
    }
    r
}

/// A line equal in model to the given one: same source name, number, bytes.
pub fn clone_line(l: &FileLine) -> (r: FileLine)
    ensures
        r@ == l@,
{
    FileLine {
        filename: rc_clone(&l.filename),
        line_num: l.line_num,
        contents: clone_bytes(&l.contents),
    }
}

/// Copies of the lines of `lines` with indices in `[a, b)`.
pub fn collect_range(lines: &Vec<FileLine>, a: usize, b: usize) -> (r: Vec<FileLine>)
    requires
        a <= b <= lines@.len(),
    ensures
        line_views(r@) == line_views(lines@).subrange(a as int, b as int),
{
    let mut r: Vec<FileLine> = Vec::new();
    let mut i: usize = a;
    while i < b
        invariant
            a <= i <= b <= lines@.len(),
            r@.len() == i - a,
            forall|k: int| 0 <= k < r@.len() ==> (#[trigger] r@[k])@ == lines@[a + k]@,
        decreases b - i,
    {
        r.push(clone_line(&lines[i]));
        i = i + 1;
    }
    proof {
        assert(line_views(r@) =~= line_views(lines@).subrange(a as int, b as int));
    }
    r
}

/// A line-feed byte, as a search predicate.
pub open spec fn lf_pred() -> spec_fn(u8) -> bool {
    |b: u8| b == 0x0A
}

/// The lines a byte stream splits into: each line-feed byte ends a line and
/// is stripped (with a preceding carriage return when `strip_cr` holds, as on
/// platforms that pair them); a trailing chunk without a line feed is a line
/// as it stands, unstripped.
pub open spec fn split_contents(bytes: Seq<u8>, strip_cr: bool) -> Seq<Seq<u8>>
    decreases bytes.len(),
    via split_contents_decreases
{
    if bytes.len() == 0 {
        Seq::empty()
    } else {
        match find_from(bytes, 0, lf_pred()) {
            None => seq![bytes],
            Some(j) => {
                let content = bytes.subrange(0, j);
                let stripped = if strip_cr && content.len() > 0 && content[content.len() - 1]
                    == 0x0D {
                    content.drop_last()
                } else {
                    content
                };
                seq![stripped] + split_contents(bytes.subrange(j + 1, bytes.len() as int), strip_cr)
            },
        }
    }
}

#[via_fn]
proof fn split_contents_decreases(bytes: Seq<u8>, strip_cr: bool) {
    if bytes.len() > 0 {
        lemma_find_from_bounds(bytes, 0, lf_pred());
    }
}

/// The lines of a named byte stream, numbered from 1.
pub open spec fn split_views(name: Seq<char>, bytes: Seq<u8>, strip_cr: bool) -> Seq<LineView> {
    Seq::new(
        split_contents(bytes, strip_cr).len(),
        |i: int|
            LineView {
                filename: name,
                line_num: i + 1,
                contents: split_contents(bytes, strip_cr)[i],
            },
    )
}

/// Split a file's bytes into lines, every line carrying the shared source
/// name and its 1-based number. Contents stay opaque bytes: no encoding is
/// checked, so non-text files still merge correctly.
pub fn split_filelines(filename: &str, bytes: &[u8], strip_cr: bool) -> (r: Vec<FileLine>)
    ensures
        line_views(r@) == split_views(filename@, bytes@, strip_cr),
{
    let name = Rc::new(filename.to_owned());
    let blen = bytes.len();
    let mut out: Vec<FileLine> = Vec::new();
    let mut pos: usize = 0;
    proof {
        assert(bytes@.subrange(0, blen as int) =~= bytes@);
        assert(contents_of(out@) + split_contents(bytes@, strip_cr) =~= split_contents(
            bytes@,
            strip_cr,
        ));
    }
    while pos < blen
        invariant
            0 <= pos <= blen,
            blen == bytes@.len(),
            out@.len() <= pos,
            name@ == filename@,
            split_contents(bytes@, strip_cr) == contents_of(out@) + split_contents(
                bytes@.subrange(pos as int, blen as int),
                strip_cr,
            ),
            forall|k: int|
                0 <= k < out@.len() ==> (#[trigger] out@[k])@.filename == filename@ && out@[k]@.line_num == k + 1,
        decreases blen - pos,
    {
        let ghost suffix = bytes@.subrange(pos as int, blen as int);
        let mut content: Vec<u8> = Vec::new();
        let mut j: usize = pos;
        while j < blen && bytes[j] != 0x0A
            invariant
                pos <= j <= blen,
                blen == bytes@.len(),
                content@ == bytes@.subrange(pos as int, j as int),
                forall|k: int| pos <= k < j ==> bytes@[k] != 0x0A,
            decreases blen - j,
        {
            content.push(bytes[j]);
            proof {
                assert(content@ =~= bytes@.subrange(pos as int, j + 1));
            }
            j = j + 1;
        }
        let ghost out_pre = out@;
        if j < blen {
            proof {
                assert(suffix[j - pos] == bytes@[j as int]);
                assert(forall|k: int| 0 <= k < j - pos ==> !lf_pred()(#[trigger] suffix[k]));
                lemma_find_from_exact(suffix, 0, j - pos, lf_pred());
                assert(suffix.subrange(0, j - pos) =~= bytes@.subrange(pos as int, j as int));
                assert(suffix.subrange(j - pos + 1, suffix.len() as int) =~= bytes@.subrange(
                    j + 1,
                    blen as int,
                ));
            }
            if strip_cr && content.len() > 0 && content[content.len() - 1] == 0x0D {
                content.pop();
                proof {
                    assert(content@ =~= bytes@.subrange(pos as int, j as int).drop_last());
                }
            }
            let num = out.len() + 1;
            out.push(FileLine { filename: rc_clone(&name), line_num: num, contents: content });
            proof {
                assert(contents_of(out@) =~= contents_of(out_pre) + seq![out@.last()@.contents]);
                assert(split_contents(bytes@, strip_cr) =~= contents_of(out@) + split_contents(
                    bytes@.subrange(j + 1, blen as int),
                    strip_cr,
                ));
            }
            pos = j + 1;
        } else {
            proof {
                assert(forall|k: int| 0 <= k < suffix.len() ==> !lf_pred()(#[trigger] suffix[k]));
                lemma_find_from_none(suffix, 0, lf_pred());
                assert(content@ =~= suffix);
            }
            let num = out.len() + 1;
            out.push(FileLine { filename: rc_clone(&name), line_num: num, contents: content });
            proof {
                assert(contents_of(out@) =~= contents_of(out_pre) + seq![out@.last()@.contents]);
                assert(bytes@.subrange(blen as int, blen as int).len() == 0);
                assert(split_contents(bytes@, strip_cr) =~= contents_of(out@) + split_contents(
                    bytes@.subrange(blen as int, blen as int),
                    strip_cr,
                ));
            }
            pos = blen;
        }
    }
    proof {
        assert(bytes@.subrange(blen as int, blen as int).len() == 0);
        assert(split_contents(bytes@, strip_cr) =~= contents_of(out@));
        assert(line_views(out@) =~= split_views(filename@, bytes@, strip_cr));
    }
    out
}

/// The contents of each line, in order.
pub open spec fn contents_of(s: Seq<FileLine>) -> Seq<Seq<u8>> {
    s.map_values(|l: FileLine| l.contents@)
}

/// The slice with its leading ASCII whitespace bytes removed.
pub fn u8_slice_trim_start(s: &[u8]) -> (r: &[u8])
    ensures
        r@ == trimmed_start(s@),
{
    let n = s.len();
    let mut i: usize = 0;
    proof {
        assert(s@.subrange(0, n as int) =~= s@);
    }
    while i < n && (s[i] == 0x20 || s[i] == 0x09 || s[i] == 0x0A || s[i] == 0x0C || s[i] == 0x0D)
        invariant
            0 <= i <= n,
            n == s@.len(),
            trimmed_start(s@) == trimmed_start(s@.subrange(i as int, n as int)),
        decreases n - i,
    {
        proof {
            assert(s@.subrange(i as int, n as int).drop_first() =~= s@.subrange(
                i as int + 1,
                n as int,
            ));
        }
        i = i + 1;
    }
    proof {
        assert(trimmed_start(s@.subrange(i as int, n as int)) == s@.subrange(i as int, n as int));
    }
    slice_subrange(s, i, n)
}

} // verus!
