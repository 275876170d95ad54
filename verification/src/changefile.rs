//! Change-file sections and the section grammar.
//!
//! A change file is a sequence of sections. Each section is announced by a
//! line starting with `@x` (the headline), followed by the old block, a `@y`
//! separator line, the new block, and a closing `@z` line. Marker detection is
//! a byte-prefix test; trailing text on a marker line is ignored.

use vstd::prelude::*;
use crate::line::FileLine;
use crate::line::LineView;
use crate::line::line_views;
use crate::line::find_from;
use crate::line::lemma_find_from_bounds;
use crate::line::lemma_find_from_exact;
use crate::line::lemma_find_from_none;
use crate::line::is_blank;
use crate::line::clone_line;
use crate::line::collect_range;
use crate::line::u8_slice_trim_start;

verus! {

/// The line's bytes begin with `@` followed by `c`. Marker detection is a
/// prefix test: trailing text on a marker line is ignored.
pub open spec fn at_marker(s: Seq<u8>, c: u8) -> bool {
    s.len() >= 2 && s[0] == 0x40 && s[1] == c
}

/// The line begins the old/new pair: prefix `@x`.
pub open spec fn at_x(s: Seq<u8>) -> bool {
    at_marker(s, 0x78)
}

/// The line separates old from new: prefix `@y`.
pub open spec fn at_y(s: Seq<u8>) -> bool {
    at_marker(s, 0x79)
}

/// The line ends the pair: prefix `@z`.
pub open spec fn at_z(s: Seq<u8>) -> bool {
    at_marker(s, 0x7A)
}

/// Lines starting with the given marker, as a search predicate.
pub open spec fn marker_c_pred(c: u8) -> spec_fn(LineView) -> bool {
    |l: LineView| at_marker(l.contents, c)
}

/// Lines starting with any of the three markers, as a search predicate.
pub open spec fn marker_pred() -> spec_fn(LineView) -> bool {
    |l: LineView| at_x(l.contents) || at_y(l.contents) || at_z(l.contents)
}

/// The block with its leading blank lines removed: a candidate old-block line
/// is discarded while the block is still empty and the line holds nothing but
/// whitespace; from the first kept line on, every line stays verbatim.
pub open spec fn drop_leading_blanks(s: Seq<LineView>) -> Seq<LineView>
    decreases s.len(),
{
    if s.len() == 0 {
        s
    } else if is_blank(s[0].contents) {
        drop_leading_blanks(s.drop_first())
    } else {
        s
    }
}

/// Characterisation of the trimming rule: when the lines of `[a, f)` are all
/// blank and `f` is either `b` or the first non-blank position, the trimmed
/// block is exactly the lines of `[f, b)`.
pub proof fn lemma_drop_leading_blanks_range(lines: Seq<LineView>, a: int, b: int, f: int)
    requires
        0 <= a <= f <= b <= lines.len(),
        forall|k: int| a <= k < f ==> is_blank((#[trigger] lines[k]).contents),
        f < b ==> !is_blank(lines[f].contents),
    ensures
        drop_leading_blanks(lines.subrange(a, b)) == lines.subrange(f, b),
    decreases b - a,
{
    if a == b {
        assert(lines.subrange(a, b).len() == 0);
    } else if a < f {
        assert(lines.subrange(a, b)[0] == lines[a]);
        assert(lines.subrange(a, b).drop_first() =~= lines.subrange(a + 1, b));
        lemma_drop_leading_blanks_range(lines, a + 1, b, f);
    } else {
        assert(lines.subrange(a, b)[0] == lines[f]);
        assert(!is_blank(lines.subrange(a, b)[0].contents));
    }
}

/// A change file's structure could not be parsed. The offending or
/// unterminated line names the change file and line number.
#[derive(Debug)]
pub enum ParseError {
    /// A `@y` or `@z` marker stood with no `@x` section open before it.
    Structure { line: FileLine },
    /// A `@x` headline was never followed by its `@y` separator.
    Unterminated { headline: FileLine },
}

/// Model of the parse failures.
pub ghost enum SpecParseError {
    Structure(LineView),
    Unterminated(LineView),
}

/// What parsing produces, starting at line index `i`: scan for the next
/// marker; none leaves the remaining lines sectionless. A `@y` or `@z` first
/// is a structure error. After a `@x` headline, the old block runs to the
/// first `@y` (leading blank lines trimmed; no `@y` at all is an
/// unterminated-section error) and the new block runs to the first `@z`. A
/// missing final `@z` is tolerated: the rest of the file becomes the new
/// block and the `true` flag records the diagnostic.
pub open spec fn spec_parse(lines: Seq<LineView>, i: int) -> Result<
    (Seq<SectionView>, bool),
    SpecParseError,
>
    decreases lines.len() - i,
    via spec_parse_decreases
{
    match find_from(lines, i, marker_pred()) {
        None => Ok((Seq::empty(), false)),
        Some(j) => if !at_x(lines[j].contents) {
            Err(SpecParseError::Structure(lines[j]))
        } else {
            match find_from(lines, j + 1, marker_c_pred(0x79)) {
                None => Err(SpecParseError::Unterminated(lines[j])),
                Some(y) => {
                    let old = drop_leading_blanks(lines.subrange(j + 1, y));
                    match find_from(lines, y + 1, marker_c_pred(0x7A)) {
                        None => Ok(
                            (
                                seq![
                                    SectionView {
                                        headline: lines[j],
                                        oldlines: old,
                                        newlines: lines.subrange(y + 1, lines.len() as int),
                                    },
                                ],
                                true,
                            ),
                        ),
                        Some(z) => match spec_parse(lines, z + 1) {
                            Err(e) => Err(e),
                            Ok((rest, w)) => Ok(
                                (
                                    seq![
                                        SectionView {
                                            headline: lines[j],
                                            oldlines: old,
                                            newlines: lines.subrange(y + 1, z),
                                        },
                                    ] + rest,
                                    w,
                                ),
                            ),
                        },
                    }
                },
            }
        },
    }
}

#[via_fn]
proof fn spec_parse_decreases(lines: Seq<LineView>, i: int) {
    if i >= 0 {
        lemma_find_from_bounds(lines, i, marker_pred());
        match find_from(lines, i, marker_pred()) {
            None => {},
            Some(j) => {
                lemma_find_from_bounds(lines, j + 1, marker_c_pred(0x79));
                match find_from(lines, j + 1, marker_c_pred(0x79)) {
                    None => {},
                    Some(y) => {
                        lemma_find_from_bounds(lines, y + 1, marker_c_pred(0x7A));
                    },
                }
            },
        }
    } else {
        assert(find_from(lines, i, marker_pred()) == None::<int>);
    }
}

/// Mathematical model of one change section.
pub ghost struct SectionView {
    pub headline: LineView,
    pub oldlines: Seq<LineView>,
    pub newlines: Seq<LineView>,
}

/// One parsed change section: the `@x` headline, the block of lines to find,
/// and the block of lines to splice in. The new block may be empty (pure
/// deletion); the old block is empty only when nothing non-blank stood before
/// the `@y` separator (pure insertion).
#[derive(Debug)]
pub struct ChangeFileSection {
    pub headline: FileLine,
    pub oldlines: Vec<FileLine>,
    pub newlines: Vec<FileLine>,
}

impl View for ChangeFileSection {
    type V = SectionView;

    open spec fn view(&self) -> SectionView {
        SectionView {
            headline: self.headline@,
            oldlines: line_views(self.oldlines@),
            newlines: line_views(self.newlines@),
        }
    }
}

/// The views of a sequence of sections.
pub open spec fn section_views(s: Seq<ChangeFileSection>) -> Seq<SectionView> {
    s.map_values(|c: ChangeFileSection| c@)
}

/// A `@y` or `@z` with no open section is fatal: when the first marker at or
/// after `i` is not a `@x` headline, parsing fails with a structure error
/// naming that very line.
pub proof fn lemma_marker_without_header(lines: Seq<LineView>, i: int, j: int)
    requires
        0 <= i,
        find_from(lines, i, marker_pred()) == Some(j),
        !at_x(lines[j].contents),
    ensures
        spec_parse(lines, i) == Err::<(Seq<SectionView>, bool), SpecParseError>(
            SpecParseError::Structure(lines[j]),
        ),
{
}

/// A missing `@z` at the end of the file is tolerated: the lines after the
/// last `@y` become the section's new block, and the diagnostic flag of the
/// parse result is set instead of an error.
pub proof fn lemma_missing_terminator_tolerated(lines: Seq<LineView>, i: int, j: int, y: int)
    requires
        0 <= i,
        find_from(lines, i, marker_pred()) == Some(j),
        at_x(lines[j].contents),
        find_from(lines, j + 1, marker_c_pred(0x79)) == Some(y),
        find_from(lines, y + 1, marker_c_pred(0x7A)) == None::<int>,
    ensures
        spec_parse(lines, i) == Ok::<(Seq<SectionView>, bool), SpecParseError>(
            (
                seq![
                    SectionView {
                        headline: lines[j],
                        oldlines: drop_leading_blanks(lines.subrange(j + 1, y)),
                        newlines: lines.subrange(y + 1, lines.len() as int),
                    },
                ],
                true,
            ),
        ),
{
}

/// Does the line begin with `@` followed by `c`?
fn starts_with_at(v: &Vec<u8>, c: u8) -> (r: bool)
    ensures
        r == at_marker(v@, c),
{
    v.len() >= 2 && v[0] == 0x40 && v[1] == c
}

/// The first line at or after `start` beginning with `@` and `c`.
fn find_marker_from(lines: &Vec<FileLine>, start: usize, c: u8) -> (r: Option<usize>)
    ensures
        match r {
            Some(j) => start <= j < lines@.len() && find_from(
                line_views(lines@),
                start as int,
                marker_c_pred(c),
            ) == Some(j as int),
            None => find_from(line_views(lines@), start as int, marker_c_pred(c)) == None::<int>,
        },
{
    let n = lines.len();
    let mut j = start;
    while j < n
        invariant
            start <= j,
            n == lines@.len(),
            forall|k: int| start <= k < j ==> !marker_c_pred(c)(#[trigger] line_views(lines@)[k]),
        decreases n - j,
    {
        if starts_with_at(&lines[j].contents, c) {
            proof {
                assert(marker_c_pred(c)(line_views(lines@)[j as int]));
                lemma_find_from_exact(line_views(lines@), start as int, j as int, marker_c_pred(c));
            }
            return Some(j);
        }
        proof {
            assert(!marker_c_pred(c)(line_views(lines@)[j as int]));
        }
        j = j + 1;
    }
    proof {
        if start <= n {
            lemma_find_from_none(line_views(lines@), start as int, marker_c_pred(c));
        }
    }
    None
}

/// The first line at or after `start` beginning with any of the markers.
fn find_any_marker_from(lines: &Vec<FileLine>, start: usize) -> (r: Option<usize>)
    ensures
        match r {
            Some(j) => start <= j < lines@.len() && find_from(
                line_views(lines@),
                start as int,
                marker_pred(),
            ) == Some(j as int),
            None => find_from(line_views(lines@), start as int, marker_pred()) == None::<int>,
        },
{
    let n = lines.len();
    let mut j = start;
    while j < n
        invariant
            start <= j,
            n == lines@.len(),
            forall|k: int| start <= k < j ==> !marker_pred()(#[trigger] line_views(lines@)[k]),
        decreases n - j,
    {
        let hit = starts_with_at(&lines[j].contents, 0x78) || starts_with_at(
            &lines[j].contents,
            0x79,
        ) || starts_with_at(&lines[j].contents, 0x7A);
        if hit {
            proof {
                assert(marker_pred()(line_views(lines@)[j as int]));
                lemma_find_from_exact(line_views(lines@), start as int, j as int, marker_pred());
            }
            return Some(j);
        }
        proof {
            assert(!marker_pred()(line_views(lines@)[j as int]));
        }
        j = j + 1;
    }
    proof {
        if start <= n {
            lemma_find_from_none(line_views(lines@), start as int, marker_pred());
        }
    }
    None
}

/// The first non-blank line of `[a, b)`, or `b` when all of them are blank.
fn find_nonblank_before(lines: &Vec<FileLine>, a: usize, b: usize) -> (f: usize)
    requires
        a <= b <= lines@.len(),
    ensures
        a <= f <= b,
        forall|k: int| a <= k < f ==> is_blank((#[trigger] line_views(lines@)[k]).contents),
        f < b ==> !is_blank(line_views(lines@)[f as int].contents),
{
    let mut f = a;
    while f < b
        invariant
            a <= f <= b <= lines@.len(),
            forall|k: int| a <= k < f ==> is_blank((#[trigger] line_views(lines@)[k]).contents),
        decreases b - f,
    {
        if u8_slice_trim_start(lines[f].contents.as_slice()).len() > 0 {
            return f;
        }
        f = f + 1;
    }
    f
}

/// Parse a change file's lines into its sections, in order. The boolean is
/// the missing-terminator diagnostic: `true` when the file ended before the
/// last section's closing `@z`, which is tolerated. A `@y` or `@z` before any
/// `@x`, or a section whose `@y` never comes, is a fatal error.
pub fn parse_changefile(lines: Vec<FileLine>) -> (res: Result<
    (Vec<ChangeFileSection>, bool),
    ParseError,
>)
    ensures
        (match res {
            Ok((secs, warn)) => spec_parse(line_views(lines@), 0) == Ok::<
                (Seq<SectionView>, bool),
                SpecParseError,
            >((section_views(secs@), warn)),
            Err(ParseError::Structure { line }) => spec_parse(line_views(lines@), 0) == Err::<
                (Seq<SectionView>, bool),
                SpecParseError,
            >(SpecParseError::Structure(line@)),
            Err(ParseError::Unterminated { headline }) => spec_parse(line_views(lines@), 0)
                == Err::<(Seq<SectionView>, bool), SpecParseError>(
                SpecParseError::Unterminated(headline@),
            ),
        }),
{
    let ghost lv = line_views(lines@);
    let n = lines.len();
    let mut sections: Vec<ChangeFileSection> = Vec::new();
    let mut i: usize = 0;
    proof {
        assert(section_views(sections@) =~= Seq::<SectionView>::empty());
        match spec_parse(lv, 0) {
            Ok((s, w)) => {
                assert(section_views(sections@) + s =~= s);
            },
            Err(e) => {},
        }
    }
    loop
        invariant
            i <= n,
            n == lines@.len(),
            lv == line_views(lines@),
            spec_parse(lv, 0) == (match spec_parse(lv, i as int) {
                Ok((s, w)) => Ok::<(Seq<SectionView>, bool), SpecParseError>(
                    (section_views(sections@) + s, w),
                ),
                Err(e) => Err::<(Seq<SectionView>, bool), SpecParseError>(e),
            }),
        decreases n - i,
    {
        let j = match find_any_marker_from(&lines, i) {
            None => {
                proof {
                    assert(spec_parse(lv, i as int) == Ok::<
                        (Seq<SectionView>, bool),
                        SpecParseError,
                    >((Seq::empty(), false)));
                    assert(section_views(sections@) + Seq::<SectionView>::empty()
                        =~= section_views(sections@));
                }
                return Ok((sections, false));
            },
            Some(j) => j,
        };
        if !starts_with_at(&lines[j].contents, 0x78) {
            proof {
                lemma_find_from_bounds(lv, i as int, marker_pred());
                assert(marker_pred()(lv[j as int]));
                assert(spec_parse(lv, i as int) == Err::<
                    (Seq<SectionView>, bool),
                    SpecParseError,
                >(SpecParseError::Structure(lv[j as int])));
            }
            return Err(ParseError::Structure { line: clone_line(&lines[j]) });
        }
        let y = match find_marker_from(&lines, j + 1, 0x79) {
            None => {
                proof {
                    assert(spec_parse(lv, i as int) == Err::<
                        (Seq<SectionView>, bool),
                        SpecParseError,
                    >(SpecParseError::Unterminated(lv[j as int])));
                }
                return Err(ParseError::Unterminated { headline: clone_line(&lines[j]) });
            },
            Some(y) => y,
        };
        let f = find_nonblank_before(&lines, j + 1, y);
        let oldlines = collect_range(&lines, f, y);
        proof {
            lemma_drop_leading_blanks_range(lv, j + 1, y as int, f as int);
        }
        match find_marker_from(&lines, y + 1, 0x7A) {
            None => {
                let newlines = collect_range(&lines, y + 1, n);
                let headline = clone_line(&lines[j]);
                let ghost secv = SectionView {
                    headline: lv[j as int],
                    oldlines: drop_leading_blanks(lv.subrange(j + 1, y as int)),
                    newlines: lv.subrange(y + 1, lv.len() as int),
                };
                let sec = ChangeFileSection { headline, oldlines, newlines };
                proof {
                    assert(lv.len() == n);
                    assert(sec@ == secv);
                }
                let ghost secs_pre = section_views(sections@);
                sections.push(sec);
                proof {
                    assert(section_views(sections@) =~= secs_pre + seq![secv]);
                    assert(spec_parse(lv, i as int) == Ok::<
                        (Seq<SectionView>, bool),
                        SpecParseError,
                    >((seq![secv], true)));
                }
                return Ok((sections, true));
            },
            Some(z) => {
                let newlines = collect_range(&lines, y + 1, z);
                let headline = clone_line(&lines[j]);
                let ghost secv = SectionView {
                    headline: lv[j as int],
                    oldlines: drop_leading_blanks(lv.subrange(j + 1, y as int)),
                    newlines: lv.subrange(y + 1, z as int),
                };
                let sec = ChangeFileSection { headline, oldlines, newlines };
                proof {
                    assert(sec@ == secv);
                }
                let ghost secs_pre = section_views(sections@);
                sections.push(sec);
                proof {
                    assert(section_views(sections@) =~= secs_pre + seq![secv]);
                    assert(spec_parse(lv, i as int) == (match spec_parse(lv, z + 1) {
                        Err(e) => Err::<(Seq<SectionView>, bool), SpecParseError>(e),
                        Ok((rest, w)) => Ok::<(Seq<SectionView>, bool), SpecParseError>(
                            (seq![secv] + rest, w),
                        ),
                    }));
                    match spec_parse(lv, z + 1) {
                        Err(e) => {},
                        Ok((rest, w)) => {
                            assert(secs_pre + (seq![secv] + rest) =~= section_views(sections@)
                                + rest);
                        },
                    }
                }
                i = z + 1;
            },
        }
    }
}

} // verus!
