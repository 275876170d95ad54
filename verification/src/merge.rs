//! The merge engine: locate each section's old block in the remaining text,
//! in order, and splice in its new block.
//!
//! Matching is sequential and forward-only: a section's old block is searched
//! only in the text that no earlier section's match has consumed, so sections
//! must appear in the same relative order as their targets.

use vstd::prelude::*;
use crate::line::FileLine;
use crate::line::LineView;
use crate::line::line_views;
use crate::changefile::ChangeFileSection;
use crate::changefile::SectionView;
use crate::changefile::section_views;

verus! {

/// A contiguous run of `old.len()` lines of `text` starts at `i` and is
/// byte-equal, line for line, to `old`. Only contents are compared; line
/// numbers and source names play no part.
pub open spec fn match_at(text: Seq<LineView>, old: Seq<LineView>, i: int) -> bool {
    0 <= i && i + old.len() <= text.len() && forall|k: int|
        0 <= k < old.len() ==> (#[trigger] text[i + k]).contents == old[k].contents
}

/// The least position `>= i` at which `old` matches in `text`, if any. An
/// empty `old` matches at once, at the cursor itself.
pub open spec fn first_match(text: Seq<LineView>, old: Seq<LineView>, i: int) -> Option<int>
    decreases text.len() - i,
{
    if i < 0 || i + old.len() > text.len() {
        None
    } else if match_at(text, old, i) {
        Some(i)
    } else {
        first_match(text, old, i + 1)
    }
}

pub proof fn lemma_first_match_is_match(text: Seq<LineView>, old: Seq<LineView>, i: int)
    ensures
        match first_match(text, old, i) {
            Some(p) => i <= p && match_at(text, old, p),
            None => true,
        },
    decreases text.len() - i,
{
    if !(i < 0 || i + old.len() > text.len()) && !match_at(text, old, i) {
        lemma_first_match_is_match(text, old, i + 1);
    }
}

pub proof fn lemma_first_match_none(text: Seq<LineView>, old: Seq<LineView>, i: int)
    requires
        0 <= i,
        forall|j: int| i <= j ==> !(#[trigger] match_at(text, old, j)),
    ensures
        first_match(text, old, i) == None::<int>,
    decreases text.len() - i,
{
    if !(i + old.len() > text.len()) {
        assert(!match_at(text, old, i));
        lemma_first_match_none(text, old, i + 1);
    }
}

pub proof fn lemma_first_match_found(text: Seq<LineView>, old: Seq<LineView>, i: int, p: int)
    requires
        0 <= i <= p,
        match_at(text, old, p),
        forall|j: int| i <= j < p ==> !(#[trigger] match_at(text, old, j)),
    ensures
        first_match(text, old, i) == Some(p),
    decreases p - i,
{
    if i < p {
        assert(!match_at(text, old, i));
        lemma_first_match_found(text, old, i + 1, p);
    }
}

/// What merging produces: for each section in order, find the first match of
/// its old block in the remaining text, keep everything before it, drop the
/// matched lines, splice in the new block, and continue after the match; a
/// section whose old block has no match fails with its headline.
pub open spec fn spec_apply(text: Seq<LineView>, sections: Seq<SectionView>) -> Result<
    Seq<LineView>,
    LineView,
>
    decreases sections.len(),
{
    if sections.len() == 0 {
        Ok(text)
    } else {
        let sec = sections[0];
        match first_match(text, sec.oldlines, 0) {
            None => Err(sec.headline),
            Some(p) => match spec_apply(
                text.subrange(p + sec.oldlines.len(), text.len() as int),
                sections.drop_first(),
            ) {
                Err(h) => Err(h),
                Ok(rest) => Ok(text.subrange(0, p) + sec.newlines + rest),
            },
        }
    }
}

/// A section's old block could not be located in the remaining text. The
/// headline of the failing section names the change file and line.
#[derive(Debug)]
pub struct NoMatchError {
    pub headline: FileLine,
}

/// Identity law: merging an empty section list leaves the text unchanged.
pub proof fn lemma_apply_empty(text: Seq<LineView>)
    ensures
        spec_apply(text, Seq::empty()) == Ok::<Seq<LineView>, LineView>(text),
{
}

/// A section whose old block first matches at `p` removes exactly
/// `oldlines.len()` lines there and inserts `newlines.len()` lines in their
/// place, so the total length changes by their difference.
pub proof fn lemma_single_section_replacement(text: Seq<LineView>, sec: SectionView, p: int)
    requires
        first_match(text, sec.oldlines, 0) == Some(p),
    ensures
        spec_apply(text, seq![sec]) == Ok::<Seq<LineView>, LineView>(
            text.subrange(0, p) + sec.newlines + text.subrange(
                p + sec.oldlines.len(),
                text.len() as int,
            ),
        ),
        spec_apply(text, seq![sec])->Ok_0.len() == text.len() - sec.oldlines.len()
            + sec.newlines.len(),
{
    lemma_first_match_is_match(text, sec.oldlines, 0);
    assert(seq![sec].drop_first() =~= Seq::<SectionView>::empty());
    assert(spec_apply(
        text.subrange(p + sec.oldlines.len(), text.len() as int),
        seq![sec].drop_first(),
    ) == Ok::<Seq<LineView>, LineView>(text.subrange(p + sec.oldlines.len(), text.len() as int)));
}

/// A section with an empty old block is a pure insertion at the cursor: the
/// new block goes in at the front of the remaining text and nothing is
/// removed.
pub proof fn lemma_empty_old_block_inserts(text: Seq<LineView>, sec: SectionView)
    requires
        sec.oldlines.len() == 0,
    ensures
        spec_apply(text, seq![sec]) == Ok::<Seq<LineView>, LineView>(sec.newlines + text),
{
    assert(match_at(text, sec.oldlines, 0));
    lemma_single_section_replacement(text, sec, 0);
    assert(text.subrange(0, 0) + sec.newlines + text.subrange(0, text.len() as int) =~= sec.newlines
        + text);
}

/// Re-application fails: a section whose old block occurs nowhere in a text
/// is rejected with its headline. In particular, applying the same
/// single-section change file a second time fails whenever the first
/// application has removed the only occurrence of the old block.
pub proof fn lemma_reapply_fails(text: Seq<LineView>, sec: SectionView)
    requires
        forall|p: int| !(#[trigger] match_at(text, sec.oldlines, p)),
    ensures
        spec_apply(text, seq![sec]) == Err::<Seq<LineView>, LineView>(sec.headline),
{
    lemma_first_match_none(text, sec.oldlines, 0);
}

/// Byte equality of two line contents.
fn bytes_eq(a: &Vec<u8>, b: &Vec<u8>) -> (r: bool)
    ensures
        r == (a@ == b@),
{
    if a.len() != b.len() {
        return false;
    }
    let n = a.len();
    let mut i: usize = 0;
    while i < n
        invariant
            0 <= i <= n,
            n == a@.len() == b@.len(),
            forall|j: int| 0 <= j < i ==> a@[j] == b@[j],
        decreases n - i,
    {
        if a[i] != b[i] {
            return false;
        }
        i = i + 1;
    }
    proof {
        assert(a@ =~= b@);
    }
    true
}

/// Does `old` match in `text` at position `i`?
fn block_matches_at(text: &Vec<FileLine>, old: &Vec<FileLine>, i: usize) -> (r: bool)
    requires
        i + old@.len() <= text@.len(),
    ensures
        r == match_at(line_views(text@), line_views(old@), i as int),
{
    let n = old.len();
    let tlen = text.len();
    let mut k: usize = 0;
    while k < n
        invariant
            0 <= k <= n,
            n == old@.len(),
            tlen == text@.len(),
            i + n <= tlen,
            forall|j: int| 0 <= j < k ==> (#[trigger] text@[i + j])@.contents == old@[j]@.contents,
        decreases n - k,
    {
        if !bytes_eq(&text[i + k].contents, &old[k].contents) {
            assert(!match_at(line_views(text@), line_views(old@), i as int)) by {
                assert(line_views(text@)[i + k as int].contents != line_views(old@)[
                    k as int
                ].contents);
            }
            return false;
        }
        k = k + 1;
    }
    assert(match_at(line_views(text@), line_views(old@), i as int)) by {
        assert forall|j: int| 0 <= j < old@.len() implies (#[trigger] line_views(text@)[
            i + j
        ]).contents == line_views(old@)[j].contents by {
            assert(text@[i + j]@.contents == old@[j]@.contents);
        }
    }
    true
}

/// The first position at which `old` matches in `text`, scanning forward
/// from the front.
fn find_match(text: &Vec<FileLine>, old: &Vec<FileLine>) -> (r: Option<usize>)
    ensures
        match r {
            Some(p) => first_match(line_views(text@), line_views(old@), 0) == Some(p as int),
            None => first_match(line_views(text@), line_views(old@), 0) == None::<int>,
        },
{
    let tn = text.len();
    let on = old.len();
    if on > tn {
        proof {
            assert forall|j: int| 0 <= j implies !(#[trigger] match_at(
                line_views(text@),
                line_views(old@),
                j,
            )) by {}
            lemma_first_match_none(line_views(text@), line_views(old@), 0);
        }
        return None;
    }
    let bound = tn - on;
    let mut i: usize = 0;
    while i <= bound
        invariant
            0 <= i <= bound + 1,
            bound == text@.len() - old@.len(),
            on == old@.len(),
            tn == text@.len(),
            forall|j: int| 0 <= j < i ==> !(#[trigger] match_at(
                line_views(text@),
                line_views(old@),
                j,
            )),
        decreases bound + 1 - i,
    {
        if block_matches_at(text, old, i) {
            proof {
                lemma_first_match_found(line_views(text@), line_views(old@), 0, i as int);
            }
            return Some(i);
        }
        i = i + 1;
    }
    proof {
        assert forall|j: int| 0 <= j implies !(#[trigger] match_at(
            line_views(text@),
            line_views(old@),
            j,
        )) by {
            if j < i {
            } else {
                assert(j + old@.len() > text@.len());
            }
        }
        lemma_first_match_none(line_views(text@), line_views(old@), 0);
    }
    None
}

/// Apply one change file's sections to the text, in order, each searched only
/// in the text after the previous section's match. On success the result is
/// the merged line sequence; on the first section whose old block has no
/// match, the whole application fails with that section's headline.
pub fn apply_changefile(weblines: Vec<FileLine>, chfilesections: Vec<ChangeFileSection>) -> (res:
    Result<Vec<FileLine>, NoMatchError>)
    ensures
        match spec_apply(line_views(weblines@), section_views(chfilesections@)) {
            Ok(out) => res matches Ok(v) && line_views(v@) == out,
            Err(h) => res matches Err(e) && e.headline@ == h,
        },
{
    let ghost t0 = line_views(weblines@);
    let ghost s0 = section_views(chfilesections@);
    let mut result: Vec<FileLine> = Vec::new();
    let mut cur = weblines;
    let mut sections = chfilesections;
    proof {
        assert(line_views(result@) + line_views(cur@) =~= line_views(cur@));
    }
    while sections.len() > 0
        invariant
            t0 == line_views(weblines@),
            s0 == section_views(chfilesections@),
            spec_apply(t0, s0) == (match spec_apply(
                line_views(cur@),
                section_views(sections@),
            ) {
                Ok(out) => Ok::<Seq<LineView>, LineView>(line_views(result@) + out),
                Err(h) => Err::<Seq<LineView>, LineView>(h),
            }),
        decreases sections@.len(),
    {
        let ghost secs_pre = section_views(sections@);
        let ghost cur_pre = line_views(cur@);
        let sec = sections.remove(0);
        let ghost secv = sec@;
        proof {
            assert(section_views(sections@) =~= secs_pre.drop_first());
            assert(secs_pre[0] == secv);
        }
        match find_match(&cur, &sec.oldlines) {
            None => {
                assert(spec_apply(cur_pre, secs_pre) == Err::<Seq<LineView>, LineView>(
                    secv.headline,
                ));
                return Err(NoMatchError { headline: sec.headline });
            },
            Some(p) => {
                proof {
                    lemma_first_match_is_match(cur_pre, secv.oldlines, 0);
                }
                let ChangeFileSection { headline: _, oldlines, newlines } = sec;
                let mut newlines = newlines;
                let mut mid = cur.split_off(p);
                let tail = mid.split_off(oldlines.len());
                let ghost result_pre = line_views(result@);
                result.append(&mut cur);
                result.append(&mut newlines);
                proof {
                    assert(line_views(result@) =~= result_pre + cur_pre.subrange(0, p as int)
                        + secv.newlines);
                }
                cur = tail;
                proof {
                    assert(line_views(cur@) =~= cur_pre.subrange(
                        p + secv.oldlines.len(),
                        cur_pre.len() as int,
                    ));
                    match spec_apply(line_views(cur@), section_views(sections@)) {
                        Ok(rest) => {
                            assert(spec_apply(cur_pre, secs_pre) == Ok::<Seq<LineView>, LineView>(
                                cur_pre.subrange(0, p as int) + secv.newlines + rest,
                            ));
                            assert(line_views(result@) + rest =~= result_pre + (cur_pre.subrange(
                                0,
                                p as int,
                            ) + secv.newlines + rest));
                        },
                        Err(h) => {
                            assert(spec_apply(cur_pre, secs_pre) == Err::<Seq<LineView>, LineView>(
                                h,
                            ));
                        },
                    }
                }
            },
        }
    }
    let ghost result_pre = line_views(result@);
    let ghost cur_fin = line_views(cur@);
    let mut remaining = cur;
    result.append(&mut remaining);
    proof {
        assert(section_views(sections@) =~= Seq::<SectionView>::empty());
        assert(spec_apply(cur_fin, section_views(sections@)) == Ok::<Seq<LineView>, LineView>(
            cur_fin,
        ));
        assert(line_views(result@) =~= result_pre + cur_fin);
    }
    Ok(result)
}

} // verus!
