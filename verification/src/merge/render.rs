//! Chooses the display of a finished analysis; it only reads the reasons and
//! never decides whether a conflict exists.
use vstd::prelude::*;
use vstd::string::StringExecFns;
use crate::analysis::local::{opt_merge_views, merge_views, LocalAnalysis, RegionMerge, RegionMergeView, analysis_wf};
use crate::analysis::partition::ThreePartitions;
use crate::merge::conflict::{box_text, conflict_box};
use crate::merge::{Labels, LabelsView};
use crate::reason::display::{reason_summary, reasons_summary, summaries};
use crate::reason::{reason_views, ReasonView};

verus! {

/// The three originals of aligned part `i`.
pub open spec fn part_texts(parts: ThreePartitions, i: int) -> (Seq<char>, Seq<char>, Seq<char>) {
    match parts {
        (Some(b), Some(o), Some(t)) => (b@[i].text@, o@[i].text@, t@[i].text@),
        _ => (seq![], seq![], seq![]),
    }
}

/// How one region is shown: a box of its three originals under its strict
/// reason, or Git's line merge of it.
pub open spec fn region_piece(parts: ThreePartitions, m: RegionMergeView, labels: LabelsView, width: nat) -> Seq<
    char,
> {
    match m {
        RegionMergeView::Strict { index, reason } => {
            let texts = part_texts(parts, index as int);
            box_text(texts.0, texts.1, texts.2, labels, width, reason_summary(reason))
        },
        RegionMergeView::Line(content) => content,
    }
}

pub open spec fn pieces(parts: ThreePartitions, ms: Seq<RegionMergeView>, labels: LabelsView, width: nat) -> Seq<
    char,
>
    decreases ms.len(),
{
    if ms.len() == 0 {
        seq![]
    } else {
        pieces(parts, ms.drop_last(), labels, width) + region_piece(parts, ms.last(), labels, width)
    }
}

pub open spec fn any_strict(ms: Seq<RegionMergeView>) -> bool {
    exists|i: int| 0 <= i < ms.len() && (#[trigger] ms[i]) is Strict
}

/// The shown text. Regions are shown one by one only when some region has a
/// strict reason and neither Git's whole-file merge nor weave refused: a
/// region display must not hide a whole-file conflict, and a refusal may span
/// several regions. Otherwise Git's output stands when nothing but its own
/// conflict (or the compact append case) is there; else one box holds the
/// three texts under every reason.
pub open spec fn shown(
    line_conflict: bool,
    weave_refused: bool,
    regions: Option<Seq<RegionMergeView>>,
    parts: ThreePartitions,
    reasons: Seq<ReasonView>,
    line_content: Seq<char>,
    compact: bool,
    texts: (Seq<char>, Seq<char>, Seq<char>),
    labels: LabelsView,
    width: nat,
) -> Seq<char> {
    if !line_conflict && !weave_refused && (regions matches Some(ms) && any_strict(ms)) {
        pieces(parts, regions->0, labels, width)
    } else if reasons.len() == 0 || (reasons.len() == 1 && line_conflict) || compact {
        line_content
    } else {
        box_text(texts.0, texts.1, texts.2, labels, width, reasons_summary(reasons))
    }
}

fn has_strict(ms: &Vec<RegionMerge>) -> (r: bool)
    ensures
        r == any_strict(merge_views(ms@)),
{
    let mut i: usize = 0;
    while i < ms.len()
        invariant
            i <= ms.len(),
            forall|k: int| 0 <= k < i ==> !((#[trigger] merge_views(ms@)[k]) is Strict),
        decreases ms.len() - i,
    {
        assert(merge_views(ms@)[i as int] == ms@[i as int]@);
        if let RegionMerge::Strict { .. } = &ms[i] {
            return true;
        }
        i += 1;
    }
    false
}

/// Renders a finished analysis of `texts` (base, ours, theirs).
pub fn render(analysis: &LocalAnalysis, texts: [&str; 3], labels: &Labels, width: usize) -> (r: String)
    requires
        analysis_wf(*analysis),
    ensures
        r@ == shown(
            analysis.line_conflict,
            analysis.weave_refused,
            opt_merge_views(analysis.regions),
            analysis.partitions,
            reason_views(analysis.reasons@),
            analysis.line_content@,
            analysis.compact_appends,
            (texts[0]@, texts[1]@, texts[2]@),
            labels@,
            width as nat,
        ),
{
    if !analysis.line_conflict && !analysis.weave_refused {
        if let Some(ms) = &analysis.regions {
            if has_strict(ms) {
                let ghost mv = merge_views(ms@);
                let mut out = String::new();
                let mut i: usize = 0;
                while i < ms.len()
                    invariant
                        i <= ms.len(),
                        mv == merge_views(ms@),
                        analysis_wf(*analysis),
                        analysis.regions == Some(*ms),
                        out@ == pieces(analysis.partitions, mv.take(i as int), labels@, width as nat),
                    decreases ms.len() - i,
                {
                    assert(mv[i as int] == ms@[i as int]@);
                    match &ms[i] {
                        RegionMerge::Strict { index, reason } => {
                            let (b, o, t) = analysis.region_texts(*index);
                            let summary = reason.summary();
                            let piece = conflict_box(b.as_str(), o.as_str(), t.as_str(), labels, width, summary.as_str());
                            out.append(piece.as_str());
                        },
                        RegionMerge::Line(content) => {
                            out.append(content.as_str());
                        },
                    }
                    assert(mv.take(i + 1).drop_last() =~= mv.take(i as int));
                    i += 1;
                }
                assert(mv.take(ms.len() as int) =~= mv);
                return out;
            }
        }
    }
    if analysis.reasons.len() == 0 || (analysis.reasons.len() == 1 && analysis.line_conflict)
        || analysis.compact_appends {
        return analysis.line_content.clone();
    }
    let summary = summaries(analysis.reasons.as_slice());
    conflict_box(texts[0], texts[1], texts[2], labels, width, summary.as_str())
}

} // verus!
