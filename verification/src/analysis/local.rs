//! One file's analysis, in order: weave's refusals, the strict classification,
//! raw-text rules, then Git's line merges (of the whole file, the floor that
//! later steps cannot remove, and of each aligned region without a strict
//! reason). Every reason is kept; a caller only chooses how to show them.
//!
//! Git runs outside the library: `prepare` gives the regions that need a
//! line merge, the caller runs Git on them, and `analyze` takes the results.
use vstd::prelude::*;
use vstd::string::StringExecFns;
use crate::analysis::partition::{
    distinct_entity_appends, entity_appends, entity_parse, opt_part_views, part_subject, part_views,
    partition, partition_from, PartView, ThreePartitions,
};
use crate::analysis::raw::{
    all_sorted, analyze_regions, opt_region_views, region_list_views, regions_of, Region,
    RegionView,
};
use crate::analysis::upstream::{
    add_classified_reasons, all_reliable, conflict_views, opt_classified_views, refusal_reasons,
    same_text, strict_classification, strict_classification_of, strict_reasons, weave_conflict_list,
    weave_conflicts, weave_refusals,
    with_strict, Classified, ClassifiedView, EntityConflict, EntityConflictView,
};
use crate::error::Error;
use crate::merge::{inputs_refusal, validate_inputs, ConflictStyle};
use crate::reason::order::{normalize, normalized};
use crate::reason::{reason_views, Evidence, EvidenceView, Kind, Reason, ReasonView, Subject, SubjectView};

verus! {

/// Git's line merge of three texts: its output and whether it conflicted.
#[derive(Debug)]
pub struct LineMerge {
    pub content: String,
    pub conflict: bool,
}

pub struct LineMergeView {
    pub content: Seq<char>,
    pub conflict: bool,
}

impl View for LineMerge {
    type V = LineMergeView;

    open spec fn view(&self) -> LineMergeView {
        LineMergeView { content: self.content@, conflict: self.conflict }
    }
}

pub open spec fn opt_line_view(l: Option<LineMerge>) -> Option<LineMergeView> {
    match l {
        Some(x) => Some(x@),
        None => None,
    }
}

pub open spec fn line_views(s: Seq<Option<LineMerge>>) -> Seq<Option<LineMergeView>> {
    s.map_values(|l: Option<LineMerge>| opt_line_view(l))
}

/// What is known of one file before Git's line merges run.
#[derive(Debug)]
pub struct Prepared {
    pub base: String,
    pub ours: String,
    pub theirs: String,
    pub partitions: ThreePartitions,
    /// Reasons from weave and the strict rules, before any line merge.
    pub reasons: Vec<Reason>,
    pub weave_refused: bool,
    /// The aligned regions; each one without a reason needs a line merge.
    pub regions: Option<Vec<Region>>,
    /// Both sides only appended distinct new entities (asked for zdiff3 only).
    pub appends: bool,
}

/// The aligned regions match the three partitions one for one.
pub open spec fn prepared_wf(p: Prepared) -> bool {
    p.regions matches Some(rs) ==> (p.partitions.0 matches Some(b) && p.partitions.1 matches Some(o)
        && p.partitions.2 matches Some(t) && b@.len() == rs@.len() && o@.len() == rs@.len()
        && t@.len() == rs@.len())
}

/// The reasons and regions before any line merge.
pub open spec fn assessed(
    b: Seq<char>,
    o: Seq<char>,
    t: Seq<char>,
    parts: ThreePartitions,
    conflicts: Seq<EntityConflictView>,
    classified: Option<Seq<ClassifiedView>>,
) -> (Seq<ReasonView>, Option<Seq<RegionView>>) {
    regions_of(
        parts,
        o != b && t != b,
        strict_reasons(b, o, t, parts, classified, refusal_reasons(conflicts, parts)),
    )
}

/// Every reason holds exactly one piece of evidence.
pub open spec fn singles(rs: Seq<ReasonView>) -> bool {
    forall|j: int| 0 <= j < rs.len() ==> (#[trigger] rs[j]).evidence.len() == 1
}

proof fn lemma_with_strict_singles(rs: Seq<ReasonView>, cs: Seq<ClassifiedView>, parts: ThreePartitions, k: int)
    requires
        singles(rs),
    ensures
        singles(with_strict(rs, cs, parts, k)),
    decreases k,
{
    if k > 0 {
        lemma_with_strict_singles(rs, cs, parts, k - 1);
        let before = with_strict(rs, cs, parts, k - 1);
        assert forall|j: int| 0 <= j < with_strict(rs, cs, parts, k).len() implies (#[trigger] with_strict(
            rs,
            cs,
            parts,
            k,
        )[j]).evidence.len() == 1 by {
            if j < before.len() {
                assert(with_strict(rs, cs, parts, k)[j] == before[j]);
            }
        }
    }
}

proof fn lemma_singles_sorted(rs: Seq<ReasonView>)
    requires
        singles(rs),
    ensures
        all_sorted(rs),
{
}

proof fn lemma_strict_singles(
    b: Seq<char>,
    o: Seq<char>,
    t: Seq<char>,
    parts: ThreePartitions,
    classified: Option<Seq<ClassifiedView>>,
    rs: Seq<ReasonView>,
)
    requires
        singles(rs),
    ensures
        singles(strict_reasons(b, o, t, parts, classified, rs)),
{
    if let Some(cs) = classified {
        lemma_with_strict_singles(rs, cs, parts, cs.len() as int);
    }
    let r = strict_reasons(b, o, t, parts, classified, rs);
    assert forall|j: int| 0 <= j < r.len() implies (#[trigger] r[j]).evidence.len() == 1 by {
        if j < rs.len() && !(classified is Some && !(o == b || t == b) && all_reliable(parts)) {
            assert(r[j] == rs[j]);
        }
    }
}

proof fn lemma_regions_shape(parts: ThreePartitions, both_changed: bool, rs: Seq<ReasonView>)
    ensures
        regions_of(parts, both_changed, rs).1 matches Some(regions) ==> (parts.0 matches Some(b)
            && parts.1 matches Some(o) && parts.2 matches Some(t) && b@.len() == regions.len()
            && o@.len() == regions.len() && t@.len() == regions.len()),
{
    if let (Some(b), Some(o), Some(t)) = parts {
        let bv = part_views(b@);
        let ov = part_views(o@);
        let tv = part_views(t@);
        assert(crate::analysis::partition::part_keys(bv).len() == bv.len());
        assert(crate::analysis::partition::part_keys(ov).len() == ov.len());
        assert(crate::analysis::partition::part_keys(tv).len() == tv.len());
    }
}

/// The reasons and regions that weave's results, the partitions and the
/// classification give, before any line merge (exact over its arguments).
pub fn assess(
    base: String,
    ours: String,
    theirs: String,
    partitions: ThreePartitions,
    conflicts: &Vec<EntityConflict>,
    classified: &Option<Vec<Classified>>,
    appends: bool,
) -> (r: Prepared)
    ensures
        r.base@ == base@ && r.ours@ == ours@ && r.theirs@ == theirs@,
        r.partitions == partitions,
        (reason_views(r.reasons@), opt_region_views(r.regions)) == assessed(
            base@,
            ours@,
            theirs@,
            partitions,
            conflict_views(conflicts@),
            opt_classified_views(*classified),
        ),
        all_sorted(reason_views(r.reasons@)),
        r.weave_refused == (conflicts@.len() > 0),
        r.appends == appends,
        prepared_wf(r),
{
    let mut reasons = weave_refusals(conflicts, &partitions);
    proof {
        let rv = reason_views(reasons@);
        assert(singles(rv)) by {
            assert forall|j: int| 0 <= j < rv.len() implies (#[trigger] rv[j]).evidence.len() == 1 by {
                assert(rv[j] == refusal_reasons(conflict_views(conflicts@), partitions)[j]);
            }
        }
    }
    let ghost refusals = reason_views(reasons@);
    add_classified_reasons(base.as_str(), ours.as_str(), theirs.as_str(), &partitions, classified, &mut reasons);
    proof {
        lemma_strict_singles(base@, ours@, theirs@, partitions, opt_classified_views(*classified), refusals);
        lemma_singles_sorted(reason_views(reasons@));
        lemma_regions_shape(partitions, ours@ != base@ && theirs@ != base@, reason_views(reasons@));
    }
    let both_changed = !same_text(ours.as_str(), base.as_str()) && !same_text(theirs.as_str(), base.as_str());
    let regions = analyze_regions(&partitions, both_changed, &mut reasons);
    Prepared {
        base,
        ours,
        theirs,
        partitions,
        reasons,
        weave_refused: conflicts.len() > 0,
        regions,
        appends,
    }
}

/// What `prepare` gives for three texts: the texts themselves, and the
/// reasons and regions that `assess` gives for weave's and the grammar's
/// results, whatever those were.
pub open spec fn prepared_from(p: Prepared, base: Seq<char>, ours: Seq<char>, theirs: Seq<char>, style: ConflictStyle) -> bool {
    &&& p.base@ == base && p.ours@ == ours && p.theirs@ == theirs
    &&& exists|conflicts: Seq<EntityConflictView>, classified: Option<Seq<ClassifiedView>>|
        (reason_views(p.reasons@), opt_region_views(p.regions)) == #[trigger] assessed(
            base,
            ours,
            theirs,
            p.partitions,
            conflicts,
            classified,
        ) && p.weave_refused == (conflicts.len() > 0)
    &&& all_sorted(reason_views(p.reasons@))
    &&& prepared_wf(p)
    &&& p.appends ==> style == ConflictStyle::Zdiff3 && all_reliable(p.partitions) && base.is_prefix_of(ours)
        && base.is_prefix_of(theirs)
}

/// The grammar's partitions of the three texts.
pub open spec fn grammar_partitions(
    parts: ThreePartitions,
    base: Seq<char>,
    ours: Seq<char>,
    theirs: Seq<char>,
    path: Seq<char>,
) -> bool {
    &&& opt_part_views(parts.0) == partition_from(base, entity_parse(path, base))
    &&& opt_part_views(parts.1) == partition_from(ours, entity_parse(path, ours))
    &&& opt_part_views(parts.2) == partition_from(theirs, entity_parse(path, theirs))
}

/// What `prepare` gives for a path's three texts: the grammar's partitions,
/// and the reasons and regions that `assess` gives for weave's conflicts and,
/// where the strict policy reads it, weave's classification.
pub open spec fn prepared_exactly(
    p: Prepared,
    base: Seq<char>,
    ours: Seq<char>,
    theirs: Seq<char>,
    path: Seq<char>,
    style: ConflictStyle,
) -> bool {
    let conflicts = weave_conflict_list(base, ours, theirs, path);
    &&& prepared_from(p, base, ours, theirs, style)
    &&& grammar_partitions(p.partitions, base, ours, theirs, path)
    &&& (reason_views(p.reasons@), opt_region_views(p.regions)) == assessed(
        base,
        ours,
        theirs,
        p.partitions,
        conflicts,
        strict_classification_of(base, ours, theirs, path, p.partitions),
    )
    &&& p.weave_refused == (conflicts.len() > 0)
    &&& p.appends == (style == ConflictStyle::Zdiff3 && all_reliable(p.partitions) && entity_appends(
        base,
        ours,
        theirs,
        path,
    ))
}

/// Validates the input, then asks weave and the grammar for their results
/// and assesses them. Fails exactly when the input is refused; whatever weave
/// and the grammar give, the result is what `assess` gives for them.
pub fn prepare(
    base: &str,
    ours: &str,
    theirs: &str,
    path: &str,
    width: usize,
    style: ConflictStyle,
) -> (r: Result<Prepared, Error>)
    ensures
        match r {
            Err(e) => inputs_refusal([base, ours, theirs], width) == Some(e),
            Ok(p) => inputs_refusal([base, ours, theirs], width) is None && prepared_exactly(
                p,
                base@,
                ours@,
                theirs@,
                path@,
                style,
            ),
        },
{
    match validate_inputs([base, ours, theirs], width) {
        Err(e) => {
            return Err(e);
        },
        Ok(()) => {},
    }
    let conflicts = weave_conflicts(base, ours, theirs, path);
    let partitions = (partition(path, base), partition(path, ours), partition(path, theirs));
    let classified = strict_classification(base, ours, theirs, path, &partitions);
    let appends = style == ConflictStyle::Zdiff3 && partitions.0.is_some() && partitions.1.is_some()
        && partitions.2.is_some() && distinct_entity_appends(base, ours, theirs, path);
    let p = assess(
        String::from_str(base),
        String::from_str(ours),
        String::from_str(theirs),
        partitions,
        &conflicts,
        &classified,
        appends,
    );
    assert(assessed(base@, ours@, theirs@, p.partitions, conflict_views(conflicts@), opt_classified_views(classified))
        == (reason_views(p.reasons@), opt_region_views(p.regions)));
    Ok(p)
}

// ---------------------------------------------------------------------------
// After Git's line merges.
// ---------------------------------------------------------------------------

/// How one aligned region is shown: the three originals under its strict
/// reason, or Git's line merge of it.
#[derive(Debug)]
pub enum RegionMerge {
    Strict { index: usize, reason: Reason },
    Line(String),
}

pub enum RegionMergeView {
    Strict { index: nat, reason: ReasonView },
    Line(Seq<char>),
}

impl View for RegionMerge {
    type V = RegionMergeView;

    open spec fn view(&self) -> RegionMergeView {
        match self {
            RegionMerge::Strict { index, reason } => RegionMergeView::Strict {
                index: *index as nat,
                reason: reason@,
            },
            RegionMerge::Line(content) => RegionMergeView::Line(content@),
        }
    }
}

pub open spec fn merge_views(s: Seq<RegionMerge>) -> Seq<RegionMergeView> {
    s.map_values(|m: RegionMerge| m@)
}

pub open spec fn opt_merge_views(o: Option<Vec<RegionMerge>>) -> Option<Seq<RegionMergeView>> {
    match o {
        Some(v) => Some(merge_views(v@)),
        None => None,
    }
}

/// The finished analysis of one file; a renderer only reads it.
#[derive(Debug)]
pub struct LocalAnalysis {
    pub reasons: Vec<Reason>,
    pub partitions: ThreePartitions,
    pub line_content: String,
    pub line_conflict: bool,
    pub weave_refused: bool,
    pub regions: Option<Vec<RegionMerge>>,
    /// Only the compact display is allowed; no conflict is withdrawn.
    pub compact_appends: bool,
}

/// Every strict region points into all three partitions.
pub open spec fn analysis_wf(a: LocalAnalysis) -> bool {
    a.regions matches Some(rs) ==> (a.partitions.0 matches Some(b) && a.partitions.1 matches Some(o)
        && a.partitions.2 matches Some(t) && (forall|i: int|
        0 <= i < rs@.len() ==> (#[trigger] rs@[i]@ matches RegionMergeView::Strict { index, .. }
            ==> index < b@.len() && index < o@.len() && index < t@.len())))
}

pub open spec fn strict_below(m: RegionMergeView, n: nat) -> bool {
    m matches RegionMergeView::Strict { index, .. } ==> index < n
}

pub open spec fn rs_len(regions: Option<Vec<Region>>) -> nat {
    match regions {
        Some(rs) => rs@.len(),
        None => 0,
    }
}

/// Each region without a strict reason has its line merge.
pub open spec fn lines_complete(rs: Seq<RegionView>, lines: Seq<Option<LineMergeView>>) -> bool {
    lines.len() == rs.len() && forall|i: int| 0 <= i < rs.len() && (#[trigger] rs[i]).reason is None ==> lines[i] is Some
}

pub open spec fn line_reason(s: SubjectView) -> ReasonView {
    ReasonView {
        kind: Kind::LineConflict,
        subject: s,
        evidence: seq![EvidenceView::GitLineConflict],
    }
}

/// The line-conflict reasons of the first `k` regions.
pub open spec fn region_line_reasons(rs: Seq<RegionView>, lines: Seq<Option<LineMergeView>>, k: int) -> Seq<
    ReasonView,
>
    decreases k,
{
    if k <= 0 {
        seq![]
    } else {
        let before = region_line_reasons(rs, lines, k - 1);
        if rs[k - 1].reason is None && (lines[k - 1] matches Some(l) && l.conflict) {
            before.push(line_reason(part_subject(rs[k - 1].base)))
        } else {
            before
        }
    }
}

pub open spec fn region_merge(i: int, r: RegionView, l: Option<LineMergeView>) -> RegionMergeView {
    match r.reason {
        Some(x) => RegionMergeView::Strict { index: i as nat, reason: x },
        None => RegionMergeView::Line(
            match l {
                Some(l) => l.content,
                None => seq![],
            },
        ),
    }
}

/// Regions with a strict reason keep the three originals; the others take
/// Git's output, and a conflict there becomes a line-conflict reason.
pub fn analyze_region_lines(
    regions: &Vec<Region>,
    lines: &Vec<Option<LineMerge>>,
    reasons: &mut Vec<Reason>,
) -> (r: Vec<RegionMerge>)
    requires
        lines_complete(region_list_views(regions@), line_views(lines@)),
    ensures
        reason_views(final(reasons)@) == reason_views(old(reasons)@) + region_line_reasons(
            region_list_views(regions@),
            line_views(lines@),
            regions@.len() as int,
        ),
        merge_views(r@) == Seq::new(
            regions@.len(),
            |i: int| region_merge(i, region_list_views(regions@)[i], line_views(lines@)[i]),
        ),
{
    let ghost rv = region_list_views(regions@);
    let ghost lv = line_views(lines@);
    let ghost start = reason_views(reasons@);
    let mut out: Vec<RegionMerge> = Vec::new();
    let mut i: usize = 0;
    while i < regions.len()
        invariant
            i <= regions.len(),
            rv == region_list_views(regions@),
            lv == line_views(lines@),
            lines_complete(rv, lv),
            reason_views(reasons@) == start + region_line_reasons(rv, lv, i as int),
            merge_views(out@) == Seq::new(i as nat, |k: int| region_merge(k, rv[k], lv[k])),
        decreases regions.len() - i,
    {
        let region = &regions[i];
        assert(rv[i as int] == region@);
        let ghost before_out = out@;
        let ghost before_reasons = reasons@;
        match &region.reason {
            Some(reason) => {
                out.push(RegionMerge::Strict { index: i, reason: reason.copy() });
            },
            None => {
                assert(lv[i as int] is Some);
                match &lines[i] {
                    Some(line) => {
                        assert(lv[i as int] == Some(line@));
                        if line.conflict {
                            reasons.push(Reason::new(Kind::LineConflict, region.base.subject(), Evidence::GitLineConflict));
                            assert(reason_views(reasons@) =~= reason_views(before_reasons).push(
                                line_reason(part_subject(rv[i as int].base)),
                            ));
                        }
                        out.push(RegionMerge::Line(line.content.clone()));
                    },
                    None => {
                        out.push(RegionMerge::Line(String::new()));
                    },
                }
            },
        }
        assert(merge_views(out@) =~= merge_views(before_out).push(region_merge(i as int, rv[i as int], lv[i as int])));
        assert(Seq::new((i + 1) as nat, |k: int| region_merge(k, rv[k], lv[k])) =~= Seq::new(
            i as nat,
            |k: int| region_merge(k, rv[k], lv[k]),
        ).push(region_merge(i as int, rv[i as int], lv[i as int])));
        i += 1;
    }
    out
}

/// The reasons before they are merged by key: those of `prepare`, Git's
/// whole-file conflict, then each region's line conflicts.
pub open spec fn collected_reasons(
    prepared: Seq<ReasonView>,
    whole_conflict: bool,
    regions: Option<Seq<RegionView>>,
    lines: Seq<Option<LineMergeView>>,
) -> Seq<ReasonView> {
    let with_whole = if whole_conflict {
        prepared.push(line_reason(SubjectView::File))
    } else {
        prepared
    };
    match regions {
        Some(rs) => with_whole + region_line_reasons(rs, lines, rs.len() as int),
        None => with_whole,
    }
}

pub open spec fn layout_kinds_only(rs: Seq<ReasonView>) -> bool {
    forall|j: int| 0 <= j < rs.len() ==> (#[trigger] rs[j]).kind == Kind::LineConflict || rs[j].kind == Kind::LayoutChanged
}

/// The line merges that `analyze` needs: one per region without a strict
/// reason, and none where no region is aligned.
pub open spec fn lines_fit(p: Prepared, lines: Seq<Option<LineMergeView>>) -> bool {
    match p.regions {
        Some(rs) => lines_complete(region_list_views(rs@), lines),
        None => true,
    }
}

fn kinds_only_layout(reasons: &Vec<Reason>) -> (r: bool)
    ensures
        r == layout_kinds_only(reason_views(reasons@)),
{
    let ghost rv = reason_views(reasons@);
    let mut i: usize = 0;
    while i < reasons.len()
        invariant
            i <= reasons.len(),
            rv == reason_views(reasons@),
            forall|j: int| 0 <= j < i ==> (#[trigger] rv[j]).kind == Kind::LineConflict || rv[j].kind == Kind::LayoutChanged,
        decreases reasons.len() - i,
    {
        assert(rv[i as int] == reasons@[i as int]@);
        if !(reasons[i].kind == Kind::LineConflict || reasons[i].kind == Kind::LayoutChanged) {
            return false;
        }
        i += 1;
    }
    true
}

pub open spec fn merged_regions(regions: Option<Vec<Region>>, lines: Seq<Option<LineMergeView>>) -> Option<
    Seq<RegionMergeView>,
> {
    match regions {
        Some(rs) => Some(
            Seq::new(rs@.len(), |i: int| region_merge(i, region_list_views(rs@)[i], lines[i])),
        ),
        None => None,
    }
}

/// Only this layout change may use Git's compact zdiff3 output: Git found a
/// conflict, every reason is a line or layout one, and both sides appended
/// distinct new entities.
pub open spec fn compact_of(
    p: Prepared,
    whole_conflict: bool,
    lines: Seq<Option<LineMergeView>>,
    style: ConflictStyle,
) -> bool {
    style == ConflictStyle::Zdiff3 && whole_conflict && all_reliable(p.partitions) && layout_kinds_only(
        collected_reasons(reason_views(p.reasons@), whole_conflict, opt_region_views(p.regions), lines),
    ) && p.appends
}

/// Completes the analysis with Git's line merges: `whole` of the whole file
/// and `lines` of the regions. Git's whole-file conflict is a floor that the
/// later steps never remove; the reasons are merged by key at the end.
pub fn analyze(
    prepared: Prepared,
    whole: LineMerge,
    lines: &Vec<Option<LineMerge>>,
    style: ConflictStyle,
) -> (r: LocalAnalysis)
    requires
        lines_fit(prepared, line_views(lines@)),
        prepared_wf(prepared),
    ensures
        normalized(
            collected_reasons(
                reason_views(prepared.reasons@),
                whole.conflict,
                opt_region_views(prepared.regions),
                line_views(lines@),
            ),
            reason_views(r.reasons@),
        ),
        r.partitions == prepared.partitions,
        r.line_content@ == whole.content@,
        r.line_conflict == whole.conflict,
        r.weave_refused == prepared.weave_refused,
        opt_merge_views(r.regions) == merged_regions(prepared.regions, line_views(lines@)),
        r.compact_appends == compact_of(prepared, whole.conflict, line_views(lines@), style),
        analysis_wf(r),
{
    let Prepared { base: _, ours: _, theirs: _, partitions, reasons, weave_refused, regions, appends } =
        prepared;
    let mut reasons = reasons;
    let ghost prepared_reasons = reason_views(reasons@);
    if whole.conflict {
        reasons.push(Reason::new(Kind::LineConflict, Subject::File, Evidence::GitLineConflict));
        assert(reason_views(reasons@) =~= prepared_reasons.push(line_reason(SubjectView::File)));
    }
    let ghost with_whole = reason_views(reasons@);
    let merged = match &regions {
        Some(rs) => {
            let ms = analyze_region_lines(rs, lines, &mut reasons);
            proof {
                assert(merge_views(ms@).len() == ms@.len());
                assert forall|i: int| 0 <= i < ms@.len() implies strict_below(#[trigger] ms@[i]@, rs@.len()) by {
                    assert(ms@[i]@ == merge_views(ms@)[i]);
                    assert(merge_views(ms@)[i] == region_merge(i, region_list_views(rs@)[i], line_views(lines@)[i]));
                }
            }
            Some(ms)
        },
        None => None,
    };
    let compact = style == ConflictStyle::Zdiff3 && whole.conflict && partitions.0.is_some()
        && partitions.1.is_some() && partitions.2.is_some() && kinds_only_layout(&reasons) && appends;
    let ghost collected = reason_views(reasons@);
    assert(collected == collected_reasons(prepared_reasons, whole.conflict, opt_region_views(regions), line_views(lines@)));
    normalize(&mut reasons);
    let r = LocalAnalysis {
        reasons,
        partitions,
        line_content: whole.content,
        line_conflict: whole.conflict,
        weave_refused,
        regions: merged,
        compact_appends: compact,
    };
    proof {
        if let Some(ms) = &r.regions {
            assert forall|i: int| 0 <= i < ms@.len() implies (#[trigger] ms@[i]@ matches RegionMergeView::Strict { index, .. }
                ==> index < rs_len(regions)) by {
                assert(strict_below(ms@[i]@, rs_len(regions)));
            }
        }
    }
    r
}

impl Prepared {
    /// Whether the aligned regions match the three partitions one for one.
    pub fn is_well_formed(&self) -> (r: bool)
        ensures
            r == prepared_wf(*self),
    {
        match &self.regions {
            None => true,
            Some(rs) => match (&self.partitions.0, &self.partitions.1, &self.partitions.2) {
                (Some(b), Some(o), Some(t)) => b.len() == rs.len() && o.len() == rs.len() && t.len() == rs.len(),
                _ => false,
            },
        }
    }

    /// Whether `lines` holds a line merge for each region that needs one.
    pub fn accepts(&self, lines: &Vec<Option<LineMerge>>) -> (r: bool)
        ensures
            r == lines_fit(*self, line_views(lines@)),
    {
        match &self.regions {
            None => true,
            Some(rs) => {
                if lines.len() != rs.len() {
                    assert(line_views(lines@).len() != region_list_views(rs@).len());
                    return false;
                }
                let ghost rv = region_list_views(rs@);
                let ghost lv = line_views(lines@);
                let mut i: usize = 0;
                while i < rs.len()
                    invariant
                        i <= rs.len(),
                        lines.len() == rs.len(),
                        self.regions == Some(*rs),
                        rv == region_list_views(rs@),
                        lv == line_views(lines@),
                        forall|k: int| 0 <= k < i && (#[trigger] rv[k]).reason is None ==> lv[k] is Some,
                    decreases rs.len() - i,
                {
                    assert(rv[i as int] == rs@[i as int]@);
                    assert(lv[i as int] == opt_line_view(lines@[i as int]));
                    if rs[i].reason.is_none() && lines[i].is_none() {
                        assert(rv[i as int].reason is None && lv[i as int] is None);
                        return false;
                    }
                    i += 1;
                }
                true
            },
        }
    }
}

impl LocalAnalysis {
    /// The three originals of an aligned region (only strict regions ask).
    pub fn region_texts(&self, index: usize) -> (r: (String, String, String))
        requires
            self.partitions.0 matches Some(b) && index < b@.len(),
            self.partitions.1 matches Some(o) && index < o@.len(),
            self.partitions.2 matches Some(t) && index < t@.len(),
        ensures
            self.partitions.0 matches Some(b) && r.0@ == b@[index as int].text@,
            self.partitions.1 matches Some(o) && r.1@ == o@[index as int].text@,
            self.partitions.2 matches Some(t) && r.2@ == t@[index as int].text@,
    {
        match (&self.partitions.0, &self.partitions.1, &self.partitions.2) {
            (Some(b), Some(o), Some(t)) => (
                b[index].text.clone(),
                o[index].text.clone(),
                t[index].text.clone(),
            ),
            _ => (String::new(), String::new(), String::new()),
        }
    }
}

// ---------------------------------------------------------------------------
// Git's line merge: how it is asked for and what its answer means.
// ---------------------------------------------------------------------------

/// The arguments of `git merge-file -p` for three temporary files given
/// after them (ours, base, theirs): conflicts shown in the style asked for,
/// markers of the width asked for, each labelled with its side.
pub open spec fn line_merge_arguments_of(labels: crate::merge::LabelsView, width: nat, style: ConflictStyle) -> Seq<
    Seq<char>,
> {
    seq![
        "-c"@,
        "merge.conflictStyle=merge"@,
        "merge-file"@,
        "-p"@,
        if style == ConflictStyle::Diff3 {
            "--diff3"@
        } else {
            "--zdiff3"@
        },
        "--marker-size="@ + crate::text::decimal(width),
        "-L"@,
        "ours: "@ + crate::merge::safe_chars(labels.ours),
        "-L"@,
        "base: "@ + crate::merge::safe_chars(labels.base),
        "-L"@,
        "theirs: "@ + crate::merge::safe_chars(labels.theirs),
    ]
}

fn labelled(prefix: &str, label: &String) -> (r: String)
    ensures
        r@ == prefix@ + crate::merge::safe_chars(label@),
{
    let mut s = String::from_str(prefix);
    let l = crate::merge::safe_label(label.as_str());
    s.append(l.as_str());
    s
}

pub fn line_merge_arguments(labels: &crate::merge::Labels, width: usize, style: ConflictStyle) -> (r: Vec<String>)
    ensures
        crate::text::string_views(r@) == line_merge_arguments_of(labels@, width as nat, style),
{
    let mut size = String::from_str("--marker-size=");
    let n = crate::text::decimal_string(width);
    size.append(n.as_str());
    let v = vec![
        String::from_str("-c"),
        String::from_str("merge.conflictStyle=merge"),
        String::from_str("merge-file"),
        String::from_str("-p"),
        String::from_str(
            match style {
                ConflictStyle::Diff3 => "--diff3",
                ConflictStyle::Zdiff3 => "--zdiff3",
            },
        ),
        size,
        String::from_str("-L"),
        labelled("ours: ", &labels.ours),
        String::from_str("-L"),
        labelled("base: ", &labels.base),
        String::from_str("-L"),
        labelled("theirs: ", &labels.theirs),
    ];
    assert(crate::text::string_views(v@) =~= line_merge_arguments_of(labels@, width as nat, style));
    v
}

/// What `git merge-file -p` answered: its output, conflicted where it
/// exited with a count of conflicts (1 to 127); `None` where it failed.
pub fn line_merge_result(code: Option<i32>, stdout: &[u8]) -> (r: Option<Result<LineMerge, Error>>)
    ensures
        match code {
            Some(c) => if 0 <= c <= 127 {
                if vstd::utf8::valid_utf8(stdout@) {
                    r matches Some(Ok(m)) && m.content@ == vstd::utf8::decode_utf8(stdout@) && m.conflict == (c != 0)
                } else {
                    r == Some(Err::<LineMerge, Error>(Error::NotUtf8))
                }
            } else {
                r is None
            },
            None => r is None,
        },
{
    match code {
        Some(c) => {
            if 0 <= c && c <= 127 {
                match crate::merge::decode_text(stdout) {
                    Some(content) => Some(Ok(LineMerge { content, conflict: c != 0 })),
                    None => Some(Err(Error::NotUtf8)),
                }
            } else {
                None
            }
        },
        None => None,
    }
}

// ---------------------------------------------------------------------------
// Laws.
// ---------------------------------------------------------------------------

/// Git's conflict on the whole file is a lower bound: whatever the prepared
/// reasons and the regions' line merges, the normalized reasons keep a line
/// conflict on the file with Git's evidence.
pub proof fn law_line_conflict_kept(
    prepared: Seq<ReasonView>,
    regions: Option<Seq<RegionView>>,
    lines: Seq<Option<LineMergeView>>,
    out: Seq<ReasonView>,
)
    requires
        normalized(collected_reasons(prepared, true, regions, lines), out),
    ensures
        exists|i: int|
            0 <= i < out.len() && out[i].kind == Kind::LineConflict && out[i].subject == SubjectView::File
                && #[trigger] out[i].evidence.contains(EvidenceView::GitLineConflict),
{
    let input = collected_reasons(prepared, true, regions, lines);
    let with_whole = prepared.push(line_reason(SubjectView::File));
    let j = prepared.len() as int;
    assert(input[j] == line_reason(SubjectView::File)) by {
        match regions {
            Some(rs) => {
                assert(input == with_whole + region_line_reasons(rs, lines, rs.len() as int));
                assert(input[j] == with_whole[j]);
            },
            None => {},
        }
    }
    assert(j < input.len()) by {
        match regions {
            Some(rs) => {
                assert(input == with_whole + region_line_reasons(rs, lines, rs.len() as int));
            },
            None => {},
        }
    }
    assert(input[j].evidence[0] == EvidenceView::GitLineConflict);
    assert(input[j].evidence.contains(EvidenceView::GitLineConflict));
    assert(input[j].kind == Kind::LineConflict && input[j].subject == SubjectView::File);
    assert(crate::reason::order::has_key(input, Kind::LineConflict, SubjectView::File));
    assert(crate::reason::order::has_key(out, Kind::LineConflict, SubjectView::File));
    let i = choose|i: int| 0 <= i < out.len() && out[i].kind == Kind::LineConflict && #[trigger] out[i].subject == SubjectView::File;
    assert(crate::reason::order::grouped_evidence(input, Kind::LineConflict, SubjectView::File, EvidenceView::GitLineConflict));
    assert(out[i].evidence.contains(EvidenceView::GitLineConflict));
}

} // verus!
