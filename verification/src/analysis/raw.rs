//! Raw-text rules: a changed layout, regions that both sides changed outside
//! weave's view, and notes on identical edits to entities already refused.
use vstd::prelude::*;
use crate::analysis::partition::{part_subject, part_views, same_keys, Part, PartView, ThreePartitions, part_keys};
use crate::reason::order::{evidence_sorted, insert_evidence, lemma_evidence_sets_unique};
use crate::reason::{
    evidence_views, reason_views, Evidence, EvidenceView, Kind, Reason, ReasonView, Subject,
    SubjectView,
};

verus! {

/// The three versions of one aligned part, and the strict reason, if any,
/// that the raw text or an entity decision gives it.
#[derive(Debug)]
pub struct Region {
    pub base: Part,
    pub ours: Part,
    pub theirs: Part,
    pub reason: Option<Reason>,
}

pub struct RegionView {
    pub base: PartView,
    pub ours: PartView,
    pub theirs: PartView,
    pub reason: Option<ReasonView>,
}

pub open spec fn opt_reason_view(r: Option<Reason>) -> Option<ReasonView> {
    match r {
        Some(x) => Some(x@),
        None => None,
    }
}

impl View for Region {
    type V = RegionView;

    open spec fn view(&self) -> RegionView {
        RegionView {
            base: self.base@,
            ours: self.ours@,
            theirs: self.theirs@,
            reason: opt_reason_view(self.reason),
        }
    }
}

pub open spec fn region_list_views(s: Seq<Region>) -> Seq<RegionView> {
    s.map_values(|r: Region| r@)
}

/// Every reason's evidence is strictly ordered.
pub open spec fn all_sorted(rs: Seq<ReasonView>) -> bool {
    forall|j: int| 0 <= j < rs.len() ==> evidence_sorted(#[trigger] rs[j].evidence)
}

/// The position of the first reason with this key, or -1.
pub open spec fn first_key(rs: Seq<ReasonView>, kind: Kind, s: SubjectView) -> int
    decreases rs.len(),
{
    if rs.len() == 0 {
        -1
    } else if first_key(rs.drop_last(), kind, s) >= 0 {
        first_key(rs.drop_last(), kind, s)
    } else if rs.last().kind == kind && rs.last().subject == s {
        rs.len() - 1
    } else {
        -1
    }
}

/// The ordered evidence set `s` with `e` added.
pub open spec fn with_evidence(s: Seq<EvidenceView>, e: EvidenceView) -> Seq<EvidenceView> {
    choose|n: Seq<EvidenceView>|
        evidence_sorted(n) && forall|x: EvidenceView| #[trigger] n.contains(x) <==> (s.contains(x) || x == e)
}

/// A new reason for a region that both sides changed.
pub open spec fn raw_reason(b: PartView, o: PartView, t: PartView) -> ReasonView {
    ReasonView {
        kind: if b.entity {
            Kind::EntityConflict
        } else {
            Kind::NonEntityConflict
        },
        subject: part_subject(b),
        evidence: seq![
            if b.entity && o.text == t.text {
                EvidenceView::IdenticalEdits
            } else {
                EvidenceView::RawBothChanged
            },
        ],
    }
}

/// The reasons after recording one aligned part, and the part's own reason:
/// an entity reason with its subject is reused (noting identical edits when
/// both sides made the same change); otherwise a region changed on both
/// sides gets a reason of its own.
pub open spec fn record_step(b: PartView, o: PartView, t: PartView, rs: Seq<ReasonView>) -> (
    Seq<ReasonView>,
    Option<ReasonView>,
) {
    let j = first_key(rs, Kind::EntityConflict, part_subject(b));
    if j >= 0 {
        let r = rs[j];
        let r2 = if b.text != o.text && o.text == t.text {
            ReasonView {
                kind: r.kind,
                subject: r.subject,
                evidence: with_evidence(r.evidence, EvidenceView::IdenticalEdits),
            }
        } else {
            r
        };
        (rs.update(j, r2), Some(r2))
    } else if b.text == o.text || b.text == t.text {
        (rs, None)
    } else {
        (rs.push(raw_reason(b, o, t)), Some(raw_reason(b, o, t)))
    }
}

proof fn lemma_first_key(rs: Seq<ReasonView>, kind: Kind, s: SubjectView)
    ensures
        -1 <= first_key(rs, kind, s) < rs.len(),
        first_key(rs, kind, s) >= 0 ==> rs[first_key(rs, kind, s)].kind == kind && rs[first_key(
            rs,
            kind,
            s,
        )].subject == s,
        forall|k: int|
            0 <= k < rs.len() && (first_key(rs, kind, s) < 0 || k < first_key(rs, kind, s)) ==> !(
            #[trigger] rs[k].kind == kind && rs[k].subject == s),
    decreases rs.len(),
{
    if rs.len() > 0 {
        lemma_first_key(rs.drop_last(), kind, s);
        assert forall|k: int|
            0 <= k < rs.len() && (first_key(rs, kind, s) < 0 || k < first_key(rs, kind, s)) implies !(
            #[trigger] rs[k].kind == kind && rs[k].subject == s) by {
            if k < rs.len() - 1 {
                assert(rs.drop_last()[k] == rs[k]);
            }
        }
    }
}

fn first_entity_reason(reasons: &Vec<Reason>, subject: &Subject) -> (r: Option<usize>)
    ensures
        match r {
            Some(j) => first_key(reason_views(reasons@), Kind::EntityConflict, subject@) == j,
            None => first_key(reason_views(reasons@), Kind::EntityConflict, subject@) < 0,
        },
{
    let ghost rv = reason_views(reasons@);
    proof {
        lemma_first_key(rv, Kind::EntityConflict, subject@);
    }
    let mut i: usize = 0;
    while i < reasons.len()
        invariant
            i <= reasons.len(),
            rv == reason_views(reasons@),
            forall|k: int| 0 <= k < i ==> !(#[trigger] rv[k].kind == Kind::EntityConflict && rv[k].subject == subject@),
            -1 <= first_key(rv, Kind::EntityConflict, subject@) < rv.len(),
            first_key(rv, Kind::EntityConflict, subject@) >= 0 ==> rv[first_key(rv, Kind::EntityConflict, subject@)].kind == Kind::EntityConflict
                && rv[first_key(rv, Kind::EntityConflict, subject@)].subject == subject@,
            forall|k: int|
                0 <= k < rv.len() && (first_key(rv, Kind::EntityConflict, subject@) < 0 || k < first_key(rv, Kind::EntityConflict, subject@)) ==> !(
                #[trigger] rv[k].kind == Kind::EntityConflict && rv[k].subject == subject@),
        decreases reasons.len() - i,
    {
        assert(rv[i as int] == reasons@[i as int]@);
        if reasons[i].kind == Kind::EntityConflict && reasons[i].subject.same(subject) {
            assert(rv[i as int].kind == Kind::EntityConflict && rv[i as int].subject == subject@);
            return Some(i);
        }
        i += 1;
    }
    None
}

proof fn lemma_single_sorted(e: EvidenceView)
    ensures
        evidence_sorted(seq![e]),
{
}

/// Reuse an entity decision, or record raw changes in an uncovered region.
/// weave normalizes entity text and does not classify the text between them.
pub fn record_part_conflict(base: &Part, ours: &Part, theirs: &Part, reasons: &mut Vec<Reason>) -> (r:
    Option<Reason>)
    requires
        all_sorted(reason_views(old(reasons)@)),
    ensures
        (reason_views(final(reasons)@), opt_reason_view(r)) == record_step(
            base@,
            ours@,
            theirs@,
            reason_views(old(reasons)@),
        ),
        all_sorted(reason_views(final(reasons)@)),
{
    let ghost rv = reason_views(reasons@);
    let subject = base.subject();
    proof {
        lemma_first_key(rv, Kind::EntityConflict, subject@);
    }
    match first_entity_reason(reasons, &subject) {
        Some(j) => {
            assert(rv[j as int] == reasons@[j as int]@);
            if !(base.text == ours.text) && ours.text == theirs.text {
                let mut reason = reasons.remove(j);
                let ghost old_ev = evidence_views(reason.evidence@);
                assert(old_ev == rv[j as int].evidence);
                insert_evidence(&mut reason.evidence, Evidence::IdenticalEdits);
                proof {
                    let n = evidence_views(reason.evidence@);
                    assert(evidence_sorted(n) && forall|x: EvidenceView| #[trigger] n.contains(x) <==> (old_ev.contains(x) || x == EvidenceView::IdenticalEdits));
                    let w = with_evidence(old_ev, EvidenceView::IdenticalEdits);
                    lemma_evidence_sets_unique(n, w);
                }
                let copy = reason.copy();
                let ghost removed = reasons@;
                reasons.insert(j, reason);
                assert(reason_views(reasons@) =~= rv.update(j as int, copy@));
                Some(copy)
            } else {
                Some(reasons[j].copy())
            }
        },
        None => {
            if base.text == ours.text || base.text == theirs.text {
                return None;
            }
            let evidence = if base.entity && ours.text == theirs.text {
                Evidence::IdenticalEdits
            } else {
                Evidence::RawBothChanged
            };
            let kind = if base.entity {
                Kind::EntityConflict
            } else {
                Kind::NonEntityConflict
            };
            let reason = Reason::new(kind, subject, evidence);
            let copy = reason.copy();
            proof {
                lemma_single_sorted(copy@.evidence[0]);
            }
            reasons.push(reason);
            assert(reason_views(reasons@) =~= rv.push(copy@));
            Some(copy)
        },
    }
}

/// The first `k` aligned parts recorded in order: the reasons after them and
/// each part's own reason.
pub open spec fn record_all(
    b: Seq<PartView>,
    o: Seq<PartView>,
    t: Seq<PartView>,
    rs: Seq<ReasonView>,
    k: int,
) -> (Seq<ReasonView>, Seq<Option<ReasonView>>)
    decreases k,
{
    if k <= 0 {
        (rs, seq![])
    } else {
        let prev = record_all(b, o, t, rs, k - 1);
        let step = record_step(b[k - 1], o[k - 1], t[k - 1], prev.0);
        (step.0, prev.1.push(step.1))
    }
}

pub open spec fn layout_reason() -> ReasonView {
    ReasonView {
        kind: Kind::LayoutChanged,
        subject: SubjectView::File,
        evidence: seq![EvidenceView::LayoutChanged],
    }
}

pub open spec fn aligned(b: Seq<PartView>, o: Seq<PartView>, t: Seq<PartView>) -> bool {
    part_keys(b) == part_keys(o) && part_keys(b) == part_keys(t)
}

/// The reasons and the aligned regions: without three reliable partitions
/// no range is guessed; a changed layout blocks when both sides changed the
/// file; aligned parts are recorded one by one.
pub open spec fn regions_of(parts: ThreePartitions, both_changed: bool, rs: Seq<ReasonView>) -> (
    Seq<ReasonView>,
    Option<Seq<RegionView>>,
) {
    match parts {
        (Some(b), Some(o), Some(t)) => {
            let bv = part_views(b@);
            let ov = part_views(o@);
            let tv = part_views(t@);
            if !aligned(bv, ov, tv) {
                (
                    if both_changed {
                        rs.push(layout_reason())
                    } else {
                        rs
                    },
                    None,
                )
            } else {
                let rec = record_all(bv, ov, tv, rs, bv.len() as int);
                (
                    rec.0,
                    Some(
                        Seq::new(
                            bv.len(),
                            |i: int|
                                RegionView {
                                    base: bv[i],
                                    ours: ov[i],
                                    theirs: tv[i],
                                    reason: rec.1[i],
                                },
                        ),
                    ),
                )
            }
        },
        _ => (rs, None),
    }
}

pub open spec fn opt_region_views(r: Option<Vec<Region>>) -> Option<Seq<RegionView>> {
    match r {
        Some(v) => Some(region_list_views(v@)),
        None => None,
    }
}

proof fn lemma_record_len(b: Seq<PartView>, o: Seq<PartView>, t: Seq<PartView>, rs: Seq<ReasonView>, k: int)
    requires
        k >= 0,
    ensures
        record_all(b, o, t, rs, k).1.len() == k,
    decreases k,
{
    if k > 0 {
        lemma_record_len(b, o, t, rs, k - 1);
    }
}

/// Aligns the three partitions and records each part's strict reason.
pub fn analyze_regions(parts: &ThreePartitions, both_changed: bool, reasons: &mut Vec<Reason>) -> (r:
    Option<Vec<Region>>)
    requires
        all_sorted(reason_views(old(reasons)@)),
    ensures
        (reason_views(final(reasons)@), opt_region_views(r)) == regions_of(
            *parts,
            both_changed,
            reason_views(old(reasons)@),
        ),
        all_sorted(reason_views(final(reasons)@)),
{
    let ghost start = reason_views(reasons@);
    let (b, o, t) = match parts {
        (Some(b), Some(o), Some(t)) => (b, o, t),
        _ => return None,
    };
    let ghost bv = part_views(b@);
    let ghost ov = part_views(o@);
    let ghost tv = part_views(t@);
    if !same_keys(b.as_slice(), o.as_slice()) || !same_keys(b.as_slice(), t.as_slice()) {
        if both_changed {
            let ghost before = reasons@;
            reasons.push(Reason::new(Kind::LayoutChanged, Subject::File, Evidence::LayoutChanged));
            assert(reason_views(reasons@) =~= reason_views(before).push(layout_reason()));
        }
        return None;
    }
    assert(bv.len() == ov.len() && bv.len() == tv.len()) by {
        assert(part_keys(bv).len() == bv.len());
        assert(part_keys(ov).len() == ov.len());
        assert(part_keys(tv).len() == tv.len());
    }
    let mut out: Vec<Region> = Vec::new();
    let mut i: usize = 0;
    while i < b.len()
        invariant
            i <= b.len(),
            b.len() == o.len() && b.len() == t.len(),
            bv == part_views(b@),
            ov == part_views(o@),
            tv == part_views(t@),
            all_sorted(reason_views(reasons@)),
            reason_views(reasons@) == record_all(bv, ov, tv, start, i as int).0,
            region_list_views(out@) == Seq::new(
                i as nat,
                |k: int|
                    RegionView {
                        base: bv[k],
                        ours: ov[k],
                        theirs: tv[k],
                        reason: record_all(bv, ov, tv, start, i as int).1[k],
                    },
            ),
        decreases b.len() - i,
    {
        let reason = record_part_conflict(&b[i], &o[i], &t[i], reasons);
        let ghost before = out@;
        out.push(Region { base: b[i].copy(), ours: o[i].copy(), theirs: t[i].copy(), reason });
        proof {
            lemma_record_len(bv, ov, tv, start, i as int);
            let prev = record_all(bv, ov, tv, start, i as int);
            let next = record_all(bv, ov, tv, start, i + 1);
            assert(next.1 == prev.1.push(opt_reason_view(reason)));
            assert forall|k: int| 0 <= k < i implies next.1[k] == prev.1[k] by {}
            assert(bv.len() == b@.len() && ov.len() == o@.len() && tv.len() == t@.len());
            assert(i < b@.len());
            assert(region_list_views(before).len() == before.len());
            assert(before.len() == i);
            assert(out@.len() == i + 1);
            assert(bv[i as int] == b@[i as int]@);
            assert(ov[i as int] == o@[i as int]@);
            assert(tv[i as int] == t@[i as int]@);
            assert(out@[i as int]@ == (RegionView { base: bv[i as int], ours: ov[i as int], theirs: tv[i as int], reason: next.1[i as int] }));
            assert forall|k: int| 0 <= k < i implies #[trigger] out@[k]@ == region_list_views(before)[k] by {
                assert(out@[k] == before[k]);
            }
            assert(region_list_views(out@) =~= Seq::new(
                (i + 1) as nat,
                |k: int|
                    RegionView {
                        base: bv[k],
                        ours: ov[k],
                        theirs: tv[k],
                        reason: next.1[k],
                    },
            ));
        }
        i += 1;
    }
    Some(out)
}

} // verus!
