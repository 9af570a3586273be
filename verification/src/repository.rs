//! Human-readable lines about cross-file associations.
use vstd::prelude::*;
use vstd::string::StringExecFns;
use crate::reason::display::{evidence_lines, prefixed, push_lines};
use crate::reason::order::{compare_evidence, lemma_evidence};
use crate::reason::{reason_views, Evidence, EvidenceView, MoveEvidence, MoveEvidenceView, MoveMatchView, Reason, ReasonView};
use crate::text::string_views;

verus! {

/// Some reason already holds this evidence.
pub open spec fn listed(reasons: Seq<ReasonView>, e: EvidenceView) -> bool {
    exists|j: int| 0 <= j < reasons.len() && (#[trigger] reasons[j]).evidence.contains(e)
}

/// The association lines not already shown under a reason; exact moves of a
/// file without any reason are left out.
pub open spec fn related_lines(reasons: Seq<ReasonView>, cs: Seq<MoveEvidenceView>, detailed: bool) -> Seq<
    Seq<char>,
>
    decreases cs.len(),
{
    if cs.len() == 0 {
        seq![]
    } else {
        let before = related_lines(reasons, cs.drop_last(), detailed);
        let c = cs.last();
        let e = EvidenceView::MoveCandidate { candidate: c };
        if (reasons.len() == 0 && c.matched_by is Exact) || listed(reasons, e) {
            before
        } else {
            before + prefixed("关联 "@, evidence_lines(e, detailed))
        }
    }
}

fn holds_evidence(reasons: &[Reason], e: &Evidence) -> (r: bool)
    ensures
        r == listed(reason_views(reasons@), e@),
{
    let ghost rv = reason_views(reasons@);
    let mut j: usize = 0;
    while j < reasons.len()
        invariant
            j <= reasons.len(),
            rv == reason_views(reasons@),
            forall|k: int| 0 <= k < j ==> !(#[trigger] rv[k]).evidence.contains(e@),
        decreases reasons.len() - j,
    {
        assert(rv[j as int] == reasons@[j as int]@);
        let ev = &reasons[j].evidence;
        let mut k: usize = 0;
        while k < ev.len()
            invariant
                k <= ev.len(),
                j < reasons.len(),
                rv == reason_views(reasons@),
                rv[j as int].evidence == crate::reason::evidence_views(ev@),
                forall|m: int| 0 <= m < k ==> rv[j as int].evidence[m] != e@,
            decreases ev.len() - k,
        {
            proof {
                lemma_evidence(ev@[k as int]@, e@, e@);
            }
            assert(rv[j as int].evidence[k as int] == ev@[k as int]@);
            if compare_evidence(&ev[k], e) == 0 {
                assert(rv[j as int].evidence.contains(e@));
                return true;
            }
            k += 1;
        }
        j += 1;
    }
    false
}

/// Lines for candidates that no reason already carries, each marked as an
/// association; a file without reasons does not list its exact moves.
pub fn related_move_lines(reasons: &[Reason], candidates: &[MoveEvidence], detailed: bool) -> (r: Vec<
    String,
>)
    ensures
        string_views(r@) == related_lines(
            reason_views(reasons@),
            candidates@.map_values(|c: MoveEvidence| c@),
            detailed,
        ),
{
    let ghost cv = candidates@.map_values(|c: MoveEvidence| c@);
    let ghost rv = reason_views(reasons@);
    let mut lines: Vec<String> = Vec::new();
    let mut i: usize = 0;
    assert(string_views(lines@) =~= Seq::<Seq<char>>::empty());
    while i < candidates.len()
        invariant
            i <= candidates.len(),
            cv == candidates@.map_values(|c: MoveEvidence| c@),
            rv == reason_views(reasons@),
            string_views(lines@) == related_lines(rv, cv.take(i as int), detailed),
        decreases candidates.len() - i,
    {
        let c = &candidates[i];
        assert(cv[i as int] == c@);
        assert(cv.take(i + 1).drop_last() =~= cv.take(i as int));
        assert(rv.len() == reasons@.len());
        let exact = match &c.matched_by {
            crate::reason::MoveMatch::Exact => true,
            _ => false,
        };
        let evidence = Evidence::MoveCandidate { candidate: Box::new(c.copy()) };
        if !((reasons.len() == 0 && exact) || holds_evidence(reasons, &evidence)) {
            let more = evidence.lines(detailed);
            let mut marked: Vec<String> = Vec::new();
            let mut k: usize = 0;
            while k < more.len()
                invariant
                    k <= more.len(),
                    marked@.len() == k,
                    forall|m: int| 0 <= m < k ==> #[trigger] marked@[m]@ == "关联 "@ + more@[m]@,
                decreases more.len() - k,
            {
                let mut line = String::from_str("关联 ");
                line.append(more[k].as_str());
                marked.push(line);
                k += 1;
            }
            assert(string_views(marked@) =~= prefixed("关联 "@, string_views(more@)));
            push_lines(&mut lines, marked);
        }
        i += 1;
    }
    assert(cv.take(candidates.len() as int) =~= cv);
    lines
}

} // verus!
