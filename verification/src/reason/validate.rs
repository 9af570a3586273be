//! Validate deserialized evidence without changing or repairing it.
use vstd::prelude::*;
use vstd::string::StringExecFns;
use crate::text::{is_white_space, push_char, spec_is_white_space};
use super::order::{compare_opposite_move, opposite_move_compare};
use super::{
    Evidence, EvidenceView, Kind, Location, LocationView, MoveEvidence, MoveEvidenceView,
    MoveMatch, MoveMatchView, Opposite, OppositeMove, OppositeMoveView, Reason, ReasonView, RenameComparison,
    Side, Subject, SubjectView, change_changed, evidence_views, opposite_views,
};

verus! {

/// `entity_type`, one space, then `name`: the label of a typed entity.
pub open spec fn typed_label(entity_type: Seq<char>, name: Seq<char>) -> Seq<char> {
    entity_type + seq![' '] + name
}

/// The checks on one candidate pair: counts, distinct paths, lines and the
/// entity labels that its match basis requires.
pub open spec fn match_valid(
    source_count: nat,
    destination_count: nat,
    base: LocationView,
    target: LocationView,
    matched_by: MoveMatchView,
) -> bool {
    &&& source_count > 0
    &&& destination_count > 0
    &&& base.path.len() > 0
    &&& target.path.len() > 0
    &&& base.path != target.path
    &&& base.line > 0
    &&& target.line > 0
    &&& match matched_by {
        MoveMatchView::Exact => base.entity.len() > 0 && base.entity == target.entity,
        MoveMatchView::NameNormalized {
            grammar,
            entity_type,
            old_name,
            new_name,
            old_occurrences,
            new_occurrences,
            comparison,
        } => {
            &&& grammar.len() > 0
            &&& entity_type.len() > 0
            &&& old_name.len() > 0
            &&& new_name.len() > 0
            &&& old_name != new_name
            &&& old_occurrences > 0
            &&& old_occurrences == new_occurrences
            &&& match comparison {
                RenameComparison::Text => true,
                RenameComparison::Syntax { tokens } => tokens > 0,
            }
            &&& base.entity == typed_label(entity_type, old_name)
            &&& target.entity == typed_label(entity_type, new_name)
        },
    }
}

/// The checks shared by a candidate and each of its opposite-side moves.
pub open spec fn move_valid_match(m: MoveEvidenceView) -> bool {
    match_valid(m.source_count, m.destination_count, m.base, m.target, m.matched_by)
}

/// The candidate of the same base on the other side, as a candidate itself.
pub open spec fn counterpart(side: Side, base: LocationView, other: OppositeMoveView) -> MoveEvidenceView {
    MoveEvidenceView {
        side,
        base,
        target: other.target,
        source_count: other.source_count,
        destination_count: other.destination_count,
        opposite: Opposite::Deleted,
        matched_by: other.matched_by,
        opposite_moves: Seq::empty(),
    }
}

/// A pure move may be a valid association, but is not a blocking reason.
pub open spec fn move_valid(m: MoveEvidenceView) -> bool {
    &&& move_valid_match(m)
    &&& (m.opposite_moves.len() == 0 || m.opposite == Opposite::Deleted)
    &&& forall|i: int|
        0 <= i < m.opposite_moves.len() - 1 ==> opposite_move_compare(
            #[trigger] m.opposite_moves[i],
            m.opposite_moves[i + 1],
        ) < 0
    &&& forall|i: int|
        0 <= i < m.opposite_moves.len() ==> move_valid_match(
            counterpart(m.side, m.base, #[trigger] m.opposite_moves[i]),
        )
}

fn typed_label_matches(label: &String, entity_type: &String, name: &String) -> (r: bool)
    ensures
        r == (label@ == typed_label(entity_type@, name@)),
{
    let mut expected = entity_type.clone();
    push_char(&mut expected, ' ');
    expected.append(name.as_str());
    assert(expected@ == typed_label(entity_type@, name@));
    *label == expected
}

fn valid_match_parts(
    source_count: usize,
    destination_count: usize,
    base: &Location,
    target: &Location,
    matched_by: &MoveMatch,
) -> (r: bool)
    ensures
        r == match_valid(source_count as nat, destination_count as nat, base@, target@, matched_by@),
{
    if !(source_count > 0 && destination_count > 0 && !base.path.as_str().is_empty()
        && !target.path.as_str().is_empty() && base.line > 0 && target.line > 0) {
        return false;
    }
    if base.path == target.path {
        return false;
    }
    match matched_by {
        MoveMatch::Exact => !base.entity.as_str().is_empty() && base.entity == target.entity,
        MoveMatch::NameNormalized {
            grammar,
            entity_type,
            old_name,
            new_name,
            old_occurrences,
            new_occurrences,
            comparison,
        } => {
            !grammar.as_str().is_empty() && !entity_type.as_str().is_empty()
                && !old_name.as_str().is_empty() && !new_name.as_str().is_empty()
                && *old_name != *new_name && *old_occurrences > 0 && *old_occurrences
                == *new_occurrences && match comparison {
                RenameComparison::Text => true,
                RenameComparison::Syntax { tokens } => *tokens > 0,
            } && typed_label_matches(&base.entity, entity_type, old_name) && typed_label_matches(
                &target.entity,
                entity_type,
                new_name,
            )
        },
    }
}

fn moves_increasing(v: &Vec<OppositeMove>) -> (r: bool)
    ensures
        r == (forall|i: int|
            0 <= i < v@.len() - 1 ==> opposite_move_compare(
                #[trigger] opposite_views(v@)[i],
                opposite_views(v@)[i + 1],
            ) < 0),
{
    let ghost ms = opposite_views(v@);
    let n = v.len();
    let mut i: usize = 0;
    while i < n && i + 1 < n
        invariant
            i <= n,
            n == v.len(),
            ms == opposite_views(v@),
            forall|k: int| 0 <= k < i && k + 1 < n ==> opposite_move_compare(#[trigger] ms[k], ms[k + 1]) < 0,
        decreases n - i,
    {
        if compare_opposite_move(&v[i], &v[i + 1]) >= 0 {
            assert(ms[i as int] == v@[i as int]@);
            return false;
        }
        i += 1;
    }
    true
}

fn counterparts_valid(base: &Location, v: &Vec<OppositeMove>) -> (r: bool)
    ensures
        r == (forall|i: int|
            0 <= i < v@.len() ==> match_valid(
                #[trigger] opposite_views(v@)[i].source_count,
                opposite_views(v@)[i].destination_count,
                base@,
                opposite_views(v@)[i].target,
                opposite_views(v@)[i].matched_by,
            )),
{
    let ghost ms = opposite_views(v@);
    let mut i: usize = 0;
    while i < v.len()
        invariant
            i <= v.len(),
            ms == opposite_views(v@),
            forall|k: int| 0 <= k < i ==> match_valid(#[trigger] ms[k].source_count, ms[k].destination_count, base@, ms[k].target, ms[k].matched_by),
        decreases v.len() - i,
    {
        let other = &v[i];
        if !valid_match_parts(other.source_count, other.destination_count, base, &other.target, &other.matched_by) {
            assert(ms[i as int] == other@);
            assert(!match_valid(ms[i as int].source_count, ms[i as int].destination_count, base@, ms[i as int].target, ms[i as int].matched_by));
            return false;
        }
        i += 1;
    }
    true
}

impl MoveEvidence {
    /// Structural consistency of a candidate read back from a report.
    pub fn valid(&self) -> (r: bool)
        ensures
            r == move_valid(self@),
    {
        if !self.valid_match() {
            return false;
        }
        if !(self.opposite_moves.len() == 0 || self.opposite == Opposite::Deleted) {
            return false;
        }
        let sorted = moves_increasing(&self.opposite_moves);
        let each = counterparts_valid(&self.base, &self.opposite_moves);
        proof {
            let ms = opposite_views(self.opposite_moves@);
            if each {
                assert forall|k: int| 0 <= k < ms.len() implies move_valid_match(counterpart(self.side, self.base@, #[trigger] ms[k])) by {
                    assert(match_valid(ms[k].source_count, ms[k].destination_count, self.base@, ms[k].target, ms[k].matched_by));
                }
            } else {
                let k = choose|k: int| 0 <= k < ms.len() && !match_valid(#[trigger] ms[k].source_count, ms[k].destination_count, self.base@, ms[k].target, ms[k].matched_by);
                assert(!move_valid_match(counterpart(self.side, self.base@, ms[k])));
            }
        }
        sorted && each
    }

    /// The checks shared with each opposite-side candidate.
    pub fn valid_match(&self) -> (r: bool)
        ensures
            r == move_valid_match(self@),
    {
        valid_match_parts(self.source_count, self.destination_count, &self.base, &self.target, &self.matched_by)
    }
}

/// Some character is not white space.
pub open spec fn has_visible(s: Seq<char>) -> bool {
    exists|i: int| 0 <= i < s.len() && !spec_is_white_space(#[trigger] s[i])
}

pub open spec fn subject_fits(kind: Kind, subject: SubjectView) -> bool {
    match kind {
        Kind::LineConflict => subject is File || subject is Entity || subject is Gap,
        Kind::EntityConflict => subject is Entity || subject is Weave,
        Kind::NonEntityConflict => subject is Gap,
        Kind::AnalysisUnavailable | Kind::LayoutChanged => subject is File,
        Kind::ModifyVsMove => subject is Move,
    }
}

/// Which evidence may stand under which parent.
pub open spec fn evidence_fits(kind: Kind, subject: SubjectView, e: EvidenceView) -> bool {
    match (kind, e) {
        (Kind::LineConflict, EvidenceView::GitLineConflict) => true,
        (Kind::EntityConflict, EvidenceView::RawBothChanged) => true,
        (Kind::NonEntityConflict, EvidenceView::RawBothChanged) => true,
        (Kind::EntityConflict, EvidenceView::WeaveRefusal { .. }) => true,
        (Kind::AnalysisUnavailable, EvidenceView::PartitionUnavailable) => true,
        (Kind::AnalysisUnavailable, EvidenceView::WeaveUnavailable) => true,
        (Kind::LayoutChanged, EvidenceView::LayoutChanged) => true,
        (Kind::EntityConflict, EvidenceView::IdenticalEdits) => subject is Entity,
        (Kind::EntityConflict, EvidenceView::WeaveActions { ours, theirs }) => change_changed(ours)
            && change_changed(theirs),
        (Kind::ModifyVsMove, EvidenceView::MoveCandidate { candidate: c }) => {
            &&& c.opposite != Opposite::Unchanged
            &&& move_valid(c)
            &&& subject == (SubjectView::Move { side: c.side, base: c.base, target: c.target })
        },
        _ => false,
    }
}

/// The parent/child combination of a reason read back from a report.
pub open spec fn reason_valid(r: ReasonView) -> bool {
    &&& subject_fits(r.kind, r.subject)
    &&& match r.subject {
        SubjectView::Gap { key, label } => key.len() > 0 && has_visible(label),
        _ => true,
    }
    &&& r.evidence.len() > 0
    &&& forall|i: int| 0 <= i < r.evidence.len() ==> evidence_fits(r.kind, r.subject, #[trigger] r.evidence[i])
}

fn visible(s: &String) -> (r: bool)
    ensures
        r == has_visible(s@),
{
    let mut found = false;
    for c in it: s.as_str().chars()
        invariant
            found == (exists|k: int| 0 <= k < it.index() && !spec_is_white_space(#[trigger] it.seq()[k])),
    {
        if !is_white_space(c) {
            found = true;
        }
    }
    found
}

fn candidate_fits(subject: &Subject, c: &MoveEvidence) -> (r: bool)
    ensures
        r == (c@.opposite != Opposite::Unchanged && move_valid(c@) && subject@ == (SubjectView::Move {
            side: c@.side,
            base: c@.base,
            target: c@.target,
        })),
{
    if c.opposite == Opposite::Unchanged || !c.valid() {
        return false;
    }
    match subject {
        Subject::Move { side, base, target } => *side == c.side && base.same(&c.base) && target.same(
            &c.target,
        ),
        _ => false,
    }
}

fn evidence_fits_exec(kind: Kind, subject: &Subject, e: &Evidence) -> (r: bool)
    ensures
        r == evidence_fits(kind, subject@, e@),
{
    match (kind, e) {
        (Kind::LineConflict, Evidence::GitLineConflict) => true,
        (Kind::EntityConflict, Evidence::RawBothChanged) => true,
        (Kind::NonEntityConflict, Evidence::RawBothChanged) => true,
        (Kind::EntityConflict, Evidence::WeaveRefusal { .. }) => true,
        (Kind::AnalysisUnavailable, Evidence::PartitionUnavailable) => true,
        (Kind::AnalysisUnavailable, Evidence::WeaveUnavailable) => true,
        (Kind::LayoutChanged, Evidence::LayoutChanged) => true,
        (Kind::EntityConflict, Evidence::IdenticalEdits) => matches!(subject, Subject::Entity { .. }),
        (Kind::EntityConflict, Evidence::WeaveActions { ours, theirs }) => ours.changed()
            && theirs.changed(),
        (Kind::ModifyVsMove, Evidence::MoveCandidate { candidate: c }) => candidate_fits(subject, c),
        _ => false,
    }
}

impl Reason {
    /// Reject empty evidence and contradictory parent/child combinations.
    pub fn valid(&self) -> (r: bool)
        ensures
            r == reason_valid(self@),
    {
        let subject_ok = match self.kind {
            Kind::LineConflict => matches!(
                self.subject,
                Subject::File | Subject::Entity { .. } | Subject::Gap { .. }
            ),
            Kind::EntityConflict => matches!(self.subject, Subject::Entity { .. } | Subject::Weave { .. }),
            Kind::NonEntityConflict => matches!(self.subject, Subject::Gap { .. }),
            Kind::AnalysisUnavailable | Kind::LayoutChanged => matches!(self.subject, Subject::File),
            Kind::ModifyVsMove => matches!(self.subject, Subject::Move { .. }),
        };
        if !subject_ok {
            return false;
        }
        if let Subject::Gap { key, label } = &self.subject {
            if key.as_str().is_empty() || !visible(label) {
                return false;
            }
        }
        if self.evidence.len() == 0 {
            return false;
        }
        let ghost ev = evidence_views(self.evidence@);
        let mut i: usize = 0;
        while i < self.evidence.len()
            invariant
                i <= self.evidence.len(),
                ev == evidence_views(self.evidence@),
                forall|k: int| 0 <= k < i ==> evidence_fits(self.kind, self.subject@, #[trigger] ev[k]),
            decreases self.evidence.len() - i,
        {
            if !evidence_fits_exec(self.kind, &self.subject, &self.evidence[i]) {
                assert(!evidence_fits(self.kind, self.subject@, ev[i as int]));
                return false;
            }
            i += 1;
        }
        true
    }
}

} // verus!
