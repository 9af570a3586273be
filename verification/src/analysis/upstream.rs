//! weave's refusals and classification: upstream refusals are kept as they
//! are; the strict both-changed policy is added only for targets they leave
//! uncovered. weave's matching, classification and refusal rules are its own.
use vstd::prelude::*;
use crate::analysis::partition::{local_subject, local_subject_of, ThreePartitions};
use crate::reason::order::has_key;
use crate::reason::{
    change_changed, reason_views, Change, Evidence, EvidenceView, Kind, Reason, ReasonView, Side,
    Subject, SubjectView, WeaveRefusal, WeaveRefusalView, WeaveSource,
};
use vstd::string::StringExecFns;
use weave_core::conflict::ConflictKind as WeaveKind;
use weave_core::v2::Action as WeaveAction;

verus! {

/// weave's kind of conflict for one entity, as plain values.
#[derive(Debug)]
pub enum ConflictKind {
    BothModified,
    ModifyDelete { modified_in_ours: bool },
    BothAdded,
    RenameRename { base_name: String, ours_name: String, theirs_name: String },
    RenameModify { old_name: String, new_name: String, renamed_in_ours: bool },
}

/// One entity conflict that weave's merge refused to resolve.
#[derive(Debug)]
pub struct EntityConflict {
    pub entity_name: String,
    pub entity_type: String,
    pub kind: ConflictKind,
}

/// weave's action of one side on one matched entity.
#[derive(Debug, Clone, Copy, PartialEq, Eq, Structural)]
pub enum Action {
    Added,
    Absent,
    Deleted,
    Unchanged,
    Edited,
    Renamed,
    RenameEdited,
}

/// One entity of weave's classification: its label and both sides' actions.
#[derive(Debug)]
pub struct Classified {
    pub label: String,
    pub ours: Action,
    pub theirs: Action,
}

pub enum ConflictKindView {
    BothModified,
    ModifyDelete { modified_in_ours: bool },
    BothAdded,
    RenameRename { base_name: Seq<char>, ours_name: Seq<char>, theirs_name: Seq<char> },
    RenameModify { old_name: Seq<char>, new_name: Seq<char>, renamed_in_ours: bool },
}

impl View for ConflictKind {
    type V = ConflictKindView;

    open spec fn view(&self) -> ConflictKindView {
        match self {
            ConflictKind::BothModified => ConflictKindView::BothModified,
            ConflictKind::ModifyDelete { modified_in_ours } => ConflictKindView::ModifyDelete {
                modified_in_ours: *modified_in_ours,
            },
            ConflictKind::BothAdded => ConflictKindView::BothAdded,
            ConflictKind::RenameRename { base_name, ours_name, theirs_name } =>
                ConflictKindView::RenameRename {
                    base_name: base_name@,
                    ours_name: ours_name@,
                    theirs_name: theirs_name@,
                },
            ConflictKind::RenameModify { old_name, new_name, renamed_in_ours } =>
                ConflictKindView::RenameModify {
                    old_name: old_name@,
                    new_name: new_name@,
                    renamed_in_ours: *renamed_in_ours,
                },
        }
    }
}

pub struct EntityConflictView {
    pub entity_name: Seq<char>,
    pub entity_type: Seq<char>,
    pub kind: ConflictKindView,
}

impl View for EntityConflict {
    type V = EntityConflictView;

    open spec fn view(&self) -> EntityConflictView {
        EntityConflictView {
            entity_name: self.entity_name@,
            entity_type: self.entity_type@,
            kind: self.kind@,
        }
    }
}

pub struct ClassifiedView {
    pub label: Seq<char>,
    pub ours: Action,
    pub theirs: Action,
}

impl View for Classified {
    type V = ClassifiedView;

    open spec fn view(&self) -> ClassifiedView {
        ClassifiedView { label: self.label@, ours: self.ours, theirs: self.theirs }
    }
}

pub open spec fn conflict_views(s: Seq<EntityConflict>) -> Seq<EntityConflictView> {
    s.map_values(|c: EntityConflict| c@)
}

pub open spec fn classified_views(s: Seq<Classified>) -> Seq<ClassifiedView> {
    s.map_values(|c: Classified| c@)
}

// ---------------------------------------------------------------------------
// Calls into weave.
// ---------------------------------------------------------------------------

/// The entity conflicts that weave's merge refuses for a file's three texts.
pub uninterp spec fn weave_conflict_list(
    base: Seq<char>,
    ours: Seq<char>,
    theirs: Seq<char>,
    path: Seq<char>,
) -> Seq<EntityConflictView>;

/// weave-core `entity_merge(base, ours, theirs, path)`: the entity conflicts
/// its merge refused, in its order, each with its name, type and kind. The
/// merge runs with `Host::default()`, which grants no process and no
/// environment, so the result is a function of the four arguments (the name
/// `weave_conflict_list`); nothing more is claimed of it.
#[verifier::external_body]
pub(crate) fn weave_conflicts(base: &str, ours: &str, theirs: &str, path: &str) -> (r: Vec<EntityConflict>)
    ensures
        conflict_views(r@) == weave_conflict_list(base@, ours@, theirs@, path@),
{
    weave_core::entity_merge(base, ours, theirs, path).conflicts.into_iter().map(|c| EntityConflict {
        entity_name: c.entity_name,
        entity_type: c.entity_type,
        kind: match c.kind {
            WeaveKind::BothModified => ConflictKind::BothModified,
            WeaveKind::ModifyDelete { modified_in_ours } => ConflictKind::ModifyDelete { modified_in_ours },
            WeaveKind::BothAdded => ConflictKind::BothAdded,
            WeaveKind::RenameRename { base_name, ours_name, theirs_name } => ConflictKind::RenameRename { base_name, ours_name, theirs_name },
            WeaveKind::RenameModify { old_name, new_name, renamed_in_ours } => ConflictKind::RenameModify { old_name, new_name, renamed_in_ours },
        },
    }).collect()
}

/// What weave's analysis classifies for a file's three texts.
pub uninterp spec fn weave_analysis(
    base: Seq<char>,
    ours: Seq<char>,
    theirs: Seq<char>,
    path: Seq<char>,
) -> Option<Seq<ClassifiedView>>;

/// weave-core `v2::analyze_default(base, ours, theirs, path)`: `None` when
/// weave cannot analyse the file; otherwise, for each matched entity in
/// weave's order, its `label` and the `actions()` of its cell. weave's
/// matcher pairs candidates greedily in an order fixed by confidence and
/// identity key, not by hash iteration, so the result is a function of the
/// four arguments (the name `weave_analysis`); nothing more is claimed of it.
#[verifier::external_body]
fn weave_classification(base: &str, ours: &str, theirs: &str, path: &str) -> (r: Option<Vec<Classified>>)
    ensures
        opt_classified_views(r) == weave_analysis(base@, ours@, theirs@, path@),
{
    let action = |a: WeaveAction| match a {
        WeaveAction::Added => Action::Added, WeaveAction::Absent => Action::Absent, WeaveAction::Deleted => Action::Deleted,
        WeaveAction::Unchanged => Action::Unchanged, WeaveAction::Edited => Action::Edited,
        WeaveAction::Renamed => Action::Renamed, WeaveAction::RenameEdited => Action::RenameEdited,
    };
    let analysis = weave_core::v2::analyze_default(base, ours, theirs, path)?;
    Some(analysis.iter().map(|(triple, cell)| {
        let (o, t) = cell.actions();
        Classified { label: analysis.label(triple), ours: action(o), theirs: action(t) }
    }).collect())
}

// ---------------------------------------------------------------------------
// Conversions.
// ---------------------------------------------------------------------------

pub open spec fn change_of(a: Action) -> Change {
    match a {
        Action::Added => Change::Added,
        Action::Absent => Change::Absent,
        Action::Deleted => Change::Deleted,
        Action::Unchanged => Change::Unchanged,
        Action::Edited => Change::Modified,
        Action::Renamed => Change::Renamed,
        Action::RenameEdited => Change::RenameModified,
    }
}

impl Change {
    /// The change that weave's action stands for.
    pub fn from(action: Action) -> (r: Change)
        ensures
            r == change_of(action),
    {
        match action {
            Action::Added => Change::Added,
            Action::Absent => Change::Absent,
            Action::Deleted => Change::Deleted,
            Action::Unchanged => Change::Unchanged,
            Action::Edited => Change::Modified,
            Action::Renamed => Change::Renamed,
            Action::RenameEdited => Change::RenameModified,
        }
    }
}

pub open spec fn side_of(in_ours: bool) -> Side {
    if in_ours {
        Side::Ours
    } else {
        Side::Theirs
    }
}

pub open spec fn refusal_of(k: ConflictKindView) -> WeaveRefusalView {
    match k {
        ConflictKindView::BothModified => WeaveRefusalView::BothModified,
        ConflictKindView::ModifyDelete { modified_in_ours } => WeaveRefusalView::ModifyDelete {
            modified_in: side_of(modified_in_ours),
        },
        ConflictKindView::BothAdded => WeaveRefusalView::BothAdded,
        ConflictKindView::RenameRename { base_name, ours_name, theirs_name } =>
            WeaveRefusalView::RenameRename { base_name, ours_name, theirs_name },
        ConflictKindView::RenameModify { old_name, new_name, renamed_in_ours } =>
            WeaveRefusalView::RenameModify { old_name, new_name, renamed_in: side_of(renamed_in_ours) },
    }
}

impl WeaveRefusal {
    /// The refusal that weave's conflict kind stands for; every kind has one.
    pub fn from(kind: &ConflictKind) -> (r: WeaveRefusal)
        ensures
            r@ == refusal_of(kind@),
    {
        match kind {
            ConflictKind::BothModified => WeaveRefusal::BothModified,
            ConflictKind::BothAdded => WeaveRefusal::BothAdded,
            ConflictKind::ModifyDelete { modified_in_ours } => WeaveRefusal::ModifyDelete {
                modified_in: if *modified_in_ours {
                    Side::Ours
                } else {
                    Side::Theirs
                },
            },
            ConflictKind::RenameRename { base_name, ours_name, theirs_name } =>
                WeaveRefusal::RenameRename {
                    base_name: base_name.clone(),
                    ours_name: ours_name.clone(),
                    theirs_name: theirs_name.clone(),
                },
            ConflictKind::RenameModify { old_name, new_name, renamed_in_ours } =>
                WeaveRefusal::RenameModify {
                    old_name: old_name.clone(),
                    new_name: new_name.clone(),
                    renamed_in: if *renamed_in_ours {
                        Side::Ours
                    } else {
                        Side::Theirs
                    },
                },
        }
    }
}

// ---------------------------------------------------------------------------
// Refusals first.
// ---------------------------------------------------------------------------

/// The reason for weave's `i`-th refusal: bound to a local subject when the
/// partitions identify it, else to weave's name and position.
pub open spec fn refusal_reason(i: int, c: EntityConflictView, parts: ThreePartitions) -> ReasonView {
    ReasonView {
        kind: Kind::EntityConflict,
        subject: match local_subject_of(parts, c.entity_name, Some(c.entity_type)) {
            Some(s) => s,
            None => SubjectView::Weave {
                name: c.entity_name,
                source: WeaveSource::Refusal,
                ordinal: i as nat,
            },
        },
        evidence: seq![EvidenceView::WeaveRefusal { refusal: refusal_of(c.kind) }],
    }
}

pub open spec fn refusal_reasons(cs: Seq<EntityConflictView>, parts: ThreePartitions) -> Seq<ReasonView> {
    Seq::new(cs.len(), |i: int| refusal_reason(i, cs[i], parts))
}

/// weave's refusals, one reason each, before any policy of this project.
pub fn weave_refusals(conflicts: &Vec<EntityConflict>, parts: &ThreePartitions) -> (r: Vec<Reason>)
    ensures
        reason_views(r@) == refusal_reasons(conflict_views(conflicts@), *parts),
{
    let ghost cv = conflict_views(conflicts@);
    let mut r: Vec<Reason> = Vec::new();
    let mut i: usize = 0;
    while i < conflicts.len()
        invariant
            i <= conflicts.len(),
            cv == conflict_views(conflicts@),
            reason_views(r@) == refusal_reasons(cv, *parts).take(i as int),
        decreases conflicts.len() - i,
    {
        let c = &conflicts[i];
        assert(cv[i as int] == c@);
        let found = local_subject(parts, c.entity_name.as_str(), Some(c.entity_type.as_str()));
        let subject = match found {
            Some(s) => s,
            None => Subject::Weave {
                name: c.entity_name.clone(),
                source: WeaveSource::Refusal,
                ordinal: i,
            },
        };
        let reason = Reason::new(
            Kind::EntityConflict,
            subject,
            Evidence::WeaveRefusal { refusal: WeaveRefusal::from(&c.kind) },
        );
        let ghost before = r@;
        r.push(reason);
        assert(reason_views(r@) =~= reason_views(before).push(refusal_reason(i as int, cv[i as int], *parts)));
        assert(refusal_reasons(cv, *parts).take(i + 1) =~= refusal_reasons(cv, *parts).take(i as int).push(
            refusal_reason(i as int, cv[i as int], *parts),
        ));
        i += 1;
    }
    assert(refusal_reasons(cv, *parts).take(conflicts.len() as int) =~= refusal_reasons(cv, *parts));
    r
}

// ---------------------------------------------------------------------------
// The strict both-changed policy over weave's classification.
// ---------------------------------------------------------------------------

pub open spec fn label_count(cs: Seq<ClassifiedView>, label: Seq<char>) -> nat
    decreases cs.len(),
{
    if cs.len() == 0 {
        0
    } else {
        label_count(cs.drop_last(), label) + if cs.last().label == label {
            1nat
        } else {
            0nat
        }
    }
}

/// The subject of the `i`-th classified entity: local only when its label
/// occurs once and the partitions bind it, else weave's name and position.
pub open spec fn classified_subject(cs: Seq<ClassifiedView>, i: int, parts: ThreePartitions) -> SubjectView {
    let name = cs[i].label;
    let local = if label_count(cs, name) == 1 {
        local_subject_of(parts, name, None)
    } else {
        None
    };
    match local {
        Some(s) => s,
        None => SubjectView::Weave { name, source: WeaveSource::Classification, ordinal: i as nat },
    }
}

/// `rs` after the first `k` classified entities: one changed on both sides
/// gets a reason unless an entity reason with its subject is already there.
pub open spec fn with_strict(rs: Seq<ReasonView>, cs: Seq<ClassifiedView>, parts: ThreePartitions, k: int) -> Seq<
    ReasonView,
>
    decreases k,
{
    if k <= 0 {
        rs
    } else {
        let before = with_strict(rs, cs, parts, k - 1);
        let c = cs[k - 1];
        let subject = classified_subject(cs, k - 1, parts);
        if change_changed(change_of(c.ours)) && change_changed(change_of(c.theirs)) && !has_key(
            before,
            Kind::EntityConflict,
            subject,
        ) {
            before.push(
                ReasonView {
                    kind: Kind::EntityConflict,
                    subject,
                    evidence: seq![
                        EvidenceView::WeaveActions {
                            ours: change_of(c.ours),
                            theirs: change_of(c.theirs),
                        },
                    ],
                },
            )
        } else {
            before
        }
    }
}

proof fn lemma_with_strict_keeps(rs: Seq<ReasonView>, cs: Seq<ClassifiedView>, parts: ThreePartitions, i: int, k: int, kind: Kind, s: SubjectView)
    requires
        i <= k,
        has_key(with_strict(rs, cs, parts, i), kind, s),
    ensures
        has_key(with_strict(rs, cs, parts, k), kind, s),
    decreases k - i,
{
    if i < k {
        lemma_with_strict_keeps(rs, cs, parts, i, k - 1, kind, s);
        let before = with_strict(rs, cs, parts, k - 1);
        let after = with_strict(rs, cs, parts, k);
        if k > 0 && after != before {
            let j = choose|j: int| 0 <= j < before.len() && before[j].kind == kind && #[trigger] before[j].subject == s;
            assert(after[j] == before[j]);
        }
    }
}

/// An entity that weave classifies as changed on both sides is always
/// reviewed: the strict policy holds an entity conflict for it.
pub proof fn law_both_changed_reviewed(rs: Seq<ReasonView>, cs: Seq<ClassifiedView>, parts: ThreePartitions, j: int)
    requires
        0 <= j < cs.len(),
        change_changed(change_of(cs[j].ours)),
        change_changed(change_of(cs[j].theirs)),
    ensures
        has_key(with_strict(rs, cs, parts, cs.len() as int), Kind::EntityConflict, classified_subject(cs, j, parts)),
{
    let s = classified_subject(cs, j, parts);
    let before = with_strict(rs, cs, parts, j);
    let after = with_strict(rs, cs, parts, j + 1);
    if !has_key(before, Kind::EntityConflict, s) {
        assert(after[before.len() as int].subject == s);
        assert(after[before.len() as int].kind == Kind::EntityConflict);
    } else {
        let i = choose|i: int| 0 <= i < before.len() && before[i].kind == Kind::EntityConflict && #[trigger] before[i].subject == s;
        assert(after[i] == before[i]);
    }
    assert(has_key(after, Kind::EntityConflict, s));
    lemma_with_strict_keeps(rs, cs, parts, j + 1, cs.len() as int, Kind::EntityConflict, s);
}

/// A file that both sides changed is always reviewed: either its reasons say
/// the file could not be analysed, or every entity that weave classifies as
/// changed on both sides has an entity conflict.
pub proof fn law_changed_file_reviewed(
    base: Seq<char>,
    ours: Seq<char>,
    theirs: Seq<char>,
    parts: ThreePartitions,
    classified: Option<Seq<ClassifiedView>>,
    rs: Seq<ReasonView>,
)
    requires
        ours != base,
        theirs != base,
    ensures
        has_key(strict_reasons(base, ours, theirs, parts, classified, rs), Kind::AnalysisUnavailable, SubjectView::File)
            || (classified matches Some(cs) && forall|j: int|
            0 <= j < cs.len() && change_changed(change_of(cs[j].ours)) && change_changed(change_of(cs[j].theirs))
                ==> has_key(
                strict_reasons(base, ours, theirs, parts, classified, rs),
                Kind::EntityConflict,
                #[trigger] classified_subject(cs, j, parts),
            )),
{
    let out = strict_reasons(base, ours, theirs, parts, classified, rs);
    if !all_reliable(parts) || classified is None {
        assert(out[rs.len() as int].kind == Kind::AnalysisUnavailable);
        assert(out[rs.len() as int].subject == SubjectView::File);
    } else {
        let cs = classified->0;
        assert forall|j: int|
            0 <= j < cs.len() && change_changed(change_of(cs[j].ours)) && change_changed(change_of(cs[j].theirs))
                implies has_key(out, Kind::EntityConflict, #[trigger] classified_subject(cs, j, parts)) by {
            law_both_changed_reviewed(rs, cs, parts, j);
        }
    }
}

pub open spec fn all_reliable(parts: ThreePartitions) -> bool {
    parts.0 is Some && parts.1 is Some && parts.2 is Some
}

pub open spec fn opt_classified_views(c: Option<Vec<Classified>>) -> Option<Seq<ClassifiedView>> {
    match c {
        Some(v) => Some(classified_views(v@)),
        None => None,
    }
}

/// The reasons after the strict policy: nothing when one side kept the base;
/// a file-level reason when a partition or weave's analysis is missing.
pub open spec fn strict_reasons(
    base: Seq<char>,
    ours: Seq<char>,
    theirs: Seq<char>,
    parts: ThreePartitions,
    classified: Option<Seq<ClassifiedView>>,
    rs: Seq<ReasonView>,
) -> Seq<ReasonView> {
    if ours == base || theirs == base {
        rs
    } else if !all_reliable(parts) {
        rs.push(
            ReasonView {
                kind: Kind::AnalysisUnavailable,
                subject: SubjectView::File,
                evidence: seq![EvidenceView::PartitionUnavailable],
            },
        )
    } else {
        match classified {
            None => rs.push(
                ReasonView {
                    kind: Kind::AnalysisUnavailable,
                    subject: SubjectView::File,
                    evidence: seq![EvidenceView::WeaveUnavailable],
                },
            ),
            Some(cs) => with_strict(rs, cs, parts, cs.len() as int),
        }
    }
}

fn count_label(cs: &Vec<Classified>, label: &String) -> (r: usize)
    ensures
        r == label_count(classified_views(cs@), label@),
{
    let ghost cv = classified_views(cs@);
    let mut n: usize = 0;
    let mut i: usize = 0;
    while i < cs.len()
        invariant
            i <= cs.len(),
            cv == classified_views(cs@),
            n == label_count(cv.take(i as int), label@),
            n <= i,
        decreases cs.len() - i,
    {
        assert(cv.take(i + 1).drop_last() =~= cv.take(i as int));
        if cs[i].label == *label {
            n += 1;
        }
        i += 1;
    }
    assert(cv.take(cs.len() as int) =~= cv);
    n
}

fn has_entity_reason(reasons: &Vec<Reason>, subject: &Subject) -> (r: bool)
    ensures
        r == has_key(reason_views(reasons@), Kind::EntityConflict, subject@),
{
    let ghost rv = reason_views(reasons@);
    let mut i: usize = 0;
    while i < reasons.len()
        invariant
            i <= reasons.len(),
            rv == reason_views(reasons@),
            forall|j: int| 0 <= j < i ==> !(rv[j].kind == Kind::EntityConflict && rv[j].subject == subject@),
        decreases reasons.len() - i,
    {
        assert(rv[i as int] == reasons@[i as int]@);
        if reasons[i].kind == Kind::EntityConflict && reasons[i].subject.same(subject) {
            return true;
        }
        i += 1;
    }
    false
}

/// The strict policy over a given classification (`None`: weave could not
/// analyse the file); exact over its arguments.
pub fn add_classified_reasons(
    base: &str,
    ours: &str,
    theirs: &str,
    parts: &ThreePartitions,
    classified: &Option<Vec<Classified>>,
    reasons: &mut Vec<Reason>,
)
    ensures
        reason_views(final(reasons)@) == strict_reasons(
            base@,
            ours@,
            theirs@,
            *parts,
            opt_classified_views(*classified),
            reason_views(old(reasons)@),
        ),
{
    let ghost start = reason_views(reasons@);
    if same_text(ours, base) || same_text(theirs, base) {
        return;
    }
    if !(parts.0.is_some() && parts.1.is_some() && parts.2.is_some()) {
        let ghost before = reasons@;
        reasons.push(Reason::new(Kind::AnalysisUnavailable, Subject::File, Evidence::PartitionUnavailable));
        assert(reason_views(reasons@) =~= reason_views(before).push(reasons@.last()@));
        return;
    }
    let cs = match classified {
        Some(cs) => cs,
        None => {
            let ghost before = reasons@;
            reasons.push(Reason::new(Kind::AnalysisUnavailable, Subject::File, Evidence::WeaveUnavailable));
            assert(reason_views(reasons@) =~= reason_views(before).push(reasons@.last()@));
            return;
        },
    };
    let ghost cv = classified_views(cs@);
    let mut i: usize = 0;
    while i < cs.len()
        invariant
            i <= cs.len(),
            cv == classified_views(cs@),
            reason_views(reasons@) == with_strict(start, cv, *parts, i as int),
        decreases cs.len() - i,
    {
        let c = &cs[i];
        assert(cv[i as int] == c@);
        let ours_change = Change::from(c.ours);
        let theirs_change = Change::from(c.theirs);
        if ours_change.changed() && theirs_change.changed() {
            let local = if count_label(cs, &c.label) == 1 {
                local_subject(parts, c.label.as_str(), None)
            } else {
                None
            };
            let subject = match local {
                Some(s) => s,
                None => Subject::Weave {
                    name: c.label.clone(),
                    source: WeaveSource::Classification,
                    ordinal: i,
                },
            };
            assert(subject@ == classified_subject(cv, i as int, *parts));
            if !has_entity_reason(reasons, &subject) {
                let ghost before = reasons@;
                reasons.push(
                    Reason::new(
                        Kind::EntityConflict,
                        subject,
                        Evidence::WeaveActions { ours: ours_change, theirs: theirs_change },
                    ),
                );
                assert(reason_views(reasons@) =~= reason_views(before).push(reasons@.last()@));
            }
        }
        i += 1;
    }
}

/// Whether two texts are equal.
pub fn same_text(a: &str, b: &str) -> (r: bool)
    ensures
        r == (a@ == b@),
{
    String::from_str(a) == String::from_str(b)
}

/// What `strict_classification` gives: weave's analysis where both sides
/// changed the file and all three partitions are reliable, else nothing.
pub open spec fn strict_classification_of(
    base: Seq<char>,
    ours: Seq<char>,
    theirs: Seq<char>,
    path: Seq<char>,
    parts: ThreePartitions,
) -> Option<Seq<ClassifiedView>> {
    if ours != base && theirs != base && all_reliable(parts) {
        weave_analysis(base, ours, theirs, path)
    } else {
        None
    }
}

/// weave's classification, asked for only where the strict policy reads it:
/// both sides changed the file and all three partitions are reliable.
pub fn strict_classification(
    base: &str,
    ours: &str,
    theirs: &str,
    path: &str,
    parts: &ThreePartitions,
) -> (r: Option<Vec<Classified>>)
    ensures
        r is Some ==> ours@ != base@ && theirs@ != base@ && all_reliable(*parts),
        !(ours@ != base@ && theirs@ != base@ && all_reliable(*parts)) ==> r is None,
        opt_classified_views(r) == if ours@ != base@ && theirs@ != base@ && all_reliable(*parts) {
            weave_analysis(base@, ours@, theirs@, path@)
        } else {
            None
        },
{
    if !same_text(ours, base) && !same_text(theirs, base) && parts.0.is_some() && parts.1.is_some()
        && parts.2.is_some() {
        weave_classification(base, ours, theirs, path)
    } else {
        None
    }
}

/// Supplements weave's refusals with the strict both-changed policy. A
/// byte-identical final pair is no clean fast path: both may differ from
/// base. Whatever weave's analysis gives, the reasons are those that
/// `add_classified_reasons` gives for it.
pub fn add_strict_entity_reasons(
    base: &str,
    ours: &str,
    theirs: &str,
    path: &str,
    parts: &ThreePartitions,
    reasons: &mut Vec<Reason>,
)
    ensures
        reason_views(final(reasons)@) == strict_reasons(
            base@,
            ours@,
            theirs@,
            *parts,
            strict_classification_of(base@, ours@, theirs@, path@, *parts),
            reason_views(old(reasons)@),
        ),
{
    let classified = strict_classification(base, ours, theirs, path, parts);
    add_classified_reasons(base, ours, theirs, parts, &classified, reasons);
}

} // verus!
