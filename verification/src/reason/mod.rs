//! The conflict-reason model: a parent reason (kind + subject) and the set of
//! independent evidence that supports it. Sources are derived from evidence.
use vstd::prelude::*;


pub mod order;
pub mod validate;
pub mod display;

pub use display::summaries;
pub use order::normalize;

verus! {

/// Where a piece of evidence comes from; derived from the evidence itself.
#[derive(Debug, Clone, Copy, PartialEq, Eq, Structural)]
pub enum Source {
    /// Git's line merge of the original text.
    Git,
    /// weave's classification or explicit refusal.
    Weave,
    /// This project's checks and conservative fallbacks.
    Analyze,
}

/// Parent reason category, independent of display style.
#[derive(Debug, Clone, Copy, PartialEq, Eq, Structural)]
pub enum Kind {
    LineConflict,
    EntityConflict,
    NonEntityConflict,
    AnalysisUnavailable,
    LayoutChanged,
    ModifyVsMove,
}

#[derive(Debug, Clone, Copy, PartialEq, Eq, Structural)]
pub enum WeaveSource {
    Classification,
    Refusal,
}

/// An explicit ours/theirs direction; branch names are never guessed.
#[derive(Debug, Clone, Copy, PartialEq, Eq, Structural)]
pub enum Side {
    Ours,
    Theirs,
}

/// Upstream action classification, kept complete.
#[derive(Debug, Clone, Copy, PartialEq, Eq, Structural)]
pub enum Change {
    Added,
    Absent,
    Deleted,
    Unchanged,
    Modified,
    Renamed,
    RenameModified,
}

/// The state of a move candidate's source on the other side.
#[derive(Debug, Clone, Copy, PartialEq, Eq, Structural)]
pub enum Opposite {
    Unchanged,
    Modified,
    Deleted,
    Unknown,
}

/// Exact comparison after name normalization; syntax mode ignores only gaps.
#[derive(Debug, Clone, Copy, PartialEq, Eq, Structural)]
pub enum RenameComparison {
    Text,
    Syntax { tokens: usize },
}

/// Start of an entity region (including attached comments).
#[derive(Debug)]
pub struct Location {
    pub path: String,
    pub entity: String,
    pub line: usize,
}

/// The exact target a reason applies to. The file path is held outside.
#[derive(Debug)]
pub enum Subject {
    File,
    Entity { entity_type: String, name: String },
    Gap { key: String, label: String },
    Weave { name: String, source: WeaveSource, ordinal: usize },
    Move { side: Side, base: Location, target: Location },
}

/// An explicit upstream refusal.
#[derive(Debug, PartialEq)]
pub enum WeaveRefusal {
    BothModified,
    ModifyDelete { modified_in: Side },
    BothAdded,
    RenameRename { base_name: String, ours_name: String, theirs_name: String },
    RenameModify { old_name: String, new_name: String, renamed_in: Side },
}

/// Textual basis of a cross-file candidate.
#[derive(Debug, PartialEq)]
pub enum MoveMatch {
    Exact,
    NameNormalized {
        grammar: String,
        entity_type: String,
        old_name: String,
        new_name: String,
        old_occurrences: usize,
        new_occurrences: usize,
        comparison: RenameComparison,
    },
}

/// A candidate of the same base entity on the other side (non-recursive).
#[derive(Debug, PartialEq)]
pub struct OppositeMove {
    pub target: Location,
    pub matched_by: MoveMatch,
    pub source_count: usize,
    pub destination_count: usize,
}

/// A cross-file delete/add candidate with all targets and its match basis.
#[derive(Debug, PartialEq)]
pub struct MoveEvidence {
    pub side: Side,
    pub base: Location,
    pub target: Location,
    pub source_count: usize,
    pub destination_count: usize,
    pub opposite: Opposite,
    pub matched_by: MoveMatch,
    pub opposite_moves: Vec<OppositeMove>,
}

/// Child evidence. It only affects a decision under a valid parent reason.
#[derive(Debug, PartialEq)]
pub enum Evidence {
    GitLineConflict,
    RawBothChanged,
    IdenticalEdits,
    WeaveActions { ours: Change, theirs: Change },
    WeaveRefusal { refusal: WeaveRefusal },
    PartitionUnavailable,
    WeaveUnavailable,
    LayoutChanged,
    MoveCandidate { candidate: Box<MoveEvidence> },
}

/// One parent and all of its evidence, kept strictly ordered and unique.
#[derive(Debug, PartialEq)]
pub struct Reason {
    pub kind: Kind,
    pub subject: Subject,
    pub evidence: Vec<Evidence>,
}

// ---------------------------------------------------------------------------
// Mathematical views: every string is seen as its character sequence.
// ---------------------------------------------------------------------------

pub struct LocationView {
    pub path: Seq<char>,
    pub entity: Seq<char>,
    pub line: nat,
}

pub enum SubjectView {
    File,
    Entity { entity_type: Seq<char>, name: Seq<char> },
    Gap { key: Seq<char>, label: Seq<char> },
    Weave { name: Seq<char>, source: WeaveSource, ordinal: nat },
    Move { side: Side, base: LocationView, target: LocationView },
}

pub enum WeaveRefusalView {
    BothModified,
    ModifyDelete { modified_in: Side },
    BothAdded,
    RenameRename { base_name: Seq<char>, ours_name: Seq<char>, theirs_name: Seq<char> },
    RenameModify { old_name: Seq<char>, new_name: Seq<char>, renamed_in: Side },
}

pub enum MoveMatchView {
    Exact,
    NameNormalized {
        grammar: Seq<char>,
        entity_type: Seq<char>,
        old_name: Seq<char>,
        new_name: Seq<char>,
        old_occurrences: nat,
        new_occurrences: nat,
        comparison: RenameComparison,
    },
}

pub struct OppositeMoveView {
    pub target: LocationView,
    pub matched_by: MoveMatchView,
    pub source_count: nat,
    pub destination_count: nat,
}

pub struct MoveEvidenceView {
    pub side: Side,
    pub base: LocationView,
    pub target: LocationView,
    pub source_count: nat,
    pub destination_count: nat,
    pub opposite: Opposite,
    pub matched_by: MoveMatchView,
    pub opposite_moves: Seq<OppositeMoveView>,
}

pub enum EvidenceView {
    GitLineConflict,
    RawBothChanged,
    IdenticalEdits,
    WeaveActions { ours: Change, theirs: Change },
    WeaveRefusal { refusal: WeaveRefusalView },
    PartitionUnavailable,
    WeaveUnavailable,
    LayoutChanged,
    MoveCandidate { candidate: MoveEvidenceView },
}

pub struct ReasonView {
    pub kind: Kind,
    pub subject: SubjectView,
    pub evidence: Seq<EvidenceView>,
}

impl View for Location {
    type V = LocationView;

    open spec fn view(&self) -> LocationView {
        LocationView { path: self.path@, entity: self.entity@, line: self.line as nat }
    }
}

impl View for Subject {
    type V = SubjectView;

    open spec fn view(&self) -> SubjectView {
        match self {
            Subject::File => SubjectView::File,
            Subject::Entity { entity_type, name } => SubjectView::Entity {
                entity_type: entity_type@,
                name: name@,
            },
            Subject::Gap { key, label } => SubjectView::Gap { key: key@, label: label@ },
            Subject::Weave { name, source, ordinal } => SubjectView::Weave {
                name: name@,
                source: *source,
                ordinal: *ordinal as nat,
            },
            Subject::Move { side, base, target } => SubjectView::Move {
                side: *side,
                base: base@,
                target: target@,
            },
        }
    }
}

impl View for WeaveRefusal {
    type V = WeaveRefusalView;

    open spec fn view(&self) -> WeaveRefusalView {
        match self {
            WeaveRefusal::BothModified => WeaveRefusalView::BothModified,
            WeaveRefusal::ModifyDelete { modified_in } => WeaveRefusalView::ModifyDelete {
                modified_in: *modified_in,
            },
            WeaveRefusal::BothAdded => WeaveRefusalView::BothAdded,
            WeaveRefusal::RenameRename { base_name, ours_name, theirs_name } =>
                WeaveRefusalView::RenameRename {
                    base_name: base_name@,
                    ours_name: ours_name@,
                    theirs_name: theirs_name@,
                },
            WeaveRefusal::RenameModify { old_name, new_name, renamed_in } =>
                WeaveRefusalView::RenameModify {
                    old_name: old_name@,
                    new_name: new_name@,
                    renamed_in: *renamed_in,
                },
        }
    }
}

impl View for MoveMatch {
    type V = MoveMatchView;

    open spec fn view(&self) -> MoveMatchView {
        match self {
            MoveMatch::Exact => MoveMatchView::Exact,
            MoveMatch::NameNormalized {
                grammar,
                entity_type,
                old_name,
                new_name,
                old_occurrences,
                new_occurrences,
                comparison,
            } => MoveMatchView::NameNormalized {
                grammar: grammar@,
                entity_type: entity_type@,
                old_name: old_name@,
                new_name: new_name@,
                old_occurrences: *old_occurrences as nat,
                new_occurrences: *new_occurrences as nat,
                comparison: *comparison,
            },
        }
    }
}

impl View for OppositeMove {
    type V = OppositeMoveView;

    open spec fn view(&self) -> OppositeMoveView {
        OppositeMoveView {
            target: self.target@,
            matched_by: self.matched_by@,
            source_count: self.source_count as nat,
            destination_count: self.destination_count as nat,
        }
    }
}

pub open spec fn opposite_views(v: Seq<OppositeMove>) -> Seq<OppositeMoveView> {
    v.map_values(|o: OppositeMove| o@)
}

impl View for MoveEvidence {
    type V = MoveEvidenceView;

    open spec fn view(&self) -> MoveEvidenceView {
        MoveEvidenceView {
            side: self.side,
            base: self.base@,
            target: self.target@,
            source_count: self.source_count as nat,
            destination_count: self.destination_count as nat,
            opposite: self.opposite,
            matched_by: self.matched_by@,
            opposite_moves: opposite_views(self.opposite_moves@),
        }
    }
}

impl View for Evidence {
    type V = EvidenceView;

    open spec fn view(&self) -> EvidenceView {
        match self {
            Evidence::GitLineConflict => EvidenceView::GitLineConflict,
            Evidence::RawBothChanged => EvidenceView::RawBothChanged,
            Evidence::IdenticalEdits => EvidenceView::IdenticalEdits,
            Evidence::WeaveActions { ours, theirs } => EvidenceView::WeaveActions {
                ours: *ours,
                theirs: *theirs,
            },
            Evidence::WeaveRefusal { refusal } => EvidenceView::WeaveRefusal { refusal: refusal@ },
            Evidence::PartitionUnavailable => EvidenceView::PartitionUnavailable,
            Evidence::WeaveUnavailable => EvidenceView::WeaveUnavailable,
            Evidence::LayoutChanged => EvidenceView::LayoutChanged,
            Evidence::MoveCandidate { candidate } => EvidenceView::MoveCandidate {
                candidate: (**candidate)@,
            },
        }
    }
}

pub open spec fn evidence_views(v: Seq<Evidence>) -> Seq<EvidenceView> {
    v.map_values(|e: Evidence| e@)
}

impl View for Reason {
    type V = ReasonView;

    open spec fn view(&self) -> ReasonView {
        ReasonView {
            kind: self.kind,
            subject: self.subject@,
            evidence: evidence_views(self.evidence@),
        }
    }
}

pub open spec fn reason_views(v: Seq<Reason>) -> Seq<ReasonView> {
    v.map_values(|r: Reason| r@)
}

// ---------------------------------------------------------------------------
// Copies and equality by value.
// ---------------------------------------------------------------------------

impl Location {
    pub fn copy(&self) -> (r: Location)
        ensures
            r@ == self@,
    {
        Location { path: self.path.clone(), entity: self.entity.clone(), line: self.line }
    }

    pub fn same(&self, other: &Location) -> (r: bool)
        ensures
            r == (self@ == other@),
    {
        self.line == other.line && self.path == other.path && self.entity == other.entity
    }
}

impl Subject {
    pub fn copy(&self) -> (r: Subject)
        ensures
            r@ == self@,
    {
        match self {
            Subject::File => Subject::File,
            Subject::Entity { entity_type, name } => Subject::Entity {
                entity_type: entity_type.clone(),
                name: name.clone(),
            },
            Subject::Gap { key, label } => Subject::Gap { key: key.clone(), label: label.clone() },
            Subject::Weave { name, source, ordinal } => Subject::Weave {
                name: name.clone(),
                source: *source,
                ordinal: *ordinal,
            },
            Subject::Move { side, base, target } => Subject::Move {
                side: *side,
                base: base.copy(),
                target: target.copy(),
            },
        }
    }

    pub fn same(&self, other: &Subject) -> (r: bool)
        ensures
            r == (self@ == other@),
    {
        match (self, other) {
            (Subject::File, Subject::File) => true,
            (
                Subject::Entity { entity_type: t1, name: n1 },
                Subject::Entity { entity_type: t2, name: n2 },
            ) => *t1 == *t2 && *n1 == *n2,
            (Subject::Gap { key: k1, label: l1 }, Subject::Gap { key: k2, label: l2 }) => *k1
                == *k2 && *l1 == *l2,
            (
                Subject::Weave { name: n1, source: s1, ordinal: o1 },
                Subject::Weave { name: n2, source: s2, ordinal: o2 },
            ) => *n1 == *n2 && *s1 == *s2 && *o1 == *o2,
            (
                Subject::Move { side: s1, base: b1, target: t1 },
                Subject::Move { side: s2, base: b2, target: t2 },
            ) => *s1 == *s2 && b1.same(b2) && t1.same(t2),
            _ => false,
        }
    }
}

impl PartialEq for Subject {
    fn eq(&self, other: &Subject) -> (r: bool) {
        self.same(other)
    }
}

impl vstd::std_specs::cmp::PartialEqSpecImpl for Subject {
    open spec fn obeys_eq_spec() -> bool {
        true
    }

    open spec fn eq_spec(&self, other: &Subject) -> bool {
        self@ == other@
    }
}

impl PartialEq for Location {
    fn eq(&self, other: &Location) -> (r: bool) {
        self.same(other)
    }
}

impl vstd::std_specs::cmp::PartialEqSpecImpl for Location {
    open spec fn obeys_eq_spec() -> bool {
        true
    }

    open spec fn eq_spec(&self, other: &Location) -> bool {
        self@ == other@
    }
}

impl WeaveRefusal {
    pub fn copy(&self) -> (r: WeaveRefusal)
        ensures
            r@ == self@,
    {
        match self {
            WeaveRefusal::BothModified => WeaveRefusal::BothModified,
            WeaveRefusal::ModifyDelete { modified_in } => WeaveRefusal::ModifyDelete {
                modified_in: *modified_in,
            },
            WeaveRefusal::BothAdded => WeaveRefusal::BothAdded,
            WeaveRefusal::RenameRename { base_name, ours_name, theirs_name } =>
                WeaveRefusal::RenameRename {
                    base_name: base_name.clone(),
                    ours_name: ours_name.clone(),
                    theirs_name: theirs_name.clone(),
                },
            WeaveRefusal::RenameModify { old_name, new_name, renamed_in } =>
                WeaveRefusal::RenameModify {
                    old_name: old_name.clone(),
                    new_name: new_name.clone(),
                    renamed_in: *renamed_in,
                },
        }
    }
}

impl MoveMatch {
    pub fn copy(&self) -> (r: MoveMatch)
        ensures
            r@ == self@,
    {
        match self {
            MoveMatch::Exact => MoveMatch::Exact,
            MoveMatch::NameNormalized {
                grammar,
                entity_type,
                old_name,
                new_name,
                old_occurrences,
                new_occurrences,
                comparison,
            } => MoveMatch::NameNormalized {
                grammar: grammar.clone(),
                entity_type: entity_type.clone(),
                old_name: old_name.clone(),
                new_name: new_name.clone(),
                old_occurrences: *old_occurrences,
                new_occurrences: *new_occurrences,
                comparison: *comparison,
            },
        }
    }
}

impl OppositeMove {
    pub fn copy(&self) -> (r: OppositeMove)
        ensures
            r@ == self@,
    {
        OppositeMove {
            target: self.target.copy(),
            matched_by: self.matched_by.copy(),
            source_count: self.source_count,
            destination_count: self.destination_count,
        }
    }
}

pub fn copy_opposite_moves(v: &Vec<OppositeMove>) -> (r: Vec<OppositeMove>)
    ensures
        opposite_views(r@) == opposite_views(v@),
{
    let mut r: Vec<OppositeMove> = Vec::new();
    let mut i: usize = 0;
    while i < v.len()
        invariant
            i <= v.len(),
            r@.len() == i,
            forall|j: int| 0 <= j < i ==> #[trigger] r@[j]@ == v@[j]@,
        decreases v.len() - i,
    {
        r.push(v[i].copy());
        i += 1;
    }
    assert(opposite_views(r@) =~= opposite_views(v@));
    r
}

impl MoveEvidence {
    pub fn copy(&self) -> (r: MoveEvidence)
        ensures
            r@ == self@,
    {
        MoveEvidence {
            side: self.side,
            base: self.base.copy(),
            target: self.target.copy(),
            source_count: self.source_count,
            destination_count: self.destination_count,
            opposite: self.opposite,
            matched_by: self.matched_by.copy(),
            opposite_moves: copy_opposite_moves(&self.opposite_moves),
        }
    }
}

impl Evidence {
    pub fn copy(&self) -> (r: Evidence)
        ensures
            r@ == self@,
    {
        match self {
            Evidence::GitLineConflict => Evidence::GitLineConflict,
            Evidence::RawBothChanged => Evidence::RawBothChanged,
            Evidence::IdenticalEdits => Evidence::IdenticalEdits,
            Evidence::WeaveActions { ours, theirs } => Evidence::WeaveActions {
                ours: *ours,
                theirs: *theirs,
            },
            Evidence::WeaveRefusal { refusal } => Evidence::WeaveRefusal { refusal: refusal.copy() },
            Evidence::PartitionUnavailable => Evidence::PartitionUnavailable,
            Evidence::WeaveUnavailable => Evidence::WeaveUnavailable,
            Evidence::LayoutChanged => Evidence::LayoutChanged,
            Evidence::MoveCandidate { candidate } => Evidence::MoveCandidate {
                candidate: Box::new(candidate.copy()),
            },
        }
    }
}

pub fn copy_evidence(v: &Vec<Evidence>) -> (r: Vec<Evidence>)
    ensures
        evidence_views(r@) == evidence_views(v@),
{
    let mut r: Vec<Evidence> = Vec::new();
    let mut i: usize = 0;
    while i < v.len()
        invariant
            i <= v.len(),
            r@.len() == i,
            forall|j: int| 0 <= j < i ==> #[trigger] r@[j]@ == v@[j]@,
        decreases v.len() - i,
    {
        r.push(v[i].copy());
        i += 1;
    }
    assert(evidence_views(r@) =~= evidence_views(v@));
    r
}

impl Reason {
    pub fn copy(&self) -> (r: Reason)
        ensures
            r@ == self@,
    {
        Reason {
            kind: self.kind,
            subject: self.subject.copy(),
            evidence: copy_evidence(&self.evidence),
        }
    }
}

pub fn copy_reasons(v: &Vec<Reason>) -> (r: Vec<Reason>)
    ensures
        reason_views(r@) == reason_views(v@),
{
    let mut r: Vec<Reason> = Vec::new();
    let mut i: usize = 0;
    while i < v.len()
        invariant
            i <= v.len(),
            r@.len() == i,
            forall|j: int| 0 <= j < i ==> #[trigger] r@[j]@ == v@[j]@,
        decreases v.len() - i,
    {
        r.push(v[i].copy());
        i += 1;
    }
    assert(reason_views(r@) =~= reason_views(v@));
    r
}

// ---------------------------------------------------------------------------
// Classification facts.
// ---------------------------------------------------------------------------

pub open spec fn change_changed(c: Change) -> bool {
    !(c == Change::Absent || c == Change::Unchanged)
}

impl Change {
    /// Whether this side changed the entity relative to base.
    pub fn changed(self) -> (r: bool)
        ensures
            r == change_changed(self),
    {
        !matches!(self, Change::Absent | Change::Unchanged)
    }
}

pub open spec fn evidence_source(e: EvidenceView) -> Source {
    match e {
        EvidenceView::GitLineConflict => Source::Git,
        EvidenceView::WeaveActions { .. } | EvidenceView::WeaveRefusal { .. } => Source::Weave,
        _ => Source::Analyze,
    }
}

/// Evidence that is always displayed, even in the folded summary.
pub open spec fn evidence_necessary(e: EvidenceView) -> bool {
    !(e is GitLineConflict || e is RawBothChanged || e is IdenticalEdits || e is LayoutChanged)
}

impl Evidence {
    pub fn source(&self) -> (r: Source)
        ensures
            r == evidence_source(self@),
    {
        match self {
            Evidence::GitLineConflict => Source::Git,
            Evidence::WeaveActions { .. } | Evidence::WeaveRefusal { .. } => Source::Weave,
            _ => Source::Analyze,
        }
    }

    pub fn necessary(&self) -> (r: bool)
        ensures
            r == evidence_necessary(self@),
    {
        !matches!(
            self,
            Evidence::GitLineConflict | Evidence::RawBothChanged | Evidence::IdenticalEdits
                | Evidence::LayoutChanged
        )
    }
}

pub open spec fn side_opposite(s: Side) -> Side {
    match s {
        Side::Ours => Side::Theirs,
        Side::Theirs => Side::Ours,
    }
}

impl MoveEvidence {
    pub fn opposite_side(&self) -> (r: Side)
        ensures
            r == side_opposite(self.side),
    {
        match self.side {
            Side::Ours => Side::Theirs,
            Side::Theirs => Side::Ours,
        }
    }
}

impl Reason {
    /// A reason with exactly one piece of evidence.
    pub fn new(kind: Kind, subject: Subject, evidence: Evidence) -> (r: Reason)
        ensures
            r@ == (ReasonView { kind, subject: subject@, evidence: seq![evidence@] }),
    {
        let mut v: Vec<Evidence> = Vec::new();
        v.push(evidence);
        let r = Reason { kind, subject, evidence: v };
        assert(r@.evidence =~= seq![evidence@]);
        r
    }
}

} // verus!
