//! The ordering of reasons and evidence: variants in declaration order, then
//! fields in declaration order; strings by code point, sequences
//! lexicographically (a proper prefix sorts first). This is the order under
//! which evidence sets and grouped reasons are kept.
use vstd::prelude::*;
use crate::text::chars_of;
use super::{
    Evidence, Location, MoveEvidence, MoveMatch, OppositeMove, Reason, ReasonView, Subject,
    WeaveRefusal, evidence_views, reason_views,
    Change, EvidenceView, Kind, LocationView, MoveEvidenceView, MoveMatchView, Opposite,
    OppositeMoveView, RenameComparison, Side, SubjectView, WeaveRefusalView, WeaveSource,
};

verus! {

/// -1, 0 or 1.
pub open spec fn int_compare(a: int, b: int) -> int {
    if a < b {
        -1
    } else if a == b {
        0
    } else {
        1
    }
}

/// The first nonzero comparison wins.
pub open spec fn then_compare(first: int, second: int) -> int {
    if first != 0 {
        first
    } else {
        second
    }
}

/// A comparison that is antisymmetric, agrees with equality and is transitive.
pub open spec fn total_order<T>(c: spec_fn(T, T) -> int) -> bool {
    &&& forall|a: T, b: T| #[trigger] c(a, b) == -c(b, a)
    &&& forall|a: T, b: T| #[trigger] c(a, b) == 0 <==> a == b
    &&& forall|a: T, b: T| -1 <= #[trigger] c(a, b) <= 1
    &&& forall|a: T, b: T, d: T|
        #![trigger c(a, b), c(b, d)]
        c(a, b) < 0 && c(b, d) < 0 ==> c(a, d) < 0
}

/// Lexicographic order of sequences under an element order.
pub open spec fn seq_compare<T>(c: spec_fn(T, T) -> int, a: Seq<T>, b: Seq<T>) -> int
    decreases a.len(),
{
    if a.len() == 0 {
        if b.len() == 0 {
            0
        } else {
            -1
        }
    } else if b.len() == 0 {
        1
    } else {
        then_compare(c(a[0], b[0]), seq_compare(c, a.drop_first(), b.drop_first()))
    }
}

pub open spec fn char_compare(a: char, b: char) -> int {
    int_compare(a as u32 as int, b as u32 as int)
}

/// Code-point order of strings; equal to the byte order of their UTF-8 form.
pub open spec fn str_compare(a: Seq<char>, b: Seq<char>) -> int {
    seq_compare(|x: char, y: char| char_compare(x, y), a, b)
}

pub proof fn lemma_char_order()
    ensures
        total_order(|x: char, y: char| char_compare(x, y)),
{
    let c = |x: char, y: char| char_compare(x, y);
    assert forall|a: char, b: char| #[trigger] c(a, b) == 0 <==> a == b by {
        if a as u32 == b as u32 {
            vstd::utf8::char_u32_cast(a, a as u32);
            vstd::utf8::char_u32_cast(b, b as u32);
        }
    }
}

proof fn lemma_seq_compare_basic<T>(c: spec_fn(T, T) -> int, a: Seq<T>, b: Seq<T>)
    requires
        total_order(c),
    ensures
        seq_compare(c, a, b) == -seq_compare(c, b, a),
        seq_compare(c, a, b) == 0 <==> a == b,
        -1 <= seq_compare(c, a, b) <= 1,
    decreases a.len(),
{
    if a.len() > 0 && b.len() > 0 {
        lemma_seq_compare_basic(c, a.drop_first(), b.drop_first());
        assert(c(a[0], b[0]) == -c(b[0], a[0]));
        if seq_compare(c, a, b) == 0 {
            assert(a[0] == b[0]);
            assert(a =~= seq![a[0]] + a.drop_first());
            assert(b =~= seq![b[0]] + b.drop_first());
        }
        if a == b {
            assert(c(a[0], b[0]) == 0);
            assert(a.drop_first() == b.drop_first());
        }
    } else if a.len() == 0 && b.len() == 0 {
        assert(a =~= b);
    }
}

proof fn lemma_seq_compare_trans<T>(c: spec_fn(T, T) -> int, a: Seq<T>, b: Seq<T>, d: Seq<T>)
    requires
        total_order(c),
        seq_compare(c, a, b) < 0,
        seq_compare(c, b, d) < 0,
    ensures
        seq_compare(c, a, d) < 0,
    decreases a.len(),
{
    if a.len() > 0 && b.len() > 0 && d.len() > 0 {
        lemma_seq_compare_basic(c, a.drop_first(), b.drop_first());
        lemma_seq_compare_basic(c, b.drop_first(), d.drop_first());
        let (x, y, z) = (a[0], b[0], d[0]);
        assert(c(x, y) == 0 ==> x == y);
        assert(c(y, z) == 0 ==> y == z);
        if c(x, y) == 0 && c(y, z) == 0 {
            lemma_seq_compare_trans(c, a.drop_first(), b.drop_first(), d.drop_first());
        }
    }
}

pub proof fn lemma_seq_order<T>(c: spec_fn(T, T) -> int)
    requires
        total_order(c),
    ensures
        total_order(|x: Seq<T>, y: Seq<T>| seq_compare(c, x, y)),
{
    let s = |x: Seq<T>, y: Seq<T>| seq_compare(c, x, y);
    assert forall|a: Seq<T>, b: Seq<T>| #[trigger] s(a, b) == -s(b, a) by {
        lemma_seq_compare_basic(c, a, b);
    }
    assert forall|a: Seq<T>, b: Seq<T>| #[trigger] s(a, b) == 0 <==> a == b by {
        lemma_seq_compare_basic(c, a, b);
    }
    assert forall|a: Seq<T>, b: Seq<T>| -1 <= #[trigger] s(a, b) <= 1 by {
        lemma_seq_compare_basic(c, a, b);
    }
    assert forall|a: Seq<T>, b: Seq<T>, d: Seq<T>|
        #![trigger s(a, b), s(b, d)]
        s(a, b) < 0 && s(b, d) < 0 implies s(a, d) < 0 by {
        lemma_seq_compare_trans(c, a, b, d);
    }
}

pub proof fn lemma_str_order()
    ensures
        total_order(|x: Seq<char>, y: Seq<char>| str_compare(x, y)),
{
    lemma_char_order();
    lemma_seq_order(|x: char, y: char| char_compare(x, y));
    let s1 = |x: Seq<char>, y: Seq<char>| str_compare(x, y);
    let s2 = |x: Seq<char>, y: Seq<char>| seq_compare(|x: char, y: char| char_compare(x, y), x, y);
    assert(s1 =~= s2);
}


pub proof fn lemma_str(a: Seq<char>, b: Seq<char>, d: Seq<char>)
    ensures
        str_compare(a, b) == -str_compare(b, a),
        str_compare(a, b) == 0 <==> a == b,
        -1 <= str_compare(a, b) <= 1,
        str_compare(a, b) < 0 && str_compare(b, d) < 0 ==> str_compare(a, d) < 0,
{
    lemma_str_order();
    let c = |x: Seq<char>, y: Seq<char>| str_compare(x, y);
    assert(c(a, b) == -c(b, a));
    assert(c(a, b) == 0 <==> a == b);
    assert(-1 <= c(a, b) <= 1);
    assert(c(a, b) < 0 && c(b, d) < 0 ==> c(a, d) < 0);
}

/// Facts about three values under one comparison, in the shape every
/// composite proof below needs.
pub open spec fn order_facts(ab: int, ba: int, bd: int, ad: int, eq_ab: bool) -> bool {
    &&& ab == -ba
    &&& ab == 0 <==> eq_ab
    &&& -1 <= ab <= 1
    &&& ab < 0 && bd < 0 ==> ad < 0
}

// ---------------------------------------------------------------------------
// Field-free enums: compare by declaration position.
// ---------------------------------------------------------------------------

pub open spec fn side_rank(s: Side) -> int {
    match s {
        Side::Ours => 0,
        Side::Theirs => 1,
    }
}

pub open spec fn kind_rank(k: Kind) -> int {
    match k {
        Kind::LineConflict => 0,
        Kind::EntityConflict => 1,
        Kind::NonEntityConflict => 2,
        Kind::AnalysisUnavailable => 3,
        Kind::LayoutChanged => 4,
        Kind::ModifyVsMove => 5,
    }
}

pub open spec fn change_rank(c: Change) -> int {
    match c {
        Change::Added => 0,
        Change::Absent => 1,
        Change::Deleted => 2,
        Change::Unchanged => 3,
        Change::Modified => 4,
        Change::Renamed => 5,
        Change::RenameModified => 6,
    }
}

pub open spec fn opposite_rank(o: Opposite) -> int {
    match o {
        Opposite::Unchanged => 0,
        Opposite::Modified => 1,
        Opposite::Deleted => 2,
        Opposite::Unknown => 3,
    }
}

pub open spec fn weave_source_rank(w: WeaveSource) -> int {
    match w {
        WeaveSource::Classification => 0,
        WeaveSource::Refusal => 1,
    }
}

pub open spec fn comparison_compare(a: RenameComparison, b: RenameComparison) -> int {
    match (a, b) {
        (RenameComparison::Text, RenameComparison::Text) => 0,
        (RenameComparison::Text, RenameComparison::Syntax { .. }) => -1,
        (RenameComparison::Syntax { .. }, RenameComparison::Text) => 1,
        (RenameComparison::Syntax { tokens: x }, RenameComparison::Syntax { tokens: y }) =>
            int_compare(x as int, y as int),
    }
}

pub proof fn lemma_simple_enums(
    s: (Side, Side, Side),
    k: (Kind, Kind, Kind),
    c: (Change, Change, Change),
    o: (Opposite, Opposite, Opposite),
    w: (WeaveSource, WeaveSource, WeaveSource),
    r: (RenameComparison, RenameComparison, RenameComparison),
)
    ensures
        order_facts(
            int_compare(side_rank(s.0), side_rank(s.1)),
            int_compare(side_rank(s.1), side_rank(s.0)),
            int_compare(side_rank(s.1), side_rank(s.2)),
            int_compare(side_rank(s.0), side_rank(s.2)),
            s.0 == s.1,
        ),
        order_facts(
            int_compare(kind_rank(k.0), kind_rank(k.1)),
            int_compare(kind_rank(k.1), kind_rank(k.0)),
            int_compare(kind_rank(k.1), kind_rank(k.2)),
            int_compare(kind_rank(k.0), kind_rank(k.2)),
            k.0 == k.1,
        ),
        order_facts(
            int_compare(change_rank(c.0), change_rank(c.1)),
            int_compare(change_rank(c.1), change_rank(c.0)),
            int_compare(change_rank(c.1), change_rank(c.2)),
            int_compare(change_rank(c.0), change_rank(c.2)),
            c.0 == c.1,
        ),
        order_facts(
            int_compare(opposite_rank(o.0), opposite_rank(o.1)),
            int_compare(opposite_rank(o.1), opposite_rank(o.0)),
            int_compare(opposite_rank(o.1), opposite_rank(o.2)),
            int_compare(opposite_rank(o.0), opposite_rank(o.2)),
            o.0 == o.1,
        ),
        order_facts(
            int_compare(weave_source_rank(w.0), weave_source_rank(w.1)),
            int_compare(weave_source_rank(w.1), weave_source_rank(w.0)),
            int_compare(weave_source_rank(w.1), weave_source_rank(w.2)),
            int_compare(weave_source_rank(w.0), weave_source_rank(w.2)),
            w.0 == w.1,
        ),
        order_facts(
            comparison_compare(r.0, r.1),
            comparison_compare(r.1, r.0),
            comparison_compare(r.1, r.2),
            comparison_compare(r.0, r.2),
            r.0 == r.1,
        ),
{
}

// ---------------------------------------------------------------------------
// Records and enums with data.
// ---------------------------------------------------------------------------

pub open spec fn location_compare(a: LocationView, b: LocationView) -> int {
    then_compare(
        str_compare(a.path, b.path),
        then_compare(str_compare(a.entity, b.entity), int_compare(a.line as int, b.line as int)),
    )
}

pub proof fn lemma_location(a: LocationView, b: LocationView, d: LocationView)
    ensures
        order_facts(
            location_compare(a, b),
            location_compare(b, a),
            location_compare(b, d),
            location_compare(a, d),
            a == b,
        ),
{
    lemma_str(a.path, b.path, d.path);
    lemma_str(b.path, d.path, a.path);
    lemma_str(a.path, d.path, b.path);
    lemma_str(b.path, a.path, d.path);
    lemma_str(a.entity, b.entity, d.entity);
    lemma_str(b.entity, d.entity, a.entity);
    lemma_str(a.entity, d.entity, b.entity);
    lemma_str(b.entity, a.entity, d.entity);
}

pub open spec fn subject_rank(s: SubjectView) -> int {
    match s {
        SubjectView::File => 0,
        SubjectView::Entity { .. } => 1,
        SubjectView::Gap { .. } => 2,
        SubjectView::Weave { .. } => 3,
        SubjectView::Move { .. } => 4,
    }
}

pub open spec fn subject_compare(a: SubjectView, b: SubjectView) -> int {
    match (a, b) {
        (
            SubjectView::Entity { entity_type: t1, name: n1 },
            SubjectView::Entity { entity_type: t2, name: n2 },
        ) => then_compare(str_compare(t1, t2), str_compare(n1, n2)),
        (SubjectView::Gap { key: k1, label: l1 }, SubjectView::Gap { key: k2, label: l2 }) =>
            then_compare(str_compare(k1, k2), str_compare(l1, l2)),
        (
            SubjectView::Weave { name: n1, source: s1, ordinal: o1 },
            SubjectView::Weave { name: n2, source: s2, ordinal: o2 },
        ) => then_compare(
            str_compare(n1, n2),
            then_compare(
                int_compare(weave_source_rank(s1), weave_source_rank(s2)),
                int_compare(o1 as int, o2 as int),
            ),
        ),
        (
            SubjectView::Move { side: s1, base: b1, target: t1 },
            SubjectView::Move { side: s2, base: b2, target: t2 },
        ) => then_compare(
            int_compare(side_rank(s1), side_rank(s2)),
            then_compare(location_compare(b1, b2), location_compare(t1, t2)),
        ),
        _ => int_compare(subject_rank(a), subject_rank(b)),
    }
}

pub proof fn lemma_subject(a: SubjectView, b: SubjectView, d: SubjectView)
    ensures
        order_facts(
            subject_compare(a, b),
            subject_compare(b, a),
            subject_compare(b, d),
            subject_compare(a, d),
            a == b,
        ),
{
    match (a, b, d) {
        (
            SubjectView::Entity { entity_type: t1, name: n1 },
            SubjectView::Entity { entity_type: t2, name: n2 },
            SubjectView::Entity { entity_type: t3, name: n3 },
        ) => {
            lemma_str(t1, t2, t3);
            lemma_str(t2, t3, t1);
            lemma_str(t1, t3, t2);
            lemma_str(n1, n2, n3);
            lemma_str(n2, n3, n1);
            lemma_str(n1, n3, n2);
        },
        (
            SubjectView::Gap { key: t1, label: n1 },
            SubjectView::Gap { key: t2, label: n2 },
            SubjectView::Gap { key: t3, label: n3 },
        ) => {
            lemma_str(t1, t2, t3);
            lemma_str(t2, t3, t1);
            lemma_str(t1, t3, t2);
            lemma_str(n1, n2, n3);
            lemma_str(n2, n3, n1);
            lemma_str(n1, n3, n2);
        },
        (
            SubjectView::Weave { name: n1, source: s1, ordinal: _ },
            SubjectView::Weave { name: n2, source: s2, ordinal: _ },
            SubjectView::Weave { name: n3, source: s3, ordinal: _ },
        ) => {
            lemma_str(n1, n2, n3);
            lemma_str(n2, n3, n1);
            lemma_str(n1, n3, n2);
            lemma_simple_enums(
                (Side::Ours, Side::Ours, Side::Ours),
                (Kind::LineConflict, Kind::LineConflict, Kind::LineConflict),
                (Change::Added, Change::Added, Change::Added),
                (Opposite::Unchanged, Opposite::Unchanged, Opposite::Unchanged),
                (s1, s2, s3),
                (RenameComparison::Text, RenameComparison::Text, RenameComparison::Text),
            );
        },
        (
            SubjectView::Move { side: _, base: b1, target: t1 },
            SubjectView::Move { side: _, base: b2, target: t2 },
            SubjectView::Move { side: _, base: b3, target: t3 },
        ) => {
            lemma_location(b1, b2, b3);
            lemma_location(b2, b3, b1);
            lemma_location(b1, b3, b2);
            lemma_location(t1, t2, t3);
            lemma_location(t2, t3, t1);
            lemma_location(t1, t3, t2);
        },
        _ => {
            match (a, b) {
                (
                    SubjectView::Entity { entity_type: t1, name: n1 },
                    SubjectView::Entity { entity_type: t2, name: n2 },
                ) => {
                    lemma_str(t1, t2, t2);
                    lemma_str(n1, n2, n2);
                },
                (
                    SubjectView::Gap { key: t1, label: n1 },
                    SubjectView::Gap { key: t2, label: n2 },
                ) => {
                    lemma_str(t1, t2, t2);
                    lemma_str(n1, n2, n2);
                },
                (
                    SubjectView::Weave { name: n1, source: s1, ordinal: _ },
                    SubjectView::Weave { name: n2, source: s2, ordinal: _ },
                ) => {
                    lemma_str(n1, n2, n2);
                    lemma_simple_enums(
                        (Side::Ours, Side::Ours, Side::Ours),
                        (Kind::LineConflict, Kind::LineConflict, Kind::LineConflict),
                        (Change::Added, Change::Added, Change::Added),
                        (Opposite::Unchanged, Opposite::Unchanged, Opposite::Unchanged),
                        (s1, s2, s2),
                        (RenameComparison::Text, RenameComparison::Text, RenameComparison::Text),
                    );
                },
                (
                    SubjectView::Move { side: _, base: b1, target: t1 },
                    SubjectView::Move { side: _, base: b2, target: t2 },
                ) => {
                    lemma_location(b1, b2, b2);
                    lemma_location(t1, t2, t2);
                },
                _ => {},
            }
        },
    }
}


pub open spec fn refusal_rank(r: WeaveRefusalView) -> int {
    match r {
        WeaveRefusalView::BothModified => 0,
        WeaveRefusalView::ModifyDelete { .. } => 1,
        WeaveRefusalView::BothAdded => 2,
        WeaveRefusalView::RenameRename { .. } => 3,
        WeaveRefusalView::RenameModify { .. } => 4,
    }
}

pub open spec fn refusal_compare(a: WeaveRefusalView, b: WeaveRefusalView) -> int {
    match (a, b) {
        (
            WeaveRefusalView::ModifyDelete { modified_in: x },
            WeaveRefusalView::ModifyDelete { modified_in: y },
        ) => int_compare(side_rank(x), side_rank(y)),
        (
            WeaveRefusalView::RenameRename { base_name: b1, ours_name: o1, theirs_name: t1 },
            WeaveRefusalView::RenameRename { base_name: b2, ours_name: o2, theirs_name: t2 },
        ) => then_compare(
            str_compare(b1, b2),
            then_compare(str_compare(o1, o2), str_compare(t1, t2)),
        ),
        (
            WeaveRefusalView::RenameModify { old_name: o1, new_name: n1, renamed_in: r1 },
            WeaveRefusalView::RenameModify { old_name: o2, new_name: n2, renamed_in: r2 },
        ) => then_compare(
            str_compare(o1, o2),
            then_compare(str_compare(n1, n2), int_compare(side_rank(r1), side_rank(r2))),
        ),
        _ => int_compare(refusal_rank(a), refusal_rank(b)),
    }
}

proof fn lemma_side_pair(x: Side, y: Side, z: Side)
    ensures
        order_facts(
            int_compare(side_rank(x), side_rank(y)),
            int_compare(side_rank(y), side_rank(x)),
            int_compare(side_rank(y), side_rank(z)),
            int_compare(side_rank(x), side_rank(z)),
            x == y,
        ),
{
}

proof fn lemma_refusal_pair(a: WeaveRefusalView, b: WeaveRefusalView)
    ensures
        refusal_compare(a, b) == -refusal_compare(b, a),
        refusal_compare(a, b) == 0 <==> a == b,
        -1 <= refusal_compare(a, b) <= 1,
{
    match (a, b) {
        (
            WeaveRefusalView::ModifyDelete { modified_in: x },
            WeaveRefusalView::ModifyDelete { modified_in: y },
        ) => {
            lemma_side_pair(x, y, y);
        },
        (
            WeaveRefusalView::RenameRename { base_name: b1, ours_name: o1, theirs_name: t1 },
            WeaveRefusalView::RenameRename { base_name: b2, ours_name: o2, theirs_name: t2 },
        ) => {
            lemma_str(b1, b2, b2);
            lemma_str(o1, o2, o2);
            lemma_str(t1, t2, t2);
        },
        (
            WeaveRefusalView::RenameModify { old_name: o1, new_name: n1, renamed_in: r1 },
            WeaveRefusalView::RenameModify { old_name: o2, new_name: n2, renamed_in: r2 },
        ) => {
            lemma_str(o1, o2, o2);
            lemma_str(n1, n2, n2);
            lemma_side_pair(r1, r2, r2);
        },
        _ => {},
    }
}

pub proof fn lemma_refusal(a: WeaveRefusalView, b: WeaveRefusalView, d: WeaveRefusalView)
    ensures
        order_facts(
            refusal_compare(a, b),
            refusal_compare(b, a),
            refusal_compare(b, d),
            refusal_compare(a, d),
            a == b,
        ),
{
    lemma_refusal_pair(a, b);
    lemma_refusal_pair(b, d);
    lemma_refusal_pair(a, d);
    match (a, b, d) {
        (
            WeaveRefusalView::ModifyDelete { modified_in: x },
            WeaveRefusalView::ModifyDelete { modified_in: y },
            WeaveRefusalView::ModifyDelete { modified_in: z },
        ) => {
            lemma_side_pair(x, y, z);
        },
        (
            WeaveRefusalView::RenameRename { base_name: b1, ours_name: o1, theirs_name: t1 },
            WeaveRefusalView::RenameRename { base_name: b2, ours_name: o2, theirs_name: t2 },
            WeaveRefusalView::RenameRename { base_name: b3, ours_name: o3, theirs_name: t3 },
        ) => {
            lemma_str(b1, b2, b3);
            lemma_str(b2, b3, b1);
            lemma_str(b1, b3, b2);
            lemma_str(o1, o2, o3);
            lemma_str(o2, o3, o1);
            lemma_str(o1, o3, o2);
            lemma_str(t1, t2, t3);
            lemma_str(t2, t3, t1);
            lemma_str(t1, t3, t2);
        },
        (
            WeaveRefusalView::RenameModify { old_name: o1, new_name: n1, renamed_in: r1 },
            WeaveRefusalView::RenameModify { old_name: o2, new_name: n2, renamed_in: r2 },
            WeaveRefusalView::RenameModify { old_name: o3, new_name: n3, renamed_in: r3 },
        ) => {
            lemma_str(o1, o2, o3);
            lemma_str(o2, o3, o1);
            lemma_str(o1, o3, o2);
            lemma_str(n1, n2, n3);
            lemma_str(n2, n3, n1);
            lemma_str(n1, n3, n2);
            lemma_side_pair(r1, r2, r3);
        },
        _ => {},
    }
}

pub open spec fn match_compare(a: MoveMatchView, b: MoveMatchView) -> int {
    match (a, b) {
        (MoveMatchView::Exact, MoveMatchView::Exact) => 0,
        (MoveMatchView::Exact, MoveMatchView::NameNormalized { .. }) => -1,
        (MoveMatchView::NameNormalized { .. }, MoveMatchView::Exact) => 1,
        (
            MoveMatchView::NameNormalized {
                grammar: g1,
                entity_type: e1,
                old_name: o1,
                new_name: n1,
                old_occurrences: x1,
                new_occurrences: y1,
                comparison: c1,
            },
            MoveMatchView::NameNormalized {
                grammar: g2,
                entity_type: e2,
                old_name: o2,
                new_name: n2,
                old_occurrences: x2,
                new_occurrences: y2,
                comparison: c2,
            },
        ) => then_compare(
            str_compare(g1, g2),
            then_compare(
                str_compare(e1, e2),
                then_compare(
                    str_compare(o1, o2),
                    then_compare(
                        str_compare(n1, n2),
                        then_compare(
                            int_compare(x1 as int, x2 as int),
                            then_compare(
                                int_compare(y1 as int, y2 as int),
                                comparison_compare(c1, c2),
                            ),
                        ),
                    ),
                ),
            ),
        ),
    }
}

proof fn lemma_comparison(x: RenameComparison, y: RenameComparison, z: RenameComparison)
    ensures
        order_facts(
            comparison_compare(x, y),
            comparison_compare(y, x),
            comparison_compare(y, z),
            comparison_compare(x, z),
            x == y,
        ),
{
}

pub proof fn lemma_match(a: MoveMatchView, b: MoveMatchView, d: MoveMatchView)
    ensures
        order_facts(
            match_compare(a, b),
            match_compare(b, a),
            match_compare(b, d),
            match_compare(a, d),
            a == b,
        ),
{
    if let (
        MoveMatchView::NameNormalized {
            grammar: g1,
            entity_type: e1,
            old_name: o1,
            new_name: n1,
            old_occurrences: _,
            new_occurrences: _,
            comparison: c1,
        },
        MoveMatchView::NameNormalized {
            grammar: g2,
            entity_type: e2,
            old_name: o2,
            new_name: n2,
            old_occurrences: _,
            new_occurrences: _,
            comparison: c2,
        },
    ) = (a, b) {
        lemma_str(g1, g2, g2);
        lemma_str(e1, e2, e2);
        lemma_str(o1, o2, o2);
        lemma_str(n1, n2, n2);
        lemma_comparison(c1, c2, c2);
        if let MoveMatchView::NameNormalized {
            grammar: g3,
            entity_type: e3,
            old_name: o3,
            new_name: n3,
            old_occurrences: _,
            new_occurrences: _,
            comparison: c3,
        } = d {
            lemma_str(g1, g2, g3);
            lemma_str(g2, g3, g1);
            lemma_str(g1, g3, g2);
            lemma_str(e1, e2, e3);
            lemma_str(e2, e3, e1);
            lemma_str(e1, e3, e2);
            lemma_str(o1, o2, o3);
            lemma_str(o2, o3, o1);
            lemma_str(o1, o3, o2);
            lemma_str(n1, n2, n3);
            lemma_str(n2, n3, n1);
            lemma_str(n1, n3, n2);
            lemma_comparison(c1, c2, c3);
            lemma_comparison(c2, c3, c1);
            lemma_comparison(c1, c3, c2);
        }
    }
}

pub open spec fn opposite_move_compare(a: OppositeMoveView, b: OppositeMoveView) -> int {
    then_compare(
        location_compare(a.target, b.target),
        then_compare(
            match_compare(a.matched_by, b.matched_by),
            then_compare(
                int_compare(a.source_count as int, b.source_count as int),
                int_compare(a.destination_count as int, b.destination_count as int),
            ),
        ),
    )
}

pub proof fn lemma_opposite_move(a: OppositeMoveView, b: OppositeMoveView, d: OppositeMoveView)
    ensures
        order_facts(
            opposite_move_compare(a, b),
            opposite_move_compare(b, a),
            opposite_move_compare(b, d),
            opposite_move_compare(a, d),
            a == b,
        ),
{
    lemma_location(a.target, b.target, d.target);
    lemma_location(b.target, d.target, a.target);
    lemma_location(a.target, d.target, b.target);
    lemma_location(b.target, a.target, d.target);
    lemma_match(a.matched_by, b.matched_by, d.matched_by);
    lemma_match(b.matched_by, d.matched_by, a.matched_by);
    lemma_match(a.matched_by, d.matched_by, b.matched_by);
    lemma_match(b.matched_by, a.matched_by, d.matched_by);
}

pub open spec fn opposite_moves_compare(a: Seq<OppositeMoveView>, b: Seq<OppositeMoveView>) -> int {
    seq_compare(|x: OppositeMoveView, y: OppositeMoveView| opposite_move_compare(x, y), a, b)
}

pub proof fn lemma_opposite_move_order()
    ensures
        total_order(|x: OppositeMoveView, y: OppositeMoveView| opposite_move_compare(x, y)),
{
    let c = |x: OppositeMoveView, y: OppositeMoveView| opposite_move_compare(x, y);
    assert forall|a: OppositeMoveView, b: OppositeMoveView| #[trigger] c(a, b) == -c(b, a) by {
        lemma_opposite_move(a, b, b);
    }
    assert forall|a: OppositeMoveView, b: OppositeMoveView| #[trigger] c(a, b) == 0 <==> a == b by {
        lemma_opposite_move(a, b, b);
    }
    assert forall|a: OppositeMoveView, b: OppositeMoveView| -1 <= #[trigger] c(a, b) <= 1 by {
        lemma_opposite_move(a, b, b);
    }
    assert forall|a: OppositeMoveView, b: OppositeMoveView, d: OppositeMoveView|
        #![trigger c(a, b), c(b, d)]
        c(a, b) < 0 && c(b, d) < 0 implies c(a, d) < 0 by {
        lemma_opposite_move(a, b, d);
    }
}

pub proof fn lemma_opposite_moves(
    a: Seq<OppositeMoveView>,
    b: Seq<OppositeMoveView>,
    d: Seq<OppositeMoveView>,
)
    ensures
        order_facts(
            opposite_moves_compare(a, b),
            opposite_moves_compare(b, a),
            opposite_moves_compare(b, d),
            opposite_moves_compare(a, d),
            a == b,
        ),
{
    lemma_opposite_move_order();
    let c = |x: OppositeMoveView, y: OppositeMoveView| opposite_move_compare(x, y);
    lemma_seq_order(c);
    let s = |x: Seq<OppositeMoveView>, y: Seq<OppositeMoveView>| seq_compare(c, x, y);
    assert(s(a, b) == -s(b, a));
    assert(s(a, b) == 0 <==> a == b);
    assert(-1 <= s(a, b) <= 1);
    assert(s(a, b) < 0 && s(b, d) < 0 ==> s(a, d) < 0);
}

pub open spec fn move_compare(a: MoveEvidenceView, b: MoveEvidenceView) -> int {
    then_compare(
        int_compare(side_rank(a.side), side_rank(b.side)),
        then_compare(
            location_compare(a.base, b.base),
            then_compare(
                location_compare(a.target, b.target),
                then_compare(
                    int_compare(a.source_count as int, b.source_count as int),
                    then_compare(
                        int_compare(a.destination_count as int, b.destination_count as int),
                        then_compare(
                            int_compare(opposite_rank(a.opposite), opposite_rank(b.opposite)),
                            then_compare(
                                match_compare(a.matched_by, b.matched_by),
                                opposite_moves_compare(a.opposite_moves, b.opposite_moves),
                            ),
                        ),
                    ),
                ),
            ),
        ),
    )
}

pub proof fn lemma_move(a: MoveEvidenceView, b: MoveEvidenceView, d: MoveEvidenceView)
    ensures
        order_facts(
            move_compare(a, b),
            move_compare(b, a),
            move_compare(b, d),
            move_compare(a, d),
            a == b,
        ),
{
    lemma_side_pair(a.side, b.side, d.side);
    lemma_side_pair(b.side, d.side, a.side);
    lemma_side_pair(a.side, d.side, b.side);
    lemma_location(a.base, b.base, d.base);
    lemma_location(b.base, d.base, a.base);
    lemma_location(a.base, d.base, b.base);
    lemma_location(a.target, b.target, d.target);
    lemma_location(b.target, d.target, a.target);
    lemma_location(a.target, d.target, b.target);
    lemma_simple_enums(
        (Side::Ours, Side::Ours, Side::Ours),
        (Kind::LineConflict, Kind::LineConflict, Kind::LineConflict),
        (Change::Added, Change::Added, Change::Added),
        (a.opposite, b.opposite, d.opposite),
        (WeaveSource::Refusal, WeaveSource::Refusal, WeaveSource::Refusal),
        (RenameComparison::Text, RenameComparison::Text, RenameComparison::Text),
    );
    lemma_simple_enums(
        (Side::Ours, Side::Ours, Side::Ours),
        (Kind::LineConflict, Kind::LineConflict, Kind::LineConflict),
        (Change::Added, Change::Added, Change::Added),
        (b.opposite, d.opposite, a.opposite),
        (WeaveSource::Refusal, WeaveSource::Refusal, WeaveSource::Refusal),
        (RenameComparison::Text, RenameComparison::Text, RenameComparison::Text),
    );
    lemma_simple_enums(
        (Side::Ours, Side::Ours, Side::Ours),
        (Kind::LineConflict, Kind::LineConflict, Kind::LineConflict),
        (Change::Added, Change::Added, Change::Added),
        (a.opposite, d.opposite, b.opposite),
        (WeaveSource::Refusal, WeaveSource::Refusal, WeaveSource::Refusal),
        (RenameComparison::Text, RenameComparison::Text, RenameComparison::Text),
    );
    lemma_match(a.matched_by, b.matched_by, d.matched_by);
    lemma_match(b.matched_by, d.matched_by, a.matched_by);
    lemma_match(a.matched_by, d.matched_by, b.matched_by);
    lemma_opposite_moves(a.opposite_moves, b.opposite_moves, d.opposite_moves);
    lemma_opposite_moves(b.opposite_moves, d.opposite_moves, a.opposite_moves);
    lemma_opposite_moves(a.opposite_moves, d.opposite_moves, b.opposite_moves);
}

pub open spec fn evidence_rank(e: EvidenceView) -> int {
    match e {
        EvidenceView::GitLineConflict => 0,
        EvidenceView::RawBothChanged => 1,
        EvidenceView::IdenticalEdits => 2,
        EvidenceView::WeaveActions { .. } => 3,
        EvidenceView::WeaveRefusal { .. } => 4,
        EvidenceView::PartitionUnavailable => 5,
        EvidenceView::WeaveUnavailable => 6,
        EvidenceView::LayoutChanged => 7,
        EvidenceView::MoveCandidate { .. } => 8,
    }
}

pub open spec fn evidence_compare(a: EvidenceView, b: EvidenceView) -> int {
    match (a, b) {
        (
            EvidenceView::WeaveActions { ours: o1, theirs: t1 },
            EvidenceView::WeaveActions { ours: o2, theirs: t2 },
        ) => then_compare(
            int_compare(change_rank(o1), change_rank(o2)),
            int_compare(change_rank(t1), change_rank(t2)),
        ),
        (
            EvidenceView::WeaveRefusal { refusal: r1 },
            EvidenceView::WeaveRefusal { refusal: r2 },
        ) => refusal_compare(r1, r2),
        (
            EvidenceView::MoveCandidate { candidate: c1 },
            EvidenceView::MoveCandidate { candidate: c2 },
        ) => move_compare(c1, c2),
        _ => int_compare(evidence_rank(a), evidence_rank(b)),
    }
}

proof fn lemma_change_pair(x: Change, y: Change, z: Change)
    ensures
        order_facts(
            int_compare(change_rank(x), change_rank(y)),
            int_compare(change_rank(y), change_rank(x)),
            int_compare(change_rank(y), change_rank(z)),
            int_compare(change_rank(x), change_rank(z)),
            x == y,
        ),
{
}

proof fn lemma_evidence_pair(a: EvidenceView, b: EvidenceView)
    ensures
        evidence_compare(a, b) == -evidence_compare(b, a),
        evidence_compare(a, b) == 0 <==> a == b,
        -1 <= evidence_compare(a, b) <= 1,
{
    match (a, b) {
        (
            EvidenceView::WeaveActions { ours: o1, theirs: t1 },
            EvidenceView::WeaveActions { ours: o2, theirs: t2 },
        ) => {
            lemma_change_pair(o1, o2, o2);
            lemma_change_pair(t1, t2, t2);
        },
        (
            EvidenceView::WeaveRefusal { refusal: r1 },
            EvidenceView::WeaveRefusal { refusal: r2 },
        ) => {
            lemma_refusal(r1, r2, r2);
        },
        (
            EvidenceView::MoveCandidate { candidate: c1 },
            EvidenceView::MoveCandidate { candidate: c2 },
        ) => {
            lemma_move(c1, c2, c2);
        },
        _ => {},
    }
}

pub proof fn lemma_evidence(a: EvidenceView, b: EvidenceView, d: EvidenceView)
    ensures
        order_facts(
            evidence_compare(a, b),
            evidence_compare(b, a),
            evidence_compare(b, d),
            evidence_compare(a, d),
            a == b,
        ),
{
    lemma_evidence_pair(a, b);
    lemma_evidence_pair(b, d);
    lemma_evidence_pair(a, d);
    match (a, b, d) {
        (
            EvidenceView::WeaveActions { ours: o1, theirs: t1 },
            EvidenceView::WeaveActions { ours: o2, theirs: t2 },
            EvidenceView::WeaveActions { ours: o3, theirs: t3 },
        ) => {
            lemma_change_pair(o1, o2, o3);
            lemma_change_pair(t1, t2, t3);
        },
        (
            EvidenceView::WeaveRefusal { refusal: r1 },
            EvidenceView::WeaveRefusal { refusal: r2 },
            EvidenceView::WeaveRefusal { refusal: r3 },
        ) => {
            lemma_refusal(r1, r2, r3);
        },
        (
            EvidenceView::MoveCandidate { candidate: c1 },
            EvidenceView::MoveCandidate { candidate: c2 },
            EvidenceView::MoveCandidate { candidate: c3 },
        ) => {
            lemma_move(c1, c2, c3);
        },
        _ => {},
    }
}

/// Reasons are grouped by kind, then subject.
pub open spec fn key_compare(k1: Kind, s1: SubjectView, k2: Kind, s2: SubjectView) -> int {
    then_compare(int_compare(kind_rank(k1), kind_rank(k2)), subject_compare(s1, s2))
}

pub proof fn lemma_key(a: (Kind, SubjectView), b: (Kind, SubjectView), d: (Kind, SubjectView))
    ensures
        order_facts(
            key_compare(a.0, a.1, b.0, b.1),
            key_compare(b.0, b.1, a.0, a.1),
            key_compare(b.0, b.1, d.0, d.1),
            key_compare(a.0, a.1, d.0, d.1),
            a == b,
        ),
{
    lemma_subject(a.1, b.1, d.1);
    lemma_subject(b.1, d.1, a.1);
    lemma_subject(a.1, d.1, b.1);
    lemma_subject(b.1, a.1, d.1);
    lemma_simple_enums(
        (Side::Ours, Side::Ours, Side::Ours),
        (a.0, b.0, d.0),
        (Change::Added, Change::Added, Change::Added),
        (Opposite::Unchanged, Opposite::Unchanged, Opposite::Unchanged),
        (WeaveSource::Refusal, WeaveSource::Refusal, WeaveSource::Refusal),
        (RenameComparison::Text, RenameComparison::Text, RenameComparison::Text),
    );
    lemma_simple_enums(
        (Side::Ours, Side::Ours, Side::Ours),
        (b.0, d.0, a.0),
        (Change::Added, Change::Added, Change::Added),
        (Opposite::Unchanged, Opposite::Unchanged, Opposite::Unchanged),
        (WeaveSource::Refusal, WeaveSource::Refusal, WeaveSource::Refusal),
        (RenameComparison::Text, RenameComparison::Text, RenameComparison::Text),
    );
    lemma_simple_enums(
        (Side::Ours, Side::Ours, Side::Ours),
        (a.0, d.0, b.0),
        (Change::Added, Change::Added, Change::Added),
        (Opposite::Unchanged, Opposite::Unchanged, Opposite::Unchanged),
        (WeaveSource::Refusal, WeaveSource::Refusal, WeaveSource::Refusal),
        (RenameComparison::Text, RenameComparison::Text, RenameComparison::Text),
    );
}


// ---------------------------------------------------------------------------
// Executable comparisons, each equal to its specification.
// ---------------------------------------------------------------------------

proof fn lemma_str_step(s: Seq<char>, t: Seq<char>, i: int)
    requires
        0 <= i < s.len(),
        i < t.len(),
        s[i] == t[i],
    ensures
        str_compare(s.skip(i), t.skip(i)) == str_compare(s.skip(i + 1), t.skip(i + 1)),
{
    assert(s.skip(i).drop_first() =~= s.skip(i + 1));
    assert(t.skip(i).drop_first() =~= t.skip(i + 1));
    let c = |x: char, y: char| char_compare(x, y);
    assert(c(s.skip(i)[0], t.skip(i)[0]) == 0);
}

pub fn compare_str(a: &str, b: &str) -> (r: i8)
    ensures
        r as int == str_compare(a@, b@),
{
    let av = chars_of(a);
    let bv = chars_of(b);
    let mut i: usize = 0;
    assert(a@.skip(0) =~= a@);
    assert(b@.skip(0) =~= b@);
    while i < av.len() && i < bv.len()
        invariant
            i <= av.len(),
            i <= bv.len(),
            av@ == a@,
            bv@ == b@,
            str_compare(a@, b@) == str_compare(a@.skip(i as int), b@.skip(i as int)),
        decreases av.len() - i,
    {
        let x = av[i];
        let y = bv[i];
        proof {
            let sx = a@.skip(i as int);
            let sy = b@.skip(i as int);
            assert(sx[0] == x && sy[0] == y);
            let c = |p: char, q: char| char_compare(p, q);
            assert(str_compare(sx, sy) == then_compare(c(x, y), str_compare(sx.drop_first(), sy.drop_first())));
        }
        if (x as u32) < (y as u32) {
            return -1;
        }
        if (x as u32) > (y as u32) {
            return 1;
        }
        proof {
            vstd::utf8::char_u32_cast(x, x as u32);
            vstd::utf8::char_u32_cast(y, y as u32);
        }
        assert(av@[i as int] == bv@[i as int]);
        proof {
            lemma_str_step(a@, b@, i as int);
        }
        i += 1;
    }
    if i < av.len() {
        1
    } else if i < bv.len() {
        -1
    } else {
        0
    }
}

fn compare_usize(a: usize, b: usize) -> (r: i8)
    ensures
        r as int == int_compare(a as int, b as int),
{
    if a < b {
        -1
    } else if a == b {
        0
    } else {
        1
    }
}

fn compare_int(a: u8, b: u8) -> (r: i8)
    ensures
        r as int == int_compare(a as int, b as int),
{
    if a < b {
        -1
    } else if a == b {
        0
    } else {
        1
    }
}

fn side_position(s: Side) -> (r: u8)
    ensures
        r as int == side_rank(s),
{
    match s {
        Side::Ours => 0,
        Side::Theirs => 1,
    }
}

fn kind_position(k: Kind) -> (r: u8)
    ensures
        r as int == kind_rank(k),
{
    match k {
        Kind::LineConflict => 0,
        Kind::EntityConflict => 1,
        Kind::NonEntityConflict => 2,
        Kind::AnalysisUnavailable => 3,
        Kind::LayoutChanged => 4,
        Kind::ModifyVsMove => 5,
    }
}

fn change_position(c: Change) -> (r: u8)
    ensures
        r as int == change_rank(c),
{
    match c {
        Change::Added => 0,
        Change::Absent => 1,
        Change::Deleted => 2,
        Change::Unchanged => 3,
        Change::Modified => 4,
        Change::Renamed => 5,
        Change::RenameModified => 6,
    }
}

fn opposite_position(o: Opposite) -> (r: u8)
    ensures
        r as int == opposite_rank(o),
{
    match o {
        Opposite::Unchanged => 0,
        Opposite::Modified => 1,
        Opposite::Deleted => 2,
        Opposite::Unknown => 3,
    }
}

fn weave_source_position(w: WeaveSource) -> (r: u8)
    ensures
        r as int == weave_source_rank(w),
{
    match w {
        WeaveSource::Classification => 0,
        WeaveSource::Refusal => 1,
    }
}

fn then(first: i8, second: i8) -> (r: i8)
    ensures
        r as int == then_compare(first as int, second as int),
{
    if first != 0 {
        first
    } else {
        second
    }
}

pub fn compare_location(a: &Location, b: &Location) -> (r: i8)
    ensures
        r as int == location_compare(a@, b@),
{
    let p = compare_str(a.path.as_str(), b.path.as_str());
    if p != 0 {
        return p;
    }
    let e = compare_str(a.entity.as_str(), b.entity.as_str());
    if e != 0 {
        return e;
    }
    compare_usize(a.line, b.line)
}

fn subject_position(s: &Subject) -> (r: u8)
    ensures
        r as int == subject_rank(s@),
{
    match s {
        Subject::File => 0,
        Subject::Entity { .. } => 1,
        Subject::Gap { .. } => 2,
        Subject::Weave { .. } => 3,
        Subject::Move { .. } => 4,
    }
}

pub fn compare_subject(a: &Subject, b: &Subject) -> (r: i8)
    ensures
        r as int == subject_compare(a@, b@),
{
    match (a, b) {
        (
            Subject::Entity { entity_type: t1, name: n1 },
            Subject::Entity { entity_type: t2, name: n2 },
        ) => then(compare_str(t1.as_str(), t2.as_str()), compare_str(n1.as_str(), n2.as_str())),
        (Subject::Gap { key: k1, label: l1 }, Subject::Gap { key: k2, label: l2 }) => then(
            compare_str(k1.as_str(), k2.as_str()),
            compare_str(l1.as_str(), l2.as_str()),
        ),
        (
            Subject::Weave { name: n1, source: s1, ordinal: o1 },
            Subject::Weave { name: n2, source: s2, ordinal: o2 },
        ) => then(
            compare_str(n1.as_str(), n2.as_str()),
            then(
                compare_int(weave_source_position(*s1), weave_source_position(*s2)),
                compare_usize(*o1, *o2),
            ),
        ),
        (
            Subject::Move { side: s1, base: b1, target: t1 },
            Subject::Move { side: s2, base: b2, target: t2 },
        ) => then(
            compare_int(side_position(*s1), side_position(*s2)),
            then(compare_location(b1, b2), compare_location(t1, t2)),
        ),
        _ => compare_int(subject_position(a), subject_position(b)),
    }
}

fn refusal_position(r: &WeaveRefusal) -> (p: u8)
    ensures
        p as int == refusal_rank(r@),
{
    match r {
        WeaveRefusal::BothModified => 0,
        WeaveRefusal::ModifyDelete { .. } => 1,
        WeaveRefusal::BothAdded => 2,
        WeaveRefusal::RenameRename { .. } => 3,
        WeaveRefusal::RenameModify { .. } => 4,
    }
}

pub fn compare_refusal(a: &WeaveRefusal, b: &WeaveRefusal) -> (r: i8)
    ensures
        r as int == refusal_compare(a@, b@),
{
    match (a, b) {
        (
            WeaveRefusal::ModifyDelete { modified_in: x },
            WeaveRefusal::ModifyDelete { modified_in: y },
        ) => compare_int(side_position(*x), side_position(*y)),
        (
            WeaveRefusal::RenameRename { base_name: b1, ours_name: o1, theirs_name: t1 },
            WeaveRefusal::RenameRename { base_name: b2, ours_name: o2, theirs_name: t2 },
        ) => then(
            compare_str(b1.as_str(), b2.as_str()),
            then(compare_str(o1.as_str(), o2.as_str()), compare_str(t1.as_str(), t2.as_str())),
        ),
        (
            WeaveRefusal::RenameModify { old_name: o1, new_name: n1, renamed_in: r1 },
            WeaveRefusal::RenameModify { old_name: o2, new_name: n2, renamed_in: r2 },
        ) => then(
            compare_str(o1.as_str(), o2.as_str()),
            then(
                compare_str(n1.as_str(), n2.as_str()),
                compare_int(side_position(*r1), side_position(*r2)),
            ),
        ),
        _ => compare_int(refusal_position(a), refusal_position(b)),
    }
}

fn compare_comparison(a: RenameComparison, b: RenameComparison) -> (r: i8)
    ensures
        r as int == comparison_compare(a, b),
{
    match (a, b) {
        (RenameComparison::Text, RenameComparison::Text) => 0,
        (RenameComparison::Text, RenameComparison::Syntax { .. }) => -1,
        (RenameComparison::Syntax { .. }, RenameComparison::Text) => 1,
        (RenameComparison::Syntax { tokens: x }, RenameComparison::Syntax { tokens: y }) =>
            compare_usize(x, y),
    }
}

pub fn compare_match(a: &MoveMatch, b: &MoveMatch) -> (r: i8)
    ensures
        r as int == match_compare(a@, b@),
{
    match (a, b) {
        (MoveMatch::Exact, MoveMatch::Exact) => 0,
        (MoveMatch::Exact, MoveMatch::NameNormalized { .. }) => -1,
        (MoveMatch::NameNormalized { .. }, MoveMatch::Exact) => 1,
        (
            MoveMatch::NameNormalized {
                grammar: g1,
                entity_type: e1,
                old_name: o1,
                new_name: n1,
                old_occurrences: x1,
                new_occurrences: y1,
                comparison: c1,
            },
            MoveMatch::NameNormalized {
                grammar: g2,
                entity_type: e2,
                old_name: o2,
                new_name: n2,
                old_occurrences: x2,
                new_occurrences: y2,
                comparison: c2,
            },
        ) => then(
            compare_str(g1.as_str(), g2.as_str()),
            then(
                compare_str(e1.as_str(), e2.as_str()),
                then(
                    compare_str(o1.as_str(), o2.as_str()),
                    then(
                        compare_str(n1.as_str(), n2.as_str()),
                        then(
                            compare_usize(*x1, *x2),
                            then(compare_usize(*y1, *y2), compare_comparison(*c1, *c2)),
                        ),
                    ),
                ),
            ),
        ),
    }
}

pub fn compare_opposite_move(a: &OppositeMove, b: &OppositeMove) -> (r: i8)
    ensures
        r as int == opposite_move_compare(a@, b@),
{
    then(
        compare_location(&a.target, &b.target),
        then(
            compare_match(&a.matched_by, &b.matched_by),
            then(
                compare_usize(a.source_count, b.source_count),
                compare_usize(a.destination_count, b.destination_count),
            ),
        ),
    )
}

proof fn lemma_moves_step(s: Seq<OppositeMoveView>, t: Seq<OppositeMoveView>, i: int)
    requires
        0 <= i < s.len(),
        i < t.len(),
        s[i] == t[i],
    ensures
        opposite_moves_compare(s.skip(i), t.skip(i)) == opposite_moves_compare(
            s.skip(i + 1),
            t.skip(i + 1),
        ),
{
    assert(s.skip(i).drop_first() =~= s.skip(i + 1));
    assert(t.skip(i).drop_first() =~= t.skip(i + 1));
    lemma_opposite_move(s[i], t[i], t[i]);
}

pub fn compare_opposite_moves(a: &Vec<OppositeMove>, b: &Vec<OppositeMove>) -> (r: i8)
    ensures
        r as int == opposite_moves_compare(super::opposite_views(a@), super::opposite_views(b@)),
{
    let ghost sa = super::opposite_views(a@);
    let ghost sb = super::opposite_views(b@);
    let mut i: usize = 0;
    assert(sa.skip(0) =~= sa);
    assert(sb.skip(0) =~= sb);
    while i < a.len() && i < b.len()
        invariant
            i <= a.len(),
            i <= b.len(),
            sa == super::opposite_views(a@),
            sb == super::opposite_views(b@),
            opposite_moves_compare(sa, sb) == opposite_moves_compare(
                sa.skip(i as int),
                sb.skip(i as int),
            ),
        decreases a.len() - i,
    {
        let c = compare_opposite_move(&a[i], &b[i]);
        if c != 0 {
            proof {
                let x = sa.skip(i as int);
                let y = sb.skip(i as int);
                assert(x[0] == a@[i as int]@);
                assert(y[0] == b@[i as int]@);
            }
            return c;
        }
        proof {
            lemma_opposite_move(a@[i as int]@, b@[i as int]@, b@[i as int]@);
            lemma_moves_step(sa, sb, i as int);
        }
        i += 1;
    }
    if i < a.len() {
        1
    } else if i < b.len() {
        -1
    } else {
        0
    }
}

pub fn compare_move(a: &MoveEvidence, b: &MoveEvidence) -> (r: i8)
    ensures
        r as int == move_compare(a@, b@),
{
    then(
        compare_int(side_position(a.side), side_position(b.side)),
        then(
            compare_location(&a.base, &b.base),
            then(
                compare_location(&a.target, &b.target),
                then(
                    compare_usize(a.source_count, b.source_count),
                    then(
                        compare_usize(a.destination_count, b.destination_count),
                        then(
                            compare_int(opposite_position(a.opposite), opposite_position(b.opposite)),
                            then(
                                compare_match(&a.matched_by, &b.matched_by),
                                compare_opposite_moves(&a.opposite_moves, &b.opposite_moves),
                            ),
                        ),
                    ),
                ),
            ),
        ),
    )
}

fn evidence_position(e: &Evidence) -> (r: u8)
    ensures
        r as int == evidence_rank(e@),
{
    match e {
        Evidence::GitLineConflict => 0,
        Evidence::RawBothChanged => 1,
        Evidence::IdenticalEdits => 2,
        Evidence::WeaveActions { .. } => 3,
        Evidence::WeaveRefusal { .. } => 4,
        Evidence::PartitionUnavailable => 5,
        Evidence::WeaveUnavailable => 6,
        Evidence::LayoutChanged => 7,
        Evidence::MoveCandidate { .. } => 8,
    }
}

pub fn compare_evidence(a: &Evidence, b: &Evidence) -> (r: i8)
    ensures
        r as int == evidence_compare(a@, b@),
{
    match (a, b) {
        (
            Evidence::WeaveActions { ours: o1, theirs: t1 },
            Evidence::WeaveActions { ours: o2, theirs: t2 },
        ) => then(
            compare_int(change_position(*o1), change_position(*o2)),
            compare_int(change_position(*t1), change_position(*t2)),
        ),
        (Evidence::WeaveRefusal { refusal: r1 }, Evidence::WeaveRefusal { refusal: r2 }) =>
            compare_refusal(r1, r2),
        (Evidence::MoveCandidate { candidate: c1 }, Evidence::MoveCandidate { candidate: c2 }) =>
            compare_move(c1, c2),
        _ => compare_int(evidence_position(a), evidence_position(b)),
    }
}

pub fn compare_key(k1: Kind, s1: &Subject, k2: Kind, s2: &Subject) -> (r: i8)
    ensures
        r as int == key_compare(k1, s1@, k2, s2@),
{
    then(compare_int(kind_position(k1), kind_position(k2)), compare_subject(s1, s2))
}


// ---------------------------------------------------------------------------
// Ordered evidence sets and grouped reasons.
// ---------------------------------------------------------------------------

/// Strictly increasing, hence free of duplicates.
pub open spec fn evidence_sorted(s: Seq<EvidenceView>) -> bool {
    forall|i: int, j: int| 0 <= i < j < s.len() ==> evidence_compare(s[i], s[j]) < 0
}

pub open spec fn reasons_sorted(s: Seq<ReasonView>) -> bool {
    forall|i: int, j: int|
        0 <= i < j < s.len() ==> key_compare(s[i].kind, s[i].subject, s[j].kind, s[j].subject) < 0
}

/// Insert one piece of evidence into a strictly ordered set.
pub fn insert_evidence(v: &mut Vec<Evidence>, e: Evidence)
    requires
        evidence_sorted(evidence_views(old(v)@)),
    ensures
        evidence_sorted(evidence_views(final(v)@)),
        forall|x: EvidenceView|
            evidence_views(final(v)@).contains(x) <==> (evidence_views(old(v)@).contains(x) || x
                == e@),
{
    let ghost old_view = evidence_views(v@);
    let mut p: usize = 0;
    while p < v.len() && compare_evidence(&e, &v[p]) > 0
        invariant
            p <= v.len(),
            old_view == evidence_views(v@),
            forall|k: int| 0 <= k < p ==> evidence_compare(old_view[k], e@) < 0,
        decreases v.len() - p,
    {
        proof {
            lemma_evidence(e@, v@[p as int]@, v@[p as int]@);
        }
        p += 1;
    }
    if p < v.len() && compare_evidence(&e, &v[p]) == 0 {
        proof {
            lemma_evidence(e@, v@[p as int]@, v@[p as int]@);
            assert(old_view[p as int] == e@);
        }
        return;
    }
    let ghost ev = e@;
    proof {
        if p < v.len() {
            lemma_evidence(ev, old_view[p as int], old_view[p as int]);
        }
    }
    v.insert(p, e);
    proof {
        assert(evidence_views(v@) =~= old_view.insert(p as int, ev));
        lemma_insert_sorted(old_view, evidence_views(v@), p as int, ev);
    }
}

proof fn lemma_insert_sorted(old_view: Seq<EvidenceView>, nv: Seq<EvidenceView>, p: int, e: EvidenceView)
    requires
        evidence_sorted(old_view),
        0 <= p <= old_view.len(),
        nv == old_view.insert(p, e),
        forall|k: int| 0 <= k < p ==> evidence_compare(old_view[k], e) < 0,
        p < old_view.len() ==> evidence_compare(e, old_view[p]) < 0,
    ensures
        evidence_sorted(nv),
        forall|x: EvidenceView| nv.contains(x) <==> (old_view.contains(x) || x == e),
{
    assert forall|i: int, j: int| 0 <= i < j < nv.len() implies evidence_compare(nv[i], nv[j]) < 0 by {
        if j < p {
        } else if j == p {
        } else if i == p {
            if j - 1 > p {
                lemma_evidence(e, old_view[p], old_view[j - 1]);
            }
        } else if i < p {
            lemma_evidence(old_view[i], e, old_view[j - 1]);
            if j - 1 > p {
                lemma_evidence(e, old_view[p], old_view[j - 1]);
            }
        }
    }
    assert forall|x: EvidenceView| nv.contains(x) <==> (old_view.contains(x) || x == e) by {
        if nv.contains(x) {
            let k = choose|k: int| 0 <= k < nv.len() && nv[k] == x;
            if k < p {
                assert(old_view[k] == x);
            } else if k > p {
                assert(old_view[k - 1] == x);
            }
        }
        if old_view.contains(x) {
            let k = choose|k: int| 0 <= k < old_view.len() && old_view[k] == x;
            if k < p {
                assert(nv[k] == x);
            } else {
                assert(nv[k + 1] == x);
            }
        }
        if x == e {
            assert(nv[p] == x);
        }
    }
}

/// Add every piece of `more` to the ordered set `v`.
pub fn merge_evidence(v: &mut Vec<Evidence>, more: &Vec<Evidence>)
    requires
        evidence_sorted(evidence_views(old(v)@)),
    ensures
        evidence_sorted(evidence_views(final(v)@)),
        forall|x: EvidenceView|
            #[trigger] evidence_views(final(v)@).contains(x) <==> (evidence_views(old(v)@).contains(x)
                || evidence_views(more@).contains(x)),
{
    let ghost start = evidence_views(v@);
    let ghost m = evidence_views(more@);
    let mut i: usize = 0;
    while i < more.len()
        invariant
            i <= more.len(),
            m == evidence_views(more@),
            evidence_sorted(evidence_views(v@)),
            forall|x: EvidenceView|
                #[trigger] evidence_views(v@).contains(x) <==> (start.contains(x) || m.take(
                    i as int,
                ).contains(x)),
        decreases more.len() - i,
    {
        let e = more[i].copy();
        assert(e@ == m[i as int]);
        let ghost before = evidence_views(v@);
        let ghost ev = e@;
        assert(forall|x: EvidenceView| before.contains(x) <==> (start.contains(x) || m.take(i as int).contains(x)));
        insert_evidence(v, e);
        let ghost prev = i as int;
        i += 1;
        proof {
            lemma_take_push_contains(m, prev);
            assert forall|x: EvidenceView|
                evidence_views(v@).contains(x) <==> (start.contains(x) || m.take(i as int).contains(x)) by {
                assert(m.take(prev + 1).contains(x) <==> (m.take(prev).contains(x) || x == m[prev]));
                assert(before.contains(x) <==> (start.contains(x) || m.take(prev).contains(x)));
                assert(evidence_views(v@).contains(x) <==> (before.contains(x) || x == ev));
            }
        }
    }
    assert(m.take(more.len() as int) =~= m);
}

/// The ordered union of two evidence lists, the first already ordered.
fn merged_evidence(v: Vec<Evidence>, more: &Vec<Evidence>) -> (r: Vec<Evidence>)
    requires
        evidence_sorted(evidence_views(v@)),
    ensures
        evidence_sorted(evidence_views(r@)),
        forall|x: EvidenceView|
            #[trigger] evidence_views(r@).contains(x) <==> (evidence_views(v@).contains(x) || evidence_views(more@).contains(x)),
{
    let mut v = v;
    merge_evidence(&mut v, more);
    v
}

proof fn lemma_take_push_contains<T>(m: Seq<T>, i: int)
    requires
        0 <= i < m.len(),
    ensures
        forall|x: T| m.take(i + 1).contains(x) <==> (m.take(i).contains(x) || x == m[i]),
{
    assert forall|x: T| m.take(i + 1).contains(x) <==> (m.take(i).contains(x) || x == m[i]) by {
        if m.take(i + 1).contains(x) {
            let k = choose|k: int| 0 <= k < i + 1 && #[trigger] m.take(i + 1)[k] == x;
            if k < i {
                assert(m.take(i)[k] == x);
            }
        }
        if m.take(i).contains(x) {
            let k = choose|k: int| 0 <= k < i && #[trigger] m.take(i)[k] == x;
            assert(m.take(i + 1)[k] == x);
        }
        if x == m[i] {
            assert(m.take(i + 1)[i] == x);
        }
    }
}

/// `x` is evidence of some reason of `rs` with the given key.
pub open spec fn grouped_evidence(
    rs: Seq<ReasonView>,
    kind: Kind,
    subject: SubjectView,
    x: EvidenceView,
) -> bool {
    exists|j: int|
        0 <= j < rs.len() && rs[j].kind == kind && rs[j].subject == subject
            && #[trigger] rs[j].evidence.contains(x)
}

pub open spec fn has_key(rs: Seq<ReasonView>, kind: Kind, subject: SubjectView) -> bool {
    exists|j: int| 0 <= j < rs.len() && rs[j].kind == kind && #[trigger] rs[j].subject == subject
}

/// What `normalize` produces from `input`: one reason per distinct kind and
/// subject, in key order, each holding the ordered union of that key's evidence.
pub open spec fn normalized(input: Seq<ReasonView>, output: Seq<ReasonView>) -> bool {
    &&& reasons_sorted(output)
    &&& forall|i: int| 0 <= i < output.len() ==> evidence_sorted(#[trigger] output[i].evidence)
    &&& forall|k: Kind, s: SubjectView| has_key(output, k, s) <==> has_key(input, k, s)
    &&& forall|i: int, x: EvidenceView|
        0 <= i < output.len() ==> (#[trigger] output[i].evidence.contains(x) <==> grouped_evidence(
            input,
            output[i].kind,
            output[i].subject,
            x,
        ))
}

proof fn lemma_grouped_push(pre: Seq<ReasonView>, r: ReasonView, k: Kind, s: SubjectView, x: EvidenceView)
    ensures
        grouped_evidence(pre.push(r), k, s, x) <==> (grouped_evidence(pre, k, s, x) || (r.kind == k
            && r.subject == s && r.evidence.contains(x))),
        has_key(pre.push(r), k, s) <==> (has_key(pre, k, s) || (r.kind == k && r.subject == s)),
{
    let post = pre.push(r);
    if grouped_evidence(post, k, s, x) {
        let q = choose|q: int| 0 <= q < post.len() && post[q].kind == k && post[q].subject == s && #[trigger] post[q].evidence.contains(x);
        if q < pre.len() {
            assert(pre[q] == post[q]);
        }
    }
    if grouped_evidence(pre, k, s, x) {
        let q = choose|q: int| 0 <= q < pre.len() && pre[q].kind == k && pre[q].subject == s && #[trigger] pre[q].evidence.contains(x);
        assert(post[q] == pre[q]);
    }
    if r.kind == k && r.subject == s && r.evidence.contains(x) {
        assert(post[pre.len() as int] == r);
    }
    if has_key(post, k, s) {
        let q = choose|q: int| 0 <= q < post.len() && post[q].kind == k && #[trigger] post[q].subject == s;
        if q < pre.len() {
            assert(pre[q] == post[q]);
        }
    }
    if has_key(pre, k, s) {
        let q = choose|q: int| 0 <= q < pre.len() && pre[q].kind == k && #[trigger] pre[q].subject == s;
        assert(post[q] == pre[q]);
    }
    if r.kind == k && r.subject == s {
        assert(post[pre.len() as int] == r);
    }
}

/// An output entry found for `r`'s key absorbs `r`'s evidence.
#[verifier::spinoff_prover]
proof fn lemma_normalize_merge(
    pre: Seq<ReasonView>,
    r: ReasonView,
    before: Seq<ReasonView>,
    p: int,
    x: ReasonView,
)
    requires
        normalized(pre, before),
        0 <= p < before.len(),
        before[p].kind == r.kind && before[p].subject == r.subject,
        x.kind == r.kind && x.subject == r.subject,
        evidence_sorted(x.evidence),
        forall|e: EvidenceView|
            x.evidence.contains(e) <==> (before[p].evidence.contains(e) || r.evidence.contains(e)),
    ensures
        normalized(pre.push(r), before.update(p, x)),
{
    let post = pre.push(r);
    let nv = before.update(p, x);
    assert forall|k: Kind, s: SubjectView| has_key(nv, k, s) <==> has_key(post, k, s) by {
        lemma_grouped_push(pre, r, k, s, EvidenceView::GitLineConflict);
        if has_key(nv, k, s) {
            let j = choose|j: int| 0 <= j < nv.len() && nv[j].kind == k && #[trigger] nv[j].subject == s;
            assert(before[j].kind == k && before[j].subject == s);
        }
        if has_key(before, k, s) {
            let j = choose|j: int| 0 <= j < before.len() && before[j].kind == k && #[trigger] before[j].subject == s;
            assert(nv[j].kind == k && nv[j].subject == s);
        }
        if r.kind == k && r.subject == s {
            assert(nv[p].kind == k && nv[p].subject == s);
        }
    }
    assert forall|a: int, e: EvidenceView| 0 <= a < nv.len() implies (#[trigger] nv[a].evidence.contains(e)
        <==> grouped_evidence(post, nv[a].kind, nv[a].subject, e)) by {
        lemma_grouped_push(pre, r, nv[a].kind, nv[a].subject, e);
        if a != p {
            lemma_key((before[a].kind, before[a].subject), (r.kind, r.subject), (r.kind, r.subject));
            lemma_key((before[p].kind, before[p].subject), (before[a].kind, before[a].subject), (before[a].kind, before[a].subject));
        }
    }
    assert forall|a: int| 0 <= a < nv.len() implies evidence_sorted(#[trigger] nv[a].evidence) by {
        if a != p {
            assert(nv[a] == before[a]);
        }
    }
}

/// A key that sorts strictly between its neighbours is absent.
proof fn lemma_key_absent(before: Seq<ReasonView>, r: ReasonView, p: int)
    requires
        reasons_sorted(before),
        0 <= p <= before.len(),
        forall|k: int| 0 <= k < p ==> key_compare(before[k].kind, before[k].subject, r.kind, r.subject) < 0,
        p < before.len() ==> key_compare(r.kind, r.subject, before[p].kind, before[p].subject) < 0,
    ensures
        forall|j: int| 0 <= j < before.len() ==> !(#[trigger] before[j].kind == r.kind && before[j].subject == r.subject),
        !has_key(before, r.kind, r.subject),
{
    assert forall|j: int| 0 <= j < before.len() implies !(#[trigger] before[j].kind == r.kind && before[j].subject == r.subject) by {
        if j < p {
            lemma_key((before[j].kind, before[j].subject), (r.kind, r.subject), (r.kind, r.subject));
        } else {
            lemma_key((r.kind, r.subject), (before[j].kind, before[j].subject), (before[j].kind, before[j].subject));
            if j > p {
                lemma_key((r.kind, r.subject), (before[p].kind, before[p].subject), (before[j].kind, before[j].subject));
            }
        }
    }
}

proof fn lemma_insert_keys_sorted(before: Seq<ReasonView>, p: int, x: ReasonView)
    requires
        reasons_sorted(before),
        0 <= p <= before.len(),
        forall|k: int| 0 <= k < p ==> key_compare(before[k].kind, before[k].subject, x.kind, x.subject) < 0,
        p < before.len() ==> key_compare(x.kind, x.subject, before[p].kind, before[p].subject) < 0,
    ensures
        reasons_sorted(before.insert(p, x)),
{
    let nv = before.insert(p, x);
    assert forall|a: int, b: int| 0 <= a < b < nv.len() implies key_compare(
        nv[a].kind,
        nv[a].subject,
        nv[b].kind,
        nv[b].subject,
    ) < 0 by {
        if b < p {
        } else if b == p {
        } else if a == p {
            if b - 1 > p {
                lemma_key((x.kind, x.subject), (before[p].kind, before[p].subject), (before[b - 1].kind, before[b - 1].subject));
            }
        } else if a < p {
            lemma_key((before[a].kind, before[a].subject), (x.kind, x.subject), (before[b - 1].kind, before[b - 1].subject));
            if b - 1 > p {
                lemma_key((x.kind, x.subject), (before[p].kind, before[p].subject), (before[b - 1].kind, before[b - 1].subject));
            }
        }
    }
}

/// A new output entry for a key not yet present.
#[verifier::spinoff_prover]
#[verifier::rlimit(40)]
proof fn lemma_normalize_insert(
    pre: Seq<ReasonView>,
    r: ReasonView,
    before: Seq<ReasonView>,
    p: int,
    x: ReasonView,
)
    requires
        normalized(pre, before),
        0 <= p <= before.len(),
        forall|k: int| 0 <= k < p ==> key_compare(before[k].kind, before[k].subject, r.kind, r.subject) < 0,
        p < before.len() ==> key_compare(r.kind, r.subject, before[p].kind, before[p].subject) < 0,
        x.kind == r.kind && x.subject == r.subject,
        evidence_sorted(x.evidence),
        forall|e: EvidenceView| x.evidence.contains(e) <==> r.evidence.contains(e),
    ensures
        normalized(pre.push(r), before.insert(p, x)),
{
    let post = pre.push(r);
    let nv = before.insert(p, x);
    lemma_insert_keys_sorted(before, p, x);
    lemma_key_absent(before, r, p);
    assert forall|k: Kind, s: SubjectView| has_key(nv, k, s) <==> has_key(post, k, s) by {
        lemma_grouped_push(pre, r, k, s, EvidenceView::GitLineConflict);
        if has_key(nv, k, s) {
            let j = choose|j: int| 0 <= j < nv.len() && nv[j].kind == k && #[trigger] nv[j].subject == s;
            if j < p {
                assert(before[j].kind == k && before[j].subject == s);
            } else if j > p {
                assert(before[j - 1].kind == k && before[j - 1].subject == s);
            }
        }
        if has_key(before, k, s) {
            let j = choose|j: int| 0 <= j < before.len() && before[j].kind == k && #[trigger] before[j].subject == s;
            if j < p {
                assert(nv[j].kind == k && nv[j].subject == s);
            } else {
                assert(nv[j + 1].kind == k && nv[j + 1].subject == s);
            }
        }
        if r.kind == k && r.subject == s {
            assert(nv[p].kind == k && nv[p].subject == s);
        }
    }
    assert forall|a: int| 0 <= a < nv.len() implies evidence_sorted(#[trigger] nv[a].evidence) by {
        if a < p {
            assert(nv[a] == before[a]);
        } else if a > p {
            assert(nv[a] == before[a - 1]);
        }
    }
    assert forall|a: int, e: EvidenceView| 0 <= a < nv.len() implies (#[trigger] nv[a].evidence.contains(e)
        <==> grouped_evidence(post, nv[a].kind, nv[a].subject, e)) by {
        lemma_insert_entry(pre, r, before, p, x, a, e);
    }
}

proof fn lemma_insert_entry(
    pre: Seq<ReasonView>,
    r: ReasonView,
    before: Seq<ReasonView>,
    p: int,
    x: ReasonView,
    a: int,
    e: EvidenceView,
)
    requires
        normalized(pre, before),
        0 <= p <= before.len(),
        0 <= a <= before.len(),
        x.kind == r.kind && x.subject == r.subject,
        forall|e: EvidenceView| x.evidence.contains(e) <==> r.evidence.contains(e),
        forall|j: int| 0 <= j < before.len() ==> !(#[trigger] before[j].kind == r.kind && before[j].subject == r.subject),
        !has_key(before, r.kind, r.subject),
    ensures
        before.insert(p, x)[a].evidence.contains(e) <==> grouped_evidence(
            pre.push(r),
            before.insert(p, x)[a].kind,
            before.insert(p, x)[a].subject,
            e,
        ),
{
    let nv = before.insert(p, x);
    lemma_grouped_push(pre, r, nv[a].kind, nv[a].subject, e);
    if a != p {
        let aa = if a < p { a } else { a - 1 };
        assert(nv[a] == before[aa]);
        assert(before[aa].evidence.contains(e) <==> grouped_evidence(pre, before[aa].kind, before[aa].subject, e));
        assert(!(before[aa].kind == r.kind && before[aa].subject == r.subject));
    } else {
        if grouped_evidence(pre, r.kind, r.subject, e) {
            let q = choose|q: int| 0 <= q < pre.len() && pre[q].kind == r.kind && pre[q].subject == r.subject && #[trigger] pre[q].evidence.contains(e);
            assert(has_key(pre, r.kind, r.subject));
        }
    }
}

/// Merge reasons with the same kind and subject, keeping every independent
/// piece of evidence; the input order does not affect the result.
pub fn normalize(reasons: &mut Vec<Reason>)
    ensures
        normalized(reason_views(old(reasons)@), reason_views(final(reasons)@)),
{
    let ghost input = reason_views(reasons@);
    let mut result: Vec<Reason> = Vec::new();
    let mut i: usize = 0;
    while i < reasons.len()
        invariant
            i <= reasons.len(),
            input == reason_views(reasons@),
            normalized(input.take(i as int), reason_views(result@)),
        decreases reasons.len() - i,
    {
        let ghost before = reason_views(result@);
        let ghost pre = input.take(i as int);
        let r = &reasons[i];
        assert(r@ == input[i as int]);
        let mut p: usize = 0;
        while p < result.len() && compare_key(r.kind, &r.subject, result[p].kind, &result[p].subject) > 0
            invariant
                p <= result.len(),
                before == reason_views(result@),
                forall|k: int|
                    0 <= k < p ==> key_compare(before[k].kind, before[k].subject, r.kind, r.subject@)
                        < 0,
            decreases result.len() - p,
        {
            proof {
                lemma_key((r.kind, r.subject@), (before[p as int].kind, before[p as int].subject), (before[p as int].kind, before[p as int].subject));
            }
            p += 1;
        }
        assert(input.take(i + 1) =~= pre.push(r@));
        proof {
            if p < result.len() {
                lemma_key((r.kind, r.subject@), (before[p as int].kind, before[p as int].subject), (before[p as int].kind, before[p as int].subject));
            }
        }
        if p < result.len() && compare_key(r.kind, &r.subject, result[p].kind, &result[p].subject)
            == 0 {
            let existing = result.remove(p);
            assert(existing@ == before[p as int]);
            assert(evidence_sorted(before[p as int].evidence));
            let Reason { kind, subject, evidence } = existing;
            let ghost old_ev = evidence_views(evidence@);
            let ghost more_ev = evidence_views(r.evidence@);
            assert(old_ev == before[p as int].evidence);
            let evidence = merged_evidence(evidence, &r.evidence);
            let ghost new_ev = evidence_views(evidence@);
            let existing = Reason { kind, subject, evidence };
            assert(existing@.evidence == new_ev);
            assert(old_ev == before[p as int].evidence);
            assert(more_ev == r@.evidence);
            result.insert(p, existing);
            proof {
                assert(reason_views(result@) =~= before.update(p as int, existing@));
                lemma_normalize_merge(pre, r@, before, p as int, existing@);
            }
        } else {
            let mut evidence: Vec<Evidence> = Vec::new();
            merge_evidence(&mut evidence, &r.evidence);
            let fresh = Reason { kind: r.kind, subject: r.subject.copy(), evidence };
            result.insert(p, fresh);
            proof {
                assert(reason_views(result@) =~= before.insert(p as int, fresh@));
                lemma_normalize_insert(pre, r@, before, p as int, fresh@);
            }
        }
        i += 1;
    }
    assert(input.take(reasons.len() as int) =~= input);
    *reasons = result;
}


pub proof fn lemma_evidence_sets_unique(a: Seq<EvidenceView>, b: Seq<EvidenceView>)
    requires
        evidence_sorted(a),
        evidence_sorted(b),
        forall|x: EvidenceView| a.contains(x) <==> b.contains(x),
    ensures
        a == b,
    decreases a.len(),
{
    if a.len() == 0 {
        if b.len() > 0 {
            assert(b.contains(b[0]));
        }
        assert(a =~= b);
        return;
    }
    assert(a.contains(a[0]));
    assert(b.len() > 0);
    if a[0] != b[0] {
        let j = choose|j: int| 0 <= j < b.len() && b[j] == a[0];
        assert(b.contains(b[0]));
        let i = choose|i: int| 0 <= i < a.len() && a[i] == b[0];
        lemma_evidence(a[0], b[0], a[0]);
        assert(false);
    }
    let a1 = a.drop_first();
    let b1 = b.drop_first();
    assert forall|x: EvidenceView| a1.contains(x) <==> b1.contains(x) by {
        if a1.contains(x) {
            let k = choose|k: int| 0 <= k < a1.len() && a1[k] == x;
            lemma_evidence(a[0], a[k + 1], a[k + 1]);
            assert(a.contains(x));
            let j = choose|j: int| 0 <= j < b.len() && b[j] == x;
            assert(j != 0);
            assert(b1[j - 1] == x);
        }
        if b1.contains(x) {
            let k = choose|k: int| 0 <= k < b1.len() && b1[k] == x;
            lemma_evidence(b[0], b[k + 1], b[k + 1]);
            assert(b.contains(x));
            let j = choose|j: int| 0 <= j < a.len() && a[j] == x;
            assert(j != 0);
            assert(a1[j - 1] == x);
        }
    }
    lemma_evidence_sets_unique(a1, b1);
    assert(a =~= seq![a[0]] + a1);
    assert(b =~= seq![b[0]] + b1);
}

proof fn lemma_normalized_unique(out1: Seq<ReasonView>, out2: Seq<ReasonView>, in1: Seq<ReasonView>, in2: Seq<ReasonView>)
    requires
        normalized(in1, out1),
        normalized(in2, out2),
        forall|k: Kind, s: SubjectView| has_key(in1, k, s) <==> has_key(in2, k, s),
        forall|k: Kind, s: SubjectView, x: EvidenceView|
            grouped_evidence(in1, k, s, x) <==> grouped_evidence(in2, k, s, x),
    ensures
        out1 == out2,
    decreases out1.len(),
{
    if out1.len() == 0 {
        if out2.len() > 0 {
            assert(has_key(out2, out2[0].kind, out2[0].subject));
        }
        assert(out1 =~= out2);
        return;
    }
    assert(has_key(out1, out1[0].kind, out1[0].subject));
    assert(out2.len() > 0);
    assert(has_key(out2, out2[0].kind, out2[0].subject));
    let (k1, s1, k2, s2) = (out1[0].kind, out1[0].subject, out2[0].kind, out2[0].subject);
    if !(k1 == k2 && s1 == s2) {
        assert(has_key(out2, k1, s1));
        let j = choose|j: int| 0 <= j < out2.len() && out2[j].kind == k1 && #[trigger] out2[j].subject == s1;
        assert(has_key(out1, k2, s2));
        let i = choose|i: int| 0 <= i < out1.len() && out1[i].kind == k2 && #[trigger] out1[i].subject == s2;
        lemma_key((k1, s1), (k2, s2), (k1, s1));
        assert(false);
    }
    assert forall|x: EvidenceView| out1[0].evidence.contains(x) <==> out2[0].evidence.contains(x) by {
        assert(out1[0].evidence.contains(x) <==> grouped_evidence(in1, k1, s1, x));
        assert(out2[0].evidence.contains(x) <==> grouped_evidence(in2, k2, s2, x));
    }
    lemma_evidence_sets_unique(out1[0].evidence, out2[0].evidence);
    let t1 = out1.drop_first();
    let t2 = out2.drop_first();
    // The tails are the normalization of the inputs without the first key.
    lemma_tail_normalized(in1, out1);
    lemma_tail_normalized(in2, out2);
    assert forall|k: Kind, s: SubjectView| has_key(tail_input(in1, k1, s1), k, s) <==> has_key(tail_input(in2, k1, s1), k, s) by {
        lemma_tail_input(in1, k1, s1, k, s, EvidenceView::GitLineConflict);
        lemma_tail_input(in2, k1, s1, k, s, EvidenceView::GitLineConflict);
    }
    assert forall|k: Kind, s: SubjectView, x: EvidenceView| grouped_evidence(tail_input(in1, k1, s1), k, s, x) <==> grouped_evidence(tail_input(in2, k1, s1), k, s, x) by {
        lemma_tail_input(in1, k1, s1, k, s, x);
        lemma_tail_input(in2, k1, s1, k, s, x);
    }
    lemma_normalized_unique(t1, t2, tail_input(in1, k1, s1), tail_input(in2, k1, s1));
    assert(out1 =~= seq![out1[0]] + t1);
    assert(out2 =~= seq![out2[0]] + t2);
}

/// The input without the reasons of one key.
pub open spec fn tail_input(input: Seq<ReasonView>, k: Kind, s: SubjectView) -> Seq<ReasonView> {
    input.filter(|r: ReasonView| !(r.kind == k && r.subject == s))
}

proof fn lemma_tail_input(input: Seq<ReasonView>, k: Kind, s: SubjectView, k2: Kind, s2: SubjectView, x: EvidenceView)
    ensures
        has_key(tail_input(input, k, s), k2, s2) <==> (has_key(input, k2, s2) && !(k2 == k && s2 == s)),
        grouped_evidence(tail_input(input, k, s), k2, s2, x) <==> (grouped_evidence(input, k2, s2, x) && !(k2 == k && s2 == s)),
{
    let f = |r: ReasonView| !(r.kind == k && r.subject == s);
    let t = input.filter(f);
    if has_key(t, k2, s2) {
        let j = choose|j: int| 0 <= j < t.len() && t[j].kind == k2 && #[trigger] t[j].subject == s2;
        assert(t.contains(t[j]));
        input.lemma_filter_contains_rev(f, t[j]);
        input.lemma_filter_pred(f, j);
        let q = choose|q: int| 0 <= q < input.len() && input[q] == t[j];
        assert(input[q].subject == s2);
    }
    if has_key(input, k2, s2) && !(k2 == k && s2 == s) {
        let q = choose|q: int| 0 <= q < input.len() && input[q].kind == k2 && #[trigger] input[q].subject == s2;
        assert(f(input[q]));
        input.lemma_filter_contains(f, q);
        let j = choose|j: int| 0 <= j < t.len() && t[j] == input[q];
        assert(t[j].subject == s2);
    }
    if grouped_evidence(t, k2, s2, x) {
        let j = choose|j: int| 0 <= j < t.len() && t[j].kind == k2 && t[j].subject == s2 && #[trigger] t[j].evidence.contains(x);
        assert(t.contains(t[j]));
        input.lemma_filter_contains_rev(f, t[j]);
        let q = choose|q: int| 0 <= q < input.len() && input[q] == t[j];
        assert(input[q].evidence.contains(x));
    }
    if grouped_evidence(input, k2, s2, x) && !(k2 == k && s2 == s) {
        let q = choose|q: int| 0 <= q < input.len() && input[q].kind == k2 && input[q].subject == s2 && #[trigger] input[q].evidence.contains(x);
        assert(f(input[q]));
        input.lemma_filter_contains(f, q);
        let j = choose|j: int| 0 <= j < t.len() && t[j] == input[q];
        assert(t[j].evidence.contains(x));
    }
}

proof fn lemma_tail_normalized(input: Seq<ReasonView>, out: Seq<ReasonView>)
    requires
        normalized(input, out),
        out.len() > 0,
    ensures
        normalized(tail_input(input, out[0].kind, out[0].subject), out.drop_first()),
{
    let (k, s) = (out[0].kind, out[0].subject);
    let t = out.drop_first();
    let ti = tail_input(input, k, s);
    assert forall|i: int| 0 <= i < t.len() implies !(t[i].kind == k && t[i].subject == s) by {
        lemma_key((k, s), (t[i].kind, t[i].subject), (t[i].kind, t[i].subject));
    }
    assert forall|k2: Kind, s2: SubjectView| has_key(t, k2, s2) <==> has_key(ti, k2, s2) by {
        lemma_tail_input(input, k, s, k2, s2, EvidenceView::GitLineConflict);
        if has_key(t, k2, s2) {
            let j = choose|j: int| 0 <= j < t.len() && t[j].kind == k2 && #[trigger] t[j].subject == s2;
            assert(out[j + 1].kind == k2 && out[j + 1].subject == s2);
            assert(has_key(out, k2, s2));
        }
        if has_key(out, k2, s2) && !(k2 == k && s2 == s) {
            let j = choose|j: int| 0 <= j < out.len() && out[j].kind == k2 && #[trigger] out[j].subject == s2;
            assert(j != 0);
            assert(t[j - 1].kind == k2 && t[j - 1].subject == s2);
        }
    }
    assert forall|i: int, x: EvidenceView| 0 <= i < t.len() implies (#[trigger] t[i].evidence.contains(x)
        <==> grouped_evidence(ti, t[i].kind, t[i].subject, x)) by {
        lemma_tail_input(input, k, s, t[i].kind, t[i].subject, x);
        assert(t[i] == out[i + 1]);
    }
    assert forall|i: int| 0 <= i < t.len() implies evidence_sorted(#[trigger] t[i].evidence) by {
        assert(t[i] == out[i + 1]);
    }
}

/// Normalization depends only on which evidence stands under which kind and
/// subject: reordering or repeating the input reasons gives the same result.
pub proof fn law_normalize_order_independent(
    in1: Seq<ReasonView>,
    in2: Seq<ReasonView>,
    out1: Seq<ReasonView>,
    out2: Seq<ReasonView>,
)
    requires
        normalized(in1, out1),
        normalized(in2, out2),
        forall|r: ReasonView| in1.contains(r) <==> in2.contains(r),
    ensures
        out1 == out2,
{
    assert forall|k: Kind, s: SubjectView| has_key(in1, k, s) <==> has_key(in2, k, s) by {
        if has_key(in1, k, s) {
            let j = choose|j: int| 0 <= j < in1.len() && in1[j].kind == k && #[trigger] in1[j].subject == s;
            assert(in1.contains(in1[j]));
            let q = choose|q: int| 0 <= q < in2.len() && in2[q] == in1[j];
            assert(in2[q].subject == s);
        }
        if has_key(in2, k, s) {
            let j = choose|j: int| 0 <= j < in2.len() && in2[j].kind == k && #[trigger] in2[j].subject == s;
            assert(in2.contains(in2[j]));
            let q = choose|q: int| 0 <= q < in1.len() && in1[q] == in2[j];
            assert(in1[q].subject == s);
        }
    }
    assert forall|k: Kind, s: SubjectView, x: EvidenceView|
        grouped_evidence(in1, k, s, x) <==> grouped_evidence(in2, k, s, x) by {
        if grouped_evidence(in1, k, s, x) {
            let j = choose|j: int| 0 <= j < in1.len() && in1[j].kind == k && in1[j].subject == s && #[trigger] in1[j].evidence.contains(x);
            assert(in1.contains(in1[j]));
            let q = choose|q: int| 0 <= q < in2.len() && in2[q] == in1[j];
            assert(in2[q].evidence.contains(x));
        }
        if grouped_evidence(in2, k, s, x) {
            let j = choose|j: int| 0 <= j < in2.len() && in2[j].kind == k && in2[j].subject == s && #[trigger] in2[j].evidence.contains(x);
            assert(in2.contains(in2[j]));
            let q = choose|q: int| 0 <= q < in1.len() && in1[q] == in2[j];
            assert(in1[q].evidence.contains(x));
        }
    }
    lemma_normalized_unique(out1, out2, in1, in2);
}

/// Normalizing an already normalized list changes nothing.
pub proof fn law_normalize_idempotent(input: Seq<ReasonView>, out: Seq<ReasonView>, again: Seq<ReasonView>)
    requires
        normalized(input, out),
        normalized(out, again),
    ensures
        again == out,
{
    assert forall|k: Kind, s: SubjectView, x: EvidenceView|
        grouped_evidence(out, k, s, x) <==> grouped_evidence(input, k, s, x) by {
        if grouped_evidence(out, k, s, x) {
            let j = choose|j: int| 0 <= j < out.len() && out[j].kind == k && out[j].subject == s && #[trigger] out[j].evidence.contains(x);
        }
        if grouped_evidence(input, k, s, x) {
            assert(has_key(input, k, s));
            assert(has_key(out, k, s));
            let j = choose|j: int| 0 <= j < out.len() && out[j].kind == k && #[trigger] out[j].subject == s;
            assert(out[j].evidence.contains(x));
        }
    }
    lemma_normalized_unique(again, out, out, input);
}

/// Adding reasons to a normalized list and normalizing again gives what
/// normalizing the original reasons with the additions gives.
pub proof fn law_normalize_extend(
    input: Seq<ReasonView>,
    out: Seq<ReasonView>,
    more: Seq<ReasonView>,
    again: Seq<ReasonView>,
)
    requires
        normalized(input, out),
        normalized(out + more, again),
    ensures
        normalized(input + more, again),
{
    let a = input + more;
    let b = out + more;
    assert forall|k: Kind, s: SubjectView| has_key(b, k, s) <==> has_key(a, k, s) by {
        if has_key(b, k, s) {
            let j = choose|j: int| 0 <= j < b.len() && b[j].kind == k && #[trigger] b[j].subject == s;
            if j < out.len() {
                assert(out[j] == b[j]);
                assert(has_key(out, k, s));
                assert(has_key(input, k, s));
                let q = choose|q: int| 0 <= q < input.len() && input[q].kind == k && #[trigger] input[q].subject == s;
                assert(a[q] == input[q]);
            } else {
                assert(a[j - out.len() + input.len()] == more[j - out.len()]);
            }
        }
        if has_key(a, k, s) {
            let j = choose|j: int| 0 <= j < a.len() && a[j].kind == k && #[trigger] a[j].subject == s;
            if j < input.len() {
                assert(input[j] == a[j]);
                assert(has_key(input, k, s));
                assert(has_key(out, k, s));
                let q = choose|q: int| 0 <= q < out.len() && out[q].kind == k && #[trigger] out[q].subject == s;
                assert(b[q] == out[q]);
            } else {
                assert(b[j - input.len() + out.len()] == more[j - input.len()]);
            }
        }
    }
    assert forall|k: Kind, s: SubjectView, x: EvidenceView|
        grouped_evidence(b, k, s, x) <==> grouped_evidence(a, k, s, x) by {
        if grouped_evidence(b, k, s, x) {
            let j = choose|j: int| 0 <= j < b.len() && b[j].kind == k && b[j].subject == s && #[trigger] b[j].evidence.contains(x);
            if j < out.len() {
                assert(out[j] == b[j]);
                assert(out[j].evidence.contains(x));
                assert(grouped_evidence(input, k, s, x));
                let q = choose|q: int| 0 <= q < input.len() && input[q].kind == k && input[q].subject == s && #[trigger] input[q].evidence.contains(x);
                assert(a[q] == input[q]);
            } else {
                assert(a[j - out.len() + input.len()] == more[j - out.len()]);
            }
        }
        if grouped_evidence(a, k, s, x) {
            let j = choose|j: int| 0 <= j < a.len() && a[j].kind == k && a[j].subject == s && #[trigger] a[j].evidence.contains(x);
            if j < input.len() {
                assert(input[j] == a[j]);
                assert(grouped_evidence(input, k, s, x));
                assert(has_key(input, k, s));
                assert(has_key(out, k, s));
                let q = choose|q: int| 0 <= q < out.len() && out[q].kind == k && #[trigger] out[q].subject == s;
                assert(out[q].evidence.contains(x));
                assert(b[q] == out[q]);
            } else {
                assert(b[j - input.len() + out.len()] == more[j - input.len()]);
            }
        }
    }
    assert forall|i: int, x: EvidenceView| 0 <= i < again.len() implies (#[trigger] again[i].evidence.contains(x)
        <==> grouped_evidence(a, again[i].kind, again[i].subject, x)) by {
        assert(again[i].evidence.contains(x) <==> grouped_evidence(b, again[i].kind, again[i].subject, x));
    }
}

// ---------------------------------------------------------------------------
// Strictly ordered sets of candidates and of their counterparts.
// ---------------------------------------------------------------------------

/// Strictly increasing under `c`: an ordered set.
pub open spec fn sorted_by<T>(c: spec_fn(T, T) -> int, s: Seq<T>) -> bool {
    forall|i: int, j: int| 0 <= i < j < s.len() ==> c(#[trigger] s[i], #[trigger] s[j]) < 0
}

/// Two ordered sets with the same elements are the same sequence.
pub proof fn lemma_sorted_unique<T>(c: spec_fn(T, T) -> int, a: Seq<T>, b: Seq<T>)
    requires
        total_order(c),
        sorted_by(c, a),
        sorted_by(c, b),
        forall|x: T| a.contains(x) <==> b.contains(x),
    ensures
        a == b,
    decreases a.len(),
{
    if a.len() == 0 {
        if b.len() > 0 {
            assert(b.contains(b[0]));
        }
        assert(a =~= b);
        return;
    }
    assert(a.contains(a[0]));
    assert(b.len() > 0);
    assert(b.contains(b[0]));
    if a[0] != b[0] {
        let j = choose|j: int| 0 <= j < b.len() && b[j] == a[0];
        let i = choose|i: int| 0 <= i < a.len() && a[i] == b[0];
        assert(j > 0 && i > 0);
        assert(c(b[0], b[j]) < 0);
        assert(c(a[0], a[i]) < 0);
        assert(c(a[0], b[0]) == -c(b[0], a[0]));
        assert(false);
    }
    let a1 = a.drop_first();
    let b1 = b.drop_first();
    assert forall|x: T| a1.contains(x) <==> b1.contains(x) by {
        if a1.contains(x) {
            let k = choose|k: int| 0 <= k < a1.len() && a1[k] == x;
            assert(a[k + 1] == x);
            assert(c(a[0], a[k + 1]) < 0);
            assert(a.contains(x));
            let j = choose|j: int| 0 <= j < b.len() && b[j] == x;
            assert(j != 0);
            assert(b1[j - 1] == x);
        }
        if b1.contains(x) {
            let k = choose|k: int| 0 <= k < b1.len() && b1[k] == x;
            assert(b[k + 1] == x);
            assert(c(b[0], b[k + 1]) < 0);
            assert(b.contains(x));
            let j = choose|j: int| 0 <= j < a.len() && a[j] == x;
            assert(j != 0);
            assert(a1[j - 1] == x);
        }
    }
    assert(sorted_by(c, a1)) by {
        assert forall|i: int, j: int| 0 <= i < j < a1.len() implies c(#[trigger] a1[i], #[trigger] a1[j]) < 0 by {
            assert(a1[i] == a[i + 1] && a1[j] == a[j + 1]);
        }
    }
    assert(sorted_by(c, b1)) by {
        assert forall|i: int, j: int| 0 <= i < j < b1.len() implies c(#[trigger] b1[i], #[trigger] b1[j]) < 0 by {
            assert(b1[i] == b[i + 1] && b1[j] == b[j + 1]);
        }
    }
    lemma_sorted_unique(c, a1, b1);
    assert(a =~= seq![a[0]] + a1);
    assert(b =~= seq![b[0]] + b1);
}

pub proof fn lemma_move_order()
    ensures
        total_order(|x: MoveEvidenceView, y: MoveEvidenceView| move_compare(x, y)),
{
    let c = |x: MoveEvidenceView, y: MoveEvidenceView| move_compare(x, y);
    assert forall|a: MoveEvidenceView, b: MoveEvidenceView| #[trigger] c(a, b) == -c(b, a) by {
        lemma_move(a, b, b);
    }
    assert forall|a: MoveEvidenceView, b: MoveEvidenceView| #[trigger] c(a, b) == 0 <==> a == b by {
        lemma_move(a, b, b);
    }
    assert forall|a: MoveEvidenceView, b: MoveEvidenceView| -1 <= #[trigger] c(a, b) <= 1 by {
        lemma_move(a, b, b);
    }
    assert forall|a: MoveEvidenceView, b: MoveEvidenceView, d: MoveEvidenceView|
        #![trigger c(a, b), c(b, d)]
        c(a, b) < 0 && c(b, d) < 0 implies c(a, d) < 0 by {
        lemma_move(a, b, d);
    }
}

pub open spec fn moves_sorted(s: Seq<MoveEvidenceView>) -> bool {
    sorted_by(|x: MoveEvidenceView, y: MoveEvidenceView| move_compare(x, y), s)
}

pub open spec fn opposites_sorted(s: Seq<OppositeMoveView>) -> bool {
    sorted_by(|x: OppositeMoveView, y: OppositeMoveView| opposite_move_compare(x, y), s)
}

pub open spec fn move_views(v: Seq<MoveEvidence>) -> Seq<MoveEvidenceView> {
    v.map_values(|m: MoveEvidence| m@)
}

/// Inserting an element at its place keeps a set ordered.
pub proof fn lemma_insert_ordered<T>(c: spec_fn(T, T) -> int, old_view: Seq<T>, p: int, m: T)
    requires
        total_order(c),
        sorted_by(c, old_view),
        0 <= p <= old_view.len(),
        forall|k: int| 0 <= k < p ==> c(#[trigger] old_view[k], m) < 0,
        p < old_view.len() ==> c(m, old_view[p]) < 0,
    ensures
        sorted_by(c, old_view.insert(p, m)),
        forall|x: T| old_view.insert(p, m).contains(x) <==> (old_view.contains(x) || x == m),
{
    let nv = old_view.insert(p, m);
    assert forall|i: int, j: int| 0 <= i < j < nv.len() implies c(#[trigger] nv[i], #[trigger] nv[j]) < 0 by {
        if j < p {
            assert(nv[i] == old_view[i] && nv[j] == old_view[j]);
        } else if j == p {
            assert(nv[i] == old_view[i]);
        } else if i == p {
            assert(nv[j] == old_view[j - 1]);
            if j - 1 > p {
                assert(c(old_view[p], old_view[j - 1]) < 0);
            }
        } else if i < p {
            assert(nv[i] == old_view[i] && nv[j] == old_view[j - 1]);
            assert(c(old_view[i], m) < 0);
            assert(c(m, old_view[p]) < 0);
            if j - 1 > p {
                assert(c(old_view[p], old_view[j - 1]) < 0);
            }
        } else {
            assert(nv[i] == old_view[i - 1] && nv[j] == old_view[j - 1]);
        }
    }
    assert forall|x: T| nv.contains(x) <==> (old_view.contains(x) || x == m) by {
        if nv.contains(x) {
            let k = choose|k: int| 0 <= k < nv.len() && nv[k] == x;
            if k < p {
                assert(old_view[k] == x);
            } else if k > p {
                assert(old_view[k - 1] == x);
            }
        }
        if old_view.contains(x) {
            let k = choose|k: int| 0 <= k < old_view.len() && old_view[k] == x;
            if k < p {
                assert(nv[k] == x);
            } else {
                assert(nv[k + 1] == x);
            }
        }
        if x == m {
            assert(nv[p] == x);
        }
    }
}

/// Adds a candidate to an ordered set of candidates.
pub fn insert_move(v: &mut Vec<MoveEvidence>, m: MoveEvidence)
    requires
        moves_sorted(move_views(old(v)@)),
    ensures
        moves_sorted(move_views(final(v)@)),
        forall|x: MoveEvidenceView|
            move_views(final(v)@).contains(x) <==> (move_views(old(v)@).contains(x) || x == m@),
{
    let ghost old_view = move_views(v@);
    let ghost c = |x: MoveEvidenceView, y: MoveEvidenceView| move_compare(x, y);
    proof {
        lemma_move_order();
    }
    let mut p: usize = 0;
    while p < v.len() && compare_move(&m, &v[p]) > 0
        invariant
            p <= v.len(),
            old_view == move_views(v@),
            c == (|x: MoveEvidenceView, y: MoveEvidenceView| move_compare(x, y)),
            total_order(c),
            forall|k: int| 0 <= k < p ==> move_compare(#[trigger] old_view[k], m@) < 0,
        decreases v.len() - p,
    {
        assert(old_view[p as int] == v@[p as int]@);
        assert(c(m@, old_view[p as int]) == -c(old_view[p as int], m@));
        p += 1;
    }
    if p < v.len() && compare_move(&m, &v[p]) == 0 {
        assert(old_view[p as int] == v@[p as int]@);
        assert(c(m@, old_view[p as int]) == 0);
        assert(old_view[p as int] == m@);
        assert(old_view.contains(m@));
        return;
    }
    let ghost mv = m@;
    proof {
        if p < v.len() {
            assert(old_view[p as int] == v@[p as int]@);
        }
    }
    proof {
        assert(p < v.len() ==> c(m@, old_view[p as int]) < 0);
        lemma_insert_ordered(c, old_view, p as int, mv);
    }
    v.insert(p, m);
    assert(move_views(v@) =~= old_view.insert(p as int, mv));
    assert forall|x: MoveEvidenceView| #[trigger] move_views(v@).contains(x) <==> (old_view.contains(x) || x == mv) by {
        assert(old_view.insert(p as int, mv).contains(x) <==> (old_view.contains(x) || x == mv));
    }
}

pub open spec fn opposite_views_of(v: Seq<OppositeMove>) -> Seq<OppositeMoveView> {
    v.map_values(|m: OppositeMove| m@)
}

/// Adds a counterpart to an ordered set of counterparts.
pub fn insert_opposite_move(v: &mut Vec<OppositeMove>, m: OppositeMove)
    requires
        opposites_sorted(opposite_views_of(old(v)@)),
    ensures
        opposites_sorted(opposite_views_of(final(v)@)),
        forall|x: OppositeMoveView|
            opposite_views_of(final(v)@).contains(x) <==> (opposite_views_of(old(v)@).contains(x) || x
                == m@),
{
    let ghost old_view = opposite_views_of(v@);
    let ghost c = |x: OppositeMoveView, y: OppositeMoveView| opposite_move_compare(x, y);
    proof {
        lemma_opposite_move_order();
    }
    let mut p: usize = 0;
    while p < v.len() && compare_opposite_move(&m, &v[p]) > 0
        invariant
            p <= v.len(),
            old_view == opposite_views_of(v@),
            c == (|x: OppositeMoveView, y: OppositeMoveView| opposite_move_compare(x, y)),
            total_order(c),
            forall|k: int| 0 <= k < p ==> opposite_move_compare(#[trigger] old_view[k], m@) < 0,
        decreases v.len() - p,
    {
        assert(old_view[p as int] == v@[p as int]@);
        assert(c(m@, old_view[p as int]) == -c(old_view[p as int], m@));
        p += 1;
    }
    if p < v.len() && compare_opposite_move(&m, &v[p]) == 0 {
        assert(old_view[p as int] == v@[p as int]@);
        assert(c(m@, old_view[p as int]) == 0);
        assert(old_view[p as int] == m@);
        assert(old_view.contains(m@));
        return;
    }
    let ghost mv = m@;
    proof {
        if p < v.len() {
            assert(old_view[p as int] == v@[p as int]@);
        }
    }
    proof {
        assert(p < v.len() ==> c(m@, old_view[p as int]) < 0);
        lemma_insert_ordered(c, old_view, p as int, mv);
    }
    v.insert(p, m);
    assert(opposite_views_of(v@) =~= old_view.insert(p as int, mv));
    assert forall|x: OppositeMoveView| #[trigger] opposite_views_of(v@).contains(x) <==> (old_view.contains(x) || x == mv) by {
        assert(old_view.insert(p as int, mv).contains(x) <==> (old_view.contains(x) || x == mv));
    }
}

/// Strictly increasing strings: an ordered set.
pub open spec fn strs_sorted(s: Seq<Seq<char>>) -> bool {
    sorted_by(|x: Seq<char>, y: Seq<char>| str_compare(x, y), s)
}

/// Adds a string to an ordered set of strings.
pub fn insert_string(v: &mut Vec<String>, n: String)
    requires
        strs_sorted(crate::text::string_views(old(v)@)),
    ensures
        strs_sorted(crate::text::string_views(final(v)@)),
        forall|x: Seq<char>| crate::text::string_views(final(v)@).contains(x) <==> (crate::text::string_views(old(v)@).contains(x) || x == n@),
{
    let ghost old_view = crate::text::string_views(v@);
    let ghost c = |x: Seq<char>, y: Seq<char>| str_compare(x, y);
    proof {
        lemma_str_order();
    }
    let mut p: usize = 0;
    while p < v.len() && compare_str(n.as_str(), v[p].as_str()) > 0
        invariant
            p <= v.len(),
            old_view == crate::text::string_views(v@),
            c == (|x: Seq<char>, y: Seq<char>| str_compare(x, y)),
            total_order(c),
            forall|k: int| 0 <= k < p ==> str_compare(#[trigger] old_view[k], n@) < 0,
        decreases v.len() - p,
    {
        assert(old_view[p as int] == v@[p as int]@);
        assert(c(n@, old_view[p as int]) == -c(old_view[p as int], n@));
        p += 1;
    }
    if p < v.len() && compare_str(n.as_str(), v[p].as_str()) == 0 {
        assert(old_view[p as int] == v@[p as int]@);
        assert(c(n@, old_view[p as int]) == 0);
        assert(old_view[p as int] == n@);
        assert(old_view.contains(n@));
        return;
    }
    let ghost nv = n@;
    proof {
        if p < v.len() {
            assert(old_view[p as int] == v@[p as int]@);
        }
        assert(p < v.len() ==> c(nv, old_view[p as int]) < 0);
        lemma_insert_ordered(c, old_view, p as int, nv);
    }
    v.insert(p, n);
    assert(crate::text::string_views(v@) =~= old_view.insert(p as int, nv));
    assert forall|x: Seq<char>| #[trigger] crate::text::string_views(v@).contains(x) <==> (old_view.contains(x) || x == nv) by {
        assert(old_view.insert(p as int, nv).contains(x) <==> (old_view.contains(x) || x == nv));
    }
}


} // verus!
