use strict_weave::merge::safe_label;
use strict_weave::reason::order::normalize;
use strict_weave::reason::display::summaries;
use strict_weave::reason::{
    Change, Evidence, Kind, Location, MoveEvidence, MoveMatch, Opposite, Reason, Side, Subject, WeaveRefusal,
};
use strict_weave::repository::related_move_lines;

fn entity(name: &str) -> Subject {
    Subject::Entity { entity_type: "function".into(), name: name.into() }
}

fn location(path: &str, entity: &str, line: usize) -> Location {
    Location { path: path.into(), entity: entity.into(), line }
}

fn candidate(opposite: Opposite) -> MoveEvidence {
    MoveEvidence {
        side: Side::Ours,
        base: location("a.rs", "function f", 3),
        target: location("b.rs", "function f", 7),
        source_count: 1,
        destination_count: 1,
        opposite,
        matched_by: MoveMatch::Exact,
        opposite_moves: Vec::new(),
    }
}

#[test]
fn normalize_groups_by_kind_and_subject_in_any_order() {
    let a = Reason::new(Kind::EntityConflict, entity("f"), Evidence::RawBothChanged);
    let b = Reason::new(Kind::LineConflict, Subject::File, Evidence::GitLineConflict);
    let c = Reason::new(Kind::EntityConflict, entity("f"), Evidence::IdenticalEdits);
    let mut one = vec![a.copy(), b.copy(), c.copy()];
    let mut two = vec![c.copy(), a.copy(), b.copy(), a.copy()];
    normalize(&mut one);
    normalize(&mut two);
    assert_eq!(one, two);
    assert_eq!(one.len(), 2);
    assert_eq!(one[0].kind, Kind::LineConflict);
    assert_eq!(one[1].evidence, vec![Evidence::RawBothChanged, Evidence::IdenticalEdits]);
    let mut again = one.iter().map(|r| r.copy()).collect::<Vec<_>>();
    normalize(&mut again);
    assert_eq!(again, one);
}

#[test]
fn reason_summaries_name_the_kind_and_target() {
    let line = Reason::new(Kind::LineConflict, Subject::File, Evidence::GitLineConflict);
    assert_eq!(line.summary(), "LINE_CONFLICT：Git 行级冲突");
    let same = Reason::new(Kind::EntityConflict, entity("f"), Evidence::IdenticalEdits);
    assert_eq!(
        same.summary(),
        "ENTITY_CONFLICT：function f：双方修改结果相同，但均不同于 base，按严格规则需人工审核"
    );
    let layout = Reason::new(Kind::LayoutChanged, Subject::File, Evidence::LayoutChanged);
    assert_eq!(summaries(&[line.copy(), layout.copy()]), "LINE_CONFLICT：Git 行级冲突; ENTITY_LAYOUT_CHANGED：实体增删或顺序变化");
    assert_eq!(line.lines(false), vec!["原因 [git]：LINE_CONFLICT：Git 行级冲突"]);
    assert_eq!(
        Reason::new(Kind::EntityConflict, entity("f"), Evidence::WeaveActions { ours: Change::Modified, theirs: Change::Deleted })
            .lines(false),
        vec![
            "原因 [weave]：ENTITY_CONFLICT：function f 需人工审核",
            "  依据 [weave]：分类：ours=modified, theirs=deleted"
        ]
    );
}

#[test]
fn refusals_and_candidates_read_as_the_report_shows_them() {
    let r = WeaveRefusal::RenameModify { old_name: "a".into(), new_name: "b".into(), renamed_in: Side::Theirs };
    assert_eq!(r.summary(), "rename_modify；theirs: a → b");
    let e = Evidence::MoveCandidate { candidate: Box::new(candidate(Opposite::Modified)) };
    assert_eq!(
        e.summary(),
        "[analyze]：MOVE_CANDIDATE：ours 疑似移动 function f · a.rs:3 → b.rs:7；源 deleted、目标 added；类型/名称/原始区域文本相同（含附着注释）；sources=1，destinations=1；另一侧=modified"
    );
    assert_eq!(candidate(Opposite::Unchanged).marker_note(), "疑似移动 function f · a.rs:3 → function f · b.rs:7");
}

#[test]
fn related_moves_not_under_a_reason_are_listed_once() {
    let c = candidate(Opposite::Unchanged);
    assert!(related_move_lines(&[], &[c.copy()], false).is_empty());
    let reason = Reason::new(Kind::LineConflict, Subject::File, Evidence::GitLineConflict);
    let lines = related_move_lines(&[reason.copy()], &[c.copy()], false);
    assert_eq!(lines.len(), 1);
    assert!(lines[0].starts_with("关联 [analyze]：MOVE_CANDIDATE"));
    let attached = Reason::new(
        Kind::ModifyVsMove,
        Subject::Move { side: Side::Ours, base: c.base.copy(), target: c.target.copy() },
        Evidence::MoveCandidate { candidate: Box::new(c.copy()) },
    );
    assert!(related_move_lines(&[attached], &[c], false).is_empty());
}

#[test]
fn labels_are_made_safe_for_one_line() {
    assert_eq!(safe_label("a\nb"), "a b");
    assert!(Reason::new(Kind::LineConflict, Subject::File, Evidence::GitLineConflict).valid());
    let c = candidate(Opposite::Unchanged);
    let misplaced = Reason::new(
        Kind::LineConflict,
        Subject::Move { side: Side::Ours, base: c.base.copy(), target: c.target.copy() },
        Evidence::GitLineConflict,
    );
    assert!(!misplaced.valid());
}
