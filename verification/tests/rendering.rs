use strict_weave::merge::conflict::{annotate_moves, conflict_box};
use strict_weave::merge::{validate_text, Labels};
use strict_weave::error::Error;
use strict_weave::reason::{Location, MoveEvidence, MoveMatch, Opposite, Side};

fn labels() -> Labels {
    Labels { ours: "HEAD".into(), base: "b".into(), theirs: "topic".into() }
}

#[test]
fn a_box_keeps_common_context_outside() {
    let text = conflict_box("a\nx\nz\n", "a\ny\nz\n", "a\nw\nz\n", &labels(), 7, "why");
    assert_eq!(
        text,
        "a\n<<<<<<< ⎇ ours: HEAD | why\ny\n||||||| ⎇ base: b\nx\n=======\nw\n>>>>>>> ⎇ theirs: topic\nz\n"
    );
}

#[test]
fn identical_texts_keep_the_whole_box() {
    let text = conflict_box("a\n", "a\n", "a\n", &labels(), 7, "r");
    assert_eq!(text, "<<<<<<< ⎇ ours: HEAD | r\na\n||||||| ⎇ base: b\na\n=======\na\n>>>>>>> ⎇ theirs: topic\n");
}

#[test]
fn move_notes_go_to_the_first_marker_of_each_side() {
    let c = MoveEvidence {
        side: Side::Ours,
        base: Location { path: "a.rs".into(), entity: "function f".into(), line: 1 },
        target: Location { path: "b.rs".into(), entity: "function f".into(), line: 2 },
        source_count: 1,
        destination_count: 1,
        opposite: Opposite::Unchanged,
        matched_by: MoveMatch::Exact,
        opposite_moves: Vec::new(),
    };
    let content = "<<<<<<< ⎇ ours: x\r\nbody\n<<<<<<< ⎇ ours: y\n";
    let out = annotate_moves(content, &[c], 7);
    assert_eq!(
        out,
        "<<<<<<< ⎇ ours: x | 文件关联 [analyze]：疑似移动 function f · a.rs:1 → function f · b.rs:2\r\nbody\n<<<<<<< ⎇ ours: y\n"
    );
    assert_eq!(annotate_moves(content, &[], 7), content);
    // Noting again changes nothing, and every line is kept.
    let again = annotate_moves(&out, &[c2()], 7);
    assert_eq!(again, out);
    assert_eq!(out.lines().count(), content.lines().count());
}

fn c2() -> MoveEvidence {
    MoveEvidence {
        side: Side::Ours,
        base: Location { path: "a.rs".into(), entity: "function f".into(), line: 1 },
        target: Location { path: "b.rs".into(), entity: "function f".into(), line: 2 },
        source_count: 1,
        destination_count: 1,
        opposite: Opposite::Unchanged,
        matched_by: MoveMatch::Exact,
        opposite_moves: Vec::new(),
    }
}

#[test]
fn texts_are_checked_before_use() {
    assert_eq!(validate_text(b"ok\n").unwrap(), "ok\n");
    assert!(matches!(validate_text(b"\xff"), Err(Error::NotUtf8)));
    assert!(matches!(validate_text(b"a\0b"), Err(Error::Binary)));
    assert!(matches!(validate_text(&vec![b'a'; 1_000_001]), Err(Error::TooLarge)));
}

#[test]
fn error_messages() {
    assert_eq!(Error::StaleInput { side: 1 }.message(), "分析输入不匹配：ours；报告可能已过期");
    assert_eq!(
        Error::InFile { path: "p".into(), cause: Box::new(Error::Binary) }.message(),
        "p：初版不支持 binary 文件"
    );
    assert_eq!(
        Error::UnsupportedAttribute { file: b"f".to_vec(), attribute: b"eol".to_vec(), value: b"lf".to_vec() }.message(),
        "暂不支持影响合并原文的 attribute：f eol=lf"
    );
    assert_eq!(Error::GitOperation { name: "MERGE_HEAD" }.message(), "已有 Git 操作：MERGE_HEAD；请先由 Git 处理该操作");
    assert_eq!(
        Error::UnsupportedAttribute { file: b"a\xffb".to_vec(), attribute: b"eol".to_vec(), value: vec![0xc3] }.message(),
        "暂不支持影响合并原文的 attribute：a\u{fffd}b eol=\u{fffd}",
    );
}
