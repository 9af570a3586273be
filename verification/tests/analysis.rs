use strict_weave::analysis::global::{analyze, fingerprint, plan_analysis, FileLines, TextFile};
use strict_weave::analysis::local::{prepare, LineMerge};
use strict_weave::error::Error;
use strict_weave::merge::{merge, ConflictStyle, Labels};
use strict_weave::reason::{Kind, Subject};

fn file(path: &str, text: &str) -> TextFile {
    TextFile { path: path.into(), text: text.into() }
}

fn lines_for(prepared: &strict_weave::analysis::local::Prepared, whole: LineMerge) -> FileLines {
    let regions = match &prepared.regions {
        Some(rs) => rs
            .iter()
            .map(|r| match r.reason {
                Some(_) => None,
                None => Some(LineMerge { content: r.ours.text.clone(), conflict: false }),
            })
            .collect(),
        None => Vec::new(),
    };
    FileLines { whole, regions }
}

#[test]
fn a_report_tells_absent_from_empty_and_skips_unchanged_paths() {
    let snaps = [
        vec![file("keep.txt", "same\n"), file("notes.txt", "a\n")],
        vec![file("keep.txt", "same\n"), file("new.txt", ""), file("notes.txt", "b\n")],
        vec![file("keep.txt", "same\n"), file("notes.txt", "a\n")],
    ];
    let trees = ["t0".to_string(), "t1".to_string(), "t2".to_string()];
    let plan = plan_analysis(&snaps, trees).unwrap();
    let paths: Vec<&str> = plan.files.iter().map(|f| f.path.as_str()).collect();
    assert_eq!(paths, vec!["new.txt", "notes.txt"]);
    let mut lines = Vec::new();
    for f in &plan.files {
        let whole = LineMerge { content: f.prepared.ours.clone(), conflict: false };
        lines.push(lines_for(&f.prepared, whole));
    }
    assert!(plan.accepts(&lines));
    let report = analyze(plan, lines).unwrap();
    assert_eq!(report.schema_version, 5);
    assert_eq!(report.engine, "strict-weave-global-v9");
    assert_eq!(report.files.len(), 2);
    let new = &report.files[0].analysis;
    assert_eq!(new.fingerprints[0], None);
    assert_eq!(new.fingerprints[1], Some(fingerprint("")));
    assert_eq!(new.fingerprints[2], None);
    let notes = &report.files[1].analysis;
    assert_eq!(notes.fingerprints[1], Some(fingerprint("b\n")));
    assert!(report.warnings.windows(2).all(|w| w[0] < w[1]));
    assert!(!report.conflicted());
    assert!(report.validate().is_ok());
}

#[test]
fn snapshots_with_an_empty_path_are_refused() {
    let snaps = [vec![file("", "x")], vec![], vec![]];
    let trees = ["a".to_string(), "b".to_string(), "c".to_string()];
    assert!(matches!(plan_analysis(&snaps, trees), Err(Error::EmptyPath)));
}

#[test]
fn git_line_conflict_is_never_withdrawn() {
    let prepared = prepare("a\n", "b\n", "c\n", "notes.txt", 7, ConflictStyle::Diff3).unwrap();
    let whole = LineMerge {
        content: "<<<<<<< ours\nb\n||||||| base\na\n=======\nc\n>>>>>>> theirs\n".into(),
        conflict: true,
    };
    let lines = lines_for(&prepared, LineMerge { content: String::new(), conflict: false }).regions;
    let outcome = merge(prepared, whole, &lines, &Labels::default(), 7);
    assert!(outcome.conflicted());
    assert!(outcome
        .reasons
        .iter()
        .any(|r| r.kind == Kind::LineConflict && r.subject == Subject::File));
}

#[test]
fn inputs_with_conflict_markers_are_refused() {
    let r = prepare("a\n", "<<<<<<< x\n", "a\n", "f.txt", 7, ConflictStyle::Diff3);
    assert!(matches!(r, Err(Error::ExistingMarker)));
    let r = prepare("a\n", "b\0", "a\n", "f.txt", 7, ConflictStyle::Diff3);
    assert!(matches!(r, Err(Error::Binary)));
    let r = prepare("a\n", "b\n", "a\n", "f.txt", 3, ConflictStyle::Diff3);
    assert!(matches!(r, Err(Error::MarkerSize)));
}

#[test]
fn an_entity_changed_on_both_sides_is_always_reviewed() {
    let base = "fn a() {\n    1\n}\n\nfn b() {\n    2\n}\n";
    let ours = "fn a() {\n    10\n}\n\nfn b() {\n    2\n}\n";
    let theirs = "fn a() {\n    11\n}\n\nfn b() {\n    2\n}\n";
    let p = prepare(base, ours, theirs, "lib.rs", 7, ConflictStyle::Diff3).unwrap();
    assert!(p.reasons.iter().any(|r| r.kind == strict_weave::reason::Kind::EntityConflict
        && matches!(&r.subject, strict_weave::reason::Subject::Entity { name, .. } if name == "a")));
    assert!(!p.reasons.iter().any(|r| matches!(&r.subject, strict_weave::reason::Subject::Entity { name, .. } if name == "b")));
}
