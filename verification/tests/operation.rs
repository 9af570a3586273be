use strict_weave::operation::rebase::{preview_pending, preview_step};
use strict_weave::analysis::git::{admit_size, blob_oid, check_mode, parse_size, parse_tree_listing};
use strict_weave::error::Error;
use strict_weave::operation::plan::stage_records;
use strict_weave::operation::rebase::{
    check_no_git_operation, check_state, mark_applied, mark_applying, mark_committed, mark_committing,
    new_state, next_step, rebase_route, validate_context, Phase, Route, Step,
};
use strict_weave::operation::run::{cherry_pick_base, merge_route, unique_base, Route as RunRoute};
use strict_weave::operation::subset::{check_attributes, check_subset, find_layout_conflict, reports_rename};
use strict_weave::operation::{OperationKind, Options};

#[test]
fn renames_are_found_in_name_status_output() {
    assert!(!reports_rename(b"M\0a.rs\0A\0b.rs\0"));
    assert!(reports_rename(b"M\0a.rs\0R100\0old.rs\0new.rs\0"));
    assert!(!reports_rename(b""));
}

#[test]
fn layout_conflicts_name_the_first_path_under_another() {
    let paths: Vec<String> = vec!["a".into(), "a.txt".into(), "a/b".into(), "c".into()];
    assert_eq!(find_layout_conflict(&paths), Some(2));
    let paths: Vec<String> = vec!["a/b".into(), "ab".into()];
    assert_eq!(find_layout_conflict(&paths), None);
    // The empty path is above every other path, but not above itself.
    let paths: Vec<String> = vec!["".into()];
    assert_eq!(find_layout_conflict(&paths), None);
    let paths: Vec<String> = vec!["".into(), "a".into()];
    assert_eq!(find_layout_conflict(&paths), Some(1));
}

#[test]
fn attributes_that_change_inputs_are_refused() {
    assert!(check_attributes(b"a\0merge\0set\0a\0text\0unspecified\0a\0eol\0unset\0").is_ok());
    assert!(matches!(
        check_attributes(b"a\0eol\0lf\0"),
        Err(Error::UnsupportedAttribute { file, attribute, value })
            if file == b"a" && attribute == b"eol" && value == b"lf"
    ));
    assert!(matches!(check_attributes(b"a\0merge\0"), Err(Error::IncompleteAttributes)));
    assert!(matches!(check_attributes(b"a\0merge\0unset\0"), Err(Error::UnsupportedAttribute { .. })));
}

#[test]
fn subset_checks_in_order() {
    let diffs = vec![b"M\0a\0".to_vec(), b"R090\0a\0b\0".to_vec()];
    let paths: Vec<String> = vec!["a".into()];
    let attrs: Vec<Vec<u8>> = vec![];
    assert!(matches!(check_subset(&diffs, &paths, &attrs, &None, &None), Err(Error::Rename)));
    let diffs: Vec<Vec<u8>> = vec![];
    assert!(matches!(
        check_subset(&diffs, &paths, &attrs, &Some("true".into()), &None),
        Err(Error::Usage { text: "暂不支持 core.autocrlf；需要原文三方输入" })
    ));
    assert!(check_subset(&diffs, &paths, &attrs, &Some("false".into()), &Some("false".into())).is_ok());
    assert!(matches!(
        check_subset(&diffs, &paths, &attrs, &None, &Some("true".into())),
        Err(Error::Usage { text: "暂不支持 sparse checkout" })
    ));
}

#[test]
fn tree_listing_rows_parse() {
    let listing = b"100644 blob 1111\tsrc/a.rs\0100755 blob 2222\tbin/run\0";
    let entries = parse_tree_listing(listing).unwrap();
    assert_eq!(entries.len(), 2);
    assert_eq!(entries[0].0, "src/a.rs");
    assert_eq!(entries[0].1.mode, "100644");
    assert_eq!(entries[1].1.oid, "2222");
    assert_eq!(blob_oid(&entries, "bin/run"), Some(("100755".to_string(), "2222".to_string())));
    assert_eq!(blob_oid(&entries, "none"), None);
    assert!(matches!(parse_tree_listing(b"100644 blob 1111 a\0"), Err(Error::Usage { text: "无效的 ls-tree 输出" })));
    assert!(matches!(parse_tree_listing(b"100644 1111\ta\0"), Err(Error::Usage { text: "无效的 ls-tree 元数据" })));
    assert!(matches!(parse_tree_listing(b"100644 blob 1\t\xff\0"), Err(Error::Usage { text: "初版不支持非 UTF-8 路径" })));
    assert!(matches!(check_mode(&"l".to_string(), &"120000".to_string()), Err(Error::UnsupportedMode { path }) if path == "l"));
}

#[test]
fn sizes_parse_like_usize() {
    assert_eq!(parse_size("42").unwrap(), 42);
    assert_eq!(parse_size("+7").unwrap(), 7);
    assert!(matches!(parse_size(""), Err(Error::ParseInt { reason: "cannot parse integer from empty string" })));
    assert!(matches!(parse_size("4x"), Err(Error::ParseInt { reason: "invalid digit found in string" })));
    assert!(matches!(parse_size("+"), Err(Error::ParseInt { reason: "invalid digit found in string" })));
    assert!(matches!(
        parse_size("99999999999999999999999"),
        Err(Error::ParseInt { reason: "number too large to fit in target type" })
    ));
    assert_eq!(admit_size(&"f".to_string(), "10\n", 5).unwrap(), 15);
    assert!(matches!(admit_size(&"f".to_string(), "1000001", 0), Err(Error::SnapshotTooLarge { .. })));
}

#[test]
fn conflict_stages_replace_stage_zero() {
    let entries = [Some(("100644".to_string(), "b".to_string())), None, Some(("100755".to_string(), "t".to_string()))];
    assert_eq!(stage_records("p", 3, &entries), "0 000\tp\0100644 b 1\tp\0100755 t 3\tp\0");
}

#[test]
fn merge_decisions() {
    let r = |a: &str, b: &str, c: &str| [a.to_string(), b.to_string(), c.to_string()];
    assert_eq!(merge_route(OperationKind::Merge, &r("b", "o", "b")), RunRoute::Done);
    assert_eq!(merge_route(OperationKind::Merge, &r("b", "b", "t")), RunRoute::FastForward);
    assert_eq!(merge_route(OperationKind::CherryPick, &r("b", "b", "t")), RunRoute::Apply);
    assert_eq!(cherry_pick_base("c p").unwrap(), "p");
    assert!(cherry_pick_base("c p q").is_err());
    assert_eq!(unique_base("abc").unwrap(), "abc");
    assert!(unique_base("a\nb").is_err());
    assert_eq!(OperationKind::CherryPick.name(), "cherry-pick");
}

#[test]
fn rebase_state_machine() {
    let commits = vec!["c1".to_string(), "c2".to_string()];
    let mut s = new_state("/r".into(), "refs/heads/main".into(), "orig".into(), "up".into(), commits, Options::default());
    assert!(check_state(&s, "/r").is_ok());
    assert!(check_state(&s, "/other").is_err());
    assert!(matches!(next_step(&s), Ok(Step::Start)));
    assert!(validate_context(&s, "orig", Some("refs/heads/main"), "orig").is_ok());
    assert!(validate_context(&s, "up", Some("refs/heads/main"), "orig").is_err());
    s.phase = Phase::Ready;
    assert!(matches!(next_step(&s), Ok(Step::ApplyNext)));
    assert!(validate_context(&s, "up", None, "orig").is_ok());
    mark_applying(&mut s);
    assert!(matches!(next_step(&s), Err(Error::Usage { .. })));
    mark_applied(&mut s);
    mark_committing(&mut s, "n1".into());
    assert!(matches!(next_step(&s), Ok(Step::CompleteCommit(c)) if c == "n1"));
    mark_committed(&mut s, "n1".into());
    assert_eq!(s.next, 1);
    assert_eq!(s.head, "n1");
    assert!(check_state(&s, "/r").is_ok());
    assert_eq!(rebase_route("b", "b", "o"), Route::UpToDate);
    assert_eq!(rebase_route("b", "u", "b"), Route::FastForward);
    assert_eq!(rebase_route("b", "u", "o"), Route::Replay);
}

#[test]
fn git_operations_block_except_the_allowed_pick() {
    let mut present = [false; 6];
    assert!(check_no_git_operation(&present, None, None).is_ok());
    present[1] = true;
    assert!(check_no_git_operation(&present, Some("c1"), Some("c1")).is_ok());
    assert!(matches!(
        check_no_git_operation(&present, Some("c1"), Some("c2")),
        Err(Error::GitOperation { name: "CHERRY_PICK_HEAD" })
    ));
    present[0] = true;
    assert!(matches!(check_no_git_operation(&present, Some("c1"), Some("c1")), Err(Error::GitOperation { name: "MERGE_HEAD" })));
}

#[test]
fn a_rebase_preview_stops_at_the_first_conflict() {
    let clean = preview_step(false, 0, "t1".to_string());
    assert!(!clean.conflicted);
    assert_eq!(clean.result_tree.as_deref(), Some("t1"));
    let native = preview_step(true, 0, "t2".to_string());
    assert!(native.conflicted && native.result_tree.is_none());
    let strict = preview_step(false, 2, "t3".to_string());
    assert!(strict.conflicted && strict.result_tree.is_none());
    let commits = vec!["c1".to_string(), "c2".to_string(), "c3".to_string()];
    assert_eq!(preview_pending(&commits, 2), vec!["c3".to_string()]);
    assert!(preview_pending(&commits, 3).is_empty());
    assert_eq!(preview_pending(&commits, 0), commits);
}
