use strict_weave::analysis::upstream::{strict_classification, Action};
use strict_weave::analysis::local::prepare;
use strict_weave::analysis::moves::{entities, find_candidates, normalized, ParsedFile};
use strict_weave::analysis::partition::{partition, partition_parsed, EntitySpan};
use strict_weave::analysis::syntax::normalized_syntax;
use strict_weave::merge::ConflictStyle;
use strict_weave::reason::{MoveMatch, Opposite, Side};

const TWO: &str = "fn a() {\n    1\n}\n\nfn b() {\n    2\n}\n";

#[test]
fn rust_functions_are_partitioned_in_order() {
    let parts = partition("lib.rs", TWO).expect("a Rust file partitions");
    let names: Vec<&str> = parts.iter().filter(|p| p.entity).map(|p| p.name.as_str()).collect();
    assert_eq!(names, vec!["a", "b"]);
    let joined: String = parts.iter().map(|p| p.text.as_str()).collect();
    assert_eq!(joined, TWO);
}

#[test]
fn names_are_normalized_at_word_boundaries() {
    let r = normalized(&"fn foo() { foo(); food() }".to_string(), &"foo".to_string()).unwrap();
    assert_eq!(r.0, "fn __ENTITY__() { __ENTITY__(); food() }");
    assert_eq!(r.1, 2);
    assert!(normalized(&"x".to_string(), &"".to_string()).is_none());
}

#[test]
fn syntax_keys_ignore_whitespace_between_tokens() {
    let a = normalized_syntax("a.rs", "fn f() { 1 }").expect("parses");
    let b = normalized_syntax("a.rs", "fn f() {\n    1\n}").expect("parses");
    assert_eq!(a.token_count(), b.token_count());
    assert!(a.token_count() > 0);
}

#[test]
fn a_function_moved_on_one_side_is_a_candidate() {
    let moved = "fn keep() {\n    0\n}\n";
    let f = "fn f() {\n    1\n}\n";
    let base_a = format!("{moved}\n{f}");
    let parsed = |path: &str, text: &str| {
        let parts = partition(path, text).expect("partitions");
        Some(entities(path, text, &parts))
    };
    let files = vec![
        ParsedFile {
            path: "a.rs".into(),
            base: parsed("a.rs", &base_a),
            ours: parsed("a.rs", moved),
            theirs: parsed("a.rs", &base_a),
        },
        ParsedFile {
            path: "b.rs".into(),
            base: Some(Vec::new()),
            ours: parsed("b.rs", f),
            theirs: Some(Vec::new()),
        },
    ];
    let candidates = find_candidates(&files).unwrap();
    assert_eq!(candidates.len(), 1);
    let c = &candidates[0];
    assert_eq!(c.side, Side::Ours);
    assert_eq!(c.base.path, "a.rs");
    assert_eq!(c.target.path, "b.rs");
    assert_eq!(c.opposite, Opposite::Unchanged);
    assert!(matches!(c.matched_by, MoveMatch::Exact));
}

#[test]
fn both_sides_changing_one_function_need_review() {
    let ours = TWO.replace("1", "10");
    let theirs = TWO.replace("1", "11");
    let prepared = prepare(TWO, &ours, &theirs, "lib.rs", 7, ConflictStyle::Diff3).unwrap();
    assert!(prepared.partitions.0.is_some());
    assert!(!prepared.reasons.is_empty());
}

fn span(name: &str, start: usize, end: usize) -> EntitySpan {
    EntitySpan { name: name.to_string(), entity_type: "function".to_string(), start_line: start, end_line: end }
}

#[test]
fn a_given_parse_decides_the_partition() {
    let spans = vec![span("b", 5, 7), span("a", 1, 3)];
    let parts = partition_parsed(TWO, Some((spans, Some(false)))).expect("partitions");
    let names: Vec<&str> = parts.iter().filter(|p| p.entity).map(|p| p.name.as_str()).collect();
    assert_eq!(names, vec!["a", "b"]);
    let joined: String = parts.iter().map(|p| p.text.as_str()).collect();
    assert_eq!(joined, TWO);
    // No grammar, a parse error, or a text with content but no entity: no partition.
    assert!(partition_parsed(TWO, None).is_none());
    assert!(partition_parsed(TWO, Some((vec![span("a", 1, 3)], Some(true)))).is_none());
    assert!(partition_parsed(TWO, Some((Vec::new(), Some(false)))).is_none());
    // Partly overlapping entities are refused.
    assert!(partition_parsed(TWO, Some((vec![span("a", 1, 5), span("b", 3, 7)], Some(false)))).is_none());
    // An entity that starts past the text's last line is refused.
    assert!(partition_parsed("a\n", Some((vec![span("x", 10, 12)], Some(false)))).is_none());
    // White space alone needs no entity.
    assert!(partition_parsed("\n\n", Some((Vec::new(), None))).is_some());
}

#[test]
fn weave_classifies_only_where_both_sides_changed_reliable_partitions() {
    let base = "fn a() {\n    1\n}\n\nfn b() {\n    2\n}\n";
    let ours = "fn a() {\n    10\n}\n\nfn b() {\n    2\n}\n";
    let theirs = "fn a() {\n    1\n}\n\nfn b() {\n    20\n}\n";
    let parts = (partition("lib.rs", base), partition("lib.rs", ours), partition("lib.rs", theirs));
    let classified = strict_classification(base, ours, theirs, "lib.rs", &parts).expect("weave analyses a Rust file");
    let a = classified.iter().find(|c| c.label == "a").expect("a is classified");
    assert!(matches!((&a.ours, &a.theirs), (Action::Edited, Action::Unchanged)));
    let b = classified.iter().find(|c| c.label == "b").expect("b is classified");
    assert!(matches!((&b.ours, &b.theirs), (Action::Unchanged, Action::Edited)));
    // One side unchanged, or an unreliable partition: weave is not asked.
    assert!(strict_classification(base, base, theirs, "lib.rs", &parts).is_none());
    let unreliable = (None, parts.1, parts.2);
    assert!(strict_classification(base, ours, theirs, "lib.rs", &unreliable).is_none());
}
