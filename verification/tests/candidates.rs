use strict_weave::analysis::moves::check_bucket_limit;

#[test]
fn candidate_limit_is_shared_and_never_silently_truncates() {
    assert!(check_bucket_limit(100, 100, 0).is_ok());
    assert!(check_bucket_limit(100, 100, 1).is_err());
    assert!(check_bucket_limit(101, 100, 0).is_err());
    assert!(check_bucket_limit(usize::MAX, 2, 0).is_err());
}

use strict_weave::analysis::moves::{find_candidates, Entity, ParsedFile};
use strict_weave::analysis::syntax::{Atom, Syntax};
use strict_weave::error::Error;
use strict_weave::reason::Location;

fn bucket_entity(path: &str, key: &str, name: &str, grammar: &str, normalized: &str, syntax: Option<&[u8]>) -> Entity {
    Entity {
        key: key.to_string(),
        name: name.to_string(),
        entity_type: "function".to_string(),
        grammar: Some(grammar.to_string()),
        location: Location { path: path.to_string(), entity: format!("function {name}"), line: 1 },
        text: format!("fn {name}() {{}}"),
        normalized: Some((normalized.to_string(), 1)),
        syntax: syntax.map(|b| Syntax { atoms: vec![Atom::Text(b.to_vec())] }),
    }
}

/// One renamed pair matched by syntax in grammar `a`, then a text bucket of
/// grammar `b` with 100 by 100 same-name pairs (none of them candidates).
fn walk_order_files(renamed: &str) -> Vec<ParsedFile> {
    let mut deleted = vec![bucket_entity("f1.rs", "k0", "old", "a", "X", Some(b"s"))];
    let mut added = vec![bucket_entity("f2.rs", "n0", renamed, "a", "Y", Some(b"s"))];
    for i in 1..=100 {
        deleted.push(bucket_entity("f1.rs", &format!("k{i}"), "same", "b", "T", None));
        added.push(bucket_entity("f2.rs", &format!("n{i}"), "same", "b", "T", None));
    }
    vec![
        ParsedFile { path: "f1.rs".to_string(), base: Some(deleted), ours: Some(Vec::new()), theirs: None },
        ParsedFile { path: "f2.rs".to_string(), base: Some(Vec::new()), ours: Some(added), theirs: None },
    ]
}

#[test]
fn syntax_bucket_of_an_earlier_grammar_counts_before_a_later_text_bucket() {
    // Grammar `a` comes first: its syntax pair is counted, so the full
    // 100 x 100 text bucket of grammar `b` no longer fits.
    assert!(matches!(find_candidates(&walk_order_files("new")), Err(Error::TooManyCandidates)));
    // Without that pair (same name), the bucket fits exactly and nothing is a candidate.
    let ok = find_candidates(&walk_order_files("old")).unwrap();
    assert!(ok.is_empty());
}

#[test]
fn exact_bucket_over_the_limit_is_refused() {
    let mut deleted = Vec::new();
    let mut added = Vec::new();
    for i in 0..101 {
        let mut e = bucket_entity(&format!("d{i}.rs"), "same", "f", "g", "N", None);
        e.text = "fn f() {}".to_string();
        deleted.push(ParsedFile { path: format!("d{i}.rs"), base: Some(vec![e]), ours: Some(Vec::new()), theirs: None });
    }
    for i in 0..100 {
        let mut e = bucket_entity(&format!("a{i}.rs"), "same", "f", "g", "N", None);
        e.text = "fn f() {}".to_string();
        added.push(ParsedFile { path: format!("a{i}.rs"), base: Some(Vec::new()), ours: Some(vec![e]), theirs: None });
    }
    let mut files = deleted;
    files.extend(added);
    assert!(matches!(find_candidates(&files), Err(Error::TooManyCandidates)));
}
