use strict_weave::analysis::partition::{local_subject, Part};

fn part(kind: &str, name: &str) -> Part {
    Part {
        key: format!("{kind}:{name}"),
        name: name.into(),
        entity_type: kind.into(),
        label: format!("{kind} {name}"),
        text: String::new(),
        entity: true,
    }
}

#[test]
fn partition_public_name_cannot_bind_ambiguous_types_or_unreliable_versions() {
    let parts = (
        Some(vec![part("function", "f"), part("interface", "f")]),
        Some(vec![part("function", "f")]),
        Some(vec![part("interface", "f")]),
    );
    assert!(local_subject(&parts, "f", None).is_none());
    assert_eq!(
        local_subject(&parts, "f", Some("function")),
        Some(part("function", "f").subject())
    );
    let parts = (
        Some(vec![part("function", "f")]),
        None,
        Some(vec![part("function", "f")]),
    );
    assert!(local_subject(&parts, "f", Some("function")).is_none());
}

#[test]
fn partition_type_changes_are_not_merged_but_confirmed_modify_delete_can_share_parent() {
    let parts = (
        Some(vec![part("function", "f")]),
        Some(vec![part("class", "f")]),
        Some(vec![part("function", "f")]),
    );
    assert!(local_subject(&parts, "f", None).is_none());
    let parts = (
        Some(vec![part("function", "f")]),
        Some(vec![]),
        Some(vec![part("function", "f")]),
    );
    assert_eq!(
        local_subject(&parts, "f", None),
        Some(part("function", "f").subject())
    );
}

#[test]
fn merge_public_name_cannot_bind_ambiguous_types_or_unreliable_versions() {
    let parts = (
        Some(vec![part("function", "f"), part("interface", "f")]),
        Some(vec![part("function", "f")]),
        Some(vec![part("interface", "f")]),
    );
    assert!(local_subject(&parts, "f", None).is_none());
    assert_eq!(
        local_subject(&parts, "f", Some("function")),
        Some(part("function", "f").subject())
    );
    let parts = (
        Some(vec![part("function", "f")]),
        None,
        Some(vec![part("function", "f")]),
    );
    assert!(local_subject(&parts, "f", Some("function")).is_none());
}

#[test]
fn merge_type_changes_are_not_merged_but_confirmed_modify_delete_can_share_parent() {
    let parts = (
        Some(vec![part("function", "f")]),
        Some(vec![part("class", "f")]),
        Some(vec![part("function", "f")]),
    );
    assert!(local_subject(&parts, "f", None).is_none());
    let parts = (
        Some(vec![part("function", "f")]),
        Some(vec![]),
        Some(vec![part("function", "f")]),
    );
    assert_eq!(
        local_subject(&parts, "f", None),
        Some(part("function", "f").subject())
    );
}
