use nephelios::manifest::{ManifestDocument, ManifestError};
use nephelios::metadata::AppMetadata;

fn meta(name: &str) -> AppMetadata {
    AppMetadata {
        app_name: name.to_string(),
        app_type: "nodejs".to_string(),
        github_url: "https://github.com/user/repo".to_string(),
        domain: format!("{}.localhost", name),
        created_at: "2024-01-01T00:00:00+00:00".to_string(),
    }
}

fn count_headers(doc: &str, name: &str) -> usize {
    let header = format!("  {}:", name);
    doc.lines().filter(|l| *l == header.as_str()).count()
}

#[test]
fn add_then_exists() {
    let mut doc = ManifestDocument::new();
    assert!(!doc.exists_app("demo"));
    doc.add(&meta("demo"), "3000", 1).unwrap();
    assert!(doc.exists_app("demo"));
}

#[test]
fn remove_then_absent() {
    let mut doc = ManifestDocument::new();
    doc.add(&meta("demo"), "3000", 1).unwrap();
    doc.remove("demo").unwrap();
    assert!(!doc.exists_app("demo"));
    assert_eq!(doc.remove("demo"), Err(ManifestError::NotFound));
}

#[test]
fn double_add_rejected_and_document_unchanged() {
    let mut doc = ManifestDocument::new();
    doc.add(&meta("demo"), "3000", 1).unwrap();
    let before = doc.text().clone();
    assert_eq!(doc.add(&meta("demo"), "3000", 1), Err(ManifestError::AlreadyExists));
    assert_eq!(doc.text(), &before);
    assert_eq!(count_headers(doc.text(), "demo"), 1);
}

#[test]
fn exact_key_matching_not_substring() {
    let mut doc = ManifestDocument::new();
    doc.add(&meta("app2"), "3000", 1).unwrap();
    assert!(doc.exists_app("app2"));
    // A raw substring search would spuriously report `app` as deployed.
    assert!(!doc.exists_app("app"));
}

#[test]
fn remove_leaves_other_block_byte_identical() {
    let mut doc = ManifestDocument::new();
    doc.add(&meta("n"), "3000", 1).unwrap();
    doc.add(&meta("n2"), "3000", 2).unwrap();
    let with_both = doc.text().clone();
    // The textual extent of n2's block, header plus nested lines.
    let n2_start = with_both.find("  n2:\n").unwrap();
    let n2_block = &with_both[n2_start..];
    doc.remove("n").unwrap();
    assert!(!doc.exists_app("n"));
    assert!(doc.exists_app("n2"));
    assert!(doc.text().ends_with(n2_block));
    // Every line of n's multi-line block is gone, including nested fields.
    assert_eq!(count_headers(doc.text(), "n"), 0);
    assert!(!doc.text().contains("Host(`n.localhost`)"));
    assert!(doc.text().contains("Host(`n2.localhost`)"));
}

#[test]
fn remove_preserves_boilerplate_lines() {
    let mut doc = ManifestDocument::from_text(
        "version: \"3\"\nservices:\n".to_string(),
    );
    doc.add(&meta("demo"), "3000", 1).unwrap();
    doc.remove("demo").unwrap();
    assert!(doc.text().starts_with("version: \"3\"\nservices:\n"));
}

#[test]
fn set_replicas_changes_only_the_count() {
    let mut doc = ManifestDocument::new();
    doc.add(&meta("n"), "3000", 1).unwrap();
    doc.add(&meta("n2"), "3000", 1).unwrap();
    let before = doc.text().clone();
    doc.set_replicas("n", 3).unwrap();
    let after = doc.text().clone();
    assert!(after.contains("        replicas: 3\n"));
    // Exactly one region changed: the digit run of n's replicas field.
    let expected = before.replacen("        replicas: 1\n", "        replicas: 3\n", 1);
    assert_eq!(after, expected);
    // n2's block still declares one replica.
    let n2_start = after.find("  n2:\n").unwrap();
    assert!(after[n2_start..].contains("        replicas: 1\n"));
}

#[test]
fn set_replicas_absent_name_fails() {
    let mut doc = ManifestDocument::new();
    doc.add(&meta("demo"), "3000", 1).unwrap();
    let before = doc.text().clone();
    assert_eq!(doc.set_replicas("ghost", 3), Err(ManifestError::NotFound));
    assert_eq!(doc.text(), &before);
}

#[test]
fn set_replicas_without_field_fails() {
    let mut doc = ManifestDocument::from_text("  bare:\n    image: x\n".to_string());
    assert_eq!(doc.set_replicas("bare", 2), Err(ManifestError::NotFound));
}

#[test]
fn add_round_trip_reparses_to_derived_labels() {
    let m = meta("demo");
    let mut doc = ManifestDocument::new();
    doc.add(&m, "3000", 1).unwrap();
    let text = doc.text().clone();
    let labels = m.to_labels();
    for (key, value) in &labels {
        let line = format!("          - \"{}={}\"\n", key, value);
        assert!(text.contains(&line), "missing label line {:?}", line);
    }
    // Read back the block and reparse its fields.
    let start = text.find("  demo:\n").unwrap();
    let block = &text[start..];
    let domain_of = |key: &str| -> String {
        let tag = format!("- \"{}=", key);
        let at = block.find(&tag).unwrap() + tag.len();
        block[at..].split('"').next().unwrap().to_string()
    };
    assert_eq!(domain_of("com.myapp.domain"), "demo.localhost");
    assert_eq!(domain_of("com.myapp.name"), "demo");
    assert_eq!(domain_of("com.myapp.type"), "nodejs");
    assert_eq!(domain_of("com.myapp.github_url"), "https://github.com/user/repo");
    assert_eq!(domain_of("com.myapp.created_at"), "2024-01-01T00:00:00+00:00");
    // The store's own read-back agrees with the derived labels.
    for (key, value) in &labels {
        assert_eq!(doc.label_value("demo", key).as_deref(), Some(value.as_str()));
    }
}

#[test]
fn label_read_back_picks_the_named_block() {
    let mut doc = ManifestDocument::new();
    doc.add(&meta("n"), "3000", 1).unwrap();
    let mut other = meta("n2");
    other.github_url = "https://github.com/user/other".to_string();
    doc.add(&other, "3000", 1).unwrap();
    assert_eq!(
        doc.label_value("n", "com.myapp.github_url").as_deref(),
        Some("https://github.com/user/repo")
    );
    assert_eq!(
        doc.label_value("n2", "com.myapp.github_url").as_deref(),
        Some("https://github.com/user/other")
    );
    assert_eq!(doc.label_value("n2", "com.myapp.domain").as_deref(), Some("n2.localhost"));
    assert_eq!(doc.label_value("ghost", "com.myapp.domain"), None);
    assert_eq!(doc.label_value("n", "com.myapp.absent"), None);
}

#[test]
fn serialized_adds_both_succeed_exactly_once() {
    // The store serializes mutation; two adds for distinct names, in
    // either order, both land and each block appears exactly once.
    let mut doc = ManifestDocument::new();
    doc.add(&meta("a"), "3000", 1).unwrap();
    doc.add(&meta("b"), "3000", 1).unwrap();
    assert!(doc.exists_app("a"));
    assert!(doc.exists_app("b"));
    assert_eq!(count_headers(doc.text(), "a"), 1);
    assert_eq!(count_headers(doc.text(), "b"), 1);
}

#[test]
fn add_inserts_separator_when_document_lacks_final_newline() {
    let mut doc = ManifestDocument::from_text("services:".to_string());
    doc.add(&meta("demo"), "3000", 1).unwrap();
    assert!(doc.text().starts_with("services:\n  demo:\n"));
    assert!(doc.exists_app("demo"));
}

#[test]
fn replicas_value_rendered_in_decimal() {
    let mut doc = ManifestDocument::new();
    doc.add(&meta("demo"), "3000", 12).unwrap();
    assert!(doc.text().contains("        replicas: 12\n"));
    doc.set_replicas("demo", 205).unwrap();
    assert!(doc.text().contains("        replicas: 205\n"));
    assert!(!doc.text().contains("replicas: 12"));
}
