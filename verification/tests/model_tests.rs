use persisted_scope::model::{lookup, ScopeEntry, ScopeSnapshot, TargetType};

fn entry(path: &str, target_type: TargetType) -> ScopeEntry {
    ScopeEntry { path: String::from(path), target_type }
}

#[test]
fn default_classification_is_file() {
    assert_eq!(TargetType::default(), TargetType::File);
}

#[test]
fn default_snapshot_is_empty() {
    let snap = ScopeSnapshot::default();
    assert!(snap.allowed.is_empty());
    assert!(snap.forbidden.is_empty());
}

#[test]
fn entry_equality_is_over_both_fields() {
    assert_eq!(entry("/a", TargetType::File), entry("/a", TargetType::File));
    // The same path with another classification is a distinct entry.
    assert_ne!(entry("/a", TargetType::File), entry("/a", TargetType::Directory));
    assert_ne!(entry("/a", TargetType::File), entry("/b", TargetType::File));
    // Paths are compared exactly as strings, with no normalization.
    assert_ne!(entry("/a/", TargetType::File), entry("/a", TargetType::File));
}

#[test]
fn lookup_misses_on_an_empty_list() {
    let snap = ScopeSnapshot::new();
    assert_eq!(lookup(&snap.allowed, &String::from("/a")), None);
}

#[test]
fn well_formedness_check_rejects_duplicate_paths() {
    let good = ScopeSnapshot {
        allowed: vec![entry("/a", TargetType::File), entry("/b", TargetType::File)],
        forbidden: vec![entry("/a", TargetType::Directory)],
    };
    assert!(good.check_wf());
    let bad = ScopeSnapshot {
        allowed: vec![entry("/a", TargetType::File), entry("/a", TargetType::Directory)],
        forbidden: vec![],
    };
    assert!(!bad.check_wf());
}
