use persisted_scope::codec::{decode_snapshot, encode_snapshot};
use persisted_scope::engine::{
    classify, handle_event, rehydration_commands, setup_plan, state_path, HostCommand,
    PathMetadata, ScopeEvent,
};
use persisted_scope::model::{lookup, ScopeEntry, ScopeSnapshot, TargetType};

fn entry(path: &str, target_type: TargetType) -> ScopeEntry {
    ScopeEntry { path: String::from(path), target_type }
}

#[test]
fn classify_follows_host_metadata() {
    assert_eq!(classify(PathMetadata { is_dir: false, recursive: false }), TargetType::File);
    assert_eq!(classify(PathMetadata { is_dir: false, recursive: true }), TargetType::File);
    assert_eq!(classify(PathMetadata { is_dir: true, recursive: false }), TargetType::Directory);
    assert_eq!(
        classify(PathMetadata { is_dir: true, recursive: true }),
        TargetType::RecursiveDirectory
    );
}

#[test]
fn allowed_directory_event_is_persisted_and_read_back() {
    // Empty initial state; the host reports a recursive directory grant.
    let mut snap = ScopeSnapshot::new();
    let event = ScopeEvent::PathAllowed(String::from("/home/u/docs"));
    let bytes = handle_event(
        &mut snap,
        &event,
        Some(PathMetadata { is_dir: true, recursive: true }),
    )
    .expect("an insertion must be persisted");
    assert_eq!(snap.allowed.len(), 1);
    assert_eq!(
        lookup(&snap.allowed, &String::from("/home/u/docs")),
        Some(TargetType::RecursiveDirectory)
    );
    assert_eq!(snap.forbidden.len(), 0);
    // The bytes handed back for the disk decode to the same snapshot.
    let back = decode_snapshot(&bytes).unwrap();
    assert_eq!(back.allowed.len(), 1);
    assert_eq!(
        lookup(&back.allowed, &String::from("/home/u/docs")),
        Some(TargetType::RecursiveDirectory)
    );
    assert_eq!(back.forbidden.len(), 0);
}

#[test]
fn event_without_host_record_is_a_no_op() {
    // The host has already dropped the path: nothing changes, nothing is
    // written.
    let mut snap = ScopeSnapshot::new();
    let event = ScopeEvent::PathForbidden(String::from("/home/u/secret.txt"));
    let r = handle_event(&mut snap, &event, None);
    assert!(r.is_none());
    assert_eq!(snap.allowed.len(), 0);
    assert_eq!(snap.forbidden.len(), 0);
}

#[test]
fn same_event_twice_keeps_one_entry() {
    let mut snap = ScopeSnapshot::new();
    let event = ScopeEvent::PathAllowed(String::from("/home/u/notes.txt"));
    let meta = Some(PathMetadata { is_dir: false, recursive: false });
    handle_event(&mut snap, &event, meta).unwrap();
    handle_event(&mut snap, &event, meta).unwrap();
    assert_eq!(snap.allowed.len(), 1);
    assert_eq!(lookup(&snap.allowed, &String::from("/home/u/notes.txt")), Some(TargetType::File));
}

#[test]
fn second_classification_wins() {
    // The same path is allowed twice; the host's metadata changed in
    // between, so the later classification replaces the earlier one.
    let mut snap = ScopeSnapshot::new();
    let event = ScopeEvent::PathAllowed(String::from("/a"));
    handle_event(&mut snap, &event, Some(PathMetadata { is_dir: false, recursive: false }))
        .unwrap();
    handle_event(&mut snap, &event, Some(PathMetadata { is_dir: true, recursive: false }))
        .unwrap();
    assert_eq!(snap.allowed.len(), 1);
    assert_eq!(lookup(&snap.allowed, &String::from("/a")), Some(TargetType::Directory));
}

#[test]
fn forbidden_event_goes_to_the_forbidden_set() {
    let mut snap = ScopeSnapshot::new();
    let event = ScopeEvent::PathForbidden(String::from("/var/log"));
    handle_event(&mut snap, &event, Some(PathMetadata { is_dir: true, recursive: false }))
        .unwrap();
    assert_eq!(snap.allowed.len(), 0);
    assert_eq!(lookup(&snap.forbidden, &String::from("/var/log")), Some(TargetType::Directory));
}

#[test]
fn setup_without_data_dir_is_inert() {
    let plan = setup_plan(None, None);
    assert!(plan.state_path.is_none());
    assert!(plan.commands.is_empty());
    assert_eq!(plan.snapshot.allowed.len(), 0);
    assert_eq!(plan.snapshot.forbidden.len(), 0);
}

#[test]
fn setup_without_stored_file_starts_empty_and_self_protects() {
    let dir = String::from("/data/app");
    let plan = setup_plan(Some(&dir), None);
    assert_eq!(plan.state_path.as_deref(), Some("/data/app/.persisted-scope"));
    assert_eq!(plan.snapshot.allowed.len(), 0);
    assert_eq!(plan.snapshot.forbidden.len(), 0);
    assert_eq!(plan.commands.len(), 1);
    match &plan.commands[0] {
        HostCommand::ForbidFile(p) => assert_eq!(p, "/data/app/.persisted-scope"),
        c => panic!("setup must start by forbidding its own file, got {:?}", c),
    }
}

#[test]
fn setup_with_corrupt_file_falls_back_to_empty() {
    let dir = String::from("/data/app");
    let garbage = vec![0xde, 0xad, 0xbe, 0xef, 0x00];
    let plan = setup_plan(Some(&dir), Some(&garbage));
    assert!(plan.state_path.is_some());
    assert_eq!(plan.snapshot.allowed.len(), 0);
    assert_eq!(plan.snapshot.forbidden.len(), 0);
    assert_eq!(plan.commands.len(), 1);
    assert!(matches!(plan.commands[0], HostCommand::ForbidFile(_)));
}

#[test]
fn setup_replays_stored_entries() {
    let dir = String::from("/data/app");
    let stored = ScopeSnapshot {
        allowed: vec![
            entry("/home/u/docs", TargetType::RecursiveDirectory),
            entry("/home/u/a.txt", TargetType::File),
        ],
        forbidden: vec![entry("/home/u/private", TargetType::Directory)],
    };
    let bytes = encode_snapshot(&stored);
    let plan = setup_plan(Some(&dir), Some(&bytes));
    assert_eq!(plan.snapshot.allowed.len(), 2);
    assert_eq!(plan.snapshot.forbidden.len(), 1);
    assert_eq!(plan.commands.len(), 4);
    assert!(matches!(&plan.commands[0], HostCommand::ForbidFile(p) if p == "/data/app/.persisted-scope"));
    assert!(matches!(&plan.commands[1], HostCommand::AllowDirectory(p, true) if p == "/home/u/docs"));
    assert!(matches!(&plan.commands[2], HostCommand::AllowFile(p) if p == "/home/u/a.txt"));
    assert!(matches!(&plan.commands[3], HostCommand::ForbidDirectory(p, false) if p == "/home/u/private"));
}

#[test]
fn setup_strips_its_own_state_file_from_the_snapshot() {
    // A stored snapshot that tries to grant access to the state file
    // itself: after setup the snapshot must not track that path in
    // either set, and nothing replays it.
    let dir = String::from("/data/app");
    let own = state_path(&dir);
    let stored = ScopeSnapshot {
        allowed: vec![entry(&own, TargetType::File), entry("/ok", TargetType::File)],
        forbidden: vec![entry(&own, TargetType::RecursiveDirectory)],
    };
    let bytes = encode_snapshot(&stored);
    let plan = setup_plan(Some(&dir), Some(&bytes));
    assert_eq!(lookup(&plan.snapshot.allowed, &own), None);
    assert_eq!(lookup(&plan.snapshot.forbidden, &own), None);
    assert_eq!(lookup(&plan.snapshot.allowed, &String::from("/ok")), Some(TargetType::File));
    assert_eq!(plan.snapshot.allowed.len(), 1);
    assert_eq!(plan.snapshot.forbidden.len(), 0);
    // The only command naming the state file is the self-protection one.
    assert_eq!(plan.commands.len(), 2);
    assert!(matches!(&plan.commands[0], HostCommand::ForbidFile(p) if *p == own));
    assert!(matches!(&plan.commands[1], HostCommand::AllowFile(p) if p == "/ok"));
}

/// A scope-manager double that rejects one chosen path and records every
/// path it was asked about.
struct FlakyScope {
    rejected: String,
    applied: std::cell::RefCell<Vec<String>>,
}

impl FlakyScope {
    fn apply(&self, command: &HostCommand) -> Result<(), ()> {
        let path = match command {
            HostCommand::AllowFile(p) => p,
            HostCommand::AllowDirectory(p, _) => p,
            HostCommand::ForbidFile(p) => p,
            HostCommand::ForbidDirectory(p, _) => p,
        };
        if *path == self.rejected {
            return Err(());
        }
        self.applied.borrow_mut().push(path.clone());
        Ok(())
    }
}

#[test]
fn replay_continues_past_a_rejected_entry() {
    // Five stored entries; the host rejects one of the allowed ones. The
    // other four, the forbidden ones included, are still replayed.
    let stored = ScopeSnapshot {
        allowed: vec![
            entry("/a", TargetType::File),
            entry("/bad", TargetType::Directory),
            entry("/c", TargetType::RecursiveDirectory),
        ],
        forbidden: vec![entry("/d", TargetType::File), entry("/e", TargetType::Directory)],
    };
    let commands = rehydration_commands(&stored);
    assert_eq!(commands.len(), 5);
    let scope = FlakyScope {
        rejected: String::from("/bad"),
        applied: std::cell::RefCell::new(Vec::new()),
    };
    let mut failures = 0;
    for command in &commands {
        // Best-effort, as the shell issues them: a failure is noted and
        // the loop goes on.
        if scope.apply(command).is_err() {
            failures += 1;
        }
    }
    assert_eq!(failures, 1);
    assert_eq!(*scope.applied.borrow(), vec!["/a", "/c", "/d", "/e"]);
}
