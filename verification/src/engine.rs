//! Setup and event handling for the scope persistence engine.
//!
//! The engine itself is purely reactive and performs no I/O: setup turns
//! the stored bytes (if any) into a sanitized snapshot and into the exact
//! sequence of host commands that restores it, and each scope-change
//! event turns into an in-place snapshot update plus the bytes to
//! persist. The unverified shell around the library resolves the data
//! directory, reads and writes the file, holds the lock, and issues each
//! host command best-effort.

use vstd::prelude::*;

verus! {

use vstd::string::StringExecFns;
use crate::codec::{decode_snapshot, encode_snapshot, spec_decode_snapshot, spec_encode_snapshot};
use crate::model::{ScopeEntry, ScopeSnapshot, TargetType, abs_entries, abs_map, entries_map,
    lemma_entries_map_abs, remove_path, upsert};

/// What the host reports about a path's current live grant: whether the
/// path is a directory and, if so, whether the grant is recursive.
#[derive(Clone, Copy, Debug, PartialEq, Eq, Structural)]
pub struct PathMetadata {
    pub is_dir: bool,
    pub recursive: bool,
}

/// The classification the host metadata dictates.
pub open spec fn spec_classify(m: PathMetadata) -> TargetType {
    if m.is_dir {
        if m.recursive {
            TargetType::RecursiveDirectory
        } else {
            TargetType::Directory
        }
    } else {
        TargetType::File
    }
}

/// Classifies a path from the host's live metadata for it.
pub fn classify(m: PathMetadata) -> (t: TargetType)
    ensures
        t == spec_classify(m),
{
    if m.is_dir {
        if m.recursive {
            TargetType::RecursiveDirectory
        } else {
            TargetType::Directory
        }
    } else {
        TargetType::File
    }
}

/// A scope-change event delivered by the host, carrying the affected
/// path.
#[derive(Debug)]
pub enum ScopeEvent {
    PathAllowed(String),
    PathForbidden(String),
}

impl ScopeEvent {
    /// The path the event affects.
    pub open spec fn spec_path(self) -> Seq<char> {
        match self {
            ScopeEvent::PathAllowed(p) => p@,
            ScopeEvent::PathForbidden(p) => p@,
        }
    }

    /// True for a grant event, false for a denial event.
    pub open spec fn is_allow(self) -> bool {
        self is PathAllowed
    }
}

/// One command against a host scope manager. During rehydration the
/// shell issues each command, best-effort, to every scope manager the
/// host exposes.
#[derive(Debug)]
pub enum HostCommand {
    AllowFile(String),
    AllowDirectory(String, bool),
    ForbidFile(String),
    ForbidDirectory(String, bool),
}

/// True when the command grants (or denies, per `allow`) exactly the
/// given path with the given classification: the file operation for a
/// file, the directory operation with the right recursive flag for a
/// directory.
pub open spec fn is_command_for(c: HostCommand, path: Seq<char>, t: TargetType, allow: bool) -> bool {
    match c {
        HostCommand::AllowFile(p) => allow && t == TargetType::File && p@ == path,
        HostCommand::AllowDirectory(p, r) => allow && p@ == path && ((t == TargetType::Directory
            && !r) || (t == TargetType::RecursiveDirectory && r)),
        HostCommand::ForbidFile(p) => !allow && t == TargetType::File && p@ == path,
        HostCommand::ForbidDirectory(p, r) => !allow && p@ == path && ((t == TargetType::Directory
            && !r) || (t == TargetType::RecursiveDirectory && r)),
    }
}

/// The grant or denial command an entry is replayed with.
fn command_for(e: &ScopeEntry, allow: bool) -> (c: HostCommand)
    ensures
        is_command_for(c, e.path@, e.target_type, allow),
{
    let path = e.path.clone();
    match e.target_type {
        TargetType::File => if allow {
            HostCommand::AllowFile(path)
        } else {
            HostCommand::ForbidFile(path)
        },
        TargetType::Directory => if allow {
            HostCommand::AllowDirectory(path, false)
        } else {
            HostCommand::ForbidDirectory(path, false)
        },
        TargetType::RecursiveDirectory => if allow {
            HostCommand::AllowDirectory(path, true)
        } else {
            HostCommand::ForbidDirectory(path, true)
        },
    }
}

/// The replay sequence for a snapshot: one allow command per allowed
/// entry, then one forbid command per forbidden entry, each selected by
/// the entry's classification.
///
/// The whole sequence is computed before any host call is made, so it
/// covers every entry no matter how the host answers: a rejected call
/// can skip only its own entry, never abort the rest of the replay. The
/// shell issues the commands in order, best-effort, to every scope
/// manager the host exposes.
pub fn rehydration_commands(snap: &ScopeSnapshot) -> (r: Vec<HostCommand>)
    ensures
        r@.len() == snap.allowed@.len() + snap.forbidden@.len(),
        forall|i: int|
            0 <= i < snap.allowed@.len() ==> is_command_for(
                #[trigger] r@[i],
                snap.allowed@[i].path@,
                snap.allowed@[i].target_type,
                true,
            ),
        forall|i: int|
            0 <= i < snap.forbidden@.len() ==> is_command_for(
                #[trigger] r@[snap.allowed@.len() + i],
                snap.forbidden@[i].path@,
                snap.forbidden@[i].target_type,
                false,
            ),
{
    let mut out: Vec<HostCommand> = Vec::new();
    let mut i: usize = 0;
    while i < snap.allowed.len()
        invariant
            i <= snap.allowed@.len(),
            out@.len() == i,
            forall|j: int|
                0 <= j < i ==> is_command_for(
                    #[trigger] out@[j],
                    snap.allowed@[j].path@,
                    snap.allowed@[j].target_type,
                    true,
                ),
        decreases snap.allowed@.len() - i,
    {
        out.push(command_for(&snap.allowed[i], true));
        i = i + 1;
    }
    let mut j: usize = 0;
    while j < snap.forbidden.len()
        invariant
            j <= snap.forbidden@.len(),
            out@.len() == snap.allowed@.len() + j,
            forall|k: int|
                0 <= k < snap.allowed@.len() ==> is_command_for(
                    #[trigger] out@[k],
                    snap.allowed@[k].path@,
                    snap.allowed@[k].target_type,
                    true,
                ),
            forall|k: int|
                0 <= k < j ==> is_command_for(
                    #[trigger] out@[snap.allowed@.len() + k],
                    snap.forbidden@[k].path@,
                    snap.forbidden@[k].target_type,
                    false,
                ),
        decreases snap.forbidden@.len() - j,
    {
        out.push(command_for(&snap.forbidden[j], false));
        j = j + 1;
    }
    out
}

/// The fixed, hidden-file-style name of the snapshot file inside the
/// application data directory.
pub open spec fn spec_state_file_name() -> Seq<char> {
    ".persisted-scope"@
}

/// The snapshot file's name.
pub fn state_file_name() -> (r: &'static str)
    ensures
        r@ == spec_state_file_name(),
{
    ".persisted-scope"
}

/// The snapshot file's full path inside the application data directory.
pub open spec fn spec_state_path(dir: Seq<char>) -> Seq<char> {
    dir + "/"@ + spec_state_file_name()
}

/// Joins the application data directory with the snapshot file's name.
pub fn state_path(dir: &String) -> (r: String)
    ensures
        r@ == spec_state_path(dir@),
{
    let mut s = dir.clone();
    s.append("/");
    s.append(state_file_name());
    s
}

/// Everything setup decides: the snapshot file's path (absent when the
/// engine is inert for this session), the initial in-memory snapshot,
/// and the host commands to issue, self-protection first.
#[derive(Debug)]
pub struct SetupPlan {
    pub state_path: Option<String>,
    pub snapshot: ScopeSnapshot,
    pub commands: Vec<HostCommand>,
}

/// Builds the setup plan from the resolved application data directory
/// and the stored snapshot bytes, both as the shell found them.
///
/// With no data directory the engine is inert: nothing to protect,
/// nothing to replay, an empty snapshot. Otherwise the first command
/// forbids the snapshot file's own path, ahead of any replay; the stored
/// bytes are decoded, falling back to the empty snapshot when they are
/// absent or malformed; the snapshot file's own path is stripped from
/// both sets, so it is never tracked no matter what the file contained;
/// and the remaining commands replay every surviving entry.
pub fn setup_plan(app_dir: Option<&String>, stored: Option<&Vec<u8>>) -> (r: SetupPlan)
    ensures
        r.snapshot.wf(),
        match app_dir {
            None => r.state_path is None && r.commands@.len() == 0 && r.snapshot.allowed_map()
                == Map::<Seq<char>, TargetType>::empty() && r.snapshot.forbidden_map() == Map::<
                Seq<char>,
                TargetType,
            >::empty(),
            Some(dir) => {
                let sp = spec_state_path(dir@);
                &&& r.state_path matches Some(p) && p@ == sp
                &&& !r.snapshot.allowed_map().contains_key(sp)
                &&& !r.snapshot.forbidden_map().contains_key(sp)
                &&& (match stored {
                    Some(bytes) => match spec_decode_snapshot(bytes@) {
                        Some(d) => r.snapshot.allowed_map() == abs_map(d.0).remove(sp)
                            && r.snapshot.forbidden_map() == abs_map(d.1).remove(sp),
                        None => r.snapshot.allowed_map() == Map::<Seq<char>, TargetType>::empty()
                            && r.snapshot.forbidden_map() == Map::<Seq<char>, TargetType>::empty(),
                    },
                    None => r.snapshot.allowed_map() == Map::<Seq<char>, TargetType>::empty()
                        && r.snapshot.forbidden_map() == Map::<Seq<char>, TargetType>::empty(),
                })
                &&& r.commands@.len() == 1 + r.snapshot.allowed@.len() + r.snapshot.forbidden@.len()
                &&& (r.commands@[0] matches HostCommand::ForbidFile(p) && p@ == sp)
                &&& forall|i: int|
                    0 <= i < r.snapshot.allowed@.len() ==> is_command_for(
                        #[trigger] r.commands@[1 + i],
                        r.snapshot.allowed@[i].path@,
                        r.snapshot.allowed@[i].target_type,
                        true,
                    )
                &&& forall|i: int|
                    0 <= i < r.snapshot.forbidden@.len() ==> is_command_for(
                        #[trigger] r.commands@[1 + r.snapshot.allowed@.len() + i],
                        r.snapshot.forbidden@[i].path@,
                        r.snapshot.forbidden@[i].target_type,
                        false,
                    )
            },
        },
{
    let dir = match app_dir {
        None => {
            return SetupPlan {
                state_path: None,
                snapshot: ScopeSnapshot::new(),
                commands: Vec::new(),
            };
        },
        Some(dir) => dir,
    };
    let sp = state_path(dir);
    let mut snapshot = match stored {
        Some(bytes) => match decode_snapshot(bytes.as_slice()) {
            Ok(snap) => {
                proof {
                    lemma_entries_map_abs(snap.allowed@);
                    lemma_entries_map_abs(snap.forbidden@);
                }
                snap
            },
            Err(_) => ScopeSnapshot::new(),
        },
        None => ScopeSnapshot::new(),
    };
    proof {
        assert(Map::<Seq<char>, TargetType>::empty().remove(spec_state_path(dir@)) =~= Map::<
            Seq<char>,
            TargetType,
        >::empty());
    }
    remove_path(&mut snapshot.allowed, &sp);
    remove_path(&mut snapshot.forbidden, &sp);
    let mut commands: Vec<HostCommand> = Vec::new();
    commands.push(HostCommand::ForbidFile(sp.clone()));
    let mut replay = rehydration_commands(&snapshot);
    let ghost replay_view = replay@;
    commands.append(&mut replay);
    proof {
        assert(forall|i: int|
            1 <= i < commands@.len() ==> #[trigger] commands@[i] == replay_view[i - 1]);
    }
    let r = SetupPlan { state_path: Some(sp), snapshot, commands };
    proof {
        assert forall|i: int| 0 <= i < r.snapshot.forbidden@.len() implies is_command_for(
            #[trigger] r.commands@[1 + r.snapshot.allowed@.len() + i],
            r.snapshot.forbidden@[i].path@,
            r.snapshot.forbidden@[i].target_type,
            false,
        ) by {
            let n = r.snapshot.allowed@.len() as int;
            assert(r.commands@[1 + n + i] == replay_view[n + i]);
            assert(is_command_for(
                replay_view[n + i],
                r.snapshot.forbidden@[i].path@,
                r.snapshot.forbidden@[i].target_type,
                false,
            ));
        }
    }
    r
}

/// Handles one scope-change event under the shell's lock: classifies the
/// path from the host's live metadata, inserts or overwrites the entry
/// in the matching set, and returns the full encoded snapshot to write.
///
/// When the host has no record of the path (`metadata` is `None`, the
/// grant was already removed or superseded) the event is a no-op: the
/// snapshot is untouched and no bytes are returned, so the shell skips
/// the disk write.
pub fn handle_event(snap: &mut ScopeSnapshot, event: &ScopeEvent, metadata: Option<PathMetadata>) -> (r:
    Option<Vec<u8>>)
    requires
        old(snap).wf(),
    ensures
        final(snap).wf(),
        match metadata {
            None => final(snap).allowed@ == old(snap).allowed@ && final(snap).forbidden@ == old(
                snap,
            ).forbidden@ && r is None,
            Some(m) => {
                let t = spec_classify(m);
                &&& (event.is_allow() ==> final(snap).allowed_map() == old(
                    snap,
                ).allowed_map().insert(event.spec_path(), t) && final(snap).forbidden@ == old(
                    snap,
                ).forbidden@)
                &&& (!event.is_allow() ==> final(snap).forbidden_map() == old(
                    snap,
                ).forbidden_map().insert(event.spec_path(), t) && final(snap).allowed@ == old(
                    snap,
                ).allowed@)
                &&& (r matches Some(bytes) && bytes@ == spec_encode_snapshot(
                    abs_entries(final(snap).allowed@),
                    abs_entries(final(snap).forbidden@),
                ))
            },
        },
{
    let m = match metadata {
        None => {
            return None;
        },
        Some(m) => m,
    };
    let t = classify(m);
    match event {
        ScopeEvent::PathAllowed(path) => {
            upsert(&mut snap.allowed, path, t);
        },
        ScopeEvent::PathForbidden(path) => {
            upsert(&mut snap.forbidden, path, t);
        },
    }
    Some(encode_snapshot(snap))
}

/// Processing the same event twice, with the host reporting the same
/// metadata, leaves the snapshot exactly as processing it once does:
/// the second insertion overwrites the first, so the path stays bound
/// once.
pub proof fn lemma_event_idempotent(m: Map<Seq<char>, TargetType>, path: Seq<char>, t: TargetType)
    ensures
        m.insert(path, t).insert(path, t) == m.insert(path, t),
{
    assert(m.insert(path, t).insert(path, t) =~= m.insert(path, t));
}

/// Processing two events for the same path keeps a single binding for
/// it, carrying the classification of the later event.
pub proof fn lemma_latest_classification_wins(
    m: Map<Seq<char>, TargetType>,
    path: Seq<char>,
    t1: TargetType,
    t2: TargetType,
)
    ensures
        m.insert(path, t1).insert(path, t2) == m.insert(path, t2),
{
    assert(m.insert(path, t1).insert(path, t2) =~= m.insert(path, t2));
}

} // verus!
