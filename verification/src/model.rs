//! The scope-entry model: one remembered grant or denial per path, and the
//! snapshot that collects them into an allowed set and a forbidden set.
//!
//! Each set is stored as a vector whose paths are pairwise distinct; its
//! mathematical value is the map from a path to the access-mode
//! classification recorded for it. Insertion overwrites the entry with the
//! same path, so the latest classification for a path wins.

use vstd::prelude::*;

verus! {

use vstd::pervasive::VecAdditionalExecFns;

/// How a stored path is matched by the host scope: a single file, a
/// directory without its contents, or a directory together with everything
/// below it.
#[derive(Clone, Copy, Debug, PartialEq, Eq, Structural, Hash)]
pub enum TargetType {
    File,
    Directory,
    RecursiveDirectory,
}

impl Default for TargetType {
    /// A bare path with no recorded classification is treated as a file.
    fn default() -> (r: Self)
        ensures
            r == TargetType::File,
    {
        TargetType::File
    }
}

/// The failure taxonomy of the engine. Every failure is handled where it
/// arises and never propagates to the host: a decode failure falls back
/// to an empty snapshot, an I/O failure loses one write, a host rejection
/// skips one call, an unavailable lock drops one event.
#[derive(Clone, Copy, Debug, PartialEq, Eq, Structural)]
pub enum ScopeError {
    IoFailure,
    DecodeFailure,
    HostRejected,
    LockUnavailable,
}

/// One remembered grant or denial: a path, compared exactly as a string
/// (no normalization, no symlink resolution), plus its classification.
#[derive(Debug, Hash)]
pub struct ScopeEntry {
    pub path: String,
    pub target_type: TargetType,
}

impl ScopeEntry {
    /// The mathematical value of an entry: its path characters paired with
    /// its classification.
    pub open spec fn abs(self) -> (Seq<char>, TargetType) {
        (self.path@, self.target_type)
    }
}

impl PartialEq for ScopeEntry {
    /// Two entries are equal exactly when both the path, as a string,
    /// and the classification match.
    fn eq(&self, other: &ScopeEntry) -> (r: bool) {
        self.path == other.path && self.target_type == other.target_type
    }
}

impl vstd::std_specs::cmp::PartialEqSpecImpl for ScopeEntry {
    open spec fn obeys_eq_spec() -> bool {
        true
    }

    open spec fn eq_spec(&self, other: &ScopeEntry) -> bool {
        self.path@ == other.path@ && self.target_type == other.target_type
    }
}

impl Clone for ScopeEntry {
    fn clone(&self) -> (r: Self)
        ensures
            r.abs() == self.abs(),
    {
        ScopeEntry { path: self.path.clone(), target_type: self.target_type }
    }
}

/// True when no two entries of the sequence share a path.
pub open spec fn paths_unique(s: Seq<ScopeEntry>) -> bool {
    forall|i: int, j: int| 0 <= i < j < s.len() ==> s[i].path@ != s[j].path@
}

/// The map a sequence of entries denotes: each path bound to the
/// classification of the last entry that carries it.
pub open spec fn entries_map(s: Seq<ScopeEntry>) -> Map<Seq<char>, TargetType>
    decreases s.len(),
{
    if s.len() == 0 {
        Map::empty()
    } else {
        entries_map(s.drop_last()).insert(s.last().path@, s.last().target_type)
    }
}

/// The classification the map binds to an entry's own path is that entry's
/// classification, when paths are pairwise distinct.
pub proof fn lemma_entries_map_index(s: Seq<ScopeEntry>, i: int)
    requires
        paths_unique(s),
        0 <= i < s.len(),
    ensures
        entries_map(s).contains_key(s[i].path@),
        entries_map(s)[s[i].path@] == s[i].target_type,
    decreases s.len(),
{
    if i == s.len() - 1 {
    } else {
        assert(s.drop_last()[i] == s[i]);
        lemma_entries_map_index(s.drop_last(), i);
        assert(s[i].path@ != s.last().path@);
    }
}

/// A path is bound in the map exactly when some entry carries it.
pub proof fn lemma_entries_map_contains(s: Seq<ScopeEntry>, p: Seq<char>)
    ensures
        entries_map(s).contains_key(p) <==> exists|i: int| 0 <= i < s.len() && s[i].path@ == p,
    decreases s.len(),
{
    if s.len() == 0 {
    } else {
        lemma_entries_map_contains(s.drop_last(), p);
        if entries_map(s).contains_key(p) {
            if p == s.last().path@ {
                assert(s[s.len() - 1].path@ == p);
            } else {
                let i = choose|i: int| 0 <= i < s.drop_last().len() && s.drop_last()[i].path@ == p;
                assert(s[i].path@ == p);
            }
        }
        if exists|i: int| 0 <= i < s.len() && s[i].path@ == p {
            let i = choose|i: int| 0 <= i < s.len() && s[i].path@ == p;
            if i < s.len() - 1 {
                assert(s.drop_last()[i].path@ == p);
            }
        }
    }
}

/// Appending an entry with a fresh path extends the map at that path.
pub proof fn lemma_entries_map_push(s: Seq<ScopeEntry>, e: ScopeEntry)
    ensures
        entries_map(s.push(e)) == entries_map(s).insert(e.path@, e.target_type),
{
    assert(s.push(e).drop_last() =~= s);
    assert(s.push(e).last() == e);
}

/// Overwriting the entry that carries a path rebinds that path in the map.
pub proof fn lemma_entries_map_update(s: Seq<ScopeEntry>, i: int, e: ScopeEntry)
    requires
        paths_unique(s),
        0 <= i < s.len(),
        e.path@ == s[i].path@,
    ensures
        entries_map(s.update(i, e)) == entries_map(s).insert(e.path@, e.target_type),
    decreases s.len(),
{
    let t = s.update(i, e);
    if i == s.len() - 1 {
        assert(t.drop_last() =~= s.drop_last());
        assert(t.last() == e);
        assert(entries_map(s.drop_last()).insert(e.path@, e.target_type) =~= entries_map(
            s,
        ).insert(e.path@, e.target_type));
    } else {
        assert(t.drop_last() =~= s.drop_last().update(i, e));
        assert(t.last() == s.last());
        assert(s.drop_last()[i] == s[i]);
        lemma_entries_map_update(s.drop_last(), i, e);
        assert(s.last().path@ != e.path@);
        assert(entries_map(s.drop_last()).insert(e.path@, e.target_type).insert(
            s.last().path@,
            s.last().target_type,
        ) =~= entries_map(s).insert(e.path@, e.target_type));
    }
}

/// Removing the entry that carries a path unbinds that path from the map.
pub proof fn lemma_entries_map_remove(s: Seq<ScopeEntry>, i: int)
    requires
        paths_unique(s),
        0 <= i < s.len(),
    ensures
        entries_map(s.remove(i)) == entries_map(s).remove(s[i].path@),
    decreases s.len(),
{
    let t = s.remove(i);
    if i == s.len() - 1 {
        assert(t =~= s.drop_last());
        lemma_entries_map_contains(s.drop_last(), s[i].path@);
        assert(forall|j: int|
            0 <= j < s.drop_last().len() ==> s.drop_last()[j].path@ != s[i].path@);
        assert(entries_map(s.drop_last()) =~= entries_map(s).remove(s[i].path@));
    } else {
        assert(t.drop_last() =~= s.drop_last().remove(i));
        assert(t.last() == s.last());
        assert(s.drop_last()[i] == s[i]);
        lemma_entries_map_remove(s.drop_last(), i);
        assert(s.last().path@ != s[i].path@);
        assert(entries_map(s.drop_last()).remove(s[i].path@).insert(
            s.last().path@,
            s.last().target_type,
        ) =~= entries_map(s).remove(s[i].path@));
    }
}

/// The index of the entry carrying a path, if the list has one.
pub fn find_path(list: &Vec<ScopeEntry>, path: &String) -> (r: Option<usize>)
    ensures
        match r {
            Some(i) => i < list@.len() && list@[i as int].path@ == path@,
            None => forall|i: int| 0 <= i < list@.len() ==> list@[i].path@ != path@,
        },
{
    let mut i: usize = 0;
    while i < list.len()
        invariant
            i <= list@.len(),
            forall|j: int| 0 <= j < i ==> list@[j].path@ != path@,
        decreases list@.len() - i,
    {
        if list[i].path == *path {
            return Some(i);
        }
        i = i + 1;
    }
    None
}

/// Inserts a grant or denial, overwriting any entry with the same path,
/// so the latest classification recorded for a path wins.
pub fn upsert(list: &mut Vec<ScopeEntry>, path: &String, t: TargetType)
    requires
        paths_unique(old(list)@),
    ensures
        paths_unique(final(list)@),
        entries_map(final(list)@) == entries_map(old(list)@).insert(path@, t),
        entries_map(old(list)@).contains_key(path@) ==> final(list)@.len() == old(list)@.len(),
        !entries_map(old(list)@).contains_key(path@) ==> final(list)@.len() == old(list)@.len()
            + 1,
{
    let entry = ScopeEntry { path: path.clone(), target_type: t };
    proof {
        lemma_entries_map_contains(list@, path@);
    }
    match find_path(list, path) {
        Some(i) => {
            proof {
                lemma_entries_map_update(list@, i as int, entry);
            }
            list.set(i, entry);
            assert(paths_unique(list@)) by {
                assert(forall|a: int, b: int|
                    0 <= a < b < list@.len() ==> list@[a].path@ != list@[b].path@);
            }
        },
        None => {
            proof {
                lemma_entries_map_push(list@, entry);
            }
            list.push(entry);
            assert(paths_unique(list@)) by {
                assert(forall|a: int, b: int|
                    0 <= a < b < list@.len() ==> list@[a].path@ != list@[b].path@);
            }
        },
    }
}

/// Removes the entry carrying a path, if the list has one.
pub fn remove_path(list: &mut Vec<ScopeEntry>, path: &String)
    requires
        paths_unique(old(list)@),
    ensures
        paths_unique(final(list)@),
        entries_map(final(list)@) == entries_map(old(list)@).remove(path@),
{
    proof {
        lemma_entries_map_contains(list@, path@);
    }
    match find_path(list, path) {
        Some(i) => {
            proof {
                lemma_entries_map_remove(list@, i as int);
            }
            list.remove(i);
            assert(paths_unique(list@)) by {
                assert(forall|a: int, b: int|
                    0 <= a < b < list@.len() ==> list@[a].path@ != list@[b].path@);
            }
        },
        None => {
            assert(entries_map(list@) =~= entries_map(list@).remove(path@));
        },
    }
}

/// Checks that no two entries of a list share a path.
pub fn check_unique(list: &Vec<ScopeEntry>) -> (r: bool)
    ensures
        r == paths_unique(list@),
{
    let mut i: usize = 0;
    while i < list.len()
        invariant
            i <= list@.len(),
            forall|a: int, c: int| 0 <= a < c < i ==> list@[a].path@ != list@[c].path@,
        decreases list@.len() - i,
    {
        let mut j: usize = 0;
        while j < i
            invariant
                j <= i < list@.len(),
                forall|a: int| 0 <= a < j ==> list@[a].path@ != list@[i as int].path@,
            decreases i - j,
        {
            if list[j].path == list[i].path {
                return false;
            }
            j = j + 1;
        }
        i = i + 1;
    }
    true
}

/// The classification recorded for a path, if the list carries one.
pub fn lookup(list: &Vec<ScopeEntry>, path: &String) -> (r: Option<TargetType>)
    requires
        paths_unique(list@),
    ensures
        r == if entries_map(list@).contains_key(path@) {
            Some(entries_map(list@)[path@])
        } else {
            None::<TargetType>
        },
{
    proof {
        lemma_entries_map_contains(list@, path@);
    }
    match find_path(list, path) {
        Some(i) => {
            proof {
                lemma_entries_map_index(list@, i as int);
            }
            Some(list[i].target_type)
        },
        None => None,
    }
}

/// The abstract value of an entry list: each entry as its path characters
/// paired with its classification.
pub open spec fn abs_entries(s: Seq<ScopeEntry>) -> Seq<(Seq<char>, TargetType)> {
    s.map_values(|e: ScopeEntry| e.abs())
}

/// True when no two abstract entries share a path.
pub open spec fn abs_paths_unique(s: Seq<(Seq<char>, TargetType)>) -> bool {
    forall|i: int, j: int| 0 <= i < j < s.len() ==> s[i].0 != s[j].0
}

/// Path uniqueness of an entry list and of its abstract value coincide.
pub proof fn lemma_abs_paths_unique(s: Seq<ScopeEntry>)
    ensures
        abs_paths_unique(abs_entries(s)) <==> paths_unique(s),
{
    let a = abs_entries(s);
    assert(forall|i: int| 0 <= i < s.len() ==> #[trigger] a[i].0 == s[i].path@);
    if paths_unique(s) {
        assert forall|i: int, j: int| 0 <= i < j < a.len() implies a[i].0 != a[j].0 by {
            assert(s[i].path@ != s[j].path@);
        }
    }
    if abs_paths_unique(a) {
        assert forall|i: int, j: int| 0 <= i < j < s.len() implies s[i].path@ != s[j].path@ by {
            assert(a[i].0 != a[j].0);
        }
    }
}

/// The map an abstract entry sequence denotes, the counterpart of
/// [`entries_map`] on abstract values.
pub open spec fn abs_map(s: Seq<(Seq<char>, TargetType)>) -> Map<Seq<char>, TargetType>
    decreases s.len(),
{
    if s.len() == 0 {
        Map::empty()
    } else {
        abs_map(s.drop_last()).insert(s.last().0, s.last().1)
    }
}

/// An entry list and its abstract value denote the same map.
pub proof fn lemma_entries_map_abs(s: Seq<ScopeEntry>)
    ensures
        entries_map(s) == abs_map(abs_entries(s)),
    decreases s.len(),
{
    if s.len() == 0 {
    } else {
        lemma_entries_map_abs(s.drop_last());
        assert(abs_entries(s).drop_last() =~= abs_entries(s.drop_last()));
        assert(abs_entries(s).last() == s.last().abs());
    }
}

/// The two persisted sets of scope entries: paths the user allowed and
/// paths the user forbade. This is the unit of persistence.
#[derive(Debug)]
pub struct ScopeSnapshot {
    pub allowed: Vec<ScopeEntry>,
    pub forbidden: Vec<ScopeEntry>,
}

impl ScopeSnapshot {
    /// Well-formedness: within each set, paths are pairwise distinct.
    pub open spec fn wf(self) -> bool {
        paths_unique(self.allowed@) && paths_unique(self.forbidden@)
    }

    /// The allowed set as a map from path to classification.
    pub open spec fn allowed_map(self) -> Map<Seq<char>, TargetType> {
        entries_map(self.allowed@)
    }

    /// The forbidden set as a map from path to classification.
    pub open spec fn forbidden_map(self) -> Map<Seq<char>, TargetType> {
        entries_map(self.forbidden@)
    }

    /// The empty snapshot, the state of a fresh session.
    pub fn new() -> (r: Self)
        ensures
            r.wf(),
            r.allowed_map() == Map::<Seq<char>, TargetType>::empty(),
            r.forbidden_map() == Map::<Seq<char>, TargetType>::empty(),
            r.allowed@.len() == 0,
            r.forbidden@.len() == 0,
    {
        ScopeSnapshot { allowed: Vec::new(), forbidden: Vec::new() }
    }

    /// Decides well-formedness, so that unverified callers can test it
    /// before handing the snapshot to a function that requires it.
    pub fn check_wf(&self) -> (r: bool)
        ensures
            r == self.wf(),
    {
        let a = check_unique(&self.allowed);
        let f = check_unique(&self.forbidden);
        a && f
    }
}

impl Default for ScopeSnapshot {
    /// The default snapshot is the empty one.
    fn default() -> (r: Self)
        ensures
            r.wf(),
            r.allowed_map() == Map::<Seq<char>, TargetType>::empty(),
            r.forbidden_map() == Map::<Seq<char>, TargetType>::empty(),
            r.allowed@.len() == 0,
            r.forbidden@.len() == 0,
    {
        ScopeSnapshot::new()
    }
}

} // verus!
