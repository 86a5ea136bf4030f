use vstd::prelude::*;

verus! {

/// What a snapshot records of one file: its size in bytes and its
/// modification time, as seconds since the Unix epoch written in decimal.
#[derive(Debug)]
pub struct FileInfo {
    pub size: u64,
    pub modified: String,
}

/// The abstract value of a `FileInfo`: size and modification-time text.
pub type InfoView = (u64, Seq<char>);

impl View for FileInfo {
    type V = InfoView;

    open spec fn view(&self) -> InfoView {
        (self.size, self.modified@)
    }
}

impl Clone for FileInfo {
    fn clone(&self) -> (r: FileInfo)
        ensures
            r@ == self@,
    {
        FileInfo { size: self.size, modified: self.modified.clone() }
    }
}

impl FileInfo {
    /// Two records describe the same file state when size and modification
    /// text are exactly equal.
    pub fn same_state(&self, other: &FileInfo) -> (r: bool)
        ensures
            r == (self@ == other@),
    {
        self.size == other.size && self.modified == other.modified
    }
}


/// The abstract value of a snapshot's file table: relative path to file state.
pub type FilesMap = Map<Seq<char>, InfoView>;

/// A point-in-time record of the regular files under a directory.
///
/// `files` pairs each relative path with its recorded state; a well-formed
/// snapshot holds each path at most once.
#[derive(Debug)]
pub struct DirectorySnapshot {
    pub timestamp: String,
    pub files: Vec<(String, FileInfo)>,
}

/// No path occurs twice in a file table.
pub open spec fn paths_unique(s: Seq<(String, FileInfo)>) -> bool {
    forall|i: int, j: int|
        0 <= i < s.len() && 0 <= j < s.len() && i != j ==> #[trigger] s[i].0@ != #[trigger] s[j].0@
}

/// The map that a file table describes (a later entry for a path overrides an
/// earlier one; in a well-formed table there is none).
pub open spec fn entries_map(s: Seq<(String, FileInfo)>) -> FilesMap
    decreases s.len(),
{
    if s.len() == 0 {
        Map::empty()
    } else {
        entries_map(s.drop_last()).insert(s.last().0@, s.last().1@)
    }
}

/// In a table without repeated paths, each entry is what the map holds for its
/// path, and the map holds nothing else.
pub proof fn lemma_entries_map(s: Seq<(String, FileInfo)>)
    requires
        paths_unique(s),
    ensures
        forall|i: int|
            0 <= i < s.len() ==> #[trigger] entries_map(s).contains_key(s[i].0@) && entries_map(s)[s[i].0@]
                == s[i].1@,
        forall|k: Seq<char>| #[trigger]
            entries_map(s).contains_key(k) ==> exists|i: int| 0 <= i < s.len() && s[i].0@ == k,
    decreases s.len(),
{
    if s.len() > 0 {
        let t = s.drop_last();
        assert(paths_unique(t)) by {
            assert forall|i: int, j: int| 0 <= i < t.len() && 0 <= j < t.len() && i != j implies t[i].0@
                != t[j].0@ by {
                assert(t[i] == s[i] && t[j] == s[j]);
            }
        }
        lemma_entries_map(t);
        let n = s.len() - 1;
        assert forall|i: int| 0 <= i < s.len() implies #[trigger] entries_map(s).contains_key(s[i].0@)
            && entries_map(s)[s[i].0@] == s[i].1@ by {
            if i < n {
                assert(t[i] == s[i]);
                assert(s[i].0@ != s[n].0@);
                assert(entries_map(t).contains_key(t[i].0@));
            }
        }
        assert forall|k: Seq<char>| #[trigger] entries_map(s).contains_key(k) implies exists|i: int|
            0 <= i < s.len() && s[i].0@ == k by {
            if k != s[n].0@ {
                assert(entries_map(t).contains_key(k));
                let i = choose|i: int| 0 <= i < t.len() && t[i].0@ == k;
                assert(s[i] == t[i]);
            }
        }
    }
}

/// Index of the entry for `path` in a file table, if there is one.
fn position_of(files: &Vec<(String, FileInfo)>, path: &String) -> (r: Option<usize>)
    ensures
        match r {
            Some(j) => j < files@.len() && files@[j as int].0@ == path@,
            None => forall|j: int| 0 <= j < files@.len() ==> files@[j].0@ != path@,
        },
{
    let mut j: usize = 0;
    while j < files.len()
        invariant
            j <= files@.len(),
            forall|m: int| 0 <= m < j ==> files@[m].0@ != path@,
        decreases files@.len() - j,
    {
        if files[j].0 == *path {
            return Some(j);
        }
        j = j + 1;
    }
    None
}

impl DirectorySnapshot {
    /// Each path occurs at most once.
    pub open spec fn wf(&self) -> bool {
        paths_unique(self.files@)
    }

    /// The recorded files, as a map from relative path to file state.
    pub open spec fn files_map(&self) -> FilesMap {
        entries_map(self.files@)
    }

    /// A snapshot stamped `timestamp` that records no file.
    pub fn empty(timestamp: String) -> (r: DirectorySnapshot)
        ensures
            r.wf(),
            r.timestamp@ == timestamp@,
            r.files_map() == Map::<Seq<char>, InfoView>::empty(),
    {
        DirectorySnapshot { timestamp, files: Vec::new() }
    }

    /// Records `info` for `path`, replacing what was recorded for it before.
    pub fn insert(&mut self, path: String, info: FileInfo)
        requires
            old(self).wf(),
        ensures
            final(self).wf(),
            final(self).timestamp == old(self).timestamp,
            final(self).files_map() == old(self).files_map().insert(path@, info@),
    {
        proof {
            lemma_entries_map(self.files@);
        }
        let ghost path_v = path@;
        let ghost info_v = info@;
        match position_of(&self.files, &path) {
            Some(j) => {
                self.files.set(j, (path, info));
                proof {
                    let s = self.files@;
                    assert(paths_unique(s)) by {
                        assert forall|a: int, b: int|
                            0 <= a < s.len() && 0 <= b < s.len() && a != b implies s[a].0@ != s[b].0@ by {
                            if a != j && b != j {
                                assert(s[a] == old(self).files@[a] && s[b] == old(self).files@[b]);
                            } else if a == j {
                                assert(s[b] == old(self).files@[b]);
                                assert(old(self).files@[j as int].0@ == path_v);
                            } else {
                                assert(s[a] == old(self).files@[a]);
                                assert(old(self).files@[j as int].0@ == path_v);
                            }
                        }
                    }
                    lemma_entries_map(s);
                    let m0 = old(self).files_map();
                    let m1 = self.files_map();
                    assert(m1 =~= m0.insert(path_v, info_v)) by {
                        assert forall|k: Seq<char>| m1.contains_key(k) implies m0.insert(path_v, info_v).contains_key(k)
                            && m1[k] == m0.insert(path_v, info_v)[k] by {
                            let i = choose|i: int| 0 <= i < s.len() && s[i].0@ == k;
                            assert(m1.contains_key(s[i].0@));
                            if i != j {
                                assert(s[i] == old(self).files@[i]);
                                assert(old(self).files@[j as int].0@ == path_v);
                                assert(m0.contains_key(old(self).files@[i].0@));
                            }
                        }
                        assert forall|k: Seq<char>| m0.insert(path_v, info_v).contains_key(k) implies m1.contains_key(k) by {
                            if k != path_v {
                                let i = choose|i: int| 0 <= i < old(self).files@.len() && old(self).files@[i].0@ == k;
                                assert(s[i] == old(self).files@[i]);
                                assert(m1.contains_key(s[i].0@));
                            } else {
                                assert(m1.contains_key(s[j as int].0@));
                            }
                        }
                    }
                }
            },
            None => {
                self.files.push((path, info));
                proof {
                    let s = self.files@;
                    assert(s.drop_last() =~= old(self).files@);
                    assert(paths_unique(s)) by {
                        assert forall|a: int, b: int|
                            0 <= a < s.len() && 0 <= b < s.len() && a != b implies s[a].0@ != s[b].0@ by {
                            if a < s.len() - 1 && b < s.len() - 1 {
                                assert(s[a] == old(self).files@[a] && s[b] == old(self).files@[b]);
                            } else if a < s.len() - 1 {
                                assert(s[a] == old(self).files@[a]);
                            } else {
                                assert(s[b] == old(self).files@[b]);
                            }
                        }
                    }
                }
            },
        }
    }
}

impl DirectorySnapshot {
    /// What is recorded for `path`, if anything.
    pub fn get(&self, path: &String) -> (r: Option<&FileInfo>)
        requires
            self.wf(),
        ensures
            match r {
                Some(info) => self.files_map().contains_key(path@) && self.files_map()[path@] == info@,
                None => !self.files_map().contains_key(path@),
            },
    {
        proof {
            lemma_entries_map(self.files@);
        }
        match position_of(&self.files, path) {
            Some(j) => {
                proof {
                    assert(self.files_map().contains_key(self.files@[j as int].0@));
                }
                Some(&self.files[j].1)
            },
            None => None,
        }
    }
}

/// The kind of difference found for one path.
#[derive(Debug, Clone, Copy, PartialEq, Eq, Structural)]
pub enum ChangeType {
    Added,
    Modified,
    Deleted,
}

/// One difference between an initial and a final snapshot.
#[derive(Debug)]
pub struct FileChange {
    pub path: String,
    pub change_type: ChangeType,
    pub initial_state: Option<FileInfo>,
    pub final_state: Option<FileInfo>,
}

/// The abstract value of a `FileChange`: path, kind, state before, state after.
pub type ChangeView = (Seq<char>, ChangeType, Option<InfoView>, Option<InfoView>);

/// The abstract value of an optional file record.
pub open spec fn opt_view(o: Option<FileInfo>) -> Option<InfoView> {
    match o {
        Some(info) => Some(info@),
        None => None,
    }
}

impl View for FileChange {
    type V = ChangeView;

    open spec fn view(&self) -> ChangeView {
        (self.path@, self.change_type, opt_view(self.initial_state), opt_view(self.final_state))
    }
}

/// The change that a comparison reports for path `p`, going from the files
/// `ini` to the files `fin`, or `None` where `p` did not change.
pub open spec fn change_at(fin: FilesMap, ini: FilesMap, p: Seq<char>) -> Option<ChangeView> {
    if fin.contains_key(p) && ini.contains_key(p) {
        if fin[p] == ini[p] {
            None
        } else {
            Some((p, ChangeType::Modified, Some(ini[p]), Some(fin[p])))
        }
    } else if fin.contains_key(p) {
        Some((p, ChangeType::Added, None, Some(fin[p])))
    } else if ini.contains_key(p) {
        Some((p, ChangeType::Deleted, Some(ini[p]), None))
    } else {
        None
    }
}

/// `r` lists, once each and in some order, exactly the changes that lead
/// from `ini` to `fin`.
pub open spec fn is_diff(r: Seq<FileChange>, fin: FilesMap, ini: FilesMap) -> bool {
    &&& forall|a: int, b: int|
        0 <= a < r.len() && 0 <= b < r.len() && a != b ==> #[trigger] r[a].path@ != #[trigger] r[b].path@
    &&& forall|t: int| 0 <= t < r.len() ==> change_at(fin, ini, (#[trigger] r[t]).path@) == Some(r[t]@)
    &&& forall|p: Seq<char>| #[trigger]
        change_at(fin, ini, p) is Some ==> exists|t: int| 0 <= t < r.len() && r[t].path@ == p
}

/// Every deletion in `r` comes after every addition and modification.
pub open spec fn deletions_last(r: Seq<FileChange>) -> bool {
    forall|a: int, b: int|
        0 <= a < b < r.len() && (#[trigger] r[a]).change_type == ChangeType::Deleted ==> (#[trigger] r[b]).change_type
            == ChangeType::Deleted
}

impl DirectorySnapshot {
    /// The changes that lead from `other` (the earlier snapshot) to `self`
    /// (the later one): a file in both whose size or modification time
    /// differs is `Modified`, a file only in `self` is `Added`, a file only in
    /// `other` is `Deleted`. Deletions come last; the order is otherwise
    /// that of the file tables.
    pub fn compare(&self, other: &DirectorySnapshot) -> (r: Vec<FileChange>)
        requires
            self.wf(),
            other.wf(),
        ensures
            is_diff(r@, self.files_map(), other.files_map()),
            deletions_last(r@),
    {
        let ghost fin = self.files_map();
        let ghost ini = other.files_map();
        proof {
            lemma_entries_map(self.files@);
            lemma_entries_map(other.files@);
        }
        let mut changes: Vec<FileChange> = Vec::new();
        let mut i: usize = 0;
        while i < self.files.len()
            invariant
                i <= self.files@.len(),
                self.wf(),
                other.wf(),
                fin == self.files_map(),
                ini == other.files_map(),
                forall|k: int|
                    0 <= k < self.files@.len() ==> #[trigger] fin.contains_key(self.files@[k].0@) && fin[self.files@[k].0@]
                        == self.files@[k].1@,
                forall|a: int, b: int|
                    0 <= a < changes@.len() && 0 <= b < changes@.len() && a != b ==> #[trigger] changes@[a].path@
                        != #[trigger] changes@[b].path@,
                forall|t: int|
                    0 <= t < changes@.len() ==> change_at(fin, ini, (#[trigger] changes@[t]).path@) == Some(
                        changes@[t]@,
                    ) && changes@[t].change_type != ChangeType::Deleted,
                forall|t: int|
                    0 <= t < changes@.len() ==> exists|m: int|
                        0 <= m < i && #[trigger] self.files@[m].0@ == (#[trigger] changes@[t]).path@,
                forall|m: int|
                    0 <= m < i && (change_at(fin, ini, (#[trigger] self.files@[m]).0@) is Some) ==> exists|t: int|
                        0 <= t < changes@.len() && changes@[t].path@ == self.files@[m].0@,
            decreases self.files@.len() - i,
        {
            let path = &self.files[i].0;
            let final_info = &self.files[i].1;
            let ghost before = changes@;
            let ghost p = path@;
            let found = other.get(path);
            let mut pushed = false;
            match found {
                Some(initial_info) => {
                    if !initial_info.same_state(final_info) {
                        changes.push(
                            FileChange {
                                path: path.clone(),
                                change_type: ChangeType::Modified,
                                initial_state: Some(initial_info.clone()),
                                final_state: Some(final_info.clone()),
                            },
                        );
                        pushed = true;
                    }
                },
                None => {
                    changes.push(
                        FileChange {
                            path: path.clone(),
                            change_type: ChangeType::Added,
                            initial_state: None,
                            final_state: Some(final_info.clone()),
                        },
                    );
                    pushed = true;
                },
            }
            proof {
                assert(fin.contains_key(self.files@[i as int].0@));
                if pushed {
                    let n = before.len() as int;
                    assert(changes@[n].path@ == p);
                    assert(change_at(fin, ini, p) == Some(changes@[n]@));
                    assert forall|a: int, b: int|
                        0 <= a < changes@.len() && 0 <= b < changes@.len() && a != b implies #[trigger] changes@[a].path@
                            != #[trigger] changes@[b].path@ by {
                        if a < n && b < n {
                            assert(changes@[a] == before[a] && changes@[b] == before[b]);
                        } else if a < n {
                            assert(changes@[a] == before[a]);
                            let m = choose|m: int| 0 <= m < i && #[trigger] self.files@[m].0@ == before[a].path@;
                            assert(self.files@[m].0@ != self.files@[i as int].0@);
                        } else {
                            assert(changes@[b] == before[b]);
                            let m = choose|m: int| 0 <= m < i && #[trigger] self.files@[m].0@ == before[b].path@;
                            assert(self.files@[m].0@ != self.files@[i as int].0@);
                        }
                    }
                    assert forall|t: int| 0 <= t < changes@.len() implies exists|m: int|
                        0 <= m < i + 1 && #[trigger] self.files@[m].0@ == (#[trigger] changes@[t]).path@ by {
                        if t < n {
                            assert(changes@[t] == before[t]);
                            let m = choose|m: int| 0 <= m < i && #[trigger] self.files@[m].0@ == before[t].path@;
                            assert(self.files@[m].0@ == changes@[t].path@);
                        } else {
                            assert(self.files@[i as int].0@ == changes@[t].path@);
                        }
                    }
                    assert forall|m: int|
                        0 <= m < i + 1 && (change_at(fin, ini, (#[trigger] self.files@[m]).0@) is Some) implies exists|t: int|
                        0 <= t < changes@.len() && changes@[t].path@ == self.files@[m].0@ by {
                        if m < i {
                            let t = choose|t: int| 0 <= t < before.len() && before[t].path@ == self.files@[m].0@;
                            assert(changes@[t] == before[t]);
                        } else {
                            assert(changes@[n].path@ == self.files@[m].0@);
                        }
                    }
                    assert forall|t: int| 0 <= t < changes@.len() implies change_at(fin, ini, (#[trigger] changes@[t]).path@)
                        == Some(changes@[t]@) && changes@[t].change_type != ChangeType::Deleted by {
                        if t < n {
                            assert(changes@[t] == before[t]);
                        }
                    }
                } else {
                    assert(changes@ == before);
                    assert(change_at(fin, ini, p) is None);
                    assert forall|t: int| 0 <= t < changes@.len() implies exists|m: int|
                        0 <= m < i + 1 && #[trigger] self.files@[m].0@ == (#[trigger] changes@[t]).path@ by {
                        let m = choose|m: int| 0 <= m < i && #[trigger] self.files@[m].0@ == before[t].path@;
                        assert(self.files@[m].0@ == changes@[t].path@);
                    }
                }
            }
            i = i + 1;
        }
        let ghost updated = changes@;
        let ghost n1 = changes@.len() as int;
        let mut j: usize = 0;
        while j < other.files.len()
            invariant
                j <= other.files@.len(),
                self.wf(),
                other.wf(),
                fin == self.files_map(),
                ini == other.files_map(),
                n1 == updated.len(),
                n1 <= changes@.len(),
                forall|t: int| 0 <= t < n1 ==> changes@[t] == updated[t],
                forall|k: int|
                    0 <= k < self.files@.len() ==> #[trigger] fin.contains_key(self.files@[k].0@) && fin[self.files@[k].0@]
                        == self.files@[k].1@,
                forall|k: Seq<char>| #[trigger]
                    fin.contains_key(k) ==> exists|m: int| 0 <= m < self.files@.len() && self.files@[m].0@ == k,
                forall|k: int|
                    0 <= k < other.files@.len() ==> #[trigger] ini.contains_key(other.files@[k].0@) && ini[other.files@[k].0@]
                        == other.files@[k].1@,
                forall|a: int, b: int|
                    0 <= a < changes@.len() && 0 <= b < changes@.len() && a != b ==> #[trigger] changes@[a].path@
                        != #[trigger] changes@[b].path@,
                forall|t: int|
                    0 <= t < changes@.len() ==> change_at(fin, ini, (#[trigger] changes@[t]).path@) == Some(
                        changes@[t]@,
                    ),
                forall|t: int|
                    0 <= t < changes@.len() ==> ((#[trigger] changes@[t]).change_type == ChangeType::Deleted <==> t >= n1),
                forall|t: int|
                    n1 <= t < changes@.len() ==> exists|m: int|
                        0 <= m < j && #[trigger] other.files@[m].0@ == (#[trigger] changes@[t]).path@,
                forall|m: int|
                    0 <= m < self.files@.len() && (change_at(fin, ini, (#[trigger] self.files@[m]).0@) is Some) ==> exists|t: int|
                        0 <= t < n1 && updated[t].path@ == self.files@[m].0@,
                forall|m: int|
                    0 <= m < j && (change_at(fin, ini, (#[trigger] other.files@[m]).0@) is Some) ==> exists|t: int|
                        0 <= t < changes@.len() && changes@[t].path@ == other.files@[m].0@,
            decreases other.files@.len() - j,
        {
            let path = &other.files[j].0;
            let initial_info = &other.files[j].1;
            let ghost before = changes@;
            let ghost p = path@;
            proof {
                assert(ini.contains_key(other.files@[j as int].0@));
            }
            if self.get(path).is_none() {
                changes.push(
                    FileChange {
                        path: path.clone(),
                        change_type: ChangeType::Deleted,
                        initial_state: Some(initial_info.clone()),
                        final_state: None,
                    },
                );
                proof {
                    let n = before.len() as int;
                    assert(changes@[n].path@ == p);
                    assert(change_at(fin, ini, p) == Some(changes@[n]@));
                    assert forall|a: int, b: int|
                        0 <= a < changes@.len() && 0 <= b < changes@.len() && a != b implies #[trigger] changes@[a].path@
                            != #[trigger] changes@[b].path@ by {
                        if a < n && b < n {
                            assert(changes@[a] == before[a] && changes@[b] == before[b]);
                        } else if a < n || b < n {
                            let c = if a < n { a } else { b };
                            assert(changes@[c] == before[c]);
                            if c < n1 {
                                assert(change_at(fin, ini, before[c].path@) == Some(before[c]@));
                                assert(fin.contains_key(before[c].path@));
                            } else {
                                let m = choose|m: int| 0 <= m < j && #[trigger] other.files@[m].0@ == before[c].path@;
                                assert(other.files@[m].0@ != other.files@[j as int].0@);
                            }
                        }
                    }
                    assert forall|t: int| 0 <= t < n1 implies changes@[t] == updated[t] by {
                        assert(changes@[t] == before[t]);
                    }
                    assert forall|t: int| 0 <= t < changes@.len() implies change_at(fin, ini, (#[trigger] changes@[t]).path@)
                        == Some(changes@[t]@) && ((changes@[t].change_type == ChangeType::Deleted) <==> t >= n1) by {
                        if t < n {
                            assert(changes@[t] == before[t]);
                        }
                    }
                    assert forall|t: int| n1 <= t < changes@.len() implies exists|m: int|
                        0 <= m < j + 1 && #[trigger] other.files@[m].0@ == (#[trigger] changes@[t]).path@ by {
                        if t < n {
                            assert(changes@[t] == before[t]);
                            let m = choose|m: int| 0 <= m < j && #[trigger] other.files@[m].0@ == before[t].path@;
                            assert(other.files@[m].0@ == changes@[t].path@);
                        } else {
                            assert(other.files@[j as int].0@ == changes@[t].path@);
                        }
                    }
                    assert forall|m: int|
                        0 <= m < j + 1 && (change_at(fin, ini, (#[trigger] other.files@[m]).0@) is Some) implies exists|t: int|
                        0 <= t < changes@.len() && changes@[t].path@ == other.files@[m].0@ by {
                        if m < j {
                            let t = choose|t: int| 0 <= t < before.len() && before[t].path@ == other.files@[m].0@;
                            assert(changes@[t] == before[t]);
                        } else {
                            assert(changes@[n].path@ == other.files@[m].0@);
                        }
                    }
                }
            } else {
                proof {
                    assert(fin.contains_key(p));
                    let m = choose|m: int| 0 <= m < self.files@.len() && self.files@[m].0@ == p;
                    assert(self.files@[m].0@ == p);
                    assert forall|mm: int|
                        0 <= mm < j + 1 && (change_at(fin, ini, (#[trigger] other.files@[mm]).0@) is Some) implies exists|t: int|
                        0 <= t < changes@.len() && changes@[t].path@ == other.files@[mm].0@ by {
                        if mm == j {
                            let t = choose|t: int| 0 <= t < n1 && updated[t].path@ == self.files@[m].0@;
                            assert(changes@[t] == updated[t]);
                        }
                    }
                }
            }
            j = j + 1;
        }
        proof {
            let r = changes@;
            assert forall|p: Seq<char>| #[trigger] change_at(fin, ini, p) is Some implies exists|t: int|
                0 <= t < r.len() && r[t].path@ == p by {
                if fin.contains_key(p) {
                    let m = choose|m: int| 0 <= m < self.files@.len() && self.files@[m].0@ == p;
                    assert(change_at(fin, ini, self.files@[m].0@) is Some);
                    let t = choose|t: int| 0 <= t < n1 && updated[t].path@ == self.files@[m].0@;
                    assert(r[t] == updated[t]);
                } else {
                    let m = choose|m: int| 0 <= m < other.files@.len() && other.files@[m].0@ == p;
                    assert(change_at(fin, ini, other.files@[m].0@) is Some);
                }
            }
        }
        changes
    }
}

impl DirectorySnapshot {
    /// The snapshot stamped `timestamp` that records the pairs of `entries`;
    /// a later pair for a path replaces an earlier one.
    pub fn from_entries(timestamp: String, entries: Vec<(String, FileInfo)>) -> (r: DirectorySnapshot)
        ensures
            r.wf(),
            r.timestamp@ == timestamp@,
            r.files_map() == entries_map(entries@),
    {
        let mut snap = DirectorySnapshot::empty(timestamp);
        let mut i: usize = 0;
        while i < entries.len()
            invariant
                i <= entries@.len(),
                snap.wf(),
                snap.timestamp@ == timestamp@,
                snap.files_map() == entries_map(entries@.take(i as int)),
            decreases entries@.len() - i,
        {
            let path = entries[i].0.clone();
            let info = entries[i].1.clone();
            snap.insert(path, info);
            proof {
                assert(entries@.take(i + 1).drop_last() =~= entries@.take(i as int));
            }
            i = i + 1;
        }
        proof {
            assert(entries@.take(entries@.len() as int) =~= entries@);
        }
        snap
    }
}

/// Rebuilding a snapshot from its own timestamp and file table, as loading a
/// saved snapshot does once the file has been decoded, gives back the same
/// timestamp and the same files.
pub proof fn lemma_rebuild_from_entries(s: DirectorySnapshot, r: DirectorySnapshot)
    requires
        s.wf(),
        r.wf(),
        r.timestamp@ == s.timestamp@,
        r.files_map() == entries_map(s.files@),
    ensures
        r.timestamp@ == s.timestamp@,
        r.files_map() == s.files_map(),
{
}

/// A snapshot compared with itself shows no change.
pub proof fn lemma_compare_identical(s: DirectorySnapshot, r: Seq<FileChange>)
    requires
        s.wf(),
        is_diff(r, s.files_map(), s.files_map()),
    ensures
        r.len() == 0,
{
    if r.len() > 0 {
        assert(change_at(s.files_map(), s.files_map(), r[0].path@) == Some(r[0]@));
    }
}

/// Between two snapshots with no path in common, every file of the later one
/// is reported `Added` exactly once, every file of the earlier one `Deleted`
/// exactly once, and nothing is `Modified`.
pub proof fn lemma_compare_disjoint(earlier: DirectorySnapshot, later: DirectorySnapshot, r: Seq<FileChange>)
    requires
        earlier.wf(),
        later.wf(),
        forall|p: Seq<char>|
            !(#[trigger] earlier.files_map().contains_key(p) && later.files_map().contains_key(p)),
        is_diff(r, later.files_map(), earlier.files_map()),
    ensures
        forall|t: int|
            0 <= t < r.len() ==> ((#[trigger] r[t]).change_type == ChangeType::Added && later.files_map().contains_key(
                r[t].path@,
            )) || (r[t].change_type == ChangeType::Deleted && earlier.files_map().contains_key(r[t].path@)),
        forall|p: Seq<char>| #[trigger]
            later.files_map().contains_key(p) ==> exists|t: int|
                0 <= t < r.len() && r[t].path@ == p && r[t].change_type == ChangeType::Added,
        forall|p: Seq<char>| #[trigger]
            earlier.files_map().contains_key(p) ==> exists|t: int|
                0 <= t < r.len() && r[t].path@ == p && r[t].change_type == ChangeType::Deleted,
        forall|a: int, b: int|
            0 <= a < r.len() && 0 <= b < r.len() && a != b ==> #[trigger] r[a].path@ != #[trigger] r[b].path@,
{
    let fin = later.files_map();
    let ini = earlier.files_map();
    assert forall|t: int| 0 <= t < r.len() implies ((#[trigger] r[t]).change_type == ChangeType::Added
        && fin.contains_key(r[t].path@)) || (r[t].change_type == ChangeType::Deleted && ini.contains_key(r[t].path@)) by {
        assert(change_at(fin, ini, r[t].path@) == Some(r[t]@));
        assert(!(ini.contains_key(r[t].path@) && fin.contains_key(r[t].path@)));
    }
    assert forall|p: Seq<char>| #[trigger] fin.contains_key(p) implies exists|t: int|
        0 <= t < r.len() && r[t].path@ == p && r[t].change_type == ChangeType::Added by {
        assert(!(ini.contains_key(p) && fin.contains_key(p)));
        assert(change_at(fin, ini, p) is Some);
        let t = choose|t: int| 0 <= t < r.len() && r[t].path@ == p;
        assert(change_at(fin, ini, r[t].path@) == Some(r[t]@));
    }
    assert forall|p: Seq<char>| #[trigger] ini.contains_key(p) implies exists|t: int|
        0 <= t < r.len() && r[t].path@ == p && r[t].change_type == ChangeType::Deleted by {
        assert(!(ini.contains_key(p) && fin.contains_key(p)));
        assert(change_at(fin, ini, p) is Some);
        let t = choose|t: int| 0 <= t < r.len() && r[t].path@ == p;
        assert(change_at(fin, ini, r[t].path@) == Some(r[t]@));
    }
}

/// A file present in both snapshots whose size or modification time differs
/// is reported `Modified`, carrying its earlier and its later record.
pub proof fn lemma_compare_modified(
    earlier: DirectorySnapshot,
    later: DirectorySnapshot,
    r: Seq<FileChange>,
    p: Seq<char>,
)
    requires
        earlier.wf(),
        later.wf(),
        earlier.files_map().contains_key(p),
        later.files_map().contains_key(p),
        earlier.files_map()[p] != later.files_map()[p],
        is_diff(r, later.files_map(), earlier.files_map()),
    ensures
        exists|t: int|
            0 <= t < r.len() && (#[trigger] r[t])@ == (
                p,
                ChangeType::Modified,
                Some(earlier.files_map()[p]),
                Some(later.files_map()[p]),
            ),
{
    let fin = later.files_map();
    let ini = earlier.files_map();
    assert(change_at(fin, ini, p) is Some);
    let t = choose|t: int| 0 <= t < r.len() && r[t].path@ == p;
    assert(change_at(fin, ini, r[t].path@) == Some(r[t]@));
}

/// A file with the same size and modification time in both snapshots is not
/// reported, whatever else changed.
pub proof fn lemma_compare_unchanged(
    earlier: DirectorySnapshot,
    later: DirectorySnapshot,
    r: Seq<FileChange>,
    p: Seq<char>,
)
    requires
        earlier.wf(),
        later.wf(),
        earlier.files_map().contains_key(p),
        later.files_map().contains_key(p),
        earlier.files_map()[p] == later.files_map()[p],
        is_diff(r, later.files_map(), earlier.files_map()),
    ensures
        forall|t: int| 0 <= t < r.len() ==> (#[trigger] r[t]).path@ != p,
{
    let fin = later.files_map();
    let ini = earlier.files_map();
    assert forall|t: int| 0 <= t < r.len() implies (#[trigger] r[t]).path@ != p by {
        assert(change_at(fin, ini, r[t].path@) == Some(r[t]@));
    }
}

/// The record of one work session: when its two snapshots were taken and what
/// changed between them.
#[derive(Debug)]
pub struct ChangeReport {
    pub session_start: String,
    pub session_end: String,
    pub changes: Vec<FileChange>,
}

impl ChangeReport {
    /// The report of a session that began with `initial` and ended with
    /// `latest`, or `None` when nothing changed (no report is kept then).
    pub fn for_session(initial: &DirectorySnapshot, latest: &DirectorySnapshot) -> (r: Option<ChangeReport>)
        requires
            initial.wf(),
            latest.wf(),
        ensures
            r is None <==> forall|p: Seq<char>| #[trigger]
                change_at(latest.files_map(), initial.files_map(), p) is None,
            r matches Some(rep) ==> {
                &&& rep.session_start@ == initial.timestamp@
                &&& rep.session_end@ == latest.timestamp@
                &&& is_diff(rep.changes@, latest.files_map(), initial.files_map())
                &&& deletions_last(rep.changes@)
            },
    {
        let changes = latest.compare(initial);
        if changes.len() == 0 {
            None
        } else {
            proof {
                let c = changes@[0];
                assert(change_at(latest.files_map(), initial.files_map(), c.path@) == Some(c@));
            }
            Some(
                ChangeReport {
                    session_start: initial.timestamp.clone(),
                    session_end: latest.timestamp.clone(),
                    changes,
                },
            )
        }
    }
}

} // verus!
