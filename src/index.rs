//! The index of tracked files: for each tracked path, its action, its alias
//! policy and the snapshots seen of it. Paths and snapshots keep the order in
//! which they were added: the order of capture while the daemon runs, the
//! order of the index file after a reload.

use crate::store::{digest_of, sha256_hex};
use crate::types::{Action, ActionModel, Alias, AliasModel, Error};
use vstd::prelude::*;

verus! {

/// No key occurs twice in an association list.
pub open spec fn keys_unique<K, V>(s: Seq<(K, V)>) -> bool {
    forall|i: int, j: int|
        0 <= i < s.len() && 0 <= j < s.len() && #[trigger] s[i].0 == #[trigger] s[j].0 ==> i == j
}

/// Whether `k` occurs as a key in an association list.
pub open spec fn has_key<K, V>(s: Seq<(K, V)>, k: K) -> bool {
    exists|i: int| 0 <= i < s.len() && #[trigger] s[i].0 == k
}

/// Where `k` stands in an association list that holds it.
pub open spec fn index_of<K, V>(s: Seq<(K, V)>, k: K) -> int {
    choose|i: int| 0 <= i < s.len() && #[trigger] s[i].0 == k
}

/// The value of `k` in an association list that holds it.
pub open spec fn value_of<K, V>(s: Seq<(K, V)>, k: K) -> V {
    s[index_of(s, k)].1
}

/// In an association list without repeated keys, the key at `i` is found
/// at `i`, with the value stored there.
pub proof fn lemma_index_of<K, V>(s: Seq<(K, V)>, i: int)
    requires
        keys_unique(s),
        0 <= i < s.len(),
    ensures
        has_key(s, s[i].0),
        index_of(s, s[i].0) == i,
        value_of(s, s[i].0) == s[i].1,
{
    let k = s[i].0;
    assert(has_key(s, k));
    let j = index_of(s, k);
    assert(s[j].0 == s[i].0);
}

/// A snapshot's label and the location of its copy.
pub type SnapshotModel = (Seq<char>, (Seq<char>, Seq<char>));

/// One captured version of a tracked file.
#[derive(Debug)]
pub struct Snapshot {
    /// The digest of the captured content; the snapshot's identity.
    pub digest: String,
    /// A readable name for the snapshot.
    pub label: String,
    /// Where the copy of the content lies.
    pub blob: String,
}

impl View for Snapshot {
    /// The digest, then the label and the copy's location.
    type V = SnapshotModel;

    open spec fn view(&self) -> SnapshotModel {
        (self.digest@, (self.label@, self.blob@))
    }
}

impl Clone for Snapshot {
    fn clone(&self) -> (r: Self)
        ensures
            r == *self,
    {
        Snapshot { digest: self.digest.clone(), label: self.label.clone(), blob: self.blob.clone() }
    }
}

/// The model of an [`Entry`]: its snapshots keyed by digest, in the order
/// in which they were captured.
pub struct EntryModel {
    pub action: ActionModel,
    pub alias: AliasModel,
    pub snapshots: Seq<SnapshotModel>,
}

/// What the index holds of one tracked path.
#[derive(Debug)]
pub struct Entry {
    snapshots: Vec<Snapshot>,
    action: Action,
    alias: Alias,
}

impl View for Entry {
    type V = EntryModel;

    closed spec fn view(&self) -> EntryModel {
        EntryModel {
            action: self.action@,
            alias: self.alias@,
            snapshots: self.snapshots@.map_values(|s: Snapshot| s@),
        }
    }
}

impl Entry {
    #[verifier::type_invariant]
    spec fn inv(&self) -> bool {
        keys_unique(self@.snapshots)
    }

    /// An entry with no snapshot yet.
    pub fn new(action: Action, alias: Alias) -> (r: Entry)
        ensures
            r@ == (EntryModel { action: action@, alias: alias@, snapshots: seq![] }),
    {
        let r = Entry { snapshots: Vec::new(), action, alias };
        assert(r@.snapshots =~= seq![]);
        r
    }

    pub fn action(&self) -> (r: &Action)
        ensures
            r@ == self@.action,
    {
        &self.action
    }

    pub fn alias(&self) -> (r: &Alias)
        ensures
            r@ == self@.alias,
    {
        &self.alias
    }

    /// The snapshots, in the order in which they were captured.
    pub fn snapshots(&self) -> (r: &Vec<Snapshot>)
        ensures
            r@.map_values(|s: Snapshot| s@) == self@.snapshots,
    {
        &self.snapshots
    }

    /// Appends to `rows` one row per snapshot of the entry of `path`, in the
    /// order of capture, each marked current where its digest is `live`.
    pub fn push_rows(&self, rows: &mut Vec<ListRow>, path: &String, live: &Option<String>)
        ensures
            rows_view(final(rows)@) == rows_view(old(rows)@) + entry_rows(
                path@,
                self@.snapshots,
                match live {
                    Some(d) => Some(d@),
                    None => None,
                },
            ),
    {
        let ghost l = match live {
            Some(d) => Some(d@),
            None => None,
        };
        let mut j: usize = 0;
        while j < self.snapshots.len()
            invariant
                j <= self.snapshots@.len(),
                l == match live {
                    Some(d) => Some(d@),
                    None => None,
                },
                rows_view(rows@) == rows_view(old(rows)@) + entry_rows(
                    path@,
                    self@.snapshots.take(j as int),
                    l,
                ),
            decreases self.snapshots@.len() - j,
        {
            let s = &self.snapshots[j];
            let current = match live {
                Some(d) => *d == s.digest,
                None => false,
            };
            assert(self@.snapshots[j as int] == s@);
            assert(current == (l == Some(s@.0)));
            let ghost before = rows@;
            rows.push(
                ListRow {
                    path: path.clone(),
                    digest: s.digest.clone(),
                    label: s.label.clone(),
                    current,
                },
            );
            assert(rows_view(rows@) =~= rows_view(before).push((path@, s@.0, s@.1.0, current)));
            assert(self@.snapshots.take(j + 1) =~= self@.snapshots.take(j as int).push(s@));
            assert(rows_view(rows@) =~= rows_view(old(rows)@) + entry_rows(
                path@,
                self@.snapshots.take(j + 1),
                l,
            ));
            j = j + 1;
        }
        assert(self@.snapshots.take(j as int) =~= self@.snapshots);
    }

    fn find_snapshot(&self, digest: &String) -> (r: Option<usize>)
        ensures
            match r {
                Some(i) => i < self@.snapshots.len() && self@.snapshots[i as int].0 == digest@,
                None => !has_key(self@.snapshots, digest@),
            },
    {
        let mut i: usize = 0;
        while i < self.snapshots.len()
            invariant
                i <= self.snapshots@.len(),
                forall|j: int| 0 <= j < i ==> #[trigger] self@.snapshots[j].0 != digest@,
            decreases self.snapshots@.len() - i,
        {
            if self.snapshots[i].digest == *digest {
                return Some(i);
            }
            i = i + 1;
        }
        None
    }

    /// Adds `s` unless a snapshot with its digest is there; says whether it
    /// was added.
    fn add_snapshot(&mut self, s: Snapshot) -> (added: bool)
        ensures
            added == !has_key(old(self)@.snapshots, s@.0),
            final(self)@ == (if added {
                EntryModel { snapshots: old(self)@.snapshots.push(s@), ..old(self)@ }
            } else {
                old(self)@
            }),
            keys_unique(final(self)@.snapshots),
    {
        proof {
            use_type_invariant(&*self);
        }
        if self.find_snapshot(&s.digest).is_some() {
            return false;
        }
        let ghost v = s@;
        let mut snaps: Vec<Snapshot> = Vec::new();
        std::mem::swap(&mut snaps, &mut self.snapshots);
        snaps.push(s);
        proof {
            lemma_push_unique(old(self)@.snapshots, v.0, v.1);
        }
        assert(snaps@.map_values(|x: Snapshot| x@) =~= old(self)@.snapshots.push(v));
        self.snapshots = snaps;
        true
    }

    fn set_action(&mut self, action: Action)
        ensures
            final(self)@ == (EntryModel { action: action@, ..old(self)@ }),
            keys_unique(final(self)@.snapshots),
    {
        proof {
            use_type_invariant(&*self);
        }
        self.action = action;
    }

    /// Adds a snapshot read back from storage; a second snapshot with the
    /// same digest is refused as a sign of a corrupt index.
    pub fn insert_snapshot(&mut self, s: Snapshot) -> (r: Result<(), Error>)
        ensures
            has_key(old(self)@.snapshots, s@.0) ==> (r matches Err(Error::IndexCorrupt(_))
                && final(self)@ == old(self)@),
            !has_key(old(self)@.snapshots, s@.0) ==> r is Ok && final(self)@ == (EntryModel {
                snapshots: old(self)@.snapshots.push(s@),
                ..old(self)@
            }),
    {
        if self.add_snapshot(s) {
            Ok(())
        } else {
            Err(Error::IndexCorrupt(String::from_str("a digest occurs twice")))
        }
    }
}

/// Appending a new key keeps the keys of an association list distinct.
pub proof fn lemma_push_unique<K, V>(s: Seq<(K, V)>, k: K, v: V)
    requires
        keys_unique(s),
        !has_key(s, k),
    ensures
        keys_unique(s.push((k, v))),
{
    let t = s.push((k, v));
    assert forall|a: int, b: int|
        0 <= a < t.len() && 0 <= b < t.len() && #[trigger] t[a].0 == #[trigger] t[b].0 implies a
        == b by {
        if a < s.len() && b < s.len() {
            assert(s[a].0 == s[b].0);
        } else if a < s.len() {
            assert(s[a].0 == k);
        } else if b < s.len() {
            assert(s[b].0 == k);
        }
    }
}

/// Replacing a value under its key keeps the keys distinct.
pub proof fn lemma_update_unique<K, V>(s: Seq<(K, V)>, i: int, v: V)
    requires
        keys_unique(s),
        0 <= i < s.len(),
    ensures
        keys_unique(s.update(i, (s[i].0, v))),
{
    let t = s.update(i, (s[i].0, v));
    assert forall|a: int, b: int|
        0 <= a < t.len() && 0 <= b < t.len() && #[trigger] t[a].0 == #[trigger] t[b].0 implies a
        == b by {
        assert(s[a].0 == t[a].0 && s[b].0 == t[b].0);
    }
}

/// The entry after a capture with digest `d`: a digest already known is
/// left as it is.
pub open spec fn with_snapshot(e: EntryModel, d: Seq<char>, snap: (Seq<char>, Seq<char>)) -> EntryModel {
    if has_key(e.snapshots, d) {
        e
    } else {
        EntryModel { snapshots: e.snapshots.push((d, snap)), ..e }
    }
}

/// The model of the index: tracked paths with their entries, in the order
/// in which they were first tracked.
pub type IndexModel = Seq<(Seq<char>, EntryModel)>;

/// No path occurs twice, and no entry holds two snapshots with one digest.
pub open spec fn index_wf(m: IndexModel) -> bool {
    &&& keys_unique(m)
    &&& forall|i: int| 0 <= i < m.len() ==> keys_unique(#[trigger] m[i].1.snapshots)
}

/// The index after a capture of `path` with digest `d`: a new path gets an
/// entry with the save action and the given alias policy; a known one keeps
/// its entry, with the snapshot added unless its digest is known.
pub open spec fn recorded(
    m: IndexModel,
    path: Seq<char>,
    alias: AliasModel,
    d: Seq<char>,
    snap: (Seq<char>, Seq<char>),
) -> IndexModel {
    if has_key(m, path) {
        m.update(index_of(m, path), (path, with_snapshot(value_of(m, path), d, snap)))
    } else {
        m.push(
            (path, EntryModel { action: ActionModel::Save, alias: alias, snapshots: seq![(d, snap)] }),
        )
    }
}

/// The index with the action of `path` replaced, where `path` is tracked.
pub open spec fn with_action(m: IndexModel, path: Seq<char>, a: ActionModel) -> IndexModel {
    if has_key(m, path) {
        m.update(index_of(m, path), (path, EntryModel { action: a, ..value_of(m, path) }))
    } else {
        m
    }
}

/// The index: every tracked path with its entry. It is always well formed
/// (`index_wf`): no path occurs twice, and no entry holds two snapshots
/// with one digest.
#[derive(Debug)]
pub struct State {
    files: Vec<(String, Entry)>,
}

/// The model of a list of tracked paths with their entries.
pub open spec fn files_view(files: Seq<(String, Entry)>) -> IndexModel {
    files.map_values(|p: (String, Entry)| (p.0@, p.1@))
}

impl View for State {
    type V = IndexModel;

    closed spec fn view(&self) -> IndexModel {
        files_view(self.files@)
    }
}

fn find_path(files: &Vec<(String, Entry)>, path: &String) -> (r: Option<usize>)
    ensures
        match r {
            Some(i) => i < files@.len() && files_view(files@)[i as int].0 == path@,
            None => !has_key(files_view(files@), path@),
        },
{
    let mut i: usize = 0;
    while i < files.len()
        invariant
            i <= files@.len(),
            forall|j: int| 0 <= j < i ==> #[trigger] files_view(files@)[j].0 != path@,
        decreases files@.len() - i,
    {
        if files[i].0 == *path {
            return Some(i);
        }
        i = i + 1;
    }
    None
}

impl State {
    #[verifier::type_invariant]
    spec fn inv(&self) -> bool {
        index_wf(self@)
    }

    /// An empty index.
    pub fn new() -> (r: State)
        ensures
            r@ == Seq::<(Seq<char>, EntryModel)>::empty(),
    {
        let r = State { files: Vec::new() };
        assert(r@ =~= Seq::<(Seq<char>, EntryModel)>::empty());
        r
    }

    /// The tracked paths with their entries, in the order in which they were
    /// first tracked.
    pub fn entries(&self) -> (r: &Vec<(String, Entry)>)
        ensures
            files_view(r@) == self@,
    {
        &self.files
    }

    /// The entry of `path`, where it is tracked.
    pub fn entry_for(&self, path: &String) -> (r: Option<&Entry>)
        ensures
            has_key(self@, path@) ==> (r matches Some(e) && e@ == value_of(self@, path@)),
            !has_key(self@, path@) ==> r is None,
    {
        proof {
            use_type_invariant(self);
        }
        match find_path(&self.files, path) {
            Some(i) => {
                proof {
                    lemma_index_of(self@, i as int);
                }
                Some(&self.files[i].1)
            },
            None => None,
        }
    }

    /// Adds an entry read back from storage; a path that is already there is
    /// refused as a sign of a corrupt index.
    pub fn insert_entry(&mut self, path: String, entry: Entry) -> (r: Result<(), Error>)
        ensures
            has_key(old(self)@, path@) ==> (r matches Err(Error::IndexCorrupt(_)) && final(self)@
                == old(self)@),
            !has_key(old(self)@, path@) ==> r is Ok && final(self)@ == old(self)@.push(
                (path@, entry@),
            ),
    {
        proof {
            use_type_invariant(&*self);
            use_type_invariant(&entry);
        }
        if find_path(&self.files, &path).is_some() {
            return Err(Error::IndexCorrupt(String::from_str("a path occurs twice")));
        }
        let ghost v = (path@, entry@);
        let mut files: Vec<(String, Entry)> = Vec::new();
        std::mem::swap(&mut files, &mut self.files);
        files.push((path, entry));
        proof {
            let m = old(self)@;
            let nm = files_view(files@);
            lemma_push_unique(m, v.0, v.1);
            assert(nm =~= m.push(v));
            assert forall|j: int| 0 <= j < nm.len() implies keys_unique(
                #[trigger] nm[j].1.snapshots,
            ) by {
                if j < m.len() {
                    assert(nm[j] == m[j]);
                    assert(keys_unique(m[j].1.snapshots));
                } else {
                    assert(nm[j] == v);
                }
            }
        }
        self.files = files;
        Ok(())
    }

    /// Records a capture of `path`: a new path gets an entry with the save
    /// action and the alias policy given; a digest already recorded for the
    /// path is never overwritten.
    pub fn record_snapshot(
        &mut self,
        path: &String,
        alias: &Alias,
        digest: &String,
        label: &String,
        blob: &String,
    )
        ensures
            final(self)@ == recorded(old(self)@, path@, alias@, digest@, (label@, blob@)),
    {
        proof {
            use_type_invariant(&*self);
        }
        let ghost m = old(self)@;
        let snap = Snapshot { digest: digest.clone(), label: label.clone(), blob: blob.clone() };
        let mut files: Vec<(String, Entry)> = Vec::new();
        std::mem::swap(&mut files, &mut self.files);
        assert(files_view(files@) == m);
        match find_path(&files, path) {
            Some(i) => {
                proof {
                    lemma_index_of(m, i as int);
                }
                let ghost e = m[i as int].1;
                let ghost sv = snap@;
                files[i].1.add_snapshot(snap);
                proof {
                    let ne = with_snapshot(e, digest@, (label@, blob@));
                    let nm = files_view(files@);
                    assert(sv == (digest@, (label@, blob@)));
                    assert(nm[i as int].1 == ne);
                    assert(keys_unique(nm[i as int].1.snapshots));
                    assert(nm =~= m.update(i as int, (path@, ne)));
                    lemma_update_unique(m, i as int, ne);
                    assert forall|j: int| 0 <= j < nm.len() implies keys_unique(
                        #[trigger] nm[j].1.snapshots,
                    ) by {
                        if j != i {
                            assert(nm[j] == m[j]);
                        }
                    }
                }
                self.files = files;
            },
            None => {
                let mut e = Entry::new(Action::Save, alias.clone());
                e.add_snapshot(snap);
                let ghost v = (path@, e@);
                assert(e@.snapshots =~= seq![(digest@, (label@, blob@))]);
                assert(keys_unique(v.1.snapshots));
                files.push((path.clone(), e));
                proof {
                    let nm = files_view(files@);
                    lemma_push_unique(m, v.0, v.1);
                    assert(nm =~= m.push(v));
                    assert forall|j: int| 0 <= j < nm.len() implies keys_unique(
                        #[trigger] nm[j].1.snapshots,
                    ) by {
                        if j < m.len() {
                            assert(nm[j] == m[j]);
                            assert(keys_unique(m[j].1.snapshots));
                        } else {
                            assert(nm[j] == v);
                            assert(keys_unique(v.1.snapshots));
                        }
                    }
                }
                self.files = files;
            },
        }
    }

    /// Replaces the action of `path`, where it is tracked.
    pub fn set_action(&mut self, path: &String, action: &Action)
        ensures
            final(self)@ == with_action(old(self)@, path@, action@),
    {
        proof {
            use_type_invariant(&*self);
        }
        let ghost m = old(self)@;
        let mut files: Vec<(String, Entry)> = Vec::new();
        std::mem::swap(&mut files, &mut self.files);
        assert(files_view(files@) == m);
        match find_path(&files, path) {
            Some(i) => {
                proof {
                    lemma_index_of(m, i as int);
                }
                files[i].1.set_action(action.clone());
                proof {
                    let ne = EntryModel { action: action@, ..value_of(m, path@) };
                    let nm = files_view(files@);
                    assert(nm =~= m.update(i as int, (path@, ne)));
                    lemma_update_unique(m, i as int, ne);
                    assert forall|j: int| 0 <= j < nm.len() implies keys_unique(
                        #[trigger] nm[j].1.snapshots,
                    ) by {
                        assert(keys_unique(m[j].1.snapshots));
                    }
                }
                self.files = files;
            },
            None => {
                self.files = files;
            },
        }
    }

    /// The location of the copy of the snapshot of `path` with `digest`.
    pub fn snapshot_blob(&self, path: &String, digest: &String) -> (r: Result<String, Error>)
        ensures
            match r {
                Ok(b) => has_key(self@, path@) && has_key(value_of(self@, path@).snapshots, digest@)
                    && b@ == value_of(value_of(self@, path@).snapshots, digest@).1,
                Err(e) => e is NotFound && !(has_key(self@, path@) && has_key(
                    value_of(self@, path@).snapshots,
                    digest@,
                )),
            },
    {
        proof {
            use_type_invariant(self);
        }
        let i = match find_path(&self.files, path) {
            Some(i) => i,
            None => return Err(Error::NotFound(String::from_str("no such tracked file"))),
        };
        proof {
            lemma_index_of(self@, i as int);
        }
        let e = &self.files[i].1;
        match e.find_snapshot(digest) {
            Some(j) => {
                proof {
                    assert(keys_unique(self@[i as int].1.snapshots));
                    lemma_index_of(e@.snapshots, j as int);
                }
                Ok(e.snapshots[j].blob.clone())
            },
            None => Err(Error::NotFound(String::from_str("no such file version"))),
        }
    }

    /// The tracked paths, in the order in which they were first tracked.
    pub fn tracked_paths(&self) -> (r: Vec<String>)
        ensures
            r@.len() == self@.len(),
            forall|i: int| 0 <= i < r@.len() ==> #[trigger] r@[i]@ == self@[i].0,
    {
        let mut r: Vec<String> = Vec::new();
        let mut i: usize = 0;
        while i < self.files.len()
            invariant
                i <= self.files@.len(),
                r@.len() == i,
                forall|j: int| 0 <= j < i ==> #[trigger] r@[j]@ == self@[j].0,
            decreases self.files@.len() - i,
        {
            r.push(self.files[i].0.clone());
            i = i + 1;
        }
        r
    }

    /// The files whose live content a listing of `pattern` compares with
    /// the snapshots: every tracked path for the wildcard, else `pattern`.
    pub fn list_sources(&self, pattern: &String) -> (r: Vec<String>)
        ensures
            is_wildcard(pattern@) ==> r@.len() == self@.len() && forall|i: int|
                0 <= i < r@.len() ==> #[trigger] r@[i]@ == self@[i].0,
            !is_wildcard(pattern@) ==> r@.len() == 1 && r@[0]@ == pattern@,
    {
        if wildcard(pattern) {
            self.tracked_paths()
        } else {
            let mut r: Vec<String> = Vec::new();
            r.push(pattern.clone());
            r
        }
    }

    /// The listing of `pattern`: every snapshot of every tracked path for
    /// the wildcard, else every snapshot of the path `pattern`. `live[i]` is
    /// what could be read of the `i`-th file that `list_sources` names; a row
    /// is marked current where its digest is that of the live content.
    pub fn list_rows(&self, pattern: &String, live: &Vec<Option<Vec<u8>>>) -> (r: Result<
        Vec<ListRow>,
        Error,
    >)
        ensures
            is_wildcard(pattern@) ==> (r matches Ok(rows) && rows_view(rows@) == index_rows(
                self@,
                lives_view(live@),
            )),
            !is_wildcard(pattern@) && has_key(self@, pattern@) ==> (r matches Ok(rows) && rows_view(
                rows@,
            ) == entry_rows(
                pattern@,
                value_of(self@, pattern@).snapshots,
                live_digest(lives_view(live@), 0),
            )),
            !is_wildcard(pattern@) && !has_key(self@, pattern@) ==> (r matches Err(e)
                && e is NotFound),
    {
        proof {
            use_type_invariant(self);
        }
        let ghost lives = lives_view(live@);
        let mut rows: Vec<ListRow> = Vec::new();
        if wildcard(pattern) {
            let mut i: usize = 0;
            while i < self.files.len()
                invariant
                    i <= self.files@.len(),
                    lives == lives_view(live@),
                    rows_view(rows@) == index_rows(self@.take(i as int), lives),
                decreases self.files@.len() - i,
            {
                let d = live_digest_at(live, i);
                self.files[i].1.push_rows(&mut rows, &self.files[i].0, &d);
                assert(self@.take(i + 1).drop_last() =~= self@.take(i as int));
                i = i + 1;
            }
            assert(self@.take(i as int) =~= self@);
            Ok(rows)
        } else {
            match find_path(&self.files, pattern) {
                Some(i) => {
                    proof {
                        lemma_index_of(self@, i as int);
                    }
                    let d = live_digest_at(live, 0);
                    self.files[i].1.push_rows(&mut rows, &self.files[i].0, &d);
                    Ok(rows)
                },
                None => Err(Error::NotFound(String::from_str("no such tracked file"))),
            }
        }
    }
}

/// Whether a listing pattern is the wildcard, which stands for every
/// tracked path.
pub open spec fn is_wildcard(p: Seq<char>) -> bool {
    p == seq!['*']
}

fn wildcard(p: &String) -> (r: bool)
    ensures
        r == is_wildcard(p@),
{
    let s = p.as_str();
    if s.unicode_len() == 1 {
        let c = s.get_char(0);
        assert(c == '*' ==> s@ =~= seq!['*']);
        c == '*'
    } else {
        false
    }
}

/// One line of a listing.
#[derive(Debug)]
pub struct ListRow {
    pub path: String,
    pub digest: String,
    pub label: String,
    /// Whether the digest is that of the file's live content.
    pub current: bool,
}

/// A row's path, digest, label and mark.
pub type RowModel = (Seq<char>, Seq<char>, Seq<char>, bool);

impl View for ListRow {
    type V = RowModel;

    open spec fn view(&self) -> RowModel {
        (self.path@, self.digest@, self.label@, self.current)
    }
}

pub open spec fn rows_view(rows: Seq<ListRow>) -> Seq<RowModel> {
    rows.map_values(|r: ListRow| r@)
}

pub open spec fn lives_view(live: Seq<Option<Vec<u8>>>) -> Seq<Option<Seq<u8>>> {
    live.map_values(
        |o: Option<Vec<u8>>|
            match o {
                Some(c) => Some(c@),
                None => None,
            },
    )
}

/// The digest of the `i`-th live content, where there is one.
pub open spec fn live_digest(lives: Seq<Option<Seq<u8>>>, i: int) -> Option<Seq<char>> {
    if 0 <= i < lives.len() {
        match lives[i] {
            Some(c) => Some(sha256_hex(c)),
            None => None,
        }
    } else {
        None
    }
}

/// The rows of one tracked path's snapshots, in the order of capture.
pub open spec fn entry_rows(
    path: Seq<char>,
    snaps: Seq<SnapshotModel>,
    live: Option<Seq<char>>,
) -> Seq<RowModel> {
    snaps.map_values(|s: SnapshotModel| (path, s.0, s.1.0, live == Some(s.0)))
}

/// The rows of every tracked path, path after path.
pub open spec fn index_rows(m: IndexModel, lives: Seq<Option<Seq<u8>>>) -> Seq<RowModel>
    decreases m.len(),
{
    if m.len() == 0 {
        seq![]
    } else {
        index_rows(m.drop_last(), lives) + entry_rows(
            m.last().0,
            m.last().1.snapshots,
            live_digest(lives, m.len() - 1),
        )
    }
}

fn live_digest_at(live: &Vec<Option<Vec<u8>>>, i: usize) -> (r: Option<String>)
    ensures
        r matches Some(d) ==> live_digest(lives_view(live@), i as int) == Some(d@),
        r is None ==> live_digest(lives_view(live@), i as int) is None,
{
    if i < live.len() {
        match &live[i] {
            Some(c) => Some(digest_of(c.as_slice())),
            None => None,
        }
    } else {
        None
    }
}

/// What a capture does to the index: it stays well formed, the path and the
/// digest are known afterwards, an index that knew both is unchanged, and
/// otherwise the digest maps to the new snapshot.
pub proof fn lemma_recorded(
    m: IndexModel,
    path: Seq<char>,
    alias: AliasModel,
    d: Seq<char>,
    snap: (Seq<char>, Seq<char>),
)
    requires
        index_wf(m),
    ensures
        ({
            let r = recorded(m, path, alias, d, snap);
            &&& index_wf(r)
            &&& has_key(r, path)
            &&& has_key(value_of(r, path).snapshots, d)
            &&& has_key(m, path) && has_key(value_of(m, path).snapshots, d) ==> r == m
            &&& !(has_key(m, path) && has_key(value_of(m, path).snapshots, d)) ==> value_of(
                value_of(r, path).snapshots,
                d,
            ) == snap
            &&& has_key(m, path) ==> forall|k: Seq<char>|
                #![trigger has_key(value_of(m, path).snapshots, k)]
                has_key(value_of(m, path).snapshots, k) ==> has_key(value_of(r, path).snapshots, k)
                    && value_of(value_of(r, path).snapshots, k) == value_of(
                    value_of(m, path).snapshots,
                    k,
                )
        }),
{
    let r = recorded(m, path, alias, d, snap);
    if has_key(m, path) {
        let i = index_of(m, path);
        lemma_index_of(m, i);
        let e = value_of(m, path);
        assert(keys_unique(m[i].1.snapshots));
        let ne = with_snapshot(e, d, snap);
        assert(r[i] == (path, ne));
        assert forall|a: int, b: int|
            0 <= a < r.len() && 0 <= b < r.len() && #[trigger] r[a].0 == #[trigger] r[b].0 implies a
            == b by {
            assert(m[a].0 == r[a].0 && m[b].0 == r[b].0);
        }
        if has_key(e.snapshots, d) {
            assert(ne == e);
            assert(r =~= m);
        } else {
            let n = e.snapshots.len() as int;
            assert forall|a: int, b: int|
                0 <= a < ne.snapshots.len() && 0 <= b < ne.snapshots.len()
                    && #[trigger] ne.snapshots[a].0 == #[trigger] ne.snapshots[b].0 implies a
                == b by {
                if a < n && b < n {
                } else if a < n {
                    assert(e.snapshots[a].0 == d);
                } else if b < n {
                    assert(e.snapshots[b].0 == d);
                }
            }
            lemma_index_of(ne.snapshots, n);
            assert forall|k: Seq<char>| #[trigger] has_key(e.snapshots, k) implies has_key(
                ne.snapshots,
                k,
            ) && value_of(ne.snapshots, k) == value_of(e.snapshots, k) by {
                let j = index_of(e.snapshots, k);
                lemma_index_of(e.snapshots, j);
                assert(ne.snapshots[j] == e.snapshots[j]);
                lemma_index_of(ne.snapshots, j);
            }
        }
        lemma_index_of(r, i);
        assert(forall|j: int| 0 <= j < r.len() && j != i ==> r[j] == m[j]);
        assert(keys_unique(ne.snapshots));
        assert forall|j: int| 0 <= j < r.len() implies keys_unique(#[trigger] r[j].1.snapshots) by {
            if j != i {
                assert(r[j] == m[j]);
                assert(keys_unique(m[j].1.snapshots));
            }
        }
    } else {
        let n = m.len() as int;
        assert forall|a: int, b: int|
            0 <= a < r.len() && 0 <= b < r.len() && #[trigger] r[a].0 == #[trigger] r[b].0 implies a
            == b by {
            if a < n && b < n {
            } else if a < n {
                assert(m[a].0 == path);
            } else if b < n {
                assert(m[b].0 == path);
            }
        }
        lemma_index_of(r, n);
        let snaps = r[n].1.snapshots;
        assert(snaps[0].0 == d);
        lemma_index_of(snaps, 0);
        assert forall|j: int| 0 <= j < r.len() implies keys_unique(#[trigger] r[j].1.snapshots) by {
            if j < n {
                assert(r[j] == m[j]);
                assert(keys_unique(m[j].1.snapshots));
            }
        }
    }
}

/// What setting an action does to the index: it stays well formed, the
/// entry of `path` takes the action and keeps the rest, and setting the
/// action that an entry already has changes nothing.
pub proof fn lemma_with_action(m: IndexModel, path: Seq<char>, a: ActionModel)
    requires
        index_wf(m),
        has_key(m, path),
    ensures
        ({
            let r = with_action(m, path, a);
            &&& index_wf(r)
            &&& has_key(r, path)
            &&& value_of(r, path) == (EntryModel { action: a, ..value_of(m, path) })
            &&& value_of(m, path).action == a ==> r == m
        }),
{
    let r = with_action(m, path, a);
    let i = index_of(m, path);
    lemma_index_of(m, i);
    assert forall|x: int, y: int|
        0 <= x < r.len() && 0 <= y < r.len() && #[trigger] r[x].0 == #[trigger] r[y].0 implies x
        == y by {
        assert(m[x].0 == r[x].0 && m[y].0 == r[y].0);
    }
    assert(forall|j: int| 0 <= j < r.len() && j != i ==> r[j] == m[j]);
    lemma_index_of(r, i);
    assert forall|j: int| 0 <= j < r.len() implies keys_unique(#[trigger] r[j].1.snapshots) by {
        assert(keys_unique(m[j].1.snapshots));
    }
    if value_of(m, path).action == a {
        assert(r =~= m);
    }
}

} // verus!
