//! Properties that relate several operations of the library.

use crate::handlers::after_track;
use crate::index::{
    entry_rows, has_key, index_of, index_wf, keys_unique, lemma_index_of, lemma_recorded,
    lemma_with_action, live_digest, recorded, value_of, with_action, with_snapshot, IndexModel,
};
use crate::store::{sha256_hex, spec_blob_path};
use crate::types::{ActionModel, AliasModel, TrackModel};
use vstd::prelude::*;

verus! {

/// Capturing the same content twice gives the same digest and the same
/// location for its copy both times; the bytes that a capture hands to the
/// store are the content itself (see `prepare_capture`).
pub proof fn lemma_capture_deterministic(root: Seq<char>, path: Seq<char>, b1: Seq<u8>, b2: Seq<u8>)
    requires
        b1 == b2,
    ensures
        sha256_hex(b1) == sha256_hex(b2),
        spec_blob_path(root, path, sha256_hex(b1)) == spec_blob_path(root, path, sha256_hex(b2)),
{
}

/// Tracking a file again with its content unchanged leaves the index as the
/// first track left it, and the entry holds exactly one snapshot with that
/// content's digest.
pub proof fn lemma_track_idempotent(
    m: IndexModel,
    t: TrackModel,
    d: Seq<char>,
    first: (Seq<char>, Seq<char>),
    second: (Seq<char>, Seq<char>),
)
    requires
        index_wf(m),
    ensures
        after_track(after_track(m, t, d, first), t, d, second) == after_track(m, t, d, first),
        ({
            let snaps = value_of(after_track(m, t, d, first), t.fpath).snapshots;
            &&& has_key(snaps, d)
            &&& forall|i: int, j: int|
                0 <= i < snaps.len() && 0 <= j < snaps.len() && #[trigger] snaps[i].0 == d
                    && #[trigger] snaps[j].0 == d ==> i == j
        }),
{
    let p = t.fpath;
    let m1 = recorded(m, p, t.alias, d, first);
    lemma_recorded(m, p, t.alias, d, first);
    let m2 = with_action_of(m1, t);
    lemma_with_action(m1, p, t.action);
    lemma_recorded(m2, p, t.alias, d, second);
    assert(recorded(m2, p, t.alias, d, second) == m2);
    lemma_with_action(m2, p, t.action);
    let i = index_of(m2, p);
    lemma_index_of(m2, i);
    assert(keys_unique(m2[i].1.snapshots));
}

spec fn with_action_of(m: IndexModel, t: TrackModel) -> IndexModel {
    crate::index::with_action(m, t.fpath, t.action)
}

/// Every snapshot in the index lies where the store under `root` puts the
/// copy of its path and digest.
pub open spec fn store_consistent(m: IndexModel, root: Seq<char>) -> bool {
    forall|k: Seq<char>, d: Seq<char>|
        #![trigger has_key(value_of(m, k).snapshots, d)]
        has_key(m, k) && has_key(value_of(m, k).snapshots, d) ==> value_of(
            value_of(m, k).snapshots,
            d,
        ).1 == spec_blob_path(root, k, d)
}

/// After a track of `path` with content `b1` and a later capture of other
/// content `b2`, selecting the digest of `b1` finds the copy that the first
/// capture stored, which holds `b1`: restoring it puts `b1` back. The index
/// is consistent with the store wherever it was built from captures under
/// `root` (`lemma_empty_store_consistent`,
/// `lemma_track_keeps_store_consistent`,
/// `lemma_capture_keeps_store_consistent`).
pub proof fn lemma_select_after_track(
    m: IndexModel,
    root: Seq<char>,
    t: TrackModel,
    b1: Seq<u8>,
    label1: Seq<char>,
    alias2: AliasModel,
    b2: Seq<u8>,
    label2: Seq<char>,
)
    requires
        index_wf(m),
        store_consistent(m, root),
    ensures
        ({
            let p = t.fpath;
            let d1 = sha256_hex(b1);
            let d2 = sha256_hex(b2);
            let m1 = after_track(m, t, d1, (label1, spec_blob_path(root, p, d1)));
            let m2 = recorded(m1, p, alias2, d2, (label2, spec_blob_path(root, p, d2)));
            &&& has_key(m2, p)
            &&& has_key(value_of(m2, p).snapshots, d1)
            &&& value_of(value_of(m2, p).snapshots, d1).1 == spec_blob_path(root, p, d1)
        }),
{
    let p = t.fpath;
    let d1 = sha256_hex(b1);
    let d2 = sha256_hex(b2);
    let s1 = (label1, spec_blob_path(root, p, d1));
    let s2 = (label2, spec_blob_path(root, p, d2));
    let r1 = recorded(m, p, t.alias, d1, s1);
    lemma_recorded(m, p, t.alias, d1, s1);
    assert(value_of(value_of(r1, p).snapshots, d1).1 == spec_blob_path(root, p, d1)) by {
        if has_key(m, p) && has_key(value_of(m, p).snapshots, d1) {
            assert(r1 == m);
        }
    }
    let m1 = with_action_of(r1, t);
    lemma_with_action(r1, p, t.action);
    let m2 = recorded(m1, p, alias2, d2, s2);
    lemma_recorded(m1, p, alias2, d2, s2);
    assert(has_key(value_of(m1, p).snapshots, d1));
}

/// After a track of `path` with content `b` and no change since, a listing
/// of `path` that reads `b` marks exactly one snapshot as current: the one
/// with the digest of `b`. For every path but the wildcard `*`, these rows
/// are what `list` writes for the path.
pub proof fn lemma_list_marks_capture(
    m: IndexModel,
    t: TrackModel,
    b: Seq<u8>,
    snap: (Seq<char>, Seq<char>),
)
    requires
        index_wf(m),
    ensures
        ({
            let d = sha256_hex(b);
            let m1 = after_track(m, t, d, snap);
            let rows = entry_rows(
                t.fpath,
                value_of(m1, t.fpath).snapshots,
                live_digest(seq![Some(b)], 0),
            );
            &&& exists|i: int| 0 <= i < rows.len() && (#[trigger] rows[i]).3 && rows[i].1 == d
            &&& forall|i: int, j: int|
                0 <= i < rows.len() && 0 <= j < rows.len() && (#[trigger] rows[i]).3 && (
                #[trigger] rows[j]).3 ==> i == j
        }),
{
    let p = t.fpath;
    let d = sha256_hex(b);
    let r1 = recorded(m, p, t.alias, d, snap);
    lemma_recorded(m, p, t.alias, d, snap);
    let m1 = with_action_of(r1, t);
    lemma_with_action(r1, p, t.action);
    let snaps = value_of(m1, p).snapshots;
    let i = index_of(m1, p);
    lemma_index_of(m1, i);
    assert(keys_unique(snaps));
    let rows = entry_rows(p, snaps, live_digest(seq![Some(b)], 0));
    assert(live_digest(seq![Some(b)], 0) == Some(d));
    let k = index_of(snaps, d);
    lemma_index_of(snaps, k);
    assert(rows[k].3 && rows[k].1 == d);
    assert forall|x: int, y: int|
        0 <= x < rows.len() && 0 <= y < rows.len() && (#[trigger] rows[x]).3 && (
        #[trigger] rows[y]).3 implies x == y by {
        assert(snaps[x].0 == d && snaps[y].0 == d);
    }
}

/// An empty index is consistent with any store.
pub proof fn lemma_empty_store_consistent(root: Seq<char>)
    ensures
        store_consistent(Seq::empty(), root),
{
}

/// Recording a capture that `prepare_capture` made under `root` (its copy
/// lies at `spec_blob_path(root, path, d)`) keeps the index consistent with
/// the store under `root`.
pub proof fn lemma_capture_keeps_store_consistent(
    m: IndexModel,
    root: Seq<char>,
    path: Seq<char>,
    alias: AliasModel,
    d: Seq<char>,
    label: Seq<char>,
)
    requires
        index_wf(m),
        store_consistent(m, root),
    ensures
        store_consistent(recorded(m, path, alias, d, (label, spec_blob_path(root, path, d))), root),
{
    let snap = (label, spec_blob_path(root, path, d));
    let r = recorded(m, path, alias, d, snap);
    lemma_recorded(m, path, alias, d, snap);
    assert forall|k: Seq<char>, d2: Seq<char>|
        has_key(r, k) && #[trigger] has_key(value_of(r, k).snapshots, d2) implies value_of(
        value_of(r, k).snapshots,
        d2,
    ).1 == spec_blob_path(root, k, d2) by {
        let j = index_of(r, k);
        lemma_index_of(r, j);
        if has_key(m, path) {
            let i = index_of(m, path);
            lemma_index_of(m, i);
            let e = value_of(m, path);
            let ne = with_snapshot(e, d, snap);
            assert(r[i] == (path, ne));
            lemma_index_of(r, i);
            if k == path {
                assert(value_of(r, path) == ne);
                if has_key(e.snapshots, d2) {
                    assert(value_of(value_of(m, path).snapshots, d2).1 == spec_blob_path(
                        root,
                        path,
                        d2,
                    ));
                } else {
                    assert(!has_key(e.snapshots, d));
                    let q = index_of(ne.snapshots, d2);
                    assert(keys_unique(ne.snapshots)) by {
                        assert(keys_unique(r[i].1.snapshots));
                    }
                    lemma_index_of(ne.snapshots, q);
                    if q < e.snapshots.len() {
                        assert(e.snapshots[q] == ne.snapshots[q]);
                        assert(has_key(e.snapshots, d2));
                    }
                    assert(q == e.snapshots.len());
                    assert(ne.snapshots[q] == (d, snap));
                }
            } else {
                assert(j != i);
                assert(r[j] == m[j]);
                lemma_index_of(m, j);
                assert(value_of(r, k) == value_of(m, k));
            }
        } else {
            let n = m.len() as int;
            lemma_index_of(r, n);
            if k == path {
                let ne = r[n].1;
                assert(value_of(r, path) == ne);
                let q = index_of(ne.snapshots, d2);
                assert(ne.snapshots.len() == 1);
                assert(ne.snapshots[q] == (d, snap));
            } else {
                assert(j < n);
                assert(r[j] == m[j]);
                lemma_index_of(m, j);
                assert(value_of(r, k) == value_of(m, k));
            }
        }
    }
}

/// Setting the action of a tracked path leaves every snapshot where it
/// was, so consistency with the store is kept.
pub proof fn lemma_action_keeps_store_consistent(
    m: IndexModel,
    root: Seq<char>,
    path: Seq<char>,
    a: ActionModel,
)
    requires
        index_wf(m),
        store_consistent(m, root),
    ensures
        store_consistent(with_action(m, path, a), root),
{
    if has_key(m, path) {
        let r = with_action(m, path, a);
        lemma_with_action(m, path, a);
        let i = index_of(m, path);
        lemma_index_of(m, i);
        lemma_index_of(r, i);
        assert forall|k: Seq<char>, d2: Seq<char>|
            has_key(r, k) && #[trigger] has_key(value_of(r, k).snapshots, d2) implies value_of(
            value_of(r, k).snapshots,
            d2,
        ).1 == spec_blob_path(root, k, d2) by {
            let j = index_of(r, k);
            lemma_index_of(r, j);
            assert(r[j].0 == m[j].0);
            lemma_index_of(m, j);
            assert(value_of(r, k).snapshots == value_of(m, k).snapshots);
        }
    }
}

/// A track request whose capture `prepare_capture` made under `root` keeps
/// the index consistent with the store under `root`; with
/// `lemma_empty_store_consistent`, every index built from such captures is
/// consistent, as `lemma_select_after_track` asks.
pub proof fn lemma_track_keeps_store_consistent(
    m: IndexModel,
    root: Seq<char>,
    t: TrackModel,
    d: Seq<char>,
    label: Seq<char>,
)
    requires
        index_wf(m),
        store_consistent(m, root),
    ensures
        store_consistent(after_track(m, t, d, (label, spec_blob_path(root, t.fpath, d))), root),
{
    let snap = (label, spec_blob_path(root, t.fpath, d));
    lemma_capture_keeps_store_consistent(m, root, t.fpath, t.alias, d, label);
    lemma_recorded(m, t.fpath, t.alias, d, snap);
    lemma_action_keeps_store_consistent(
        recorded(m, t.fpath, t.alias, d, snap),
        root,
        t.fpath,
        t.action,
    );
}

/// Capturing a file again with its content unchanged leaves the index as
/// the first capture left it: the digest is known, and a known digest is
/// never overwritten.
pub proof fn lemma_capture_idempotent(
    m: IndexModel,
    path: Seq<char>,
    alias: AliasModel,
    second_alias: AliasModel,
    d: Seq<char>,
    first: (Seq<char>, Seq<char>),
    second: (Seq<char>, Seq<char>),
)
    requires
        index_wf(m),
    ensures
        recorded(recorded(m, path, alias, d, first), path, second_alias, d, second) == recorded(
            m,
            path,
            alias,
            d,
            first,
        ),
{
    lemma_recorded(m, path, alias, d, first);
    lemma_recorded(recorded(m, path, alias, d, first), path, second_alias, d, second);
}

} // verus!
