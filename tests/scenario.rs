use fwatch::daemon::{plan_action, Plan};
use fwatch::handlers::{list, prepare_capture, restore_message, select, track_commit};
use fwatch::index::State;
use fwatch::store::digest_of;
use fwatch::types::{Action, Alias, Request, Track};
use fwatch::wire::{decode_request, encode_request};

const ROOT: &str = "/var/run/fwatch/index.d";

/// The simulated file system: the tracked file and the store's copies.
struct Disk {
    live: Vec<u8>,
    blobs: Vec<(String, Vec<u8>)>,
}

impl Disk {
    fn blob(&self, at: &str) -> Vec<u8> {
        self.blobs.iter().find(|(p, _)| p == at).map(|(_, c)| c.clone()).unwrap()
    }
}

#[test]
fn end_to_end_track_change_list_select() {
    let path = "/tmp/a.txt".to_string();
    let mut disk = Disk { live: b"v1".to_vec(), blobs: vec![] };
    let mut state = State::new();

    // Client sends Track; the daemon decodes and handles it.
    let req = Track { fpath: path.clone(), alias: Alias::Basename, action: Action::Save };
    let wire = encode_request(&Request::Track(req));
    let track = match decode_request(&wire).unwrap() {
        Request::Track(t) => t,
        other => panic!("unexpected {:?}", other),
    };
    let cap = prepare_capture(ROOT, &track.fpath, &track.alias, Ok(disk.live.clone()), None).unwrap();
    disk.blobs.push((cap.blob.clone(), cap.contents.clone()));
    let reply = track_commit(&mut state, &track, &cap);
    assert!(reply.contains("/tmp/a.txt"));
    assert_eq!(state.entries().len(), 1);
    assert_eq!(state.entry_for(&path).unwrap().snapshots().len(), 1);
    let first = cap.digest.clone();

    // The file changes to v2 and the change action runs.
    disk.live = b"v2".to_vec();
    let alias = match plan_action(&state, &path).unwrap() {
        Plan::Capture(a) => a,
        other => panic!("unexpected {:?}", other),
    };
    let cap2 = prepare_capture(ROOT, &path, &alias, Ok(disk.live.clone()), None).unwrap();
    disk.blobs.push((cap2.blob.clone(), cap2.contents.clone()));
    state.record_capture(&path, &alias, &cap2);
    assert_eq!(state.entry_for(&path).unwrap().snapshots().len(), 2);

    // List shows both digests, the one of v2 marked current.
    let sources = state.list_sources(&path);
    let live: Vec<Option<Vec<u8>>> = sources.iter().map(|_| Some(disk.live.clone())).collect();
    let out = list(&state, &path, &live).unwrap();
    let d2 = digest_of(b"v2");
    assert_eq!(out, format!("/tmp/a.txt {} (a.txt)\n/tmp/a.txt {} (a.txt) *\n", first, d2));

    // Select the first digest: restoring its copy brings v1 back.
    let restore = select(&state, &path, &first).unwrap();
    assert_eq!(restore.target, path);
    disk.live = disk.blob(&restore.blob);
    assert_eq!(disk.live, b"v1".to_vec());
    assert_eq!(restore_message(&restore), format!("Selected {} ==> /tmp/a.txt", restore.blob));
}

#[test]
fn list_after_track_marks_exactly_one() {
    let mut state = State::new();
    let t = Track { fpath: "/etc/app.conf".to_string(), alias: Alias::Name("app".to_string()), action: Action::Save };
    for content in [b"a".to_vec(), b"b".to_vec(), b"c".to_vec()] {
        let cap = prepare_capture(ROOT, &t.fpath, &t.alias, Ok(content), None).unwrap();
        track_commit(&mut state, &t, &cap);
    }
    let out = list(&state, &t.fpath, &vec![Some(b"c".to_vec())]).unwrap();
    assert_eq!(out.lines().count(), 3);
    let marked: Vec<&str> = out.lines().filter(|l| l.ends_with(" *")).collect();
    assert_eq!(marked.len(), 1);
    assert!(marked[0].contains(&digest_of(b"c")));
}

#[test]
fn select_after_change_restores_tracked_bytes() {
    let path = "/srv/data.bin".to_string();
    let first_bytes: Vec<u8> = vec![0, 159, 146, 150, 255];
    let mut state = State::new();
    let t = Track { fpath: path.clone(), alias: Alias::Basename, action: Action::Save };
    let cap = prepare_capture(ROOT, &path, &t.alias, Ok(first_bytes.clone()), None).unwrap();
    let stored = cap.contents.clone();
    track_commit(&mut state, &t, &cap);
    let changed = prepare_capture(ROOT, &path, &t.alias, Ok(b"changed".to_vec()), None).unwrap();
    state.record_capture(&path, &t.alias, &changed);
    let restore = select(&state, &path, &digest_of(&first_bytes)).unwrap();
    assert_eq!(restore.blob, cap.blob);
    assert_eq!(stored, first_bytes);
}

#[test]
fn entry_rows_take_digest_as_given() {
    let mut state = State::new();
    state.record_snapshot(&"/p".to_string(), &Alias::Basename, &"d1".to_string(), &"one".to_string(), &"b1".to_string());
    state.record_snapshot(&"/p".to_string(), &Alias::Basename, &"d2".to_string(), &"two".to_string(), &"b2".to_string());
    let entry = state.entry_for(&"/p".to_string()).unwrap();
    let mut rows = Vec::new();
    entry.push_rows(&mut rows, &"/p".to_string(), &Some("d2".to_string()));
    let marks: Vec<(String, bool)> = rows.iter().map(|r| (r.digest.clone(), r.current)).collect();
    assert_eq!(marks, vec![("d1".to_string(), false), ("d2".to_string(), true)]);
    assert_eq!(fwatch::handlers::render_rows(&rows), "/p d1 (one)\n/p d2 (two) *\n");
    let mut none = Vec::new();
    entry.push_rows(&mut none, &"/p".to_string(), &None);
    assert!(none.iter().all(|r| !r.current));
}
