use fwatch::daemon::{load_index, next_step, plan_action, renews_watch, Plan, Step, WatchTable};
use fwatch::handlers::{
    action_name, alias_name, list, prepare_capture, select, tagged, track_commit, track_message,
};
use fwatch::index::{Entry, Snapshot, State};
use fwatch::types::{Action, Alias, Error, Track};

const ROOT: &str = "/store";

fn s(x: &str) -> String {
    x.to_string()
}

fn track_with(state: &mut State, path: &str, contents: &[u8], action: Action) -> String {
    let t = Track { fpath: s(path), alias: Alias::Basename, action };
    let cap = prepare_capture(ROOT, &t.fpath, &t.alias, Ok(contents.to_vec()), None).unwrap();
    track_commit(state, &t, &cap)
}

#[test]
fn new_index_is_empty() {
    let st = State::new();
    assert!(st.entries().is_empty());
    assert!(st.tracked_paths().is_empty());
    assert!(st.entry_for(&s("/a")).is_none());
}

#[test]
fn track_creates_entry_with_one_snapshot() {
    let mut st = State::new();
    let msg = track_with(&mut st, "/tmp/a.txt", b"v1", Action::Save);
    assert_eq!(msg, "Added /tmp/a.txt with action SAVE and alias method BASENAME to tracked files");
    let e = st.entry_for(&s("/tmp/a.txt")).unwrap();
    assert_eq!(e.snapshots().len(), 1);
    let snap = &e.snapshots()[0];
    assert_eq!(snap.label, "a.txt");
    assert_eq!(snap.digest, fwatch::store::digest_of(b"v1"));
    assert_eq!(snap.blob, format!("/store//tmp/a.txt-{}", snap.digest));
}

#[test]
fn tracking_unchanged_file_twice_keeps_one_snapshot() {
    let mut st = State::new();
    track_with(&mut st, "/tmp/a.txt", b"same", Action::Save);
    track_with(&mut st, "/tmp/a.txt", b"same", Action::Save);
    assert_eq!(st.entries().len(), 1);
    assert_eq!(st.entry_for(&s("/tmp/a.txt")).unwrap().snapshots().len(), 1);
}

#[test]
fn known_digest_is_not_overwritten() {
    let mut st = State::new();
    st.record_snapshot(&s("/p"), &Alias::Basename, &s("d"), &s("first"), &s("b1"));
    st.record_snapshot(&s("/p"), &Alias::Basename, &s("d"), &s("second"), &s("b2"));
    let e = st.entry_for(&s("/p")).unwrap();
    assert_eq!(e.snapshots().len(), 1);
    assert_eq!(e.snapshots()[0].label, "first");
    assert_eq!(e.snapshots()[0].blob, "b1");
}

#[test]
fn track_sets_action_of_existing_entry() {
    let mut st = State::new();
    track_with(&mut st, "/p", b"1", Action::Save);
    let msg = track_with(&mut st, "/p", b"2", Action::Script(s("/bin/hook")));
    assert_eq!(msg, "Added /p with action SCRIPT(\"/bin/hook\") and alias method BASENAME to tracked files");
    let e = st.entry_for(&s("/p")).unwrap();
    assert!(matches!(e.action(), Action::Script(x) if x == "/bin/hook"));
    assert_eq!(e.snapshots().len(), 2);
}

#[test]
fn new_entry_takes_requested_alias() {
    let mut st = State::new();
    st.record_snapshot(&s("/p"), &Alias::Name(s("n")), &s("d"), &s("n"), &s("b"));
    let e = st.entry_for(&s("/p")).unwrap();
    assert!(matches!(e.alias(), Alias::Name(x) if x == "n"));
    assert!(matches!(e.action(), Action::Save));
}

#[test]
fn tracked_paths_keep_first_track_order() {
    let mut st = State::new();
    track_with(&mut st, "/b", b"1", Action::Save);
    track_with(&mut st, "/a", b"1", Action::Save);
    track_with(&mut st, "/b", b"2", Action::Save);
    assert_eq!(st.tracked_paths(), vec![s("/b"), s("/a")]);
    assert_eq!(st.list_sources(&s("*")), vec![s("/b"), s("/a")]);
    assert_eq!(st.list_sources(&s("/a")), vec![s("/a")]);
}

#[test]
fn list_unknown_path_is_not_found() {
    let st = State::new();
    let r = list(&st, &s("nonexistent-path"), &vec![None]);
    assert!(matches!(r, Err(Error::NotFound(_))));
}

#[test]
fn select_unknown_digest_is_not_found() {
    let mut st = State::new();
    track_with(&mut st, "tracked-path", b"x", Action::Save);
    assert!(matches!(select(&st, &s("tracked-path"), &s("bogus-digest")), Err(Error::NotFound(_))));
    assert!(matches!(select(&st, &s("other-path"), &s("bogus-digest")), Err(Error::NotFound(_))));
}

#[test]
fn list_single_path_marks_live_match() {
    let mut st = State::new();
    track_with(&mut st, "/p", b"one", Action::Save);
    track_with(&mut st, "/p", b"two", Action::Save);
    let d1 = fwatch::store::digest_of(b"one");
    let d2 = fwatch::store::digest_of(b"two");
    let out = list(&st, &s("/p"), &vec![Some(b"one".to_vec())]).unwrap();
    assert_eq!(out, format!("/p {} (p) *\n/p {} (p)\n", d1, d2));
    let unreadable = list(&st, &s("/p"), &vec![None]).unwrap();
    assert_eq!(unreadable, format!("/p {} (p)\n/p {} (p)\n", d1, d2));
}

#[test]
fn list_wildcard_lists_every_path() {
    let mut st = State::new();
    track_with(&mut st, "/x", b"1", Action::Save);
    track_with(&mut st, "/y", b"2", Action::Save);
    let d1 = fwatch::store::digest_of(b"1");
    let d2 = fwatch::store::digest_of(b"2");
    let out = list(&st, &s("*"), &vec![None, Some(b"2".to_vec())]).unwrap();
    assert_eq!(out, format!("/x {} (x)\n/y {} (y) *\n", d1, d2));
    let empty = list(&State::new(), &s("*"), &vec![]).unwrap();
    assert_eq!(empty, "");
}

#[test]
fn insert_entry_refuses_duplicate_path() {
    let mut st = State::new();
    assert!(st.insert_entry(s("/p"), Entry::new(Action::Save, Alias::Basename)).is_ok());
    let r = st.insert_entry(s("/p"), Entry::new(Action::Save, Alias::Basename));
    assert!(matches!(r, Err(Error::IndexCorrupt(_))));
    assert_eq!(st.entries().len(), 1);
}

#[test]
fn insert_snapshot_refuses_duplicate_digest() {
    let mut e = Entry::new(Action::Save, Alias::Basename);
    let snap = Snapshot { digest: s("d"), label: s("l"), blob: s("b") };
    assert!(e.insert_snapshot(snap.clone()).is_ok());
    assert!(matches!(e.insert_snapshot(snap), Err(Error::IndexCorrupt(_))));
    assert_eq!(e.snapshots().len(), 1);
}

#[test]
fn capture_reports_unreadable_file() {
    let r = prepare_capture(ROOT, &s("/p"), &Alias::Basename, Err(s("permission denied")), None);
    assert!(matches!(r, Err(Error::Io(m)) if m == "permission denied"));
}

#[test]
fn capture_hands_content_to_store() {
    let cap = prepare_capture(ROOT, &s("/p"), &Alias::Basename, Ok(b"data".to_vec()), None).unwrap();
    assert_eq!(cap.contents, b"data".to_vec());
    assert_eq!(cap.digest, fwatch::store::digest_of(b"data"));
    assert_eq!(cap.label, "p");
}

#[test]
fn load_index_falls_back_to_empty() {
    let st = load_index(Err(Error::IndexCorrupt(s("bad json"))));
    assert!(st.entries().is_empty());
    let mut kept = State::new();
    track_with(&mut kept, "/p", b"1", Action::Save);
    assert_eq!(load_index(Ok(kept)).entries().len(), 1);
}

#[test]
fn next_step_decisions() {
    assert!(matches!(next_step(true, true, true), Step::Exit));
    assert!(matches!(next_step(false, false, false), Step::Continue { reload_index: false, rewatch: false }));
    assert!(matches!(next_step(true, false, false), Step::Continue { reload_index: false, rewatch: true }));
    assert!(matches!(next_step(false, false, true), Step::Continue { reload_index: true, rewatch: true }));
    assert!(renews_watch(true, true));
    assert!(!renews_watch(false, true));
    assert!(!renews_watch(true, false));
}

#[test]
fn plan_follows_entry_action() {
    let mut st = State::new();
    track_with(&mut st, "/p", b"1", Action::Save);
    track_with(&mut st, "/q", b"1", Action::Script(s("/bin/hook")));
    assert!(matches!(plan_action(&st, &s("/p")), Ok(Plan::Capture(Alias::Basename))));
    assert!(matches!(plan_action(&st, &s("/q")), Ok(Plan::Spawn(x)) if x == "/bin/hook"));
    assert!(matches!(plan_action(&st, &s("/r")), Err(Error::NotFound(_))));
}

#[test]
fn watch_table_insert_and_renew() {
    let mut w = WatchTable::new();
    assert_eq!(w.path_of(1), None);
    w.insert(1, &s("/a"));
    w.insert(2, &s("/b"));
    w.insert(1, &s("/c"));
    assert_eq!(w.path_of(1), Some(s("/c")));
    assert_eq!(w.path_of(2), Some(s("/b")));
    w.renew(1, 7, &s("/c"));
    assert_eq!(w.path_of(1), None);
    assert_eq!(w.path_of(7), Some(s("/c")));
    assert_eq!(w.path_of(2), Some(s("/b")));
    w.renew(9, 9, &s("/d"));
    assert_eq!(w.path_of(9), Some(s("/d")));
}

#[test]
fn track_message_names_policies_in_debug_form() {
    assert_eq!(action_name(&Action::Save), "SAVE");
    assert_eq!(action_name(&Action::Script(s("/bin/x"))), "SCRIPT(\"/bin/x\")");
    assert_eq!(alias_name(&Alias::Basename), "BASENAME");
    assert_eq!(alias_name(&Alias::Script(s("/bin/l"))), "SCRIPT(\"/bin/l\")");
    let odd = s("a\"b\\c\nd");
    assert_eq!(alias_name(&Alias::Name(odd.clone())), format!("NAME({:?})", odd));
    assert_eq!(alias_name(&Alias::Name(odd)), "NAME(\"a\\\"b\\\\c\\nd\")");
    assert_eq!(tagged("NAME", "\"x\""), "NAME(\"x\")");
    assert_eq!(
        track_message("/f", "SAVE", "NAME(\"n\")"),
        "Added /f with action SAVE and alias method NAME(\"n\") to tracked files"
    );
}

#[test]
fn track_message_with_name_alias() {
    let mut st = State::new();
    let t = Track { fpath: s("/etc/app.conf"), alias: Alias::Name(s("app")), action: Action::Script(s("/bin/hook")) };
    let cap = prepare_capture(ROOT, &t.fpath, &t.alias, Ok(b"x".to_vec()), None).unwrap();
    assert_eq!(
        track_commit(&mut st, &t, &cap),
        "Added /etc/app.conf with action SCRIPT(\"/bin/hook\") and alias method NAME(\"app\") to tracked files"
    );
}
