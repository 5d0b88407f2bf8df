use fwatch::alias::{basename, resolve_label, trim, ScriptRun};
use fwatch::store::{blob_path, digest_of};
use fwatch::types::{Alias, Error};

const EMPTY_SHA256: &str = "e3b0c44298fc1c149afbf4c8996fb92427ae41e4649b934ca495991b7852b855";
const ABC_SHA256: &str = "ba7816bf8f01cfea414140de5dae2223b00361a396177a9cb410ff61f20015ad";

#[test]
fn digest_of_known_contents() {
    assert_eq!(digest_of(b""), EMPTY_SHA256);
    assert_eq!(digest_of(b"abc"), ABC_SHA256);
}

#[test]
fn digest_is_deterministic_and_content_addressed() {
    let a = digest_of(b"v1");
    let b = digest_of(b"v1");
    let c = digest_of(b"v2");
    assert_eq!(a, b);
    assert_ne!(a, c);
    assert_eq!(a.len(), 64);
    assert!(a.chars().all(|ch| ch.is_ascii_hexdigit() && !ch.is_ascii_uppercase()));
}

#[test]
fn blob_path_joins_root_path_and_digest() {
    assert_eq!(blob_path("/var/run/fwatch/index.d", "/tmp/a.txt", "abc"), "/var/run/fwatch/index.d//tmp/a.txt-abc");
    assert_eq!(blob_path("store", "notes", "d"), "store/notes-d");
}

#[test]
fn basename_follows_path_components() {
    let cases: Vec<(&str, Option<&str>)> = vec![
        ("/tmp/a.txt", Some("a.txt")),
        ("a.txt", Some("a.txt")),
        ("foo.txt/.", Some("foo.txt")),
        ("foo.txt/.//", Some("foo.txt")),
        ("dir/", Some("dir")),
        ("/", None),
        ("", None),
        (".", None),
        ("./", None),
        ("/.", None),
        ("a/..", None),
        ("..", None),
        ("./b", Some("b")),
        ("/a/.b", Some(".b")),
        ("/a/...", Some("...")),
    ];
    for (p, want) in cases {
        assert_eq!(basename(p).as_deref(), want, "path {:?}", p);
        assert_eq!(std::path::Path::new(p).file_name().and_then(|s| s.to_str()), want, "std on {:?}", p);
    }
}

#[test]
fn trim_removes_white_space_at_both_ends() {
    assert_eq!(trim("  label\n"), "label");
    assert_eq!(trim("\t a b \u{3000}"), "a b");
    assert_eq!(trim("   "), "");
    assert_eq!(trim(""), "");
    assert_eq!(trim("x"), "x");
    for s in ["  label\n", "\u{85}x\u{a0}", " \u{2009} y z \u{205f}"] {
        assert_eq!(trim(s), s.trim());
    }
}

#[test]
fn label_from_basename() {
    let r = resolve_label(&"/tmp/a.txt".to_string(), &Alias::Basename, None);
    assert_eq!(r.unwrap(), "a.txt");
    let r = resolve_label(&"/".to_string(), &Alias::Basename, None);
    assert!(matches!(r, Err(Error::Alias(_))));
}

#[test]
fn label_from_fixed_name() {
    let r = resolve_label(&"/tmp/a.txt".to_string(), &Alias::Name("config".to_string()), None);
    assert_eq!(r.unwrap(), "config");
}

#[test]
fn label_from_script_output() {
    let alias = Alias::Script("/bin/label".to_string());
    let path = "/tmp/a.txt".to_string();
    let ok = Some(Ok(ScriptRun { success: true, stdout: b"  release-1\n".to_vec() }));
    assert_eq!(resolve_label(&path, &alias, ok).unwrap(), "release-1");
    let failed = Some(Ok(ScriptRun { success: false, stdout: b"x".to_vec() }));
    assert!(matches!(resolve_label(&path, &alias, failed), Err(Error::Script(_))));
    let binary = Some(Ok(ScriptRun { success: true, stdout: vec![0xff, 0xfe] }));
    assert!(matches!(resolve_label(&path, &alias, binary), Err(Error::Script(_))));
    let not_started = Some(Err("no such program".to_string()));
    match resolve_label(&path, &alias, not_started) {
        Err(Error::Script(m)) => assert_eq!(m, "no such program"),
        other => panic!("unexpected {:?}", other),
    }
    assert!(matches!(resolve_label(&path, &alias, None), Err(Error::Script(_))));
}
