use del::paths::{file_name, is_ancestor_or_self, join, parent};
use std::path::{Path, PathBuf};

const PATHS: &[&str] = &[
    "", "/", "//", "/a", "/a/", "/a/b", "/a//b", "/a/./b", "/a/../b", "a", "a/b", "./a", ".",
    "..", "../a", "a/.", "/etc", "/etc/hosts", "/etcetera", "/home/user/.trash", "/home/user",
    "x/y/z/", "./", "a/./", "/..",
];

#[test]
fn prefix_test_agrees_with_strip_prefix() {
    for base in PATHS {
        for path in PATHS {
            let expected = Path::new(path).strip_prefix(base).is_ok();
            assert_eq!(is_ancestor_or_self(base, path), expected, "{base:?} of {path:?}");
        }
    }
}

#[test]
fn protection_points_upward() {
    assert!(is_ancestor_or_self("/etc", "/etc"));
    assert!(is_ancestor_or_self("/", "/etc"));
    assert!(!is_ancestor_or_self("/etc/hosts", "/etc"));
    assert!(!is_ancestor_or_self("/etc", "/etcetera"));
}

#[test]
fn file_name_agrees_with_std() {
    for p in PATHS {
        let expected = Path::new(p).file_name().map(|n| n.to_str().unwrap().to_string());
        assert_eq!(file_name(p), expected, "{p:?}");
    }
}

#[test]
fn parent_agrees_with_std_as_a_path() {
    for p in PATHS {
        let expected = Path::new(p).parent();
        let got = parent(p);
        match (expected, got) {
            (None, None) => {}
            (Some(e), Some(g)) => {
                let ec: Vec<_> = e.components().collect();
                let gc: Vec<_> = Path::new(&g).components().collect();
                assert_eq!(ec, gc, "{p:?}");
            }
            (e, g) => panic!("{p:?}: {e:?} vs {g:?}"),
        }
    }
}

#[test]
fn parent_of_canonical_paths_is_exact() {
    assert_eq!(parent("/home/user/report.txt"), Some("/home/user".to_string()));
    assert_eq!(parent("/report.txt"), Some("/".to_string()));
    assert_eq!(parent("/"), None);
    assert_eq!(parent("note"), Some(String::new()));
    assert_eq!(parent(""), None);
}

#[test]
fn join_agrees_with_std() {
    for dir in PATHS {
        for part in ["x", "x/y", "/abs", "", "a.bak"] {
            let expected = PathBuf::from(dir).join(part);
            assert_eq!(join(dir, part), expected.to_str().unwrap(), "{dir:?} + {part:?}");
        }
    }
}
