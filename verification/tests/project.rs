use agentsmd::error::Error;
use agentsmd::project::{has_vcs_dir, project_root, Ancestor};

fn dir(path: &str) -> Ancestor {
    Ancestor {
        path: path.to_string(),
        git: false,
        hg: false,
        svn: false,
        cargo_lock: false,
    }
}

fn git(path: &str) -> Ancestor {
    Ancestor {
        git: true,
        ..dir(path)
    }
}

fn locked(path: &str) -> Ancestor {
    Ancestor {
        cargo_lock: true,
        ..dir(path)
    }
}

#[test]
fn detects_by_git_dir() {
    // The walk starts at the parent of `a/b/c/file.txt`.
    let dirs = vec![
        dir("/tmp/root/a/b/c"),
        dir("/tmp/root/a/b"),
        dir("/tmp/root/a"),
        git("/tmp/root"),
        dir("/tmp"),
        dir("/"),
    ];
    let found = project_root(&dirs).unwrap();
    assert_eq!(found, "/tmp/root");
}

#[test]
fn detects_by_marker_dir() {
    let dirs = vec![dir("/tmp/root/child"), git("/tmp/root"), dir("/tmp"), dir("/")];
    let found = project_root(&dirs).unwrap();
    assert_eq!(found, "/tmp/root");
}

#[test]
fn errors_when_not_found() {
    let dirs = vec![dir("/tmp/root/child"), dir("/tmp/root"), dir("/tmp"), dir("/")];
    let err = project_root(&dirs).unwrap_err();
    match err {
        Error::Root(msg) => assert!(msg.contains("not found")),
        _ => panic!("unexpected error variant"),
    }
}

#[test]
fn detects_by_cargo_lock_when_no_vcs() {
    let dirs = vec![
        dir("/tmp/root/x/y"),
        dir("/tmp/root/x"),
        locked("/tmp/root"),
        dir("/tmp"),
        dir("/"),
    ];
    let found = project_root(&dirs).unwrap();
    assert_eq!(found, "/tmp/root");
}

#[test]
fn prefers_vcs_over_cargo_lock() {
    let both = Ancestor {
        cargo_lock: true,
        ..git("/tmp/root")
    };
    let dirs = vec![dir("/tmp/root/child"), both, dir("/tmp"), dir("/")];
    let found = project_root(&dirs).unwrap();
    assert_eq!(found, "/tmp/root");
}

#[test]
fn a_farther_vcs_root_beats_a_nearer_cargo_lock() {
    let dirs = vec![
        locked("/w/repo/crate/src"),
        locked("/w/repo/crate"),
        git("/w/repo"),
        locked("/w"),
        git("/"),
    ];
    assert_eq!(project_root(&dirs).unwrap(), "/w/repo");
    let dirs = vec![locked("/w/a/b"), locked("/w/a"), dir("/w"), dir("/")];
    assert_eq!(project_root(&dirs).unwrap(), "/w/a/b");
}

#[test]
fn no_directory_is_no_root() {
    match project_root(&Vec::new()).unwrap_err() {
        Error::Root(msg) => assert_eq!(msg, "project root not found"),
        other => panic!("unexpected error: {other:?}"),
    }
}

#[test]
fn each_vcs_directory_marks_a_root() {
    assert!(!has_vcs_dir(&dir("/a")));
    assert!(!has_vcs_dir(&locked("/a")));
    assert!(has_vcs_dir(&git("/a")));
    assert!(has_vcs_dir(&Ancestor {
        hg: true,
        ..dir("/a")
    }));
    assert!(has_vcs_dir(&Ancestor {
        svn: true,
        ..dir("/a")
    }));
    let hg = Ancestor {
        hg: true,
        ..dir("/w/repo")
    };
    assert_eq!(project_root(&vec![dir("/w/repo/x"), hg]).unwrap(), "/w/repo");
}
