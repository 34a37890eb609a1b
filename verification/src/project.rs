//! A project as the guards see it, and the choice of a project's root.
//!
//! The library reads no file system and no process environment. Its caller
//! walks the tree and hands over what it found: the regular files under the
//! root that no ignore rule excludes, and the variables of the environment.

use crate::error::{Error, ErrorView};
use vstd::prelude::*;
use vstd::string::StringExecFns;

verus! {

/// A regular file of the project.
#[derive(Debug, PartialEq, Eq)]
pub struct ProjectFile {
    /// The file's path, relative to the project's root.
    pub path: String,
    /// The extension of the file's name, without its dot, where it has one.
    pub extension: Option<String>,
}

/// A `ProjectFile` with its texts as sequences of characters.
pub struct FileView {
    pub path: Seq<char>,
    pub extension: Option<Seq<char>>,
}

impl View for ProjectFile {
    type V = FileView;

    open spec fn view(&self) -> FileView {
        FileView {
            path: self.path@,
            extension: match self.extension {
                Some(e) => Some(e@),
                None => None,
            },
        }
    }
}

/// A variable of the environment and its value.
#[derive(Debug, PartialEq, Eq)]
pub struct EnvVar {
    pub name: String,
    pub value: String,
}

/// What the guards of a template are evaluated against.
#[derive(Debug, PartialEq, Eq)]
pub struct Project {
    /// The regular files under the root, in the order in which they were found.
    pub files: Vec<ProjectFile>,
    /// The environment. Of two entries with one name, the first counts.
    pub env: Vec<EnvVar>,
}

/// A `Project` as a mathematical value.
pub struct ProjectView {
    pub files: Seq<FileView>,
    pub env: Seq<(Seq<char>, Seq<char>)>,
}

impl View for Project {
    type V = ProjectView;

    open spec fn view(&self) -> ProjectView {
        ProjectView {
            files: Seq::new(self.files@.len(), |k: int| self.files@[k]@),
            env: Seq::new(self.env@.len(), |k: int| (self.env@[k].name@, self.env@[k].value@)),
        }
    }
}

/// The value of the first entry of `env` that is named `name`.
pub open spec fn env_lookup(env: Seq<(Seq<char>, Seq<char>)>, name: Seq<char>) -> Option<Seq<char>>
    decreases env.len(),
{
    if env.len() == 0 {
        None
    } else if env[0].0 == name {
        Some(env[0].1)
    } else {
        env_lookup(env.drop_first(), name)
    }
}

impl ProjectView {
    /// The value of the environment variable `name`, where it is set.
    pub open spec fn var(self, name: Seq<char>) -> Option<Seq<char>> {
        env_lookup(self.env, name)
    }
}

impl Project {
    /// A project with these files and this environment.
    pub fn new(files: Vec<ProjectFile>, env: Vec<EnvVar>) -> (p: Project)
        ensures
            p.files == files,
            p.env == env,
    {
        Project { files, env }
    }

    /// The value of the environment variable `name`, where it is set.
    pub fn var(&self, name: &String) -> (r: Option<&String>)
        ensures
            match r {
                Some(v) => self@.var(name@) == Some(v@),
                None => self@.var(name@) is None,
            },
    {
        let mut k: usize = 0;
        assert(self@.env.subrange(0, self@.env.len() as int) =~= self@.env);
        while k < self.env.len()
            invariant
                k <= self.env.len(),
                self@.var(name@) == env_lookup(
                    self@.env.subrange(k as int, self@.env.len() as int),
                    name@,
                ),
            decreases self.env.len() - k,
        {
            let ghost rest = self@.env.subrange(k as int, self@.env.len() as int);
            assert(rest[0] == self@.env[k as int]);
            assert(rest.drop_first() =~= self@.env.subrange(k + 1, self@.env.len() as int));
            if self.env[k].name == *name {
                return Some(&self.env[k].value);
            }
            k += 1;
        }
        None
    }
}

/// The markers of a project root that a directory holds.
#[derive(Debug, PartialEq, Eq)]
pub struct Ancestor {
    /// The directory's path.
    pub path: String,
    /// Whether it holds a directory `.git`.
    pub git: bool,
    /// Whether it holds a directory `.hg`.
    pub hg: bool,
    /// Whether it holds a directory `.svn`.
    pub svn: bool,
    /// Whether it holds a file `Cargo.lock`.
    pub cargo_lock: bool,
}

impl Ancestor {
    /// Whether the directory holds the directory of a version control system.
    pub open spec fn is_vcs_root(self) -> bool {
        self.git || self.hg || self.svn
    }
}

/// Whether `dir` holds the directory of a version control system.
pub fn has_vcs_dir(dir: &Ancestor) -> (b: bool)
    ensures
        b == dir.is_vcs_root(),
{
    dir.git || dir.hg || dir.svn
}

/// `k` is the index of the nearest directory under version control.
pub open spec fn nearest_vcs_root(dirs: Seq<Ancestor>, k: int) -> bool {
    &&& 0 <= k < dirs.len()
    &&& dirs[k].is_vcs_root()
    &&& forall|j: int| 0 <= j < k ==> !(#[trigger] dirs[j]).is_vcs_root()
}

/// `k` is the index of the nearest directory that holds a `Cargo.lock`.
pub open spec fn nearest_cargo_lock(dirs: Seq<Ancestor>, k: int) -> bool {
    &&& 0 <= k < dirs.len()
    &&& dirs[k].cargo_lock
    &&& forall|j: int| 0 <= j < k ==> !(#[trigger] dirs[j]).cargo_lock
}

/// The index of the directory that is the project's root: the nearest one
/// under version control or, where none is, the nearest with a `Cargo.lock`.
pub open spec fn root_index(dirs: Seq<Ancestor>) -> Option<int> {
    if exists|k: int| nearest_vcs_root(dirs, k) {
        Some(choose|k: int| nearest_vcs_root(dirs, k))
    } else if exists|k: int| nearest_cargo_lock(dirs, k) {
        Some(choose|k: int| nearest_cargo_lock(dirs, k))
    } else {
        None
    }
}

/// The nearest directory with a mark is one directory.
pub proof fn lemma_nearest_unique(dirs: Seq<Ancestor>, a: int, b: int)
    ensures
        nearest_vcs_root(dirs, a) && nearest_vcs_root(dirs, b) ==> a == b,
        nearest_cargo_lock(dirs, a) && nearest_cargo_lock(dirs, b) ==> a == b,
{
    if nearest_vcs_root(dirs, a) && nearest_vcs_root(dirs, b) {
        if a < b {
            assert(!dirs[a].is_vcs_root());
        } else if b < a {
            assert(!dirs[b].is_vcs_root());
        }
    }
    if nearest_cargo_lock(dirs, a) && nearest_cargo_lock(dirs, b) {
        if a < b {
            assert(!dirs[a].cargo_lock);
        } else if b < a {
            assert(!dirs[b].cargo_lock);
        }
    }
}

/// The message of the error that reports that no root was found.
pub open spec fn root_not_found() -> ErrorView {
    ErrorView::Root("project root not found"@)
}

/// The root of the project among `dirs`, which are the directory to start
/// from and its ancestors, nearest first.
pub fn project_root(dirs: &Vec<Ancestor>) -> (r: Result<String, Error>)
    ensures
        match r {
            Ok(path) => root_index(dirs@) is Some && path@ == dirs@[root_index(dirs@)->0].path@,
            Err(e) => root_index(dirs@) is None && e@ == root_not_found(),
        },
{
    let mut candidate: Option<usize> = None;
    let mut k: usize = 0;
    while k < dirs.len()
        invariant
            k <= dirs.len(),
            forall|j: int| 0 <= j < k ==> !(#[trigger] dirs@[j]).is_vcs_root(),
            match candidate {
                Some(c) => nearest_cargo_lock(dirs@, c as int) && c < k,
                None => forall|j: int| 0 <= j < k ==> !(#[trigger] dirs@[j]).cargo_lock,
            },
        decreases dirs.len() - k,
    {
        if has_vcs_dir(&dirs[k]) {
            proof {
                assert(nearest_vcs_root(dirs@, k as int));
                lemma_nearest_unique(dirs@, k as int, root_index(dirs@)->0);
            }
            return Ok(dirs[k].path.clone());
        }
        if dirs[k].cargo_lock && candidate.is_none() {
            candidate = Some(k);
        }
        k += 1;
    }
    assert forall|j: int| !nearest_vcs_root(dirs@, j) by {
        if 0 <= j < dirs@.len() {
            assert(!dirs@[j].is_vcs_root());
        }
    }
    match candidate {
        Some(c) => {
            proof {
                lemma_nearest_unique(dirs@, c as int, root_index(dirs@)->0);
            }
            Ok(dirs[c].path.clone())
        },
        None => {
            assert forall|j: int| !nearest_cargo_lock(dirs@, j) by {
                if 0 <= j < dirs@.len() {
                    assert(!dirs@[j].cargo_lock);
                }
            }
            Err(Error::Root(String::from_str("project root not found")))
        },
    }
}

} // verus!
