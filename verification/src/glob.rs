//! `exists(pattern)`: whether a file of the project matches a glob pattern.
//!
//! Patterns are parsed and matched by the `globset` crate. What that crate
//! makes of a pattern and of a path is not restated here: it is named, and
//! the contracts in this module speak of those names.

use crate::error::{Error, ErrorView};
use crate::project::{FileView, Project};
use globset::{Glob, GlobBuilder, GlobSet, GlobSetBuilder};
use vstd::prelude::*;
use vstd::string::StringExecFns;

verus! {

/// `globset::Glob`, a pattern that parsed.
#[verifier::external_type_specification]
#[verifier::external_body]
pub struct ExGlob(Glob);

/// `globset::GlobSet`, patterns that are ready to be matched together.
#[verifier::external_type_specification]
#[verifier::external_body]
pub struct ExGlobSet(GlobSet);

/// Why `globset` refuses to parse `pattern` for case-sensitive matching, with
/// its other options as they are by default: the text of its error, or
/// `None` where it parses.
pub uninterp spec fn glob_parse_failure(pattern: Seq<char>) -> Option<Seq<char>>;

/// The text that `glob` was parsed from, which `Glob::glob` returns, where
/// it was parsed as `glob_parse_failure` says; `None` for a glob that was
/// parsed with other options.
pub uninterp spec fn glob_pattern(glob: Glob) -> Option<Seq<char>>;

/// Why `globset` cannot build a set of `patterns`, each parsed as
/// `glob_parse_failure` says: the text of its error, or `None` where it can.
pub uninterp spec fn glob_set_failure(patterns: Seq<Seq<char>>) -> Option<Seq<char>>;

/// The texts of the patterns that `set` was built from, in order, where each
/// was parsed as `glob_parse_failure` says; `None` for any other set.
pub uninterp spec fn glob_set_patterns(set: GlobSet) -> Option<Seq<Seq<char>>>;

/// Whether `pattern`, parsed as `glob_parse_failure` says, matches `path`
/// according to `globset`. As in `globset`, the answer goes by the path
/// conventions of the platform that the library is built for.
pub uninterp spec fn glob_matches(pattern: Seq<char>, path: Seq<char>) -> bool;

/// `GlobBuilder::new(pattern)`, `case_insensitive` and `build`. The claim is
/// made of case-sensitive parsing only: it fails exactly on the patterns
/// that `glob_parse_failure` names, with the error whose text that is, and
/// else yields a `Glob` that remembers `pattern`.
#[verifier::external_body]
fn parse_glob(pattern: &str, case_insensitive: bool) -> (r: Result<Glob, String>)
    requires
        !case_insensitive,
    ensures
        match r {
            Ok(glob) => glob_parse_failure(pattern@) is None && glob_pattern(glob) == Some(
                pattern@,
            ),
            Err(why) => glob_parse_failure(pattern@) == Some(why@),
        },
{
    match GlobBuilder::new(pattern).case_insensitive(case_insensitive).build() {
        Ok(glob) => Ok(glob),
        Err(e) => Err(e.to_string()),
    }
}

/// `GlobSetBuilder::new()`, one `add` and `build`. It fails exactly where
/// `glob_set_failure` says so for the one pattern, with the error whose
/// text that is, and else yields the set of that pattern.
#[verifier::external_body]
fn single_glob_set(glob: Glob) -> (r: Result<GlobSet, String>)
    requires
        glob_pattern(glob) is Some,
    ensures
        match r {
            Ok(set) => glob_set_failure(seq![glob_pattern(glob)->0]) is None && glob_set_patterns(
                set,
            ) == Some(seq![glob_pattern(glob)->0]),
            Err(why) => glob_set_failure(seq![glob_pattern(glob)->0]) == Some(why@),
        },
{
    let mut builder = GlobSetBuilder::new();
    builder.add(glob);
    match builder.build() {
        Ok(set) => Ok(set),
        Err(e) => Err(e.to_string()),
    }
}

/// `GlobSet::is_match`: whether any pattern of the set matches the path.
#[verifier::external_body]
fn glob_set_is_match(set: &GlobSet, path: &str) -> (b: bool)
    requires
        glob_set_patterns(*set) is Some,
    ensures
        b == (exists|k: int|
            0 <= k < glob_set_patterns(*set)->0.len() && glob_matches(
                #[trigger] glob_set_patterns(*set)->0[k],
                path@,
            )),
{
    set.is_match(path)
}

/// Whether `pattern` matches the path of some file among `files`.
pub open spec fn matches_any(pattern: Seq<char>, files: Seq<FileView>) -> bool {
    exists|k: int| 0 <= k < files.len() && glob_matches(pattern, #[trigger] files[k].path)
}

/// What `exists(pattern)` comes to on a project with these files.
pub open spec fn exists_outcome(pattern: Seq<char>, files: Seq<FileView>) -> Result<
    bool,
    ErrorView,
> {
    match glob_parse_failure(pattern) {
        Some(why) => Err(ErrorView::Template("invalid exists() pattern: "@ + why)),
        None => match glob_set_failure(seq![pattern]) {
            Some(why) => Err(ErrorView::Template("glob build failed: "@ + why)),
            None => Ok(matches_any(pattern, files)),
        },
    }
}

/// Whether a file of `project` matches the glob `pattern`.
pub fn exists_match(project: &Project, pattern: &str) -> (r: Result<bool, Error>)
    ensures
        match r {
            Ok(b) => exists_outcome(pattern@, project@.files) == Ok::<bool, ErrorView>(b),
            Err(e) => exists_outcome(pattern@, project@.files) == Err::<bool, ErrorView>(e@),
        },
{
    let glob = match parse_glob(pattern, false) {
        Ok(g) => g,
        Err(why) => {
            return Err(
                Error::Template(
                    String::from_str("invalid exists() pattern: ").concat(why.as_str()),
                ),
            );
        },
    };
    let set = match single_glob_set(glob) {
        Ok(s) => s,
        Err(why) => {
            return Err(
                Error::Template(String::from_str("glob build failed: ").concat(why.as_str())),
            );
        },
    };
    let mut k: usize = 0;
    while k < project.files.len()
        invariant
            k <= project.files.len(),
            glob_parse_failure(pattern@) is None,
            glob_set_failure(seq![pattern@]) is None,
            glob_set_patterns(set) == Some(seq![pattern@]),
            forall|j: int|
                0 <= j < k ==> !glob_matches(pattern@, #[trigger] project@.files[j].path),
        decreases project.files.len() - k,
    {
        let hit = glob_set_is_match(&set, project.files[k].path.as_str());
        proof {
            let held = glob_set_patterns(set)->0;
            assert(held[0] == pattern@);
            assert(project@.files[k as int].path == project.files[k as int].path@);
        }
        if hit {
            return Ok(true);
        }
        k += 1;
    }
    Ok(false)
}

} // verus!
