//! `lang(name)`: whether a file of the project has an extension of a language.
//!
//! The languages and their extensions come from the registry of the
//! `languages` crate. What the registry holds is not restated here: it is
//! named, and the contracts in this module speak of that name.

use crate::error::{Error, ErrorView};
use crate::project::{FileView, Project};
use crate::text::{same_chars, to_chars};
use vstd::prelude::*;
use vstd::string::StringExecFns;

verus! {

/// What the registry holds under `name`: `None` where it knows no such
/// language, else the extensions it lists for it, each as it is written
/// there, or `None` where it lists none.
pub uninterp spec fn language_extensions(name: Seq<char>) -> Option<Option<Seq<Seq<char>>>>;

/// `languages::from_name`, and of the language found its field `extensions`.
/// The result is what `language_extensions` names.
#[verifier::external_body]
fn registry_extensions(name: &str) -> (r: Option<Option<&'static [&'static str]>>)
    ensures
        r.deep_view() == language_extensions(name@),
{
    match languages::from_name(name) {
        Some(language) => Some(language.extensions),
        None => None,
    }
}

/// `c` in ASCII lower case: `A` to `Z` become `a` to `z`, all else stays.
pub open spec fn ascii_lower(c: char) -> char {
    if 'A' <= c <= 'Z' {
        ((c as u8) + 32) as char
    } else {
        c
    }
}

/// `s` with each character in ASCII lower case.
pub open spec fn lowered(s: Seq<char>) -> Seq<char> {
    Seq::new(s.len(), |k: int| ascii_lower(s[k]))
}

/// A listed extension as it is compared: without its leading dot, in lower case.
pub open spec fn normal_extension(listed: Seq<char>) -> Seq<char> {
    if listed.len() > 0 && listed[0] == '.' {
        lowered(listed.subrange(1, listed.len() as int))
    } else {
        lowered(listed)
    }
}

/// Whether `extension`, compared without regard to ASCII case, is one of the
/// `listed` extensions. A listed extension that is empty without its dot
/// stands for nothing.
pub open spec fn names_extension(listed: Seq<Seq<char>>, extension: Seq<char>) -> bool {
    exists|j: int|
        0 <= j < listed.len() && normal_extension(listed[j]).len() > 0
            && #[trigger] normal_extension(listed[j]) == lowered(extension)
}

/// Whether `file` has an extension and it is one of the `listed`.
pub open spec fn file_matches(file: FileView, listed: Seq<Seq<char>>) -> bool {
    match file.extension {
        Some(extension) => names_extension(listed, extension),
        None => false,
    }
}

/// Whether some file among `files` has one of the `listed` extensions.
pub open spec fn any_file_matches(files: Seq<FileView>, listed: Seq<Seq<char>>) -> bool {
    exists|k: int| 0 <= k < files.len() && file_matches(#[trigger] files[k], listed)
}

/// What `lang(name)` comes to on a project with these files, where the
/// registry answers `found` for `name`.
pub open spec fn lang_outcome_of(
    name: Seq<char>,
    found: Option<Option<Seq<Seq<char>>>>,
    files: Seq<FileView>,
) -> Result<bool, ErrorView> {
    match found {
        None => Err(ErrorView::Template("unknown language: "@ + name)),
        Some(None) => Ok(false),
        Some(Some(listed)) => Ok(any_file_matches(files, listed)),
    }
}

/// What `lang(name)` comes to on a project with these files.
pub open spec fn lang_outcome(name: Seq<char>, files: Seq<FileView>) -> Result<bool, ErrorView> {
    lang_outcome_of(name, language_extensions(name), files)
}

/// `c` in ASCII lower case.
pub fn to_ascii_lower(c: char) -> (r: char)
    ensures
        r == ascii_lower(c),
{
    if 'A' <= c && c <= 'Z' {
        ((c as u8) + 32) as char
    } else {
        c
    }
}

/// The characters of `s[from..]`, each in ASCII lower case.
fn lowered_from(s: &[char], from: usize) -> (r: Vec<char>)
    requires
        from <= s@.len(),
    ensures
        r@ == lowered(s@.subrange(from as int, s@.len() as int)),
{
    let mut r: Vec<char> = Vec::new();
    let mut k: usize = from;
    while k < s.len()
        invariant
            from <= k <= s@.len(),
            r@.len() == k - from,
            forall|j: int| 0 <= j < k - from ==> r@[j] == ascii_lower(s@[from + j]),
        decreases s@.len() - k,
    {
        r.push(to_ascii_lower(s[k]));
        k += 1;
    }
    assert(r@ =~= lowered(s@.subrange(from as int, s@.len() as int)));
    r
}

/// A listed extension as it is compared.
pub fn normalize_extension(listed: &str) -> (r: Vec<char>)
    ensures
        r@ == normal_extension(listed@),
{
    let chars = to_chars(listed);
    if chars.len() > 0 && chars[0] == '.' {
        lowered_from(chars.as_slice(), 1)
    } else {
        let r = lowered_from(chars.as_slice(), 0);
        assert(chars@.subrange(0, chars@.len() as int) =~= chars@);
        r
    }
}

/// The `listed` extensions, each as it is compared.
pub fn normalize_extensions(listed: &[&str]) -> (r: Vec<Vec<char>>)
    ensures
        r@.len() == listed@.len(),
        forall|j: int| 0 <= j < r@.len() ==> (#[trigger] r@[j])@ == normal_extension(listed@[j]@),
{
    let mut r: Vec<Vec<char>> = Vec::new();
    let mut j: usize = 0;
    while j < listed.len()
        invariant
            j <= listed.len(),
            r@.len() == j,
            forall|i: int| 0 <= i < j ==> (#[trigger] r@[i])@ == normal_extension(listed@[i]@),
        decreases listed.len() - j,
    {
        r.push(normalize_extension(listed[j]));
        j += 1;
    }
    r
}

/// Whether `extension`, in lower case, is one of `normal`, the listed
/// extensions as they are compared.
fn extension_among(
    normal: &Vec<Vec<char>>,
    extension: &str,
    Ghost(listed): Ghost<Seq<Seq<char>>>,
) -> (b: bool)
    requires
        normal@.len() == listed.len(),
        forall|j: int|
            0 <= j < listed.len() ==> (#[trigger] normal@[j])@ == normal_extension(listed[j]),
    ensures
        b == names_extension(listed, extension@),
{
    let chars = to_chars(extension);
    let wanted = lowered_from(chars.as_slice(), 0);
    assert(chars@.subrange(0, chars@.len() as int) =~= chars@);
    let mut j: usize = 0;
    while j < normal.len()
        invariant
            j <= normal.len(),
            normal@.len() == listed.len(),
            forall|i: int|
                0 <= i < listed.len() ==> (#[trigger] normal@[i])@ == normal_extension(listed[i]),
            wanted@ == lowered(extension@),
            forall|i: int|
                0 <= i < j ==> !(normal_extension(listed[i]).len() > 0
                    && #[trigger] normal_extension(listed[i]) == lowered(extension@)),
        decreases normal.len() - j,
    {
        assert(normal@[j as int]@ == normal_extension(listed[j as int]));
        if normal[j].len() > 0 && same_chars(normal[j].as_slice(), wanted.as_slice()) {
            return true;
        }
        j += 1;
    }
    false
}

/// Whether `extension` is one of the `listed` extensions.
pub fn extension_listed(listed: &[&str], extension: &str) -> (b: bool)
    ensures
        b == names_extension(listed.deep_view(), extension@),
{
    let normal = normalize_extensions(listed);
    proof {
        assert forall|j: int| 0 <= j < listed@.len() implies listed.deep_view()[j]
            == listed@[j]@ by {}
    }
    extension_among(&normal, extension, Ghost(listed.deep_view()))
}

/// Whether some file of `project` has one of the `listed` extensions.
pub fn any_file_listed(project: &Project, listed: &[&str]) -> (b: bool)
    ensures
        b == any_file_matches(project@.files, listed.deep_view()),
{
    let normal = normalize_extensions(listed);
    let ghost texts = listed.deep_view();
    proof {
        assert forall|j: int| 0 <= j < listed@.len() implies texts[j] == listed@[j]@ by {}
    }
    let mut k: usize = 0;
    while k < project.files.len()
        invariant
            k <= project.files.len(),
            texts == listed.deep_view(),
            normal@.len() == texts.len(),
            forall|j: int|
                0 <= j < texts.len() ==> (#[trigger] normal@[j])@ == normal_extension(texts[j]),
            forall|i: int| 0 <= i < k ==> !file_matches(#[trigger] project@.files[i], texts),
        decreases project.files.len() - k,
    {
        assert(project@.files[k as int] == project.files@[k as int]@);
        match &project.files[k].extension {
            Some(extension) => {
                if extension_among(&normal, extension.as_str(), Ghost(texts)) {
                    return true;
                }
            },
            None => {},
        }
        k += 1;
    }
    false
}

/// What `lang(name)` comes to on `project`, where the registry answers
/// `found` for `name`.
pub fn lang_match_of(project: &Project, name: &str, found: Option<Option<&[&str]>>) -> (r: Result<
    bool,
    Error,
>)
    ensures
        match r {
            Ok(b) => lang_outcome_of(name@, found.deep_view(), project@.files) == Ok::<
                bool,
                ErrorView,
            >(b),
            Err(e) => lang_outcome_of(name@, found.deep_view(), project@.files) == Err::<
                bool,
                ErrorView,
            >(e@),
        },
{
    match found {
        None => Err(Error::Template(String::from_str("unknown language: ").concat(name))),
        Some(None) => Ok(false),
        Some(Some(listed)) => Ok(any_file_listed(project, listed)),
    }
}

/// Whether a file of `project` has an extension of the language `name`.
pub fn lang_match(project: &Project, name: &str) -> (r: Result<bool, Error>)
    ensures
        match r {
            Ok(b) => lang_outcome(name@, project@.files) == Ok::<bool, ErrorView>(b),
            Err(e) => lang_outcome(name@, project@.files) == Err::<bool, ErrorView>(e@),
        },
{
    lang_match_of(project, name, registry_extensions(name))
}

} // verus!
