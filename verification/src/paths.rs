//! Which paths the program works on: the shared template and the output
//! file. The library decides; its caller expands `~` and joins paths.

use crate::text::text_of;
use vstd::prelude::*;
use vstd::string::StringExecFns;

verus! {

/// Where the shared template is taken from.
#[derive(Debug, PartialEq, Eq)]
pub enum SharedTemplate {
    /// A path that the user gave, in which `~` is yet to be expanded.
    Given(String),
    /// The file `.agents.md` in this home directory.
    InHome(String),
}

/// A `SharedTemplate` with its path as a sequence of characters.
pub enum SharedTemplateView {
    Given(Seq<char>),
    InHome(Seq<char>),
}

impl View for SharedTemplate {
    type V = SharedTemplateView;

    open spec fn view(&self) -> SharedTemplateView {
        match self {
            SharedTemplate::Given(p) => SharedTemplateView::Given(p@),
            SharedTemplate::InHome(h) => SharedTemplateView::InHome(h@),
        }
    }
}

/// The shared template: the path given on the command line; where none is
/// given, the one from the environment; where there is none either, the
/// file in the home directory, if that is known.
pub open spec fn shared_template(
    given: Option<Seq<char>>,
    from_env: Option<Seq<char>>,
    home: Option<Seq<char>>,
) -> Option<SharedTemplateView> {
    match (given, from_env, home) {
        (Some(p), _, _) => Some(SharedTemplateView::Given(p)),
        (None, Some(p), _) => Some(SharedTemplateView::Given(p)),
        (None, None, Some(h)) => Some(SharedTemplateView::InHome(h)),
        (None, None, None) => None,
    }
}

/// The shared template, chosen among the path given on the command line,
/// the variable `AGENTS_TEMPLATE` and the variable `HOME`.
pub fn resolve_shared_template_path(
    given: Option<&str>,
    from_env: Option<&str>,
    home: Option<&str>,
) -> (r: Option<SharedTemplate>)
    ensures
        match r {
            Some(t) => shared_template(text_of(given), text_of(from_env), text_of(home))
                == Some(t@),
            None => shared_template(text_of(given), text_of(from_env), text_of(home))
                is None,
        },
{
    match given {
        Some(p) => Some(SharedTemplate::Given(String::from_str(p))),
        None => match from_env {
            Some(p) => Some(SharedTemplate::Given(String::from_str(p))),
            None => match home {
                Some(h) => Some(SharedTemplate::InHome(String::from_str(h))),
                None => None,
            },
        },
    }
}

/// Where the rendered text is written.
#[derive(Debug, PartialEq, Eq)]
pub enum OutputPath {
    /// This path, as it stands.
    Absolute(String),
    /// This path, under the project's root.
    UnderRoot(String),
}

/// An `OutputPath` with its path as a sequence of characters.
pub enum OutputPathView {
    Absolute(Seq<char>),
    UnderRoot(Seq<char>),
}

impl View for OutputPath {
    type V = OutputPathView;

    open spec fn view(&self) -> OutputPathView {
        match self {
            OutputPath::Absolute(p) => OutputPathView::Absolute(p@),
            OutputPath::UnderRoot(p) => OutputPathView::UnderRoot(p@),
        }
    }
}

/// The output file: the path given, under the root unless it is absolute;
/// where none is given, `AGENTS.md` under the root.
pub open spec fn output_path(given: Option<Seq<char>>, is_absolute: bool) -> OutputPathView {
    match given {
        Some(p) => if is_absolute {
            OutputPathView::Absolute(p)
        } else {
            OutputPathView::UnderRoot(p)
        },
        None => OutputPathView::UnderRoot("AGENTS.md"@),
    }
}

/// The output file, where `given` is the path from the command line with
/// `~` expanded and `is_absolute` says whether that path is absolute.
pub fn compute_output_path(given: Option<&str>, is_absolute: bool) -> (r: OutputPath)
    ensures
        r@ == output_path(text_of(given), is_absolute),
{
    match given {
        Some(p) => if is_absolute {
            OutputPath::Absolute(String::from_str(p))
        } else {
            OutputPath::UnderRoot(String::from_str(p))
        },
        None => OutputPath::UnderRoot(String::from_str("AGENTS.md")),
    }
}

} // verus!
