//! Rendering a project's own template and a shared one into one text.

use crate::error::{Error, ErrorView};
use crate::markup::template_blocks;
use crate::project::{Project, ProjectView};
use crate::template::{lemma_rendered_without_files, reads_files, rendered, Template};
use crate::text::text_of;
use vstd::prelude::*;
use vstd::string::StringExecFns;

verus! {

/// What the template text `s` renders to on the project `p`.
pub open spec fn rendered_text(s: Seq<char>, p: ProjectView) -> Result<Seq<char>, ErrorView> {
    match template_blocks(s) {
        Ok(blocks) => rendered(blocks, p),
        Err(e) => Err(e.report()),
    }
}

/// What an optional template text renders to: nothing where there is none.
pub open spec fn rendered_part(s: Option<Seq<char>>, p: ProjectView) -> Result<
    Seq<char>,
    ErrorView,
> {
    match s {
        Some(text) => rendered_text(text, p),
        None => Ok(Seq::empty()),
    }
}

/// The error that reports that there is no template at all.
pub open spec fn no_template() -> ErrorView {
    ErrorView::Root("no template found: neither <project>/.agents.md nor shared template"@)
}

/// The project's own template and then the shared one, each rendered on
/// `p`. The first error ends it, and that there is neither is an error.
pub open spec fn combined(
    local: Option<Seq<char>>,
    shared: Option<Seq<char>>,
    p: ProjectView,
) -> Result<Seq<char>, ErrorView> {
    if local is None && shared is None {
        Err(no_template())
    } else {
        match rendered_part(local, p) {
            Ok(first) => match rendered_part(shared, p) {
                Ok(second) => Ok(first + second),
                Err(e) => Err(e),
            },
            Err(e) => Err(e),
        }
    }
}

/// Whether the template text `s` holds a guard that asks for the files of
/// the project. A text that is no template asks for nothing.
pub open spec fn text_reads_files(s: Option<Seq<char>>) -> bool {
    match s {
        Some(text) => match template_blocks(text) {
            Ok(blocks) => reads_files(blocks),
            Err(_) => false,
        },
        None => false,
    }
}

/// Templates that ask for no files render to the same on two projects with
/// one environment: the files need not be found to render them.
pub proof fn lemma_combined_without_files(
    local: Option<Seq<char>>,
    shared: Option<Seq<char>>,
    p: ProjectView,
    q: ProjectView,
)
    requires
        !text_reads_files(local),
        !text_reads_files(shared),
        p.env == q.env,
    ensures
        combined(local, shared, p) == combined(local, shared, q),
{
    if local is Some && template_blocks(local->0) is Ok {
        lemma_rendered_without_files(template_blocks(local->0)->Ok_0, p, q);
    }
    if shared is Some && template_blocks(shared->0) is Ok {
        lemma_rendered_without_files(template_blocks(shared->0)->Ok_0, p, q);
    }
}

/// Whether one of the two template texts holds a guard that asks for the
/// files of the project.
pub fn needs_files(local: Option<&str>, shared: Option<&str>) -> (b: bool)
    ensures
        b == (text_reads_files(text_of(local)) || text_reads_files(text_of(shared))),
{
    let first = match local {
        Some(text) => match Template::parse(text) {
            Ok(template) => template.reads_files(),
            Err(_) => false,
        },
        None => false,
    };
    if first {
        return true;
    }
    match shared {
        Some(text) => match Template::parse(text) {
            Ok(template) => template.reads_files(),
            Err(_) => false,
        },
        None => false,
    }
}

/// What the template text `text` renders to on `project`.
pub fn render_text(project: &Project, text: &str) -> (r: Result<String, Error>)
    ensures
        match r {
            Ok(out) => rendered_text(text@, project@) == Ok::<Seq<char>, ErrorView>(out@),
            Err(e) => rendered_text(text@, project@) == Err::<Seq<char>, ErrorView>(e@),
        },
{
    match Template::parse(text) {
        Ok(template) => match template.render(project, None) {
            Ok(out) => {
                assert(Seq::<char>::empty() + rendered(template@, project@)->Ok_0 =~= out@);
                Ok(out)
            },
            Err(e) => Err(e),
        },
        Err(e) => Err(e),
    }
}

/// The text of the project's own template, `local`, rendered on `project`,
/// and behind it that of the shared template, `shared`. Each is `None`
/// where there is no such template; `shared` is also `None` where the
/// shared template is the project's own.
pub fn render_combined(project: &Project, local: Option<&str>, shared: Option<&str>) -> (r: Result<
    String,
    Error,
>)
    ensures
        match r {
            Ok(out) => combined(text_of(local), text_of(shared), project@) == Ok::<
                Seq<char>,
                ErrorView,
            >(out@),
            Err(e) => combined(text_of(local), text_of(shared), project@) == Err::<
                Seq<char>,
                ErrorView,
            >(e@),
        },
{
    if local.is_none() && shared.is_none() {
        return Err(
            Error::Root(
                String::from_str(
                    "no template found: neither <project>/.agents.md nor shared template",
                ),
            ),
        );
    }
    let mut out = String::new();
    match local {
        Some(text) => match render_text(project, text) {
            Ok(part) => {
                out.append(part.as_str());
                assert(out@ =~= part@);
            },
            Err(e) => {
                return Err(e);
            },
        },
        None => {},
    }
    match shared {
        Some(text) => match render_text(project, text) {
            Ok(part) => {
                out.append(part.as_str());
            },
            Err(e) => {
                return Err(e);
            },
        },
        None => {
            assert(out@ + Seq::<char>::empty() =~= out@);
        },
    }
    Ok(out)
}

} // verus!
