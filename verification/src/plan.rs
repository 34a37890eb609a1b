//! What a run of the program shows and writes, told from its options and
//! from what the files hold.

use vstd::prelude::*;

verus! {

/// The options of a run that bear on what it shows and writes.
#[derive(Debug, Clone, Copy, PartialEq, Eq, Structural)]
pub struct Options {
    /// Show the pending changes and write nothing.
    pub diff: bool,
    /// Print the rendered text and write nothing.
    pub stdout: bool,
    /// Show nothing while writing.
    pub quiet: bool,
    /// Write a second file beside the output file.
    pub copy: bool,
}

/// What a run shows.
#[derive(Debug, Clone, Copy, PartialEq, Eq, Structural)]
pub enum Show {
    /// Nothing.
    Nothing,
    /// The note that there are no changes.
    NoChanges,
    /// The diff from what the output file holds to the rendered text.
    Diff,
    /// The rendered text itself.
    Text,
}

/// What a run shows and which files it writes.
#[derive(Debug, Clone, Copy, PartialEq, Eq, Structural)]
pub struct Plan {
    pub show: Show,
    pub write_output: bool,
    pub write_copy: bool,
}

/// Whether a file holds `text`. A file that cannot be read counts as empty.
pub open spec fn holds(file: Option<Seq<char>>, text: Seq<char>) -> bool {
    match file {
        Some(content) => content == text,
        None => text.len() == 0,
    }
}

/// Whether a file has to be written to hold `text`: unless it can be read
/// and holds it already.
pub open spec fn must_write(file: Option<Seq<char>>, text: Seq<char>) -> bool {
    file != Some(text)
}

/// What a run with `options` shows and writes, where the output file holds
/// `output`, the second file `copy`, and `rendered` is the new text.
///
/// With `diff` the pending changes are shown and nothing is written; with
/// `stdout` the text is printed and nothing is written. Otherwise both
/// files are written where they have to be, and unless `quiet` the diff of
/// the output file is shown, or the note that there are no changes where
/// neither file changes.
pub open spec fn plan_for(
    options: Options,
    output: Option<Seq<char>>,
    copy: Option<Seq<char>>,
    rendered: Seq<char>,
) -> Plan {
    if options.diff {
        Plan {
            show: if holds(output, rendered) {
                Show::NoChanges
            } else {
                Show::Diff
            },
            write_output: false,
            write_copy: false,
        }
    } else if options.stdout {
        Plan { show: Show::Text, write_output: false, write_copy: false }
    } else {
        Plan {
            show: if options.quiet {
                Show::Nothing
            } else if !holds(output, rendered) {
                Show::Diff
            } else if options.copy && !holds(copy, rendered) {
                Show::Nothing
            } else {
                Show::NoChanges
            },
            write_output: must_write(output, rendered),
            write_copy: options.copy && must_write(copy, rendered),
        }
    }
}

/// The text of an optional `String`.
pub open spec fn content_of(file: Option<&String>) -> Option<Seq<char>> {
    match file {
        Some(content) => Some(content@),
        None => None,
    }
}

/// Whether `file` holds `text`, where a file that cannot be read counts as
/// empty.
fn file_holds(file: Option<&String>, text: &String) -> (b: bool)
    ensures
        b == holds(content_of(file), text@),
{
    match file {
        Some(content) => *content == *text,
        None => text.as_str().is_empty(),
    }
}

/// Whether a file that holds `existing`, or cannot be read where that is
/// `None`, has to be written to hold `contents`.
pub fn needs_write(existing: Option<&String>, contents: &String) -> (b: bool)
    ensures
        b == must_write(content_of(existing), contents@),
{
    match existing {
        Some(e) => !(*e == *contents),
        None => true,
    }
}

/// What a run with `options` shows and writes, where the output file holds
/// `output`, the second file `copy`, and `rendered` is the new text. A file
/// that cannot be read is `None`.
pub fn plan(
    options: Options,
    output: Option<&String>,
    copy: Option<&String>,
    rendered: &String,
) -> (r: Plan)
    ensures
        r == plan_for(options, content_of(output), content_of(copy), rendered@),
{
    if options.diff {
        let show = if file_holds(output, rendered) {
            Show::NoChanges
        } else {
            Show::Diff
        };
        Plan { show, write_output: false, write_copy: false }
    } else if options.stdout {
        Plan { show: Show::Text, write_output: false, write_copy: false }
    } else {
        let show = if options.quiet {
            Show::Nothing
        } else if !file_holds(output, rendered) {
            Show::Diff
        } else if options.copy && !file_holds(copy, rendered) {
            Show::Nothing
        } else {
            Show::NoChanges
        };
        Plan {
            show,
            write_output: needs_write(output, rendered),
            write_copy: options.copy && needs_write(copy, rendered),
        }
    }
}

} // verus!
