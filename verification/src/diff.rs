//! The unified diff between an existing file and what was rendered, as
//! lines that each carry the style in which they are shown.
//!
//! The diff itself is computed by the `similar` crate. Its text is not
//! restated here: it is named, and the contracts in this module speak of
//! that name.

use crate::guard::remaining;
use crate::text::{find, find_from, matches_at, occurs_at, to_chars, to_string};
use similar::TextDiff;
use vstd::prelude::*;
use vstd::string::StringExecFns;

verus! {

/// The unified diff from `old` to `new` by lines, with `radius` lines of
/// context around each change and the two names in its header, as `similar`
/// writes it, for a radius whose double fits in `usize`. It is empty where
/// the two texts are equal.
pub uninterp spec fn unified_diff_text(
    old: Seq<char>,
    new: Seq<char>,
    radius: nat,
    old_name: Seq<char>,
    new_name: Seq<char>,
) -> Seq<char>;

/// `TextDiff::from_lines`, `unified_diff`, `context_radius`, `header` and
/// `to_string`. The result is the text that `unified_diff_text` names. The
/// claim is made of a radius whose double fits in `usize`: `similar`
/// doubles the radius where it groups the changes.
#[verifier::external_body]
fn unified_diff(old: &str, new: &str, radius: usize, old_name: &str, new_name: &str) -> (r: String)
    requires
        radius <= usize::MAX / 2,
    ensures
        r@ == unified_diff_text(old@, new@, radius as nat, old_name@, new_name@),
{
    TextDiff::from_lines(old, new).unified_diff().context_radius(radius).header(
        old_name,
        new_name,
    ).to_string()
}

/// How a line of a unified diff is shown.
#[derive(Debug, Clone, Copy, PartialEq, Eq, Structural)]
pub enum LineStyle {
    /// One of the two lines that name the files: bold.
    Header,
    /// The head of a hunk: blue.
    Hunk,
    /// A line that was added: green.
    Added,
    /// A line that was removed: red.
    Removed,
    /// A line of context: plain.
    Context,
}

/// A line of a unified diff and the style in which it is shown.
#[derive(Debug, PartialEq, Eq)]
pub struct DiffLine {
    pub style: LineStyle,
    pub text: String,
}

impl View for DiffLine {
    type V = (LineStyle, Seq<char>);

    open spec fn view(&self) -> (LineStyle, Seq<char>) {
        (self.style, self.text@)
    }
}

/// The style of a line, told from how it begins.
pub open spec fn line_style(line: Seq<char>) -> LineStyle {
    if occurs_at(line, 0, seq!['+', '+', '+']) || occurs_at(line, 0, seq!['-', '-', '-']) {
        LineStyle::Header
    } else if occurs_at(line, 0, seq!['@', '@']) {
        LineStyle::Hunk
    } else if occurs_at(line, 0, seq!['+']) {
        LineStyle::Added
    } else if occurs_at(line, 0, seq!['-']) {
        LineStyle::Removed
    } else {
        LineStyle::Context
    }
}

/// `line` without the carriage return at its end, where it has one.
pub open spec fn without_cr(line: Seq<char>) -> Seq<char> {
    if line.len() > 0 && line.last() == '\r' {
        line.drop_last()
    } else {
        line
    }
}

/// The lines of `s` from position `i` on. A line ends with a line feed, or
/// with a carriage return and a line feed, which are no part of it; the
/// last line may end with the text.
pub open spec fn lines_from(s: Seq<char>, i: int) -> Seq<Seq<char>>
    decreases remaining(s, i),
{
    if i < 0 || i >= s.len() {
        Seq::empty()
    } else {
        match find(s, i, seq!['\n']) {
            Some(n) => seq![without_cr(s.subrange(i, i + n))] + lines_from(s, i + n + 1),
            None => seq![s.subrange(i, s.len() as int)],
        }
    }
}

/// `lines`, each with its style.
pub open spec fn styled(lines: Seq<Seq<char>>) -> Seq<(LineStyle, Seq<char>)> {
    Seq::new(lines.len(), |k: int| (line_style(lines[k]), lines[k]))
}

/// The lines of `s`, each with its style.
pub open spec fn styled_lines(s: Seq<char>) -> Seq<(LineStyle, Seq<char>)> {
    styled(lines_from(s, 0))
}

/// The lines of `lines`, each as a pair of style and text.
pub open spec fn lines_view(lines: Seq<DiffLine>) -> Seq<(LineStyle, Seq<char>)> {
    Seq::new(lines.len(), |k: int| lines[k]@)
}

/// The style of the line `s[from..to]`.
fn style_of(s: &[char], from: usize, to: usize) -> (style: LineStyle)
    requires
        from <= to <= s@.len(),
    ensures
        style == line_style(s@.subrange(from as int, to as int)),
{
    let line = vstd::slice::slice_subrange(s, from, to);
    let plus3 = ['+', '+', '+'];
    let minus3 = ['-', '-', '-'];
    let at2 = ['@', '@'];
    let plus = ['+'];
    let minus = ['-'];
    proof {
        assert(plus3@ =~= seq!['+', '+', '+']);
        assert(minus3@ =~= seq!['-', '-', '-']);
        assert(at2@ =~= seq!['@', '@']);
        assert(plus@ =~= seq!['+']);
        assert(minus@ =~= seq!['-']);
    }
    if matches_at(line, 0, &plus3) || matches_at(line, 0, &minus3) {
        LineStyle::Header
    } else if matches_at(line, 0, &at2) {
        LineStyle::Hunk
    } else if matches_at(line, 0, &plus) {
        LineStyle::Added
    } else if matches_at(line, 0, &minus) {
        LineStyle::Removed
    } else {
        LineStyle::Context
    }
}

/// The lines of the diff text `diff`, each with its style.
pub fn style_diff(diff: &str) -> (r: Vec<DiffLine>)
    ensures
        lines_view(r@) == styled_lines(diff@),
{
    let chars = to_chars(diff);
    let s = chars.as_slice();
    let feed = ['\n'];
    assert(feed@ =~= seq!['\n']);
    let mut r: Vec<DiffLine> = Vec::new();
    let mut i: usize = 0;
    assert(lines_view(r@) =~= Seq::<(LineStyle, Seq<char>)>::empty());
    assert(Seq::<Seq<char>>::empty() + lines_from(s@, 0) =~= lines_from(s@, 0));
    let ghost mut done: Seq<Seq<char>> = Seq::empty();
    while i < s.len()
        invariant
            i <= s@.len(),
            s@ == diff@,
            feed@ == seq!['\n'],
            lines_from(s@, 0) == done + lines_from(s@, i as int),
            done.len() == r@.len(),
            lines_view(r@) == styled(done),
        decreases s@.len() - i,
    {
        let ghost rest = lines_from(s@, i as int);
        let (end, next) = match find_from(s, i, &feed) {
            Some(k) => {
                if k > i && s[k - 1] == '\r' {
                    assert(s@.subrange(i as int, k as int).last() == '\r');
                    assert(s@.subrange(i as int, k as int).drop_last() =~= s@.subrange(
                        i as int,
                        k - 1,
                    ));
                    (k - 1, k + 1)
                } else {
                    if k > i {
                        assert(s@.subrange(i as int, k as int).last() == s@[k - 1]);
                    }
                    (k, k + 1)
                }
            },
            None => (s.len(), s.len()),
        };
        let line = DiffLine { style: style_of(s, i, end), text: to_string(s, i, end) };
        proof {
            let text = s@.subrange(i as int, end as int);
            let tail = lines_from(s@, next as int);
            assert(rest == seq![text] + tail);
            assert(done + (seq![text] + tail) =~= done.push(text) + tail);
            assert(line@ == (line_style(text), text));
            assert forall|k: int| 0 <= k < r@.len() implies lines_view(r@.push(line))[k] == styled(
                done.push(text),
            )[k] by {
                assert(lines_view(r@)[k] == styled(done)[k]);
            }
            assert(lines_view(r@.push(line)) =~= styled(done.push(text)));
            done = done.push(text);
        }
        r.push(line);
        i = next;
    }
    assert(done + Seq::<Seq<char>>::empty() =~= done);
    r
}

/// The name of a file under the prefix that marks a side of the diff.
fn side_name(side: &str, file_name: &str) -> (r: String)
    ensures
        r@ == side@ + file_name@,
{
    String::from_str(side).concat(file_name)
}

/// The unified diff from `current` to `rendered`, the old and the new
/// content of the file that is named `file_name`, with three lines of
/// context, as lines with their styles.
pub fn unified_diff_lines(current: &str, rendered: &str, file_name: &str) -> (r: Vec<DiffLine>)
    ensures
        lines_view(r@) == styled_lines(
            unified_diff_text(current@, rendered@, 3, "a/"@ + file_name@, "b/"@ + file_name@),
        ),
{
    let old_name = side_name("a/", file_name);
    let new_name = side_name("b/", file_name);
    let diff = unified_diff(current, rendered, 3, old_name.as_str(), new_name.as_str());
    style_diff(diff.as_str())
}

} // verus!
