//! The structure of a template, as functions on sequences of characters.
//!
//! A template is literal text with tags in it. A tag opens with `<!--` and
//! closes with the next `-->`. `<!-- if GUARD -->` opens a conditional block,
//! `<!-- endif -->` closes the innermost open one, and every other tag is a
//! comment that belongs to the text.
//!
//! `body_at` defines the blocks of a template by the nesting of its bodies.
//! `blocks_from` describes a reader that keeps the open blocks on a stack,
//! which is how the parser works, and `lemma_stack_reads_template` shows that
//! the two agree. `lemma_parses_iff_balanced` tells the texts that are
//! templates from those that are none.

use crate::error::SyntaxError;
use crate::expr::ExprView;
use crate::guard::{guard, remaining};
use crate::template::{
    lemma_literal_text_add, lemma_literal_text_one, lemma_plain_text_push, literal_text,
    plain_text, BlockView,
};
use crate::text::{find, lemma_find_first, lemma_ws_len, occurs_at, trim, ws_len};
use crate::tokens::{endif_word, if_word, tag_close, tag_open};
use vstd::prelude::*;

verus! {

/// What a tag says.
pub enum Tag {
    /// `if` with its guard.
    If(ExprView),
    /// `endif`.
    EndIf,
    /// Anything else.
    Comment,
}

/// The tag whose text starts at `i`, behind its `<!--`: what it says, and the
/// number of characters from `i` to behind its `-->`.
#[verifier::opaque]
pub open spec fn tag_at(s: Seq<char>, i: int) -> Result<(Tag, nat), SyntaxError> {
    let w = ws_len(s, i);
    let a = i + w;
    if occurs_at(s, a, if_word()) {
        let w2 = ws_len(s, a + 2);
        match find(s, a + 2 + w2, tag_close()) {
            Some(n) => match guard(trim(s.subrange(a + 2 + w2, a + 2 + w2 + n))) {
                Ok(e) => Ok((Tag::If(e), w + 2 + w2 + n + 3)),
                Err(e) => Err(e),
            },
            None => Err(SyntaxError::UnterminatedTag),
        }
    } else if occurs_at(s, a, endif_word()) {
        match find(s, a + 5, tag_close()) {
            Some(n) => if trim(s.subrange(a + 5, a + 5 + n)).len() == 0 {
                Ok((Tag::EndIf, w + 5 + n + 3))
            } else {
                Err(SyntaxError::ContentAfterEndif)
            },
            None => Err(SyntaxError::UnterminatedTag),
        }
    } else {
        match find(s, a, tag_close()) {
            Some(n) => Ok((Tag::Comment, w + n + 3)),
            None => Err(SyntaxError::UnterminatedTag),
        }
    }
}

/// Where the reading of a body ends: with the text, or before an `endif` tag.
pub enum Stop {
    End,
    EndIf,
}

/// The text `s[from..to]` as a block, where it is not empty.
pub open spec fn text_block(s: Seq<char>, from: int, to: int) -> Seq<BlockView> {
    if from < to {
        seq![BlockView::Text(s.subrange(from, to))]
    } else {
        Seq::empty()
    }
}

/// The body that starts at position `i`: its blocks, where it ends, and the
/// number of characters up to there, the closing `endif` tag included.
///
/// ```text
/// Body := ( Text | Comment | If )*
/// If   := '<!-- if GUARD -->' Body '<!-- endif -->'
/// ```
pub open spec fn body_at(s: Seq<char>, i: int) -> Result<(Seq<BlockView>, Stop, nat), SyntaxError>
    decreases remaining(s, i),
{
    if i < 0 || i >= s.len() {
        Ok((Seq::empty(), Stop::End, 0))
    } else {
        match find(s, i, tag_open()) {
            Some(n) => {
                let text = text_block(s, i, i + n);
                let tag = i + n + 4;
                match tag_at(s, tag) {
                    Ok((Tag::If(cond), m)) => match body_at(s, tag + m) {
                        Ok((body, Stop::EndIf, b)) => match body_at(s, tag + m + b) {
                            Ok((rest, stop, r)) => Ok(
                                (
                                    text + seq![BlockView::If { cond, body }] + rest,
                                    stop,
                                    n + 4 + m + b + r,
                                ),
                            ),
                            Err(e) => Err(e),
                        },
                        Ok((_, Stop::End, _)) => Err(SyntaxError::UnclosedIf),
                        Err(e) => Err(e),
                    },
                    Ok((Tag::EndIf, m)) => Ok((text, Stop::EndIf, n + 4 + m)),
                    Ok((Tag::Comment, m)) => match body_at(s, tag + m) {
                        Ok((rest, stop, r)) => Ok(
                            (
                                text + seq![BlockView::Text(s.subrange(i + n, tag + m))] + rest,
                                stop,
                                n + 4 + m + r,
                            ),
                        ),
                        Err(e) => Err(e),
                    },
                    Err(e) => Err(e),
                }
            },
            None => Ok((text_block(s, i, s.len() as int), Stop::End, (s.len() - i) as nat)),
        }
    }
}

/// The blocks of the template `s`, or why it is none: the body that is the
/// whole text, which no `endif` tag may end.
pub open spec fn template_blocks(s: Seq<char>) -> Result<Seq<BlockView>, SyntaxError> {
    match body_at(s, 0) {
        Ok((blocks, Stop::End, _)) => Ok(blocks),
        Ok((_, Stop::EndIf, _)) => Err(SyntaxError::StrayEndif),
        Err(e) => Err(e),
    }
}

/// A conditional block that is still open: its guard, and the blocks that
/// stood before it in the enclosing body.
pub struct Frame {
    pub cond: ExprView,
    pub before: Seq<BlockView>,
}

/// `body` with the text `s[from..to]` behind it, where that text is not empty.
pub open spec fn with_text(body: Seq<BlockView>, s: Seq<char>, from: int, to: int) -> Seq<
    BlockView,
> {
    if from < to {
        body.push(BlockView::Text(s.subrange(from, to)))
    } else {
        body
    }
}

/// The blocks of the template `s` as a reader finds them that goes through
/// the text once and keeps the open blocks on a stack: it stands at position
/// `i`, `open` holds the conditional blocks that are open there, outermost
/// first, and `body` the blocks read so far in the innermost of them.
pub open spec fn blocks_from(
    s: Seq<char>,
    i: int,
    open: Seq<Frame>,
    body: Seq<BlockView>,
) -> Result<Seq<BlockView>, SyntaxError>
    decreases remaining(s, i),
{
    if i < 0 || i >= s.len() {
        if open.len() == 0 {
            Ok(body)
        } else {
            Err(SyntaxError::UnclosedIf)
        }
    } else {
        match find(s, i, tag_open()) {
            Some(n) => {
                let text = i + n + 4;
                let before = with_text(body, s, i, i + n);
                match tag_at(s, text) {
                    Ok((Tag::If(cond), m)) => blocks_from(
                        s,
                        text + m,
                        open.push(Frame { cond, before }),
                        Seq::empty(),
                    ),
                    Ok((Tag::EndIf, m)) => if open.len() == 0 {
                        Err(SyntaxError::StrayEndif)
                    } else {
                        blocks_from(
                            s,
                            text + m,
                            open.drop_last(),
                            open.last().before.push(
                                BlockView::If { cond: open.last().cond, body: before },
                            ),
                        )
                    },
                    Ok((Tag::Comment, m)) => blocks_from(
                        s,
                        text + m,
                        open,
                        before.push(BlockView::Text(s.subrange(i + n, text + m))),
                    ),
                    Err(e) => Err(e),
                }
            },
            None => blocks_from(s, s.len() as int, open, with_text(body, s, i, s.len() as int)),
        }
    }
}

/// What the reader with the stack comes to where the body from its
/// position on reads as `rest`.
pub open spec fn resumed(
    s: Seq<char>,
    i: int,
    open: Seq<Frame>,
    body: Seq<BlockView>,
    rest: Result<(Seq<BlockView>, Stop, nat), SyntaxError>,
) -> Result<Seq<BlockView>, SyntaxError> {
    match rest {
        Ok((blocks, Stop::End, _)) => if open.len() == 0 {
            Ok(body + blocks)
        } else {
            Err(SyntaxError::UnclosedIf)
        },
        Ok((blocks, Stop::EndIf, n)) => if open.len() == 0 {
            Err(SyntaxError::StrayEndif)
        } else {
            blocks_from(
                s,
                i + n,
                open.drop_last(),
                open.last().before.push(
                    BlockView::If { cond: open.last().cond, body: body + blocks },
                ),
            )
        },
        Err(e) => Err(e),
    }
}

/// The reader with the stack reads bodies as `body_at` defines them: from
/// any position and with any blocks open, it goes on as the body from there
/// on says.
pub proof fn lemma_stack_reads_bodies(
    s: Seq<char>,
    i: int,
    open: Seq<Frame>,
    body: Seq<BlockView>,
)
    ensures
        blocks_from(s, i, open, body) == resumed(s, i, open, body, body_at(s, i)),
    decreases remaining(s, i),
{
    if i < 0 || i >= s.len() {
        assert(body + Seq::<BlockView>::empty() =~= body);
    } else {
        match find(s, i, tag_open()) {
            Some(n) => {
                let text = text_block(s, i, i + n);
                let before = with_text(body, s, i, i + n);
                assert(before =~= body + text);
                let tag = i + n + 4;
                match tag_at(s, tag) {
                    Ok((Tag::If(cond), m)) => {
                        let deeper = open.push(Frame { cond, before });
                        lemma_stack_reads_bodies(s, tag + m, deeper, Seq::empty());
                        assert(deeper.drop_last() =~= open);
                        match body_at(s, tag + m) {
                            Ok((inner, Stop::EndIf, b)) => {
                                assert(Seq::<BlockView>::empty() + inner =~= inner);
                                let block = BlockView::If { cond, body: inner };
                                lemma_stack_reads_bodies(s, tag + m + b, open, before.push(block));
                                match body_at(s, tag + m + b) {
                                    Ok((rest, stop, r)) => {
                                        assert(before.push(block) + rest =~= body + (text
                                            + seq![block] + rest));
                                    },
                                    Err(e) => {},
                                }
                            },
                            Ok((_, Stop::End, _)) => {},
                            Err(e) => {},
                        }
                    },
                    Ok((Tag::EndIf, m)) => {},
                    Ok((Tag::Comment, m)) => {
                        let comment = BlockView::Text(s.subrange(i + n, tag + m));
                        lemma_stack_reads_bodies(s, tag + m, open, before.push(comment));
                        match body_at(s, tag + m) {
                            Ok((rest, stop, r)) => {
                                assert(before.push(comment) + rest =~= body + (text + seq![comment]
                                    + rest));
                            },
                            Err(e) => {},
                        }
                    },
                    Err(e) => {},
                }
            },
            None => {
                let text = text_block(s, i, s.len() as int);
                let longer = with_text(body, s, i, s.len() as int);
                assert(longer =~= body + text);
                assert(blocks_from(s, s.len() as int, open, longer) == if open.len() == 0 {
                    Ok::<Seq<BlockView>, SyntaxError>(longer)
                } else {
                    Err::<Seq<BlockView>, SyntaxError>(SyntaxError::UnclosedIf)
                });
            },
        }
    }
}

/// A reader that goes through the text once, with the open blocks on a
/// stack, finds the blocks of the template, and every error as it is.
pub proof fn lemma_stack_reads_template(s: Seq<char>)
    ensures
        blocks_from(s, 0, Seq::empty(), Seq::empty()) == template_blocks(s),
{
    lemma_stack_reads_bodies(s, 0, Seq::empty(), Seq::empty());
    match body_at(s, 0) {
        Ok((blocks, stop, _)) => {
            assert(Seq::<BlockView>::empty() + blocks =~= blocks);
        },
        Err(e) => {},
    }
}

/// An `if` tag or an `endif` tag.
pub enum Mark {
    Open,
    Close,
}

impl Mark {
    /// What the tag adds to the number of open blocks.
    pub open spec fn delta(self) -> int {
        match self {
            Mark::Open => 1,
            Mark::Close => -1,
        }
    }
}

/// The `if` and `endif` tags of `s` from position `i` on, in order, up to
/// the first tag that is malformed, and the error of that tag.
pub open spec fn marks(s: Seq<char>, i: int) -> (Seq<Mark>, Option<SyntaxError>)
    decreases remaining(s, i),
{
    if i < 0 || i >= s.len() {
        (Seq::empty(), None)
    } else {
        match find(s, i, tag_open()) {
            Some(n) => match tag_at(s, i + n + 4) {
                Ok((tag, m)) => {
                    let rest = marks(s, i + n + 4 + m);
                    match tag {
                        Tag::If(_) => (seq![Mark::Open] + rest.0, rest.1),
                        Tag::EndIf => (seq![Mark::Close] + rest.0, rest.1),
                        Tag::Comment => rest,
                    }
                },
                Err(e) => (Seq::empty(), Some(e)),
            },
            None => (Seq::empty(), None),
        }
    }
}

/// The number of blocks that `tags` leave open: its `if`s less its `endif`s.
pub open spec fn depth(tags: Seq<Mark>) -> int
    decreases tags.len(),
{
    if tags.len() == 0 {
        0
    } else {
        depth(tags.drop_last()) + tags.last().delta()
    }
}

/// Some `endif` among `tags` closes a block that no `if` before it opened.
pub open spec fn has_stray_close(tags: Seq<Mark>) -> bool {
    exists|k: int| 0 <= k <= tags.len() && depth(#[trigger] tags.take(k)) < 0
}

/// Every `endif` closes an `if` before it, and every `if` is closed.
pub open spec fn balanced(tags: Seq<Mark>) -> bool {
    !has_stray_close(tags) && depth(tags) == 0
}

/// Whether the running count of open blocks, which starts at `d`, falls
/// below zero somewhere along `tags`.
spec fn dips(tags: Seq<Mark>, d: int) -> bool
    decreases tags.len(),
{
    if tags.len() == 0 {
        false
    } else {
        d + tags[0].delta() < 0 || dips(tags.drop_first(), d + tags[0].delta())
    }
}

proof fn lemma_depth_prepend(x: Mark, rest: Seq<Mark>)
    ensures
        depth(seq![x] + rest) == x.delta() + depth(rest),
    decreases rest.len(),
{
    let all = seq![x] + rest;
    if rest.len() == 0 {
        assert(all.drop_last() =~= Seq::<Mark>::empty());
        assert(depth(all.drop_last()) == 0);
    } else {
        lemma_depth_prepend(x, rest.drop_last());
        assert(all.drop_last() =~= seq![x] + rest.drop_last());
        assert(all.last() == rest.last());
    }
}

proof fn lemma_dips(tags: Seq<Mark>, d: int)
    requires
        d >= 0,
    ensures
        dips(tags, d) <==> exists|k: int|
            0 <= k <= tags.len() && d + depth(#[trigger] tags.take(k)) < 0,
    decreases tags.len(),
{
    if tags.len() == 0 {
        assert forall|k: int| 0 <= k <= tags.len() implies d + depth(#[trigger] tags.take(k))
            >= 0 by {
            assert(tags.take(k) =~= Seq::<Mark>::empty());
        }
    } else {
        let x = tags[0];
        let rest = tags.drop_first();
        let d2 = d + x.delta();
        assert forall|k: int| 1 <= k <= tags.len() implies depth(#[trigger] tags.take(k))
            == x.delta() + depth(rest.take(k - 1)) by {
            assert(tags.take(k) =~= seq![x] + rest.take(k - 1));
            lemma_depth_prepend(x, rest.take(k - 1));
        }
        assert(rest.take(0) =~= Seq::<Mark>::empty());
        assert(tags.take(0) =~= Seq::<Mark>::empty());
        if d2 < 0 {
            assert(d + depth(tags.take(1)) < 0);
        } else {
            lemma_dips(rest, d2);
            if dips(rest, d2) {
                let k = choose|k: int|
                    0 <= k <= rest.len() && d2 + depth(#[trigger] rest.take(k)) < 0;
                assert(d + depth(tags.take(k + 1)) < 0);
            }
            if exists|k: int| 0 <= k <= tags.len() && d + depth(#[trigger] tags.take(k)) < 0 {
                let k = choose|k: int|
                    0 <= k <= tags.len() && d + depth(#[trigger] tags.take(k)) < 0;
                assert(k >= 1);
                assert(d2 + depth(rest.take(k - 1)) < 0);
            }
        }
    }
}

/// What `blocks_from` comes to, told from the tags alone.
proof fn lemma_blocks_from_outcome(s: Seq<char>, i: int, open: Seq<Frame>, body: Seq<BlockView>)
    ensures
        ({
            let (tags, bad) = marks(s, i);
            let r = blocks_from(s, i, open, body);
            if dips(tags, open.len() as int) {
                r == Err::<Seq<BlockView>, SyntaxError>(SyntaxError::StrayEndif)
            } else if bad is Some {
                r == Err::<Seq<BlockView>, SyntaxError>(bad->0)
            } else if open.len() + depth(tags) > 0 {
                r == Err::<Seq<BlockView>, SyntaxError>(SyntaxError::UnclosedIf)
            } else {
                r is Ok
            }
        }),
    decreases remaining(s, i),
{
    if i < 0 || i >= s.len() {
    } else {
        match find(s, i, tag_open()) {
            Some(n) => {
                let text = i + n + 4;
                let before = with_text(body, s, i, i + n);
                match tag_at(s, text) {
                    Ok((tag, m)) => {
                        let rest = marks(s, text + m);
                        match tag {
                            Tag::If(cond) => {
                                lemma_blocks_from_outcome(
                                    s,
                                    text + m,
                                    open.push(Frame { cond, before }),
                                    Seq::empty(),
                                );
                                let tags = seq![Mark::Open] + rest.0;
                                assert(tags.drop_first() =~= rest.0);
                                lemma_depth_prepend(Mark::Open, rest.0);
                            },
                            Tag::EndIf => {
                                let tags = seq![Mark::Close] + rest.0;
                                assert(tags.drop_first() =~= rest.0);
                                lemma_depth_prepend(Mark::Close, rest.0);
                                if open.len() > 0 {
                                    lemma_blocks_from_outcome(
                                        s,
                                        text + m,
                                        open.drop_last(),
                                        open.last().before.push(
                                            BlockView::If { cond: open.last().cond, body: before },
                                        ),
                                    );
                                }
                            },
                            Tag::Comment => {
                                lemma_blocks_from_outcome(
                                    s,
                                    text + m,
                                    open,
                                    before.push(BlockView::Text(s.subrange(i + n, text + m))),
                                );
                            },
                        }
                    },
                    Err(e) => {},
                }
            },
            None => {
                lemma_blocks_from_outcome(
                    s,
                    s.len() as int,
                    open,
                    with_text(body, s, i, s.len() as int),
                );
            },
        }
    }
}

/// A text parses as a template exactly where none of its tags is malformed
/// and its `if` and `endif` tags are balanced, however deep they nest. Where
/// it does not parse, the first of these decides the error: an `endif` that
/// closes nothing, a malformed tag, an `if` that is left open.
pub proof fn lemma_parses_iff_balanced(s: Seq<char>)
    ensures
        template_blocks(s) is Ok <==> marks(s, 0).1 is None && balanced(marks(s, 0).0),
        has_stray_close(marks(s, 0).0) ==> template_blocks(s) == Err::<
            Seq<BlockView>,
            SyntaxError,
        >(SyntaxError::StrayEndif),
        !has_stray_close(marks(s, 0).0) && marks(s, 0).1 is Some ==> template_blocks(s) == Err::<
            Seq<BlockView>,
            SyntaxError,
        >(marks(s, 0).1->0),
        !has_stray_close(marks(s, 0).0) && marks(s, 0).1 is None && depth(marks(s, 0).0) != 0
            ==> template_blocks(s) == Err::<Seq<BlockView>, SyntaxError>(SyntaxError::UnclosedIf),
{
    let tags = marks(s, 0).0;
    lemma_stack_reads_template(s);
    lemma_blocks_from_outcome(s, 0, Seq::empty(), Seq::empty());
    lemma_dips(tags, 0);
    if !has_stray_close(tags) {
        assert(tags.take(tags.len() as int) =~= tags);
        assert(depth(tags) >= 0);
    }
}

/// The text of `s` from position `i` on without its `if` and `endif` tags,
/// up to the first tag that is malformed.
pub open spec fn without_directives(s: Seq<char>, i: int) -> Seq<char>
    decreases remaining(s, i),
{
    if i < 0 || i >= s.len() {
        Seq::empty()
    } else {
        match find(s, i, tag_open()) {
            Some(n) => match tag_at(s, i + n + 4) {
                Ok((Tag::Comment, m)) => s.subrange(i, i + n + 4 + m) + without_directives(
                    s,
                    i + n + 4 + m,
                ),
                Ok((_, m)) => s.subrange(i, i + n) + without_directives(s, i + n + 4 + m),
                Err(_) => s.subrange(i, i + n),
            },
            None => s.subrange(i, s.len() as int),
        }
    }
}

proof fn lemma_join(a: Seq<char>, b: Seq<char>, c: Seq<char>, d: Seq<char>)
    ensures
        ((a + b) + c) + d == a + (b + (c + d)),
        a + Seq::<char>::empty() == a,
{
    assert(((a + b) + c) + d =~= a + (b + (c + d)));
    assert(a + Seq::<char>::empty() =~= a);
}

/// What is left to hold where the reading of a body ended at position `i`.
spec fn left_over(s: Seq<char>, i: int, stop: Stop) -> Seq<char> {
    match stop {
        Stop::End => Seq::empty(),
        Stop::EndIf => without_directives(s, i),
    }
}

proof fn lemma_body_holds_the_text(s: Seq<char>, i: int)
    requires
        0 <= i,
        body_at(s, i) is Ok,
    ensures
        without_directives(s, i) == literal_text(body_at(s, i)->Ok_0.0) + left_over(
            s,
            i + body_at(s, i)->Ok_0.2,
            body_at(s, i)->Ok_0.1,
        ),
    decreases remaining(s, i),
{
    let none = Seq::<char>::empty();
    if i >= s.len() {
        lemma_join(none, none, none, none);
    } else {
        match find(s, i, tag_open()) {
            Some(n) => {
                let text = text_block(s, i, i + n);
                let before = s.subrange(i, i + n);
                assert(literal_text(text) == before) by {
                    if n > 0 {
                        lemma_literal_text_one(BlockView::Text(before));
                    } else {
                        assert(before =~= none);
                    }
                }
                let tag = i + n + 4;
                match tag_at(s, tag) {
                    Ok((Tag::If(cond), m)) => {
                        lemma_body_holds_the_text(s, tag + m);
                        let (body, _, b) = body_at(s, tag + m)->Ok_0;
                        lemma_body_holds_the_text(s, tag + m + b);
                        let (rest, stop, r) = body_at(s, tag + m + b)->Ok_0;
                        let block = BlockView::If { cond, body };
                        lemma_literal_text_one(block);
                        lemma_literal_text_add(text, seq![block]);
                        lemma_literal_text_add(text + seq![block], rest);
                        lemma_join(
                            before,
                            literal_text(body),
                            literal_text(rest),
                            left_over(s, tag + m + b + r, stop),
                        );
                    },
                    Ok((Tag::EndIf, m)) => {},
                    Ok((Tag::Comment, m)) => {
                        lemma_find_first(s, i, tag_open());
                        lemma_tag_within(s, tag);
                        lemma_body_holds_the_text(s, tag + m);
                        let (rest, stop, r) = body_at(s, tag + m)->Ok_0;
                        let comment = s.subrange(i + n, tag + m);
                        lemma_literal_text_one(BlockView::Text(comment));
                        lemma_literal_text_add(text, seq![BlockView::Text(comment)]);
                        lemma_literal_text_add(text + seq![BlockView::Text(comment)], rest);
                        assert(s.subrange(i, tag + m) =~= before + comment);
                        lemma_join(
                            before,
                            comment,
                            literal_text(rest),
                            left_over(s, tag + m + r, stop),
                        );
                    },
                    Err(e) => {},
                }
            },
            None => {
                let all = s.subrange(i, s.len() as int);
                lemma_literal_text_one(BlockView::Text(all));
                lemma_join(all, none, none, none);
            },
        }
    }
}

/// The blocks of a template hold its text: their literal text, in order and
/// with that of the conditional blocks, is the template without its `if`
/// and `endif` tags.
pub proof fn lemma_blocks_hold_the_text(s: Seq<char>)
    requires
        template_blocks(s) is Ok,
    ensures
        literal_text(template_blocks(s)->Ok_0) == without_directives(s, 0),
{
    lemma_body_holds_the_text(s, 0);
    let text = literal_text(template_blocks(s)->Ok_0);
    assert(text + Seq::<char>::empty() =~= text);
}

/// A tag that is well formed ends within the text.
proof fn lemma_tag_within(s: Seq<char>, i: int)
    requires
        0 <= i <= s.len(),
        tag_at(s, i) is Ok,
    ensures
        i + tag_at(s, i)->Ok_0.1 <= s.len(),
{
    reveal(tag_at);
    lemma_ws_len(s, i);
    let a = i + ws_len(s, i);
    if occurs_at(s, a, if_word()) {
        lemma_ws_len(s, a + 2);
        lemma_find_first(s, a + 2 + ws_len(s, a + 2), tag_close());
    } else if occurs_at(s, a, endif_word()) {
        lemma_find_first(s, a + 5, tag_close());
    } else {
        lemma_find_first(s, a, tag_close());
    }
}

proof fn lemma_plain_from(s: Seq<char>, i: int, body: Seq<BlockView>)
    requires
        0 <= i <= s.len(),
        marks(s, i).0.len() == 0,
        marks(s, i).1 is None,
        plain_text(body) is Some,
    ensures
        blocks_from(s, i, Seq::empty(), body) is Ok,
        plain_text(blocks_from(s, i, Seq::empty(), body)->Ok_0) == Some(
            plain_text(body)->0 + s.subrange(i, s.len() as int),
        ),
    decreases remaining(s, i),
{
    let so_far = plain_text(body)->0;
    if i >= s.len() {
        assert(so_far + s.subrange(i, s.len() as int) =~= so_far);
    } else {
        match find(s, i, tag_open()) {
            Some(n) => {
                lemma_find_first(s, i, tag_open());
                let text = i + n + 4;
                let before = with_text(body, s, i, i + n);
                if n > 0 {
                    lemma_plain_text_push(body, s.subrange(i, i + n));
                } else {
                    assert(so_far + s.subrange(i, i + n) =~= so_far);
                }
                assert(plain_text(before) == Some(so_far + s.subrange(i, i + n)));
                lemma_tag_within(s, text);
                let m = tag_at(s, text)->Ok_0.1;
                let comment = s.subrange(i + n, text + m);
                lemma_plain_text_push(before, comment);
                lemma_plain_from(s, text + m, before.push(BlockView::Text(comment)));
                assert((so_far + s.subrange(i, i + n) + comment) + s.subrange(
                    text + m,
                    s.len() as int,
                ) =~= so_far + s.subrange(i, s.len() as int));
            },
            None => {
                let rest = s.subrange(i, s.len() as int);
                lemma_plain_text_push(body, rest);
                let longer = body.push(BlockView::Text(rest));
                assert(blocks_from(s, s.len() as int, Seq::empty(), longer) == Ok::<
                    Seq<BlockView>,
                    SyntaxError,
                >(longer));
            },
        }
    }
}

/// A template without `if` and `endif` tags is literal text throughout, and
/// its blocks hold the whole text in order: comments stay as they are.
pub proof fn lemma_plain_template(s: Seq<char>)
    requires
        template_blocks(s) is Ok,
        marks(s, 0).0.len() == 0,
    ensures
        plain_text(template_blocks(s)->Ok_0) == Some(s),
{
    lemma_parses_iff_balanced(s);
    lemma_stack_reads_template(s);
    lemma_plain_from(s, 0, Seq::empty());
    assert(Seq::<char>::empty() + s.subrange(0, s.len() as int) =~= s);
}

} // verus!
