//! The parsers: guard expressions by recursive descent, templates with an
//! explicit stack of open blocks.

use crate::error::{Error, SyntaxError};
use crate::expr::{Expr, ExprView, Matcher};
use crate::guard::{
    and_expr, and_tail, bare_len, env_arg, env_call, guard, keyword_at, matcher, not_expr,
    or_expr, or_tail, paren_string, primary, quoted, quoted_tail, raw, remaining, shift,
    string_like, token, unescape, Parsed,
};
use crate::markup::{
    blocks_from, lemma_stack_reads_template, tag_at, template_blocks, with_text, Frame, Tag,
};
use crate::template::{blocks_view, lemma_if_view, Block, BlockView, Template};
use crate::text::{
    find, find_from, lemma_find_first, matches_at, occurs_at, skip_whitespace, to_chars,
    to_string, trim, trim_bounds, ws_len,
};
use crate::tokens::{
    and_sign_chars, close_paren_chars, double_quote_chars, endif_word_chars, env_word_chars,
    equals_sign_chars, exists_word_chars, if_word_chars, lang_word_chars, not_sign_chars,
    open_paren_chars, or_sign_chars, tag_close_chars, tag_open_chars,
};
use vstd::prelude::*;
use vstd::slice::slice_subrange;

verus! {

/// `r` is what the grammar yields as `expected`, read between `from` and `to`.
pub open spec fn agrees<T: View>(
    r: Result<T, SyntaxError>,
    from: usize,
    to: usize,
    expected: Parsed<T::V>,
) -> bool {
    match r {
        Ok(v) => from <= to && expected == Ok::<(T::V, nat), SyntaxError>((v@, (to - from) as nat)),
        Err(e) => expected == Err::<(T::V, nat), SyntaxError>(e),
    }
}

/// The template that `input` holds, or why it holds none.
pub fn parse_template(input: &str) -> (r: Result<Template, Error>)
    ensures
        match r {
            Ok(t) => template_blocks(input@) == Ok::<Seq<BlockView>, SyntaxError>(t@),
            Err(e) => template_blocks(input@) is Err && e@ == template_blocks(
                input@,
            )->Err_0.report(),
        },
{
    let chars = to_chars(input);
    match TemplateParser::new(chars.as_slice()).parse() {
        Ok(t) => Ok(t),
        Err(e) => Err(e.to_error()),
    }
}

/// The guard expression that `text` holds between leading and trailing
/// whitespace, or why it holds none.
pub fn parse_expr(text: &str) -> (r: Result<Expr, Error>)
    ensures
        match r {
            Ok(e) => guard(trim(text@)) == Ok::<ExprView, SyntaxError>(e@),
            Err(e) => guard(trim(text@)) is Err && e@ == guard(trim(text@))->Err_0.report(),
        },
{
    let chars = to_chars(text);
    let (a, b) = trim_bounds(chars.as_slice(), 0, chars.len());
    assert(chars@.subrange(0, chars@.len() as int) =~= chars@);
    match ExprParser::new(slice_subrange(chars.as_slice(), a, b)).parse_expr() {
        Ok(e) => Ok(e),
        Err(e) => Err(e.to_error()),
    }
}

/// What a tag says, as the parser holds it.
enum TagKind {
    If(Expr),
    EndIf,
    Comment,
}

impl View for TagKind {
    type V = Tag;

    closed spec fn view(&self) -> Tag {
        match self {
            TagKind::If(e) => Tag::If(e@),
            TagKind::EndIf => Tag::EndIf,
            TagKind::Comment => Tag::Comment,
        }
    }
}

/// The open conditional blocks as the parser holds them, each as a frame.
pub open spec fn frames_view(stack: Seq<(Expr, Vec<Block>)>) -> Seq<Frame> {
    Seq::new(stack.len(), |k: int| Frame { cond: stack[k].0@, before: blocks_view(stack[k].1@) })
}

proof fn lemma_blocks_push(blocks: Seq<Block>, b: Block)
    ensures
        blocks_view(blocks.push(b)) == blocks_view(blocks).push(b@),
{
    assert(blocks_view(blocks.push(b)) =~= blocks_view(blocks).push(b@));
}

proof fn lemma_frames_push(stack: Seq<(Expr, Vec<Block>)>, cond: Expr, before: Vec<Block>)
    ensures
        frames_view(stack.push((cond, before))) == frames_view(stack).push(
            Frame { cond: cond@, before: blocks_view(before@) },
        ),
{
    assert(frames_view(stack.push((cond, before))) =~= frames_view(stack).push(
        Frame { cond: cond@, before: blocks_view(before@) },
    ));
}

proof fn lemma_frames_pop(stack: Seq<(Expr, Vec<Block>)>)
    requires
        stack.len() > 0,
    ensures
        frames_view(stack.drop_last()) == frames_view(stack).drop_last(),
        frames_view(stack).last() == (Frame {
            cond: stack.last().0@,
            before: blocks_view(stack.last().1@),
        }),
{
    assert(frames_view(stack.drop_last()) =~= frames_view(stack).drop_last());
}

struct TemplateParser<'a> {
    src: &'a [char],
    idx: usize,
}

impl<'a> TemplateParser<'a> {
    spec fn wf(&self) -> bool {
        self.idx <= self.src@.len() <= usize::MAX
    }

    /// `after` reads the same text as `self`, from its own position.
    spec fn same_text(&self, after: &Self) -> bool {
        after.src@ == self.src@ && after.wf()
    }

    /// The parser went on from `self` to `after` and read `r`, which is what
    /// the grammar yields as `expected`.
    spec fn read<T: View>(
        &self,
        after: &Self,
        r: Result<T, SyntaxError>,
        expected: Parsed<T::V>,
    ) -> bool {
        self.same_text(after) && agrees(r, self.idx, after.idx, expected)
    }

    fn new(src: &'a [char]) -> (p: Self)
        ensures
            p.src@ == src@,
            p.idx == 0,
            p.wf(),
    {
        let _ = src.len();
        TemplateParser { src, idx: 0 }
    }

    /// The blocks of the whole text.
    fn parse(self) -> (r: Result<Template, SyntaxError>)
        requires
            self.wf(),
            self.idx == 0,
        ensures
            match r {
                Ok(t) => template_blocks(self.src@) == Ok::<Seq<BlockView>, SyntaxError>(t@),
                Err(e) => template_blocks(self.src@) == Err::<Seq<BlockView>, SyntaxError>(e),
            },
    {
        let mut parser = self;
        let ghost s = parser.src@;
        let mut stack: Vec<(Expr, Vec<Block>)> = Vec::new();
        let mut cur: Vec<Block> = Vec::new();
        proof {
            lemma_stack_reads_template(s);
            assert(frames_view(stack@) =~= Seq::<Frame>::empty());
            assert(blocks_view(cur@) =~= Seq::<BlockView>::empty());
        }
        while parser.idx < parser.src.len()
            invariant
                parser.wf(),
                parser.src@ == s,
                s == self.src@,
                template_blocks(s) == blocks_from(
                    s,
                    parser.idx as int,
                    frames_view(stack@),
                    blocks_view(cur@),
                ),
            decreases s.len() - parser.idx,
        {
            let from: usize = parser.idx;
            let ghost body = blocks_view(cur@);
            match parser.find(&tag_open_chars()) {
                Some(tag_start) => {
                    if tag_start > from {
                        let text = Block::Text(to_string(parser.src, from, tag_start));
                        proof {
                            lemma_blocks_push(cur@, text);
                        }
                        cur.push(text);
                    }
                    assert(blocks_view(cur@) == with_text(body, s, from as int, tag_start as int));
                    parser.idx = tag_start + 4;
                    match parser.tag() {
                        Ok(TagKind::If(cond)) => {
                            proof {
                                lemma_frames_push(stack@, cond, cur);
                            }
                            stack.push((cond, cur));
                            cur = Vec::new();
                            assert(blocks_view(cur@) =~= Seq::<BlockView>::empty());
                        },
                        Ok(TagKind::EndIf) => {
                            proof {
                                if stack@.len() > 0 {
                                    lemma_frames_pop(stack@);
                                }
                            }
                            match stack.pop() {
                                Some((cond, before)) => {
                                    let completed = Block::If { cond, body: cur };
                                    proof {
                                        lemma_if_view(cond, cur);
                                        lemma_blocks_push(before@, completed);
                                    }
                                    cur = before;
                                    cur.push(completed);
                                },
                                None => {
                                    return Err(SyntaxError::StrayEndif);
                                },
                            }
                        },
                        Ok(TagKind::Comment) => {
                            let text = Block::Text(to_string(parser.src, tag_start, parser.idx));
                            proof {
                                lemma_blocks_push(cur@, text);
                            }
                            cur.push(text);
                        },
                        Err(e) => {
                            return Err(e);
                        },
                    }
                },
                None => {
                    let text = Block::Text(to_string(parser.src, from, parser.src.len()));
                    proof {
                        lemma_blocks_push(cur@, text);
                    }
                    cur.push(text);
                    parser.idx = parser.src.len();
                },
            }
        }
        if stack.len() > 0 {
            return Err(SyntaxError::UnclosedIf);
        }
        Ok(Template { blocks: cur })
    }

    /// The tag behind whose `<!--` the parser stands.
    fn tag(&mut self) -> (r: Result<TagKind, SyntaxError>)
        requires
            old(self).wf(),
        ensures
            old(self).read(final(self), r, tag_at(old(self).src@, old(self).idx as int)),
    {
        reveal(tag_at);
        self.skip_ws();
        if self.consume_if(&if_word_chars()) {
            self.skip_ws();
            let (from, to) = match self.read_until(&tag_close_chars()) {
                Some(bounds) => bounds,
                None => {
                    return Err(SyntaxError::UnterminatedTag);
                },
            };
            let (a, b) = trim_bounds(self.src, from, to);
            let expr = match ExprParser::new(slice_subrange(self.src, a, b)).parse_expr() {
                Ok(e) => e,
                Err(e) => {
                    return Err(e);
                },
            };
            self.idx += 3;
            Ok(TagKind::If(expr))
        } else if self.consume_if(&endif_word_chars()) {
            let (from, to) = match self.read_until(&tag_close_chars()) {
                Some(bounds) => bounds,
                None => {
                    return Err(SyntaxError::UnterminatedTag);
                },
            };
            let (a, b) = trim_bounds(self.src, from, to);
            if a < b {
                return Err(SyntaxError::ContentAfterEndif);
            }
            self.idx += 3;
            Ok(TagKind::EndIf)
        } else {
            match self.read_until(&tag_close_chars()) {
                Some(_) => {
                    self.idx += 3;
                    Ok(TagKind::Comment)
                },
                None => Err(SyntaxError::UnterminatedTag),
            }
        }
    }

    /// The first position at or after the parser's where `needle` stands.
    fn find(&self, needle: &[char]) -> (r: Option<usize>)
        requires
            self.wf(),
        ensures
            match r {
                Some(k) => self.idx <= k && k + needle@.len() <= self.src@.len() && find(
                    self.src@,
                    self.idx as int,
                    needle@,
                ) == Some((k - self.idx) as nat),
                None => find(self.src@, self.idx as int, needle@) is None,
            },
    {
        find_from(self.src, self.idx, needle)
    }

    fn skip_ws(&mut self)
        requires
            old(self).wf(),
        ensures
            old(self).same_text(final(self)),
            final(self).idx == old(self).idx + ws_len(old(self).src@, old(self).idx as int),
    {
        self.idx = skip_whitespace(self.src, self.idx);
    }

    fn consume_if(&mut self, s: &[char]) -> (b: bool)
        requires
            old(self).wf(),
        ensures
            old(self).same_text(final(self)),
            b == occurs_at(old(self).src@, old(self).idx as int, s@),
            final(self).idx == if b {
                old(self).idx + s@.len()
            } else {
                old(self).idx as int
            },
    {
        if matches_at(self.src, self.idx, s) {
            self.idx += s.len();
            true
        } else {
            false
        }
    }

    /// The bounds of the text up to the next `delim`, before which the parser
    /// then stands.
    fn read_until(&mut self, delim: &[char]) -> (r: Option<(usize, usize)>)
        requires
            old(self).wf(),
        ensures
            old(self).same_text(final(self)),
            match r {
                Some((from, to)) => from == old(self).idx && to == final(self).idx && from <= to
                    && to + delim@.len() <= old(self).src@.len() && find(
                    old(self).src@,
                    old(self).idx as int,
                    delim@,
                ) == Some((to - from) as nat),
                None => find(old(self).src@, old(self).idx as int, delim@) is None
                    && final(self).idx == old(self).idx,
            },
    {
        match find_from(self.src, self.idx, delim) {
            Some(pos) => {
                let from: usize = self.idx;
                self.idx = pos;
                Some((from, pos))
            },
            None => None,
        }
    }
}

struct ExprParser<'a> {
    src: &'a [char],
    idx: usize,
}

impl<'a> ExprParser<'a> {
    spec fn wf(&self) -> bool {
        self.idx <= self.src@.len() <= usize::MAX
    }

    /// `after` reads the same text as `self`, from its own position.
    spec fn same_text(&self, after: &Self) -> bool {
        after.src@ == self.src@ && after.wf()
    }

    /// The parser went on from `self` to `after` and read `r`, which is what
    /// the grammar yields as `expected`.
    spec fn read<T: View>(
        &self,
        after: &Self,
        r: Result<T, SyntaxError>,
        expected: Parsed<T::V>,
    ) -> bool {
        self.same_text(after) && agrees(r, self.idx, after.idx, expected)
    }

    /// The character at the parser's position, where the text has not ended.
    spec fn here(&self) -> Option<char> {
        if self.idx < self.src@.len() {
            Some(self.src@[self.idx as int])
        } else {
            None
        }
    }

    /// The text from the parser's position to `to`.
    spec fn part(&self, to: usize) -> Seq<char> {
        self.src@.subrange(self.idx as int, to as int)
    }

    /// `delim` stands first at `at`, seen from the parser's position.
    spec fn finds(&self, delim: Seq<char>, at: usize) -> bool {
        &&& self.idx <= at
        &&& occurs_at(self.src@, at as int, delim)
        &&& find(self.src@, self.idx as int, delim) == Some((at - self.idx) as nat)
    }

    fn new(src: &'a [char]) -> (p: Self)
        ensures
            p.src@ == src@,
            p.idx == 0,
            p.wf(),
    {
        let _ = src.len();
        ExprParser { src, idx: 0 }
    }

    fn peek(&self) -> (r: Option<char>)
        requires
            self.wf(),
        ensures
            r == self.here(),
    {
        if self.idx < self.src.len() {
            Some(self.src[self.idx])
        } else {
            None
        }
    }

    fn peek_n(&self, n: usize) -> (r: Option<char>)
        requires
            self.wf(),
        ensures
            r == if self.idx + n < self.src@.len() {
                Some(self.src@[self.idx + n])
            } else {
                None
            },
    {
        if n < self.src.len() - self.idx {
            Some(self.src[self.idx + n])
        } else {
            None
        }
    }

    fn next(&mut self) -> (r: Option<char>)
        requires
            old(self).wf(),
        ensures
            old(self).same_text(final(self)),
            r == old(self).here(),
            final(self).idx == if r is Some {
                old(self).idx + 1
            } else {
                old(self).idx as int
            },
    {
        let c = self.peek();
        if c.is_some() {
            self.idx += 1;
        }
        c
    }

    fn skip_ws(&mut self)
        requires
            old(self).wf(),
        ensures
            old(self).same_text(final(self)),
            final(self).idx == old(self).idx + ws_len(old(self).src@, old(self).idx as int),
    {
        self.idx = skip_whitespace(self.src, self.idx);
    }

    fn consume(&mut self, s: &[char]) -> (b: bool)
        requires
            old(self).wf(),
        ensures
            old(self).same_text(final(self)),
            b == occurs_at(old(self).src@, old(self).idx as int, s@),
            final(self).idx == if b {
                old(self).idx + s@.len()
            } else {
                old(self).idx as int
            },
    {
        if matches_at(self.src, self.idx, s) {
            self.idx += s.len();
            true
        } else {
            false
        }
    }

    fn consume_ident(&mut self, ident: &[char]) -> (b: bool)
        requires
            old(self).wf(),
        ensures
            old(self).same_text(final(self)),
            b == keyword_at(old(self).src@, old(self).idx as int, ident@),
            final(self).idx == if b {
                old(self).idx + ident@.len()
            } else {
                old(self).idx as int
            },
    {
        if !matches_at(self.src, self.idx, ident) {
            return false;
        }
        let end: usize = self.idx + ident.len();
        if end < self.src.len() && (self.src[end].is_alphanumeric() || self.src[end] == '_') {
            return false;
        }
        self.idx = end;
        true
    }

    /// The text up to the next `delim`, before which the parser then stands.
    fn read_until(&mut self, delim: &[char]) -> (r: Option<&'a [char]>)
        requires
            old(self).wf(),
        ensures
            old(self).same_text(final(self)),
            match r {
                Some(text) => old(self).finds(delim@, final(self).idx) && text@ == old(self).part(
                    final(self).idx,
                ),
                None => find(old(self).src@, old(self).idx as int, delim@) is None
                    && final(self).idx == old(self).idx,
            },
    {
        match find_from(self.src, self.idx, delim) {
            Some(pos) => {
                proof {
                    lemma_find_first(self.src@, self.idx as int, delim@);
                }
                let text = slice_subrange(self.src, self.idx, pos);
                self.idx = pos;
                Some(text)
            },
            None => None,
        }
    }

    fn parse_quoted_string(&mut self) -> (r: Result<String, SyntaxError>)
        requires
            old(self).wf(),
        ensures
            old(self).read(final(self), r, quoted(old(self).src@, old(self).idx as int)),
    {
        let ghost s = self.src@;
        let ghost start = self.idx;
        let quote = match self.next() {
            Some(c) => c,
            None => {
                return Err(SyntaxError::ExpectedQuote);
            },
        };
        let mut out = String::new();
        loop
            invariant
                self.wf(),
                s == old(self).src@,
                start == old(self).idx,
                self.src@ == s,
                start < self.idx,
                start < s.len(),
                quote == s[start as int],
                quoted_tail(s, start + 1, quote) == match quoted_tail(s, self.idx as int, quote) {
                    Ok((v, n)) => Ok((out@ + v, (self.idx - start - 1 + n) as nat)),
                    Err(e) => Err(e),
                },
            decreases s.len() - self.idx,
        {
            let ghost here = self.idx as int;
            let ghost before = out@;
            let ch = match self.next() {
                Some(c) => c,
                None => {
                    return Err(SyntaxError::UnterminatedString);
                },
            };
            if ch == quote {
                assert(before + Seq::<char>::empty() =~= before);
                return Ok(out);
            }
            if ch == '\\' {
                let esc = match self.next() {
                    Some(c) => c,
                    None => {
                        return Err(SyntaxError::UnterminatedEscape);
                    },
                };
                if esc == 'n' {
                    out.push('\n');
                } else if esc == 'r' {
                    out.push('\r');
                } else if esc == 't' {
                    out.push('\t');
                } else if esc == '\\' || esc == '\'' || esc == '"' {
                    out.push(esc);
                } else {
                    out.push('\\');
                    out.push(esc);
                }
                proof {
                    assert(out@ =~= before + unescape(esc));
                    match quoted_tail(s, here + 2, quote) {
                        Ok((v, n)) => {
                            assert(before + (unescape(esc) + v) =~= out@ + v);
                        },
                        Err(e) => {},
                    }
                }
            } else {
                out.push(ch);
                proof {
                    match quoted_tail(s, here + 1, quote) {
                        Ok((v, n)) => {
                            assert(before + (seq![ch] + v) =~= out@ + v);
                        },
                        Err(e) => {},
                    }
                }
            }
        }
    }

    fn parse_raw_string(&mut self) -> (r: Result<String, SyntaxError>)
        requires
            old(self).wf(),
        ensures
            old(self).read(final(self), r, raw(old(self).src@, old(self).idx as int)),
    {
        if !self.consume(&double_quote_chars()) {
            return Err(SyntaxError::ExpectedRawQuote);
        }
        let start: usize = self.idx;
        match self.read_until(&double_quote_chars()) {
            Some(_) => {
                let value = to_string(self.src, start, self.idx);
                self.idx += 1;
                Ok(value)
            },
            None => Err(SyntaxError::UnterminatedRawString),
        }
    }

    fn parse_string_like(&mut self) -> (r: Result<String, SyntaxError>)
        requires
            old(self).wf(),
        ensures
            old(self).read(final(self), r, string_like(old(self).src@, old(self).idx as int)),
    {
        reveal(string_like);
        self.skip_ws();
        let first = self.peek();
        if first == Some('"') || first == Some('\'') {
            self.parse_quoted_string()
        } else if first == Some('r') && self.peek_n(1) == Some('"') {
            self.idx += 1;
            self.parse_raw_string()
        } else {
            let start: usize = self.idx;
            while self.idx < self.src.len() && !(self.src[self.idx].is_whitespace()
                || self.src[self.idx] == ')')
                invariant
                    self.wf(),
                    self.src@ == old(self).src@,
                    start <= self.idx,
                    bare_len(self.src@, start as int, false) == (self.idx - start) + bare_len(
                        self.src@,
                        self.idx as int,
                        false,
                    ),
                decreases self.src@.len() - self.idx,
            {
                self.idx += 1;
            }
            if self.idx == start {
                Err(SyntaxError::ExpectedString)
            } else {
                Ok(to_string(self.src, start, self.idx))
            }
        }
    }

    fn parse_paren_string(&mut self) -> (r: Result<String, SyntaxError>)
        requires
            old(self).wf(),
        ensures
            old(self).read(final(self), r, paren_string(old(self).src@, old(self).idx as int)),
    {
        reveal(paren_string);
        self.skip_ws();
        if !self.consume(&open_paren_chars()) {
            return Err(SyntaxError::ExpectedOpenParen);
        }
        let value = match self.parse_string_like() {
            Ok(v) => v,
            Err(e) => {
                return Err(e);
            },
        };
        self.skip_ws();
        if !self.consume(&close_paren_chars()) {
            return Err(SyntaxError::ExpectedCloseParen);
        }
        Ok(value)
    }

    /// The name or the value in the argument of `env`.
    fn parse_token(&mut self, in_name: bool) -> (r: Result<String, SyntaxError>)
        requires
            old(self).wf(),
        ensures
            old(self).read(final(self), r, token(old(self).src@, old(self).idx as int, in_name)),
    {
        reveal(token);
        let first = self.peek();
        if first == Some('"') || first == Some('\'') {
            return self.parse_quoted_string();
        }
        if first == Some('r') && self.peek_n(1) == Some('"') {
            self.next();
            return self.parse_raw_string();
        }
        let start: usize = self.idx;
        while self.idx < self.src.len() && !(self.src[self.idx].is_whitespace()
            || self.src[self.idx] == ')' || (in_name && self.src[self.idx] == '='))
            invariant
                self.wf(),
                self.src@ == old(self).src@,
                start <= self.idx,
                bare_len(self.src@, start as int, in_name) == (self.idx - start) + bare_len(
                    self.src@,
                    self.idx as int,
                    in_name,
                ),
            decreases self.src@.len() - self.idx,
        {
            self.idx += 1;
        }
        Ok(to_string(self.src, start, self.idx))
    }

    /// The name, and the value where one is given, in the argument of `env`.
    fn parse_env_arg(&mut self) -> (r: Result<(String, Option<String>), SyntaxError>)
        requires
            old(self).wf(),
        ensures
            old(self).same_text(final(self)),
            match r {
                Ok((name, value)) => old(self).idx <= final(self).idx && env_arg(
                    old(self).src@,
                    old(self).idx as int,
                ) == Ok::<((Seq<char>, Option<Seq<char>>), nat), SyntaxError>(
                    (
                        (
                            name@,
                            match value {
                                Some(v) => Some(v@),
                                None => None,
                            },
                        ),
                        (final(self).idx - old(self).idx) as nat,
                    ),
                ),
                Err(e) => env_arg(old(self).src@, old(self).idx as int) == Err::<
                    ((Seq<char>, Option<Seq<char>>), nat),
                    SyntaxError,
                >(e),
            },
    {
        reveal(env_arg);
        let name = match self.parse_token(true) {
            Ok(n) => n,
            Err(e) => {
                return Err(e);
            },
        };
        if name.as_str().is_empty() {
            return Err(SyntaxError::EmptyEnvName);
        }
        self.skip_ws();
        if !self.consume(&equals_sign_chars()) {
            return Ok((name, None));
        }
        self.skip_ws();
        match self.parse_token(false) {
            Ok(value) => Ok((name, Some(value))),
            Err(e) => Err(e),
        }
    }

    /// The parenthesised argument of `env`, behind the keyword.
    fn parse_env_call(&mut self) -> (r: Result<Matcher, SyntaxError>)
        requires
            old(self).wf(),
        ensures
            old(self).read(final(self), r, env_call(old(self).src@, old(self).idx as int)),
    {
        reveal(env_call);
        self.skip_ws();
        if !self.consume(&open_paren_chars()) {
            return Err(SyntaxError::ExpectedOpenParenAfterEnv);
        }
        self.skip_ws();
        if self.idx >= self.src.len() {
            return Err(SyntaxError::MissingCloseParen);
        }
        if matches_at(self.src, self.idx, &close_paren_chars()) {
            return Err(SyntaxError::EmptyEnvArgument);
        }
        let (name, value) = match self.parse_env_arg() {
            Ok(pair) => pair,
            Err(e) => {
                return Err(e);
            },
        };
        self.skip_ws();
        if !self.consume(&close_paren_chars()) {
            return Err(SyntaxError::MissingCloseParen);
        }
        Ok(
            match value {
                Some(v) => Matcher::EnvEquals { name, value: v },
                None => Matcher::EnvExists(name),
            },
        )
    }

    /// A matcher call, where a matcher keyword stands at the parser's position.
    fn parse_matcher(&mut self) -> (r: Option<Result<Matcher, SyntaxError>>)
        requires
            old(self).wf(),
        ensures
            old(self).same_text(final(self)),
            match r {
                Some(found) => matcher(old(self).src@, old(self).idx as int) is Some && agrees(
                    found,
                    old(self).idx,
                    final(self).idx,
                    matcher(old(self).src@, old(self).idx as int)->0,
                ),
                None => matcher(old(self).src@, old(self).idx as int) is None && final(self).idx
                    == old(self).idx,
            },
    {
        reveal(matcher);
        if self.consume_ident(&exists_word_chars()) {
            return Some(
                match self.parse_paren_string() {
                    Ok(arg) => Ok(Matcher::Exists(arg)),
                    Err(e) => Err(e),
                },
            );
        }
        if self.consume_ident(&lang_word_chars()) {
            return Some(
                match self.parse_paren_string() {
                    Ok(arg) => Ok(Matcher::Lang(arg)),
                    Err(e) => Err(e),
                },
            );
        }
        if self.consume_ident(&env_word_chars()) {
            return Some(self.parse_env_call());
        }
        None
    }

    fn parse_primary(&mut self) -> (r: Result<Expr, SyntaxError>)
        requires
            old(self).wf(),
        ensures
            old(self).read(final(self), r, primary(old(self).src@, old(self).idx as int)),
        decreases remaining(old(self).src@, old(self).idx as int), 0nat,
    {
        self.skip_ws();
        if self.consume(&open_paren_chars()) {
            let e = match self.parse_or() {
                Ok(e) => e,
                Err(e) => {
                    return Err(e);
                },
            };
            self.skip_ws();
            if !self.consume(&close_paren_chars()) {
                return Err(SyntaxError::ExpectedCloseParen);
            }
            return Ok(e);
        }
        match self.parse_matcher() {
            Some(Ok(m)) => Ok(Expr::Matcher(m)),
            Some(Err(e)) => Err(e),
            None => Err(SyntaxError::ExpectedMatcher),
        }
    }

    fn parse_not(&mut self) -> (r: Result<Expr, SyntaxError>)
        requires
            old(self).wf(),
        ensures
            old(self).read(final(self), r, not_expr(old(self).src@, old(self).idx as int)),
        decreases remaining(old(self).src@, old(self).idx as int), 1nat,
    {
        self.skip_ws();
        if self.consume(&not_sign_chars()) {
            match self.parse_not() {
                Ok(inner) => Ok(Expr::Not(Box::new(inner))),
                Err(e) => Err(e),
            }
        } else {
            self.parse_primary()
        }
    }

    fn parse_and(&mut self) -> (r: Result<Expr, SyntaxError>)
        requires
            old(self).wf(),
        ensures
            old(self).read(final(self), r, and_expr(old(self).src@, old(self).idx as int)),
        decreases remaining(old(self).src@, old(self).idx as int), 3nat,
    {
        let ghost s = self.src@;
        let ghost start = self.idx;
        let mut left = match self.parse_not() {
            Ok(e) => e,
            Err(e) => {
                return Err(e);
            },
        };
        loop
            invariant
                self.wf(),
                s == old(self).src@,
                self.src@ == s,
                start == old(self).idx,
                start <= self.idx,
                and_expr(s, start as int) == shift(
                    and_tail(s, self.idx as int, left@),
                    (self.idx - start) as nat,
                ),
            decreases remaining(s, self.idx as int),
        {
            self.skip_ws();
            if !self.consume(&and_sign_chars()) {
                return Ok(left);
            }
            let right = match self.parse_not() {
                Ok(e) => e,
                Err(e) => {
                    return Err(e);
                },
            };
            left = Expr::And(Box::new(left), Box::new(right));
        }
    }

    fn parse_or(&mut self) -> (r: Result<Expr, SyntaxError>)
        requires
            old(self).wf(),
        ensures
            old(self).read(final(self), r, or_expr(old(self).src@, old(self).idx as int)),
        decreases remaining(old(self).src@, old(self).idx as int), 5nat,
    {
        let ghost s = self.src@;
        let ghost start = self.idx;
        let mut left = match self.parse_and() {
            Ok(e) => e,
            Err(e) => {
                return Err(e);
            },
        };
        loop
            invariant
                self.wf(),
                s == old(self).src@,
                self.src@ == s,
                start == old(self).idx,
                start <= self.idx,
                or_expr(s, start as int) == shift(
                    or_tail(s, self.idx as int, left@),
                    (self.idx - start) as nat,
                ),
            decreases remaining(s, self.idx as int),
        {
            self.skip_ws();
            if !self.consume(&or_sign_chars()) {
                return Ok(left);
            }
            let right = match self.parse_and() {
                Ok(e) => e,
                Err(e) => {
                    return Err(e);
                },
            };
            left = Expr::Or(Box::new(left), Box::new(right));
        }
    }

    fn parse_expr(self) -> (r: Result<Expr, SyntaxError>)
        requires
            self.wf(),
            self.idx == 0,
        ensures
            match r {
                Ok(e) => guard(self.src@) == Ok::<ExprView, SyntaxError>(e@),
                Err(e) => guard(self.src@) == Err::<ExprView, SyntaxError>(e),
            },
    {
        reveal(guard);
        let mut parser = self;
        let expr = match parser.parse_or() {
            Ok(e) => e,
            Err(e) => {
                return Err(e);
            },
        };
        parser.skip_ws();
        if parser.idx != parser.src.len() {
            return Err(SyntaxError::TrailingCharacters);
        }
        Ok(expr)
    }
}

} // verus!
