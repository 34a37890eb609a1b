//! The grammar of guard expressions, as functions on sequences of characters.
//!
//! ```text
//! OrExpr     := AndExpr ( '||' AndExpr )*
//! AndExpr    := NotExpr ( '&&' NotExpr )*
//! NotExpr    := '!' NotExpr | Primary
//! Primary    := '(' OrExpr ')' | 'exists' '(' StringLike ')'
//!             | 'lang' '(' StringLike ')' | 'env' '(' Name [ '=' StringLike ] ')'
//! StringLike := '"' ... '"' | '\'' ... '\'' | 'r"' ... '"' | bare token
//! ```
//!
//! A bare token runs up to whitespace or `)`, and a bare name also ends
//! before `=`. A quoted or raw string runs to its closing quote, whatever
//! stands in it.
//!
//! Each function reads `s` from position `i` on and yields what it read
//! together with the number of characters it took, or the error it met.
//! Whitespace may stand before every token.

use crate::error::SyntaxError;
use crate::expr::{ExprView, MatcherView};
use crate::text::{
    char_is_alphanumeric, char_is_whitespace, find, lemma_find_first, lemma_ws_len, occurs_at,
    ws_len,
};
use crate::tokens::{
    and_sign, close_paren, double_quote, env_word, equals_sign, exists_word, lang_word, not_sign,
    open_paren, or_sign,
};
use vstd::prelude::*;

verus! {

/// What reading a `T` yields: the value and the number of characters taken.
pub type Parsed<T> = Result<(T, nat), SyntaxError>;

/// `r`, read after `k` characters that had been taken before.
pub open spec fn shift<T>(r: Parsed<T>, k: nat) -> Parsed<T> {
    match r {
        Ok((v, n)) => Ok((v, k + n)),
        Err(e) => Err(e),
    }
}

/// The distance from position `i` to the end of `s`, none where `i` lies
/// behind it.
pub open spec fn remaining(s: Seq<char>, i: int) -> nat {
    if i <= s.len() {
        (s.len() - i) as nat
    } else {
        0
    }
}

/// Whether `c` can continue an identifier.
pub open spec fn is_ident_char(c: char) -> bool {
    char_is_alphanumeric(c) || c == '_'
}

/// The keyword `word` stands at `i` and no identifier character follows it.
pub open spec fn keyword_at(s: Seq<char>, i: int, word: Seq<char>) -> bool {
    &&& occurs_at(s, i, word)
    &&& !(i + word.len() < s.len() && is_ident_char(s[i + word.len()]))
}

/// What the character behind a backslash stands for in a quoted string.
pub open spec fn unescape(c: char) -> Seq<char> {
    if c == 'n' {
        seq!['\n']
    } else if c == 'r' {
        seq!['\r']
    } else if c == 't' {
        seq!['\t']
    } else if c == '\\' || c == '\'' || c == '"' {
        seq![c]
    } else {
        seq!['\\', c]
    }
}

/// The rest of a quoted string from `i` on, up to and with the closing `quote`.
pub open spec fn quoted_tail(s: Seq<char>, i: int, quote: char) -> Parsed<Seq<char>>
    decreases s.len() - i,
{
    if !(0 <= i < s.len()) {
        Err(SyntaxError::UnterminatedString)
    } else if s[i] == quote {
        Ok((Seq::empty(), 1))
    } else if s[i] == '\\' {
        if i + 1 < s.len() {
            match quoted_tail(s, i + 2, quote) {
                Ok((v, n)) => Ok((unescape(s[i + 1]) + v, 2 + n)),
                Err(e) => Err(e),
            }
        } else {
            Err(SyntaxError::UnterminatedEscape)
        }
    } else {
        match quoted_tail(s, i + 1, quote) {
            Ok((v, n)) => Ok((seq![s[i]] + v, 1 + n)),
            Err(e) => Err(e),
        }
    }
}

/// A quoted string: the character at `i` is the quote, and the same character
/// closes the string.
pub open spec fn quoted(s: Seq<char>, i: int) -> Parsed<Seq<char>> {
    if 0 <= i < s.len() {
        shift(quoted_tail(s, i + 1, s[i]), 1)
    } else {
        Err(SyntaxError::ExpectedQuote)
    }
}

/// The body of a raw string: `"` at `i`, then everything up to the next `"`.
pub open spec fn raw(s: Seq<char>, i: int) -> Parsed<Seq<char>> {
    if occurs_at(s, i, double_quote()) {
        match find(s, i + 1, double_quote()) {
            Some(n) => Ok((s.subrange(i + 1, i + 1 + n), 1 + n + 1)),
            None => Err(SyntaxError::UnterminatedRawString),
        }
    } else {
        Err(SyntaxError::ExpectedRawQuote)
    }
}

/// Whether `c` ends a bare token. A bare name ends before `=` too.
pub open spec fn ends_bare(c: char, in_name: bool) -> bool {
    char_is_whitespace(c) || c == ')' || (in_name && c == '=')
}

/// The length of the bare token that starts at `i`.
pub open spec fn bare_len(s: Seq<char>, i: int, in_name: bool) -> nat
    decreases s.len() - i,
{
    if 0 <= i < s.len() && !ends_bare(s[i], in_name) {
        1 + bare_len(s, i + 1, in_name)
    } else {
        0
    }
}

/// Whether a quoted string starts at `i`.
pub open spec fn quote_at(s: Seq<char>, i: int) -> bool {
    0 <= i < s.len() && (s[i] == '"' || s[i] == '\'')
}

/// Whether a raw string starts at `i`.
pub open spec fn raw_at(s: Seq<char>, i: int) -> bool {
    0 <= i && i + 1 < s.len() && s[i] == 'r' && s[i + 1] == '"'
}

/// An argument of `exists` or `lang`: quoted, raw, or a bare token that is not empty.
#[verifier::opaque]
pub open spec fn string_like(s: Seq<char>, i: int) -> Parsed<Seq<char>> {
    let w = ws_len(s, i);
    let a = i + w;
    if quote_at(s, a) {
        shift(quoted(s, a), w)
    } else if raw_at(s, a) {
        shift(raw(s, a + 1), w + 1)
    } else {
        let n = bare_len(s, a, false);
        if n == 0 {
            Err(SyntaxError::ExpectedString)
        } else {
            Ok((s.subrange(a, a + n), w + n))
        }
    }
}

/// `(`, a string-like argument and `)`.
#[verifier::opaque]
pub open spec fn paren_string(s: Seq<char>, i: int) -> Parsed<Seq<char>> {
    let w = ws_len(s, i);
    let a = i + w;
    if occurs_at(s, a, open_paren()) {
        match string_like(s, a + 1) {
            Ok((v, n)) => {
                let w2 = ws_len(s, a + 1 + n);
                if occurs_at(s, a + 1 + n + w2, close_paren()) {
                    Ok((v, w + 1 + n + w2 + 1))
                } else {
                    Err(SyntaxError::ExpectedCloseParen)
                }
            },
            Err(e) => Err(e),
        }
    } else {
        Err(SyntaxError::ExpectedOpenParen)
    }
}

/// The name or the value in the argument of `env`: quoted, raw, or a bare
/// token, which may be empty.
#[verifier::opaque]
pub open spec fn token(s: Seq<char>, i: int, in_name: bool) -> Parsed<Seq<char>> {
    if quote_at(s, i) {
        quoted(s, i)
    } else if raw_at(s, i) {
        shift(raw(s, i + 1), 1)
    } else {
        let n = bare_len(s, i, in_name);
        Ok((s.subrange(i, i + n), n))
    }
}

/// The argument of `env` that starts at `i`: a name, which is not empty,
/// and a value where `=` follows the name. Whitespace may stand on both
/// sides of `=`.
#[verifier::opaque]
pub open spec fn env_arg(s: Seq<char>, i: int) -> Parsed<(Seq<char>, Option<Seq<char>>)> {
    match token(s, i, true) {
        Ok((name, n)) => {
            let w = ws_len(s, i + n);
            if name.len() == 0 {
                Err(SyntaxError::EmptyEnvName)
            } else if occurs_at(s, i + n + w, equals_sign()) {
                let w2 = ws_len(s, i + n + w + 1);
                match token(s, i + n + w + 1 + w2, false) {
                    Ok((value, m)) => Ok(((name, Some(value)), n + w + 1 + w2 + m)),
                    Err(e) => Err(e),
                }
            } else {
                Ok(((name, None), n + w))
            }
        },
        Err(e) => Err(e),
    }
}

/// The matcher that an argument of `env` stands for.
pub open spec fn env_matcher(name: Seq<char>, value: Option<Seq<char>>) -> MatcherView {
    match value {
        Some(v) => MatcherView::EnvEquals { name, value: v },
        None => MatcherView::EnvExists(name),
    }
}

/// `(`, the argument of `env` and `)`. Nothing but whitespace may stand
/// between the argument and `)`.
#[verifier::opaque]
pub open spec fn env_call(s: Seq<char>, i: int) -> Parsed<MatcherView> {
    let w = ws_len(s, i);
    let a = i + w;
    if occurs_at(s, a, open_paren()) {
        let w2 = ws_len(s, a + 1);
        let b = a + 1 + w2;
        if b >= s.len() {
            Err(SyntaxError::MissingCloseParen)
        } else if occurs_at(s, b, close_paren()) {
            Err(SyntaxError::EmptyEnvArgument)
        } else {
            match env_arg(s, b) {
                Ok(((name, value), n)) => {
                    let w3 = ws_len(s, b + n);
                    if occurs_at(s, b + n + w3, close_paren()) {
                        Ok((env_matcher(name, value), w + 1 + w2 + n + w3 + 1))
                    } else {
                        Err(SyntaxError::MissingCloseParen)
                    }
                },
                Err(e) => Err(e),
            }
        }
    } else {
        Err(SyntaxError::ExpectedOpenParenAfterEnv)
    }
}

/// A matcher call, where one starts at `i`.
#[verifier::opaque]
pub open spec fn matcher(s: Seq<char>, i: int) -> Option<Parsed<MatcherView>> {
    if keyword_at(s, i, exists_word()) {
        Some(
            match paren_string(s, i + 6) {
                Ok((v, n)) => Ok((MatcherView::Exists(v), 6 + n)),
                Err(e) => Err(e),
            },
        )
    } else if keyword_at(s, i, lang_word()) {
        Some(
            match paren_string(s, i + 4) {
                Ok((v, n)) => Ok((MatcherView::Lang(v), 4 + n)),
                Err(e) => Err(e),
            },
        )
    } else if keyword_at(s, i, env_word()) {
        Some(shift(env_call(s, i + 3), 3))
    } else {
        None
    }
}

/// Primary: a parenthesised expression or a matcher call.
pub open spec fn primary(s: Seq<char>, i: int) -> Parsed<ExprView>
    decreases remaining(s, i), 0nat,
{
    let w = ws_len(s, i);
    let a = i + w;
    if occurs_at(s, a, open_paren()) {
        match or_expr(s, a + 1) {
            Ok((e, n)) => {
                let w2 = ws_len(s, a + 1 + n);
                if occurs_at(s, a + 1 + n + w2, close_paren()) {
                    Ok((e, w + 1 + n + w2 + 1))
                } else {
                    Err(SyntaxError::ExpectedCloseParen)
                }
            },
            Err(e) => Err(e),
        }
    } else {
        match matcher(s, a) {
            Some(Ok((m, n))) => Ok((ExprView::Matcher(m), w + n)),
            Some(Err(e)) => Err(e),
            None => Err(SyntaxError::ExpectedMatcher),
        }
    }
}

/// NotExpr: any number of `!` before a primary.
pub open spec fn not_expr(s: Seq<char>, i: int) -> Parsed<ExprView>
    decreases remaining(s, i), 1nat,
{
    let w = ws_len(s, i);
    let a = i + w;
    if occurs_at(s, a, not_sign()) {
        match not_expr(s, a + 1) {
            Ok((e, n)) => Ok((ExprView::Not(Box::new(e)), w + 1 + n)),
            Err(e) => Err(e),
        }
    } else {
        shift(primary(s, a), w)
    }
}

/// What follows a NotExpr in an AndExpr: `left` is the conjunction read so
/// far, and each further `&&` operand joins it from the right.
pub open spec fn and_tail(s: Seq<char>, i: int, left: ExprView) -> Parsed<ExprView>
    decreases remaining(s, i), 2nat,
{
    let w = ws_len(s, i);
    let a = i + w;
    if occurs_at(s, a, and_sign()) {
        match not_expr(s, a + 2) {
            Ok((right, n)) => shift(
                and_tail(s, a + 2 + n, ExprView::And(Box::new(left), Box::new(right))),
                w + 2 + n,
            ),
            Err(e) => Err(e),
        }
    } else {
        Ok((left, w))
    }
}

/// AndExpr: NotExprs joined by `&&`, grouped from the left.
pub open spec fn and_expr(s: Seq<char>, i: int) -> Parsed<ExprView>
    decreases remaining(s, i), 3nat,
{
    match not_expr(s, i) {
        Ok((left, n)) => shift(and_tail(s, i + n, left), n),
        Err(e) => Err(e),
    }
}

/// What follows an AndExpr in an OrExpr: `left` is the disjunction read so
/// far, and each further `||` operand joins it from the right.
pub open spec fn or_tail(s: Seq<char>, i: int, left: ExprView) -> Parsed<ExprView>
    decreases remaining(s, i), 4nat,
{
    let w = ws_len(s, i);
    let a = i + w;
    if occurs_at(s, a, or_sign()) {
        match and_expr(s, a + 2) {
            Ok((right, n)) => shift(
                or_tail(s, a + 2 + n, ExprView::Or(Box::new(left), Box::new(right))),
                w + 2 + n,
            ),
            Err(e) => Err(e),
        }
    } else {
        Ok((left, w))
    }
}

/// OrExpr: AndExprs joined by `||`, grouped from the left.
pub open spec fn or_expr(s: Seq<char>, i: int) -> Parsed<ExprView>
    decreases remaining(s, i), 5nat,
{
    match and_expr(s, i) {
        Ok((left, n)) => shift(or_tail(s, i + n, left), n),
        Err(e) => Err(e),
    }
}

/// A whole guard: one OrExpr, with nothing but whitespace behind it.
#[verifier::opaque]
pub open spec fn guard(s: Seq<char>) -> Result<ExprView, SyntaxError> {
    match or_expr(s, 0) {
        Ok((e, n)) => if n + ws_len(s, n as int) == s.len() {
            Ok(e)
        } else {
            Err(SyntaxError::TrailingCharacters)
        },
        Err(e) => Err(e),
    }
}

/// `r` took no more characters than `s` holds from position `i` on.
pub open spec fn within<T>(r: Parsed<T>, s: Seq<char>, i: int) -> bool {
    match r {
        Ok((_, n)) => i + n <= s.len(),
        Err(_) => true,
    }
}

proof fn lemma_quoted_tail_within(s: Seq<char>, i: int, quote: char)
    requires
        0 <= i,
    ensures
        within(quoted_tail(s, i, quote), s, i),
    decreases s.len() - i,
{
    if i < s.len() && s[i] != quote {
        if s[i] == '\\' {
            if i + 1 < s.len() {
                lemma_quoted_tail_within(s, i + 2, quote);
            }
        } else {
            lemma_quoted_tail_within(s, i + 1, quote);
        }
    }
}

proof fn lemma_bare_len_within(s: Seq<char>, i: int, in_name: bool)
    requires
        0 <= i <= s.len(),
    ensures
        i + bare_len(s, i, in_name) <= s.len(),
        forall|j: int|
            i <= j < i + bare_len(s, i, in_name) ==> !ends_bare(#[trigger] s[j], in_name),
        i + bare_len(s, i, in_name) < s.len() ==> ends_bare(
            s[i + bare_len(s, i, in_name)],
            in_name,
        ),
    decreases s.len() - i,
{
    if i < s.len() && !ends_bare(s[i], in_name) {
        lemma_bare_len_within(s, i + 1, in_name);
    }
}

proof fn lemma_string_like_within(s: Seq<char>, i: int)
    requires
        0 <= i <= s.len(),
    ensures
        within(string_like(s, i), s, i),
{
    reveal(string_like);
    lemma_ws_len(s, i);
    let a = i + ws_len(s, i);
    if a < s.len() {
        lemma_quoted_tail_within(s, a + 1, s[a]);
        lemma_find_first(s, a + 2, double_quote());
    }
    lemma_bare_len_within(s, a, false);
}

proof fn lemma_paren_string_within(s: Seq<char>, i: int)
    requires
        0 <= i <= s.len(),
    ensures
        within(paren_string(s, i), s, i),
{
    reveal(paren_string);
    lemma_ws_len(s, i);
    let a = i + ws_len(s, i);
    if occurs_at(s, a, open_paren()) {
        lemma_string_like_within(s, a + 1);
    }
}

proof fn lemma_token_within(s: Seq<char>, i: int, in_name: bool)
    requires
        0 <= i <= s.len(),
    ensures
        within(token(s, i, in_name), s, i),
{
    reveal(token);
    if i < s.len() {
        lemma_quoted_tail_within(s, i + 1, s[i]);
        lemma_find_first(s, i + 2, double_quote());
    }
    lemma_bare_len_within(s, i, in_name);
}

proof fn lemma_env_arg_within(s: Seq<char>, i: int)
    requires
        0 <= i <= s.len(),
    ensures
        within(env_arg(s, i), s, i),
{
    reveal(env_arg);
    lemma_token_within(s, i, true);
    match token(s, i, true) {
        Ok((name, n)) => {
            lemma_ws_len(s, i + n);
            let eq = i + n + ws_len(s, i + n);
            if occurs_at(s, eq, equals_sign()) {
                lemma_ws_len(s, eq + 1);
                lemma_token_within(s, eq + 1 + ws_len(s, eq + 1), false);
            }
        },
        Err(e) => {},
    }
}

proof fn lemma_env_call_within(s: Seq<char>, i: int)
    requires
        0 <= i <= s.len(),
    ensures
        within(env_call(s, i), s, i),
{
    reveal(env_call);
    lemma_ws_len(s, i);
    let a = i + ws_len(s, i);
    if occurs_at(s, a, open_paren()) {
        lemma_ws_len(s, a + 1);
        let b = a + 1 + ws_len(s, a + 1);
        lemma_env_arg_within(s, b);
    }
}

proof fn lemma_matcher_within(s: Seq<char>, i: int)
    requires
        0 <= i <= s.len(),
    ensures
        matcher(s, i) is Some ==> within(matcher(s, i)->0, s, i),
{
    reveal(matcher);
    if keyword_at(s, i, exists_word()) {
        lemma_paren_string_within(s, i + 6);
    } else if keyword_at(s, i, lang_word()) {
        lemma_paren_string_within(s, i + 4);
    } else if keyword_at(s, i, env_word()) {
        lemma_env_call_within(s, i + 3);
    }
}

proof fn lemma_primary_within(s: Seq<char>, i: int)
    requires
        0 <= i <= s.len(),
    ensures
        within(primary(s, i), s, i),
    decreases remaining(s, i), 0nat,
{
    lemma_ws_len(s, i);
    let a = i + ws_len(s, i);
    if occurs_at(s, a, open_paren()) {
        lemma_or_expr_within(s, a + 1);
        match or_expr(s, a + 1) {
            Ok((e, n)) => {
                lemma_ws_len(s, a + 1 + n);
            },
            Err(e) => {},
        }
    } else {
        lemma_matcher_within(s, a);
    }
}

proof fn lemma_not_expr_within(s: Seq<char>, i: int)
    requires
        0 <= i <= s.len(),
    ensures
        within(not_expr(s, i), s, i),
    decreases remaining(s, i), 1nat,
{
    lemma_ws_len(s, i);
    let a = i + ws_len(s, i);
    if occurs_at(s, a, not_sign()) {
        lemma_not_expr_within(s, a + 1);
    } else {
        lemma_primary_within(s, a);
    }
}

proof fn lemma_and_tail_within(s: Seq<char>, i: int, left: ExprView)
    requires
        0 <= i <= s.len(),
    ensures
        within(and_tail(s, i, left), s, i),
    decreases remaining(s, i), 2nat,
{
    lemma_ws_len(s, i);
    let a = i + ws_len(s, i);
    if occurs_at(s, a, and_sign()) {
        lemma_not_expr_within(s, a + 2);
        match not_expr(s, a + 2) {
            Ok((right, n)) => {
                lemma_and_tail_within(s, a + 2 + n, ExprView::And(Box::new(left), Box::new(right)));
            },
            Err(e) => {},
        }
    }
}

proof fn lemma_and_expr_within(s: Seq<char>, i: int)
    requires
        0 <= i <= s.len(),
    ensures
        within(and_expr(s, i), s, i),
    decreases remaining(s, i), 3nat,
{
    lemma_not_expr_within(s, i);
    match not_expr(s, i) {
        Ok((left, n)) => {
            lemma_and_tail_within(s, i + n, left);
        },
        Err(e) => {},
    }
}

proof fn lemma_or_tail_within(s: Seq<char>, i: int, left: ExprView)
    requires
        0 <= i <= s.len(),
    ensures
        within(or_tail(s, i, left), s, i),
    decreases remaining(s, i), 4nat,
{
    lemma_ws_len(s, i);
    let a = i + ws_len(s, i);
    if occurs_at(s, a, or_sign()) {
        lemma_and_expr_within(s, a + 2);
        match and_expr(s, a + 2) {
            Ok((right, n)) => {
                lemma_or_tail_within(s, a + 2 + n, ExprView::Or(Box::new(left), Box::new(right)));
            },
            Err(e) => {},
        }
    }
}

/// An expression is read within the text: what `or_expr` takes from
/// position `i` on ends at or before the end of `s`.
pub proof fn lemma_or_expr_within(s: Seq<char>, i: int)
    requires
        0 <= i <= s.len(),
    ensures
        within(or_expr(s, i), s, i),
    decreases remaining(s, i), 5nat,
{
    lemma_and_expr_within(s, i);
    match and_expr(s, i) {
        Ok((left, n)) => {
            lemma_or_tail_within(s, i + n, left);
        },
        Err(e) => {},
    }
}

} // verus!
