//! Nesting without a limit: the template that holds one block in `n`
//! conditional blocks parses to the tree of that depth, for every `n`.
//!
//! Which characters are whitespace is not stated in this library, so the law
//! is stated of every reading of whitespace under which the characters of
//! the two tags are what they are taken for: the space separates, and the
//! others do not.

use crate::error::SyntaxError;
use crate::expr::{ExprView, MatcherView};
use crate::guard::{
    and_expr, and_tail, bare_len, env_arg, env_call, guard, keyword_at, matcher, not_expr,
    or_expr, or_tail, primary, token,
};
use crate::markup::{body_at, tag_at, template_blocks, text_block, Stop, Tag};
use crate::template::BlockView;
use crate::text::{
    char_is_alphanumeric, char_is_whitespace, find, occurs_at, trailing_ws_len, trim, ws_len,
};
use crate::tokens::{
    and_sign, close_paren, endif_word, env_word, equals_sign, exists_word, if_word, lang_word,
    not_sign, open_paren, or_sign, tag_close, tag_open,
};
use vstd::prelude::*;

verus! {

/// The space is whitespace, the other characters of the tags
/// `<!-- if env(A) -->` and `<!-- endif -->` are none, and `(` continues no
/// identifier.
pub open spec fn tag_chars_are_plain() -> bool {
    &&& char_is_whitespace(' ')
    &&& !char_is_whitespace('i')
    &&& !char_is_whitespace('e')
    &&& !char_is_whitespace('(')
    &&& !char_is_whitespace('A')
    &&& !char_is_whitespace(')')
    &&& !char_is_alphanumeric('(')
}

/// The guard `env(A)`.
pub open spec fn sample_guard() -> ExprView {
    ExprView::Matcher(MatcherView::EnvExists(seq!['A']))
}

/// The text `env(A)`.
spec fn guard_text() -> Seq<char> {
    seq!['e', 'n', 'v', '(', 'A', ')']
}

proof fn lemma_guard_text()
    requires
        tag_chars_are_plain(),
    ensures
        ws_len(guard_text(), 0) == 0,
        ws_len(guard_text(), 3) == 0,
        ws_len(guard_text(), 4) == 0,
        ws_len(guard_text(), 5) == 0,
        ws_len(guard_text(), 6) == 0,
        !occurs_at(guard_text(), 0, not_sign()),
        !occurs_at(guard_text(), 0, open_paren()),
        !occurs_at(guard_text(), 0, exists_word()),
        !occurs_at(guard_text(), 0, lang_word()),
        keyword_at(guard_text(), 0, env_word()),
        occurs_at(guard_text(), 3, open_paren()),
        !occurs_at(guard_text(), 4, close_paren()),
        !occurs_at(guard_text(), 5, equals_sign()),
        occurs_at(guard_text(), 5, close_paren()),
        !occurs_at(guard_text(), 6, and_sign()),
        !occurs_at(guard_text(), 6, or_sign()),
        bare_len(guard_text(), 4, true) == 1,
        guard_text().subrange(4, 5) == seq!['A'],
{
    let s = guard_text();
    assert(s.subrange(0, 1)[0] == 'e');
    assert(s.subrange(0, 6)[1] == 'n');
    assert(s.subrange(0, 4)[0] == 'e');
    assert(s.subrange(0, 3) =~= env_word());
    assert(s.subrange(3, 4) =~= open_paren());
    assert(s.subrange(4, 5)[0] == 'A');
    assert(s.subrange(5, 6)[0] == ')');
    assert(s.subrange(5, 6) =~= close_paren());
    assert(bare_len(s, 5, true) == 0);
    assert(s.subrange(4, 5) =~= seq!['A']);
}

proof fn lemma_sample_env_call()
    requires
        tag_chars_are_plain(),
    ensures
        env_call(guard_text(), 3) == Ok::<(MatcherView, nat), SyntaxError>(
            (MatcherView::EnvExists(seq!['A']), 3),
        ),
{
    let s = guard_text();
    lemma_guard_text();
    assert(token(s, 4, true) == Ok::<(Seq<char>, nat), SyntaxError>((seq!['A'], 1))) by {
        reveal(token);
    }
    assert(env_arg(s, 4) == Ok::<((Seq<char>, Option<Seq<char>>), nat), SyntaxError>(
        ((seq!['A'], None), 1),
    )) by {
        reveal(env_arg);
    }
    reveal(env_call);
}

proof fn lemma_sample_primary()
    requires
        tag_chars_are_plain(),
    ensures
        primary(guard_text(), 0) == Ok::<(ExprView, nat), SyntaxError>((sample_guard(), 6)),
{
    let s = guard_text();
    lemma_guard_text();
    lemma_sample_env_call();
    assert(matcher(s, 0) == Some(
        Ok::<(MatcherView, nat), SyntaxError>((MatcherView::EnvExists(seq!['A']), 6)),
    )) by {
        reveal(matcher);
    }
}

proof fn lemma_sample_and_expr()
    requires
        tag_chars_are_plain(),
    ensures
        and_expr(guard_text(), 0) == Ok::<(ExprView, nat), SyntaxError>((sample_guard(), 6)),
{
    let s = guard_text();
    lemma_guard_text();
    lemma_sample_primary();
    assert(not_expr(s, 0) == Ok::<(ExprView, nat), SyntaxError>((sample_guard(), 6)));
    assert(and_tail(s, 6, sample_guard()) == Ok::<(ExprView, nat), SyntaxError>(
        (sample_guard(), 0),
    ));
}

proof fn lemma_sample_guard()
    requires
        tag_chars_are_plain(),
    ensures
        guard(guard_text()) == Ok::<ExprView, SyntaxError>(sample_guard()),
{
    let s = guard_text();
    lemma_guard_text();
    lemma_sample_and_expr();
    assert(or_tail(s, 6, sample_guard()) == Ok::<(ExprView, nat), SyntaxError>(
        (sample_guard(), 0),
    ));
    assert(or_expr(s, 0) == Ok::<(ExprView, nat), SyntaxError>((sample_guard(), 6)));
    reveal(guard);
}

/// The tag `<!-- if env(A) -->`.
pub open spec fn sample_open() -> Seq<char> {
    seq![
        '<', '!', '-', '-', ' ', 'i', 'f', ' ', 'e', 'n', 'v', '(', 'A', ')', ' ', '-', '-', '>',
    ]
}

/// The tag `<!-- endif -->`.
pub open spec fn sample_close() -> Seq<char> {
    seq!['<', '!', '-', '-', ' ', 'e', 'n', 'd', 'i', 'f', ' ', '-', '-', '>']
}

/// The text `x` in `n` blocks: `n` times the opening tag, `x`, and `n`
/// times the closing tag.
pub open spec fn nested_text(n: nat) -> Seq<char>
    decreases n,
{
    if n == 0 {
        seq!['x']
    } else {
        sample_open() + nested_text((n - 1) as nat) + sample_close()
    }
}

/// The tree of depth `n`: the text `x` in `n` blocks under the guard `env(A)`.
pub open spec fn nested_blocks(n: nat) -> Seq<BlockView>
    decreases n,
{
    if n == 0 {
        seq![BlockView::Text(seq!['x'])]
    } else {
        seq![BlockView::If { cond: sample_guard(), body: nested_blocks((n - 1) as nat) }]
    }
}

/// `u` stands in `s` at position `i`.
spec fn holds_at(s: Seq<char>, i: int, u: Seq<char>) -> bool {
    0 <= i && i + u.len() <= s.len() && s.subrange(i, i + u.len()) == u
}

proof fn lemma_chars_at(s: Seq<char>, i: int, u: Seq<char>)
    requires
        holds_at(s, i, u),
    ensures
        forall|k: int| 0 <= k < u.len() ==> s[i + k] == #[trigger] u[k],
{
    assert forall|k: int| 0 <= k < u.len() implies s[i + k] == #[trigger] u[k] by {
        assert(s.subrange(i, i + u.len())[k] == s[i + k]);
    }
}

proof fn lemma_open_tag(s: Seq<char>, i: int)
    requires
        tag_chars_are_plain(),
        holds_at(s, i, sample_open()),
    ensures
        find(s, i, tag_open()) == Some(0nat),
        tag_at(s, i + 4) == Ok::<(Tag, nat), SyntaxError>((Tag::If(sample_guard()), 14)),
{
    let u = sample_open();
    lemma_chars_at(s, i, u);
    assert(s[i] == u[0] && s[i + 1] == u[1] && s[i + 2] == u[2] && s[i + 3] == u[3]);
    assert(s[i + 4] == u[4] && s[i + 5] == u[5] && s[i + 6] == u[6] && s[i + 7] == u[7]);
    assert(s[i + 8] == u[8] && s[i + 9] == u[9] && s[i + 10] == u[10] && s[i + 11] == u[11]);
    assert(s[i + 12] == u[12] && s[i + 13] == u[13] && s[i + 14] == u[14]);
    assert(s[i + 15] == u[15] && s[i + 16] == u[16] && s[i + 17] == u[17]);
    assert(occurs_at(s, i, tag_open())) by {
        assert(s.subrange(i, i + 4) =~= tag_open());
    }
    assert(ws_len(s, i + 4) == 1) by {
        assert(ws_len(s, i + 5) == 0);
    }
    assert(occurs_at(s, i + 5, if_word())) by {
        assert(s.subrange(i + 5, i + 7) =~= if_word());
    }
    assert(ws_len(s, i + 7) == 1) by {
        assert(ws_len(s, i + 8) == 0);
    }
    assert(find(s, i + 8, tag_close()) == Some(7nat)) by {
        assert(occurs_at(s, i + 15, tag_close())) by {
            assert(s.subrange(i + 15, i + 18) =~= tag_close());
        }
        assert(find(s, i + 15, tag_close()) == Some(0nat));
        assert(!occurs_at(s, i + 14, tag_close())) by {
            assert(s.subrange(i + 14, i + 17)[0] == ' ');
        }
        assert(find(s, i + 14, tag_close()) == Some(1nat));
        assert(!occurs_at(s, i + 13, tag_close())) by {
            assert(s.subrange(i + 13, i + 16)[0] == ')');
        }
        assert(find(s, i + 13, tag_close()) == Some(2nat));
        assert(!occurs_at(s, i + 12, tag_close())) by {
            assert(s.subrange(i + 12, i + 15)[0] == 'A');
        }
        assert(find(s, i + 12, tag_close()) == Some(3nat));
        assert(!occurs_at(s, i + 11, tag_close())) by {
            assert(s.subrange(i + 11, i + 14)[0] == '(');
        }
        assert(find(s, i + 11, tag_close()) == Some(4nat));
        assert(!occurs_at(s, i + 10, tag_close())) by {
            assert(s.subrange(i + 10, i + 13)[0] == 'v');
        }
        assert(find(s, i + 10, tag_close()) == Some(5nat));
        assert(!occurs_at(s, i + 9, tag_close())) by {
            assert(s.subrange(i + 9, i + 12)[0] == 'n');
        }
        assert(find(s, i + 9, tag_close()) == Some(6nat));
        assert(!occurs_at(s, i + 8, tag_close())) by {
            assert(s.subrange(i + 8, i + 11)[0] == 'e');
        }
    }
    let inner = s.subrange(i + 8, i + 15);
    assert(trim(inner) == guard_text()) by {
        assert(inner[0] == 'e' && inner[5] == ')' && inner[6] == ' ');
        assert(ws_len(inner, 0) == 0);
        assert(inner.last() == ' ');
        assert(inner.drop_last().last() == ')');
        assert(trailing_ws_len(inner.drop_last()) == 0);
        assert(trailing_ws_len(inner) == 1);
        assert(inner.subrange(0, 6) =~= guard_text());
    }
    lemma_sample_guard();
    reveal(tag_at);
}

proof fn lemma_close_tag(s: Seq<char>, i: int)
    requires
        tag_chars_are_plain(),
        holds_at(s, i, sample_close()),
    ensures
        find(s, i, tag_open()) == Some(0nat),
        tag_at(s, i + 4) == Ok::<(Tag, nat), SyntaxError>((Tag::EndIf, 10)),
{
    let u = sample_close();
    lemma_chars_at(s, i, u);
    assert(s[i] == u[0] && s[i + 1] == u[1] && s[i + 2] == u[2] && s[i + 3] == u[3]);
    assert(s[i + 4] == u[4] && s[i + 5] == u[5] && s[i + 6] == u[6] && s[i + 7] == u[7]);
    assert(s[i + 8] == u[8] && s[i + 9] == u[9] && s[i + 10] == u[10] && s[i + 11] == u[11]);
    assert(s[i + 12] == u[12] && s[i + 13] == u[13]);
    assert(occurs_at(s, i, tag_open())) by {
        assert(s.subrange(i, i + 4) =~= tag_open());
    }
    assert(ws_len(s, i + 4) == 1) by {
        assert(ws_len(s, i + 5) == 0);
    }
    assert(!occurs_at(s, i + 5, if_word())) by {
        assert(s.subrange(i + 5, i + 7)[0] == 'e');
    }
    assert(occurs_at(s, i + 5, endif_word())) by {
        assert(s.subrange(i + 5, i + 10) =~= endif_word());
    }
    assert(find(s, i + 10, tag_close()) == Some(1nat)) by {
        assert(occurs_at(s, i + 11, tag_close())) by {
            assert(s.subrange(i + 11, i + 14) =~= tag_close());
        }
        assert(find(s, i + 11, tag_close()) == Some(0nat));
        assert(!occurs_at(s, i + 10, tag_close())) by {
            assert(s.subrange(i + 10, i + 13)[0] == ' ');
        }
    }
    let tail = s.subrange(i + 10, i + 11);
    assert(trim(tail).len() == 0) by {
        assert(tail[0] == ' ');
        assert(ws_len(tail, 1) == 0);
        assert(ws_len(tail, 0) == 1);
    }
    reveal(tag_at);
}

/// Behind its closing tag, a nested text reads as a body of that depth
/// that ends before an `endif` tag.
proof fn lemma_nested_body(s: Seq<char>, i: int, k: nat)
    requires
        tag_chars_are_plain(),
        holds_at(s, i, nested_text(k) + sample_close()),
    ensures
        body_at(s, i) == Ok::<(Seq<BlockView>, Stop, nat), SyntaxError>(
            (nested_blocks(k), Stop::EndIf, nested_text(k).len() + 14),
        ),
    decreases k,
{
    let t = nested_text(k);
    let u = t + sample_close();
    let none = Seq::<BlockView>::empty();
    if k == 0 {
        assert(s[i] == 'x') by {
            assert(s.subrange(i, i + u.len())[0] == u[0]);
        }
        assert(holds_at(s, i + 1, sample_close())) by {
            assert(s.subrange(i + 1, i + 15) =~= u.subrange(1, 15));
            assert(u.subrange(1, 15) =~= sample_close());
        }
        lemma_close_tag(s, i + 1);
        assert(!occurs_at(s, i, tag_open())) by {
            assert(s.subrange(i, i + 4)[0] == 'x');
        }
        assert(find(s, i, tag_open()) == Some(1nat));
        assert(s.subrange(i, i + 1) =~= seq!['x']);
        assert(text_block(s, i, i + 1) == nested_blocks(0));
    } else {
        let inner = nested_text((k - 1) as nat);
        let len = inner.len() as int;
        assert(t.len() == 18 + len + 14);
        assert(holds_at(s, i, sample_open())) by {
            assert(s.subrange(i, i + 18) =~= u.subrange(0, 18));
            assert(u.subrange(0, 18) =~= sample_open());
        }
        lemma_open_tag(s, i);
        assert(holds_at(s, i + 18, inner + sample_close())) by {
            assert(s.subrange(i + 18, i + 18 + len + 14) =~= u.subrange(18, 18 + len + 14));
            assert(u.subrange(18, 18 + len + 14) =~= inner + sample_close());
        }
        lemma_nested_body(s, i + 18, (k - 1) as nat);
        let after = i + 18 + len + 14;
        assert(holds_at(s, after, sample_close())) by {
            assert(s.subrange(after, after + 14) =~= u.subrange(18 + len + 14, 18 + len + 28));
            assert(u.subrange(18 + len + 14, 18 + len + 28) =~= sample_close());
        }
        lemma_close_tag(s, after);
        assert(text_block(s, i, i + 0) == none);
        assert(text_block(s, after, after + 0) == none);
        assert(body_at(s, after) == Ok::<(Seq<BlockView>, Stop, nat), SyntaxError>(
            (none, Stop::EndIf, 14),
        ));
        let block = BlockView::If { cond: sample_guard(), body: nested_blocks((k - 1) as nat) };
        assert(none + seq![block] + none =~= nested_blocks(k));
    }
}

/// Nesting has no limit: for every `n`, the text `x` in `n` conditional
/// blocks is a template, and its blocks are the tree of depth `n`.
pub proof fn lemma_nesting_parses(n: nat)
    ensures
        tag_chars_are_plain() ==> template_blocks(nested_text(n)) == Ok::<
            Seq<BlockView>,
            SyntaxError,
        >(nested_blocks(n)),
{
    if tag_chars_are_plain() {
        let s = nested_text(n);
        let none = Seq::<BlockView>::empty();
        if n == 0 {
            assert(find(s, 0, tag_open()) is None);
            assert(s.subrange(0, 1) =~= seq!['x']);
            assert(text_block(s, 0, 1) == nested_blocks(0));
        } else {
            let inner = nested_text((n - 1) as nat);
            let len = inner.len() as int;
            assert(s.len() == 18 + len + 14);
            assert(holds_at(s, 0, sample_open())) by {
                assert(s.subrange(0, 18) =~= sample_open());
            }
            lemma_open_tag(s, 0);
            assert(holds_at(s, 18, inner + sample_close())) by {
                assert(s.subrange(18, 18 + len + 14) =~= inner + sample_close());
            }
            lemma_nested_body(s, 18, (n - 1) as nat);
            assert(text_block(s, 0, 0) == none);
            assert(body_at(s, s.len() as int) == Ok::<(Seq<BlockView>, Stop, nat), SyntaxError>(
                (none, Stop::End, 0),
            ));
            let block = BlockView::If { cond: sample_guard(), body: nested_blocks((n - 1) as nat) };
            assert(none + seq![block] + none =~= nested_blocks(n));
        }
    }
}

} // verus!
