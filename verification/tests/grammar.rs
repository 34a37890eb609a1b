use agentsmd::error::{Error, SyntaxError};
use agentsmd::expr::{Expr, Matcher};
use agentsmd::template::{Block, Template};

fn guard_of(text: &str) -> Result<Expr, String> {
    let src = format!("<!-- if {text} -->x<!-- endif -->");
    match Template::parse(&src) {
        Ok(t) => match t.blocks.into_iter().next() {
            Some(Block::If { cond, .. }) => Ok(cond),
            other => panic!("no conditional block: {other:?}"),
        },
        Err(Error::Template(msg)) => Err(msg),
        Err(other) => panic!("unexpected error: {other:?}"),
    }
}

fn exists_at(p: &str) -> Expr {
    Expr::Matcher(Matcher::Exists(p.into()))
}

fn lang(n: &str) -> Expr {
    Expr::Matcher(Matcher::Lang(n.into()))
}

fn env(n: &str) -> Expr {
    Expr::Matcher(Matcher::EnvExists(n.into()))
}

fn env_eq(n: &str, v: &str) -> Expr {
    Expr::Matcher(Matcher::EnvEquals {
        name: n.into(),
        value: v.into(),
    })
}

fn and(a: Expr, b: Expr) -> Expr {
    Expr::And(Box::new(a), Box::new(b))
}

fn or(a: Expr, b: Expr) -> Expr {
    Expr::Or(Box::new(a), Box::new(b))
}

fn not(a: Expr) -> Expr {
    Expr::Not(Box::new(a))
}

#[test]
fn and_binds_tighter_than_or_and_not_tighter_than_and() {
    let got = guard_of("env(CI) && !env(NODE_ENV=\"production\") || exists(r\"**/*.rs\")").unwrap();
    let expected = or(
        and(env("CI"), not(env_eq("NODE_ENV", "production"))),
        exists_at("**/*.rs"),
    );
    assert_eq!(got, expected);
    assert_eq!(
        guard_of("env(A) || env(B) && env(C)").unwrap(),
        or(env("A"), and(env("B"), env("C")))
    );
    assert_eq!(
        guard_of("!env(A) && env(B)").unwrap(),
        and(not(env("A")), env("B"))
    );
}

#[test]
fn operators_group_from_the_left() {
    assert_eq!(
        guard_of("env(A) && env(B) && env(C)").unwrap(),
        and(and(env("A"), env("B")), env("C"))
    );
    assert_eq!(
        guard_of("env(A) || env(B) || env(C)").unwrap(),
        or(or(env("A"), env("B")), env("C"))
    );
}

#[test]
fn parentheses_group_and_not_chains() {
    assert_eq!(
        guard_of("env(A) && (env(B) || env(C))").unwrap(),
        and(env("A"), or(env("B"), env("C")))
    );
    assert_eq!(guard_of("((env(A)))").unwrap(), env("A"));
    assert_eq!(guard_of("!!env(A)").unwrap(), not(not(env("A"))));
    assert_eq!(guard_of("! ( ! env(A) )").unwrap(), not(not(env("A"))));
    assert_eq!(
        guard_of("!(env(A)||env(B))&&env(C)").unwrap(),
        and(not(or(env("A"), env("B"))), env("C"))
    );
}

#[test]
fn string_forms_are_read_as_written() {
    assert_eq!(guard_of("exists(\"a b\")").unwrap(), exists_at("a b"));
    assert_eq!(guard_of("exists('a \"b\"')").unwrap(), exists_at("a \"b\""));
    assert_eq!(guard_of("exists(r\"a\\b\")").unwrap(), exists_at("a\\b"));
    assert_eq!(guard_of("exists(src/*.rs)").unwrap(), exists_at("src/*.rs"));
    assert_eq!(guard_of("exists( bare )").unwrap(), exists_at("bare"));
    assert_eq!(guard_of("lang ( \"rust\" )").unwrap(), lang("rust"));
    assert_eq!(guard_of("lang(C++)").unwrap(), lang("C++"));
    assert_eq!(guard_of("exists(a&&b)").unwrap(), exists_at("a&&b"));
    assert_eq!(guard_of("exists(\"\")").unwrap(), exists_at(""));
    assert_eq!(guard_of("exists(r\"\")").unwrap(), exists_at(""));
    // A lone `r` is a bare token, and so is `r` before other text.
    assert_eq!(guard_of("exists(r)").unwrap(), exists_at("r"));
    assert_eq!(guard_of("exists(readme)").unwrap(), exists_at("readme"));
}

#[test]
fn escapes_in_quoted_strings() {
    assert_eq!(
        guard_of("exists(\"a\\nb\\rc\\td\\\\e\\'f\\\"g\")").unwrap(),
        exists_at("a\nb\rc\td\\e'f\"g")
    );
    // Any other escaped character stays behind its backslash.
    assert_eq!(guard_of("exists(\"\\q\\*\")").unwrap(), exists_at("\\q\\*"));
    assert_eq!(guard_of("exists('it\\'s')").unwrap(), exists_at("it's"));
    // The other quote needs no escape.
    assert_eq!(guard_of("exists('say \"hi\"')").unwrap(), exists_at("say \"hi\""));
}

#[test]
fn env_arguments() {
    assert_eq!(guard_of("env(CI)").unwrap(), env("CI"));
    assert_eq!(guard_of("env( CI )").unwrap(), env("CI"));
    assert_eq!(guard_of("env (CI)").unwrap(), env("CI"));
    assert_eq!(guard_of("env(A=b)").unwrap(), env_eq("A", "b"));
    assert_eq!(guard_of("env(A = b)").unwrap(), env_eq("A", "b"));
    assert_eq!(guard_of("env(A=\"b c\")").unwrap(), env_eq("A", "b c"));
    assert_eq!(guard_of("env('A'='x')").unwrap(), env_eq("A", "x"));
    assert_eq!(guard_of("env(A=r\"x\\y\")").unwrap(), env_eq("A", "x\\y"));
    assert_eq!(guard_of("env(r\"A\"=b)").unwrap(), env_eq("A", "b"));
    // An empty value is a value.
    assert_eq!(guard_of("env(A=)").unwrap(), env_eq("A", ""));
    assert_eq!(guard_of("env(A= )").unwrap(), env_eq("A", ""));
    assert_eq!(guard_of("env(A=\"\")").unwrap(), env_eq("A", ""));
    // A bare value runs up to whitespace or `)`; only a bare name ends before `=`.
    assert_eq!(guard_of("env(A=b=c)").unwrap(), env_eq("A", "b=c"));
    assert_eq!(guard_of("env(A==)").unwrap(), env_eq("A", "="));
}

#[test]
fn a_quoted_env_argument_runs_to_its_closing_quote() {
    assert_eq!(guard_of("env(X=\"a)b\")").unwrap(), env_eq("X", "a)b"));
    assert_eq!(guard_of("env(X='a)b')").unwrap(), env_eq("X", "a)b"));
    assert_eq!(guard_of("env(X=r\"a)b\")").unwrap(), env_eq("X", "a)b"));
    assert_eq!(guard_of("env(X = \") (\" )").unwrap(), env_eq("X", ") ("));
    assert_eq!(guard_of("env(\"A)B\")").unwrap(), env("A)B"));
    assert_eq!(guard_of("env(\"A=B\"=c)").unwrap(), env_eq("A=B", "c"));
    assert_eq!(guard_of("env(X=\"a\\\")b\")").unwrap(), env_eq("X", "a\")b"));
    assert_eq!(
        guard_of("env(X=\")\") && env(Y)").unwrap(),
        and(env_eq("X", ")"), env("Y"))
    );
}

#[test]
fn nothing_may_follow_an_env_argument_but_its_closing_paren() {
    for text in ["env(A B)", "env(A=b c)", "env(A \"b\")", "env(A=\"b\"c)", "env(A=b =c)"] {
        assert_eq!(guard_of(text).unwrap_err(), "missing ')' in expression", "{text:?}");
    }
}

#[test]
fn keywords_are_whole_words() {
    assert_eq!(guard_of("existsFoo(\"x\")").unwrap_err(), "expected matcher or '('");
    assert_eq!(guard_of("exists_(\"x\")").unwrap_err(), "expected matcher or '('");
    assert_eq!(guard_of("exists1(\"x\")").unwrap_err(), "expected matcher or '('");
    assert_eq!(guard_of("langs(rust)").unwrap_err(), "expected matcher or '('");
    assert_eq!(guard_of("envy(A)").unwrap_err(), "expected matcher or '('");
    assert_eq!(guard_of("env\u{e9}(A)").unwrap_err(), "expected matcher or '('");
    assert_eq!(guard_of("Exists(\"x\")").unwrap_err(), "expected matcher or '('");
}

#[test]
fn every_guard_error_has_its_input() {
    let cases: Vec<(&str, SyntaxError, &str)> = vec![
        ("env(A) env(B)", SyntaxError::TrailingCharacters, "trailing characters in expression"),
        ("env(A))", SyntaxError::TrailingCharacters, "trailing characters in expression"),
        ("env(A) & env(B)", SyntaxError::TrailingCharacters, "trailing characters in expression"),
        ("(env(A)", SyntaxError::ExpectedCloseParen, "expected ')'"),
        ("(env(A) env(B))", SyntaxError::ExpectedCloseParen, "expected ')'"),
        ("exists(\"a\" \"b\")", SyntaxError::ExpectedCloseParen, "expected ')'"),
        ("exists(a", SyntaxError::ExpectedCloseParen, "expected ')'"),
        ("env A", SyntaxError::ExpectedOpenParenAfterEnv, "expected '(' after env"),
        ("env", SyntaxError::ExpectedOpenParenAfterEnv, "expected '(' after env"),
        ("env(A", SyntaxError::MissingCloseParen, "missing ')' in expression"),
        ("env(", SyntaxError::MissingCloseParen, "missing ')' in expression"),
        ("env(A=b", SyntaxError::MissingCloseParen, "missing ')' in expression"),
        ("env(A=", SyntaxError::MissingCloseParen, "missing ')' in expression"),
        ("", SyntaxError::ExpectedMatcher, "expected matcher or '('"),
        ("foo(bar)", SyntaxError::ExpectedMatcher, "expected matcher or '('"),
        ("env(A) &&", SyntaxError::ExpectedMatcher, "expected matcher or '('"),
        ("env(A) || )", SyntaxError::ExpectedMatcher, "expected matcher or '('"),
        ("!", SyntaxError::ExpectedMatcher, "expected matcher or '('"),
        ("()", SyntaxError::ExpectedMatcher, "expected matcher or '('"),
        ("exists \"a\"", SyntaxError::ExpectedOpenParen, "expected '('"),
        ("lang", SyntaxError::ExpectedOpenParen, "expected '('"),
        ("exists()", SyntaxError::ExpectedString, "expected string"),
        ("lang(  )", SyntaxError::ExpectedString, "expected string"),
        ("exists(\"a\\", SyntaxError::UnterminatedEscape, "unterminated escape"),
        ("exists(\"a", SyntaxError::UnterminatedString, "unterminated string"),
        ("exists('a\")", SyntaxError::UnterminatedString, "unterminated string"),
        ("env(A=\"b)", SyntaxError::UnterminatedString, "unterminated string"),
        ("exists(r\"a", SyntaxError::UnterminatedRawString, "unterminated raw string"),
        ("env(A=r\"b)", SyntaxError::UnterminatedRawString, "unterminated raw string"),
        ("env()", SyntaxError::EmptyEnvArgument, "empty env() argument"),
        ("env(   )", SyntaxError::EmptyEnvArgument, "empty env() argument"),
        ("env(=x)", SyntaxError::EmptyEnvName, "empty env var name"),
        ("env( = x )", SyntaxError::EmptyEnvName, "empty env var name"),
        ("env(\"\"=x)", SyntaxError::EmptyEnvName, "empty env var name"),
    ];
    for (text, kind, message) in cases {
        assert_eq!(guard_of(text).unwrap_err(), message, "{text:?}");
        match kind.to_error() {
            Error::Template(msg) => assert_eq!(msg, message),
            other => panic!("unexpected error: {other:?}"),
        }
    }
}

#[test]
fn every_syntax_error_has_its_message() {
    let all = [
        (SyntaxError::UnterminatedTag, "unterminated tag; missing '-->'"),
        (SyntaxError::ContentAfterEndif, "unexpected content after 'endif'"),
        (SyntaxError::StrayEndif, "stray 'endif'"),
        (SyntaxError::UnclosedIf, "unclosed 'if' block"),
        (SyntaxError::TrailingCharacters, "trailing characters in expression"),
        (SyntaxError::ExpectedCloseParen, "expected ')'"),
        (SyntaxError::ExpectedOpenParenAfterEnv, "expected '(' after env"),
        (SyntaxError::MissingCloseParen, "missing ')' in expression"),
        (SyntaxError::ExpectedMatcher, "expected matcher or '('"),
        (SyntaxError::ExpectedOpenParen, "expected '('"),
        (SyntaxError::ExpectedString, "expected string"),
        (SyntaxError::ExpectedQuote, "expected quote"),
        (SyntaxError::UnterminatedEscape, "unterminated escape"),
        (SyntaxError::UnterminatedString, "unterminated string"),
        (SyntaxError::ExpectedRawQuote, "expected '\"' after r"),
        (SyntaxError::UnterminatedRawString, "unterminated raw string"),
        (SyntaxError::EmptyEnvArgument, "empty env() argument"),
        (SyntaxError::EmptyEnvName, "empty env var name"),
    ];
    for (kind, message) in all {
        match kind.to_error() {
            Error::Template(msg) => assert_eq!(msg, message),
            other => panic!("unexpected error: {other:?}"),
        }
    }
}

#[test]
fn whitespace_in_guards_is_unicode_whitespace() {
    assert_eq!(
        guard_of("\u{a0}env(A)\u{2003}&&\tenv(B)\u{3000}").unwrap(),
        and(env("A"), env("B"))
    );
    assert_eq!(guard_of("exists(a\u{2003}b)").unwrap_err(), "expected ')'");
}
