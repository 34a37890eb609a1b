use agentsmd::error::Error;
use agentsmd::expr::{Expr, Matcher};
use agentsmd::parse::parse_template;
use agentsmd::template::{Block, Template};

enum Check {
    BlocksLen(usize),
    HasMatcher(Matcher),
    HasText(&'static str),
}

fn ast_contains_matcher(blocks: &[Block], target: &Matcher) -> bool {
    for b in blocks {
        match b {
            Block::Text(_) => {}
            Block::If { cond, body } => {
                if expr_contains_matcher(cond, target) {
                    return true;
                }
                if ast_contains_matcher(body, target) {
                    return true;
                }
            }
        }
    }
    false
}

fn expr_contains_matcher(expr: &Expr, target: &Matcher) -> bool {
    match expr {
        Expr::Matcher(m) => m == target,
        Expr::And(a, b) | Expr::Or(a, b) => {
            expr_contains_matcher(a, target) || expr_contains_matcher(b, target)
        }
        Expr::Not(e) => expr_contains_matcher(e, target),
    }
}

fn ast_contains_text(blocks: &[Block], needle: &str) -> bool {
    for b in blocks {
        match b {
            Block::Text(s) => {
                if s.contains(needle) {
                    return true;
                }
            }
            Block::If { body, .. } => {
                if ast_contains_text(body, needle) {
                    return true;
                }
            }
        }
    }
    false
}

fn validate(template: &Template, checks: &[Check]) {
    for c in checks {
        match c {
            Check::BlocksLen(n) => assert_eq!(template.blocks.len(), *n),
            Check::HasMatcher(m) => assert!(ast_contains_matcher(&template.blocks, m)),
            Check::HasText(s) => assert!(ast_contains_text(&template.blocks, s)),
        }
    }
}

#[test]
fn test_parse_success() {
    struct Case {
        name: &'static str,
        input: &'static str,
        checks: Vec<Check>,
    }
    let cases = vec![
        Case {
            name: "plain text",
            input: "Hello world",
            checks: vec![Check::BlocksLen(1), Check::HasText("Hello world")],
        },
        Case {
            name: "simple if exists",
            input: "<!-- if exists(\"Cargo.toml\") -->\nRun cargo build\n<!-- endif -->",
            checks: vec![
                Check::BlocksLen(1),
                Check::HasMatcher(Matcher::Exists("Cargo.toml".into())),
                Check::HasText("Run cargo build"),
            ],
        },
        Case {
            name: "nested if",
            input: "<!-- if env(CI) -->\nA\n<!-- if exists('src/**') -->B<!-- endif -->\n<!-- endif -->",
            checks: vec![
                Check::BlocksLen(1),
                Check::HasMatcher(Matcher::EnvExists("CI".into())),
                Check::HasMatcher(Matcher::Exists("src/**".into())),
                Check::HasText("B"),
            ],
        },
        Case {
            name: "complex expr",
            input: "<!-- if env(CI) && !env(NODE_ENV=\"production\") || exists(r\"**/*.rs\") -->x<!-- endif -->",
            checks: vec![Check::BlocksLen(1), Check::HasText("x")],
        },
        Case {
            name: "note comments are preserved in template",
            input: "<!-- note:\nInternal only\n-->\nVisible text\n",
            checks: vec![
                Check::HasText("<!--"),
                Check::HasText("note:"),
                Check::HasText("Internal only"),
                Check::HasText("Visible text"),
            ],
        },
    ];

    for c in cases {
        let tpl = match parse_template(c.input) {
            Ok(t) => t,
            Err(e) => panic!("{}: {}", c.name, e.to_string()),
        };
        validate(&tpl, &c.checks);
    }
}

#[test]
fn test_parse_error() {
    struct ErrCase {
        name: &'static str,
        input: &'static str,
        contains: &'static str,
    }
    let cases = vec![
        ErrCase {
            name: "unmatched endif",
            input: "oops <!-- endif -->",
            contains: "stray",
        },
        ErrCase {
            name: "unclosed if",
            input: "<!-- if env(CI) -->",
            contains: "unclosed",
        },
    ];
    for c in cases {
        let err = parse_template(c.input).unwrap_err();
        match err {
            Error::Template(msg) => assert!(msg.contains(c.contains), "{}: {msg}", c.name),
            other => panic!("{}: unexpected error {other:?}", c.name),
        }
    }
}
