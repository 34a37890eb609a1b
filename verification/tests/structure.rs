use agentsmd::error::Error;
use agentsmd::expr::{Expr, Matcher};
use agentsmd::parse::parse_template;
use agentsmd::template::Block;

fn failure(input: &str) -> String {
    match parse_template(input) {
        Ok(t) => panic!("{input:?} parsed: {t:?}"),
        Err(Error::Template(msg)) => msg,
        Err(other) => panic!("unexpected error: {other:?}"),
    }
}

fn text(s: &str) -> Block {
    Block::Text(s.to_string())
}

fn when(name: &str, body: Vec<Block>) -> Block {
    Block::If {
        cond: Expr::Matcher(Matcher::EnvExists(name.into())),
        body,
    }
}

#[test]
fn stray_and_unclosed_tags_are_told_apart() {
    assert_eq!(failure("oops <!-- endif -->"), "stray 'endif'");
    assert_eq!(failure("<!-- if env(CI) -->"), "unclosed 'if' block");
    assert_eq!(
        failure("<!-- if env(A) --><!-- endif --><!-- endif -->"),
        "stray 'endif'"
    );
    assert_eq!(
        failure("<!-- if env(A) --><!-- if env(B) --><!-- endif -->"),
        "unclosed 'if' block"
    );
    assert_eq!(
        failure("<!-- endif --><!-- if env(A) -->"),
        "stray 'endif'"
    );
}

#[test]
fn unbalanced_tags_are_rejected_at_every_depth() {
    for depth in 0..12usize {
        let opens = "<!-- if env(A) -->".repeat(depth);
        let closes = "<!-- endif -->".repeat(depth);
        assert!(parse_template(&format!("{opens}x{closes}")).is_ok());
        assert_eq!(
            failure(&format!("{opens}<!-- if env(B) -->x{closes}")),
            "unclosed 'if' block"
        );
        assert_eq!(
            failure(&format!("{opens}x{closes}<!-- endif -->")),
            "stray 'endif'"
        );
    }
}

#[test]
fn deep_nesting_is_accepted() {
    let depth = 2000usize;
    let mut src = String::new();
    for _ in 0..depth {
        src.push_str("<!-- if env(A) -->a");
    }
    for _ in 0..depth {
        src.push_str("<!-- endif -->");
    }
    let t = parse_template(&src).unwrap();
    assert_eq!(t.blocks.len(), 1);
    let mut seen = 0usize;
    let mut level = &t.blocks;
    while let Some(Block::If { body, .. }) = level.iter().find(|b| matches!(b, Block::If { .. })) {
        seen += 1;
        level = body;
    }
    assert_eq!(seen, depth);
    // Taking the tree down level by level keeps the drop off the stack.
    let mut rest = t.blocks;
    while let Some(block) = rest.pop() {
        if let Block::If { body, .. } = block {
            rest = body;
        }
    }
}

#[test]
fn malformed_tags() {
    assert_eq!(failure("a <!-- note"), "unterminated tag; missing '-->'");
    assert_eq!(failure("<!--"), "unterminated tag; missing '-->'");
    assert_eq!(failure("<!-- if env(A) --"), "unterminated tag; missing '-->'");
    assert_eq!(
        failure("<!-- if env(A) -->x<!-- endif"),
        "unterminated tag; missing '-->'"
    );
    assert_eq!(
        failure("<!-- if env(A) -->x<!-- endif x -->"),
        "unexpected content after 'endif'"
    );
    assert_eq!(
        failure("<!-- if env(A) -->x<!-- endiffy -->"),
        "unexpected content after 'endif'"
    );
    // A guard that does not parse fails the template.
    assert_eq!(failure("<!-- if -->x<!-- endif -->"), "expected matcher or '('");
    assert_eq!(failure("<!-- iffy -->"), "expected matcher or '('");
}

#[test]
fn the_first_error_in_the_text_is_reported() {
    assert_eq!(
        failure("<!-- endif --><!-- if ( -->"),
        "stray 'endif'"
    );
    assert_eq!(
        failure("<!-- if ( --><!-- endif --><!-- endif -->"),
        "expected matcher or '('"
    );
    assert_eq!(
        failure("<!-- if env(A) --><!-- oops"),
        "unterminated tag; missing '-->'"
    );
    // Content behind `endif` is refused before the tag is matched to an `if`.
    assert_eq!(
        failure("<!-- endif x -->"),
        "unexpected content after 'endif'"
    );
}

#[test]
fn whitespace_in_tags_is_optional() {
    let tight = parse_template("<!--if env(A)-->x<!--endif-->").unwrap();
    assert_eq!(tight.blocks, vec![when("A", vec![text("x")])]);
    let loose = parse_template("<!-- \n if \t env(A) \n -->x<!--\t endif \n\n -->").unwrap();
    assert_eq!(loose.blocks, vec![when("A", vec![text("x")])]);
    let glued = parse_template("<!-- ifenv(A) -->x<!-- endif -->").unwrap();
    assert_eq!(glued.blocks, vec![when("A", vec![text("x")])]);
}

#[test]
fn text_between_tags_is_kept_as_it_stands() {
    let t = parse_template("  a \n<!-- if env(A) --> b <!-- endif -->\n c  ").unwrap();
    assert_eq!(
        t.blocks,
        vec![text("  a \n"), when("A", vec![text(" b ")]), text("\n c  ")]
    );
    // Empty spans give no block.
    let t = parse_template("<!-- if env(A) --><!-- endif --><!-- if env(B) --><!-- endif -->")
        .unwrap();
    assert_eq!(t.blocks, vec![when("A", vec![]), when("B", vec![])]);
}

#[test]
fn other_tags_pass_through_with_their_delimiters() {
    let t = parse_template("<!-- note:\nInternal only\n-->\nVisible text\n").unwrap();
    assert_eq!(
        t.blocks,
        vec![text("<!-- note:\nInternal only\n-->"), text("\nVisible text\n")]
    );
    let t = parse_template("<!-- if env(A) --><!--   x --><!-- endif -->").unwrap();
    assert_eq!(t.blocks, vec![when("A", vec![text("<!--   x -->")])]);
    // The closer of a tag is the first `-->` behind its opener.
    let t = parse_template("<!-- a --> b -->").unwrap();
    assert_eq!(t.blocks, vec![text("<!-- a -->"), text(" b -->")]);
    let t = parse_template("<!-- <!-- -->").unwrap();
    assert_eq!(t.blocks, vec![text("<!-- <!-- -->")]);
}

#[test]
fn a_guard_ends_at_the_first_closer() {
    // The guard text is cut at `-->` before it is parsed.
    assert_eq!(
        failure("<!-- if exists(\"a-->b\") -->x<!-- endif -->"),
        "unterminated string"
    );
}

fn literal(blocks: &[Block], out: &mut String) {
    for b in blocks {
        match b {
            Block::Text(t) => out.push_str(t),
            Block::If { body, .. } => literal(body, out),
        }
    }
}

#[test]
fn the_blocks_hold_the_text_without_its_directives() {
    let cases = [
        ("", ""),
        ("plain", "plain"),
        ("a<!-- if env(A) -->b<!-- endif -->c", "abc"),
        ("<!-- if env(A) --><!-- endif -->", ""),
        (
            "1<!-- if env(A) -->2<!-- note -->3<!-- if env(B) -->4<!-- endif -->5<!-- endif -->6",
            "12<!-- note -->3456",
        ),
        ("<!--x-->\n<!--if env(A)-->\n<!--endif-->\n", "<!--x-->\n\n\n"),
    ];
    for (input, expected) in cases {
        let t = parse_template(input).unwrap();
        let mut text = String::new();
        literal(&t.blocks, &mut text);
        assert_eq!(text, expected, "{input:?}");
    }
}

fn nest(depth: usize) -> Vec<Block> {
    let mut blocks = vec![text("x")];
    for _ in 0..depth {
        blocks = vec![when("A", blocks)];
    }
    blocks
}

#[test]
fn the_text_in_n_blocks_parses_to_the_tree_of_depth_n() {
    for depth in [0usize, 1, 2, 3, 7, 64, 300] {
        let src = format!(
            "{}x{}",
            "<!-- if env(A) -->".repeat(depth),
            "<!-- endif -->".repeat(depth)
        );
        let t = parse_template(&src).unwrap();
        let expected = nest(depth);
        assert!(t.blocks == expected, "depth {depth}");
        // Both trees are taken down level by level.
        for mut rest in [t.blocks, expected] {
            while let Some(block) = rest.pop() {
                if let Block::If { body, .. } = block {
                    rest = body;
                }
            }
        }
    }
}
