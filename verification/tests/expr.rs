use agentsmd::error::Error;
use agentsmd::expr::{Expr, Matcher};
use agentsmd::parse::parse_expr;
use agentsmd::project::{EnvVar, Project, ProjectFile};

fn file(path: &str) -> ProjectFile {
    ProjectFile {
        path: path.to_string(),
        extension: std::path::Path::new(path)
            .extension()
            .and_then(|e| e.to_str())
            .map(|e| e.to_string()),
    }
}

fn setup(files: &[&str]) -> Project {
    Project::new(files.iter().map(|f| file(f)).collect(), Vec::new())
}

fn with_env(files: &[&str], env: &[(&str, &str)]) -> Project {
    Project::new(
        files.iter().map(|f| file(f)).collect(),
        env.iter()
            .map(|(n, v)| EnvVar {
                name: n.to_string(),
                value: v.to_string(),
            })
            .collect(),
    )
}

#[test]
fn exists_supports_common_patterns() {
    struct Case {
        name: &'static str,
        files: &'static [&'static str],
        expr: Expr,
        expect: bool,
    }
    let cases = vec![
        Case {
            name: "simple true",
            files: &["Cargo.toml"],
            expr: Expr::Matcher(Matcher::Exists("Cargo.toml".into())),
            expect: true,
        },
        Case {
            name: "simple false",
            files: &["Cargo.toml"],
            expr: Expr::Matcher(Matcher::Exists("README.md".into())),
            expect: false,
        },
        Case {
            name: "recursive glob",
            files: &["src/main.rs"],
            expr: Expr::Matcher(Matcher::Exists("**/*.rs".into())),
            expect: true,
        },
        Case {
            name: "brace alternation",
            files: &["src/lib.rs"],
            expr: Expr::Matcher(Matcher::Exists("src/**/{main,lib}.rs".into())),
            expect: true,
        },
    ];

    for c in cases {
        let project = setup(c.files);
        let got = c.expr.is_match(&project).unwrap();
        assert_eq!(got, c.expect, "case: {}", c.name);
    }
}

#[test]
fn lang_matches_rust() {
    let project = setup(&["src/lib.rs"]);
    let e = Expr::Matcher(Matcher::Lang("rust".into()));
    assert!(e.is_match(&project).unwrap());
}

#[test]
fn lang_unknown_errors() {
    let project = setup(&[]);
    let e = Expr::Matcher(Matcher::Lang("definitely-not-a-language".into()));
    let err = e.is_match(&project).unwrap_err();
    match err {
        Error::Template(msg) => assert!(msg.contains("unknown language")),
        other => panic!("unexpected error: {other:?}"),
    }
}

#[test]
fn exists_ignores_dotgitignore() {
    // A walk that honours `.gitignore` with `*.log` in it hands over the
    // ignore file itself and not `app.log`.
    let project = setup(&[".gitignore"]);
    let e = Expr::Matcher(Matcher::Exists("**/*.log".into()));
    assert!(!e.is_match(&project).unwrap());
}

#[test]
fn exists_directories_do_not_match() {
    // The directory `src` is no regular file, so the project holds no file.
    let project = setup(&[]);
    let e = Expr::Matcher(Matcher::Exists("src".into()));
    assert!(!e.is_match(&project).unwrap());
}

#[test]
fn env_exists_and_equals() {
    struct Case {
        name: &'static str,
        set: Option<&'static str>,
        expr: Expr,
        expect: bool,
    }
    let key = "AGENTS_TEST_ENV_TABLE";
    let cases = vec![
        Case {
            name: "unset => exists false",
            set: None,
            expr: Expr::Matcher(Matcher::EnvExists(key.into())),
            expect: false,
        },
        Case {
            name: "empty => exists false",
            set: Some(""),
            expr: Expr::Matcher(Matcher::EnvExists(key.into())),
            expect: false,
        },
        Case {
            name: "non-empty => exists true",
            set: Some("value"),
            expr: Expr::Matcher(Matcher::EnvExists(key.into())),
            expect: true,
        },
        Case {
            name: "equals match",
            set: Some("value"),
            expr: Expr::Matcher(Matcher::EnvEquals {
                name: key.into(),
                value: "value".into(),
            }),
            expect: true,
        },
        Case {
            name: "equals mismatch",
            set: Some("value"),
            expr: Expr::Matcher(Matcher::EnvEquals {
                name: key.into(),
                value: "other".into(),
            }),
            expect: false,
        },
    ];

    for c in cases {
        let project = match c.set {
            Some(v) => with_env(&[], &[(key, v)]),
            None => with_env(&[], &[]),
        };
        let got = c.expr.is_match(&project).unwrap();
        assert_eq!(got, c.expect, "case: {}", c.name);
    }
}

#[test]
fn boolean_ops_and_precedence() {
    let exists_a = Expr::Matcher(Matcher::Exists("a.txt".into()));
    let exists_b = Expr::Matcher(Matcher::Exists("b.txt".into()));
    let expr = Expr::Or(
        Box::new(Expr::And(
            Box::new(exists_a.clone()),
            Box::new(Expr::Matcher(Matcher::EnvExists("FOO".into()))),
        )),
        Box::new(Expr::Not(Box::new(exists_b.clone()))),
    );
    assert!(expr.is_match(&with_env(&["a.txt"], &[])).unwrap());
    assert!(!expr.is_match(&with_env(&["a.txt", "b.txt"], &[])).unwrap());
    assert!(expr
        .is_match(&with_env(&["a.txt", "b.txt"], &[("FOO", "1")]))
        .unwrap());
}

#[test]
fn invalid_glob_reports_error() {
    let project = setup(&[]);
    let e = Expr::Matcher(Matcher::Exists("{foo".into()));
    let err = e.is_match(&project).unwrap_err();
    match err {
        Error::Template(msg) => assert!(
            msg.contains("invalid exists() pattern") || msg.contains("glob build failed")
        ),
        other => panic!("unexpected error: {other:?}"),
    }
}

#[test]
fn invalid_glob_message_names_the_pattern() {
    let project = setup(&["a.txt"]);
    let e = Expr::Matcher(Matcher::Exists("{foo".into()));
    match e.is_match(&project).unwrap_err() {
        Error::Template(msg) => {
            assert!(msg.starts_with("invalid exists() pattern: "), "{msg}");
            assert!(msg.contains("{foo"), "{msg}");
        }
        other => panic!("unexpected error: {other:?}"),
    }
}

#[test]
fn unknown_language_message_names_the_language() {
    let project = setup(&["a.rs"]);
    let e = Expr::Matcher(Matcher::Lang("klingon-script".into()));
    match e.is_match(&project).unwrap_err() {
        Error::Template(msg) => assert_eq!(msg, "unknown language: klingon-script"),
        other => panic!("unexpected error: {other:?}"),
    }
}

#[test]
fn exists_matches_relative_paths_case_sensitively() {
    let project = setup(&["docs/Guide.md", "src/main.rs"]);
    let hit = |p: &str| {
        Expr::Matcher(Matcher::Exists(p.into()))
            .is_match(&project)
            .unwrap()
    };
    assert!(hit("docs/Guide.md"));
    assert!(!hit("docs/guide.md"));
    assert!(hit("docs/*.md"));
    assert!(hit("**/main.rs"));
    assert!(hit("src/ma?n.rs"));
    assert!(!hit("*.toml"));
    assert!(!hit("main.rs"));
}

#[test]
fn lang_compares_extensions_without_case() {
    let upper = ProjectFile {
        path: "SRC/LIB.RS".to_string(),
        extension: Some("RS".to_string()),
    };
    let project = Project::new(vec![upper], Vec::new());
    let e = Expr::Matcher(Matcher::Lang("Rust".into()));
    assert!(e.is_match(&project).unwrap());
}

#[test]
fn lang_needs_a_file_with_an_extension_of_the_language() {
    let lang = |files: &[&str], name: &str| {
        Expr::Matcher(Matcher::Lang(name.into()))
            .is_match(&setup(files))
            .unwrap()
    };
    assert!(!lang(&[], "rust"));
    assert!(!lang(&["README", "notes.txt"], "rust"));
    assert!(lang(&["a/b/c.py"], "python"));
    assert!(!lang(&["a/b/c.py"], "rust"));
    assert!(lang(&["x.txt", "y.rs"], "rust"));
    // The name of the file is not its extension.
    assert!(!lang(&["rs"], "rust"));
}

#[test]
fn env_lookup_takes_the_first_entry_of_a_name() {
    let project = with_env(&[], &[("A", "1"), ("B", ""), ("A", "2")]);
    let equals = |n: &str, v: &str| {
        Expr::Matcher(Matcher::EnvEquals {
            name: n.into(),
            value: v.into(),
        })
        .is_match(&project)
        .unwrap()
    };
    assert!(equals("A", "1"));
    assert!(!equals("A", "2"));
    assert!(equals("B", ""));
    assert!(!equals("C", ""));
    let name = "A".to_string();
    assert_eq!(project.var(&name), Some(&"1".to_string()));
    let missing = "a".to_string();
    assert_eq!(project.var(&missing), None);
}

#[test]
fn and_or_short_circuit_past_a_failing_right_operand() {
    let project = with_env(&["a.txt"], &[("SET", "1")]);
    let yes = Expr::Matcher(Matcher::EnvExists("SET".into()));
    let no = Expr::Matcher(Matcher::EnvExists("UNSET".into()));
    let bad = Expr::Matcher(Matcher::Lang("definitely-not-a-language".into()));

    let and = Expr::And(Box::new(no.clone()), Box::new(bad.clone()));
    assert_eq!(and.is_match(&project).unwrap(), false);
    let or = Expr::Or(Box::new(yes.clone()), Box::new(bad.clone()));
    assert_eq!(or.is_match(&project).unwrap(), true);

    // Where the left operand does not decide, the right one is evaluated.
    let and = Expr::And(Box::new(yes.clone()), Box::new(bad.clone()));
    assert!(and.is_match(&project).is_err());
    let or = Expr::Or(Box::new(no.clone()), Box::new(bad.clone()));
    assert!(or.is_match(&project).is_err());

    // A failing left operand fails the whole, whatever the right one is.
    let and = Expr::And(Box::new(bad.clone()), Box::new(no.clone()));
    assert!(and.is_match(&project).is_err());
    let or = Expr::Or(Box::new(bad.clone()), Box::new(yes.clone()));
    assert!(or.is_match(&project).is_err());
    let not = Expr::Not(Box::new(bad));
    assert!(not.is_match(&project).is_err());
}

#[test]
fn the_first_error_from_the_left_is_reported() {
    let project = setup(&[]);
    let bad_glob = Expr::Matcher(Matcher::Exists("{foo".into()));
    let bad_lang = Expr::Matcher(Matcher::Lang("definitely-not-a-language".into()));
    let e = Expr::Or(Box::new(bad_glob.clone()), Box::new(bad_lang.clone()));
    match e.is_match(&project).unwrap_err() {
        Error::Template(msg) => assert!(msg.contains("invalid exists() pattern")),
        other => panic!("unexpected error: {other:?}"),
    }
    let e = Expr::Or(Box::new(bad_lang), Box::new(bad_glob));
    match e.is_match(&project).unwrap_err() {
        Error::Template(msg) => assert!(msg.contains("unknown language")),
        other => panic!("unexpected error: {other:?}"),
    }
}

#[test]
fn evaluation_agrees_with_boolean_algebra() {
    let t = || Expr::Matcher(Matcher::EnvExists("T".into()));
    let f = || Expr::Matcher(Matcher::EnvExists("F".into()));
    let project = with_env(&[], &[("T", "x")]);
    let atoms: [(fn() -> Expr, bool); 2] = [(t, true), (f, false)];
    for (a, va) in atoms.iter() {
        assert_eq!(
            Expr::Not(Box::new(a())).is_match(&project).unwrap(),
            !*va
        );
        for (b, vb) in atoms.iter() {
            assert_eq!(
                Expr::And(Box::new(a()), Box::new(b()))
                    .is_match(&project)
                    .unwrap(),
                *va && *vb
            );
            assert_eq!(
                Expr::Or(Box::new(a()), Box::new(b()))
                    .is_match(&project)
                    .unwrap(),
                *va || *vb
            );
            for (c, vc) in atoms.iter() {
                let left = Expr::And(
                    Box::new(Expr::And(Box::new(a()), Box::new(b()))),
                    Box::new(c()),
                );
                let right = Expr::And(
                    Box::new(a()),
                    Box::new(Expr::And(Box::new(b()), Box::new(c()))),
                );
                assert_eq!(left.is_match(&project).unwrap(), *va && *vb && *vc);
                assert_eq!(right.is_match(&project).unwrap(), *va && *vb && *vc);
                let mixed = Expr::Or(
                    Box::new(Expr::And(Box::new(a()), Box::new(Expr::Not(Box::new(b()))))),
                    Box::new(c()),
                );
                assert_eq!(mixed.is_match(&project).unwrap(), (*va && !*vb) || *vc);
            }
        }
    }
}

#[test]
fn a_clone_is_equal_to_what_it_was_made_from() {
    let e = Expr::Or(
        Box::new(Expr::Not(Box::new(Expr::Matcher(Matcher::EnvEquals {
            name: "A".into(),
            value: "b".into(),
        })))),
        Box::new(Expr::Matcher(Matcher::Lang("rust".into()))),
    );
    assert_eq!(e.clone(), e);
    let m = Matcher::Exists("*.rs".into());
    assert_eq!(m.clone(), m);
}

#[test]
fn a_parsed_guard_evaluates_by_precedence() {
    let guard = parse_expr("env(CI) && !env(NODE_ENV=\"production\") || exists(r\"**/*.rs\")")
        .unwrap();
    let eval = |files: &[&str], env: &[(&str, &str)]| {
        guard.is_match(&with_env(files, env)).unwrap()
    };
    // (CI && !production) || rust file
    assert!(!eval(&[], &[]));
    assert!(eval(&[], &[("CI", "1")]));
    assert!(eval(&[], &[("CI", "1"), ("NODE_ENV", "test")]));
    assert!(!eval(&[], &[("CI", "1"), ("NODE_ENV", "production")]));
    assert!(!eval(&["README.md"], &[("NODE_ENV", "production")]));
    assert!(eval(&["src/main.rs"], &[("CI", "1"), ("NODE_ENV", "production")]));
    assert!(eval(&["src/main.rs"], &[]));
    // Grouped the other way, the rust file would not do without CI.
    let other = parse_expr("env(CI) && (!env(NODE_ENV=\"production\") || exists(r\"**/*.rs\"))")
        .unwrap();
    assert!(!other.is_match(&with_env(&["src/main.rs"], &[])).unwrap());
}

#[test]
fn a_guard_is_read_between_its_whitespace() {
    let plain = parse_expr("env(A)").unwrap();
    assert_eq!(parse_expr("  env(A)\n").unwrap(), plain);
    assert_eq!(parse_expr("\u{2003}env( A )\t").unwrap(), plain);
    match parse_expr("   ").unwrap_err() {
        Error::Template(msg) => assert_eq!(msg, "expected matcher or '('"),
        other => panic!("unexpected error: {other:?}"),
    }
    match parse_expr("env(A) -->").unwrap_err() {
        Error::Template(msg) => assert_eq!(msg, "trailing characters in expression"),
        other => panic!("unexpected error: {other:?}"),
    }
}
