use shire_core::parser::parse_file;
use shire_core::parser::parse_hobbit_hole;
use shire_core::parser::parse_integer;
use shire_core::parser::parse_pattern_actions;
use shire_core::parser::parse_quoted_string;
use shire_core::parser::parse_variable_value;
use shire_core::parser::Function;
use shire_core::parser::HobbitHole;
use shire_core::parser::HobbitHoleKey;
use shire_core::parser::InteractionType;
use shire_core::parser::ParseErrorKind;
use shire_core::parser::ShireActionLocation;
use shire_core::parser::ShireFile;
use shire_core::parser::VariableTransform;

fn s(t: &str) -> String {
    t.to_string()
}

#[test]
fn test_should_parse_multiple_frontmatter_config() {
    let input = r#"
---
name: "Summary"
description: "Generate Summary"
interaction: AppendCursor
actionLocation: ContextMenu
variables:
  "var1": "demo"
---
"#;

    let result = parse_hobbit_hole(input);
    assert_eq!(
        result,
        Ok((
            s(""),
            HobbitHole {
                name: s("Summary"),
                description: Some(s("\"Generate Summary\"")),
                interaction: Some(InteractionType::AppendCursor),
                action_location: Some(ShireActionLocation::ContextMenu),
                variables: vec![(s("var1"), VariableTransform::String(s("demo")))],
            }
        ))
    );
}

#[test]
fn test_parse_regex_block() {
    assert_eq!(
        parse_pattern_actions("/.*.java/ { grep(\"error.log\") | sort | xargs(\"rm\") }"),
        Ok((
            s(""),
            VariableTransform::PatternAction {
                pattern: s(".*.java"),
                command: Function::Functions(vec![
                    (s("grep"), vec![s("error.log")]),
                    (s("sort"), vec![]),
                    (s("xargs"), vec![s("rm")]),
                ]),
            }
        ))
    );
}

#[test]
fn multiple_vars() {
    let input = r#"
---
variables:
  "var1": "demo"
  "var1": 42
  "var2": /.*.java/ { grep("error.log") | sort | xargs("rm")}
---
"#;

    assert_eq!(
        parse_hobbit_hole(input),
        Ok((
            s(""),
            HobbitHole {
                name: s(""),
                description: None,
                interaction: None,
                action_location: None,
                variables: vec![
                    (s("var1"), VariableTransform::Integer(42)),
                    (
                        s("var2"),
                        VariableTransform::PatternAction {
                            pattern: s(".*.java"),
                            command: Function::Functions(vec![
                                (s("grep"), vec![s("error.log")]),
                                (s("sort"), vec![]),
                                (s("xargs"), vec![s("rm")]),
                            ]),
                        }
                    ),
                ],
            }
        ))
    );
}

#[test]
fn parse_block() {
    let input = r#"
---
variables:
  "var2": /.*.java/ { grep("error.log") | sort | xargs("rm")}
---

$var1
"#;

    assert_eq!(
        parse_file(input),
        Ok((
            s("\n"),
            ShireFile {
                hobbit: HobbitHole {
                    name: s(""),
                    description: None,
                    interaction: None,
                    action_location: None,
                    variables: vec![(
                        s("var2"),
                        VariableTransform::PatternAction {
                            pattern: s(".*.java"),
                            command: Function::Functions(vec![
                                (s("grep"), vec![s("error.log")]),
                                (s("sort"), vec![]),
                                (s("xargs"), vec![s("rm")]),
                            ]),
                        }
                    )],
                },
                body: vec![s("$var1")],
            }
        ))
    );
}

#[test]
fn test_parse_case_block() {
    let input = r#"
---
variables:
  "log": /.*.log/ {
    case "$0" {
      "error" { grep("ERROR") | sort | xargs("notify_admin") }
      "warn" { grep("WARN") | sort | xargs("notify_admin") }
      "info" { grep("INFO") | sort | xargs("notify_user") }
      default  { grep("ERROR") | sort | xargs("notify_admin") }
    }
  }
---
"#;

    let result = parse_file(input);
    println!("{:?}", result);
}

#[test]
fn case_block_arms_and_default() {
    let input = "/.*.log/ { \"error\" grep(\"ERROR\") \"warn\" notify(\"w\") default sort }";
    let parsed = parse_variable_value(input);
    assert_eq!(
        parsed,
        Ok((
            s(""),
            VariableTransform::Case {
                pattern: s(".*.log"),
                cases: vec![
                    (
                        s("error"),
                        VariableTransform::Action {
                            command: Function::Functions(vec![(s("grep"), vec![s("ERROR")])]),
                        }
                    ),
                    (
                        s("warn"),
                        VariableTransform::Action {
                            command: Function::Functions(vec![(s("notify"), vec![s("w")])]),
                        }
                    ),
                ],
                default: Some(Function::Functions(vec![(s("sort"), vec![])])),
            }
        ))
    );
}

#[test]
fn case_block_without_default_arm() {
    let parsed = parse_variable_value("/x/ { \"a\" grep(\"A\") }");
    match parsed {
        Ok((rest, VariableTransform::Case { default, .. })) => {
            assert_eq!(rest, s(""));
            assert_eq!(default, None);
        }
        other => panic!("expected a case block, got {:?}", other),
    }
}

#[test]
fn empty_pipeline_parses_to_no_processors() {
    assert_eq!(
        parse_pattern_actions("/re/ { }"),
        Ok((
            s(""),
            VariableTransform::PatternAction {
                pattern: s("re"),
                command: Function::Functions(vec![]),
            }
        ))
    );
}

#[test]
fn pipeline_keeps_source_order() {
    let parsed = parse_pattern_actions("/re/ { a | b | c }").unwrap().1;
    match parsed {
        VariableTransform::PatternAction { command: Function::Functions(fns), .. } => {
            let names: Vec<String> = fns.into_iter().map(|f| f.0).collect();
            assert_eq!(names, vec![s("a"), s("b"), s("c")]);
        }
        other => panic!("expected a pattern action, got {:?}", other),
    }
}

#[test]
fn integer_literals_round_trip_at_the_edges() {
    assert_eq!(parse_integer("2147483647"), Ok((s(""), 2147483647)));
    assert_eq!(parse_integer("-2147483648"), Ok((s(""), -2147483648)));
    assert_eq!(parse_integer("42rest"), Ok((s("rest"), 42)));
}

#[test]
fn integer_literals_outside_range_overflow() {
    match parse_integer("2147483648") {
        Err(e) => assert_eq!(e.kind, ParseErrorKind::IntegerOverflow(s("2147483648"))),
        other => panic!("expected overflow, got {:?}", other),
    }
    match parse_integer("-2147483649") {
        Err(e) => assert_eq!(e.kind, ParseErrorKind::IntegerOverflow(s("-2147483649"))),
        other => panic!("expected overflow, got {:?}", other),
    }
    match parse_variable_value("99999999999") {
        Err(e) => assert_eq!(e.kind, ParseErrorKind::IntegerOverflow(s("99999999999"))),
        other => panic!("expected overflow, got {:?}", other),
    }
}

#[test]
fn unknown_interaction_reads_as_run_panel() {
    assert_eq!(InteractionType::from("bogus"), InteractionType::RunPanel);
    assert_eq!(InteractionType::from("APPENDCURSOR"), InteractionType::AppendCursor);
    assert_eq!(InteractionType::from("onPaste"), InteractionType::OnPaste);
}

#[test]
fn unknown_action_location_reads_as_run_panel() {
    assert_eq!(ShireActionLocation::from("bogus"), ShireActionLocation::RunPanel);
    assert_eq!(ShireActionLocation::from("contextmenu"), ShireActionLocation::RunPanel);
    assert_eq!(ShireActionLocation::from("InputBox"), ShireActionLocation::InputBox);
}

#[test]
fn duplicate_variable_keys_keep_the_last_value() {
    let input = "---\nvariables:\n  \"k\": \"first\"\n  \"k\": \"second\"\n---";
    let hole = parse_hobbit_hole(input).unwrap().1;
    assert_eq!(hole.variables, vec![(s("k"), VariableTransform::String(s("second")))]);
}

#[test]
fn unknown_header_keys_read_as_name() {
    assert_eq!(HobbitHoleKey::from("name"), HobbitHoleKey::Name);
    assert_eq!(HobbitHoleKey::from("variables"), HobbitHoleKey::Variables);
    assert_eq!(HobbitHoleKey::from("banner"), HobbitHoleKey::Name);
    let hole = parse_hobbit_hole("---\nbanner: \"X\"\n---").unwrap().1;
    assert_eq!(hole.name, s("X"));
}

#[test]
fn parse_errors_carry_line_and_column() {
    let err = parse_hobbit_hole("no fence here").unwrap_err();
    assert_eq!((err.line, err.column), (1, 1));
    assert_eq!(err.message(), s("syntax error"));
    let err2 = parse_quoted_string("\"unterminated").unwrap_err();
    assert_eq!(err2.kind, ParseErrorKind::Syntax);
}

#[test]
fn location_catalogue_is_complete() {
    let all = ShireActionLocation::all();
    assert_eq!(all.len(), 6);
    assert_eq!(all[0].location(), "ContextMenu");
    assert_eq!(ShireActionLocation::default(), "ContextMenu");
    assert_eq!(
        ShireActionLocation::CommitMenu.description(),
        "Show in Commit panel menu bar"
    );
    assert_eq!(
        InteractionType::OutputFile.description(),
        "Output to a new file"
    );
}
