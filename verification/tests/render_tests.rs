use shire_core::parser::parse_hobbit_hole;
use shire_core::parser::parse_variable_value;
use shire_core::parser::Function;
use shire_core::parser::HobbitHole;
use shire_core::parser::InteractionType;
use shire_core::parser::ShireActionLocation;
use shire_core::parser::VariableTransform;
use shire_core::render::render_hobbit_hole;
use shire_core::render::render_variable_value;

fn s(t: &str) -> String {
    t.to_string()
}

#[test]
fn rendered_header_parses_back_to_itself() {
    let hole = HobbitHole {
        name: s("Summary"),
        description: Some(s("Generate Summary")),
        interaction: Some(InteractionType::AppendCursor),
        action_location: Some(ShireActionLocation::ContextMenu),
        variables: vec![
            (s("var1"), VariableTransform::String(s("demo"))),
            (s("var2"), VariableTransform::Integer(-7)),
            (
                s("var3"),
                VariableTransform::PatternAction {
                    pattern: s(".*.java"),
                    command: Function::Functions(vec![
                        (s("grep"), vec![s("error.log")]),
                        (s("sort"), vec![]),
                        (s("xargs"), vec![s("rm")]),
                    ]),
                },
            ),
            (
                s("var4"),
                VariableTransform::Case {
                    pattern: s(".*.log"),
                    cases: vec![(
                        s("error"),
                        VariableTransform::Action {
                            command: Function::Functions(vec![(s("grep"), vec![s("E")])]),
                        },
                    )],
                    default: Some(Function::Functions(vec![(s("sort"), vec![])])),
                },
            ),
        ],
    };
    let text = render_hobbit_hole(&hole);
    let parsed = parse_hobbit_hole(text.as_str());
    assert_eq!(parsed, Ok((s(""), hole)));
}

#[test]
fn rendered_minimal_header_parses_back_to_itself() {
    let hole = HobbitHole {
        name: s(""),
        description: None,
        interaction: None,
        action_location: None,
        variables: vec![],
    };
    let text = render_hobbit_hole(&hole);
    assert_eq!(text, s("---\n---"));
    let parsed = parse_hobbit_hole(text.as_str());
    assert_eq!(parsed, Ok((s(""), hole)));
}

#[test]
fn rendered_transforms_parse_back() {
    let vt = VariableTransform::PatternAction {
        pattern: s("re"),
        command: Function::Functions(vec![]),
    };
    let text = render_variable_value(&vt);
    assert_eq!(text, s("/re/ {  }"));
    assert_eq!(parse_variable_value(text.as_str()), Ok((s(""), vt)));

    let n = VariableTransform::Integer(-2147483648);
    let text2 = render_variable_value(&n);
    assert_eq!(text2, s("-2147483648"));
    assert_eq!(parse_variable_value(text2.as_str()), Ok((s(""), n)));
}
