use shire_core::ast::front_matter_type::FrontMatterType;
use shire_core::ast::front_matter_type::Processor;
use shire_core::ast::front_matter_type::RuleBasedPatternAction;
use shire_core::ast::front_matter_type::ShirePsiQueryStatement;
use shire_core::ast::pattern_action_fun::PatternActionFunc;
use shire_core::ast::pattern_action_fun::Statement as StatementPlaceholder;
use shire_core::ast::pattern_action_fun::VariableElement;
use shire_core::ast::shire_expression::CaseKeyValue;
use shire_core::ast::shire_expression::Comparison;
use shire_core::ast::shire_expression::ConditionCase;
use shire_core::ast::shire_expression::EvalValue;
use shire_core::ast::shire_expression::MethodCall;
use shire_core::ast::shire_expression::Operator;
use shire_core::ast::shire_expression::OperatorType;
use shire_core::ast::shire_expression::Processor as ProcessorStatement;
use shire_core::ast::shire_expression::Scope;
use shire_core::ast::shire_expression::Statement;
use shire_core::ast::shire_expression::StatementType;
use shire_core::ast::shire_expression::StringComparison;
use shire_core::ast::shire_expression::StringOperator;
use shire_core::ast::shire_expression::StringOperatorStatement;

fn s(t: &str) -> String {
    t.to_string()
}

#[test]
fn front_matter_values_render_canonically() {
    assert_eq!(FrontMatterType::STRING(s("demo")).display(), s("\"demo\""));
    assert_eq!(FrontMatterType::NUMBER(-42).display(), s("-42"));
    assert_eq!(FrontMatterType::BOOLEAN(true).display(), s("true"));
    assert_eq!(FrontMatterType::EMPTY.display(), s(""));
    assert_eq!(FrontMatterType::VARIABLE(s("x")).display(), s("$x"));
    assert_eq!(FrontMatterType::IDENTIFIER(s("name")).display(), s("name"));
    assert_eq!(
        FrontMatterType::ARRAY(vec![
            FrontMatterType::NUMBER(1),
            FrontMatterType::STRING(s("two")),
        ])
        .display(),
        s("[1, \"two\"]")
    );
    assert_eq!(
        FrontMatterType::OBJECT(vec![(s("k"), FrontMatterType::NUMBER(7))]).display(),
        s("{\"k\": 7}")
    );
}

#[test]
fn patterns_render_their_processor_names() {
    let p = FrontMatterType::PATTERN(RuleBasedPatternAction {
        pattern: s(".*.java"),
        processors: vec![
            Processor { func_name: s("grep") },
            Processor { func_name: s("sort") },
        ],
    });
    assert_eq!(p.display(), s(".*.java -> grep, sort"));
}

#[test]
fn case_match_renders_each_arm() {
    let cm = FrontMatterType::CASE_MATCH(vec![
        (
            s("error"),
            FrontMatterType::PATTERN(RuleBasedPatternAction {
                pattern: s("e"),
                processors: vec![
                    Processor { func_name: s("grep") },
                    Processor { func_name: s("notify") },
                ],
            }),
        ),
    ]);
    assert_eq!(cm.display(), s("case \"$0\" {\n\"error\" { grep | notify }\n}"));
}

#[test]
fn query_statement_renders_its_shape() {
    let q = ShirePsiQueryStatement {
        from: vec![VariableElement, VariableElement],
        where_clause: Box::new(StatementType::Operator(Operator {
            type_: OperatorType::And,
        })),
        select: vec![StatementType::Operator(Operator { type_: OperatorType::Or })],
    };
    assert_eq!(
        q.display(),
        s("from {\n    VariableElement, VariableElement\n}\nwhere {\n    Statement\n}\nselect Statement")
    );
}

#[test]
fn pattern_action_functions_render_debug_like() {
    assert_eq!(
        PatternActionFunc::Grep { patterns: vec![s("a"), s("b")] }.display(),
        s("Grep { patterns: [\"a\", \"b\"] }")
    );
    assert_eq!(
        PatternActionFunc::Sed {
            pattern: s("x"),
            replacements: s("y"),
            is_regex: true,
        }
        .display(),
        s("Sed { pattern: \"x\", replacements: \"y\", is_regex: true }")
    );
    assert_eq!(
        PatternActionFunc::Head { number: 12 }.display(),
        s("Head { number: 12 }")
    );
    assert_eq!(
        PatternActionFunc::Where { statement: StatementPlaceholder }.display(),
        s("Where { statement: Statement }")
    );
    assert_eq!(
        PatternActionFunc::JsonPath { obj: Some(s("o")), path: s("$.x") }.display(),
        s("JsonPath { obj: Some(\"o\"), path: \"$.x\" }")
    );
    assert_eq!(
        PatternActionFunc::JsonPath { obj: None, path: s("$.x") }.display(),
        s("JsonPath { obj: None, path: \"$.x\" }")
    );
}

#[test]
fn toolchain_functions_render_as_calls() {
    assert_eq!(
        PatternActionFunc::ToolchainFunction {
            func_name: s("myTool"),
            args: vec![s("one"), s("two")],
        }
        .display(),
        s("myTool(one, two)")
    );
}

#[test]
fn statements_render_infix() {
    let cmp = StatementType::Comparison(Comparison {
        left: Box::new(FrontMatterType::VARIABLE(s("x"))),
        operator: Operator { type_: OperatorType::NotEqual },
        right: Box::new(FrontMatterType::STRING(s("y"))),
    });
    assert_eq!(cmp.display(), s("$x != \"y\""));
    let sc = StatementType::StringComparison(StringComparison {
        variable: s("lhs"),
        operator: StringOperatorStatement { type_: StringOperator::Matches },
        value: s("re"),
    });
    assert_eq!(sc.display(), s("lhs matches re"));
}

#[test]
fn method_calls_render_dotted_in_statement_position() {
    let mc = MethodCall {
        object_name: Box::new(FrontMatterType::VARIABLE(s("x"))),
        method_name: Box::new(FrontMatterType::IDENTIFIER(s("contains"))),
        arguments: Some(vec![FrontMatterType::STRING(s("y"))]),
    };
    assert_eq!(StatementType::MethodCall(mc).display(), s("$x.contains(y)"));
}

#[test]
fn processor_statements_render_and_evaluate_to_their_pipeline() {
    let p = ProcessorStatement {
        processors: vec![
            PatternActionFunc::Sort { arguments: vec![] },
            PatternActionFunc::Head { number: 1 },
        ],
    };
    assert_eq!(p.display(), s("Sort { arguments: [] } | Head { number: 1 }"));
    assert_eq!(
        p.evaluate(&Scope::new()),
        Ok(EvalValue::Processors(vec![
            PatternActionFunc::Sort { arguments: vec![] },
            PatternActionFunc::Head { number: 1 },
        ]))
    );
}

#[test]
fn case_forms_evaluate_to_display_pairs() {
    let kv = CaseKeyValue {
        key: Box::new(FrontMatterType::STRING(s("k"))),
        value: Box::new(FrontMatterType::NUMBER(3)),
    };
    assert_eq!(kv.display(), s("\"\"k\"\" -> 3"));
    assert_eq!(kv.evaluate(&Scope::new()), Ok(EvalValue::Pair(s("\"k\""), s("3"))));
    let cc = ConditionCase {
        conditions: vec![FrontMatterType::IDENTIFIER(s("a"))],
        cases: vec![FrontMatterType::IDENTIFIER(s("b"))],
    };
    assert_eq!(cc.evaluate(&Scope::new()), Ok(EvalValue::PairList(vec![s("a")], vec![s("b")])));
    assert_eq!(StatementType::CaseKeyValue(kv).display(), s("Unsupported statement type"));
}
