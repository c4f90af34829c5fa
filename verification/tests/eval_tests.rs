use shire_core::ast::front_matter_type::FrontMatterType;
use shire_core::ast::shire_expression::Comparison;
use shire_core::ast::shire_expression::EvalError;
use shire_core::ast::shire_expression::EvalValue;
use shire_core::ast::shire_expression::LogicalExpression;
use shire_core::ast::shire_expression::MethodCall;
use shire_core::ast::shire_expression::NotExpression;
use shire_core::ast::shire_expression::Operator;
use shire_core::ast::shire_expression::OperatorType;
use shire_core::ast::shire_expression::Scope;
use shire_core::ast::shire_expression::Statement;
use shire_core::ast::shire_expression::StatementType;
use shire_core::ast::shire_expression::StringComparison;
use shire_core::ast::shire_expression::StringOperator;
use shire_core::ast::shire_expression::StringOperatorStatement;
use shire_core::ast::shire_expression::Value;

fn s(t: &str) -> String {
    t.to_string()
}

fn call(recv: FrontMatterType, method: &str, args: Option<Vec<FrontMatterType>>) -> MethodCall {
    MethodCall {
        object_name: Box::new(recv),
        method_name: Box::new(FrontMatterType::IDENTIFIER(s(method))),
        arguments: args,
    }
}

#[test]
fn method_call_length_counts_bytes() {
    let mc = call(FrontMatterType::STRING(s("Hello")), "length", None);
    assert_eq!(mc.evaluate(&Scope::new()), Ok(EvalValue::Int(5)));
}

#[test]
fn method_call_starts_with_reads_the_scope() {
    let mc = call(
        FrontMatterType::VARIABLE(s("x")),
        "startsWith",
        Some(vec![FrontMatterType::STRING(s("he"))]),
    );
    let mut scope = Scope::new();
    scope.set(s("x"), s("hello"));
    assert_eq!(mc.evaluate(&scope), Ok(EvalValue::Bool(true)));
}

#[test]
fn comparison_resolves_variables_from_the_scope() {
    let cmp = Comparison {
        left: Box::new(FrontMatterType::VARIABLE(s("x"))),
        operator: Operator { type_: OperatorType::Equal },
        right: Box::new(FrontMatterType::STRING(s("y"))),
    };
    let mut with_y = Scope::new();
    with_y.set(s("x"), s("y"));
    assert_eq!(cmp.evaluate(&with_y), Ok(EvalValue::Bool(true)));
    let mut with_z = Scope::new();
    with_z.set(s("x"), s("z"));
    assert_eq!(cmp.evaluate(&with_z), Ok(EvalValue::Bool(false)));
    assert_eq!(cmp.evaluate(&Scope::new()), Ok(EvalValue::Bool(false)));
}

#[test]
fn comparison_orders_lexicographically() {
    let lt = Comparison {
        left: Box::new(FrontMatterType::STRING(s("apple"))),
        operator: Operator { type_: OperatorType::LessThan },
        right: Box::new(FrontMatterType::STRING(s("banana"))),
    };
    assert_eq!(lt.evaluate(&Scope::new()), Ok(EvalValue::Bool(true)));
    let ge = Comparison {
        left: Box::new(FrontMatterType::STRING(s("b"))),
        operator: Operator { type_: OperatorType::GreaterEqual },
        right: Box::new(FrontMatterType::STRING(s("b"))),
    };
    assert_eq!(ge.evaluate(&Scope::new()), Ok(EvalValue::Bool(true)));
}

#[test]
fn comparison_rejects_logical_operators() {
    let bad = Comparison {
        left: Box::new(FrontMatterType::STRING(s("a"))),
        operator: Operator { type_: OperatorType::And },
        right: Box::new(FrontMatterType::STRING(s("b"))),
    };
    assert_eq!(
        bad.evaluate(&Scope::new()),
        Err(EvalError::InvalidOperatorError(s("Invalid comparison operator")))
    );
}

#[test]
fn string_comparison_contains_is_substring_search() {
    let sc = StringComparison {
        variable: s("the quick fox"),
        operator: StringOperatorStatement { type_: StringOperator::Contains },
        value: s("quick"),
    };
    assert_eq!(sc.evaluate(&Scope::new()), Ok(EvalValue::Bool(true)));
    let sc2 = StringComparison {
        variable: s("the quick fox"),
        operator: StringOperatorStatement { type_: StringOperator::Contains },
        value: s("slow"),
    };
    assert_eq!(sc2.evaluate(&Scope::new()), Ok(EvalValue::Bool(false)));
}

#[test]
fn string_comparison_matches_uses_the_regex_engine() {
    let hit = StringComparison {
        variable: s("error.log"),
        operator: StringOperatorStatement { type_: StringOperator::Matches },
        value: s(".*\\.log"),
    };
    assert_eq!(hit.evaluate(&Scope::new()), Ok(EvalValue::Bool(true)));
    let miss = StringComparison {
        variable: s("error.txt"),
        operator: StringOperatorStatement { type_: StringOperator::Matches },
        value: s("^x+$"),
    };
    assert_eq!(miss.evaluate(&Scope::new()), Ok(EvalValue::Bool(false)));
    let bad = StringComparison {
        variable: s("anything"),
        operator: StringOperatorStatement { type_: StringOperator::Matches },
        value: s("("),
    };
    assert_eq!(bad.evaluate(&Scope::new()), Err(EvalError::InvalidRegexError(s("("))));
}

#[test]
fn logical_expressions_combine_booleans() {
    let t = StatementType::StringComparison(StringComparison {
        variable: s("abc"),
        operator: StringOperatorStatement { type_: StringOperator::StartsWith },
        value: s("a"),
    });
    let f = StatementType::StringComparison(StringComparison {
        variable: s("abc"),
        operator: StringOperatorStatement { type_: StringOperator::EndsWith },
        value: s("z"),
    });
    let and = LogicalExpression {
        left: Box::new(t),
        operator: OperatorType::And,
        right: Box::new(f),
    };
    assert_eq!(and.evaluate(&Scope::new()), Ok(EvalValue::Bool(false)));
    let not = NotExpression { operand: Box::new(StatementType::LogicalExpression(and)) };
    assert_eq!(not.evaluate(&Scope::new()), Ok(EvalValue::Bool(true)));
}

#[test]
fn logical_expressions_demand_booleans() {
    let text = StatementType::Value(Value { value: Box::new(FrontMatterType::STRING(s("x"))) });
    let t = StatementType::StringComparison(StringComparison {
        variable: s("a"),
        operator: StringOperatorStatement { type_: StringOperator::Contains },
        value: s("a"),
    });
    let bad = LogicalExpression {
        left: Box::new(text),
        operator: OperatorType::And,
        right: Box::new(t),
    };
    assert_eq!(
        bad.evaluate(&Scope::new()),
        Err(EvalError::TypeError(s("Left operand is not of type bool")))
    );
}

#[test]
fn method_call_trim_and_cases() {
    let trim = call(FrontMatterType::STRING(s("  padded \t")), "trim", None);
    assert_eq!(trim.evaluate(&Scope::new()), Ok(EvalValue::Text(s("padded"))));
    let lower = call(FrontMatterType::STRING(s("MiXeD")), "lowercase", None);
    assert_eq!(lower.evaluate(&Scope::new()), Ok(EvalValue::Text(s("mixed"))));
    let upper = call(FrontMatterType::STRING(s("MiXeD")), "uppercase", None);
    assert_eq!(upper.evaluate(&Scope::new()), Ok(EvalValue::Text(s("MIXED"))));
}

#[test]
fn method_call_first_last_and_empty() {
    let first = call(FrontMatterType::STRING(s("abc")), "first", None);
    assert_eq!(first.evaluate(&Scope::new()), Ok(EvalValue::Text(s("a"))));
    let last = call(FrontMatterType::STRING(s("abc")), "last", None);
    assert_eq!(last.evaluate(&Scope::new()), Ok(EvalValue::Text(s("c"))));
    let empty_first = call(FrontMatterType::STRING(s("")), "first", None);
    assert_eq!(empty_first.evaluate(&Scope::new()), Err(EvalError::EmptyInputError));
    let is_empty = call(FrontMatterType::STRING(s("")), "isEmpty", None);
    assert_eq!(is_empty.evaluate(&Scope::new()), Ok(EvalValue::Bool(true)));
    let not_empty = call(FrontMatterType::STRING(s("x")), "isNotEmpty", None);
    assert_eq!(not_empty.evaluate(&Scope::new()), Ok(EvalValue::Bool(true)));
}

#[test]
fn method_call_matches_and_unknown_method() {
    let m = call(
        FrontMatterType::STRING(s("aaa")),
        "matches",
        Some(vec![FrontMatterType::STRING(s("^a+$"))]),
    );
    assert_eq!(m.evaluate(&Scope::new()), Ok(EvalValue::Bool(true)));
    let u = call(FrontMatterType::STRING(s("aaa")), "shout", None);
    assert_eq!(u.evaluate(&Scope::new()), Err(EvalError::UnknownMethodError(s("shout"))));
}

#[test]
fn value_statement_unwraps_primitives() {
    let n = Value { value: Box::new(FrontMatterType::NUMBER(-7)) };
    assert_eq!(n.evaluate(&Scope::new()), Ok(EvalValue::Int(-7)));
    let b = Value { value: Box::new(FrontMatterType::BOOLEAN(true)) };
    assert_eq!(b.evaluate(&Scope::new()), Ok(EvalValue::Bool(true)));
    let bad = Value { value: Box::new(FrontMatterType::EMPTY) };
    assert_eq!(bad.evaluate(&Scope::new()), Err(EvalError::TypeError(s("Unsupported value type"))));
}

#[test]
fn operators_evaluate_to_their_symbols() {
    assert_eq!(OperatorType::And.evaluate(&Scope::new()), Ok(EvalValue::Text(s("&&"))));
    assert_eq!(StringOperator::Contains.evaluate(&Scope::new()), Ok(EvalValue::Text(s("contains"))));
    assert_eq!(OperatorType::from_str("<="), Ok(OperatorType::LessEqual));
    assert_eq!(OperatorType::from_str("??"), Err(s("??")));
}

#[test]
fn scope_reads_latest_binding() {
    let mut scope = Scope::new();
    scope.set(s("x"), s("one"));
    scope.set(s("x"), s("two"));
    assert_eq!(scope.get("x"), Some(s("two")));
    assert_eq!(scope.get("y"), None);
    assert_eq!(scope.get_or_empty("y"), s(""));
}

#[test]
fn to_value_unwraps_plain_variants() {
    assert_eq!(
        FrontMatterType::STRING(s("t")).to_value(),
        Some(EvalValue::Text(s("t")))
    );
    assert_eq!(FrontMatterType::NUMBER(3).to_value(), Some(EvalValue::Int(3)));
    assert_eq!(FrontMatterType::EMPTY.to_value(), Some(EvalValue::Text(s(""))));
    assert_eq!(FrontMatterType::ARRAY(vec![]).to_value(), None);
}
