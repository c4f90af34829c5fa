use shire_core::ast::front_matter_type::FrontMatterType;
use shire_core::ast::front_matter_type::Processor;
use shire_core::ast::front_matter_type::RuleBasedPatternAction;
use shire_core::value_text::parse_value;

fn s(t: &str) -> String {
    t.to_string()
}

fn round_trips(v: FrontMatterType) {
    let text = v.display();
    let back = parse_value(text.as_str());
    assert_eq!(back, Some(v));
}

#[test]
fn displayed_values_parse_back() {
    round_trips(FrontMatterType::STRING(s("demo")));
    round_trips(FrontMatterType::STRING(s("")));
    round_trips(FrontMatterType::NUMBER(0));
    round_trips(FrontMatterType::NUMBER(-2147483648));
    round_trips(FrontMatterType::NUMBER(2147483647));
    round_trips(FrontMatterType::BOOLEAN(true));
    round_trips(FrontMatterType::BOOLEAN(false));
    round_trips(FrontMatterType::EMPTY);
    round_trips(FrontMatterType::IDENTIFIER(s("length")));
    round_trips(FrontMatterType::VARIABLE(s("var1")));
    round_trips(FrontMatterType::PATTERN(RuleBasedPatternAction {
        pattern: s(".*.java"),
        processors: vec![
            Processor { func_name: s("grep") },
            Processor { func_name: s("sort") },
        ],
    }));
    round_trips(FrontMatterType::PATTERN(RuleBasedPatternAction {
        pattern: s("x"),
        processors: vec![],
    }));
}

#[test]
fn unparseable_text_reads_as_nothing() {
    assert_eq!(parse_value("\"unterminated"), None);
    assert_eq!(parse_value("$"), None);
    assert_eq!(parse_value("9999999999999"), None);
    assert_eq!(parse_value("no ident!"), None);
}

#[test]
fn parse_value_reads_each_shape() {
    assert_eq!(parse_value(""), Some(FrontMatterType::EMPTY));
    assert_eq!(parse_value("42"), Some(FrontMatterType::NUMBER(42)));
    assert_eq!(parse_value("-3"), Some(FrontMatterType::NUMBER(-3)));
    assert_eq!(parse_value("true"), Some(FrontMatterType::BOOLEAN(true)));
    assert_eq!(parse_value("$x"), Some(FrontMatterType::VARIABLE(s("x"))));
    assert_eq!(parse_value("\"hi\""), Some(FrontMatterType::STRING(s("hi"))));
    assert_eq!(parse_value("name"), Some(FrontMatterType::IDENTIFIER(s("name"))));
}
