//! The statement and expression model: comparisons, logical expressions,
//! method calls on string values, processor pipelines and case forms, each
//! with its evaluation over a scope and its canonical text.

use vstd::prelude::*;
use crate::ast::front_matter_type::FrontMatterType;
use crate::ast::front_matter_type::spec_comparison_display;
use crate::ast::front_matter_type::spec_cc_display;
use crate::ast::front_matter_type::spec_fmt_display;
use crate::ast::front_matter_type::spec_fmt_displays;
use crate::ast::front_matter_type::spec_fmt_wf;
use crate::ast::front_matter_type::spec_fmt_wf_list;
use crate::ast::front_matter_type::spec_logical_display;
use crate::ast::front_matter_type::spec_mc_display;
use crate::ast::front_matter_type::spec_mc_params;
use crate::ast::front_matter_type::spec_mc_stmt_display;
use crate::ast::front_matter_type::spec_not_display;
use crate::ast::front_matter_type::spec_op_text;
use crate::ast::front_matter_type::spec_params;
use crate::ast::front_matter_type::spec_str_op_text;
use crate::ast::front_matter_type::spec_stmt_display;
use crate::ast::front_matter_type::spec_stmt_wf;
use crate::ast::front_matter_type::fmt_display_texts;
use crate::ast::front_matter_type::param_texts;
use crate::ast::pattern_action_fun::PatternActionFunc;
use crate::ast::pattern_action_fun::SpecPatternActionFunc;
use crate::ast::pattern_action_fun::pa_views;
use crate::ast::pattern_action_fun::copy_pas;
use crate::ast::pattern_action_fun::spec_pa_display;
use crate::bridge::lower_of;
use crate::bridge::lowercase;
use crate::bridge::regex_compiles;
use crate::bridge::regex_is_match;
use crate::bridge::regex_matches;
use crate::bridge::upper_of;
use crate::bridge::uppercase;
use crate::numbers::spec_digits_of;
use crate::numbers::digits_of_u64;
use crate::text::lex_lt;
use crate::text::lemma_lex_connex;
use crate::text::spec_contains;
use crate::text::spec_ends_with;
use crate::text::spec_join;
use crate::text::spec_quoted;
use crate::text::spec_starts_with;
use crate::text::spec_trim;
use crate::text::chars_of;
use crate::text::contains_chars;
use crate::text::ends_with_chars;
use crate::text::join_with;
use crate::text::starts_with_chars;
use crate::text::str_eq;
use crate::text::str_lex_lt;
use crate::text::string_of;
use crate::text::trim_str;
use crate::text::views_of;

verus! {

// --- evaluation results ---

/// A typed evaluation result: the static kind depends on the statement
/// kind, and consumers match on the variant they expect.
#[derive(Debug, Clone, PartialEq, Eq)]
pub enum EvalValue {
    Bool(bool),
    Text(String),
    Int(i32),
    Processors(Vec<PatternActionFunc>),
    Pair(String, String),
    PairList(Vec<String>, Vec<String>),
}

/// The mathematical shadow of an evaluation result.
pub enum SpecEvalValue {
    Bool(bool),
    Text(Seq<char>),
    Int(i32),
    Processors(Seq<SpecPatternActionFunc>),
    Pair(Seq<char>, Seq<char>),
    PairList(Seq<Seq<char>>, Seq<Seq<char>>),
}

impl View for EvalValue {
    type V = SpecEvalValue;

    open spec fn view(&self) -> SpecEvalValue {
        match self {
            EvalValue::Bool(b) => SpecEvalValue::Bool(*b),
            EvalValue::Text(s) => SpecEvalValue::Text(s@),
            EvalValue::Int(i) => SpecEvalValue::Int(*i),
            EvalValue::Processors(v) => SpecEvalValue::Processors(pa_views(v@)),
            EvalValue::Pair(a, b) => SpecEvalValue::Pair(a@, b@),
            EvalValue::PairList(a, b) => SpecEvalValue::PairList(views_of(a@), views_of(b@)),
        }
    }
}

/// A typed evaluation error.
#[derive(Debug, Clone, PartialEq, Eq)]
pub enum EvalError {
    /// A statement received a value of an unsupported kind.
    TypeError(String),
    /// A method call named no recognized method.
    UnknownMethodError(String),
    /// A comparison used a logical operator or the other way round.
    InvalidOperatorError(String),
    /// A pattern the regex engine rejects, at evaluation time.
    InvalidRegexError(String),
    /// `first` or `last` on empty text.
    EmptyInputError,
    /// A value that does not fit in 32 signed bits.
    IntegerOverflowError(String),
}

/// The mathematical shadow of an evaluation error.
pub enum SpecEvalError {
    TypeError(Seq<char>),
    UnknownMethodError(Seq<char>),
    InvalidOperatorError(Seq<char>),
    InvalidRegexError(Seq<char>),
    EmptyInputError,
    IntegerOverflowError(Seq<char>),
}

impl View for EvalError {
    type V = SpecEvalError;

    open spec fn view(&self) -> SpecEvalError {
        match self {
            EvalError::TypeError(m) => SpecEvalError::TypeError(m@),
            EvalError::UnknownMethodError(m) => SpecEvalError::UnknownMethodError(m@),
            EvalError::InvalidOperatorError(m) => SpecEvalError::InvalidOperatorError(m@),
            EvalError::InvalidRegexError(p) => SpecEvalError::InvalidRegexError(p@),
            EvalError::EmptyInputError => SpecEvalError::EmptyInputError,
            EvalError::IntegerOverflowError(t) => SpecEvalError::IntegerOverflowError(t@),
        }
    }
}

pub open spec fn res_view(r: Result<EvalValue, EvalError>) -> Result<SpecEvalValue, SpecEvalError> {
    match r {
        Ok(v) => Ok(v@),
        Err(e) => Err(e@),
    }
}

pub open spec fn opt_val_view(r: Option<EvalValue>) -> Option<SpecEvalValue> {
    match r {
        Some(v) => Some(v@),
        None => None,
    }
}

pub open spec fn opt_str_view(r: Option<String>) -> Option<Seq<char>> {
    match r {
        Some(s) => Some(s@),
        None => None,
    }
}

pub open spec fn opt_texts_view(r: Option<Vec<String>>) -> Option<Seq<Seq<char>>> {
    match r {
        Some(v) => Some(views_of(v@)),
        None => None,
    }
}

// --- the scope ---

/// A transient mapping from variable name to text, supplied at evaluation
/// time. A later binding for the same name shadows an earlier one.
#[derive(Debug, Clone, PartialEq, Eq)]
pub struct Scope {
    entries: Vec<(String, String)>,
}

/// The binding a name has: the most recent entry with that name.
pub open spec fn scope_lookup(m: Seq<(Seq<char>, Seq<char>)>, k: Seq<char>) -> Option<Seq<char>>
    decreases m.len(),
{
    if m.len() == 0 {
        None
    } else if m.last().0 == k {
        Some(m.last().1)
    } else {
        scope_lookup(m.drop_last(), k)
    }
}

impl View for Scope {
    type V = Seq<(Seq<char>, Seq<char>)>;

    closed spec fn view(&self) -> Seq<(Seq<char>, Seq<char>)> {
        self.entries@.map_values(|p: (String, String)| (p.0@, p.1@))
    }
}

impl Scope {
    /// The empty scope.
    pub fn new() -> (r: Scope)
        ensures
            r@ == Seq::<(Seq<char>, Seq<char>)>::empty(),
    {
        let r = Scope { entries: Vec::new() };
        proof {
            assert(r@ =~= Seq::<(Seq<char>, Seq<char>)>::empty());
        }
        r
    }

    /// Binds `name` to `value`, shadowing any earlier binding.
    pub fn set(&mut self, name: String, value: String)
        ensures
            final(self)@ == old(self)@.push((name@, value@)),
    {
        let ghost n = name@;
        let ghost v = value@;
        self.entries.push((name, value));
        proof {
            assert(self@ =~= old(self)@.push((n, v)));
        }
    }

    /// The binding of `name`, if any.
    pub fn get(&self, name: &str) -> (r: Option<String>)
        ensures
            opt_str_view(r) == scope_lookup(self@, name@),
    {
        let n = self.entries.len();
        let mut j: usize = n;
        proof {
            assert(self@.subrange(0, n as int) =~= self@);
        }
        while j > 0
            invariant
                n == self.entries@.len(),
                n == self@.len(),
                j <= n,
                scope_lookup(self@, name@) == scope_lookup(self@.subrange(0, j as int), name@),
            decreases j,
        {
            let idx = j - 1;
            proof {
                assert(self@[idx as int] == (self.entries@[idx as int].0@,
                self.entries@[idx as int].1@));
                assert(self@.subrange(0, j as int).last() == self@[idx as int]);
                assert(self@.subrange(0, j as int).drop_last() =~= self@.subrange(0, idx as int));
            }
            if str_eq(self.entries[idx].0.as_str(), name) {
                return Some(self.entries[idx].1.clone());
            }
            j = idx;
        }
        proof {
            assert(self@.subrange(0, 0) =~= Seq::<(Seq<char>, Seq<char>)>::empty());
        }
        None
    }

    /// The binding of `name`, or empty text when there is none: the way
    /// the evaluator reads variables.
    pub fn get_or_empty(&self, name: &str) -> (r: String)
        ensures
            r@ == spec_scope_text(self@, name@),
    {
        match self.get(name) {
            Some(v) => v,
            None => String::new(),
        }
    }
}

/// A missing binding reads as empty text.
pub open spec fn spec_scope_text(m: Seq<(Seq<char>, Seq<char>)>, k: Seq<char>) -> Seq<char> {
    match scope_lookup(m, k) {
        Some(v) => v,
        None => Seq::<char>::empty(),
    }
}

// --- the statement model ---

#[derive(Debug, PartialEq, Eq)]
pub enum StatementType {
    Operator(Operator),
    StringOperator(StringOperatorStatement),
    Comparison(Comparison),
    StringComparison(StringComparison),
    LogicalExpression(LogicalExpression),
    NotExpression(NotExpression),
    MethodCall(MethodCall),
    Value(Value),
    Processor(Processor),
    CaseKeyValue(CaseKeyValue),
    ConditionCase(ConditionCase),
}

/// A wrapped value used as a statement.
#[derive(Debug, PartialEq, Eq)]
pub struct Value {
    pub value: Box<FrontMatterType>,
}

#[derive(Debug, Clone, PartialEq, Eq)]
pub enum OperatorType {
    Or,
    And,
    Not,
    Equal,
    NotEqual,
    LessThan,
    GreaterThan,
    LessEqual,
    GreaterEqual,
}

#[derive(Debug, Clone, PartialEq, Eq)]
pub enum StringOperator {
    Contains,
    StartsWith,
    EndsWith,
    Matches,
}

/// An operator used as a statement of its own.
#[derive(Debug, Clone, PartialEq, Eq)]
pub struct Operator {
    pub type_: OperatorType,
}

/// A string operator used as a statement of its own.
#[derive(Debug, Clone, PartialEq, Eq)]
pub struct StringOperatorStatement {
    pub type_: StringOperator,
}

/// `left op right` over values; the left side may be a variable.
#[derive(Debug, PartialEq, Eq)]
pub struct Comparison {
    pub left: Box<FrontMatterType>,
    pub operator: Operator,
    pub right: Box<FrontMatterType>,
}

/// `variable op value` over the literal texts.
#[derive(Debug, Clone, PartialEq, Eq)]
pub struct StringComparison {
    pub variable: String,
    pub operator: StringOperatorStatement,
    pub value: String,
}

/// `left && right` or `left || right`.
#[derive(Debug, PartialEq, Eq)]
pub struct LogicalExpression {
    pub left: Box<StatementType>,
    pub operator: OperatorType,
    pub right: Box<StatementType>,
}

/// `!operand`.
#[derive(Debug, PartialEq, Eq)]
pub struct NotExpression {
    pub operand: Box<StatementType>,
}

/// A method call on a string-valued receiver.
#[derive(Debug, PartialEq, Eq)]
pub struct MethodCall {
    pub object_name: Box<FrontMatterType>,
    pub method_name: Box<FrontMatterType>,
    pub arguments: Option<Vec<FrontMatterType>>,
}

/// A pipeline of pattern-action functions used as a statement.
#[derive(Debug, Clone, PartialEq, Eq)]
pub struct Processor {
    pub processors: Vec<PatternActionFunc>,
}

/// One `key -> value` arm.
#[derive(Debug, PartialEq, Eq)]
pub struct CaseKeyValue {
    pub key: Box<FrontMatterType>,
    pub value: Box<FrontMatterType>,
}

/// Paired condition and case lists of equal length.
#[derive(Debug, PartialEq, Eq)]
pub struct ConditionCase {
    pub conditions: Vec<FrontMatterType>,
    pub cases: Vec<FrontMatterType>,
}

// --- evaluation, specified ---

/// What a wrapped value evaluates to: primitives unwrap, anything else is
/// a type error.
pub open spec fn spec_value_eval(v: Value) -> Result<SpecEvalValue, SpecEvalError> {
    match *v.value {
        FrontMatterType::STRING(s) => Ok(SpecEvalValue::Text(s@)),
        FrontMatterType::NUMBER(n) => Ok(SpecEvalValue::Int(n)),
        FrontMatterType::DATE(d) => Ok(SpecEvalValue::Text(d@)),
        FrontMatterType::BOOLEAN(b) => Ok(SpecEvalValue::Bool(b)),
        _ => Err(SpecEvalError::TypeError("Unsupported value type"@)),
    }
}

/// What a comparison evaluates to: the left side resolves through the
/// scope when it is a variable, the right side must be a string, and the
/// operator must be relational.
pub open spec fn spec_comparison_eval(c: Comparison, scope: Seq<(Seq<char>, Seq<char>)>) -> Result<
    SpecEvalValue,
    SpecEvalError,
> {
    let left = match *c.left {
        FrontMatterType::STRING(s) => Ok(s@),
        FrontMatterType::VARIABLE(n) => Ok(spec_scope_text(scope, n@)),
        _ => Err(SpecEvalError::TypeError("Unsupported left value type"@)),
    };
    match left {
        Err(e) => Err(e),
        Ok(l) => match *c.right {
            FrontMatterType::STRING(s) => {
                let r = s@;
                match c.operator.type_ {
                    OperatorType::Equal => Ok(SpecEvalValue::Bool(l == r)),
                    OperatorType::NotEqual => Ok(SpecEvalValue::Bool(l != r)),
                    OperatorType::LessThan => Ok(SpecEvalValue::Bool(lex_lt(l, r))),
                    OperatorType::GreaterThan => Ok(SpecEvalValue::Bool(lex_lt(r, l))),
                    OperatorType::LessEqual => Ok(SpecEvalValue::Bool(lex_lt(l, r) || l == r)),
                    OperatorType::GreaterEqual => Ok(SpecEvalValue::Bool(lex_lt(r, l) || l == r)),
                    _ => Err(SpecEvalError::InvalidOperatorError("Invalid comparison operator"@)),
                }
            },
            _ => Err(SpecEvalError::TypeError("Unsupported right value type"@)),
        },
    }
}

/// What a string comparison evaluates to. The left text is the literal
/// `variable` field, not a scope lookup.
pub open spec fn spec_string_comparison_eval(sc: StringComparison) -> Result<
    SpecEvalValue,
    SpecEvalError,
> {
    match sc.operator.type_ {
        StringOperator::Contains => Ok(SpecEvalValue::Bool(spec_contains(sc.variable@, sc.value@))),
        StringOperator::StartsWith => Ok(
            SpecEvalValue::Bool(spec_starts_with(sc.variable@, sc.value@)),
        ),
        StringOperator::EndsWith => Ok(
            SpecEvalValue::Bool(spec_ends_with(sc.variable@, sc.value@)),
        ),
        StringOperator::Matches => if regex_compiles(sc.value@) {
            Ok(SpecEvalValue::Bool(regex_matches(sc.value@, sc.variable@)))
        } else {
            Err(SpecEvalError::InvalidRegexError(sc.value@))
        },
    }
}

/// What one named method returns on a resolved receiver text.
pub open spec fn spec_method_eval(
    method: Seq<char>,
    params: Option<Seq<Seq<char>>>,
    value: Seq<char>,
) -> Result<SpecEvalValue, SpecEvalError> {
    if method == "length"@ {
        let n = vstd::utf8::encode_utf8(value).len() as usize;
        if n <= i32::MAX {
            Ok(SpecEvalValue::Int(n as i32))
        } else {
            Err(SpecEvalError::IntegerOverflowError(spec_digits_of(n as int)))
        }
    } else if method == "trim"@ {
        Ok(SpecEvalValue::Text(spec_trim(value)))
    } else if method == "contains"@ {
        match spec_first_param(params) {
            Some(p) => Ok(SpecEvalValue::Bool(spec_contains(value, p))),
            None => Err(SpecEvalError::TypeError("Missing method argument"@)),
        }
    } else if method == "startsWith"@ {
        match spec_first_param(params) {
            Some(p) => Ok(SpecEvalValue::Bool(spec_starts_with(value, p))),
            None => Err(SpecEvalError::TypeError("Missing method argument"@)),
        }
    } else if method == "endsWith"@ {
        match spec_first_param(params) {
            Some(p) => Ok(SpecEvalValue::Bool(spec_ends_with(value, p))),
            None => Err(SpecEvalError::TypeError("Missing method argument"@)),
        }
    } else if method == "lowercase"@ {
        Ok(SpecEvalValue::Text(lower_of(value)))
    } else if method == "uppercase"@ {
        Ok(SpecEvalValue::Text(upper_of(value)))
    } else if method == "isEmpty"@ {
        Ok(SpecEvalValue::Bool(value.len() == 0))
    } else if method == "isNotEmpty"@ {
        Ok(SpecEvalValue::Bool(value.len() != 0))
    } else if method == "first"@ {
        if value.len() == 0 {
            Err(SpecEvalError::EmptyInputError)
        } else {
            Ok(SpecEvalValue::Text(seq![value[0]]))
        }
    } else if method == "last"@ {
        if value.len() == 0 {
            Err(SpecEvalError::EmptyInputError)
        } else {
            Ok(SpecEvalValue::Text(seq![value.last()]))
        }
    } else if method == "matches"@ {
        match spec_first_param(params) {
            Some(p) => if regex_compiles(p) {
                Ok(SpecEvalValue::Bool(regex_matches(p, value)))
            } else {
                Err(SpecEvalError::InvalidRegexError(p))
            },
            None => Err(SpecEvalError::TypeError("Missing method argument"@)),
        }
    } else {
        Err(SpecEvalError::UnknownMethodError(method))
    }
}

pub open spec fn spec_first_param(params: Option<Seq<Seq<char>>>) -> Option<Seq<char>> {
    match params {
        Some(ps) => if ps.len() >= 1 {
            Some(ps[0])
        } else {
            None
        },
        None => None,
    }
}

/// What a method call evaluates to: resolve the receiver, render the
/// method name, resolve the arguments, and apply the method.
pub open spec fn spec_mc_eval(m: MethodCall, scope: Seq<(Seq<char>, Seq<char>)>) -> Result<
    SpecEvalValue,
    SpecEvalError,
> {
    let value = match *m.object_name {
        FrontMatterType::STRING(s) => Ok(s@),
        FrontMatterType::VARIABLE(n) => Ok(spec_scope_text(scope, n@)),
        _ => Err(SpecEvalError::TypeError("Unsupported object name type"@)),
    };
    match value {
        Err(e) => Err(e),
        Ok(v) => spec_method_eval(spec_fmt_display(*m.method_name), spec_mc_params(m), v),
    }
}

/// What a logical expression evaluates to: both sides must come back
/// boolean, and the operator must be a logical one.
pub open spec fn spec_logical_eval(l: LogicalExpression, scope: Seq<(Seq<char>, Seq<char>)>)
    -> Result<SpecEvalValue, SpecEvalError>
    decreases l, 0int,
{
    match spec_stmt_eval(*l.left, scope) {
        Err(e) => Err(e),
        Ok(lv) => match lv {
            SpecEvalValue::Bool(lb) => match spec_stmt_eval(*l.right, scope) {
                Err(e) => Err(e),
                Ok(rv) => match rv {
                    SpecEvalValue::Bool(rb) => match l.operator {
                        OperatorType::And => Ok(SpecEvalValue::Bool(lb && rb)),
                        OperatorType::Or => Ok(SpecEvalValue::Bool(lb || rb)),
                        _ => Err(
                            SpecEvalError::InvalidOperatorError("Invalid logical operator"@),
                        ),
                    },
                    _ => Err(SpecEvalError::TypeError("Right operand is not of type bool"@)),
                },
            },
            _ => Err(SpecEvalError::TypeError("Left operand is not of type bool"@)),
        },
    }
}

/// What a negation evaluates to: the operand must come back boolean.
pub open spec fn spec_not_eval(n: NotExpression, scope: Seq<(Seq<char>, Seq<char>)>) -> Result<
    SpecEvalValue,
    SpecEvalError,
>
    decreases n, 0int,
{
    match spec_stmt_eval(*n.operand, scope) {
        Err(e) => Err(e),
        Ok(v) => match v {
            SpecEvalValue::Bool(b) => Ok(SpecEvalValue::Bool(!b)),
            _ => Err(SpecEvalError::TypeError("Operand is not of type bool"@)),
        },
    }
}

/// What a statement evaluates to, variant by variant.
pub open spec fn spec_stmt_eval(st: StatementType, scope: Seq<(Seq<char>, Seq<char>)>) -> Result<
    SpecEvalValue,
    SpecEvalError,
>
    decreases st, 1int,
{
    match st {
        StatementType::Operator(op) => Ok(SpecEvalValue::Text(spec_op_text(op.type_))),
        StatementType::StringOperator(op) => Ok(SpecEvalValue::Text(spec_str_op_text(op.type_))),
        StatementType::Comparison(c) => spec_comparison_eval(c, scope),
        StatementType::StringComparison(sc) => spec_string_comparison_eval(sc),
        StatementType::LogicalExpression(l) => spec_logical_eval(l, scope),
        StatementType::NotExpression(n) => spec_not_eval(n, scope),
        StatementType::MethodCall(m) => spec_mc_eval(m, scope),
        StatementType::Value(v) => spec_value_eval(v),
        StatementType::Processor(p) => Ok(SpecEvalValue::Processors(pa_views(p.processors@))),
        StatementType::CaseKeyValue(kv) => Ok(
            SpecEvalValue::Pair(spec_fmt_display(*kv.key), spec_fmt_display(*kv.value)),
        ),
        StatementType::ConditionCase(cc) => Ok(
            SpecEvalValue::PairList(
                spec_fmt_displays(cc.conditions@),
                spec_fmt_displays(cc.cases@),
            ),
        ),
    }
}

// --- evaluation, executable ---

fn eval_value(v: &Value) -> (r: Result<EvalValue, EvalError>)
    ensures
        res_view(r) == spec_value_eval(*v),
{
    match &*v.value {
        FrontMatterType::STRING(s) => Ok(EvalValue::Text(s.clone())),
        FrontMatterType::NUMBER(n) => Ok(EvalValue::Int(*n)),
        FrontMatterType::DATE(d) => Ok(EvalValue::Text(d.clone())),
        FrontMatterType::BOOLEAN(b) => Ok(EvalValue::Bool(*b)),
        _ => Err(EvalError::TypeError(msg_of("Unsupported value type"))),
    }
}

/// A `String` holding exactly the given text.
fn msg_of(text: &str) -> (r: String)
    ensures
        r@ == text@,
{
    let mut r = String::new();
    r.append(text);
    r
}

fn eval_comparison(c: &Comparison, variables: &Scope) -> (r: Result<EvalValue, EvalError>)
    ensures
        res_view(r) == spec_comparison_eval(*c, variables@),
{
    let left: String = match &*c.left {
        FrontMatterType::STRING(s) => s.clone(),
        FrontMatterType::VARIABLE(n) => variables.get_or_empty(n.as_str()),
        _ => {
            return Err(EvalError::TypeError(msg_of("Unsupported left value type")));
        },
    };
    let right: String = match &*c.right {
        FrontMatterType::STRING(s) => s.clone(),
        _ => {
            return Err(EvalError::TypeError(msg_of("Unsupported right value type")));
        },
    };
    proof {
        lemma_lex_connex(left@, right@);
    }
    match c.operator.type_ {
        OperatorType::Equal => Ok(EvalValue::Bool(str_eq(left.as_str(), right.as_str()))),
        OperatorType::NotEqual => Ok(EvalValue::Bool(!str_eq(left.as_str(), right.as_str()))),
        OperatorType::LessThan => Ok(EvalValue::Bool(str_lex_lt(left.as_str(), right.as_str()))),
        OperatorType::GreaterThan => Ok(EvalValue::Bool(str_lex_lt(right.as_str(), left.as_str()))),
        OperatorType::LessEqual => Ok(
            EvalValue::Bool(!str_lex_lt(right.as_str(), left.as_str())),
        ),
        OperatorType::GreaterEqual => Ok(
            EvalValue::Bool(!str_lex_lt(left.as_str(), right.as_str())),
        ),
        _ => Err(EvalError::InvalidOperatorError(msg_of("Invalid comparison operator"))),
    }
}

fn eval_string_comparison(sc: &StringComparison) -> (r: Result<EvalValue, EvalError>)
    ensures
        res_view(r) == spec_string_comparison_eval(*sc),
{
    match sc.operator.type_ {
        StringOperator::Contains => {
            let s = chars_of(sc.variable.as_str());
            let p = chars_of(sc.value.as_str());
            Ok(EvalValue::Bool(contains_chars(&s, &p)))
        },
        StringOperator::StartsWith => {
            let s = chars_of(sc.variable.as_str());
            let p = chars_of(sc.value.as_str());
            Ok(EvalValue::Bool(starts_with_chars(&s, &p)))
        },
        StringOperator::EndsWith => {
            let s = chars_of(sc.variable.as_str());
            let p = chars_of(sc.value.as_str());
            Ok(EvalValue::Bool(ends_with_chars(&s, &p)))
        },
        StringOperator::Matches => {
            match regex_is_match(sc.value.as_str(), sc.variable.as_str()) {
                Some(b) => Ok(EvalValue::Bool(b)),
                None => Err(EvalError::InvalidRegexError(sc.value.clone())),
            }
        },
    }
}

/// One character as a `String`.
fn char_text(c: char) -> (r: String)
    ensures
        r@ == seq![c],
{
    let mut v: Vec<char> = Vec::new();
    v.push(c);
    proof {
        assert(v@ =~= seq![c]);
    }
    string_of(&v)
}

fn eval_method(method: &String, params: &Option<Vec<String>>, value: &String) -> (r: Result<
    EvalValue,
    EvalError,
>)
    ensures
        res_view(r) == spec_method_eval(method@, opt_texts_view(*params), value@),
{
    let first_param: Option<&String> = match params {
        Some(ps) => if ps.len() >= 1 {
            Some(&ps[0])
        } else {
            None
        },
        None => None,
    };
    proof {
        match first_param {
            Some(p) => assert(spec_first_param(opt_texts_view(*params)) == Some(p@)),
            None => assert(spec_first_param(opt_texts_view(*params)) is None),
        }
    }
    if str_eq(method.as_str(), "length") {
        let n = value.as_str().len();
        if n <= 2147483647 {
            Ok(EvalValue::Int(n as i32))
        } else {
            let digits = digits_of_u64(n as u64);
            Err(EvalError::IntegerOverflowError(string_of(&digits)))
        }
    } else if str_eq(method.as_str(), "trim") {
        Ok(EvalValue::Text(trim_str(value.as_str())))
    } else if str_eq(method.as_str(), "contains") {
        match first_param {
            Some(p) => {
                let s = chars_of(value.as_str());
                let pc = chars_of(p.as_str());
                Ok(EvalValue::Bool(contains_chars(&s, &pc)))
            },
            None => Err(EvalError::TypeError(msg_of("Missing method argument"))),
        }
    } else if str_eq(method.as_str(), "startsWith") {
        match first_param {
            Some(p) => {
                let s = chars_of(value.as_str());
                let pc = chars_of(p.as_str());
                Ok(EvalValue::Bool(starts_with_chars(&s, &pc)))
            },
            None => Err(EvalError::TypeError(msg_of("Missing method argument"))),
        }
    } else if str_eq(method.as_str(), "endsWith") {
        match first_param {
            Some(p) => {
                let s = chars_of(value.as_str());
                let pc = chars_of(p.as_str());
                Ok(EvalValue::Bool(ends_with_chars(&s, &pc)))
            },
            None => Err(EvalError::TypeError(msg_of("Missing method argument"))),
        }
    } else if str_eq(method.as_str(), "lowercase") {
        Ok(EvalValue::Text(lowercase(value.as_str())))
    } else if str_eq(method.as_str(), "uppercase") {
        Ok(EvalValue::Text(uppercase(value.as_str())))
    } else if str_eq(method.as_str(), "isEmpty") {
        Ok(EvalValue::Bool(value.as_str().is_empty()))
    } else if str_eq(method.as_str(), "isNotEmpty") {
        Ok(EvalValue::Bool(!value.as_str().is_empty()))
    } else if str_eq(method.as_str(), "first") {
        if value.as_str().is_empty() {
            Err(EvalError::EmptyInputError)
        } else {
            let c = value.as_str().get_char(0);
            Ok(EvalValue::Text(char_text(c)))
        }
    } else if str_eq(method.as_str(), "last") {
        if value.as_str().is_empty() {
            Err(EvalError::EmptyInputError)
        } else {
            let n = value.as_str().unicode_len();
            let c = value.as_str().get_char(n - 1);
            Ok(EvalValue::Text(char_text(c)))
        }
    } else if str_eq(method.as_str(), "matches") {
        match first_param {
            Some(p) => {
                match regex_is_match(p.as_str(), value.as_str()) {
                    Some(b) => Ok(EvalValue::Bool(b)),
                    None => Err(EvalError::InvalidRegexError(p.clone())),
                }
            },
            None => Err(EvalError::TypeError(msg_of("Missing method argument"))),
        }
    } else {
        Err(EvalError::UnknownMethodError(method.clone()))
    }
}

fn eval_mc(m: &MethodCall, variables: &Scope) -> (r: Result<EvalValue, EvalError>)
    requires
        spec_stmt_wf(StatementType::MethodCall(*m)),
    ensures
        res_view(r) == spec_mc_eval(*m, variables@),
{
    let value: String = match &*m.object_name {
        FrontMatterType::STRING(s) => s.clone(),
        FrontMatterType::VARIABLE(n) => variables.get_or_empty(n.as_str()),
        _ => {
            return Err(EvalError::TypeError(msg_of("Unsupported object name type")));
        },
    };
    let method = m.method_name.display();
    let params: Option<Vec<String>> = match &m.arguments {
        Some(args) => Some(param_texts(args)),
        None => None,
    };
    eval_method(&method, &params, &value)
}

/// Evaluates a logical expression over the scope.
pub fn eval_logical(l: &LogicalExpression, variables: &Scope) -> (r: Result<EvalValue, EvalError>)
    requires
        spec_stmt_wf(StatementType::LogicalExpression(*l)),
    ensures
        res_view(r) == spec_logical_eval(*l, variables@),
    decreases *l, 2int,
{
    let left = eval_stmt(&*l.left, variables);
    let lb = match left {
        Err(e) => {
            return Err(e);
        },
        Ok(EvalValue::Bool(b)) => b,
        Ok(_) => {
            return Err(EvalError::TypeError(msg_of("Left operand is not of type bool")));
        },
    };
    let right = eval_stmt(&*l.right, variables);
    let rb = match right {
        Err(e) => {
            return Err(e);
        },
        Ok(EvalValue::Bool(b)) => b,
        Ok(_) => {
            return Err(EvalError::TypeError(msg_of("Right operand is not of type bool")));
        },
    };
    match l.operator {
        OperatorType::And => Ok(EvalValue::Bool(lb && rb)),
        OperatorType::Or => Ok(EvalValue::Bool(lb || rb)),
        _ => Err(EvalError::InvalidOperatorError(msg_of("Invalid logical operator"))),
    }
}

/// Evaluates a negation over the scope.
pub fn eval_not(n: &NotExpression, variables: &Scope) -> (r: Result<EvalValue, EvalError>)
    requires
        spec_stmt_wf(StatementType::NotExpression(*n)),
    ensures
        res_view(r) == spec_not_eval(*n, variables@),
    decreases *n, 2int,
{
    let v = eval_stmt(&*n.operand, variables);
    match v {
        Err(e) => Err(e),
        Ok(EvalValue::Bool(b)) => Ok(EvalValue::Bool(!b)),
        Ok(_) => Err(EvalError::TypeError(msg_of("Operand is not of type bool"))),
    }
}

/// Evaluates a statement over the scope.
pub fn eval_stmt(st: &StatementType, variables: &Scope) -> (r: Result<EvalValue, EvalError>)
    requires
        spec_stmt_wf(*st),
    ensures
        res_view(r) == spec_stmt_eval(*st, variables@),
    decreases *st, 3int,
{
    match st {
        StatementType::Operator(op) => Ok(EvalValue::Text(op_text(&op.type_))),
        StatementType::StringOperator(op) => Ok(EvalValue::Text(str_op_text(&op.type_))),
        StatementType::Comparison(c) => eval_comparison(c, variables),
        StatementType::StringComparison(sc) => eval_string_comparison(sc),
        StatementType::LogicalExpression(l) => eval_logical(l, variables),
        StatementType::NotExpression(n) => eval_not(n, variables),
        StatementType::MethodCall(m) => eval_mc(m, variables),
        StatementType::Value(v) => eval_value(v),
        StatementType::Processor(p) => Ok(EvalValue::Processors(copy_pas(&p.processors))),
        StatementType::CaseKeyValue(kv) => {
            let k = kv.key.display();
            let v = kv.value.display();
            Ok(EvalValue::Pair(k, v))
        },
        StatementType::ConditionCase(cc) => {
            let conds = fmt_display_texts(&cc.conditions);
            let cases = fmt_display_texts(&cc.cases);
            Ok(EvalValue::PairList(conds, cases))
        },
    }
}

// --- rendering, executable ---

fn op_text(op: &OperatorType) -> (r: String)
    ensures
        r@ == spec_op_text(*op),
{
    match op {
        OperatorType::Or => msg_of("||"),
        OperatorType::And => msg_of("&&"),
        OperatorType::Not => msg_of("!"),
        OperatorType::Equal => msg_of("=="),
        OperatorType::NotEqual => msg_of("!="),
        OperatorType::LessThan => msg_of("<"),
        OperatorType::GreaterThan => msg_of(">"),
        OperatorType::LessEqual => msg_of("<="),
        OperatorType::GreaterEqual => msg_of(">="),
    }
}

fn str_op_text(op: &StringOperator) -> (r: String)
    ensures
        r@ == spec_str_op_text(*op),
{
    match op {
        StringOperator::Contains => msg_of("contains"),
        StringOperator::StartsWith => msg_of("startsWith"),
        StringOperator::EndsWith => msg_of("endsWith"),
        StringOperator::Matches => msg_of("matches"),
    }
}

/// The canonical texts of the processors of a pipeline, in order.
fn pa_texts(ps: &Vec<PatternActionFunc>) -> (r: Vec<String>)
    ensures
        views_of(r@) == ps@.map_values(|f| spec_pa_display(f)),
{
    let mut r: Vec<String> = Vec::new();
    let n = ps.len();
    let mut i: usize = 0;
    while i < n
        invariant
            n == ps@.len(),
            i <= n,
            r@.len() == i,
            forall|j: int| 0 <= j < i ==> (#[trigger] r@[j])@ == spec_pa_display(ps@[j]),
        decreases n - i,
    {
        r.push(ps[i].display());
        i += 1;
    }
    proof {
        assert(views_of(r@) =~= ps@.map_values(|f| spec_pa_display(f)));
    }
    r
}

/// Renders a comparison.
pub fn display_comparison(c: &Comparison) -> (r: String)
    requires
        spec_fmt_wf(*c.left),
        spec_fmt_wf(*c.right),
    ensures
        r@ == spec_comparison_display(*c),
    decreases *c, 3int,
{
    let mut r = c.left.display();
    r.append(" ");
    let op = op_text(&c.operator.type_);
    r.append(op.as_str());
    r.append(" ");
    let rhs = c.right.display();
    r.append(rhs.as_str());
    r
}

/// Renders a logical expression.
pub fn display_logical(l: &LogicalExpression) -> (r: String)
    requires
        spec_stmt_wf(StatementType::LogicalExpression(*l)),
    ensures
        r@ == spec_logical_display(*l),
    decreases *l, 3int,
{
    let mut r = display_stmt(&*l.left);
    r.append(" ");
    let op = op_text(&l.operator);
    r.append(op.as_str());
    r.append(" ");
    let rhs = display_stmt(&*l.right);
    r.append(rhs.as_str());
    r
}

/// Renders a negation.
pub fn display_not(n: &NotExpression) -> (r: String)
    requires
        spec_stmt_wf(StatementType::NotExpression(*n)),
    ensures
        r@ == spec_not_display(*n),
    decreases *n, 3int,
{
    let mut r = msg_of("!");
    let inner = display_stmt(&*n.operand);
    r.append(inner.as_str());
    r
}

/// Renders a method call the way the statement renderer does: dotted,
/// with the argument list only when it is non-empty.
pub fn display_mc_stmt(m: &MethodCall) -> (r: String)
    requires
        spec_stmt_wf(StatementType::MethodCall(*m)),
    ensures
        r@ == spec_mc_stmt_display(*m),
    decreases *m, 3int,
{
    let params: String = match &m.arguments {
        Some(args) => {
            let texts = param_texts(args);
            join_with(&texts, ", ")
        },
        None => String::new(),
    };
    let formatted: String = if params.as_str().is_empty() {
        String::new()
    } else {
        let mut f = msg_of("(");
        f.append(params.as_str());
        f.append(")");
        f
    };
    let method = m.method_name.display();
    let mut r = m.object_name.display();
    if !method.as_str().is_empty() {
        r.append(".");
        r.append(method.as_str());
    }
    r.append(formatted.as_str());
    r
}

/// Renders a method call the way its own renderer does: undotted, with
/// the argument list whenever one was written.
pub fn display_mc(m: &MethodCall) -> (r: String)
    requires
        spec_stmt_wf(StatementType::MethodCall(*m)),
    ensures
        r@ == spec_mc_display(*m),
    decreases *m, 3int,
{
    let mut r = m.object_name.display();
    let method = m.method_name.display();
    r.append(method.as_str());
    match &m.arguments {
        Some(args) => {
            let texts = param_texts(args);
            let joined = join_with(&texts, ", ");
            r.append("(");
            r.append(joined.as_str());
            r.append(")");
        },
        None => {},
    }
    r
}

/// Renders a statement, variant by variant.
pub fn display_stmt(st: &StatementType) -> (r: String)
    requires
        spec_stmt_wf(*st),
    ensures
        r@ == spec_stmt_display(*st),
    decreases *st, 4int,
{
    match st {
        StatementType::Operator(op) => op_text(&op.type_),
        StatementType::StringOperator(op) => str_op_text(&op.type_),
        StatementType::Comparison(c) => display_comparison(c),
        StatementType::StringComparison(sc) => {
            let mut r = msg_of(sc.variable.as_str());
            r.append(" ");
            let op = str_op_text(&sc.operator.type_);
            r.append(op.as_str());
            r.append(" ");
            r.append(sc.value.as_str());
            r
        },
        StatementType::LogicalExpression(l) => display_logical(l),
        StatementType::NotExpression(n) => display_not(n),
        StatementType::MethodCall(m) => display_mc_stmt(m),
        StatementType::Value(v) => v.value.display(),
        StatementType::Processor(p) => {
            let texts = pa_texts(&p.processors);
            join_with(&texts, " | ")
        },
        StatementType::CaseKeyValue(_) => msg_of("Unsupported statement type"),
        StatementType::ConditionCase(_) => msg_of("Unsupported statement type"),
    }
}

/// A `Contains` comparison is substring search and nothing else: it
/// holds exactly when the pattern occurs somewhere in the text.
pub proof fn lemma_contains_is_substring_search(text: Seq<char>, pattern: Seq<char>)
    ensures
        forall|sc: StringComparison|
            sc.variable@ == text && sc.value@ == pattern && sc.operator.type_
                == StringOperator::Contains ==> #[trigger] spec_string_comparison_eval(sc) == Ok::<
                SpecEvalValue,
                SpecEvalError,
            >(
                SpecEvalValue::Bool(
                    exists|i: int| crate::text::matches_at(text, pattern, i),
                ),
            ),
{
}

// --- the statement interface ---

/// What every statement offers: evaluation over a scope, and a canonical
/// text. Each implementation pins both to its specification functions.
pub trait Statement {
    /// The well-formedness this statement's contracts ask for.
    spec fn wf(&self) -> bool;

    /// The specified evaluation result.
    spec fn spec_eval(&self, scope: Seq<(Seq<char>, Seq<char>)>) -> Result<
        SpecEvalValue,
        SpecEvalError,
    >;

    /// The specified canonical text.
    spec fn spec_display(&self) -> Seq<char>;

    /// Evaluates this statement over the scope.
    fn evaluate(&self, variables: &Scope) -> (r: Result<EvalValue, EvalError>)
        requires
            self.wf(),
        ensures
            res_view(r) == self.spec_eval(variables@),
    ;

    /// The canonical text of this statement.
    fn display(&self) -> (r: String)
        requires
            self.wf(),
        ensures
            r@ == self.spec_display(),
    ;
}

impl Statement for StatementType {
    open spec fn wf(&self) -> bool {
        spec_stmt_wf(*self)
    }

    open spec fn spec_eval(&self, scope: Seq<(Seq<char>, Seq<char>)>) -> Result<
        SpecEvalValue,
        SpecEvalError,
    > {
        spec_stmt_eval(*self, scope)
    }

    open spec fn spec_display(&self) -> Seq<char> {
        spec_stmt_display(*self)
    }

    fn evaluate(&self, variables: &Scope) -> (r: Result<EvalValue, EvalError>) {
        eval_stmt(self, variables)
    }

    fn display(&self) -> (r: String) {
        display_stmt(self)
    }
}

impl Statement for Value {
    open spec fn wf(&self) -> bool {
        spec_fmt_wf(*self.value)
    }

    open spec fn spec_eval(&self, scope: Seq<(Seq<char>, Seq<char>)>) -> Result<
        SpecEvalValue,
        SpecEvalError,
    > {
        spec_value_eval(*self)
    }

    open spec fn spec_display(&self) -> Seq<char> {
        spec_fmt_display(*self.value)
    }

    fn evaluate(&self, variables: &Scope) -> (r: Result<EvalValue, EvalError>) {
        eval_value(self)
    }

    fn display(&self) -> (r: String) {
        self.value.display()
    }
}

impl OperatorType {
    /// The operator a symbol names, or the symbol back as the error.
    pub fn from_str(operator: &str) -> (r: Result<OperatorType, String>)
        ensures
            operator@ == "||"@ ==> r == Ok::<OperatorType, String>(OperatorType::Or),
            operator@ == "&&"@ ==> r == Ok::<OperatorType, String>(OperatorType::And),
            operator@ == "!"@ ==> r == Ok::<OperatorType, String>(OperatorType::Not),
            operator@ == "=="@ ==> r == Ok::<OperatorType, String>(OperatorType::Equal),
            operator@ == "!="@ ==> r == Ok::<OperatorType, String>(OperatorType::NotEqual),
            operator@ == "<"@ ==> r == Ok::<OperatorType, String>(OperatorType::LessThan),
            operator@ == ">"@ ==> r == Ok::<OperatorType, String>(OperatorType::GreaterThan),
            operator@ == "<="@ ==> r == Ok::<OperatorType, String>(OperatorType::LessEqual),
            operator@ == ">="@ ==> r == Ok::<OperatorType, String>(OperatorType::GreaterEqual),
            (r matches Err(m) ==> m@ == operator@) && (r is Err <==> !(operator@ == "||"@
                || operator@ == "&&"@ || operator@ == "!"@ || operator@ == "=="@ || operator@
                == "!="@ || operator@ == "<"@ || operator@ == ">"@ || operator@ == "<="@
                || operator@ == ">="@)),
    {
        proof {
            reveal_strlit("||");
            reveal_strlit("&&");
            reveal_strlit("!");
            reveal_strlit("==");
            reveal_strlit("!=");
            reveal_strlit("<");
            reveal_strlit(">");
            reveal_strlit("<=");
            reveal_strlit(">=");
            assert("||"@.len() == 2 && "&&"@.len() == 2 && "!"@.len() == 1 && "=="@.len() == 2
                && "!="@.len() == 2 && "<"@.len() == 1 && ">"@.len() == 1 && "<="@.len() == 2
                && ">="@.len() == 2);
            assert("||"@[0] == '|' && "&&"@[0] == '&' && "!"@[0] == '!' && "=="@[0] == '='
                && "!="@[0] == '!' && "<"@[0] == '<' && ">"@[0] == '>' && "<="@[0] == '<'
                && ">="@[0] == '>');
            assert("!="@[1] == '=' && "!"@.len() != "!="@.len());
        }
        if str_eq(operator, "||") {
            Ok(OperatorType::Or)
        } else if str_eq(operator, "&&") {
            Ok(OperatorType::And)
        } else if str_eq(operator, "!") {
            Ok(OperatorType::Not)
        } else if str_eq(operator, "==") {
            Ok(OperatorType::Equal)
        } else if str_eq(operator, "!=") {
            Ok(OperatorType::NotEqual)
        } else if str_eq(operator, "<") {
            Ok(OperatorType::LessThan)
        } else if str_eq(operator, ">") {
            Ok(OperatorType::GreaterThan)
        } else if str_eq(operator, "<=") {
            Ok(OperatorType::LessEqual)
        } else if str_eq(operator, ">=") {
            Ok(OperatorType::GreaterEqual)
        } else {
            Err(String::from_str(operator))
        }
    }
}

impl Statement for OperatorType {
    open spec fn wf(&self) -> bool {
        true
    }

    open spec fn spec_eval(&self, scope: Seq<(Seq<char>, Seq<char>)>) -> Result<
        SpecEvalValue,
        SpecEvalError,
    > {
        Ok(SpecEvalValue::Text(spec_op_text(*self)))
    }

    open spec fn spec_display(&self) -> Seq<char> {
        spec_op_text(*self)
    }

    fn evaluate(&self, variables: &Scope) -> (r: Result<EvalValue, EvalError>) {
        Ok(EvalValue::Text(op_text(self)))
    }

    fn display(&self) -> (r: String) {
        op_text(self)
    }
}

impl Statement for StringOperator {
    open spec fn wf(&self) -> bool {
        true
    }

    open spec fn spec_eval(&self, scope: Seq<(Seq<char>, Seq<char>)>) -> Result<
        SpecEvalValue,
        SpecEvalError,
    > {
        Ok(SpecEvalValue::Text(spec_str_op_text(*self)))
    }

    open spec fn spec_display(&self) -> Seq<char> {
        spec_str_op_text(*self)
    }

    fn evaluate(&self, variables: &Scope) -> (r: Result<EvalValue, EvalError>) {
        Ok(EvalValue::Text(str_op_text(self)))
    }

    fn display(&self) -> (r: String) {
        str_op_text(self)
    }
}

impl Statement for Operator {
    open spec fn wf(&self) -> bool {
        true
    }

    open spec fn spec_eval(&self, scope: Seq<(Seq<char>, Seq<char>)>) -> Result<
        SpecEvalValue,
        SpecEvalError,
    > {
        Ok(SpecEvalValue::Text(spec_op_text(self.type_)))
    }

    open spec fn spec_display(&self) -> Seq<char> {
        spec_op_text(self.type_)
    }

    fn evaluate(&self, variables: &Scope) -> (r: Result<EvalValue, EvalError>) {
        Ok(EvalValue::Text(op_text(&self.type_)))
    }

    fn display(&self) -> (r: String) {
        op_text(&self.type_)
    }
}

impl Statement for StringOperatorStatement {
    open spec fn wf(&self) -> bool {
        true
    }

    open spec fn spec_eval(&self, scope: Seq<(Seq<char>, Seq<char>)>) -> Result<
        SpecEvalValue,
        SpecEvalError,
    > {
        Ok(SpecEvalValue::Text(spec_str_op_text(self.type_)))
    }

    open spec fn spec_display(&self) -> Seq<char> {
        spec_str_op_text(self.type_)
    }

    fn evaluate(&self, variables: &Scope) -> (r: Result<EvalValue, EvalError>) {
        Ok(EvalValue::Text(str_op_text(&self.type_)))
    }

    fn display(&self) -> (r: String) {
        str_op_text(&self.type_)
    }
}

impl Statement for Comparison {
    open spec fn wf(&self) -> bool {
        spec_fmt_wf(*self.left) && spec_fmt_wf(*self.right)
    }

    open spec fn spec_eval(&self, scope: Seq<(Seq<char>, Seq<char>)>) -> Result<
        SpecEvalValue,
        SpecEvalError,
    > {
        spec_comparison_eval(*self, scope)
    }

    open spec fn spec_display(&self) -> Seq<char> {
        spec_comparison_display(*self)
    }

    fn evaluate(&self, variables: &Scope) -> (r: Result<EvalValue, EvalError>) {
        eval_comparison(self, variables)
    }

    fn display(&self) -> (r: String) {
        display_comparison(self)
    }
}

impl Statement for StringComparison {
    open spec fn wf(&self) -> bool {
        true
    }

    open spec fn spec_eval(&self, scope: Seq<(Seq<char>, Seq<char>)>) -> Result<
        SpecEvalValue,
        SpecEvalError,
    > {
        spec_string_comparison_eval(*self)
    }

    open spec fn spec_display(&self) -> Seq<char> {
        self.variable@ + " "@ + spec_str_op_text(self.operator.type_) + " "@ + self.value@
    }

    fn evaluate(&self, variables: &Scope) -> (r: Result<EvalValue, EvalError>) {
        eval_string_comparison(self)
    }

    fn display(&self) -> (r: String) {
        let mut r = msg_of(self.variable.as_str());
        r.append(" ");
        let op = str_op_text(&self.operator.type_);
        r.append(op.as_str());
        r.append(" ");
        r.append(self.value.as_str());
        r
    }
}

impl Statement for LogicalExpression {
    open spec fn wf(&self) -> bool {
        spec_stmt_wf(*self.left) && spec_stmt_wf(*self.right)
    }

    open spec fn spec_eval(&self, scope: Seq<(Seq<char>, Seq<char>)>) -> Result<
        SpecEvalValue,
        SpecEvalError,
    > {
        spec_logical_eval(*self, scope)
    }

    open spec fn spec_display(&self) -> Seq<char> {
        spec_logical_display(*self)
    }

    fn evaluate(&self, variables: &Scope) -> (r: Result<EvalValue, EvalError>) {
        eval_logical(self, variables)
    }

    fn display(&self) -> (r: String) {
        display_logical(self)
    }
}

impl Statement for NotExpression {
    open spec fn wf(&self) -> bool {
        spec_stmt_wf(*self.operand)
    }

    open spec fn spec_eval(&self, scope: Seq<(Seq<char>, Seq<char>)>) -> Result<
        SpecEvalValue,
        SpecEvalError,
    > {
        spec_not_eval(*self, scope)
    }

    open spec fn spec_display(&self) -> Seq<char> {
        spec_not_display(*self)
    }

    fn evaluate(&self, variables: &Scope) -> (r: Result<EvalValue, EvalError>) {
        eval_not(self, variables)
    }

    fn display(&self) -> (r: String) {
        display_not(self)
    }
}

impl MethodCall {
    /// The argument texts of this call, or none when it was written
    /// without an argument list.
    pub fn parameters(&self) -> (r: Option<Vec<String>>)
        requires
            spec_stmt_wf(StatementType::MethodCall(*self)),
        ensures
            opt_texts_view(r) == spec_mc_params(*self),
    {
        match &self.arguments {
            Some(args) => Some(param_texts(args)),
            None => None,
        }
    }
}

impl Statement for MethodCall {
    open spec fn wf(&self) -> bool {
        spec_stmt_wf(StatementType::MethodCall(*self))
    }

    open spec fn spec_eval(&self, scope: Seq<(Seq<char>, Seq<char>)>) -> Result<
        SpecEvalValue,
        SpecEvalError,
    > {
        spec_mc_eval(*self, scope)
    }

    open spec fn spec_display(&self) -> Seq<char> {
        spec_mc_display(*self)
    }

    fn evaluate(&self, variables: &Scope) -> (r: Result<EvalValue, EvalError>) {
        eval_mc(self, variables)
    }

    fn display(&self) -> (r: String) {
        display_mc(self)
    }
}

impl Statement for Processor {
    open spec fn wf(&self) -> bool {
        true
    }

    open spec fn spec_eval(&self, scope: Seq<(Seq<char>, Seq<char>)>) -> Result<
        SpecEvalValue,
        SpecEvalError,
    > {
        Ok(SpecEvalValue::Processors(pa_views(self.processors@)))
    }

    open spec fn spec_display(&self) -> Seq<char> {
        spec_join(self.processors@.map_values(|f| spec_pa_display(f)), " | "@)
    }

    fn evaluate(&self, variables: &Scope) -> (r: Result<EvalValue, EvalError>) {
        Ok(EvalValue::Processors(copy_pas(&self.processors)))
    }

    fn display(&self) -> (r: String) {
        let texts = pa_texts(&self.processors);
        join_with(&texts, " | ")
    }
}

impl Statement for CaseKeyValue {
    open spec fn wf(&self) -> bool {
        spec_fmt_wf(*self.key) && spec_fmt_wf(*self.value)
    }

    open spec fn spec_eval(&self, scope: Seq<(Seq<char>, Seq<char>)>) -> Result<
        SpecEvalValue,
        SpecEvalError,
    > {
        Ok(SpecEvalValue::Pair(spec_fmt_display(*self.key), spec_fmt_display(*self.value)))
    }

    open spec fn spec_display(&self) -> Seq<char> {
        spec_quoted(spec_fmt_display(*self.key)) + " -> "@ + spec_fmt_display(*self.value)
    }

    fn evaluate(&self, variables: &Scope) -> (r: Result<EvalValue, EvalError>) {
        let k = self.key.display();
        let v = self.value.display();
        Ok(EvalValue::Pair(k, v))
    }

    fn display(&self) -> (r: String) {
        let mut r = msg_of("\"");
        let k = self.key.display();
        r.append(k.as_str());
        r.append("\"");
        r.append(" -> ");
        let v = self.value.display();
        r.append(v.as_str());
        proof {
            reveal_strlit("\"");
            assert(r@ =~= spec_quoted(spec_fmt_display(*self.key)) + " -> "@ + spec_fmt_display(
                *self.value,
            ));
        }
        r
    }
}

impl Statement for ConditionCase {
    open spec fn wf(&self) -> bool {
        spec_stmt_wf(StatementType::ConditionCase(*self))
    }

    open spec fn spec_eval(&self, scope: Seq<(Seq<char>, Seq<char>)>) -> Result<
        SpecEvalValue,
        SpecEvalError,
    > {
        Ok(
            SpecEvalValue::PairList(
                spec_fmt_displays(self.conditions@),
                spec_fmt_displays(self.cases@),
            ),
        )
    }

    open spec fn spec_display(&self) -> Seq<char> {
        spec_cc_display(*self)
    }

    fn evaluate(&self, variables: &Scope) -> (r: Result<EvalValue, EvalError>) {
        let conds = fmt_display_texts(&self.conditions);
        let cases = fmt_display_texts(&self.cases);
        Ok(EvalValue::PairList(conds, cases))
    }

    fn display(&self) -> (r: String) {
        let mut r = msg_of("case \"");
        let conds = fmt_display_texts(&self.conditions);
        let joined = join_with(&conds, ", ");
        r.append(joined.as_str());
        r.append("\" -> ");
        let cases = fmt_display_texts(&self.cases);
        let joined2 = join_with(&cases, ", ");
        r.append(joined2.as_str());
        r
    }
}

} // verus!
