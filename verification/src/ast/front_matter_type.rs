//! The value model: the closed set of values the parser produces and the
//! evaluator consumes, with the canonical text each renders to. Statements
//! and values reference each other, so the well-formedness and rendering
//! specifications for both live here.

use vstd::prelude::*;
use crate::ast::pattern_action_fun::VariableElement;
use crate::ast::pattern_action_fun::spec_pa_display;
use crate::ast::shire_expression::Comparison;
use crate::ast::shire_expression::ConditionCase;
use crate::ast::shire_expression::EvalValue;
use crate::ast::shire_expression::SpecEvalValue;
use crate::ast::shire_expression::opt_val_view;
use crate::ast::shire_expression::display_stmt;
use crate::ast::shire_expression::LogicalExpression;
use crate::ast::shire_expression::MethodCall;
use crate::ast::shire_expression::NotExpression;
use crate::ast::shire_expression::OperatorType;
use crate::ast::shire_expression::StatementType;
use crate::ast::shire_expression::StringOperator;
use crate::numbers::spec_i32_text;
use crate::numbers::i32_chars;
use crate::text::spec_join;
use crate::text::spec_quoted;
use crate::text::join_with;
use crate::text::string_of;
use crate::text::repeat_join;

verus! {

/// A tagged front-matter value: literal, collection, rule, or wrapped
/// statement.
#[derive(Debug, PartialEq, Eq)]
#[allow(non_camel_case_types)]
pub enum FrontMatterType {
    STRING(String),
    NUMBER(i32),
    DATE(String),
    BOOLEAN(bool),
    ERROR(String),
    EMPTY,
    ARRAY(Vec<FrontMatterType>),
    OBJECT(Vec<(String, FrontMatterType)>),
    PATTERN(RuleBasedPatternAction),
    CASE_MATCH(Vec<(String, FrontMatterType)>),
    VARIABLE(String),
    EXPRESSION(StatementType),
    IDENTIFIER(String),
    QUERY_STATEMENT(ShirePsiQueryStatement),
}

/// A regex keyed to the processors it triggers.
#[derive(Debug, Clone, PartialEq, Eq)]
pub struct RuleBasedPatternAction {
    pub pattern: String,
    pub processors: Vec<Processor>,
}

/// One named processing step of a rule.
#[derive(Debug, Clone, PartialEq, Eq)]
pub struct Processor {
    pub func_name: String,
}

/// A structured from/where/select query carried through the tree.
#[derive(Debug, PartialEq, Eq)]
pub struct ShirePsiQueryStatement {
    pub from: Vec<VariableElement>,
    pub where_clause: Box<StatementType>,
    pub select: Vec<StatementType>,
}

// --- well-formedness ---
//
// A case-match maps keys to patterns, and a condition-case pairs each
// condition with a case; trees that break either are programming errors,
// so the rendering and evaluation contracts ask for these to hold.

pub open spec fn spec_all_pattern(s: Seq<(String, FrontMatterType)>) -> bool {
    forall|i: int| 0 <= i < s.len() ==> (#[trigger] s[i].1) is PATTERN
}

pub open spec fn spec_fmt_wf_list(s: Seq<FrontMatterType>) -> bool
    decreases s, 0int,
{
    s.len() == 0 || (spec_fmt_wf(s[s.len() - 1]) && spec_fmt_wf_list(s.subrange(0, s.len() - 1)))
}

pub open spec fn spec_fmt_wf_entries(s: Seq<(String, FrontMatterType)>) -> bool
    decreases s, 0int,
{
    s.len() == 0 || (spec_fmt_wf(s[s.len() - 1].1) && spec_fmt_wf_entries(
        s.subrange(0, s.len() - 1),
    ))
}

pub open spec fn spec_fmt_wf(f: FrontMatterType) -> bool
    decreases f, 1int,
{
    match f {
        FrontMatterType::ARRAY(v) => spec_fmt_wf_list(v@),
        FrontMatterType::OBJECT(v) => spec_fmt_wf_entries(v@),
        FrontMatterType::CASE_MATCH(v) => spec_all_pattern(v@),
        FrontMatterType::EXPRESSION(st) => spec_stmt_wf(st),
        _ => true,
    }
}

pub open spec fn spec_stmt_wf(st: StatementType) -> bool
    decreases st, 2int,
{
    match st {
        StatementType::Comparison(c) => spec_fmt_wf(*c.left) && spec_fmt_wf(*c.right),
        StatementType::LogicalExpression(l) => spec_stmt_wf(*l.left) && spec_stmt_wf(*l.right),
        StatementType::NotExpression(n) => spec_stmt_wf(*n.operand),
        StatementType::MethodCall(m) => spec_fmt_wf(*m.object_name) && spec_fmt_wf(*m.method_name)
            && (match m.arguments {
            Some(args) => spec_fmt_wf_list(args@),
            None => true,
        }),
        StatementType::Value(v) => spec_fmt_wf(*v.value),
        StatementType::CaseKeyValue(kv) => spec_fmt_wf(*kv.key) && spec_fmt_wf(*kv.value),
        StatementType::ConditionCase(cc) => cc.conditions@.len() == cc.cases@.len()
            && spec_fmt_wf_list(cc.conditions@) && spec_fmt_wf_list(cc.cases@),
        _ => true,
    }
}

pub proof fn lemma_wf_list_index(s: Seq<FrontMatterType>, i: int)
    requires
        spec_fmt_wf_list(s),
        0 <= i < s.len(),
    ensures
        spec_fmt_wf(s[i]),
    decreases s.len(),
{
    if i < s.len() - 1 {
        lemma_wf_list_index(s.subrange(0, s.len() - 1), i);
        assert(s.subrange(0, s.len() - 1)[i] == s[i]);
    }
}

pub proof fn lemma_wf_entries_index(s: Seq<(String, FrontMatterType)>, i: int)
    requires
        spec_fmt_wf_entries(s),
        0 <= i < s.len(),
    ensures
        spec_fmt_wf(s[i].1),
    decreases s.len(),
{
    if i < s.len() - 1 {
        lemma_wf_entries_index(s.subrange(0, s.len() - 1), i);
        assert(s.subrange(0, s.len() - 1)[i] == s[i]);
    }
}

// --- canonical text ---

/// The names of a rule's processors, comma-separated.
pub open spec fn spec_proc_names(ps: Seq<Processor>, sep: Seq<char>) -> Seq<char> {
    spec_join(ps.map_values(|p: Processor| p.func_name@), sep)
}

/// One case-match arm: the key and the processor names of its pattern.
pub open spec fn spec_case_entry(e: (String, FrontMatterType)) -> Seq<char> {
    let procs = match e.1 {
        FrontMatterType::PATTERN(p) => spec_proc_names(p.processors@, " | "@),
        _ => Seq::<char>::empty(),
    };
    spec_quoted(e.0@) + " { "@ + procs + " }"@
}

pub open spec fn spec_case_body(s: Seq<(String, FrontMatterType)>) -> Seq<char> {
    spec_join(s.map_values(|e: (String, FrontMatterType)| spec_case_entry(e)), "\n"@)
}

/// The canonical text of a query statement.
pub open spec fn spec_query_display(q: ShirePsiQueryStatement) -> Seq<char> {
    "from {\n    "@ + spec_join(Seq::new(q.from@.len(), |i: int| "VariableElement"@), ", "@)
        + "\n}\nwhere {\n    Statement\n}\nselect "@ + spec_join(
        Seq::new(q.select@.len(), |i: int| "Statement"@),
        ", "@,
    )
}

/// The canonical texts of the values of a list, in order.
pub open spec fn spec_fmt_displays(s: Seq<FrontMatterType>) -> Seq<Seq<char>>
    decreases s, 0int,
{
    if s.len() == 0 {
        Seq::<Seq<char>>::empty()
    } else {
        spec_fmt_displays(s.subrange(0, s.len() - 1)).push(spec_fmt_display(s[s.len() - 1]))
    }
}

/// The canonical texts of an object's entries, in order.
pub open spec fn spec_obj_texts(s: Seq<(String, FrontMatterType)>) -> Seq<Seq<char>>
    decreases s, 0int,
{
    if s.len() == 0 {
        Seq::<Seq<char>>::empty()
    } else {
        spec_obj_texts(s.subrange(0, s.len() - 1)).push(
            spec_quoted(s[s.len() - 1].0@) + ": "@ + spec_fmt_display(s[s.len() - 1].1),
        )
    }
}

/// A method argument as text: a string argument is taken literally, any
/// other renders canonically.
pub open spec fn spec_param_text(f: FrontMatterType) -> Seq<char>
    decreases f, 2int,
{
    match f {
        FrontMatterType::STRING(x) => x@,
        _ => spec_fmt_display(f),
    }
}

/// Method arguments as text, in order.
pub open spec fn spec_params(s: Seq<FrontMatterType>) -> Seq<Seq<char>>
    decreases s, 0int,
{
    if s.len() == 0 {
        Seq::<Seq<char>>::empty()
    } else {
        spec_params(s.subrange(0, s.len() - 1)).push(spec_param_text(s[s.len() - 1]))
    }
}

/// The canonical text of a value.
pub open spec fn spec_fmt_display(f: FrontMatterType) -> Seq<char>
    decreases f, 1int,
{
    match f {
        FrontMatterType::STRING(v) => spec_quoted(v@),
        FrontMatterType::NUMBER(v) => spec_i32_text(v as int),
        FrontMatterType::DATE(v) => v@,
        FrontMatterType::BOOLEAN(v) => if v {
            "true"@
        } else {
            "false"@
        },
        FrontMatterType::ERROR(v) => v@,
        FrontMatterType::EMPTY => Seq::<char>::empty(),
        FrontMatterType::ARRAY(v) => "["@ + spec_join(spec_fmt_displays(v@), ", "@) + "]"@,
        FrontMatterType::OBJECT(v) => "{"@ + spec_join(spec_obj_texts(v@), ", "@) + "}"@,
        FrontMatterType::PATTERN(p) => p.pattern@ + " -> "@ + spec_proc_names(
            p.processors@,
            ", "@,
        ),
        FrontMatterType::CASE_MATCH(v) => "case \"$0\" {\n"@ + spec_case_body(v@) + "\n}"@,
        FrontMatterType::VARIABLE(v) => "$"@ + v@,
        FrontMatterType::EXPRESSION(st) => spec_stmt_display(st),
        FrontMatterType::IDENTIFIER(v) => v@,
        FrontMatterType::QUERY_STATEMENT(q) => spec_query_display(q),
    }
}

/// The textual symbol of an operator.
pub open spec fn spec_op_text(op: OperatorType) -> Seq<char> {
    match op {
        OperatorType::Or => "||"@,
        OperatorType::And => "&&"@,
        OperatorType::Not => "!"@,
        OperatorType::Equal => "=="@,
        OperatorType::NotEqual => "!="@,
        OperatorType::LessThan => "<"@,
        OperatorType::GreaterThan => ">"@,
        OperatorType::LessEqual => "<="@,
        OperatorType::GreaterEqual => ">="@,
    }
}

/// The textual name of a string operator.
pub open spec fn spec_str_op_text(op: StringOperator) -> Seq<char> {
    match op {
        StringOperator::Contains => "contains"@,
        StringOperator::StartsWith => "startsWith"@,
        StringOperator::EndsWith => "endsWith"@,
        StringOperator::Matches => "matches"@,
    }
}

pub open spec fn spec_comparison_display(c: Comparison) -> Seq<char>
    decreases c, 2int,
{
    spec_fmt_display(*c.left) + " "@ + spec_op_text(c.operator.type_) + " "@ + spec_fmt_display(
        *c.right,
    )
}

pub open spec fn spec_logical_display(l: LogicalExpression) -> Seq<char>
    decreases l, 2int,
{
    spec_stmt_display(*l.left) + " "@ + spec_op_text(l.operator) + " "@ + spec_stmt_display(
        *l.right,
    )
}

pub open spec fn spec_not_display(n: NotExpression) -> Seq<char>
    decreases n, 2int,
{
    "!"@ + spec_stmt_display(*n.operand)
}

/// The argument texts of a method call, or none when it was written
/// without an argument list.
pub open spec fn spec_mc_params(m: MethodCall) -> Option<Seq<Seq<char>>>
    decreases m, 2int,
{
    match m.arguments {
        Some(args) => Some(spec_params(args@)),
        None => None,
    }
}

/// A method call as the statement renderer writes it: dotted, with the
/// argument list only when it is non-empty.
pub open spec fn spec_mc_stmt_display(m: MethodCall) -> Seq<char>
    decreases m, 3int,
{
    let params = match spec_mc_params(m) {
        Some(ps) => spec_join(ps, ", "@),
        None => Seq::<char>::empty(),
    };
    let formatted = if params.len() == 0 {
        Seq::<char>::empty()
    } else {
        "("@ + params + ")"@
    };
    let dot = if spec_fmt_display(*m.method_name).len() == 0 {
        Seq::<char>::empty()
    } else {
        "."@ + spec_fmt_display(*m.method_name)
    };
    spec_fmt_display(*m.object_name) + dot + formatted
}

/// A method call as its own renderer writes it: undotted, with the
/// argument list whenever one was written.
pub open spec fn spec_mc_display(m: MethodCall) -> Seq<char>
    decreases m, 3int,
{
    let formatted = match spec_mc_params(m) {
        Some(ps) => "("@ + spec_join(ps, ", "@) + ")"@,
        None => Seq::<char>::empty(),
    };
    spec_fmt_display(*m.object_name) + spec_fmt_display(*m.method_name) + formatted
}

pub open spec fn spec_cc_display(cc: ConditionCase) -> Seq<char>
    decreases cc, 2int,
{
    "case \""@ + spec_join(spec_fmt_displays(cc.conditions@), ", "@) + "\" -> "@ + spec_join(
        spec_fmt_displays(cc.cases@),
        ", "@,
    )
}

/// The canonical text of a statement.
pub open spec fn spec_stmt_display(st: StatementType) -> Seq<char>
    decreases st, 4int,
{
    match st {
        StatementType::Operator(op) => spec_op_text(op.type_),
        StatementType::StringOperator(op) => spec_str_op_text(op.type_),
        StatementType::Comparison(c) => spec_comparison_display(c),
        StatementType::StringComparison(sc) => sc.variable@ + " "@ + spec_str_op_text(
            sc.operator.type_,
        ) + " "@ + sc.value@,
        StatementType::LogicalExpression(l) => spec_logical_display(l),
        StatementType::NotExpression(n) => spec_not_display(n),
        StatementType::MethodCall(m) => spec_mc_stmt_display(m),
        StatementType::Value(v) => spec_fmt_display(*v.value),
        StatementType::Processor(p) => spec_join(
            p.processors@.map_values(|f| spec_pa_display(f)),
            " | "@,
        ),
        StatementType::CaseKeyValue(_) => "Unsupported statement type"@,
        StatementType::ConditionCase(_) => "Unsupported statement type"@,
    }
}

pub proof fn lemma_fmt_displays_index(s: Seq<FrontMatterType>)
    ensures
        spec_fmt_displays(s).len() == s.len(),
        forall|j: int| 0 <= j < s.len() ==> spec_fmt_displays(s)[j] == spec_fmt_display(s[j]),
    decreases s.len(),
{
    if s.len() > 0 {
        let pre = s.subrange(0, s.len() - 1);
        lemma_fmt_displays_index(pre);
        assert forall|j: int| 0 <= j < s.len() implies spec_fmt_displays(s)[j] == spec_fmt_display(
            s[j],
        ) by {
            if j < s.len() - 1 {
                assert(spec_fmt_displays(s)[j] == spec_fmt_displays(pre)[j]);
                assert(pre[j] == s[j]);
            }
        }
    }
}

pub proof fn lemma_obj_texts_index(s: Seq<(String, FrontMatterType)>)
    ensures
        spec_obj_texts(s).len() == s.len(),
        forall|j: int|
            0 <= j < s.len() ==> spec_obj_texts(s)[j] == spec_quoted(s[j].0@) + ": "@
                + spec_fmt_display(s[j].1),
    decreases s.len(),
{
    if s.len() > 0 {
        let pre = s.subrange(0, s.len() - 1);
        lemma_obj_texts_index(pre);
        assert forall|j: int|
            0 <= j < s.len() implies spec_obj_texts(s)[j] == spec_quoted(s[j].0@) + ": "@
            + spec_fmt_display(s[j].1) by {
            if j < s.len() - 1 {
                assert(spec_obj_texts(s)[j] == spec_obj_texts(pre)[j]);
                assert(pre[j] == s[j]);
            }
        }
    }
}

pub proof fn lemma_params_index(s: Seq<FrontMatterType>)
    ensures
        spec_params(s).len() == s.len(),
        forall|j: int| 0 <= j < s.len() ==> spec_params(s)[j] == spec_param_text(s[j]),
    decreases s.len(),
{
    if s.len() > 0 {
        let pre = s.subrange(0, s.len() - 1);
        lemma_params_index(pre);
        assert forall|j: int| 0 <= j < s.len() implies spec_params(s)[j] == spec_param_text(
            s[j],
        ) by {
            if j < s.len() - 1 {
                assert(spec_params(s)[j] == spec_params(pre)[j]);
                assert(pre[j] == s[j]);
            }
        }
    }
}

// --- executable rendering ---

/// The canonical texts of the values of a list, in order.
pub fn fmt_display_texts(v: &Vec<FrontMatterType>) -> (r: Vec<String>)
    requires
        spec_fmt_wf_list(v@),
    ensures
        crate::text::views_of(r@) == spec_fmt_displays(v@),
    decreases v@, 2int,
{
    let mut r: Vec<String> = Vec::new();
    let n = v.len();
    let mut i: usize = 0;
    while i < n
        invariant
            spec_fmt_wf_list(v@),
            n == v@.len(),
            i <= n,
            r@.len() == i,
            forall|j: int| 0 <= j < i ==> (#[trigger] r@[j])@ == spec_fmt_display(v@[j]),
        decreases n - i,
    {
        proof {
            lemma_wf_list_index(v@, i as int);
        }
        let t = v[i].display();
        r.push(t);
        i += 1;
    }
    proof {
        lemma_fmt_displays_index(v@);
        assert(crate::text::views_of(r@) =~= spec_fmt_displays(v@));
    }
    r
}

/// The canonical texts of an object's entries, in order.
fn obj_texts(v: &Vec<(String, FrontMatterType)>) -> (r: Vec<String>)
    requires
        spec_fmt_wf_entries(v@),
    ensures
        crate::text::views_of(r@) == spec_obj_texts(v@),
    decreases v@, 2int,
{
    let mut r: Vec<String> = Vec::new();
    let n = v.len();
    let mut i: usize = 0;
    while i < n
        invariant
            spec_fmt_wf_entries(v@),
            n == v@.len(),
            i <= n,
            r@.len() == i,
            forall|j: int|
                0 <= j < i ==> (#[trigger] r@[j])@ == spec_quoted(v@[j].0@) + ": "@
                    + spec_fmt_display(v@[j].1),
        decreases n - i,
    {
        proof {
            lemma_wf_entries_index(v@, i as int);
        }
        let mut t = String::new();
        t.append("\"");
        t.append(v[i].0.as_str());
        t.append("\"");
        t.append(": ");
        let inner = v[i].1.display();
        t.append(inner.as_str());
        proof {
            reveal_strlit("\"");
            assert(t@ =~= spec_quoted(v@[i as int].0@) + ": "@ + spec_fmt_display(v@[i as int].1));
        }
        r.push(t);
        i += 1;
    }
    proof {
        lemma_obj_texts_index(v@);
        assert(crate::text::views_of(r@) =~= spec_obj_texts(v@));
    }
    r
}

/// Method arguments as text.
pub fn param_texts(v: &Vec<FrontMatterType>) -> (r: Vec<String>)
    requires
        spec_fmt_wf_list(v@),
    ensures
        crate::text::views_of(r@) == spec_params(v@),
    decreases v@, 2int,
{
    let mut r: Vec<String> = Vec::new();
    let n = v.len();
    let mut i: usize = 0;
    while i < n
        invariant
            spec_fmt_wf_list(v@),
            n == v@.len(),
            i <= n,
            r@.len() == i,
            forall|j: int| 0 <= j < i ==> (#[trigger] r@[j])@ == spec_param_text(v@[j]),
        decreases n - i,
    {
        proof {
            lemma_wf_list_index(v@, i as int);
        }
        let t = match &v[i] {
            FrontMatterType::STRING(x) => {
                let mut t = String::new();
                t.append(x.as_str());
                t
            },
            other => other.display(),
        };
        r.push(t);
        i += 1;
    }
    proof {
        lemma_params_index(v@);
        assert(crate::text::views_of(r@) =~= spec_params(v@));
    }
    r
}

/// The processor names of a rule, joined with `sep`.
fn proc_names(ps: &Vec<Processor>, sep: &str) -> (r: String)
    ensures
        r@ == spec_proc_names(ps@, sep@),
{
    let mut names: Vec<String> = Vec::new();
    let n = ps.len();
    let mut i: usize = 0;
    while i < n
        invariant
            n == ps@.len(),
            i <= n,
            names@.len() == i,
            forall|j: int| 0 <= j < i ==> (#[trigger] names@[j])@ == ps@[j].func_name@,
        decreases n - i,
    {
        names.push(ps[i].func_name.clone());
        i += 1;
    }
    proof {
        assert(crate::text::views_of(names@) =~= ps@.map_values(|p: Processor| p.func_name@));
    }
    join_with(&names, sep)
}

impl FrontMatterType {
    /// The canonical text of this value.
    pub fn display(&self) -> (r: String)
        requires
            spec_fmt_wf(*self),
        ensures
            r@ == spec_fmt_display(*self),
        decreases *self, 3int,
    {
        match self {
            FrontMatterType::STRING(v) => {
                let mut r = String::new();
                r.append("\"");
                r.append(v.as_str());
                r.append("\"");
                proof {
                    reveal_strlit("\"");
                    assert(r@ =~= spec_quoted(v@));
                }
                r
            },
            FrontMatterType::NUMBER(v) => {
                let chars = i32_chars(*v);
                string_of(&chars)
            },
            FrontMatterType::DATE(v) => {
                let mut r = String::new();
                r.append(v.as_str());
                r
            },
            FrontMatterType::BOOLEAN(v) => {
                let mut r = String::new();
                r.append(if *v { "true" } else { "false" });
                r
            },
            FrontMatterType::ERROR(v) => {
                let mut r = String::new();
                r.append(v.as_str());
                r
            },
            FrontMatterType::EMPTY => String::new(),
            FrontMatterType::ARRAY(v) => {
                let parts = fmt_display_texts(v);
                let mut r = String::new();
                r.append("[");
                let mid = join_with(&parts, ", ");
                r.append(mid.as_str());
                r.append("]");
                r
            },
            FrontMatterType::OBJECT(v) => {
                let parts = obj_texts(v);
                let mut r = String::new();
                r.append("{");
                let mid = join_with(&parts, ", ");
                r.append(mid.as_str());
                r.append("}");
                r
            },
            FrontMatterType::PATTERN(p) => {
                let mut r = String::new();
                r.append(p.pattern.as_str());
                r.append(" -> ");
                let names = proc_names(&p.processors, ", ");
                r.append(names.as_str());
                r
            },
            FrontMatterType::CASE_MATCH(v) => {
                let mut parts: Vec<String> = Vec::new();
                let n = v.len();
                let mut i: usize = 0;
                while i < n
                    invariant
                        n == v@.len(),
                        i <= n,
                        parts@.len() == i,
                        forall|j: int|
                            0 <= j < i ==> (#[trigger] parts@[j])@ == spec_case_entry(v@[j]),
                    decreases n - i,
                {
                    let mut t = String::new();
                    t.append("\"");
                    t.append(v[i].0.as_str());
                    t.append("\"");
                    t.append(" { ");
                    match &v[i].1 {
                        FrontMatterType::PATTERN(p) => {
                            let names = proc_names(&p.processors, " | ");
                            t.append(names.as_str());
                        },
                        _ => {},
                    }
                    t.append(" }");
                    proof {
                        reveal_strlit("\"");
                        assert(t@ =~= spec_case_entry(v@[i as int]));
                    }
                    parts.push(t);
                    i += 1;
                }
                proof {
                    assert(crate::text::views_of(parts@) =~= v@.map_values(
                        |e: (String, FrontMatterType)| spec_case_entry(e),
                    ));
                }
                let mut r = String::new();
                r.append("case \"$0\" {\n");
                let mid = join_with(&parts, "\n");
                r.append(mid.as_str());
                r.append("\n}");
                r
            },
            FrontMatterType::VARIABLE(v) => {
                let mut r = String::new();
                r.append("$");
                r.append(v.as_str());
                r
            },
            FrontMatterType::EXPRESSION(st) => display_stmt(st),
            FrontMatterType::IDENTIFIER(v) => {
                let mut r = String::new();
                r.append(v.as_str());
                r
            },
            FrontMatterType::QUERY_STATEMENT(q) => q.display(),
        }
    }

    /// The plain value a literal carries: text for the text-like variants,
    /// the number, the boolean, empty text for `EMPTY`; a structured
    /// variant carries none.
    pub fn to_value(&self) -> (r: Option<EvalValue>)
        ensures
            opt_val_view(r) == spec_to_value(*self),
    {
        match self {
            FrontMatterType::STRING(v) => Some(EvalValue::Text(v.clone())),
            FrontMatterType::NUMBER(v) => Some(EvalValue::Int(*v)),
            FrontMatterType::DATE(v) => Some(EvalValue::Text(v.clone())),
            FrontMatterType::BOOLEAN(v) => Some(EvalValue::Bool(*v)),
            FrontMatterType::ERROR(v) => Some(EvalValue::Text(v.clone())),
            FrontMatterType::EMPTY => Some(EvalValue::Text(String::new())),
            FrontMatterType::VARIABLE(v) => Some(EvalValue::Text(v.clone())),
            FrontMatterType::IDENTIFIER(v) => Some(EvalValue::Text(v.clone())),
            _ => None,
        }
    }
}

/// What `to_value` hands back, variant by variant.
pub open spec fn spec_to_value(f: FrontMatterType) -> Option<SpecEvalValue> {
    match f {
        FrontMatterType::STRING(v) => Some(SpecEvalValue::Text(v@)),
        FrontMatterType::NUMBER(v) => Some(SpecEvalValue::Int(v)),
        FrontMatterType::DATE(v) => Some(SpecEvalValue::Text(v@)),
        FrontMatterType::BOOLEAN(v) => Some(SpecEvalValue::Bool(v)),
        FrontMatterType::ERROR(v) => Some(SpecEvalValue::Text(v@)),
        FrontMatterType::EMPTY => Some(SpecEvalValue::Text(Seq::<char>::empty())),
        FrontMatterType::VARIABLE(v) => Some(SpecEvalValue::Text(v@)),
        FrontMatterType::IDENTIFIER(v) => Some(SpecEvalValue::Text(v@)),
        _ => None,
    }
}

impl ShirePsiQueryStatement {
    /// The canonical text of this query.
    pub fn display(&self) -> (r: String)
        ensures
            r@ == spec_query_display(*self),
    {
        let mut r = String::new();
        r.append("from {\n    ");
        let f = repeat_join("VariableElement", self.from.len(), ", ");
        r.append(f.as_str());
        r.append("\n}\nwhere {\n    Statement\n}\nselect ");
        let s = repeat_join("Statement", self.select.len(), ", ");
        r.append(s.as_str());
        proof {
            assert(crate::text::spec_repeat("VariableElement"@, self.from@.len()) =~= Seq::new(
                self.from@.len(),
                |i: int| "VariableElement"@,
            ));
            assert(crate::text::spec_repeat("Statement"@, self.select@.len()) =~= Seq::new(
                self.select@.len(),
                |i: int| "Statement"@,
            ));
        }
        r
    }
}

} // verus!
