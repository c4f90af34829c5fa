//! The closed catalogue of pattern-action functions: the named
//! transformation operations a pipeline may call, each with the shape of
//! its arguments, and the canonical text each renders to.

use vstd::prelude::*;
use crate::numbers::spec_digits_of;
use crate::numbers::digits_of_u64;
use crate::text::spec_join;
use crate::text::spec_quoted;
use crate::text::spec_quoted_join;
use crate::text::spec_repeat;
use crate::text::string_of;
use crate::text::copy_strings;
use crate::text::views_of;
use crate::text::join_with;
use crate::text::quoted_join;
use crate::text::repeat_join;

verus! {

/// Stands for a from-clause element; the query statements that carry one
/// are produced by outside collaborators and only rendered here.
#[derive(Debug, Clone, PartialEq, Eq)]
pub struct VariableElement;

/// Stands for an embedded statement inside a query-shaped function.
#[derive(Debug, Clone, PartialEq, Eq)]
pub struct Statement;

/// Stands for a key-value arm inside a case-match function.
#[derive(Debug, Clone, PartialEq, Eq)]
pub struct CaseKeyValue;

#[derive(Debug, PartialEq, Eq)]
#[allow(non_camel_case_types)]
pub enum PatternActionFunc {
    /// Display a message prompt.
    Prompt { message: String },
    /// Search with one or more patterns.
    Grep { patterns: Vec<String> },
    /// Find and replace.
    Sed { pattern: String, replacements: String, is_regex: bool },
    /// Sort with the given arguments.
    Sort { arguments: Vec<String> },
    /// Remove duplicates.
    Uniq { texts: Vec<String> },
    /// The first few lines.
    Head { number: usize },
    /// The last few lines.
    Tail { number: usize },
    /// Process one or more variables.
    Xargs { variables: Vec<String> },
    /// Print one or more texts.
    Print { texts: Vec<String> },
    /// Concatenate one or more files.
    Cat { paths: Vec<String> },
    /// Select one or more elements.
    From { variables: Vec<VariableElement> },
    /// Filter elements.
    Where { statement: Statement },
    /// Order elements.
    Select { statements: Vec<Statement> },
    /// Run another Shire script.
    ExecuteShire { filename: String, variable_names: Vec<String> },
    /// Send an editor notification.
    Notify { message: String },
    /// Dispatch on a matched key.
    CaseMatch { key_value: Vec<CaseKeyValue> },
    /// Split input into paths.
    Splitting { paths: Vec<String> },
    /// Embed the given entries.
    Embedding { entries: Vec<String> },
    /// Search embedded text; the threshold keeps its source text.
    Searching { text: String, threshold: String },
    /// Cache semantic data.
    Caching { text: String },
    /// Rerank results.
    Reranking { kind: String },
    /// Redact sensitive data with the given strategy.
    Redact { strategy: String },
    /// Crawl the given URLs.
    Crawl { urls: Vec<String> },
    /// Capture a file by node type.
    Capture { file_name: String, node_type: String },
    /// Run in a new thread.
    Thread { file_name: String, variable_names: Vec<String> },
    /// Read a value out of JSON by path.
    JsonPath { obj: Option<String>, path: String },
    /// A toolchain-defined function.
    ToolchainFunction { func_name: String, args: Vec<String> },
}

/// The mathematical shadow of a pattern-action function: every text field
/// as its character sequence.
pub enum SpecPatternActionFunc {
    Prompt { message: Seq<char> },
    Grep { patterns: Seq<Seq<char>> },
    Sed { pattern: Seq<char>, replacements: Seq<char>, is_regex: bool },
    Sort { arguments: Seq<Seq<char>> },
    Uniq { texts: Seq<Seq<char>> },
    Head { number: usize },
    Tail { number: usize },
    Xargs { variables: Seq<Seq<char>> },
    Print { texts: Seq<Seq<char>> },
    Cat { paths: Seq<Seq<char>> },
    From { variables: Seq<VariableElement> },
    Where { statement: Statement },
    Select { statements: Seq<Statement> },
    ExecuteShire { filename: Seq<char>, variable_names: Seq<Seq<char>> },
    Notify { message: Seq<char> },
    CaseMatch { key_value: Seq<CaseKeyValue> },
    Splitting { paths: Seq<Seq<char>> },
    Embedding { entries: Seq<Seq<char>> },
    Searching { text: Seq<char>, threshold: Seq<char> },
    Caching { text: Seq<char> },
    Reranking { kind: Seq<char> },
    Redact { strategy: Seq<char> },
    Crawl { urls: Seq<Seq<char>> },
    Capture { file_name: Seq<char>, node_type: Seq<char> },
    Thread { file_name: Seq<char>, variable_names: Seq<Seq<char>> },
    JsonPath { obj: Option<Seq<char>>, path: Seq<char> },
    ToolchainFunction { func_name: Seq<char>, args: Seq<Seq<char>> },
}

impl View for PatternActionFunc {
    type V = SpecPatternActionFunc;

    open spec fn view(&self) -> SpecPatternActionFunc {
        match self {
            PatternActionFunc::Prompt { message } => SpecPatternActionFunc::Prompt {
                message: message@,
            },
            PatternActionFunc::Grep { patterns } => SpecPatternActionFunc::Grep {
                patterns: views_of(patterns@),
            },
            PatternActionFunc::Sed { pattern, replacements, is_regex } => SpecPatternActionFunc::Sed {
                pattern: pattern@,
                replacements: replacements@,
                is_regex: *is_regex,
            },
            PatternActionFunc::Sort { arguments } => SpecPatternActionFunc::Sort {
                arguments: views_of(arguments@),
            },
            PatternActionFunc::Uniq { texts } => SpecPatternActionFunc::Uniq {
                texts: views_of(texts@),
            },
            PatternActionFunc::Head { number } => SpecPatternActionFunc::Head { number: *number },
            PatternActionFunc::Tail { number } => SpecPatternActionFunc::Tail { number: *number },
            PatternActionFunc::Xargs { variables } => SpecPatternActionFunc::Xargs {
                variables: views_of(variables@),
            },
            PatternActionFunc::Print { texts } => SpecPatternActionFunc::Print {
                texts: views_of(texts@),
            },
            PatternActionFunc::Cat { paths } => SpecPatternActionFunc::Cat {
                paths: views_of(paths@),
            },
            PatternActionFunc::From { variables } => SpecPatternActionFunc::From {
                variables: variables@,
            },
            PatternActionFunc::Where { statement } => SpecPatternActionFunc::Where {
                statement: *statement,
            },
            PatternActionFunc::Select { statements } => SpecPatternActionFunc::Select {
                statements: statements@,
            },
            PatternActionFunc::ExecuteShire { filename, variable_names } => SpecPatternActionFunc::ExecuteShire {
                filename: filename@,
                variable_names: views_of(variable_names@),
            },
            PatternActionFunc::Notify { message } => SpecPatternActionFunc::Notify {
                message: message@,
            },
            PatternActionFunc::CaseMatch { key_value } => SpecPatternActionFunc::CaseMatch {
                key_value: key_value@,
            },
            PatternActionFunc::Splitting { paths } => SpecPatternActionFunc::Splitting {
                paths: views_of(paths@),
            },
            PatternActionFunc::Embedding { entries } => SpecPatternActionFunc::Embedding {
                entries: views_of(entries@),
            },
            PatternActionFunc::Searching { text, threshold } => SpecPatternActionFunc::Searching {
                text: text@,
                threshold: threshold@,
            },
            PatternActionFunc::Caching { text } => SpecPatternActionFunc::Caching { text: text@ },
            PatternActionFunc::Reranking { kind } => SpecPatternActionFunc::Reranking {
                kind: kind@,
            },
            PatternActionFunc::Redact { strategy } => SpecPatternActionFunc::Redact {
                strategy: strategy@,
            },
            PatternActionFunc::Crawl { urls } => SpecPatternActionFunc::Crawl {
                urls: views_of(urls@),
            },
            PatternActionFunc::Capture { file_name, node_type } => SpecPatternActionFunc::Capture {
                file_name: file_name@,
                node_type: node_type@,
            },
            PatternActionFunc::Thread { file_name, variable_names } => SpecPatternActionFunc::Thread {
                file_name: file_name@,
                variable_names: views_of(variable_names@),
            },
            PatternActionFunc::JsonPath { obj, path } => SpecPatternActionFunc::JsonPath {
                obj: match obj {
                    Some(o) => Some(o@),
                    None => None,
                },
                path: path@,
            },
            PatternActionFunc::ToolchainFunction { func_name, args } => SpecPatternActionFunc::ToolchainFunction {
                func_name: func_name@,
                args: views_of(args@),
            },
        }
    }
}

/// The views of a run of pattern-action functions, in order.
pub open spec fn pa_views(s: Seq<PatternActionFunc>) -> Seq<SpecPatternActionFunc> {
    s.map_values(|f: PatternActionFunc| f@)
}

fn copy_variable_elements(v: &Vec<VariableElement>) -> (r: Vec<VariableElement>)
    ensures
        r@ == v@,
{
    let mut r: Vec<VariableElement> = Vec::new();
    let n = v.len();
    let mut i: usize = 0;
    while i < n
        invariant
            n == v@.len(),
            i <= n,
            r@ == v@.subrange(0, i as int),
        decreases n - i,
    {
        r.push(VariableElement);
        proof {
            assert(r@ =~= v@.subrange(0, i + 1));
        }
        i += 1;
    }
    proof {
        assert(v@.subrange(0, n as int) =~= v@);
    }
    r
}

fn copy_statements(v: &Vec<Statement>) -> (r: Vec<Statement>)
    ensures
        r@ == v@,
{
    let mut r: Vec<Statement> = Vec::new();
    let n = v.len();
    let mut i: usize = 0;
    while i < n
        invariant
            n == v@.len(),
            i <= n,
            r@ == v@.subrange(0, i as int),
        decreases n - i,
    {
        r.push(Statement);
        proof {
            assert(r@ =~= v@.subrange(0, i + 1));
        }
        i += 1;
    }
    proof {
        assert(v@.subrange(0, n as int) =~= v@);
    }
    r
}

fn copy_case_key_values(v: &Vec<CaseKeyValue>) -> (r: Vec<CaseKeyValue>)
    ensures
        r@ == v@,
{
    let mut r: Vec<CaseKeyValue> = Vec::new();
    let n = v.len();
    let mut i: usize = 0;
    while i < n
        invariant
            n == v@.len(),
            i <= n,
            r@ == v@.subrange(0, i as int),
        decreases n - i,
    {
        r.push(CaseKeyValue);
        proof {
            assert(r@ =~= v@.subrange(0, i + 1));
        }
        i += 1;
    }
    proof {
        assert(v@.subrange(0, n as int) =~= v@);
    }
    r
}

impl Clone for PatternActionFunc {
    /// A copy whose view is the same.
    fn clone(&self) -> (res: Self)
        ensures
            res@ == self@,
    {
        match self {
            PatternActionFunc::Prompt { message } => PatternActionFunc::Prompt {
                message: message.clone(),
            },
            PatternActionFunc::Grep { patterns } => PatternActionFunc::Grep {
                patterns: copy_strings(patterns),
            },
            PatternActionFunc::Sed { pattern, replacements, is_regex } => PatternActionFunc::Sed {
                pattern: pattern.clone(),
                replacements: replacements.clone(),
                is_regex: *is_regex,
            },
            PatternActionFunc::Sort { arguments } => PatternActionFunc::Sort {
                arguments: copy_strings(arguments),
            },
            PatternActionFunc::Uniq { texts } => PatternActionFunc::Uniq {
                texts: copy_strings(texts),
            },
            PatternActionFunc::Head { number } => PatternActionFunc::Head { number: *number },
            PatternActionFunc::Tail { number } => PatternActionFunc::Tail { number: *number },
            PatternActionFunc::Xargs { variables } => PatternActionFunc::Xargs {
                variables: copy_strings(variables),
            },
            PatternActionFunc::Print { texts } => PatternActionFunc::Print {
                texts: copy_strings(texts),
            },
            PatternActionFunc::Cat { paths } => PatternActionFunc::Cat {
                paths: copy_strings(paths),
            },
            PatternActionFunc::From { variables } => PatternActionFunc::From {
                variables: copy_variable_elements(variables),
            },
            PatternActionFunc::Where { statement } => PatternActionFunc::Where {
                statement: Statement,
            },
            PatternActionFunc::Select { statements } => PatternActionFunc::Select {
                statements: copy_statements(statements),
            },
            PatternActionFunc::ExecuteShire { filename, variable_names } => PatternActionFunc::ExecuteShire {
                filename: filename.clone(),
                variable_names: copy_strings(variable_names),
            },
            PatternActionFunc::Notify { message } => PatternActionFunc::Notify {
                message: message.clone(),
            },
            PatternActionFunc::CaseMatch { key_value } => PatternActionFunc::CaseMatch {
                key_value: copy_case_key_values(key_value),
            },
            PatternActionFunc::Splitting { paths } => PatternActionFunc::Splitting {
                paths: copy_strings(paths),
            },
            PatternActionFunc::Embedding { entries } => PatternActionFunc::Embedding {
                entries: copy_strings(entries),
            },
            PatternActionFunc::Searching { text, threshold } => PatternActionFunc::Searching {
                text: text.clone(),
                threshold: threshold.clone(),
            },
            PatternActionFunc::Caching { text } => PatternActionFunc::Caching {
                text: text.clone(),
            },
            PatternActionFunc::Reranking { kind } => PatternActionFunc::Reranking {
                kind: kind.clone(),
            },
            PatternActionFunc::Redact { strategy } => PatternActionFunc::Redact {
                strategy: strategy.clone(),
            },
            PatternActionFunc::Crawl { urls } => PatternActionFunc::Crawl {
                urls: copy_strings(urls),
            },
            PatternActionFunc::Capture { file_name, node_type } => PatternActionFunc::Capture {
                file_name: file_name.clone(),
                node_type: node_type.clone(),
            },
            PatternActionFunc::Thread { file_name, variable_names } => PatternActionFunc::Thread {
                file_name: file_name.clone(),
                variable_names: copy_strings(variable_names),
            },
            PatternActionFunc::JsonPath { obj, path } => PatternActionFunc::JsonPath {
                obj: match obj {
                    Some(o) => Some(o.clone()),
                    None => None,
                },
                path: path.clone(),
            },
            PatternActionFunc::ToolchainFunction { func_name, args } => PatternActionFunc::ToolchainFunction {
                func_name: func_name.clone(),
                args: copy_strings(args),
            },
        }
    }
}

/// A copy of a pipeline, view for view.
pub fn copy_pas(v: &Vec<PatternActionFunc>) -> (r: Vec<PatternActionFunc>)
    ensures
        pa_views(r@) == pa_views(v@),
{
    let mut r: Vec<PatternActionFunc> = Vec::new();
    let n = v.len();
    let mut i: usize = 0;
    while i < n
        invariant
            n == v@.len(),
            i <= n,
            r@.len() == i,
            forall|j: int| 0 <= j < i ==> (#[trigger] r@[j])@ == v@[j]@,
        decreases n - i,
    {
        r.push(v[i].clone());
        i += 1;
    }
    proof {
        assert(pa_views(r@) =~= pa_views(v@));
    }
    r
}

pub open spec fn spec_bool_text(b: bool) -> Seq<char> {
    if b {
        "true"@
    } else {
        "false"@
    }
}

pub open spec fn spec_str_list(xs: Seq<String>) -> Seq<char> {
    "["@ + spec_quoted_join(xs, ", "@) + "]"@
}

pub open spec fn spec_unit_list(name: Seq<char>, n: nat) -> Seq<char> {
    "["@ + spec_join(spec_repeat(name, n), ", "@) + "]"@
}

pub open spec fn spec_opt_text(o: Option<String>) -> Seq<char> {
    match o {
        Some(s) => "Some("@ + spec_quoted(s@) + ")"@,
        None => "None"@,
    }
}

/// The canonical text of one pattern-action function: call syntax for a
/// toolchain function, the variant's debug shape for every other.
pub open spec fn spec_pa_display(f: PatternActionFunc) -> Seq<char> {
    match f {
        PatternActionFunc::Prompt { message } => "Prompt { message: "@ + spec_quoted(message@)
            + " }"@,
        PatternActionFunc::Grep { patterns } => "Grep { patterns: "@ + spec_str_list(patterns@)
            + " }"@,
        PatternActionFunc::Sed { pattern, replacements, is_regex } => "Sed { pattern: "@
            + spec_quoted(pattern@) + ", replacements: "@ + spec_quoted(replacements@)
            + ", is_regex: "@ + spec_bool_text(is_regex) + " }"@,
        PatternActionFunc::Sort { arguments } => "Sort { arguments: "@ + spec_str_list(arguments@)
            + " }"@,
        PatternActionFunc::Uniq { texts } => "Uniq { texts: "@ + spec_str_list(texts@) + " }"@,
        PatternActionFunc::Head { number } => "Head { number: "@ + spec_digits_of(number as int)
            + " }"@,
        PatternActionFunc::Tail { number } => "Tail { number: "@ + spec_digits_of(number as int)
            + " }"@,
        PatternActionFunc::Xargs { variables } => "Xargs { variables: "@ + spec_str_list(
            variables@,
        ) + " }"@,
        PatternActionFunc::Print { texts } => "Print { texts: "@ + spec_str_list(texts@) + " }"@,
        PatternActionFunc::Cat { paths } => "Cat { paths: "@ + spec_str_list(paths@) + " }"@,
        PatternActionFunc::From { variables } => "From { variables: "@ + spec_unit_list(
            "VariableElement"@,
            variables@.len(),
        ) + " }"@,
        PatternActionFunc::Where { statement } => "Where { statement: Statement }"@,
        PatternActionFunc::Select { statements } => "Select { statements: "@ + spec_unit_list(
            "Statement"@,
            statements@.len(),
        ) + " }"@,
        PatternActionFunc::ExecuteShire { filename, variable_names } => "ExecuteShire { filename: "@
            + spec_quoted(filename@) + ", variable_names: "@ + spec_str_list(variable_names@)
            + " }"@,
        PatternActionFunc::Notify { message } => "Notify { message: "@ + spec_quoted(message@)
            + " }"@,
        PatternActionFunc::CaseMatch { key_value } => "CaseMatch { key_value: "@ + spec_unit_list(
            "CaseKeyValue"@,
            key_value@.len(),
        ) + " }"@,
        PatternActionFunc::Splitting { paths } => "Splitting { paths: "@ + spec_str_list(paths@)
            + " }"@,
        PatternActionFunc::Embedding { entries } => "Embedding { entries: "@ + spec_str_list(
            entries@,
        ) + " }"@,
        PatternActionFunc::Searching { text, threshold } => "Searching { text: "@ + spec_quoted(
            text@,
        ) + ", threshold: "@ + threshold@ + " }"@,
        PatternActionFunc::Caching { text } => "Caching { text: "@ + spec_quoted(text@) + " }"@,
        PatternActionFunc::Reranking { kind } => "Reranking { kind: "@ + spec_quoted(kind@)
            + " }"@,
        PatternActionFunc::Redact { strategy } => "Redact { strategy: "@ + spec_quoted(strategy@)
            + " }"@,
        PatternActionFunc::Crawl { urls } => "Crawl { urls: "@ + spec_str_list(urls@) + " }"@,
        PatternActionFunc::Capture { file_name, node_type } => "Capture { file_name: "@
            + spec_quoted(file_name@) + ", node_type: "@ + spec_quoted(node_type@) + " }"@,
        PatternActionFunc::Thread { file_name, variable_names } => "Thread { file_name: "@
            + spec_quoted(file_name@) + ", variable_names: "@ + spec_str_list(variable_names@)
            + " }"@,
        PatternActionFunc::JsonPath { obj, path } => "JsonPath { obj: "@ + spec_opt_text(obj)
            + ", path: "@ + spec_quoted(path@) + " }"@,
        PatternActionFunc::ToolchainFunction { func_name, args } => func_name@ + "("@ + spec_join(
            views_of(args@),
            ", "@,
        ) + ")"@,
    }
}

fn quoted(s: &String) -> (r: String)
    ensures
        r@ == spec_quoted(s@),
{
    let mut r = String::new();
    r.append("\"");
    r.append(s.as_str());
    r.append("\"");
    proof {
        reveal_strlit("\"");
        assert(r@ =~= spec_quoted(s@));
    }
    r
}

fn str_list(xs: &Vec<String>) -> (r: String)
    ensures
        r@ == spec_str_list(xs@),
{
    let mut r = String::new();
    r.append("[");
    let mid = quoted_join(xs, ", ");
    r.append(mid.as_str());
    r.append("]");
    r
}

fn unit_list(name: &str, n: usize) -> (r: String)
    ensures
        r@ == spec_unit_list(name@, n as nat),
{
    let mut r = String::new();
    r.append("[");
    let mid = repeat_join(name, n, ", ");
    r.append(mid.as_str());
    r.append("]");
    r
}

fn usize_text(n: usize) -> (r: String)
    ensures
        r@ == spec_digits_of(n as int),
{
    let v = digits_of_u64(n as u64);
    string_of(&v)
}

impl PatternActionFunc {
    /// The canonical text of this function.
    pub fn display(&self) -> (r: String)
        ensures
            r@ == spec_pa_display(*self),
    {
        let mut r = String::new();
        match self {
            PatternActionFunc::Prompt { message } => {
                r.append("Prompt { message: ");
                r.append(quoted(message).as_str());
                r.append(" }");
            },
            PatternActionFunc::Grep { patterns } => {
                r.append("Grep { patterns: ");
                r.append(str_list(patterns).as_str());
                r.append(" }");
            },
            PatternActionFunc::Sed { pattern, replacements, is_regex } => {
                r.append("Sed { pattern: ");
                r.append(quoted(pattern).as_str());
                r.append(", replacements: ");
                r.append(quoted(replacements).as_str());
                r.append(", is_regex: ");
                r.append(if *is_regex { "true" } else { "false" });
                r.append(" }");
            },
            PatternActionFunc::Sort { arguments } => {
                r.append("Sort { arguments: ");
                r.append(str_list(arguments).as_str());
                r.append(" }");
            },
            PatternActionFunc::Uniq { texts } => {
                r.append("Uniq { texts: ");
                r.append(str_list(texts).as_str());
                r.append(" }");
            },
            PatternActionFunc::Head { number } => {
                r.append("Head { number: ");
                r.append(usize_text(*number).as_str());
                r.append(" }");
            },
            PatternActionFunc::Tail { number } => {
                r.append("Tail { number: ");
                r.append(usize_text(*number).as_str());
                r.append(" }");
            },
            PatternActionFunc::Xargs { variables } => {
                r.append("Xargs { variables: ");
                r.append(str_list(variables).as_str());
                r.append(" }");
            },
            PatternActionFunc::Print { texts } => {
                r.append("Print { texts: ");
                r.append(str_list(texts).as_str());
                r.append(" }");
            },
            PatternActionFunc::Cat { paths } => {
                r.append("Cat { paths: ");
                r.append(str_list(paths).as_str());
                r.append(" }");
            },
            PatternActionFunc::From { variables } => {
                r.append("From { variables: ");
                r.append(unit_list("VariableElement", variables.len()).as_str());
                r.append(" }");
            },
            PatternActionFunc::Where { statement } => {
                r.append("Where { statement: Statement }");
            },
            PatternActionFunc::Select { statements } => {
                r.append("Select { statements: ");
                r.append(unit_list("Statement", statements.len()).as_str());
                r.append(" }");
            },
            PatternActionFunc::ExecuteShire { filename, variable_names } => {
                r.append("ExecuteShire { filename: ");
                r.append(quoted(filename).as_str());
                r.append(", variable_names: ");
                r.append(str_list(variable_names).as_str());
                r.append(" }");
            },
            PatternActionFunc::Notify { message } => {
                r.append("Notify { message: ");
                r.append(quoted(message).as_str());
                r.append(" }");
            },
            PatternActionFunc::CaseMatch { key_value } => {
                r.append("CaseMatch { key_value: ");
                r.append(unit_list("CaseKeyValue", key_value.len()).as_str());
                r.append(" }");
            },
            PatternActionFunc::Splitting { paths } => {
                r.append("Splitting { paths: ");
                r.append(str_list(paths).as_str());
                r.append(" }");
            },
            PatternActionFunc::Embedding { entries } => {
                r.append("Embedding { entries: ");
                r.append(str_list(entries).as_str());
                r.append(" }");
            },
            PatternActionFunc::Searching { text, threshold } => {
                r.append("Searching { text: ");
                r.append(quoted(text).as_str());
                r.append(", threshold: ");
                r.append(threshold.as_str());
                r.append(" }");
            },
            PatternActionFunc::Caching { text } => {
                r.append("Caching { text: ");
                r.append(quoted(text).as_str());
                r.append(" }");
            },
            PatternActionFunc::Reranking { kind } => {
                r.append("Reranking { kind: ");
                r.append(quoted(kind).as_str());
                r.append(" }");
            },
            PatternActionFunc::Redact { strategy } => {
                r.append("Redact { strategy: ");
                r.append(quoted(strategy).as_str());
                r.append(" }");
            },
            PatternActionFunc::Crawl { urls } => {
                r.append("Crawl { urls: ");
                r.append(str_list(urls).as_str());
                r.append(" }");
            },
            PatternActionFunc::Capture { file_name, node_type } => {
                r.append("Capture { file_name: ");
                r.append(quoted(file_name).as_str());
                r.append(", node_type: ");
                r.append(quoted(node_type).as_str());
                r.append(" }");
            },
            PatternActionFunc::Thread { file_name, variable_names } => {
                r.append("Thread { file_name: ");
                r.append(quoted(file_name).as_str());
                r.append(", variable_names: ");
                r.append(str_list(variable_names).as_str());
                r.append(" }");
            },
            PatternActionFunc::JsonPath { obj, path } => {
                r.append("JsonPath { obj: ");
                match obj {
                    Some(o) => {
                        r.append("Some(");
                        r.append(quoted(o).as_str());
                        r.append(")");
                        proof {
                            assert(spec_opt_text(*obj) =~= "Some("@ + spec_quoted(o@) + ")"@);
                        }
                    },
                    None => {
                        r.append("None");
                    },
                }
                r.append(", path: ");
                r.append(quoted(path).as_str());
                r.append(" }");
            },
            PatternActionFunc::ToolchainFunction { func_name, args } => {
                r.append(func_name.as_str());
                r.append("(");
                r.append(join_with(args, ", ").as_str());
                r.append(")");
            },
        }
        r
    }
}

} // verus!
