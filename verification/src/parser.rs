//! The recursive-descent parser for Shire source text: the header (the
//! "hobbit hole") with its variable transforms, and the file body. Every
//! executable parser is pinned to a specification parser over character
//! sequences; the renderers and round-trip laws live in the sibling
//! module.

use vstd::prelude::*;
use crate::numbers::all_digit_chars;
use crate::numbers::digits_val;
use crate::numbers::digits_to_i32;
use crate::text::is_digit_char;
use crate::text::is_ident_char;
use crate::text::is_ws_char;
use crate::text::spec_lower;
use crate::text::lower_char;
use crate::text::chars_of;
use crate::text::range_eq_str;
use crate::text::string_of_range;
use crate::text::str_eq;
use crate::text::ws_char;
use crate::text::ident_char;
use crate::text::digit_char;

verus! {

// --- the parsed shapes ---

/// One pipeline: named functions with their argument lists, in execution
/// order.
#[derive(Debug, PartialEq, Eq)]
pub enum Function {
    Functions(Vec<(String, Vec<String>)>),
}

/// The right-hand side of one variables entry.
#[derive(Debug, PartialEq, Eq)]
pub enum VariableTransform {
    String(String),
    Integer(i32),
    PatternAction { pattern: String, command: Function },
    Action { command: Function },
    Case {
        pattern: String,
        cases: Vec<(String, VariableTransform)>,
        default: Option<Function>,
    },
}

/// A configuration value as richer headers would carry it.
#[derive(Debug, PartialEq, Eq)]
pub enum ConfigValue {
    String(String),
    Number(i64),
    Object(Vec<(String, ConfigValue)>),
}

/// How an action presents its result in the host editor.
#[derive(Debug, PartialEq, Eq, Clone, Copy)]
pub enum InteractionType {
    AppendCursor,
    AppendCursorStream,
    OutputFile,
    ReplaceSelection,
    ReplaceCurrentFile,
    InsertBeforeSelection,
    RunPanel,
    OnPaste,
}

/// Where in the host UI an action is exposed.
#[derive(Debug, PartialEq, Eq, Clone, Copy)]
pub enum ShireActionLocation {
    ContextMenu,
    IntentionMenu,
    TerminalMenu,
    CommitMenu,
    RunPanel,
    InputBox,
}

/// The header record of a Shire file.
#[derive(Debug, PartialEq, Eq)]
pub struct HobbitHole {
    pub name: String,
    pub description: Option<String>,
    pub interaction: Option<InteractionType>,
    pub action_location: Option<ShireActionLocation>,
    pub variables: Vec<(String, VariableTransform)>,
}

/// The recognized header keys; anything else reads as `Name`.
#[derive(Debug, PartialEq, Eq, Clone, Copy)]
pub enum HobbitHoleKey {
    Name,
    Description,
    Interaction,
    ActionLocation,
    Variables,
}

/// A parsed file: the header and the body lines that follow it.
#[derive(Debug, PartialEq, Eq)]
pub struct ShireFile {
    pub hobbit: HobbitHole,
    pub body: Vec<String>,
}

/// What kind of failure the parser met.
#[derive(Debug, PartialEq, Eq)]
pub enum ParseErrorKind {
    /// The input does not match the grammar.
    Syntax,
    /// An integer literal outside the 32-bit signed range; the literal is
    /// carried along.
    IntegerOverflow(String),
}

/// A parse failure: the position that failed, as line and column, and the
/// kind of failure.
#[derive(Debug, PartialEq, Eq)]
pub struct ParseError {
    pub line: usize,
    pub column: usize,
    pub kind: ParseErrorKind,
}

// --- the mathematical shapes ---

/// A pipeline: (name, arguments) pairs in order.
pub type SpecPipeline = Seq<(Seq<char>, Seq<Seq<char>>)>;

/// The mathematical shadow of a variable transform.
pub enum SpecVariableTransform {
    Str(Seq<char>),
    Int(i32),
    PatternAction { pattern: Seq<char>, command: SpecPipeline },
    Action { command: SpecPipeline },
    Case {
        pattern: Seq<char>,
        cases: Seq<(Seq<char>, SpecVariableTransform)>,
        default: Option<SpecPipeline>,
    },
}

/// The mathematical shadow of a header record.
pub struct SpecHobbitHole {
    pub name: Seq<char>,
    pub description: Option<Seq<char>>,
    pub interaction: Option<InteractionType>,
    pub action_location: Option<ShireActionLocation>,
    pub variables: Seq<(Seq<char>, SpecVariableTransform)>,
}

/// The pipeline a `Function` denotes.
pub open spec fn fun_view(f: Function) -> SpecPipeline {
    match f {
        Function::Functions(v) => v@.map_values(
            |e: (String, Vec<String>)| (e.0@, crate::text::views_of(e.1@)),
        ),
    }
}

pub open spec fn opt_fun_view(f: Option<Function>) -> Option<SpecPipeline> {
    match f {
        Some(f) => Some(fun_view(f)),
        None => None,
    }
}

/// The transform a `VariableTransform` denotes.
pub open spec fn vt_view(v: VariableTransform) -> SpecVariableTransform
    decreases v, 1int,
{
    match v {
        VariableTransform::String(s) => SpecVariableTransform::Str(s@),
        VariableTransform::Integer(i) => SpecVariableTransform::Int(i),
        VariableTransform::PatternAction { pattern, command } => SpecVariableTransform::PatternAction {
            pattern: pattern@,
            command: fun_view(command),
        },
        VariableTransform::Action { command } => SpecVariableTransform::Action {
            command: fun_view(command),
        },
        VariableTransform::Case { pattern, cases, default } => SpecVariableTransform::Case {
            pattern: pattern@,
            cases: vt_entries_view(cases@),
            default: opt_fun_view(default),
        },
    }
}

/// The transforms a list of entries denotes, key by key.
pub open spec fn vt_entries_view(s: Seq<(String, VariableTransform)>) -> Seq<
    (Seq<char>, SpecVariableTransform),
>
    decreases s, 0int,
{
    if s.len() == 0 {
        Seq::<(Seq<char>, SpecVariableTransform)>::empty()
    } else {
        vt_entries_view(s.subrange(0, s.len() - 1)).push(
            (s[s.len() - 1].0@, vt_view(s[s.len() - 1].1)),
        )
    }
}

pub proof fn lemma_vt_entries_view_index(s: Seq<(String, VariableTransform)>)
    ensures
        vt_entries_view(s).len() == s.len(),
        forall|j: int|
            0 <= j < s.len() ==> vt_entries_view(s)[j] == (s[j].0@, vt_view(s[j].1)),
    decreases s.len(),
{
    if s.len() > 0 {
        let pre = s.subrange(0, s.len() - 1);
        lemma_vt_entries_view_index(pre);
        assert forall|j: int|
            0 <= j < s.len() implies vt_entries_view(s)[j] == (s[j].0@, vt_view(s[j].1)) by {
            if j < s.len() - 1 {
                assert(vt_entries_view(s)[j] == vt_entries_view(pre)[j]);
                assert(pre[j] == s[j]);
            }
        }
    }
}

impl View for VariableTransform {
    type V = SpecVariableTransform;

    open spec fn view(&self) -> SpecVariableTransform {
        vt_view(*self)
    }
}

impl View for HobbitHole {
    type V = SpecHobbitHole;

    open spec fn view(&self) -> SpecHobbitHole {
        SpecHobbitHole {
            name: self.name@,
            description: match self.description {
                Some(d) => Some(d@),
                None => None,
            },
            interaction: self.interaction,
            action_location: self.action_location,
            variables: vt_entries_view(self.variables@),
        }
    }
}

// --- scanning primitives ---

/// The length of the longest prefix of `s` whose characters all satisfy
/// `p`.
pub open spec fn run_len(s: Seq<char>, p: spec_fn(char) -> bool) -> nat
    decreases s.len(),
{
    if s.len() > 0 && p(s[0]) {
        (1 + run_len(s.drop_first(), p)) as nat
    } else {
        0
    }
}

pub proof fn lemma_run_len(s: Seq<char>, p: spec_fn(char) -> bool)
    ensures
        run_len(s, p) <= s.len(),
        forall|j: int| 0 <= j < run_len(s, p) ==> p(s[j]),
        run_len(s, p) < s.len() ==> !p(s[run_len(s, p) as int]),
    decreases s.len(),
{
    if s.len() > 0 && p(s[0]) {
        lemma_run_len(s.drop_first(), p);
        let r = run_len(s, p);
        assert forall|j: int| 0 <= j < r implies p(s[j]) by {
            if j > 0 {
                assert(s[j] == s.drop_first()[j - 1]);
            }
        }
        if r < s.len() {
            assert(s[r as int] == s.drop_first()[r - 1]);
        }
    }
}

/// A run is as long as the satisfying prefix put in front of a
/// non-satisfying continuation.
pub proof fn lemma_run_len_concat(a: Seq<char>, b: Seq<char>, p: spec_fn(char) -> bool)
    requires
        forall|j: int| 0 <= j < a.len() ==> p(#[trigger] a[j]),
        b.len() > 0 ==> !p(b[0]),
    ensures
        run_len(a + b, p) == a.len(),
    decreases a.len(),
{
    let s = a + b;
    if a.len() == 0 {
        assert(s =~= b);
    } else {
        assert(p(a[0]));
        assert(s[0] == a[0]);
        assert(s.drop_first() =~= a.drop_first() + b);
        assert(forall|j: int| 0 <= j < a.drop_first().len() ==> p(#[trigger] a.drop_first()[j]));
        lemma_run_len_concat(a.drop_first(), b, p);
    }
}

/// The rest of the input after its leading part, as the specification
/// parsers see it.
pub open spec fn suffix(s: Seq<char>, pos: int) -> Seq<char> {
    s.subrange(pos, s.len() as int)
}

/// Leading whitespace dropped.
pub open spec fn skip_ws(s: Seq<char>) -> Seq<char> {
    s.subrange(run_len(s, |c: char| is_ws_char(c)) as int, s.len() as int)
}

fn x_skip_ws(v: &Vec<char>, pos: usize) -> (np: usize)
    requires
        pos <= v@.len(),
    ensures
        pos <= np <= v@.len(),
        suffix(v@, np as int) == skip_ws(suffix(v@, pos as int)),
        np == pos + run_len(suffix(v@, pos as int), |c: char| is_ws_char(c)),
    decreases v@.len() - pos,
{
    let ghost s = suffix(v@, pos as int);
    let n = v.len();
    if pos < n && ws_char(v[pos]) {
        proof {
            assert(s[0] == v@[pos as int]);
            assert(s.drop_first() =~= suffix(v@, pos + 1));
        }
        let r = x_skip_ws(v, pos + 1);
        proof {
            assert(skip_ws(s) =~= skip_ws(s.drop_first()));
        }
        r
    } else {
        proof {
            if pos < n {
                assert(s[0] == v@[pos as int]);
            }
            assert(run_len(s, |c: char| is_ws_char(c)) == 0);
            assert(s.subrange(0, s.len() as int) =~= s);
        }
        pos
    }
}

pub fn x_run_ident(v: &Vec<char>, pos: usize) -> (np: usize)
    requires
        pos <= v@.len(),
    ensures
        pos <= np <= v@.len(),
        np == pos + run_len(suffix(v@, pos as int), |c: char| is_ident_char(c)),
    decreases v@.len() - pos,
{
    let ghost s = suffix(v@, pos as int);
    let n = v.len();
    if pos < n && ident_char(v[pos]) {
        proof {
            assert(s[0] == v@[pos as int]);
            assert(s.drop_first() =~= suffix(v@, pos + 1));
        }
        x_run_ident(v, pos + 1)
    } else {
        proof {
            if pos < n {
                assert(s[0] == v@[pos as int]);
            }
        }
        pos
    }
}

pub fn x_run_digits(v: &Vec<char>, pos: usize) -> (np: usize)
    requires
        pos <= v@.len(),
    ensures
        pos <= np <= v@.len(),
        np == pos + run_len(suffix(v@, pos as int), |c: char| is_digit_char(c)),
    decreases v@.len() - pos,
{
    let ghost s = suffix(v@, pos as int);
    let n = v.len();
    if pos < n && digit_char(v[pos]) {
        proof {
            assert(s[0] == v@[pos as int]);
            assert(s.drop_first() =~= suffix(v@, pos + 1));
        }
        x_run_digits(v, pos + 1)
    } else {
        proof {
            if pos < n {
                assert(s[0] == v@[pos as int]);
            }
        }
        pos
    }
}

/// A run of characters other than `stop`.
pub fn x_run_not(v: &Vec<char>, pos: usize, stop: char) -> (np: usize)
    requires
        pos <= v@.len(),
    ensures
        pos <= np <= v@.len(),
        np == pos + run_len(suffix(v@, pos as int), |c: char| c != stop),
    decreases v@.len() - pos,
{
    let ghost s = suffix(v@, pos as int);
    let n = v.len();
    if pos < n && v[pos] != stop {
        proof {
            assert(s[0] == v@[pos as int]);
            assert(s.drop_first() =~= suffix(v@, pos + 1));
        }
        x_run_not(v, pos + 1, stop)
    } else {
        proof {
            if pos < n {
                assert(s[0] == v@[pos as int]);
            }
        }
        pos
    }
}

// --- token parsers ---
//
// Each specification parser consumes from the front of a character
// sequence and hands back the rest; `None` is a grammar mismatch. The
// executable parsers walk a character vector by position and are pinned
// to the specification on the corresponding suffix.

/// A quoted string: `"`, one or more characters that are not `"`, `"`.
pub open spec fn spec_parse_quoted(s: Seq<char>) -> Option<(Seq<char>, Seq<char>)> {
    if s.len() >= 1 && s[0] == '"' {
        let n = run_len(s.subrange(1, s.len() as int), |c: char| c != '"') as int;
        if n >= 1 && 1 + n < s.len() {
            Some((s.subrange(1, 1 + n), s.subrange(2 + n, s.len() as int)))
        } else {
            None
        }
    } else {
        None
    }
}

/// A successful quoted parse consumes the text and both quotes.
pub proof fn lemma_quoted_progress(s: Seq<char>)
    ensures
        spec_parse_quoted(s) matches Some((t, rest)) ==> t.len() >= 1 && rest.len() + t.len() + 2
            == s.len(),
{
}

/// A regex literal: `/`, one or more characters that are not `/`, `/`.
pub open spec fn spec_parse_regex(s: Seq<char>) -> Option<(Seq<char>, Seq<char>)> {
    if s.len() >= 1 && s[0] == '/' {
        let n = run_len(s.subrange(1, s.len() as int), |c: char| c != '/') as int;
        if n >= 1 && 1 + n < s.len() {
            Some((s.subrange(1, 1 + n), s.subrange(2 + n, s.len() as int)))
        } else {
            None
        }
    } else {
        None
    }
}

/// The arguments after the first: `,` directly followed by a quoted
/// argument, as many times as they come.
pub open spec fn spec_parse_args_rest(acc: Seq<Seq<char>>, s: Seq<char>) -> (Seq<Seq<char>>, Seq<
    char,
>)
    decreases s.len(),
{
    if s.len() > 0 && s[0] == ',' {
        match spec_parse_quoted(s.subrange(1, s.len() as int)) {
            Some((a, rest)) => if rest.len() < s.len() {
                spec_parse_args_rest(acc.push(a), rest)
            } else {
                (acc.push(a), rest)
            },
            None => (acc, s),
        }
    } else {
        (acc, s)
    }
}

/// A comma-separated list of quoted arguments; possibly empty.
pub open spec fn spec_parse_args(s: Seq<char>) -> (Seq<Seq<char>>, Seq<char>) {
    match spec_parse_quoted(s) {
        Some((a, rest)) => spec_parse_args_rest(seq![a], rest),
        None => (Seq::<Seq<char>>::empty(), s),
    }
}

pub proof fn lemma_args_rest_progress(acc: Seq<Seq<char>>, s: Seq<char>)
    ensures
        spec_parse_args_rest(acc, s).1.len() <= s.len(),
    decreases s.len(),
{
    if s.len() > 0 && s[0] == ',' {
        match spec_parse_quoted(s.subrange(1, s.len() as int)) {
            Some((a, rest)) => {
                lemma_quoted_progress(s.subrange(1, s.len() as int));
                if rest.len() < s.len() {
                    lemma_args_rest_progress(acc.push(a), rest);
                }
            },
            None => {},
        }
    }
}

pub proof fn lemma_args_progress(s: Seq<char>)
    ensures
        spec_parse_args(s).1.len() <= s.len(),
{
    match spec_parse_quoted(s) {
        Some((a, rest)) => {
            lemma_quoted_progress(s);
            lemma_args_rest_progress(seq![a], rest);
        },
        None => {},
    }
}

/// A function: an identifier, then optionally whitespace and a
/// parenthesized argument list. A malformed argument list reads as no
/// list at all, with the input left right after the name.
pub open spec fn spec_parse_function(s: Seq<char>) -> Option<
    ((Seq<char>, Seq<Seq<char>>), Seq<char>),
> {
    let n = run_len(s, |c: char| is_ident_char(c)) as int;
    if n == 0 {
        None
    } else {
        let name = s.subrange(0, n);
        let t = s.subrange(n, s.len() as int);
        let tw = skip_ws(t);
        if tw.len() > 0 && tw[0] == '(' {
            let (args, rest) = spec_parse_args(tw.subrange(1, tw.len() as int));
            if rest.len() > 0 && rest[0] == ')' {
                Some(((name, args), rest.subrange(1, rest.len() as int)))
            } else {
                Some(((name, Seq::<Seq<char>>::empty()), t))
            }
        } else {
            Some(((name, Seq::<Seq<char>>::empty()), t))
        }
    }
}

pub proof fn lemma_function_progress(s: Seq<char>)
    ensures
        spec_parse_function(s) matches Some((f, rest)) ==> rest.len() < s.len() && f.0.len() >= 1,
{
    let n = run_len(s, |c: char| is_ident_char(c)) as int;
    lemma_run_len(s, |c: char| is_ident_char(c));
    if n > 0 {
        let t = s.subrange(n, s.len() as int);
        let tw = skip_ws(t);
        lemma_run_len(t, |c: char| is_ws_char(c));
        if tw.len() > 0 && tw[0] == '(' {
            lemma_args_progress(tw.subrange(1, tw.len() as int));
        }
    }
}

/// The pipeline steps after the first: `|` between functions, whitespace
/// free on both sides.
pub open spec fn spec_parse_pipeline_rest(acc: SpecPipeline, s: Seq<char>) -> (SpecPipeline, Seq<
    char,
>)
    decreases s.len(),
{
    let tw = skip_ws(s);
    if tw.len() > 0 && tw[0] == '|' {
        let after = skip_ws(tw.subrange(1, tw.len() as int));
        match spec_parse_function(after) {
            Some((f, rest)) => if rest.len() < s.len() {
                spec_parse_pipeline_rest(acc.push(f), rest)
            } else {
                (acc.push(f), rest)
            },
            None => (acc, s),
        }
    } else {
        (acc, s)
    }
}

/// A pipeline: functions separated by `|`; possibly empty.
pub open spec fn spec_parse_pipeline(s: Seq<char>) -> (SpecPipeline, Seq<char>) {
    match spec_parse_function(s) {
        Some((f, rest)) => spec_parse_pipeline_rest(seq![f], rest),
        None => (Seq::<(Seq<char>, Seq<Seq<char>>)>::empty(), s),
    }
}

pub proof fn lemma_pipeline_rest_progress(acc: SpecPipeline, s: Seq<char>)
    ensures
        spec_parse_pipeline_rest(acc, s).1.len() <= s.len(),
    decreases s.len(),
{
    let tw = skip_ws(s);
    lemma_run_len(s, |c: char| is_ws_char(c));
    if tw.len() > 0 && tw[0] == '|' {
        let after = skip_ws(tw.subrange(1, tw.len() as int));
        lemma_run_len(tw.subrange(1, tw.len() as int), |c: char| is_ws_char(c));
        match spec_parse_function(after) {
            Some((f, rest)) => {
                lemma_function_progress(after);
                if rest.len() < s.len() {
                    lemma_pipeline_rest_progress(acc.push(f), rest);
                }
            },
            None => {},
        }
    }
}

pub proof fn lemma_pipeline_progress(s: Seq<char>)
    ensures
        spec_parse_pipeline(s).1.len() <= s.len(),
{
    match spec_parse_function(s) {
        Some((f, rest)) => {
            lemma_function_progress(s);
            lemma_pipeline_rest_progress(seq![f], rest);
        },
        None => {},
    }
}

/// Parses a quoted string at `pos`.
fn x_quoted(v: &Vec<char>, pos: usize) -> (r: Option<(usize, String)>)
    requires
        pos <= v@.len(),
    ensures
        match spec_parse_quoted(suffix(v@, pos as int)) {
            Some((t, rest)) => r matches Some((np, txt)) && txt@ == t && pos < np <= v@.len()
                && suffix(v@, np as int) == rest,
            None => r is None,
        },
{
    let ghost s = suffix(v@, pos as int);
    let n = v.len();
    if pos < n && v[pos] == '"' {
        proof {
            assert(s[0] == v@[pos as int]);
            assert(s.subrange(1, s.len() as int) =~= suffix(v@, pos + 1));
        }
        let e = x_run_not(v, pos + 1, '"');
        proof {
            assert(e - (pos + 1) == run_len(s.subrange(1, s.len() as int), |c: char| c != '"'));
        }
        if e > pos + 1 && e < n {
            let txt = string_of_range(v, pos + 1, e);
            proof {
                let m = (e - (pos + 1)) as int;
                assert(s.subrange(1, 1 + m) =~= v@.subrange(pos + 1, e as int));
                assert(s.subrange(2 + m, s.len() as int) =~= suffix(v@, e + 1));
            }
            Some((e + 1, txt))
        } else {
            None
        }
    } else {
        proof {
            if pos < n {
                assert(s[0] == v@[pos as int]);
            }
        }
        None
    }
}

/// Parses a regex literal at `pos`.
fn x_regex(v: &Vec<char>, pos: usize) -> (r: Option<(usize, String)>)
    requires
        pos <= v@.len(),
    ensures
        match spec_parse_regex(suffix(v@, pos as int)) {
            Some((t, rest)) => r matches Some((np, txt)) && txt@ == t && pos < np <= v@.len()
                && suffix(v@, np as int) == rest,
            None => r is None,
        },
{
    let ghost s = suffix(v@, pos as int);
    let n = v.len();
    if pos < n && v[pos] == '/' {
        proof {
            assert(s[0] == v@[pos as int]);
            assert(s.subrange(1, s.len() as int) =~= suffix(v@, pos + 1));
        }
        let e = x_run_not(v, pos + 1, '/');
        proof {
            assert(e - (pos + 1) == run_len(s.subrange(1, s.len() as int), |c: char| c != '/'));
        }
        if e > pos + 1 && e < n {
            let txt = string_of_range(v, pos + 1, e);
            proof {
                let m = (e - (pos + 1)) as int;
                assert(s.subrange(1, 1 + m) =~= v@.subrange(pos + 1, e as int));
                assert(s.subrange(2 + m, s.len() as int) =~= suffix(v@, e + 1));
            }
            Some((e + 1, txt))
        } else {
            None
        }
    } else {
        proof {
            if pos < n {
                assert(s[0] == v@[pos as int]);
            }
        }
        None
    }
}

/// Parses a comma-separated argument list at `pos`.
fn x_args(v: &Vec<char>, pos: usize) -> (r: (usize, Vec<String>))
    requires
        pos <= v@.len(),
    ensures
        ({
            let (args, rest) = spec_parse_args(suffix(v@, pos as int));
            crate::text::views_of(r.1@) == args && pos <= r.0 <= v@.len() && suffix(
                v@,
                r.0 as int,
            ) == rest
        }),
{
    let ghost s0 = suffix(v@, pos as int);
    let mut acc: Vec<String> = Vec::new();
    let first = x_quoted(v, pos);
    match first {
        None => {
            return (pos, acc);
        },
        Some((np, t)) => {
            acc.push(t);
            let mut cur = np;
            let n = v.len();
            proof {
                assert(crate::text::views_of(acc@) =~= seq![t@]);
            }
            loop
                invariant
                    pos <= cur <= n,
                    n == v@.len(),
                    spec_parse_args(s0) == spec_parse_args_rest(
                        crate::text::views_of(acc@),
                        suffix(v@, cur as int),
                    ),
                    s0 == suffix(v@, pos as int),
                decreases n - cur,
            {
                let ghost cs = suffix(v@, cur as int);
                if cur < n && v[cur] == ',' {
                    proof {
                        assert(cs[0] == v@[cur as int]);
                        assert(cs.subrange(1, cs.len() as int) =~= suffix(v@, cur + 1));
                    }
                    let ghost prev = crate::text::views_of(acc@);
                    match x_quoted(v, cur + 1) {
                        Some((np2, t2)) => {
                            proof {
                                lemma_quoted_progress(cs.subrange(1, cs.len() as int));
                            }
                            acc.push(t2);
                            proof {
                                assert(crate::text::views_of(acc@) =~= prev.push(t2@));
                            }
                            cur = np2;
                        },
                        None => {
                            return (cur, acc);
                        },
                    }
                } else {
                    proof {
                        if cur < n {
                            assert(cs[0] == v@[cur as int]);
                        }
                    }
                    return (cur, acc);
                }
            }
        },
    }
}

/// Parses one function at `pos`.
fn x_function(v: &Vec<char>, pos: usize) -> (r: Option<(usize, (String, Vec<String>))>)
    requires
        pos <= v@.len(),
    ensures
        match spec_parse_function(suffix(v@, pos as int)) {
            Some((f, rest)) => r matches Some((np, g)) && g.0@ == f.0 && crate::text::views_of(
                g.1@,
            ) == f.1 && pos < np <= v@.len() && suffix(v@, np as int) == rest,
            None => r is None,
        },
{
    let ghost s = suffix(v@, pos as int);
    let n = v.len();
    let e = x_run_ident(v, pos);
    if e == pos {
        return None;
    }
    let name = string_of_range(v, pos, e);
    proof {
        assert(s.subrange(0, (e - pos) as int) =~= v@.subrange(pos as int, e as int));
        assert(s.subrange((e - pos) as int, s.len() as int) =~= suffix(v@, e as int));
    }
    let ghost t = suffix(v@, e as int);
    let w = x_skip_ws(v, e);
    if w < n && v[w] == '(' {
        proof {
            assert(suffix(v@, w as int)[0] == v@[w as int]);
            assert(suffix(v@, w as int).subrange(1, suffix(v@, w as int).len() as int) =~= suffix(
                v@,
                w + 1,
            ));
        }
        let (ap, args) = x_args(v, w + 1);
        if ap < n && v[ap] == ')' {
            proof {
                assert(suffix(v@, ap as int)[0] == v@[ap as int]);
                assert(suffix(v@, ap as int).subrange(1, suffix(v@, ap as int).len() as int)
                    =~= suffix(v@, ap + 1));
            }
            Some((ap + 1, (name, args)))
        } else {
            proof {
                if ap < n {
                    assert(suffix(v@, ap as int)[0] == v@[ap as int]);
                }
                assert(crate::text::views_of(Seq::<String>::empty()) =~= Seq::<Seq<char>>::empty());
            }
            Some((e, (name, Vec::new())))
        }
    } else {
        proof {
            if w < n {
                assert(suffix(v@, w as int)[0] == v@[w as int]);
            }
            assert(crate::text::views_of(Seq::<String>::empty()) =~= Seq::<Seq<char>>::empty());
        }
        Some((e, (name, Vec::new())))
    }
}

/// Parses a whole pipeline at `pos`.
fn x_pipeline(v: &Vec<char>, pos: usize) -> (r: (usize, Vec<(String, Vec<String>)>))
    requires
        pos <= v@.len(),
    ensures
        ({
            let (fns, rest) = spec_parse_pipeline(suffix(v@, pos as int));
            pipe_views(r.1@) == fns && pos <= r.0 <= v@.len() && suffix(v@, r.0 as int) == rest
        }),
{
    let ghost s0 = suffix(v@, pos as int);
    let mut acc: Vec<(String, Vec<String>)> = Vec::new();
    let first = x_function(v, pos);
    match first {
        None => {
            proof {
                assert(pipe_views(acc@) =~= Seq::<(Seq<char>, Seq<Seq<char>>)>::empty());
            }
            return (pos, acc);
        },
        Some((np, f)) => {
            let ghost fv = (f.0@, crate::text::views_of(f.1@));
            acc.push(f);
            let mut cur = np;
            let n = v.len();
            proof {
                assert(pipe_views(acc@) =~= seq![fv]);
            }
            loop
                invariant
                    pos <= cur <= n,
                    n == v@.len(),
                    spec_parse_pipeline(s0) == spec_parse_pipeline_rest(
                        pipe_views(acc@),
                        suffix(v@, cur as int),
                    ),
                    s0 == suffix(v@, pos as int),
                decreases n - cur,
            {
                let ghost cs = suffix(v@, cur as int);
                let w = x_skip_ws(v, cur);
                if w < n && v[w] == '|' {
                    proof {
                        assert(suffix(v@, w as int)[0] == v@[w as int]);
                        assert(suffix(v@, w as int).subrange(
                            1,
                            suffix(v@, w as int).len() as int,
                        ) =~= suffix(v@, w + 1));
                    }
                    let a = x_skip_ws(v, w + 1);
                    let ghost prev = pipe_views(acc@);
                    match x_function(v, a) {
                        Some((np2, f2)) => {
                            let ghost f2v = (f2.0@, crate::text::views_of(f2.1@));
                            acc.push(f2);
                            proof {
                                assert(pipe_views(acc@) =~= prev.push(f2v));
                            }
                            cur = np2;
                        },
                        None => {
                            return (cur, acc);
                        },
                    }
                } else {
                    proof {
                        if w < n {
                            assert(suffix(v@, w as int)[0] == v@[w as int]);
                        }
                    }
                    return (cur, acc);
                }
            }
        },
    }
}

/// The pipeline a list of (name, arguments) pairs denotes.
pub open spec fn pipe_views(s: Seq<(String, Vec<String>)>) -> SpecPipeline {
    s.map_values(|e: (String, Vec<String>)| (e.0@, crate::text::views_of(e.1@)))
}

// --- transforms ---

/// The outcome of a parser that may also meet an integer literal out of
/// range: that failure is fatal and carries the literal.
pub enum SpecParsed<T> {
    Fail,
    Over(Seq<char>),
    Done(T, Seq<char>),
}

/// Binds `k` to `v`: replaces the value at the first entry with that key,
/// or appends a new entry.
pub open spec fn upsert<T>(m: Seq<(Seq<char>, T)>, k: Seq<char>, v: T) -> Seq<(Seq<char>, T)>
    decreases m.len(),
{
    if m.len() == 0 {
        seq![(k, v)]
    } else if m[0].0 == k {
        seq![(k, v)] + m.drop_first()
    } else {
        seq![m[0]] + upsert(m.drop_first(), k, v)
    }
}

/// What `upsert` does, stated over indexes: replace the first match, or
/// append.
pub proof fn lemma_upsert_shape<T>(m: Seq<(Seq<char>, T)>, k: Seq<char>, v: T)
    ensures
        (forall|j: int| 0 <= j < m.len() ==> (#[trigger] m[j]).0 != k) ==> upsert(m, k, v)
            == m.push((k, v)),
        forall|i: int|
            0 <= i < m.len() && m[i].0 == k && (forall|j: int| 0 <= j < i ==> (#[trigger] m[j]).0
                != k) ==> #[trigger] upsert(m, k, v) == m.update(i, (k, v)),
    decreases m.len(),
{
    if m.len() == 0 {
        assert(upsert(m, k, v) =~= m.push((k, v)));
    } else if m[0].0 == k {
        assert(upsert(m, k, v) =~= m.update(0, (k, v)));
    } else {
        lemma_upsert_shape(m.drop_first(), k, v);
        if forall|j: int| 0 <= j < m.len() ==> (#[trigger] m[j]).0 != k {
            assert(forall|j: int|
                0 <= j < m.drop_first().len() ==> (#[trigger] m.drop_first()[j]).0 != k);
            assert(upsert(m, k, v) =~= m.push((k, v)));
        }
        assert forall|i: int|
            0 <= i < m.len() && m[i].0 == k && (forall|j: int| 0 <= j < i ==> (#[trigger] m[j]).0
                != k) implies #[trigger] upsert(m, k, v) == m.update(i, (k, v)) by {
            assert(m[0].0 != k);
            assert(i > 0);
            let mp = m.drop_first();
            assert(mp[i - 1].0 == k);
            assert(forall|j: int| 0 <= j < i - 1 ==> (#[trigger] mp[j]).0 != k) by {
                assert(forall|j: int| 0 <= j < i - 1 ==> mp[j] == m[j + 1]);
            }
            assert(upsert(mp, k, v) == mp.update(i - 1, (k, v)));
            assert(upsert(m, k, v) =~= m.update(i, (k, v)));
        }
    }
}

/// A pattern-action rule: a regex literal, then a braced pipeline,
/// trailing whitespace consumed.
pub open spec fn spec_parse_pattern_action(s: Seq<char>) -> Option<
    ((Seq<char>, SpecPipeline), Seq<char>),
> {
    match spec_parse_regex(s) {
        None => None,
        Some((pat, r1)) => {
            let r2 = skip_ws(r1);
            if r2.len() > 0 && r2[0] == '{' {
                let r3 = skip_ws(r2.subrange(1, r2.len() as int));
                let (fns, r4) = spec_parse_pipeline(r3);
                let r5 = skip_ws(r4);
                if r5.len() > 0 && r5[0] == '}' {
                    Some(((pat, fns), skip_ws(r5.subrange(1, r5.len() as int))))
                } else {
                    None
                }
            } else {
                None
            }
        },
    }
}

/// The arms of a case block: a quoted key, whitespace, one function;
/// repeated, a later arm for the same key replacing the earlier.
pub open spec fn spec_parse_case_entries(
    acc: Seq<(Seq<char>, (Seq<char>, Seq<Seq<char>>))>,
    s: Seq<char>,
) -> (Seq<(Seq<char>, (Seq<char>, Seq<Seq<char>>))>, Seq<char>)
    decreases s.len(),
{
    match spec_parse_quoted(s) {
        None => (acc, s),
        Some((k, r1)) => {
            let wn = run_len(r1, |c: char| is_ws_char(c)) as int;
            if wn == 0 {
                (acc, s)
            } else {
                let r2 = r1.subrange(wn, r1.len() as int);
                match spec_parse_function(r2) {
                    None => (acc, s),
                    Some((f, r3)) => {
                        let r4 = skip_ws(r3);
                        if r4.len() < s.len() {
                            spec_parse_case_entries(upsert(acc, k, f), r4)
                        } else {
                            (upsert(acc, k, f), r4)
                        }
                    },
                }
            }
        },
    }
}

pub proof fn lemma_case_entries_progress(
    acc: Seq<(Seq<char>, (Seq<char>, Seq<Seq<char>>))>,
    s: Seq<char>,
)
    ensures
        spec_parse_case_entries(acc, s).1.len() <= s.len(),
    decreases s.len(),
{
    match spec_parse_quoted(s) {
        None => {},
        Some((k, r1)) => {
            lemma_quoted_progress(s);
            let wn = run_len(r1, |c: char| is_ws_char(c)) as int;
            lemma_run_len(r1, |c: char| is_ws_char(c));
            if wn > 0 {
                let r2 = r1.subrange(wn, r1.len() as int);
                match spec_parse_function(r2) {
                    None => {},
                    Some((f, r3)) => {
                        lemma_function_progress(r2);
                        let r4 = skip_ws(r3);
                        lemma_run_len(r3, |c: char| is_ws_char(c));
                        if r4.len() < s.len() {
                            lemma_case_entries_progress(upsert(acc, k, f), r4);
                        }
                    },
                }
            }
        },
    }
}

/// A case block: a regex literal, then braced arms and an optional
/// `default` arm.
pub open spec fn spec_parse_case_block(s: Seq<char>) -> Option<
    (
        (
            Seq<char>,
            Seq<(Seq<char>, (Seq<char>, Seq<Seq<char>>))>,
            Option<(Seq<char>, Seq<Seq<char>>)>,
        ),
        Seq<char>,
    ),
> {
    match spec_parse_regex(s) {
        None => None,
        Some((pat, r1)) => {
            let r2 = skip_ws(r1);
            if r2.len() > 0 && r2[0] == '{' {
                let r3 = skip_ws(r2.subrange(1, r2.len() as int));
                let (entries, r4) = spec_parse_case_entries(
                    Seq::<(Seq<char>, (Seq<char>, Seq<Seq<char>>))>::empty(),
                    r3,
                );
                let tagged = crate::text::spec_starts_with(r4, "default"@) && run_len(
                    r4.subrange(7, r4.len() as int),
                    |c: char| is_ws_char(c),
                ) >= 1;
                let after_default = if tagged {
                    let t = r4.subrange(7, r4.len() as int);
                    skip_ws(t)
                } else {
                    r4
                };
                let parsed_default = if tagged {
                    match spec_parse_function(after_default) {
                        None => None,
                        Some((f, r5)) => Some((Some(f), r5)),
                    }
                } else {
                    Some((None, r4))
                };
                match parsed_default {
                    None => None,
                    Some((default, r6)) => {
                        let r7 = skip_ws(r6);
                        if r7.len() > 0 && r7[0] == '}' {
                            Some(
                                (
                                    (pat, entries, default),
                                    skip_ws(r7.subrange(1, r7.len() as int)),
                                ),
                            )
                        } else {
                            None
                        }
                    },
                }
            } else {
                None
            }
        },
    }
}

/// An integer literal: an optional minus sign, then one or more digits;
/// a value outside the 32-bit signed range is a fatal overflow.
pub open spec fn spec_parse_integer(s: Seq<char>) -> SpecParsed<i32> {
    let neg = s.len() > 0 && s[0] == '-';
    let t = if neg {
        s.subrange(1, s.len() as int)
    } else {
        s
    };
    let n = run_len(t, |c: char| is_digit_char(c)) as int;
    if n == 0 {
        SpecParsed::Fail
    } else {
        let digits = t.subrange(0, n);
        let val = digits_val(digits);
        let signed = if neg {
            -val
        } else {
            val
        };
        if i32::MIN <= signed <= i32::MAX {
            SpecParsed::Done(signed as i32, t.subrange(n, t.len() as int))
        } else {
            SpecParsed::Over(
                if neg {
                    seq!['-'] + digits
                } else {
                    digits
                },
            )
        }
    }
}

/// The right-hand side of a variables entry: a pattern action, a case
/// block, a quoted string, or an integer, tried in that order.
pub open spec fn spec_parse_variable_value(s: Seq<char>) -> SpecParsed<SpecVariableTransform> {
    match spec_parse_pattern_action(s) {
        Some(((pat, fns), rest)) => SpecParsed::Done(
            SpecVariableTransform::PatternAction { pattern: pat, command: fns },
            rest,
        ),
        None => match spec_parse_case_block(s) {
            Some(((pat, entries, default), rest)) => SpecParsed::Done(
                SpecVariableTransform::Case {
                    pattern: pat,
                    cases: entries.map_values(
                        |e: (Seq<char>, (Seq<char>, Seq<Seq<char>>))| (
                            e.0,
                            SpecVariableTransform::Action { command: seq![e.1] },
                        ),
                    ),
                    default: match default {
                        Some(f) => Some(seq![f]),
                        None => None,
                    },
                },
                rest,
            ),
            None => match spec_parse_quoted(s) {
                Some((t, rest)) => SpecParsed::Done(SpecVariableTransform::Str(t), rest),
                None => match spec_parse_integer(s) {
                    SpecParsed::Done(i, rest) => SpecParsed::Done(
                        SpecVariableTransform::Int(i),
                        rest,
                    ),
                    SpecParsed::Over(l) => SpecParsed::Over(l),
                    SpecParsed::Fail => SpecParsed::Fail,
                },
            },
        },
    }
}

/// One variables entry: a quoted key, a colon, a value.
pub open spec fn spec_parse_variable(s: Seq<char>) -> SpecParsed<(Seq<char>, SpecVariableTransform)> {
    let sw = skip_ws(s);
    match spec_parse_quoted(sw) {
        None => SpecParsed::Fail,
        Some((k, r1)) => {
            let r2 = skip_ws(r1);
            if r2.len() > 0 && r2[0] == ':' {
                let r3 = skip_ws(r2.subrange(1, r2.len() as int));
                match spec_parse_variable_value(r3) {
                    SpecParsed::Done(vt, rest) => SpecParsed::Done((k, vt), rest),
                    SpecParsed::Over(l) => SpecParsed::Over(l),
                    SpecParsed::Fail => SpecParsed::Fail,
                }
            } else {
                SpecParsed::Fail
            }
        },
    }
}

pub proof fn lemma_variable_progress(s: Seq<char>)
    ensures
        spec_parse_variable(s) matches SpecParsed::Done(kv, rest) ==> rest.len() < s.len(),
{
    let sw = skip_ws(s);
    lemma_run_len(s, |c: char| is_ws_char(c));
    match spec_parse_quoted(sw) {
        None => {},
        Some((k, r1)) => {
            lemma_quoted_progress(sw);
            let r2 = skip_ws(r1);
            lemma_run_len(r1, |c: char| is_ws_char(c));
            if r2.len() > 0 && r2[0] == ':' {
                let r3 = skip_ws(r2.subrange(1, r2.len() as int));
                lemma_run_len(r2.subrange(1, r2.len() as int), |c: char| is_ws_char(c));
                lemma_variable_value_progress(r3);
            }
        },
    }
}

pub proof fn lemma_pattern_action_progress(s: Seq<char>)
    ensures
        spec_parse_pattern_action(s) matches Some((pa, rest)) ==> rest.len() <= s.len(),
{
    match spec_parse_regex(s) {
        None => {},
        Some((pat, r1)) => {
            let r2 = skip_ws(r1);
            lemma_run_len(r1, |c: char| is_ws_char(c));
            if r2.len() > 0 && r2[0] == '{' {
                let r3 = skip_ws(r2.subrange(1, r2.len() as int));
                lemma_run_len(r2.subrange(1, r2.len() as int), |c: char| is_ws_char(c));
                let (fns, r4) = spec_parse_pipeline(r3);
                lemma_pipeline_progress(r3);
                let r5 = skip_ws(r4);
                lemma_run_len(r4, |c: char| is_ws_char(c));
                if r5.len() > 0 && r5[0] == '}' {
                    lemma_run_len(r5.subrange(1, r5.len() as int), |c: char| is_ws_char(c));
                }
            }
        },
    }
}

pub proof fn lemma_case_block_progress(s: Seq<char>)
    ensures
        spec_parse_case_block(s) matches Some((cb, rest)) ==> rest.len() <= s.len(),
{
    reveal_strlit("default");
    match spec_parse_regex(s) {
        None => {},
        Some((pat, r1)) => {
            let r2 = skip_ws(r1);
            lemma_run_len(r1, |c: char| is_ws_char(c));
            if r2.len() > 0 && r2[0] == '{' {
                let r3 = skip_ws(r2.subrange(1, r2.len() as int));
                lemma_run_len(r2.subrange(1, r2.len() as int), |c: char| is_ws_char(c));
                let (entries, r4) = spec_parse_case_entries(
                    Seq::<(Seq<char>, (Seq<char>, Seq<Seq<char>>))>::empty(),
                    r3,
                );
                lemma_case_entries_progress(
                    Seq::<(Seq<char>, (Seq<char>, Seq<Seq<char>>))>::empty(),
                    r3,
                );
                let tagged = crate::text::spec_starts_with(r4, "default"@) && run_len(
                    r4.subrange(7, r4.len() as int),
                    |c: char| is_ws_char(c),
                ) >= 1;
                if tagged {
                    let t = r4.subrange(7, r4.len() as int);
                    lemma_run_len(t, |c: char| is_ws_char(c));
                    let after = skip_ws(t);
                    lemma_function_progress(after);
                    match spec_parse_function(after) {
                        None => {},
                        Some((f, r5)) => {
                            lemma_run_len(r5, |c: char| is_ws_char(c));
                            let r7 = skip_ws(r5);
                            if r7.len() > 0 && r7[0] == '}' {
                                lemma_run_len(
                                    r7.subrange(1, r7.len() as int),
                                    |c: char| is_ws_char(c),
                                );
                            }
                        },
                    }
                } else {
                    let r7 = skip_ws(r4);
                    lemma_run_len(r4, |c: char| is_ws_char(c));
                    if r7.len() > 0 && r7[0] == '}' {
                        lemma_run_len(r7.subrange(1, r7.len() as int), |c: char| is_ws_char(c));
                    }
                }
            }
        },
    }
}

pub proof fn lemma_variable_value_progress(s: Seq<char>)
    ensures
        spec_parse_variable_value(s) matches SpecParsed::Done(vt, rest) ==> rest.len() <= s.len(),
{
    lemma_pattern_action_progress(s);
    lemma_case_block_progress(s);
    lemma_quoted_progress(s);
    let neg = s.len() > 0 && s[0] == '-';
    let t = if neg {
        s.subrange(1, s.len() as int)
    } else {
        s
    };
    lemma_run_len(t, |c: char| is_digit_char(c));
}

/// All the variables entries that follow, each folded in with
/// last-write-wins.
pub open spec fn spec_parse_variables(
    acc: Seq<(Seq<char>, SpecVariableTransform)>,
    s: Seq<char>,
) -> SpecParsed<Seq<(Seq<char>, SpecVariableTransform)>>
    decreases s.len(),
{
    match spec_parse_variable(s) {
        SpecParsed::Fail => SpecParsed::Done(acc, s),
        SpecParsed::Over(l) => SpecParsed::Over(l),
        SpecParsed::Done((k, vt), rest) => {
            let r2 = skip_ws(rest);
            if r2.len() < s.len() {
                spec_parse_variables(upsert(acc, k, vt), r2)
            } else {
                SpecParsed::Done(upsert(acc, k, vt), r2)
            }
        },
    }
}

// --- transforms, executable ---

/// An internal parse failure: the position it was noticed at, and the
/// out-of-range literal when an integer overflowed.
struct XErr {
    at: usize,
    over: Option<String>,
}

/// The case entries a list of (key, function) pairs denotes.
pub open spec fn centries_views(s: Seq<(String, (String, Vec<String>))>) -> Seq<
    (Seq<char>, (Seq<char>, Seq<Seq<char>>)),
> {
    s.map_values(
        |e: (String, (String, Vec<String>))| (e.0@, (e.1.0@, crate::text::views_of(e.1.1@))),
    )
}

/// The first entry bound to `k`, if any.
fn find_key<T>(acc: &Vec<(String, T)>, k: &str) -> (r: Option<usize>)
    ensures
        match r {
            Some(i) => i < acc@.len() && acc@[i as int].0@ == k@ && forall|j: int|
                0 <= j < i ==> (#[trigger] acc@[j]).0@ != k@,
            None => forall|j: int| 0 <= j < acc@.len() ==> (#[trigger] acc@[j]).0@ != k@,
        },
{
    let n = acc.len();
    let mut i: usize = 0;
    while i < n
        invariant
            n == acc@.len(),
            i <= n,
            forall|j: int| 0 <= j < i ==> (#[trigger] acc@[j]).0@ != k@,
        decreases n - i,
    {
        if str_eq(acc[i].0.as_str(), k) {
            return Some(i);
        }
        i += 1;
    }
    None
}

/// Folds one case arm in, last write winning.
fn upsert_case(acc: &mut Vec<(String, (String, Vec<String>))>, k: String, f: (String, Vec<String>))
    ensures
        centries_views(final(acc)@) == upsert(
            centries_views(old(acc)@),
            k@,
            (f.0@, crate::text::views_of(f.1@)),
        ),
{
    let ghost m = centries_views(old(acc)@);
    let ghost fv = (f.0@, crate::text::views_of(f.1@));
    match find_key(acc, k.as_str()) {
        Some(i) => {
            let existing = acc[i].0.clone();
            acc[i] = (existing, f);
            proof {
                lemma_upsert_shape(m, k@, fv);
                assert forall|j: int| 0 <= j < i implies (#[trigger] m[j]).0 != k@ by {
                    assert(m[j] == (old(acc)@[j].0@, (old(acc)@[j].1.0@, crate::text::views_of(
                        old(acc)@[j].1.1@,
                    ))));
                }
                assert(m[i as int] == (old(acc)@[i as int].0@, (old(acc)@[i as int].1.0@,
                crate::text::views_of(old(acc)@[i as int].1.1@))));
                assert(centries_views(acc@) =~= m.update(i as int, (k@, fv)));
            }
        },
        None => {
            acc.push((k, f));
            proof {
                lemma_upsert_shape(m, k@, fv);
                assert forall|j: int| 0 <= j < m.len() implies (#[trigger] m[j]).0 != k@ by {
                    assert(m[j] == (old(acc)@[j].0@, (old(acc)@[j].1.0@, crate::text::views_of(
                        old(acc)@[j].1.1@,
                    ))));
                }
                assert(centries_views(acc@) =~= m.push((k@, fv)));
            }
        },
    }
}

/// Folds one variables entry in, last write winning.
fn upsert_var(acc: &mut Vec<(String, VariableTransform)>, k: String, val: VariableTransform)
    ensures
        vt_entries_view(final(acc)@) == upsert(vt_entries_view(old(acc)@), k@, vt_view(val)),
{
    let ghost m = vt_entries_view(old(acc)@);
    let ghost vv = vt_view(val);
    match find_key(acc, k.as_str()) {
        Some(i) => {
            let existing = acc[i].0.clone();
            acc[i] = (existing, val);
            proof {
                lemma_upsert_shape(m, k@, vv);
                lemma_vt_entries_view_index(old(acc)@);
                assert forall|j: int| 0 <= j < i implies (#[trigger] m[j]).0 != k@ by {
                    assert(m[j] == (old(acc)@[j].0@, vt_view(old(acc)@[j].1)));
                }
                assert(m[i as int] == (old(acc)@[i as int].0@, vt_view(old(acc)@[i as int].1)));
                lemma_vt_entries_view_index(acc@);
                assert(vt_entries_view(acc@) =~= m.update(i as int, (k@, vv)));
            }
        },
        None => {
            acc.push((k, val));
            proof {
                lemma_upsert_shape(m, k@, vv);
                lemma_vt_entries_view_index(old(acc)@);
                assert forall|j: int| 0 <= j < m.len() implies (#[trigger] m[j]).0 != k@ by {
                    assert(m[j] == (old(acc)@[j].0@, vt_view(old(acc)@[j].1)));
                }
                lemma_vt_entries_view_index(acc@);
                assert(vt_entries_view(acc@) =~= m.push((k@, vv)));
            }
        },
    }
}

/// Parses a pattern-action rule at `pos`.
fn x_pattern_action(v: &Vec<char>, pos: usize) -> (r: Option<
    (usize, (String, Vec<(String, Vec<String>)>)),
>)
    requires
        pos <= v@.len(),
    ensures
        match spec_parse_pattern_action(suffix(v@, pos as int)) {
            Some((pa, rest)) => r matches Some((np, g)) && g.0@ == pa.0 && pipe_views(g.1@) == pa.1
                && pos <= np <= v@.len() && suffix(v@, np as int) == rest,
            None => r is None,
        },
{
    let ghost s = suffix(v@, pos as int);
    let n = v.len();
    let pat = match x_regex(v, pos) {
        None => {
            return None;
        },
        Some(p) => p,
    };
    let (rp, pat_text) = pat;
    let w = x_skip_ws(v, rp);
    if !(w < n && v[w] == '{') {
        proof {
            if w < n {
                assert(suffix(v@, w as int)[0] == v@[w as int]);
            }
        }
        return None;
    }
    proof {
        assert(suffix(v@, w as int)[0] == v@[w as int]);
        assert(suffix(v@, w as int).subrange(1, suffix(v@, w as int).len() as int) =~= suffix(
            v@,
            w + 1,
        ));
    }
    let w2 = x_skip_ws(v, w + 1);
    let (p2, fns) = x_pipeline(v, w2);
    let w3 = x_skip_ws(v, p2);
    if !(w3 < n && v[w3] == '}') {
        proof {
            if w3 < n {
                assert(suffix(v@, w3 as int)[0] == v@[w3 as int]);
            }
        }
        return None;
    }
    proof {
        assert(suffix(v@, w3 as int)[0] == v@[w3 as int]);
        assert(suffix(v@, w3 as int).subrange(1, suffix(v@, w3 as int).len() as int) =~= suffix(
            v@,
            w3 + 1,
        ));
    }
    let np = x_skip_ws(v, w3 + 1);
    Some((np, (pat_text, fns)))
}

/// Parses a case block at `pos`.
#[allow(clippy::type_complexity)]
fn x_case_block(v: &Vec<char>, pos: usize) -> (r: Option<
    (
        usize,
        (String, Vec<(String, (String, Vec<String>))>, Option<(String, Vec<String>)>),
    ),
>)
    requires
        pos <= v@.len(),
    ensures
        match spec_parse_case_block(suffix(v@, pos as int)) {
            Some((cb, rest)) => r matches Some((np, g)) && g.0@ == cb.0 && centries_views(g.1@)
                == cb.1 && (match (g.2, cb.2) {
                (Some(f), Some(sf)) => f.0@ == sf.0 && crate::text::views_of(f.1@) == sf.1,
                (None, None) => true,
                _ => false,
            }) && pos <= np <= v@.len() && suffix(v@, np as int) == rest,
            None => r is None,
        },
{
    proof {
        reveal_strlit("default");
    }
    let ghost s = suffix(v@, pos as int);
    let n = v.len();
    let pat = match x_regex(v, pos) {
        None => {
            return None;
        },
        Some(p) => p,
    };
    let (rp, pat_text) = pat;
    let w = x_skip_ws(v, rp);
    if !(w < n && v[w] == '{') {
        proof {
            if w < n {
                assert(suffix(v@, w as int)[0] == v@[w as int]);
            }
        }
        return None;
    }
    proof {
        assert(suffix(v@, w as int)[0] == v@[w as int]);
        assert(suffix(v@, w as int).subrange(1, suffix(v@, w as int).len() as int) =~= suffix(
            v@,
            w + 1,
        ));
    }
    let w2 = x_skip_ws(v, w + 1);
    let ghost r3 = suffix(v@, w2 as int);

    // the arms
    let mut entries: Vec<(String, (String, Vec<String>))> = Vec::new();
    let mut cur = w2;
    proof {
        assert(centries_views(entries@) =~= Seq::<
            (Seq<char>, (Seq<char>, Seq<Seq<char>>)),
        >::empty());
    }
    loop
        invariant
            w2 <= cur <= n,
            n == v@.len(),
            r3 == suffix(v@, w2 as int),
            spec_parse_case_entries(
                Seq::<(Seq<char>, (Seq<char>, Seq<Seq<char>>))>::empty(),
                r3,
            ) == spec_parse_case_entries(centries_views(entries@), suffix(v@, cur as int)),
        ensures
            cur <= n,
            n == v@.len(),
            spec_parse_case_entries(
                Seq::<(Seq<char>, (Seq<char>, Seq<Seq<char>>))>::empty(),
                r3,
            ) == (centries_views(entries@), suffix(v@, cur as int)),
        decreases n - cur,
    {
        let ghost cs = suffix(v@, cur as int);
        let q = match x_quoted(v, cur) {
            None => {
                break ;
            },
            Some(q) => q,
        };
        let (qp, key) = q;
        proof {
            lemma_quoted_progress(cs);
        }
        let w3 = x_skip_ws(v, qp);
        if w3 == qp {
            break ;
        }
        let f = match x_function(v, w3) {
            None => {
                break ;
            },
            Some(f) => f,
        };
        let (fp, fun) = f;
        let w4 = x_skip_ws(v, fp);
        let ghost prev = centries_views(entries@);
        upsert_case(&mut entries, key, fun);
        cur = w4;
    }

    // the optional default arm
    let ghost r4 = suffix(v@, cur as int);
    let mut default: Option<(String, Vec<String>)> = None;
    let mut after_default = cur;
    let mut tagged = false;
    if n - cur >= 7 && range_eq_str(v, cur, cur + 7, "default") {
        proof {
            assert(r4.subrange(0, 7) =~= v@.subrange(cur as int, cur + 7));
            assert(crate::text::spec_starts_with(r4, "default"@));
            assert(r4.subrange(7, r4.len() as int) =~= suffix(v@, cur + 7));
        }
        let wd = x_skip_ws(v, cur + 7);
        if wd > cur + 7 {
            tagged = true;
            proof {
                assert(run_len(r4.subrange(7, r4.len() as int), |c: char| is_ws_char(c)) >= 1);
            }
            match x_function(v, wd) {
                None => {
                    return None;
                },
                Some((fp2, fun2)) => {
                    default = Some(fun2);
                    after_default = fp2;
                },
            }
        }
    }
    proof {
        if !tagged {
            if crate::text::spec_starts_with(r4, "default"@) {
                assert(r4.subrange(0, 7) =~= v@.subrange(cur as int, cur + 7));
                assert(r4.subrange(7, r4.len() as int) =~= suffix(v@, cur + 7));
            }
        }
    }

    let w5 = x_skip_ws(v, after_default);
    if !(w5 < n && v[w5] == '}') {
        proof {
            if w5 < n {
                assert(suffix(v@, w5 as int)[0] == v@[w5 as int]);
            }
        }
        return None;
    }
    proof {
        assert(suffix(v@, w5 as int)[0] == v@[w5 as int]);
        assert(suffix(v@, w5 as int).subrange(1, suffix(v@, w5 as int).len() as int) =~= suffix(
            v@,
            w5 + 1,
        ));
    }
    let np = x_skip_ws(v, w5 + 1);
    Some((np, (pat_text, entries, default)))
}

/// Parses an integer literal at `pos`.
fn x_integer(v: &Vec<char>, pos: usize) -> (r: Result<(usize, i32), XErr>)
    requires
        pos <= v@.len(),
    ensures
        match spec_parse_integer(suffix(v@, pos as int)) {
            SpecParsed::Done(i, rest) => r matches Ok((np, x)) && x == i && pos <= np <= v@.len()
                && suffix(v@, np as int) == rest,
            SpecParsed::Fail => r matches Err(e) && e.over is None,
            SpecParsed::Over(l) => r matches Err(e) && e.over matches Some(t) && t@ == l,
        },
{
    let ghost s = suffix(v@, pos as int);
    let n = v.len();
    let neg = pos < n && v[pos] == '-';
    proof {
        if pos < n {
            assert(s[0] == v@[pos as int]);
        }
    }
    let start = if neg {
        pos + 1
    } else {
        pos
    };
    let ghost t = if neg {
        s.subrange(1, s.len() as int)
    } else {
        s
    };
    proof {
        assert(t =~= suffix(v@, start as int));
    }
    let e = x_run_digits(v, start);
    if e == start {
        return Err(XErr { at: start, over: None });
    }
    proof {
        lemma_run_len(t, |c: char| is_digit_char(c));
        assert(t.subrange(0, (e - start) as int) =~= v@.subrange(start as int, e as int));
        assert(all_digit_chars(v@.subrange(start as int, e as int)));
    }
    match digits_to_i32(v, start, e, neg) {
        Some(x) => {
            proof {
                assert(t.subrange((e - start) as int, t.len() as int) =~= suffix(v@, e as int));
            }
            Ok((e, x))
        },
        None => {
            let lit = string_of_range(v, pos, e);
            proof {
                if neg {
                    assert(lit@ =~= seq!['-'] + v@.subrange(start as int, e as int));
                } else {
                    assert(lit@ =~= v@.subrange(start as int, e as int));
                }
            }
            Err(XErr { at: pos, over: Some(lit) })
        },
    }
}

/// Builds the case transform a parsed case block denotes: each arm and
/// the default become one-step action pipelines.
fn build_case(
    pat: String,
    entries: Vec<(String, (String, Vec<String>))>,
    default: Option<(String, Vec<String>)>,
) -> (vt: VariableTransform)
    ensures
        vt@ == (SpecVariableTransform::Case {
            pattern: pat@,
            cases: centries_views(entries@).map_values(
                |e: (Seq<char>, (Seq<char>, Seq<Seq<char>>))| (
                    e.0,
                    SpecVariableTransform::Action { command: seq![e.1] },
                ),
            ),
            default: match default {
                Some(f) => Some(seq![(f.0@, crate::text::views_of(f.1@))]),
                None => None,
            },
        }),
{
    let ghost centry_spec = centries_views(entries@);
    let mut cases: Vec<(String, VariableTransform)> = Vec::new();
    let ne = entries.len();
    let mut i: usize = 0;
    // turn each arm into a one-step action pipeline
    while i < ne
        invariant
            ne == entries@.len(),
            i <= ne,
            centry_spec == centries_views(entries@),
            cases@.len() == i,
            forall|j: int|
                0 <= j < i ==> (#[trigger] cases@[j]).0@ == centry_spec[j].0 && vt_view(
                    cases@[j].1,
                ) == (SpecVariableTransform::Action { command: seq![centry_spec[j].1] }),
        decreases ne - i,
    {
        let k = entries[i].0.clone();
        let fname = entries[i].1.0.clone();
        let fargs = crate::text::copy_strings(&entries[i].1.1);
        let mut fs: Vec<(String, Vec<String>)> = Vec::new();
        fs.push((fname, fargs));
        let vt = VariableTransform::Action { command: Function::Functions(fs) };
        proof {
            assert(fun_view(Function::Functions(fs)) =~= seq![centry_spec[i as int].1]);
        }
        cases.push((k, vt));
        i += 1;
    }
    proof {
        lemma_vt_entries_view_index(cases@);
        assert(vt_entries_view(cases@) =~= centry_spec.map_values(
            |e: (Seq<char>, (Seq<char>, Seq<Seq<char>>))| (
                e.0,
                SpecVariableTransform::Action { command: seq![e.1] },
            ),
        ));
    }
    let d = match default {
        Some(f) => {
            let ghost fv = (f.0@, crate::text::views_of(f.1@));
            let mut fs: Vec<(String, Vec<String>)> = Vec::new();
            fs.push(f);
            proof {
                assert(fun_view(Function::Functions(fs)) =~= seq![fv]);
            }
            Some(Function::Functions(fs))
        },
        None => None,
    };
    VariableTransform::Case { pattern: pat, cases, default: d }
}

/// Parses a variables right-hand side at `pos`.
fn x_variable_value(v: &Vec<char>, pos: usize) -> (r: Result<(usize, VariableTransform), XErr>)
    requires
        pos <= v@.len(),
    ensures
        match spec_parse_variable_value(suffix(v@, pos as int)) {
            SpecParsed::Done(vt, rest) => r matches Ok((np, g)) && g@ == vt && pos <= np
                <= v@.len() && suffix(v@, np as int) == rest,
            SpecParsed::Fail => r matches Err(e) && e.over is None,
            SpecParsed::Over(l) => r matches Err(e) && e.over matches Some(t) && t@ == l,
        },
{
    if let Some((np, (pat, fns))) = x_pattern_action(v, pos) {
        let vt = VariableTransform::PatternAction { pattern: pat, command: Function::Functions(fns) };
        return Ok((np, vt));
    }
    if let Some((np, (pat, entries, default))) = x_case_block(v, pos) {
        let vt = build_case(pat, entries, default);
        return Ok((np, vt));
    }
    if let Some((np, t)) = x_quoted(v, pos) {
        return Ok((np, VariableTransform::String(t)));
    }
    match x_integer(v, pos) {
        Ok((np, x)) => Ok((np, VariableTransform::Integer(x))),
        Err(e) => Err(e),
    }
}

// --- the header ---

/// Which key a header entry names; the closed set, with anything else
/// reading as `name`.
pub open spec fn spec_key_kind(s: Seq<char>) -> HobbitHoleKey {
    if s == "name"@ {
        HobbitHoleKey::Name
    } else if s == "description"@ {
        HobbitHoleKey::Description
    } else if s == "interaction"@ {
        HobbitHoleKey::Interaction
    } else if s == "actionLocation"@ {
        HobbitHoleKey::ActionLocation
    } else if s == "variables"@ {
        HobbitHoleKey::Variables
    } else {
        HobbitHoleKey::Name
    }
}

/// The interaction a header value names, compared without regard to ASCII
/// case; anything unrecognized reads as `RunPanel`.
pub open spec fn spec_interaction_from(s: Seq<char>) -> InteractionType {
    let l = spec_lower(s);
    if l == "appendcursor"@ {
        InteractionType::AppendCursor
    } else if l == "appendcursorstream"@ {
        InteractionType::AppendCursorStream
    } else if l == "outputfile"@ {
        InteractionType::OutputFile
    } else if l == "replaceselection"@ {
        InteractionType::ReplaceSelection
    } else if l == "replacecurrentfile"@ {
        InteractionType::ReplaceCurrentFile
    } else if l == "insertbeforeselection"@ {
        InteractionType::InsertBeforeSelection
    } else if l == "runpanel"@ {
        InteractionType::RunPanel
    } else if l == "onpaste"@ {
        InteractionType::OnPaste
    } else {
        InteractionType::RunPanel
    }
}

/// The action location a header value names, compared exactly; anything
/// unrecognized reads as `RunPanel`.
pub open spec fn spec_location_from(s: Seq<char>) -> ShireActionLocation {
    if s == "ContextMenu"@ {
        ShireActionLocation::ContextMenu
    } else if s == "IntentionMenu"@ {
        ShireActionLocation::IntentionMenu
    } else if s == "TerminalMenu"@ {
        ShireActionLocation::TerminalMenu
    } else if s == "CommitMenu"@ {
        ShireActionLocation::CommitMenu
    } else if s == "RunPanel"@ {
        ShireActionLocation::RunPanel
    } else if s == "InputBox"@ {
        ShireActionLocation::InputBox
    } else {
        ShireActionLocation::RunPanel
    }
}

/// The header with nothing set.
pub open spec fn spec_default_hole() -> SpecHobbitHole {
    SpecHobbitHole {
        name: Seq::<char>::empty(),
        description: None,
        interaction: None,
        action_location: None,
        variables: Seq::<(Seq<char>, SpecVariableTransform)>::empty(),
    }
}

/// One header entry folded into the record: the key, a colon, and the
/// value shape the key asks for.
pub open spec fn spec_parse_hh_entry(h: SpecHobbitHole, s: Seq<char>) -> SpecParsed<
    SpecHobbitHole,
> {
    let n = run_len(s, |c: char| is_ident_char(c)) as int;
    let key = s.subrange(0, n);
    let t = skip_ws(s.subrange(n, s.len() as int));
    if t.len() > 0 && t[0] == ':' {
        let r = skip_ws(t.subrange(1, t.len() as int));
        match spec_key_kind(key) {
            HobbitHoleKey::Name => match spec_parse_quoted(r) {
                None => SpecParsed::Fail,
                Some((nm, rest)) => SpecParsed::Done(SpecHobbitHole { name: nm, ..h }, rest),
            },
            HobbitHoleKey::Description => {
                let m = run_len(r, |c: char| c != '|' && c != '\n') as int;
                if m == 0 {
                    SpecParsed::Fail
                } else {
                    SpecParsed::Done(
                        SpecHobbitHole { description: Some(r.subrange(0, m)), ..h },
                        r.subrange(m, r.len() as int),
                    )
                }
            },
            HobbitHoleKey::Interaction => {
                let m = run_len(r, |c: char| c != '|' && c != '\n') as int;
                if m == 0 {
                    SpecParsed::Fail
                } else {
                    SpecParsed::Done(
                        SpecHobbitHole {
                            interaction: Some(spec_interaction_from(r.subrange(0, m))),
                            ..h
                        },
                        r.subrange(m, r.len() as int),
                    )
                }
            },
            HobbitHoleKey::ActionLocation => {
                let m = run_len(r, |c: char| c != '|' && c != '\n') as int;
                if m == 0 {
                    SpecParsed::Fail
                } else {
                    SpecParsed::Done(
                        SpecHobbitHole {
                            action_location: Some(spec_location_from(r.subrange(0, m))),
                            ..h
                        },
                        r.subrange(m, r.len() as int),
                    )
                }
            },
            HobbitHoleKey::Variables => match spec_parse_variables(
                Seq::<(Seq<char>, SpecVariableTransform)>::empty(),
                r,
            ) {
                SpecParsed::Done(vars, rest) => SpecParsed::Done(
                    SpecHobbitHole { variables: vars, ..h },
                    rest,
                ),
                SpecParsed::Over(l) => SpecParsed::Over(l),
                SpecParsed::Fail => SpecParsed::Fail,
            },
        }
    } else {
        SpecParsed::Fail
    }
}

/// The header entries until the closing fence, whitespace already
/// dropped.
pub open spec fn spec_parse_hh_entries(h: SpecHobbitHole, s: Seq<char>) -> SpecParsed<
    SpecHobbitHole,
>
    decreases s.len(),
{
    if crate::text::spec_starts_with(s, "---"@) {
        SpecParsed::Done(h, skip_ws(s.subrange(3, s.len() as int)))
    } else if s.len() == 0 {
        SpecParsed::Fail
    } else {
        match spec_parse_hh_entry(h, s) {
            SpecParsed::Done(h2, rest) => {
                let r2 = skip_ws(rest);
                if r2.len() < s.len() {
                    spec_parse_hh_entries(h2, r2)
                } else {
                    SpecParsed::Fail
                }
            },
            SpecParsed::Over(l) => SpecParsed::Over(l),
            SpecParsed::Fail => SpecParsed::Fail,
        }
    }
}

/// A whole header: an opening fence, entries, a closing fence.
pub open spec fn spec_parse_hobbit_hole(s: Seq<char>) -> SpecParsed<SpecHobbitHole> {
    let sw = skip_ws(s);
    if crate::text::spec_starts_with(sw, "---"@) {
        spec_parse_hh_entries(spec_default_hole(), skip_ws(sw.subrange(3, sw.len() as int)))
    } else {
        SpecParsed::Fail
    }
}

/// The body lines after the header: maximal runs free of `|` and
/// newlines.
pub open spec fn spec_parse_body(acc: Seq<Seq<char>>, s: Seq<char>) -> (Seq<Seq<char>>, Seq<char>)
    decreases s.len(),
{
    let m = run_len(s, |c: char| c != '|' && c != '\n') as int;
    if m == 0 {
        (acc, s)
    } else {
        let rest = s.subrange(m, s.len() as int);
        if rest.len() < s.len() {
            spec_parse_body(acc.push(s.subrange(0, m)), rest)
        } else {
            (acc.push(s.subrange(0, m)), rest)
        }
    }
}

/// A whole file: the header, then at least one body line.
pub open spec fn spec_parse_file(s: Seq<char>) -> SpecParsed<(SpecHobbitHole, Seq<Seq<char>>)> {
    match spec_parse_hobbit_hole(s) {
        SpecParsed::Done(h, rest) => {
            let (body, rest2) = spec_parse_body(Seq::<Seq<char>>::empty(), rest);
            if body.len() == 0 {
                SpecParsed::Fail
            } else {
                SpecParsed::Done((h, body), rest2)
            }
        },
        SpecParsed::Over(l) => SpecParsed::Over(l),
        SpecParsed::Fail => SpecParsed::Fail,
    }
}

// --- the header, executable ---

/// Parses one variables entry at `pos`.
fn x_variable(v: &Vec<char>, pos: usize) -> (r: Result<(usize, (String, VariableTransform)), XErr>)
    requires
        pos <= v@.len(),
    ensures
        match spec_parse_variable(suffix(v@, pos as int)) {
            SpecParsed::Done(kv, rest) => r matches Ok((np, g)) && g.0@ == kv.0 && g.1@ == kv.1
                && pos <= np <= v@.len() && suffix(v@, np as int) == rest,
            SpecParsed::Fail => r matches Err(e) && e.over is None,
            SpecParsed::Over(l) => r matches Err(e) && e.over matches Some(t) && t@ == l,
        },
{
    let n = v.len();
    let sw = x_skip_ws(v, pos);
    match x_quoted(v, sw) {
        None => Err(XErr { at: sw, over: None }),
        Some((qp, key)) => {
            let w = x_skip_ws(v, qp);
            if w < n && v[w] == ':' {
                proof {
                    assert(suffix(v@, w as int)[0] == v@[w as int]);
                    assert(suffix(v@, w as int).subrange(1, suffix(v@, w as int).len() as int)
                        =~= suffix(v@, w + 1));
                }
                let r2 = x_skip_ws(v, w + 1);
                match x_variable_value(v, r2) {
                    Ok((np, vt)) => Ok((np, (key, vt))),
                    Err(e) => Err(e),
                }
            } else {
                proof {
                    if w < n {
                        assert(suffix(v@, w as int)[0] == v@[w as int]);
                    }
                }
                Err(XErr { at: w, over: None })
            }
        },
    }
}

/// Parses the variables entries at `pos`, last write winning.
fn x_variables(v: &Vec<char>, pos: usize) -> (r: Result<
    (usize, Vec<(String, VariableTransform)>),
    XErr,
>)
    requires
        pos <= v@.len(),
    ensures
        match spec_parse_variables(
            Seq::<(Seq<char>, SpecVariableTransform)>::empty(),
            suffix(v@, pos as int),
        ) {
            SpecParsed::Done(entries, rest) => r matches Ok((np, g)) && vt_entries_view(g@)
                == entries && pos <= np <= v@.len() && suffix(v@, np as int) == rest,
            SpecParsed::Fail => r matches Err(e) && e.over is None,
            SpecParsed::Over(l) => r matches Err(e) && e.over matches Some(t) && t@ == l,
        },
{
    let ghost s0 = suffix(v@, pos as int);
    let n = v.len();
    let mut acc: Vec<(String, VariableTransform)> = Vec::new();
    let mut cur = pos;
    proof {
        assert(vt_entries_view(acc@) =~= Seq::<(Seq<char>, SpecVariableTransform)>::empty());
    }
    loop
        invariant
            pos <= cur <= n,
            n == v@.len(),
            s0 == suffix(v@, pos as int),
            spec_parse_variables(Seq::<(Seq<char>, SpecVariableTransform)>::empty(), s0)
                == spec_parse_variables(vt_entries_view(acc@), suffix(v@, cur as int)),
        ensures
            cur <= n,
            n == v@.len(),
            spec_parse_variables(Seq::<(Seq<char>, SpecVariableTransform)>::empty(), s0)
                == SpecParsed::Done(vt_entries_view(acc@), suffix(v@, cur as int)),
        decreases n - cur,
    {
        let ghost cs = suffix(v@, cur as int);
        match x_variable(v, cur) {
            Err(e) => {
                if e.over.is_some() {
                    // an overflow is fatal for the whole list
                    return Err(e);
                }
                break ;
            },
            Ok((np, (k, vt))) => {
                proof {
                    lemma_variable_progress(cs);
                }
                let w = x_skip_ws(v, np);
                upsert_var(&mut acc, k, vt);
                cur = w;
            },
        }
    }
    Ok((cur, acc))
}

/// The key a header identifier names.
fn x_key_kind(v: &Vec<char>, a: usize, b: usize) -> (r: HobbitHoleKey)
    requires
        a <= b <= v@.len(),
    ensures
        r == spec_key_kind(v@.subrange(a as int, b as int)),
{
    if range_eq_str(v, a, b, "name") {
        HobbitHoleKey::Name
    } else if range_eq_str(v, a, b, "description") {
        HobbitHoleKey::Description
    } else if range_eq_str(v, a, b, "interaction") {
        HobbitHoleKey::Interaction
    } else if range_eq_str(v, a, b, "actionLocation") {
        HobbitHoleKey::ActionLocation
    } else if range_eq_str(v, a, b, "variables") {
        HobbitHoleKey::Variables
    } else {
        HobbitHoleKey::Name
    }
}

/// The interaction the characters `v[a..b]` name.
fn x_interaction_from(v: &Vec<char>, a: usize, b: usize) -> (r: InteractionType)
    requires
        a <= b <= v@.len(),
    ensures
        r == spec_interaction_from(v@.subrange(a as int, b as int)),
{
    let mut lv: Vec<char> = Vec::new();
    let mut i: usize = a;
    while i < b
        invariant
            a <= i <= b <= v@.len(),
            lv@.len() == i - a,
            forall|j: int| 0 <= j < i - a ==> lv@[j] == crate::text::spec_lower_char(v@[a + j]),
        decreases b - i,
    {
        lv.push(lower_char(v[i]));
        i += 1;
    }
    proof {
        assert(lv@ =~= spec_lower(v@.subrange(a as int, b as int)));
    }
    let m = lv.len();
    proof {
        assert(lv@.subrange(0, m as int) =~= lv@);
    }
    if range_eq_str(&lv, 0, m, "appendcursor") {
        InteractionType::AppendCursor
    } else if range_eq_str(&lv, 0, m, "appendcursorstream") {
        InteractionType::AppendCursorStream
    } else if range_eq_str(&lv, 0, m, "outputfile") {
        InteractionType::OutputFile
    } else if range_eq_str(&lv, 0, m, "replaceselection") {
        InteractionType::ReplaceSelection
    } else if range_eq_str(&lv, 0, m, "replacecurrentfile") {
        InteractionType::ReplaceCurrentFile
    } else if range_eq_str(&lv, 0, m, "insertbeforeselection") {
        InteractionType::InsertBeforeSelection
    } else if range_eq_str(&lv, 0, m, "runpanel") {
        InteractionType::RunPanel
    } else if range_eq_str(&lv, 0, m, "onpaste") {
        InteractionType::OnPaste
    } else {
        InteractionType::RunPanel
    }
}

/// The action location the characters `v[a..b]` name.
fn x_location_from(v: &Vec<char>, a: usize, b: usize) -> (r: ShireActionLocation)
    requires
        a <= b <= v@.len(),
    ensures
        r == spec_location_from(v@.subrange(a as int, b as int)),
{
    if range_eq_str(v, a, b, "ContextMenu") {
        ShireActionLocation::ContextMenu
    } else if range_eq_str(v, a, b, "IntentionMenu") {
        ShireActionLocation::IntentionMenu
    } else if range_eq_str(v, a, b, "TerminalMenu") {
        ShireActionLocation::TerminalMenu
    } else if range_eq_str(v, a, b, "CommitMenu") {
        ShireActionLocation::CommitMenu
    } else if range_eq_str(v, a, b, "RunPanel") {
        ShireActionLocation::RunPanel
    } else if range_eq_str(v, a, b, "InputBox") {
        ShireActionLocation::InputBox
    } else {
        ShireActionLocation::RunPanel
    }
}

impl Default for HobbitHole {
    /// The header with nothing set.
    fn default() -> (r: HobbitHole)
        ensures
            r@ == spec_default_hole(),
    {
        let r = HobbitHole {
            name: String::new(),
            description: None,
            interaction: None,
            action_location: None,
            variables: Vec::new(),
        };
        proof {
            assert(vt_entries_view(r.variables@) =~= Seq::<
                (Seq<char>, SpecVariableTransform),
            >::empty());
            assert(r@.name =~= Seq::<char>::empty());
        }
        r
    }
}

/// Parses header entries at `pos` into `hole` until the closing fence.
#[verifier::rlimit(100)]
fn x_hh_entries(v: &Vec<char>, pos: usize, hole: HobbitHole) -> (r: Result<
    (usize, HobbitHole),
    XErr,
>)
    requires
        pos <= v@.len(),
    ensures
        match spec_parse_hh_entries(hole@, suffix(v@, pos as int)) {
            SpecParsed::Done(h2, rest) => r matches Ok((np, g)) && g@ == h2 && np <= v@.len()
                && suffix(v@, np as int) == rest,
            SpecParsed::Fail => r matches Err(e) && e.over is None,
            SpecParsed::Over(l) => r matches Err(e) && e.over matches Some(t) && t@ == l,
        },
{
    let ghost s0 = suffix(v@, pos as int);
    let n = v.len();
    let mut h = hole;
    let mut cur = pos;
    loop
        invariant
            pos <= cur <= n,
            n == v@.len(),
            s0 == suffix(v@, pos as int),
            spec_parse_hh_entries(hole@, s0) == spec_parse_hh_entries(h@, suffix(v@, cur as int)),
        decreases n - cur,
    {
        proof {
            reveal_strlit("---");
        }
        let ghost cs = suffix(v@, cur as int);
        if n - cur >= 3 && range_eq_str(v, cur, cur + 3, "---") {
            proof {
                assert(cs.subrange(0, 3) =~= v@.subrange(cur as int, cur + 3));
                assert(crate::text::spec_starts_with(cs, "---"@));
                assert(cs.subrange(3, cs.len() as int) =~= suffix(v@, cur + 3));
            }
            let np = x_skip_ws(v, cur + 3);
            return Ok((np, h));
        }
        proof {
            if crate::text::spec_starts_with(cs, "---"@) {
                assert(cs.subrange(0, 3) =~= v@.subrange(cur as int, cur + 3));
            }
        }
        if cur == n {
            return Err(XErr { at: cur, over: None });
        }
        // one entry: key, colon, value
        let e = x_run_ident(v, cur);
        proof {
            assert(cs.subrange(0, (e - cur) as int) =~= v@.subrange(cur as int, e as int));
            assert(cs.subrange((e - cur) as int, cs.len() as int) =~= suffix(v@, e as int));
        }
        let t = x_skip_ws(v, e);
        if !(t < n && v[t] == ':') {
            proof {
                if t < n {
                    assert(suffix(v@, t as int)[0] == v@[t as int]);
                }
            }
            return Err(XErr { at: t, over: None });
        }
        proof {
            assert(suffix(v@, t as int)[0] == v@[t as int]);
            assert(suffix(v@, t as int).subrange(1, suffix(v@, t as int).len() as int) =~= suffix(
                v@,
                t + 1,
            ));
        }
        let r2 = x_skip_ws(v, t + 1);
        let kind = x_key_kind(v, cur, e);
        let cur2: usize;
        match kind {
            HobbitHoleKey::Name => {
                match x_quoted(v, r2) {
                    None => {
                        return Err(XErr { at: r2, over: None });
                    },
                    Some((np, nm)) => {
                        h.name = nm;
                        cur2 = np;
                    },
                }
            },
            HobbitHoleKey::Description => {
                let m = x_run_not2(v, r2, '|', '\n');
                if m == r2 {
                    return Err(XErr { at: r2, over: None });
                }
                h.description = Some(string_of_range(v, r2, m));
                proof {
                    assert(suffix(v@, r2 as int).subrange(0, (m - r2) as int) =~= v@.subrange(
                        r2 as int,
                        m as int,
                    ));
                    assert(suffix(v@, r2 as int).subrange(
                        (m - r2) as int,
                        suffix(v@, r2 as int).len() as int,
                    ) =~= suffix(v@, m as int));
                }
                cur2 = m;
            },
            HobbitHoleKey::Interaction => {
                let m = x_run_not2(v, r2, '|', '\n');
                if m == r2 {
                    return Err(XErr { at: r2, over: None });
                }
                h.interaction = Some(x_interaction_from(v, r2, m));
                proof {
                    assert(suffix(v@, r2 as int).subrange(0, (m - r2) as int) =~= v@.subrange(
                        r2 as int,
                        m as int,
                    ));
                    assert(suffix(v@, r2 as int).subrange(
                        (m - r2) as int,
                        suffix(v@, r2 as int).len() as int,
                    ) =~= suffix(v@, m as int));
                }
                cur2 = m;
            },
            HobbitHoleKey::ActionLocation => {
                let m = x_run_not2(v, r2, '|', '\n');
                if m == r2 {
                    return Err(XErr { at: r2, over: None });
                }
                h.action_location = Some(x_location_from(v, r2, m));
                proof {
                    assert(suffix(v@, r2 as int).subrange(0, (m - r2) as int) =~= v@.subrange(
                        r2 as int,
                        m as int,
                    ));
                    assert(suffix(v@, r2 as int).subrange(
                        (m - r2) as int,
                        suffix(v@, r2 as int).len() as int,
                    ) =~= suffix(v@, m as int));
                }
                cur2 = m;
            },
            HobbitHoleKey::Variables => {
                match x_variables(v, r2) {
                    Ok((np, vars)) => {
                        h.variables = vars;
                        cur2 = np;
                    },
                    Err(e2) => {
                        return Err(e2);
                    },
                }
            },
        }
        let cur3 = x_skip_ws(v, cur2);
        cur = cur3;
    }
}

/// Parses a whole header at `pos`.
fn x_hobbit_hole(v: &Vec<char>, pos: usize) -> (r: Result<(usize, HobbitHole), XErr>)
    requires
        pos <= v@.len(),
    ensures
        match spec_parse_hobbit_hole(suffix(v@, pos as int)) {
            SpecParsed::Done(h2, rest) => r matches Ok((np, g)) && g@ == h2 && np <= v@.len()
                && suffix(v@, np as int) == rest,
            SpecParsed::Fail => r matches Err(e) && e.over is None,
            SpecParsed::Over(l) => r matches Err(e) && e.over matches Some(t) && t@ == l,
        },
{
    proof {
        reveal_strlit("---");
    }
    let n = v.len();
    let sw = x_skip_ws(v, pos);
    let ghost swseq = suffix(v@, sw as int);
    if n - sw >= 3 && range_eq_str(v, sw, sw + 3, "---") {
        proof {
            assert(swseq.subrange(0, 3) =~= v@.subrange(sw as int, sw + 3));
            assert(crate::text::spec_starts_with(swseq, "---"@));
            assert(swseq.subrange(3, swseq.len() as int) =~= suffix(v@, sw + 3));
        }
        let start = x_skip_ws(v, sw + 3);
        x_hh_entries(v, start, HobbitHole::default())
    } else {
        proof {
            if crate::text::spec_starts_with(swseq, "---"@) {
                assert(swseq.subrange(0, 3) =~= v@.subrange(sw as int, sw + 3));
            }
        }
        Err(XErr { at: sw, over: None })
    }
}

/// Parses the body lines at `pos`.
fn x_body(v: &Vec<char>, pos: usize) -> (r: (usize, Vec<String>))
    requires
        pos <= v@.len(),
    ensures
        ({
            let (lines, rest) = spec_parse_body(Seq::<Seq<char>>::empty(), suffix(v@, pos as int));
            crate::text::views_of(r.1@) == lines && pos <= r.0 <= v@.len() && suffix(
                v@,
                r.0 as int,
            ) == rest
        }),
{
    let ghost s0 = suffix(v@, pos as int);
    let n = v.len();
    let mut acc: Vec<String> = Vec::new();
    let mut cur = pos;
    proof {
        assert(crate::text::views_of(acc@) =~= Seq::<Seq<char>>::empty());
    }
    loop
        invariant
            pos <= cur <= n,
            n == v@.len(),
            s0 == suffix(v@, pos as int),
            spec_parse_body(Seq::<Seq<char>>::empty(), s0) == spec_parse_body(
                crate::text::views_of(acc@),
                suffix(v@, cur as int),
            ),
        ensures
            cur <= n,
            n == v@.len(),
            spec_parse_body(Seq::<Seq<char>>::empty(), s0) == (
                crate::text::views_of(acc@),
                suffix(v@, cur as int),
            ),
        decreases n - cur,
    {
        let m = x_run_not2(v, cur, '|', '\n');
        if m == cur {
            break ;
        }
        let ghost prev = crate::text::views_of(acc@);
        let line = string_of_range(v, cur, m);
        acc.push(line);
        proof {
            assert(suffix(v@, cur as int).subrange(0, (m - cur) as int) =~= v@.subrange(
                cur as int,
                m as int,
            ));
            assert(suffix(v@, cur as int).subrange(
                (m - cur) as int,
                suffix(v@, cur as int).len() as int,
            ) =~= suffix(v@, m as int));
            assert(crate::text::views_of(acc@) =~= prev.push(v@.subrange(cur as int, m as int)));
        }
        cur = m;
    }
    (cur, acc)
}

/// Parses a whole file at `pos`.
fn x_file(v: &Vec<char>, pos: usize) -> (r: Result<(usize, ShireFile), XErr>)
    requires
        pos <= v@.len(),
    ensures
        match spec_parse_file(suffix(v@, pos as int)) {
            SpecParsed::Done(f, rest) => r matches Ok((np, g)) && g.hobbit@ == f.0
                && crate::text::views_of(g.body@) == f.1 && np <= v@.len() && suffix(
                v@,
                np as int,
            ) == rest,
            SpecParsed::Fail => r matches Err(e) && e.over is None,
            SpecParsed::Over(l) => r matches Err(e) && e.over matches Some(t) && t@ == l,
        },
{
    match x_hobbit_hole(v, pos) {
        Err(e) => Err(e),
        Ok((hp, hole)) => {
            let (bp, body) = x_body(v, hp);
            if body.len() == 0 {
                Err(XErr { at: hp, over: None })
            } else {
                Ok((bp, ShireFile { hobbit: hole, body }))
            }
        },
    }
}

/// An interaction value outside the recognized set, compared without
/// regard to ASCII case, always reads as `RunPanel`.
pub proof fn lemma_unknown_interaction_is_run_panel(s: Seq<char>)
    requires
        ({
            let l = spec_lower(s);
            l != "appendcursor"@ && l != "appendcursorstream"@ && l != "outputfile"@ && l
                != "replaceselection"@ && l != "replacecurrentfile"@ && l
                != "insertbeforeselection"@ && l != "runpanel"@ && l != "onpaste"@
        }),
    ensures
        spec_interaction_from(s) == InteractionType::RunPanel,
{
}

/// An action-location value outside the recognized set, compared
/// exactly, always reads as `RunPanel`.
pub proof fn lemma_unknown_location_is_run_panel(s: Seq<char>)
    requires
        s != "ContextMenu"@ && s != "IntentionMenu"@ && s != "TerminalMenu"@ && s != "CommitMenu"@
            && s != "RunPanel"@ && s != "InputBox"@,
    ensures
        spec_location_from(s) == ShireActionLocation::RunPanel,
{
}

/// Binding the same key twice keeps the later value: looking the key up
/// after two upserts finds the second value, at the first key's place.
pub proof fn lemma_last_write_wins<T>(m: Seq<(Seq<char>, T)>, k: Seq<char>, v1: T, v2: T)
    ensures
        exists|i: int|
            0 <= i < upsert(upsert(m, k, v1), k, v2).len() && #[trigger] upsert(
                upsert(m, k, v1),
                k,
                v2,
            )[i] == (k, v2) && (forall|j: int|
                0 <= j < i ==> upsert(upsert(m, k, v1), k, v2)[j].0 != k),
    decreases m.len(),
{
    let m1 = upsert(m, k, v1);
    let m2 = upsert(m1, k, v2);
    if m.len() == 0 {
        assert(m1 =~= seq![(k, v1)]);
        assert(m2 =~= seq![(k, v2)]);
        assert(m2[0] == (k, v2));
    } else if m[0].0 == k {
        assert(m1 =~= seq![(k, v1)] + m.drop_first());
        assert(m1[0].0 == k);
        assert(m2 =~= seq![(k, v2)] + m1.drop_first());
        assert(m2[0] == (k, v2));
    } else {
        assert(m1 =~= seq![m[0]] + upsert(m.drop_first(), k, v1));
        assert(m1[0] == m[0]);
        assert(m1.drop_first() =~= upsert(m.drop_first(), k, v1));
        assert(m2 =~= seq![m[0]] + upsert(m1.drop_first(), k, v2));
        lemma_last_write_wins(m.drop_first(), k, v1, v2);
        let inner = upsert(upsert(m.drop_first(), k, v1), k, v2);
        let wi = choose|i: int|
            0 <= i < inner.len() && #[trigger] inner[i] == (k, v2) && (forall|j: int|
                0 <= j < i ==> inner[j].0 != k);
        assert(m2[wi + 1] == (k, v2));
        assert(forall|j: int| 0 <= j < wi + 1 ==> m2[j].0 != k) by {
            assert(forall|j: int| 1 <= j < wi + 1 ==> m2[j] == inner[j - 1]);
        }
    }
}

// --- positions and the public face ---

/// The 1-based line of offset `at`; a count past the largest machine
/// value stays there.
pub open spec fn spec_line_of(s: Seq<char>, at: int) -> int
    decreases at,
{
    if at <= 0 {
        1
    } else if s[at - 1] == '\n' {
        let l = spec_line_of(s, at - 1);
        if l < usize::MAX {
            l + 1
        } else {
            l
        }
    } else {
        spec_line_of(s, at - 1)
    }
}

/// The 1-based column of offset `at`; a count past the largest machine
/// value stays there.
pub open spec fn spec_col_of(s: Seq<char>, at: int) -> int
    decreases at,
{
    if at <= 0 {
        1
    } else if s[at - 1] == '\n' {
        1
    } else {
        let c = spec_col_of(s, at - 1);
        if c < usize::MAX {
            c + 1
        } else {
            c
        }
    }
}

proof fn lemma_line_col_bounds(s: Seq<char>, at: int)
    requires
        at >= 0,
    ensures
        1 <= spec_line_of(s, at) <= usize::MAX,
        1 <= spec_col_of(s, at) <= usize::MAX,
    decreases at,
{
    if at > 0 {
        lemma_line_col_bounds(s, at - 1);
    }
}

/// Turns an internal failure into the public error, with its offset read
/// as line and column; an offset past the end reads as the end.
fn make_error(v: &Vec<char>, e: XErr) -> (r: ParseError)
    ensures
        ({
            let at = if e.at as int <= v@.len() {
                e.at as int
            } else {
                v@.len() as int
            };
            r.line == spec_line_of(v@, at) && r.column == spec_col_of(v@, at)
        }),
        match e.over {
            Some(t) => r.kind matches ParseErrorKind::IntegerOverflow(l) && l@ == t@,
            None => r.kind is Syntax,
        },
{
    let n = v.len();
    let at = if e.at <= n {
        e.at
    } else {
        n
    };
    let mut line: usize = 1;
    let mut col: usize = 1;
    let mut i: usize = 0;
    while i < at
        invariant
            i <= at <= v@.len(),
            line == spec_line_of(v@, i as int),
            col == spec_col_of(v@, i as int),
        decreases at - i,
    {
        proof {
            lemma_line_col_bounds(v@, i as int);
        }
        if v[i] == '\n' {
            if line < usize::MAX {
                line += 1;
            }
            col = 1;
        } else {
            if col < usize::MAX {
                col += 1;
            }
        }
        i += 1;
    }
    let kind = match e.over {
        Some(t) => ParseErrorKind::IntegerOverflow(t),
        None => ParseErrorKind::Syntax,
    };
    ParseError { line, column: col, kind }
}

impl ParseError {
    /// A short description of the failure.
    pub fn message(&self) -> (r: String)
        ensures
            self.kind is Syntax ==> r@ == "syntax error"@,
            self.kind is IntegerOverflow ==> r@ == "integer literal out of range"@,
    {
        match self.kind {
            ParseErrorKind::Syntax => String::from_str("syntax error"),
            ParseErrorKind::IntegerOverflow(_) => String::from_str("integer literal out of range"),
        }
    }
}

/// An unquoted run: one or more characters that are neither `|` nor a
/// newline. The first of the lexical entry points; each takes source text
/// and, on success, hands back the remaining input with the parsed value.
pub fn parse_string(input: &str) -> (r: Result<(String, String), ParseError>)
    ensures
        ({
            let m = run_len(input@, |c: char| c != '|' && c != '\n') as int;
            if m == 0 {
                r matches Err(pe) && pe.kind is Syntax
            } else {
                r matches Ok((rem, t)) && t@ == input@.subrange(0, m) && rem@ == input@.subrange(
                    m,
                    input@.len() as int,
                )
            }
        }),
{
    let v = chars_of(input);
    let m = x_run_not2(&v, 0, '|', '\n');
    proof {
        assert(suffix(v@, 0) =~= input@);
    }
    if m == 0 {
        Err(make_error(&v, XErr { at: 0, over: None }))
    } else {
        let t = string_of_range(&v, 0, m);
        let rem = string_of_range(&v, m, v.len());
        Ok((rem, t))
    }
}

/// A quoted string literal.
pub fn parse_quoted_string(input: &str) -> (r: Result<(String, String), ParseError>)
    ensures
        match spec_parse_quoted(input@) {
            Some((t, rest)) => r matches Ok((rem, g)) && g@ == t && rem@ == rest,
            None => r matches Err(pe) && pe.kind is Syntax,
        },
{
    let v = chars_of(input);
    proof {
        assert(suffix(v@, 0) =~= input@);
    }
    match x_quoted(&v, 0) {
        Some((np, t)) => {
            let rem = string_of_range(&v, np, v.len());
            proof {
                assert(suffix(v@, np as int) =~= v@.subrange(np as int, v@.len() as int));
            }
            Ok((rem, t))
        },
        None => Err(make_error(&v, XErr { at: 0, over: None })),
    }
}

/// One named function with its optional argument list.
pub fn parse_function(input: &str) -> (r: Result<(String, (String, Vec<String>)), ParseError>)
    ensures
        match spec_parse_function(input@) {
            Some((f, rest)) => r matches Ok((rem, g)) && g.0@ == f.0 && crate::text::views_of(
                g.1@,
            ) == f.1 && rem@ == rest,
            None => r matches Err(pe) && pe.kind is Syntax,
        },
{
    let v = chars_of(input);
    proof {
        assert(suffix(v@, 0) =~= input@);
    }
    match x_function(&v, 0) {
        Some((np, f)) => {
            let rem = string_of_range(&v, np, v.len());
            Ok((rem, f))
        },
        None => Err(make_error(&v, XErr { at: 0, over: None })),
    }
}

/// What a parsed pattern action denotes.
pub open spec fn spec_pattern_action_vt(pat: Seq<char>, fns: SpecPipeline) -> SpecVariableTransform {
    SpecVariableTransform::PatternAction { pattern: pat, command: fns }
}

/// A pattern-action rule such as
/// `/.*.java/ { grep("error.log") | sort | xargs("rm") }`.
pub fn parse_pattern_actions(input: &str) -> (r: Result<(String, VariableTransform), ParseError>)
    ensures
        match spec_parse_pattern_action(input@) {
            Some((pa, rest)) => r matches Ok((rem, vt)) && vt@ == spec_pattern_action_vt(
                pa.0,
                pa.1,
            ) && rem@ == rest,
            None => r matches Err(pe) && pe.kind is Syntax,
        },
{
    let v = chars_of(input);
    proof {
        assert(suffix(v@, 0) =~= input@);
    }
    match x_pattern_action(&v, 0) {
        Some((np, (pat, fns))) => {
            let rem = string_of_range(&v, np, v.len());
            Ok((rem, VariableTransform::PatternAction {
                pattern: pat,
                command: Function::Functions(fns),
            }))
        },
        None => Err(make_error(&v, XErr { at: 0, over: None })),
    }
}

/// A case block: a regex, quoted keys each with one function, and an
/// optional `default` arm.
pub fn parse_case_block(input: &str) -> (r: Result<(String, VariableTransform), ParseError>)
    ensures
        match spec_parse_case_block(input@) {
            Some((cb, rest)) => r matches Ok((rem, vt)) && rem@ == rest && vt@
                == (SpecVariableTransform::Case {
                pattern: cb.0,
                cases: cb.1.map_values(
                    |e: (Seq<char>, (Seq<char>, Seq<Seq<char>>))| (
                        e.0,
                        SpecVariableTransform::Action { command: seq![e.1] },
                    ),
                ),
                default: match cb.2 {
                    Some(f) => Some(seq![f]),
                    None => None,
                },
            }),
            None => r matches Err(pe) && pe.kind is Syntax,
        },
{
    let v = chars_of(input);
    proof {
        assert(suffix(v@, 0) =~= input@);
    }
    match x_case_block(&v, 0) {
        Some((np, (pat, entries, default))) => {
            let vt = build_case(pat, entries, default);
            let rem = string_of_range(&v, np, v.len());
            Ok((rem, vt))
        },
        None => Err(make_error(&v, XErr { at: 0, over: None })),
    }
}

/// A decimal integer literal, optionally signed, within the 32-bit
/// signed range; outside it, the overflow error carries the literal.
pub fn parse_integer(input: &str) -> (r: Result<(String, i32), ParseError>)
    ensures
        match spec_parse_integer(input@) {
            SpecParsed::Done(i, rest) => r matches Ok((rem, x)) && x == i && rem@ == rest,
            SpecParsed::Fail => r matches Err(pe) && pe.kind is Syntax,
            SpecParsed::Over(l) => r matches Err(pe) && pe.kind matches
                ParseErrorKind::IntegerOverflow(t) && t@ == l,
        },
{
    let v = chars_of(input);
    proof {
        assert(suffix(v@, 0) =~= input@);
    }
    match x_integer(&v, 0) {
        Ok((np, x)) => {
            let rem = string_of_range(&v, np, v.len());
            Ok((rem, x))
        },
        Err(e) => Err(make_error(&v, e)),
    }
}

/// The right-hand side of a variables entry.
pub fn parse_variable_value(input: &str) -> (r: Result<(String, VariableTransform), ParseError>)
    ensures
        match spec_parse_variable_value(input@) {
            SpecParsed::Done(vt, rest) => r matches Ok((rem, g)) && g@ == vt && rem@ == rest,
            SpecParsed::Fail => r matches Err(pe) && pe.kind is Syntax,
            SpecParsed::Over(l) => r matches Err(pe) && pe.kind matches
                ParseErrorKind::IntegerOverflow(t) && t@ == l,
        },
{
    let v = chars_of(input);
    proof {
        assert(suffix(v@, 0) =~= input@);
    }
    match x_variable_value(&v, 0) {
        Ok((np, vt)) => {
            let rem = string_of_range(&v, np, v.len());
            Ok((rem, vt))
        },
        Err(e) => Err(make_error(&v, e)),
    }
}

/// One `"key": value` entry.
pub fn parse_variable(input: &str) -> (r: Result<
    (String, (String, VariableTransform)),
    ParseError,
>)
    ensures
        match spec_parse_variable(input@) {
            SpecParsed::Done(kv, rest) => r matches Ok((rem, g)) && g.0@ == kv.0 && g.1@ == kv.1
                && rem@ == rest,
            SpecParsed::Fail => r matches Err(pe) && pe.kind is Syntax,
            SpecParsed::Over(l) => r matches Err(pe) && pe.kind matches
                ParseErrorKind::IntegerOverflow(t) && t@ == l,
        },
{
    let v = chars_of(input);
    proof {
        assert(suffix(v@, 0) =~= input@);
    }
    match x_variable(&v, 0) {
        Ok((np, kv)) => {
            let rem = string_of_range(&v, np, v.len());
            Ok((rem, kv))
        },
        Err(e) => Err(make_error(&v, e)),
    }
}

/// Whether the input opens with a `---` fence, surrounding whitespace
/// consumed.
pub open spec fn spec_parse_fence(s: Seq<char>) -> Option<Seq<char>> {
    let sw = skip_ws(s);
    if crate::text::spec_starts_with(sw, "---"@) {
        Some(skip_ws(sw.subrange(3, sw.len() as int)))
    } else {
        None
    }
}

fn x_fence(v: &Vec<char>, pos: usize) -> (r: Option<usize>)
    requires
        pos <= v@.len(),
    ensures
        match spec_parse_fence(suffix(v@, pos as int)) {
            Some(rest) => r matches Some(np) && pos <= np <= v@.len() && suffix(v@, np as int)
                == rest,
            None => r is None,
        },
{
    proof {
        reveal_strlit("---");
    }
    let n = v.len();
    let sw = x_skip_ws(v, pos);
    let ghost swseq = suffix(v@, sw as int);
    if n - sw >= 3 && range_eq_str(v, sw, sw + 3, "---") {
        proof {
            assert(swseq.subrange(0, 3) =~= v@.subrange(sw as int, sw + 3));
            assert(crate::text::spec_starts_with(swseq, "---"@));
            assert(swseq.subrange(3, swseq.len() as int) =~= suffix(v@, sw + 3));
        }
        Some(x_skip_ws(v, sw + 3))
    } else {
        proof {
            if crate::text::spec_starts_with(swseq, "---"@) {
                assert(swseq.subrange(0, 3) =~= v@.subrange(sw as int, sw + 3));
            }
        }
        None
    }
}

/// The opening `---` fence.
pub fn parse_frontmatter_start(input: &str) -> (r: Result<String, ParseError>)
    ensures
        match spec_parse_fence(input@) {
            Some(rest) => r matches Ok(rem) && rem@ == rest,
            None => r matches Err(pe) && pe.kind is Syntax,
        },
{
    let v = chars_of(input);
    proof {
        assert(suffix(v@, 0) =~= input@);
    }
    match x_fence(&v, 0) {
        Some(np) => Ok(string_of_range(&v, np, v.len())),
        None => Err(make_error(&v, XErr { at: 0, over: None })),
    }
}

/// The closing `---` fence; the same shape as the opening one.
pub fn parse_frontmatter_end(input: &str) -> (r: Result<String, ParseError>)
    ensures
        match spec_parse_fence(input@) {
            Some(rest) => r matches Ok(rem) && rem@ == rest,
            None => r matches Err(pe) && pe.kind is Syntax,
        },
{
    parse_frontmatter_start(input)
}

/// A whole header between two fences.
pub fn parse_hobbit_hole(input: &str) -> (r: Result<(String, HobbitHole), ParseError>)
    ensures
        match spec_parse_hobbit_hole(input@) {
            SpecParsed::Done(h, rest) => r matches Ok((rem, g)) && g@ == h && rem@ == rest,
            SpecParsed::Fail => r matches Err(pe) && pe.kind is Syntax,
            SpecParsed::Over(l) => r matches Err(pe) && pe.kind matches
                ParseErrorKind::IntegerOverflow(t) && t@ == l,
        },
{
    let v = chars_of(input);
    proof {
        assert(suffix(v@, 0) =~= input@);
    }
    match x_hobbit_hole(&v, 0) {
        Ok((np, h)) => {
            let rem = string_of_range(&v, np, v.len());
            Ok((rem, h))
        },
        Err(e) => Err(make_error(&v, e)),
    }
}

/// A whole file: the header, then at least one body line.
pub fn parse_file(input: &str) -> (r: Result<(String, ShireFile), ParseError>)
    ensures
        match spec_parse_file(input@) {
            SpecParsed::Done(f, rest) => r matches Ok((rem, g)) && g.hobbit@ == f.0
                && crate::text::views_of(g.body@) == f.1 && rem@ == rest,
            SpecParsed::Fail => r matches Err(pe) && pe.kind is Syntax,
            SpecParsed::Over(l) => r matches Err(pe) && pe.kind matches
                ParseErrorKind::IntegerOverflow(t) && t@ == l,
        },
{
    let v = chars_of(input);
    proof {
        assert(suffix(v@, 0) =~= input@);
    }
    match x_file(&v, 0) {
        Ok((np, f)) => {
            let rem = string_of_range(&v, np, v.len());
            Ok((rem, f))
        },
        Err(e) => Err(make_error(&v, e)),
    }
}

// --- the closed enumerations ---

impl InteractionType {
    /// What this interaction does, in words.
    pub fn description(&self) -> (r: &'static str)
        ensures
            r@ == spec_interaction_description(*self),
    {
        match self {
            InteractionType::AppendCursor => "Append content at the current cursor position",
            InteractionType::AppendCursorStream => "Append content at the current cursor position, stream output",
            InteractionType::OutputFile => "Output to a new file",
            InteractionType::ReplaceSelection => "Replace the currently selected content",
            InteractionType::ReplaceCurrentFile => "Replace the content of the current file",
            InteractionType::InsertBeforeSelection => "Insert content before the currently selected content",
            InteractionType::RunPanel => "Show Result in Run panel which is the bottom of the IDE",
            InteractionType::OnPaste => "Copy the content to the clipboard",
        }
    }

    /// The interaction a value names, without regard to ASCII case;
    /// anything unrecognized reads as `RunPanel`.
    pub fn from(interaction: &str) -> (r: InteractionType)
        ensures
            r == spec_interaction_from(interaction@),
    {
        let v = chars_of(interaction);
        let n = v.len();
        proof {
            assert(v@.subrange(0, n as int) =~= interaction@);
        }
        x_interaction_from(&v, 0, n)
    }
}

/// What each interaction does, in words.
pub open spec fn spec_interaction_description(i: InteractionType) -> Seq<char> {
    match i {
        InteractionType::AppendCursor => "Append content at the current cursor position"@,
        InteractionType::AppendCursorStream => "Append content at the current cursor position, stream output"@,
        InteractionType::OutputFile => "Output to a new file"@,
        InteractionType::ReplaceSelection => "Replace the currently selected content"@,
        InteractionType::ReplaceCurrentFile => "Replace the content of the current file"@,
        InteractionType::InsertBeforeSelection => "Insert content before the currently selected content"@,
        InteractionType::RunPanel => "Show Result in Run panel which is the bottom of the IDE"@,
        InteractionType::OnPaste => "Copy the content to the clipboard"@,
    }
}

/// The canonical name of each action location.
pub open spec fn spec_location_name(a: ShireActionLocation) -> Seq<char> {
    match a {
        ShireActionLocation::ContextMenu => "ContextMenu"@,
        ShireActionLocation::IntentionMenu => "IntentionMenu"@,
        ShireActionLocation::TerminalMenu => "TerminalMenu"@,
        ShireActionLocation::CommitMenu => "CommitMenu"@,
        ShireActionLocation::RunPanel => "RunPanel"@,
        ShireActionLocation::InputBox => "InputBox"@,
    }
}

/// Where each action location shows, in words.
pub open spec fn spec_location_description(a: ShireActionLocation) -> Seq<char> {
    match a {
        ShireActionLocation::ContextMenu => "Show in Context Menu by Right Click"@,
        ShireActionLocation::IntentionMenu => "Show in Intention Menu by Alt+Enter"@,
        ShireActionLocation::TerminalMenu => "Show in Terminal panel menu bar"@,
        ShireActionLocation::CommitMenu => "Show in Commit panel menu bar"@,
        ShireActionLocation::RunPanel => "Show in Run panel which is the bottom of the IDE"@,
        ShireActionLocation::InputBox => "Show in Input Box"@,
    }
}

impl ShireActionLocation {
    /// The canonical name of this location.
    pub fn location(&self) -> (r: &'static str)
        ensures
            r@ == spec_location_name(*self),
    {
        match self {
            ShireActionLocation::ContextMenu => "ContextMenu",
            ShireActionLocation::IntentionMenu => "IntentionMenu",
            ShireActionLocation::TerminalMenu => "TerminalMenu",
            ShireActionLocation::CommitMenu => "CommitMenu",
            ShireActionLocation::RunPanel => "RunPanel",
            ShireActionLocation::InputBox => "InputBox",
        }
    }

    /// Where this location shows, in words.
    pub fn description(&self) -> (r: &'static str)
        ensures
            r@ == spec_location_description(*self),
    {
        match self {
            ShireActionLocation::ContextMenu => "Show in Context Menu by Right Click",
            ShireActionLocation::IntentionMenu => "Show in Intention Menu by Alt+Enter",
            ShireActionLocation::TerminalMenu => "Show in Terminal panel menu bar",
            ShireActionLocation::CommitMenu => "Show in Commit panel menu bar",
            ShireActionLocation::RunPanel => "Show in Run panel which is the bottom of the IDE",
            ShireActionLocation::InputBox => "Show in Input Box",
        }
    }

    /// The location a value names, compared exactly; anything
    /// unrecognized reads as `RunPanel`.
    pub fn from(action_location: &str) -> (r: ShireActionLocation)
        ensures
            r == spec_location_from(action_location@),
    {
        let v = chars_of(action_location);
        let n = v.len();
        proof {
            assert(v@.subrange(0, n as int) =~= action_location@);
        }
        x_location_from(&v, 0, n)
    }

    /// Every location, in declaration order.
    pub fn all() -> (r: Vec<ShireActionLocation>)
        ensures
            r@ == seq![
                ShireActionLocation::ContextMenu,
                ShireActionLocation::IntentionMenu,
                ShireActionLocation::TerminalMenu,
                ShireActionLocation::CommitMenu,
                ShireActionLocation::RunPanel,
                ShireActionLocation::InputBox,
            ],
    {
        let mut r: Vec<ShireActionLocation> = Vec::new();
        r.push(ShireActionLocation::ContextMenu);
        r.push(ShireActionLocation::IntentionMenu);
        r.push(ShireActionLocation::TerminalMenu);
        r.push(ShireActionLocation::CommitMenu);
        r.push(ShireActionLocation::RunPanel);
        r.push(ShireActionLocation::InputBox);
        proof {
            assert(r@ =~= seq![
                ShireActionLocation::ContextMenu,
                ShireActionLocation::IntentionMenu,
                ShireActionLocation::TerminalMenu,
                ShireActionLocation::CommitMenu,
                ShireActionLocation::RunPanel,
                ShireActionLocation::InputBox,
            ]);
        }
        r
    }

    /// The name of the location an "all"-listing starts from.
    pub fn default() -> (r: &'static str)
        ensures
            r@ == spec_location_name(ShireActionLocation::ContextMenu),
    {
        ShireActionLocation::ContextMenu.location()
    }
}

impl HobbitHoleKey {
    /// The key a header identifier names; anything unrecognized reads as
    /// `Name`.
    pub fn from(key: &str) -> (r: HobbitHoleKey)
        ensures
            r == spec_key_kind(key@),
    {
        let v = chars_of(key);
        let n = v.len();
        proof {
            assert(v@.subrange(0, n as int) =~= key@);
        }
        x_key_kind(&v, 0, n)
    }
}

/// A run of characters that are neither `a` nor `b`.
fn x_run_not2(v: &Vec<char>, pos: usize, a: char, b: char) -> (np: usize)
    requires
        pos <= v@.len(),
    ensures
        pos <= np <= v@.len(),
        np == pos + run_len(suffix(v@, pos as int), |c: char| c != a && c != b),
    decreases v@.len() - pos,
{
    let ghost s = suffix(v@, pos as int);
    let n = v.len();
    if pos < n && v[pos] != a && v[pos] != b {
        proof {
            assert(s[0] == v@[pos as int]);
            assert(s.drop_first() =~= suffix(v@, pos + 1));
        }
        x_run_not2(v, pos + 1, a, b)
    } else {
        proof {
            if pos < n {
                assert(s[0] == v@[pos as int]);
            }
        }
        pos
    }
}

} // verus!
