//! The canonical source text of a header record, and the laws tying the
//! renderers to the parser: rendered text parses back to the value it
//! came from.

use vstd::prelude::*;
use crate::parser::Function;
use crate::parser::HobbitHole;
use crate::parser::InteractionType;
use crate::parser::ShireActionLocation;
use crate::parser::SpecHobbitHole;
use crate::parser::SpecPipeline;
use crate::parser::SpecVariableTransform;
use crate::parser::VariableTransform;
use crate::parser::fun_view;
use crate::parser::vt_view;
use crate::parser::spec_location_name;
use crate::parser::spec_default_hole;
use crate::parser::vt_entries_view;
use crate::parser::lemma_vt_entries_view_index;
use crate::parser::run_len;
use crate::parser::skip_ws;
use crate::parser::lemma_run_len;
use crate::parser::lemma_run_len_concat;
use crate::parser::spec_parse_quoted;
use crate::parser::spec_parse_regex;
use crate::parser::spec_parse_args;
use crate::parser::spec_parse_args_rest;
use crate::parser::spec_parse_function;
use crate::parser::spec_parse_pipeline;
use crate::parser::spec_parse_pipeline_rest;
use crate::numbers::spec_i32_text;
use crate::numbers::i32_chars;
use crate::text::is_ident_char;
use crate::text::is_ws_char;
use crate::text::spec_join;
use crate::text::spec_quoted;
use crate::text::string_of;

verus! {

/// The canonical name of each interaction.
pub open spec fn spec_interaction_name(i: InteractionType) -> Seq<char> {
    match i {
        InteractionType::AppendCursor => "AppendCursor"@,
        InteractionType::AppendCursorStream => "AppendCursorStream"@,
        InteractionType::OutputFile => "OutputFile"@,
        InteractionType::ReplaceSelection => "ReplaceSelection"@,
        InteractionType::ReplaceCurrentFile => "ReplaceCurrentFile"@,
        InteractionType::InsertBeforeSelection => "InsertBeforeSelection"@,
        InteractionType::RunPanel => "RunPanel"@,
        InteractionType::OnPaste => "OnPaste"@,
    }
}

/// One function as source text: the name, and the quoted arguments when
/// there are any.
pub open spec fn spec_render_function(f: (Seq<char>, Seq<Seq<char>>)) -> Seq<char> {
    if f.1.len() == 0 {
        f.0
    } else {
        f.0 + "("@ + spec_join(f.1.map_values(|a: Seq<char>| spec_quoted(a)), ","@) + ")"@
    }
}

/// A pipeline as source text: functions joined with ` | `.
pub open spec fn spec_render_pipeline(fns: SpecPipeline) -> Seq<char> {
    spec_join(fns.map_values(|f: (Seq<char>, Seq<Seq<char>>)| spec_render_function(f)), " | "@)
}

/// The arms of a case block as source text, the optional default arm
/// last.
pub open spec fn spec_render_case_inner(
    cases: Seq<(Seq<char>, SpecVariableTransform)>,
    default: Option<SpecPipeline>,
) -> Seq<char> {
    let arms = cases.map_values(
        |e: (Seq<char>, SpecVariableTransform)| spec_quoted(e.0) + " "@ + (match e.1 {
            SpecVariableTransform::Action { command } => if command.len() == 1 {
                spec_render_function(command[0])
            } else {
                Seq::<char>::empty()
            },
            _ => Seq::<char>::empty(),
        }),
    );
    let all = match default {
        Some(d) => if d.len() == 1 {
            arms.push("default "@ + spec_render_function(d[0]))
        } else {
            arms
        },
        None => arms,
    };
    spec_join(all, " "@)
}

/// A variable transform as source text.
pub open spec fn spec_render_vt(vt: SpecVariableTransform) -> Seq<char> {
    match vt {
        SpecVariableTransform::Str(t) => spec_quoted(t),
        SpecVariableTransform::Int(i) => spec_i32_text(i as int),
        SpecVariableTransform::PatternAction { pattern, command } => "/"@ + pattern + "/ { "@
            + spec_render_pipeline(command) + " }"@,
        SpecVariableTransform::Action { command } => spec_render_pipeline(command),
        SpecVariableTransform::Case { pattern, cases, default } => "/"@ + pattern + "/ { "@
            + spec_render_case_inner(cases, default) + " }"@,
    }
}

/// The variables entries as source text, one indented line each.
pub open spec fn spec_render_var_entries(s: Seq<(Seq<char>, SpecVariableTransform)>) -> Seq<char>
    decreases s.len(),
{
    if s.len() == 0 {
        Seq::<char>::empty()
    } else {
        spec_render_var_entries(s.subrange(0, s.len() - 1)) + "  "@ + spec_quoted(
            s[s.len() - 1].0,
        ) + ": "@ + spec_render_vt(s[s.len() - 1].1) + "\n"@
    }
}

/// A header record as source text: the fences, and one line for each
/// field that is set.
pub open spec fn spec_render_hole(h: SpecHobbitHole) -> Seq<char> {
    "---\n"@ + (if h.name.len() > 0 {
        "name: "@ + spec_quoted(h.name) + "\n"@
    } else {
        Seq::<char>::empty()
    }) + (match h.description {
        Some(d) => "description: "@ + d + "\n"@,
        None => Seq::<char>::empty(),
    }) + (match h.interaction {
        Some(i) => "interaction: "@ + spec_interaction_name(i) + "\n"@,
        None => Seq::<char>::empty(),
    }) + (match h.action_location {
        Some(a) => "actionLocation: "@ + spec_location_name(a) + "\n"@,
        None => Seq::<char>::empty(),
    }) + (if h.variables.len() > 0 {
        "variables:\n"@ + spec_render_var_entries(h.variables)
    } else {
        Seq::<char>::empty()
    }) + "---"@
}

// --- executable renderers ---

fn render_function(f: &(String, Vec<String>)) -> (r: String)
    ensures
        r@ == spec_render_function((f.0@, crate::text::views_of(f.1@))),
{
    let ghost fv = (f.0@, crate::text::views_of(f.1@));
    let mut r = String::new();
    r.append(f.0.as_str());
    if f.1.len() > 0 {
        r.append("(");
        let mid = crate::text::quoted_join(&f.1, ",");
        r.append(mid.as_str());
        r.append(")");
        proof {
            assert(fv.1.map_values(|a: Seq<char>| spec_quoted(a)) =~= f.1@.map_values(
                |s2: String| spec_quoted(s2@),
            ));
        }
    } else {
        proof {
            assert(crate::text::views_of(f.1@).len() == 0);
        }
    }
    r
}

/// A pipeline of functions as source text.
fn render_pipeline(fns: &Vec<(String, Vec<String>)>) -> (r: String)
    ensures
        r@ == spec_render_pipeline(crate::parser::pipe_views(fns@)),
{
    let mut parts: Vec<String> = Vec::new();
    let n = fns.len();
    let mut i: usize = 0;
    while i < n
        invariant
            n == fns@.len(),
            i <= n,
            parts@.len() == i,
            forall|j: int|
                0 <= j < i ==> (#[trigger] parts@[j])@ == spec_render_function(
                    (fns@[j].0@, crate::text::views_of(fns@[j].1@)),
                ),
        decreases n - i,
    {
        parts.push(render_function(&fns[i]));
        i += 1;
    }
    let r = crate::text::join_with(&parts, " | ");
    proof {
        assert(crate::text::views_of(parts@) =~= crate::parser::pipe_views(fns@).map_values(
            |f: (Seq<char>, Seq<Seq<char>>)| spec_render_function(f),
        ));
    }
    r
}

/// A variable transform as source text.
pub fn render_variable_value(vt: &VariableTransform) -> (r: String)
    ensures
        r@ == spec_render_vt(vt@),
    decreases *vt,
{
    match vt {
        VariableTransform::String(t) => {
            let mut r = String::new();
            r.append("\"");
            r.append(t.as_str());
            r.append("\"");
            proof {
                reveal_strlit("\"");
                assert(r@ =~= spec_quoted(t@));
            }
            r
        },
        VariableTransform::Integer(i) => {
            let chars = i32_chars(*i);
            string_of(&chars)
        },
        VariableTransform::PatternAction { pattern, command } => {
            let mut r = String::new();
            r.append("/");
            r.append(pattern.as_str());
            r.append("/ { ");
            match command {
                Function::Functions(fns) => {
                    let mid = render_pipeline(fns);
                    r.append(mid.as_str());
                },
            }
            r.append(" }");
            r
        },
        VariableTransform::Action { command } => {
            match command {
                Function::Functions(fns) => render_pipeline(fns),
            }
        },
        VariableTransform::Case { pattern, cases, default } => {
            let mut parts: Vec<String> = Vec::new();
            let n = cases.len();
            let mut i: usize = 0;
            while i < n
                invariant
                    n == cases@.len(),
                    i <= n,
                    parts@.len() == i,
                    forall|j: int|
                        0 <= j < i ==> (#[trigger] parts@[j])@ == spec_quoted(cases@[j].0@) + " "@
                            + (match vt_view(cases@[j].1) {
                            SpecVariableTransform::Action { command } => if command.len() == 1 {
                                spec_render_function(command[0])
                            } else {
                                Seq::<char>::empty()
                            },
                            _ => Seq::<char>::empty(),
                        }),
                decreases n - i,
            {
                let mut t = String::new();
                t.append("\"");
                t.append(cases[i].0.as_str());
                t.append("\"");
                t.append(" ");
                match &cases[i].1 {
                    VariableTransform::Action { command: Function::Functions(fns) } => {
                        if fns.len() == 1 {
                            let ft = render_function(&fns[0]);
                            t.append(ft.as_str());
                            proof {
                                assert(fun_view(Function::Functions(*fns))
                                    =~= crate::parser::pipe_views(fns@));
                                assert(crate::parser::pipe_views(fns@)[0] == (fns@[0].0@,
                                crate::text::views_of(fns@[0].1@)));
                            }
                        }
                    },
                    _ => {},
                }
                proof {
                    reveal_strlit("\"");
                    assert(t@ =~= spec_quoted(cases@[i as int].0@) + " "@ + (match vt_view(
                        cases@[i as int].1,
                    ) {
                        SpecVariableTransform::Action { command } => if command.len() == 1 {
                            spec_render_function(command[0])
                        } else {
                            Seq::<char>::empty()
                        },
                        _ => Seq::<char>::empty(),
                    }));
                }
                parts.push(t);
                i += 1;
            }
            match default {
                Some(Function::Functions(fns)) => {
                    if fns.len() == 1 {
                        let mut t = String::new();
                        t.append("default ");
                        let ft = render_function(&fns[0]);
                        t.append(ft.as_str());
                        proof {
                            assert(fun_view(Function::Functions(*fns)) =~= crate::parser::pipe_views(
                                fns@,
                            ));
                            assert(crate::parser::pipe_views(fns@)[0] == (fns@[0].0@,
                            crate::text::views_of(fns@[0].1@)));
                        }
                        parts.push(t);
                    }
                },
                None => {},
            }
            let mut r = String::new();
            r.append("/");
            r.append(pattern.as_str());
            r.append("/ { ");
            let mid = crate::text::join_with(&parts, " ");
            r.append(mid.as_str());
            r.append(" }");
            proof {
                lemma_vt_entries_view_index(cases@);
                let sc = vt_entries_view(cases@);
                let sd = crate::parser::opt_fun_view(*default);
                let arms = sc.map_values(
                    |e: (Seq<char>, SpecVariableTransform)| spec_quoted(e.0) + " "@ + (match e.1 {
                        SpecVariableTransform::Action { command } => if command.len() == 1 {
                            spec_render_function(command[0])
                        } else {
                            Seq::<char>::empty()
                        },
                        _ => Seq::<char>::empty(),
                    }),
                );
                assert(crate::text::views_of(parts@) =~= (match sd {
                    Some(d) => if d.len() == 1 {
                        arms.push("default "@ + spec_render_function(d[0]))
                    } else {
                        arms
                    },
                    None => arms,
                }));
            }
            r
        },
    }
}

/// The variables entries as one indented line each.
fn render_var_entries(vars: &Vec<(String, VariableTransform)>) -> (r: String)
    ensures
        r@ == spec_render_var_entries(vt_entries_view(vars@)),
{
    let mut r = String::new();
    let n = vars.len();
    let mut i: usize = 0;
    proof {
        assert(vt_entries_view(vars@).subrange(0, 0) =~= Seq::<
            (Seq<char>, SpecVariableTransform),
        >::empty());
    }
    while i < n
        invariant
            n == vars@.len(),
            i <= n,
            r@ == spec_render_var_entries(vt_entries_view(vars@).subrange(0, i as int)),
        decreases n - i,
    {
        r.append("  ");
        r.append("\"");
        r.append(vars[i].0.as_str());
        r.append("\"");
        r.append(": ");
        let val = render_variable_value(&vars[i].1);
        r.append(val.as_str());
        r.append("\n");
        proof {
            reveal_strlit("\"");
            lemma_vt_entries_view_index(vars@);
            let sv = vt_entries_view(vars@);
            assert(sv.subrange(0, i + 1).subrange(0, i as int) =~= sv.subrange(0, i as int));
            assert(sv.subrange(0, i + 1)[i as int] == sv[i as int]);
            assert(r@ =~= spec_render_var_entries(sv.subrange(0, i + 1)));
        }
        i += 1;
    }
    proof {
        assert(vt_entries_view(vars@).subrange(0, vt_entries_view(vars@).len() as int)
            =~= vt_entries_view(vars@));
        lemma_vt_entries_view_index(vars@);
    }
    r
}

/// A header record as the canonical source text `parse_hobbit_hole`
/// accepts.
pub fn render_hobbit_hole(h: &HobbitHole) -> (r: String)
    ensures
        r@ == spec_render_hole(h@),
{
    let seg_name: String = if !h.name.as_str().is_empty() {
        let mut t = String::new();
        t.append("name: ");
        t.append("\"");
        t.append(h.name.as_str());
        t.append("\"");
        t.append("\n");
        proof {
            reveal_strlit("\"");
            assert(t@ =~= "name: "@ + spec_quoted(h.name@) + "\n"@);
        }
        t
    } else {
        String::new()
    };
    let seg_desc: String = match &h.description {
        Some(d) => {
            let mut t = String::new();
            t.append("description: ");
            t.append(d.as_str());
            t.append("\n");
            t
        },
        None => String::new(),
    };
    let seg_inter: String = match &h.interaction {
        Some(i) => {
            let mut t = String::new();
            t.append("interaction: ");
            t.append(
                match i {
                    InteractionType::AppendCursor => "AppendCursor",
                    InteractionType::AppendCursorStream => "AppendCursorStream",
                    InteractionType::OutputFile => "OutputFile",
                    InteractionType::ReplaceSelection => "ReplaceSelection",
                    InteractionType::ReplaceCurrentFile => "ReplaceCurrentFile",
                    InteractionType::InsertBeforeSelection => "InsertBeforeSelection",
                    InteractionType::RunPanel => "RunPanel",
                    InteractionType::OnPaste => "OnPaste",
                },
            );
            t.append("\n");
            t
        },
        None => String::new(),
    };
    let seg_loc: String = match &h.action_location {
        Some(a) => {
            let mut t = String::new();
            t.append("actionLocation: ");
            t.append(a.location());
            t.append("\n");
            t
        },
        None => String::new(),
    };
    let seg_vars: String = if h.variables.len() > 0 {
        let mut t = String::new();
        t.append("variables:\n");
        let entries = render_var_entries(&h.variables);
        t.append(entries.as_str());
        t
    } else {
        String::new()
    };
    let mut r = String::new();
    r.append("---\n");
    r.append(seg_name.as_str());
    r.append(seg_desc.as_str());
    r.append(seg_inter.as_str());
    r.append(seg_loc.as_str());
    r.append(seg_vars.as_str());
    r.append("---");
    r
}

// --- round-trip laws, token layer ---

/// Text that starts with no whitespace keeps itself under `skip_ws`.
pub proof fn lemma_skip_ws_id(s: Seq<char>)
    requires
        s.len() == 0 || !is_ws_char(s[0]),
    ensures
        skip_ws(s) == s,
{
    assert(run_len(s, |c: char| is_ws_char(c)) == 0);
    assert(s.subrange(0, s.len() as int) =~= s);
}

/// `skip_ws` drops exactly an all-whitespace prefix.
pub proof fn lemma_skip_ws_concat(a: Seq<char>, b: Seq<char>)
    requires
        forall|j: int| 0 <= j < a.len() ==> is_ws_char(#[trigger] a[j]),
        b.len() == 0 || !is_ws_char(b[0]),
    ensures
        skip_ws(a + b) == b,
{
    lemma_run_len_concat(a, b, |c: char| is_ws_char(c));
    assert((a + b).subrange(a.len() as int, (a + b).len() as int) =~= b);
}

pub proof fn lemma_skip_ws_idem(s: Seq<char>)
    ensures
        skip_ws(skip_ws(s)) == skip_ws(s),
{
    lemma_run_len(s, |c: char| is_ws_char(c));
    let t = skip_ws(s);
    if t.len() > 0 {
        assert(t[0] == s[run_len(s, |c: char| is_ws_char(c)) as int]);
        assert(!is_ws_char(t[0]));
    }
    lemma_skip_ws_id(t);
}

/// `skip_ws` never grows text.
pub proof fn lemma_skip_ws_le(s: Seq<char>)
    ensures
        skip_ws(s).len() <= s.len(),
{
    lemma_run_len(s, |c: char| is_ws_char(c));
}

/// A join decomposed at its head.
pub proof fn lemma_join_head(parts: Seq<Seq<char>>, sep: Seq<char>)
    requires
        parts.len() >= 2,
    ensures
        spec_join(parts, sep) == parts[0] + sep + spec_join(parts.drop_first(), sep),
    decreases parts.len(),
{
    if parts.len() == 2 {
        assert(parts.drop_last() =~= seq![parts[0]]);
        assert(parts.drop_first() =~= seq![parts[1]]);
        assert(spec_join(parts, sep) == spec_join(parts.drop_last(), sep) + sep + parts.last());
        assert(spec_join(parts.drop_last(), sep) == parts[0]);
        assert(spec_join(parts.drop_first(), sep) == parts[1]);
        assert(parts.last() == parts[1]);
    } else {
        let dl = parts.drop_last();
        let df = parts.drop_first();
        lemma_join_head(dl, sep);
        assert(dl[0] == parts[0]);
        assert(dl.drop_first() =~= df.drop_last());
        assert(df.last() == parts.last());
        assert(spec_join(parts, sep) == spec_join(dl, sep) + sep + parts.last());
        assert(spec_join(df, sep) == spec_join(df.drop_last(), sep) + sep + df.last());
        assert(spec_join(dl, sep) == parts[0] + sep + spec_join(dl.drop_first(), sep));
        assert(spec_join(dl.drop_first(), sep) == spec_join(df.drop_last(), sep));
        assert(spec_join(parts, sep) =~= parts[0] + sep + spec_join(df, sep));
    }
}

/// Quoted text parses back to exactly its interior.
pub proof fn lemma_quoted_exact(t: Seq<char>, rest: Seq<char>)
    requires
        t.len() >= 1,
        forall|j: int| 0 <= j < t.len() ==> (#[trigger] t[j]) != '"',
    ensures
        spec_parse_quoted(spec_quoted(t) + rest) == Some((t, rest)),
{
    let s = spec_quoted(t) + rest;
    assert(s[0] == '"');
    let cont = seq!['"'] + rest;
    assert(s.subrange(1, s.len() as int) =~= t + cont);
    lemma_run_len_concat(t, cont, |c: char| c != '"');
    let n = t.len() as int;
    assert(run_len(s.subrange(1, s.len() as int), |c: char| c != '"') == n);
    assert(s.subrange(1, 1 + n) =~= t);
    assert(s.subrange(2 + n, s.len() as int) =~= rest);
}

/// A well-formed function: a non-empty identifier name, each argument
/// non-empty and free of quotes.
pub open spec fn fn_wf(f: (Seq<char>, Seq<Seq<char>>)) -> bool {
    &&& f.0.len() >= 1
    &&& crate::text::all_ident_chars(f.0)
    &&& forall|j: int|
        0 <= j < f.1.len() ==> (#[trigger] f.1[j]).len() >= 1 && (forall|k: int|
            0 <= k < f.1[j].len() ==> f.1[j][k] != '"')
}

pub open spec fn pipeline_wf(fns: SpecPipeline) -> bool {
    forall|i: int| 0 <= i < fns.len() ==> fn_wf(#[trigger] fns[i])
}

/// Rendered arguments parse back to exactly themselves, leaving text that
/// opens with the closing parenthesis.
proof fn lemma_args_rest_exact(
    acc: Seq<Seq<char>>,
    more: Seq<Seq<char>>,
    rest: Seq<char>,
)
    requires
        forall|j: int|
            0 <= j < more.len() ==> (#[trigger] more[j]).len() >= 1 && (forall|k: int|
                0 <= k < more[j].len() ==> more[j][k] != '"'),
        rest.len() > 0 && rest[0] == ')',
    ensures
        spec_parse_args_rest(
            acc,
            (if more.len() == 0 {
                Seq::<char>::empty()
            } else {
                ","@ + spec_join(more.map_values(|a: Seq<char>| spec_quoted(a)), ","@)
            }) + rest,
        ) == (acc + more, rest),
    decreases more.len(),
{
    reveal_strlit(",");
    if more.len() == 0 {
        let s = Seq::<char>::empty() + rest;
        assert(s =~= rest);
        assert(s[0] == ')');
        assert(acc + more =~= acc);
    } else {
        let qs = more.map_values(|a: Seq<char>| spec_quoted(a));
        let joined = spec_join(qs, ","@);
        let s = ","@ + joined + rest;
        assert(","@.len() == 1 && ","@[0] == ',');
        assert(s[0] == ',');
        let head = more[0];
        if more.len() == 1 {
            assert(joined == spec_quoted(head));
            assert(s.subrange(1, s.len() as int) =~= spec_quoted(head) + rest);
            lemma_quoted_exact(head, rest);
            crate::parser::lemma_quoted_progress(s);
            lemma_args_rest_exact(acc.push(head), more.drop_first(), rest);
            assert(more.drop_first().len() == 0);
            assert(spec_parse_args_rest(acc.push(head), Seq::<char>::empty() + rest) == (
            acc.push(head), rest));
            assert(acc.push(head) + more.drop_first() =~= acc + more);
            assert(Seq::<char>::empty() + rest =~= rest);
        } else {
            lemma_join_head(qs, ","@);
            assert(qs[0] == spec_quoted(head));
            assert(qs.drop_first() =~= more.drop_first().map_values(
                |a: Seq<char>| spec_quoted(a),
            ));
            let tail_text = ","@ + spec_join(qs.drop_first(), ","@) + rest;
            assert(s.subrange(1, s.len() as int) =~= spec_quoted(head) + tail_text);
            lemma_quoted_exact(head, tail_text);
            crate::parser::lemma_quoted_progress(s);
            lemma_args_rest_exact(acc.push(head), more.drop_first(), rest);
            assert(acc.push(head) + more.drop_first() =~= acc + more);
            assert((if more.drop_first().len() == 0 {
                Seq::<char>::empty()
            } else {
                ","@ + spec_join(
                    more.drop_first().map_values(|a: Seq<char>| spec_quoted(a)),
                    ","@,
                )
            }) + rest =~= tail_text);
        }
    }
}

/// A rendered argument list parses back to exactly itself.
proof fn lemma_args_exact(args: Seq<Seq<char>>, rest: Seq<char>)
    requires
        forall|j: int|
            0 <= j < args.len() ==> (#[trigger] args[j]).len() >= 1 && (forall|k: int|
                0 <= k < args[j].len() ==> args[j][k] != '"'),
        rest.len() > 0 && rest[0] == ')',
    ensures
        spec_parse_args(
            spec_join(args.map_values(|a: Seq<char>| spec_quoted(a)), ","@) + rest,
        ) == (args, rest),
{
    let qs = args.map_values(|a: Seq<char>| spec_quoted(a));
    if args.len() == 0 {
        let s = spec_join(qs, ","@) + rest;
        assert(s =~= rest);
        assert(s[0] == ')');
        assert(s[0] != '"');
        assert(spec_parse_quoted(s) is None);
        assert(Seq::<Seq<char>>::empty() =~= args);
    } else {
        let head = args[0];
        if args.len() == 1 {
            let s = spec_join(qs, ","@) + rest;
            assert(spec_join(qs, ","@) == spec_quoted(head));
            assert(s =~= spec_quoted(head) + rest);
            lemma_quoted_exact(head, rest);
            lemma_args_rest_exact(seq![head], args.drop_first(), rest);
            assert(args.drop_first().len() == 0);
            assert(Seq::<char>::empty() + rest =~= rest);
            assert(seq![head] + args.drop_first() =~= args);
        } else {
            lemma_join_head(qs, ","@);
            assert(qs[0] == spec_quoted(head));
            assert(qs.drop_first() =~= args.drop_first().map_values(
                |a: Seq<char>| spec_quoted(a),
            ));
            let tail_text = ","@ + spec_join(qs.drop_first(), ","@) + rest;
            let s = spec_join(qs, ","@) + rest;
            assert(s =~= spec_quoted(head) + tail_text);
            lemma_quoted_exact(head, tail_text);
            lemma_args_rest_exact(seq![head], args.drop_first(), rest);
            assert(seq![head] + args.drop_first() =~= args);
            assert((if args.drop_first().len() == 0 {
                Seq::<char>::empty()
            } else {
                ","@ + spec_join(
                    args.drop_first().map_values(|a: Seq<char>| spec_quoted(a)),
                    ","@,
                )
            }) + rest =~= tail_text);
        }
    }
}

/// A rendered function parses back to exactly itself.
proof fn lemma_function_exact(f: (Seq<char>, Seq<Seq<char>>), rest: Seq<char>)
    requires
        fn_wf(f),
        f.1.len() == 0 ==> (rest.len() == 0 || !is_ident_char(rest[0])),
        f.1.len() == 0 ==> (skip_ws(rest).len() == 0 || skip_ws(rest)[0] != '('),
    ensures
        spec_parse_function(spec_render_function(f) + rest) == Some((f, rest)),
{
    reveal_strlit("(");
    reveal_strlit(")");
    let p = |c: char| is_ident_char(c);
    if f.1.len() == 0 {
        let s = spec_render_function(f) + rest;
        assert(s =~= f.0 + rest);
        lemma_run_len_concat(f.0, rest, p);
        let n = f.0.len() as int;
        assert(s.subrange(0, n) =~= f.0);
        assert(s.subrange(n, s.len() as int) =~= rest);
        assert(f.1 =~= Seq::<Seq<char>>::empty());
    } else {
        assert("("@.len() == 1 && "("@[0] == '(');
        assert(")"@.len() == 1 && ")"@[0] == ')');
        let joined = spec_join(f.1.map_values(|a: Seq<char>| spec_quoted(a)), ","@);
        let after_name = "("@ + joined + ")"@ + rest;
        let s = spec_render_function(f) + rest;
        assert(s =~= f.0 + after_name);
        assert(!is_ident_char(after_name[0])) by {
            assert(after_name[0] == '(');
            assert(!(48 <= '(' as u32 <= 57) && !(65 <= '(' as u32 <= 90) && !(97 <= '(' as u32
                <= 122));
        }
        lemma_run_len_concat(f.0, after_name, p);
        let n = f.0.len() as int;
        assert(s.subrange(0, n) =~= f.0);
        assert(s.subrange(n, s.len() as int) =~= after_name);
        lemma_skip_ws_id(after_name);
        assert(after_name[0] == '(');
        let args_text = after_name.subrange(1, after_name.len() as int);
        assert(args_text =~= joined + (")"@ + rest));
        assert((")"@ + rest)[0] == ')');
        lemma_args_exact(f.1, ")"@ + rest);
        let res = spec_parse_args(args_text);
        assert(res == (f.1, ")"@ + rest));
        assert((")"@ + rest).subrange(1, (")"@ + rest).len() as int) =~= rest);
    }
}

/// A rendered pipeline parses back to exactly itself, in order.
proof fn lemma_pipeline_rest_exact(acc: SpecPipeline, more: SpecPipeline, rest: Seq<char>)
    requires
        pipeline_wf(more),
        rest.len() > 0,
        !is_ws_char(rest[0]),
        rest[0] != '|',
        !is_ident_char(rest[0]),
        rest[0] != '(',
    ensures
        spec_parse_pipeline_rest(
            acc,
            (if more.len() == 0 {
                Seq::<char>::empty()
            } else {
                " | "@ + spec_join(
                    more.map_values(|g: (Seq<char>, Seq<Seq<char>>)| spec_render_function(g)),
                    " | "@,
                )
            }) + " "@ + rest,
        ) == (acc + more, " "@ + rest),
    decreases more.len(),
{
    reveal_strlit(" | ");
    reveal_strlit(" ");
    assert(" | "@.len() == 3 && " | "@[0] == ' ' && " | "@[1] == '|' && " | "@[2] == ' ');
    assert(" "@.len() == 1 && " "@[0] == ' ');
    if more.len() == 0 {
        let s = Seq::<char>::empty() + " "@ + rest;
        assert(s =~= " "@ + rest);
        lemma_skip_ws_concat(" "@, rest);
        assert(" "@ =~= seq![' ']);
        let tw = skip_ws(s);
        assert(tw == rest);
        assert(tw[0] != '|');
        assert(acc + more =~= acc);
    } else {
        let rs = more.map_values(|g: (Seq<char>, Seq<Seq<char>>)| spec_render_function(g));
        let joined = spec_join(rs, " | "@);
        let s = " | "@ + joined + " "@ + rest;
        let head = more[0];
        assert(fn_wf(head));
        let tail_rest: Seq<char> = if more.len() == 1 {
            " "@ + rest
        } else {
            " | "@ + spec_join(rs.drop_first(), " | "@) + " "@ + rest
        };
        if more.len() == 1 {
            assert(joined == spec_render_function(head));
        } else {
            lemma_join_head(rs, " | "@);
            assert(rs[0] == spec_render_function(head));
        }
        // after the separator the function text begins
        let after_bar = spec_render_function(head) + tail_rest;
        assert(s =~= seq![' '] + (seq!['|'] + (seq![' '] + after_bar))) by {
            if more.len() == 1 {
                assert(s =~= seq![' '] + (seq!['|'] + (seq![' '] + (spec_render_function(head)
                    + (" "@ + rest)))));
            } else {
                assert(joined =~= spec_render_function(head) + " | "@ + spec_join(
                    rs.drop_first(),
                    " | "@,
                ));
                assert(s =~= seq![' '] + (seq!['|'] + (seq![' '] + (spec_render_function(head) + (
                " | "@ + spec_join(rs.drop_first(), " | "@) + " "@ + rest)))));
            }
        }
        let tw = skip_ws(s);
        assert(head.0.len() >= 1 && is_ident_char(head.0[0]));
        assert(!is_ws_char('|')) by {
            assert('|' != ' ' && '|' != '\t' && '|' != '\r' && '|' != '\n');
        }
        lemma_skip_ws_concat(seq![' '], seq!['|'] + (seq![' '] + after_bar));
        assert(tw == seq!['|'] + (seq![' '] + after_bar));
        assert(tw[0] == '|');
        let after_sep = tw.subrange(1, tw.len() as int);
        assert(after_sep =~= seq![' '] + after_bar);
        assert(after_bar[0] == head.0[0]) by {
            assert(spec_render_function(head)[0] == head.0[0]);
        }
        assert(!is_ws_char(after_bar[0]));
        lemma_skip_ws_concat(seq![' '], after_bar);
        assert(skip_ws(after_sep) == after_bar);
        // tail_rest starts with a space, never an identifier or '('
        assert(tail_rest[0] == ' ');
        lemma_tail_rest_shape(tail_rest, rest, more.len() == 1, rs);
        lemma_function_exact(head, tail_rest);
        lemma_pipeline_rest_exact(acc.push(head), more.drop_first(), rest);
        assert(rs.drop_first() =~= more.drop_first().map_values(
            |g: (Seq<char>, Seq<Seq<char>>)| spec_render_function(g),
        ));
        assert((if more.drop_first().len() == 0 {
            Seq::<char>::empty()
        } else {
            " | "@ + spec_join(
                more.drop_first().map_values(
                    |g: (Seq<char>, Seq<Seq<char>>)| spec_render_function(g),
                ),
                " | "@,
            )
        }) + " "@ + rest =~= tail_rest);
        assert(acc.push(head) + more.drop_first() =~= acc + more);
        assert(tail_rest.len() < s.len());
    }
}

/// The text after a rendered function starts with a space and, skipped,
/// shows either the next separator or the closing text.
proof fn lemma_tail_rest_shape(
    tail_rest: Seq<char>,
    rest: Seq<char>,
    last: bool,
    rs: Seq<Seq<char>>,
)
    requires
        rest.len() > 0,
        !is_ws_char(rest[0]),
        !is_ident_char(rest[0]),
        rest[0] != '(',
        rest[0] != '|',
        last ==> tail_rest == " "@ + rest,
        !last ==> tail_rest == " | "@ + spec_join(rs.drop_first(), " | "@) + " "@ + rest,
    ensures
        tail_rest.len() == 0 || !is_ident_char(tail_rest[0]),
        skip_ws(tail_rest).len() == 0 || skip_ws(tail_rest)[0] != '(',
{
    reveal_strlit(" ");
    reveal_strlit(" | ");
    assert(" "@.len() == 1 && " "@[0] == ' ');
    assert(" | "@.len() == 3 && " | "@[0] == ' ' && " | "@[1] == '|' && " | "@[2] == ' ');
    if last {
        assert(tail_rest[0] == ' ');
        assert(!is_ident_char(' '));
        assert(tail_rest =~= seq![' '] + rest);
        lemma_skip_ws_concat(seq![' '], rest);
        assert(skip_ws(tail_rest) == rest);
    } else {
        assert(tail_rest[0] == ' ');
        assert(!is_ident_char(' '));
        let t2 = seq!['|'] + (" | "@.subrange(2, 3) + spec_join(rs.drop_first(), " | "@) + " "@
            + rest);
        assert(tail_rest =~= seq![' '] + t2);
        assert(t2[0] == '|');
        assert(!is_ws_char('|'));
        lemma_skip_ws_concat(seq![' '], t2);
        assert(skip_ws(tail_rest) == t2);
        assert(t2[0] != '(');
    }
}

/// A rendered pipeline parses back to itself when the text that follows
/// opens with a closing brace after one space.
proof fn lemma_pipeline_exact(fns: SpecPipeline, rest: Seq<char>)
    requires
        pipeline_wf(fns),
        rest.len() > 0,
        !is_ws_char(rest[0]),
        rest[0] != '|',
        !is_ident_char(rest[0]),
        rest[0] != '(',
    ensures
        spec_parse_pipeline(spec_render_pipeline(fns) + " "@ + rest) == (fns, " "@ + rest),
{
    reveal_strlit(" ");
    reveal_strlit(" | ");
    assert(" "@.len() == 1 && " "@[0] == ' ');
    assert(" | "@.len() == 3 && " | "@[0] == ' ' && " | "@[1] == '|' && " | "@[2] == ' ');
    let rs = fns.map_values(|g: (Seq<char>, Seq<Seq<char>>)| spec_render_function(g));
    if fns.len() == 0 {
        let s = spec_render_pipeline(fns) + " "@ + rest;
        assert(rs.len() == 0);
        assert(s =~= " "@ + rest);
        assert(s[0] == ' ');
        assert(!is_ident_char(' '));
        assert(run_len(s, |c: char| is_ident_char(c)) == 0);
        assert(spec_parse_function(s) is None);
        assert(Seq::<(Seq<char>, Seq<Seq<char>>)>::empty() =~= fns);
    } else {
        let head = fns[0];
        assert(fn_wf(head));
        let tail_rest: Seq<char> = if fns.len() == 1 {
            " "@ + rest
        } else {
            " | "@ + spec_join(rs.drop_first(), " | "@) + " "@ + rest
        };
        let s = spec_render_pipeline(fns) + " "@ + rest;
        if fns.len() == 1 {
            assert(spec_join(rs, " | "@) == spec_render_function(head));
            assert(s =~= spec_render_function(head) + tail_rest);
        } else {
            lemma_join_head(rs, " | "@);
            assert(rs[0] == spec_render_function(head));
            assert(s =~= spec_render_function(head) + tail_rest);
        }
        lemma_tail_rest_shape(tail_rest, rest, fns.len() == 1, rs);
        lemma_function_exact(head, tail_rest);
        lemma_pipeline_rest_exact(seq![head], fns.drop_first(), rest);
        assert(rs.drop_first() =~= fns.drop_first().map_values(
            |g: (Seq<char>, Seq<Seq<char>>)| spec_render_function(g),
        ));
        assert((if fns.drop_first().len() == 0 {
            Seq::<char>::empty()
        } else {
            " | "@ + spec_join(
                fns.drop_first().map_values(
                    |g: (Seq<char>, Seq<Seq<char>>)| spec_render_function(g),
                ),
                " | "@,
            )
        }) + " "@ + rest =~= tail_rest);
        assert(seq![head] + fns.drop_first() =~= fns);
    }
}

/// A rendered pattern-action rule parses back to itself, its pipeline in
/// source order.
#[verifier::rlimit(100)]
pub proof fn lemma_pattern_action_exact(p: Seq<char>, fns: SpecPipeline, rest: Seq<char>)
    requires
        p.len() >= 1,
        forall|j: int| 0 <= j < p.len() ==> (#[trigger] p[j]) != '/',
        pipeline_wf(fns),
    ensures
        crate::parser::spec_parse_pattern_action(
            "/"@ + p + "/ { "@ + spec_render_pipeline(fns) + " }"@ + rest,
        ) == Some(((p, fns), skip_ws(rest))),
{
    reveal_strlit("/");
    reveal_strlit("/ { ");
    reveal_strlit(" }");
    reveal_strlit(" ");
    assert("/"@.len() == 1 && "/"@[0] == '/');
    assert("/ { "@.len() == 4 && "/ { "@[0] == '/' && "/ { "@[1] == ' ' && "/ { "@[2] == '{'
        && "/ { "@[3] == ' ');
    assert(" }"@.len() == 2 && " }"@[0] == ' ' && " }"@[1] == '}');
    let joined = spec_render_pipeline(fns);
    let s = "/"@ + p + "/ { "@ + joined + " }"@ + rest;
    let rest1 = seq![' '] + (seq!['{'] + (seq![' '] + (joined + (" }"@ + rest))));
    assert(s =~= seq!['/'] + p + seq!['/'] + rest1);
    lemma_regex_exact(p, rest1);
    let inner = seq!['{'] + (seq![' '] + (joined + (" }"@ + rest)));
    assert(!is_ws_char('{'));
    lemma_skip_ws_concat(seq![' '], inner);
    assert(rest1 =~= seq![' '] + inner);
    assert(skip_ws(rest1) == inner);
    assert(inner[0] == '{');
    let after_brace = inner.subrange(1, inner.len() as int);
    assert(after_brace =~= seq![' '] + (joined + (" }"@ + rest)));
    let close = seq!['}'] + rest;
    if fns.len() == 0 {
        assert(joined =~= Seq::<char>::empty());
        assert(after_brace =~= seq![' '] + (seq![' '] + close));
        assert(forall|j: int|
            0 <= j < (seq![' '] + seq![' ']).len() ==> is_ws_char(
                #[trigger] (seq![' '] + seq![' '])[j],
            ));
        assert(!is_ws_char('}'));
        lemma_skip_ws_concat(seq![' '] + seq![' '], close);
        assert(after_brace =~= (seq![' '] + seq![' ']) + close);
        let r3 = skip_ws(after_brace);
        assert(r3 == close);
        assert(!is_ident_char('}'));
        assert(run_len(r3, |c: char| is_ident_char(c)) == 0);
        assert(spec_parse_function(r3) is None);
        let pr = spec_parse_pipeline(r3);
        assert(pr == (Seq::<(Seq<char>, Seq<Seq<char>>)>::empty(), r3));
        assert(pr.0 =~= fns);
        lemma_skip_ws_id(close);
        assert(close[0] == '}');
        assert(close.subrange(1, close.len() as int) =~= rest);
    } else {
        assert(joined[0] == fns[0].0[0]) by {
            let rs = fns.map_values(|g: (Seq<char>, Seq<Seq<char>>)| spec_render_function(g));
            if fns.len() == 1 {
                assert(spec_join(rs, " | "@) == spec_render_function(fns[0]));
            } else {
                lemma_join_head(rs, " | "@);
                assert(rs[0] == spec_render_function(fns[0]));
            }
            assert(spec_render_function(fns[0])[0] == fns[0].0[0]);
        }
        assert(fn_wf(fns[0]));
        assert(is_ident_char(fns[0].0[0]));
        assert(!is_ws_char(joined[0])) by {
            let c = joined[0];
            assert(is_ident_char(c));
            assert(c as u32 != 32 && c as u32 != 9 && c as u32 != 13 && c as u32 != 10);
            assert(c != ' ' && c != '\t' && c != '\r' && c != '\n') by {
                vstd::utf8::char_u32_cast(c, c as u32);
                vstd::utf8::char_u32_cast(' ', ' ' as u32);
                vstd::utf8::char_u32_cast('\t', '\t' as u32);
                vstd::utf8::char_u32_cast('\r', '\r' as u32);
                vstd::utf8::char_u32_cast('\n', '\n' as u32);
            }
        }
        let body = joined + (" "@ + close);
        assert(after_brace =~= seq![' '] + body);
        assert(" }"@ + rest =~= " "@ + close);
        lemma_skip_ws_concat(seq![' '], body);
        let r3 = skip_ws(after_brace);
        assert(r3 == body);
        assert(!is_ident_char('}') && '}' != '|' && '}' != '(');
        lemma_pipeline_exact(fns, close);
        assert(body =~= spec_render_pipeline(fns) + " "@ + close);
        let pr = spec_parse_pipeline(r3);
        assert(pr == (fns, " "@ + close));
        let r5 = skip_ws(" "@ + close);
        assert(!is_ws_char('}'));
        lemma_skip_ws_concat(" "@, close);
        assert(r5 == close);
        assert(close[0] == '}');
        assert(close.subrange(1, close.len() as int) =~= rest);
    }
}

/// A rendered integer literal parses back to exactly its value.
pub proof fn lemma_int_exact(i: i32, rest: Seq<char>)
    requires
        rest.len() == 0 || !crate::text::is_digit_char(rest[0]),
    ensures
        crate::parser::spec_parse_integer(spec_i32_text(i as int) + rest)
            == crate::parser::SpecParsed::Done(i, rest),
{
    let s = spec_i32_text(i as int) + rest;
    let p = |c: char| crate::text::is_digit_char(c);
    if i < 0 {
        let m = -(i as int);
        let digits = crate::numbers::spec_digits_of(m);
        crate::numbers::lemma_digits_of_all_digits(m);
        crate::numbers::lemma_digits_round_trip(m);
        assert(s =~= seq!['-'] + (digits + rest));
        assert(s[0] == '-');
        assert(s.subrange(1, s.len() as int) =~= digits + rest);
        lemma_run_len_concat(digits, rest, p);
        let n = digits.len() as int;
        assert((digits + rest).subrange(0, n) =~= digits);
        assert((digits + rest).subrange(n, (digits + rest).len() as int) =~= rest);
    } else {
        let digits = crate::numbers::spec_digits_of(i as int);
        crate::numbers::lemma_digits_of_all_digits(i as int);
        crate::numbers::lemma_digits_round_trip(i as int);
        assert(s =~= digits + rest);
        assert(crate::text::is_digit_char(digits[0]));
        assert(s[0] != '-') by {
            vstd::utf8::char_u32_cast(s[0], s[0] as u32);
            vstd::utf8::char_u32_cast('-', '-' as u32);
        }
        lemma_run_len_concat(digits, rest, p);
        let n = digits.len() as int;
        assert(s.subrange(0, n) =~= digits);
        assert(s.subrange(n, s.len() as int) =~= rest);
    }
}

/// An identifier character is none of the grammar's punctuation.
proof fn lemma_ident_not_special(c: char)
    requires
        is_ident_char(c),
    ensures
        !is_ws_char(c),
        c != '"' && c != '/' && c != '(' && c != ')' && c != '|' && c != '{' && c != '}' && c != ':'
            && c != ',' && c != '-' && c != '\n',
{
    vstd::utf8::char_u32_cast(c, c as u32);
    vstd::utf8::char_u32_cast(' ', ' ' as u32);
    vstd::utf8::char_u32_cast('\t', '\t' as u32);
    vstd::utf8::char_u32_cast('\r', '\r' as u32);
    vstd::utf8::char_u32_cast('\n', '\n' as u32);
    vstd::utf8::char_u32_cast('"', '"' as u32);
    vstd::utf8::char_u32_cast('/', '/' as u32);
    vstd::utf8::char_u32_cast('(', '(' as u32);
    vstd::utf8::char_u32_cast(')', ')' as u32);
    vstd::utf8::char_u32_cast('|', '|' as u32);
    vstd::utf8::char_u32_cast('{', '{' as u32);
    vstd::utf8::char_u32_cast('}', '}' as u32);
    vstd::utf8::char_u32_cast(':', ':' as u32);
    vstd::utf8::char_u32_cast(',', ',' as u32);
    vstd::utf8::char_u32_cast('-', '-' as u32);
}

/// The arms of a case block as text, head first, ending in `cont`.
pub open spec fn arms_text(more: Seq<(Seq<char>, (Seq<char>, Seq<Seq<char>>))>, cont: Seq<char>) -> Seq<
    char,
>
    decreases more.len(),
{
    if more.len() == 0 {
        cont
    } else {
        spec_quoted(more[0].0) + " "@ + spec_render_function(more[0].1) + " "@ + arms_text(
            more.drop_first(),
            cont,
        )
    }
}

/// Keys all distinct, and none already bound in `acc`.
pub open spec fn arm_keys_fresh(
    acc: Seq<(Seq<char>, (Seq<char>, Seq<Seq<char>>))>,
    more: Seq<(Seq<char>, (Seq<char>, Seq<Seq<char>>))>,
) -> bool {
    &&& forall|i: int, j: int| 0 <= i < j < more.len() ==> more[i].0 != more[j].0
    &&& forall|i: int, j: int|
        0 <= i < acc.len() && 0 <= j < more.len() ==> (#[trigger] acc[i]).0 != (
        #[trigger] more[j]).0
}

pub open spec fn arms_wf(more: Seq<(Seq<char>, (Seq<char>, Seq<Seq<char>>))>) -> bool {
    forall|i: int|
        0 <= i < more.len() ==> (#[trigger] more[i]).0.len() >= 1 && (forall|k: int|
            0 <= k < more[i].0.len() ==> more[i].0[k] != '"') && fn_wf(more[i].1)
}

/// Rendered case arms fold back into exactly themselves, in order.
proof fn lemma_case_entries_exact(
    acc: Seq<(Seq<char>, (Seq<char>, Seq<Seq<char>>))>,
    more: Seq<(Seq<char>, (Seq<char>, Seq<Seq<char>>))>,
    cont: Seq<char>,
)
    requires
        arms_wf(more),
        arm_keys_fresh(acc, more),
        cont.len() > 0,
        cont[0] != '"',
        !is_ws_char(cont[0]),
        cont[0] != '(',
    ensures
        crate::parser::spec_parse_case_entries(acc, arms_text(more, cont)) == (acc + more, cont),
    decreases more.len(),
{
    reveal_strlit(" ");
    assert(" "@.len() == 1 && " "@[0] == ' ');
    if more.len() == 0 {
        assert(arms_text(more, cont) == cont);
        assert(spec_parse_quoted(cont) is None);
        assert(acc + more =~= acc);
    } else {
        let k0 = more[0].0;
        let f0 = more[0].1;
        let s = arms_text(more, cont);
        let tail = arms_text(more.drop_first(), cont);
        let after_q = " "@ + spec_render_function(f0) + " "@ + tail;
        assert(s =~= spec_quoted(k0) + after_q);
        lemma_quoted_exact(k0, after_q);
        // exactly one space, then the function
        assert(fn_wf(f0));
        assert(is_ident_char(spec_render_function(f0)[0])) by {
            assert(spec_render_function(f0)[0] == f0.0[0]);
        }
        lemma_ident_not_special(spec_render_function(f0)[0]);
        let fn_and_on = spec_render_function(f0) + (" "@ + tail);
        assert(after_q =~= seq![' '] + fn_and_on);
        lemma_run_len_concat(seq![' '], fn_and_on, |c: char| is_ws_char(c));
        assert(run_len(after_q, |c: char| is_ws_char(c)) == 1);
        assert(after_q.subrange(1, after_q.len() as int) =~= fn_and_on);
        // the function, with a space and the rest after it
        let frest = " "@ + tail;
        assert(frest[0] == ' ');
        assert(!is_ident_char(' ')) by {
            vstd::utf8::char_u32_cast(' ', ' ' as u32);
        }
        assert(tail[0] == '"' || tail == cont) by {
            if more.drop_first().len() > 0 {
                assert(tail =~= spec_quoted(more.drop_first()[0].0) + " "@ + spec_render_function(
                    more.drop_first()[0].1,
                ) + " "@ + arms_text(more.drop_first().drop_first(), cont));
            }
        }
        assert(!is_ws_char(tail[0]));
        lemma_skip_ws_concat(seq![' '], tail);
        assert(frest =~= seq![' '] + tail);
        assert(skip_ws(frest) == tail);
        assert(skip_ws(frest)[0] != '(');
        lemma_function_exact(f0, frest);
        // the recursion folds the rest in
        crate::parser::lemma_upsert_shape(acc, k0, f0);
        assert(forall|i: int| 0 <= i < acc.len() ==> (#[trigger] acc[i]).0 != k0);
        assert(crate::parser::upsert(acc, k0, f0) == acc.push((k0, f0)));
        assert((k0, f0) == more[0]);
        assert(arm_keys_fresh(acc.push(more[0]), more.drop_first())) by {
            assert(forall|j: int|
                0 <= j < more.drop_first().len() ==> more.drop_first()[j] == more[j + 1]);
        }
        assert(arms_wf(more.drop_first()));
        lemma_case_entries_exact(acc.push(more[0]), more.drop_first(), cont);
        assert(acc.push(more[0]) + more.drop_first() =~= acc + more);
        // the guard in the fold holds: progress was made
        assert(tail.len() < s.len());
    }
}

/// What a rendered case block parses back to: its arms as key-function
/// pairs, in order, and its default arm.
pub proof fn lemma_case_block_exact(
    p: Seq<char>,
    arms: Seq<(Seq<char>, (Seq<char>, Seq<Seq<char>>))>,
    default: Option<(Seq<char>, Seq<Seq<char>>)>,
    rest: Seq<char>,
)
    requires
        p.len() >= 1,
        forall|j: int| 0 <= j < p.len() ==> (#[trigger] p[j]) != '/',
        arms_wf(arms),
        arm_keys_fresh(Seq::<(Seq<char>, (Seq<char>, Seq<Seq<char>>))>::empty(), arms),
        match default {
            Some(d) => fn_wf(d),
            None => arms.len() >= 1,
        },
    ensures
        crate::parser::spec_parse_case_block(
            "/"@ + p + "/ { "@ + arms_text(
                arms,
                match default {
                    Some(d) => "default "@ + spec_render_function(d) + " }"@ + rest,
                    None => "}"@ + rest,
                },
            ) + (match default {
                Some(d) => Seq::<char>::empty(),
                None => Seq::<char>::empty(),
            }),
        ) == Some(((p, arms, default), skip_ws(rest))),
{
    reveal_strlit("/");
    reveal_strlit("/ { ");
    reveal_strlit("default ");
    reveal_strlit("default");
    reveal_strlit(" }");
    reveal_strlit("}");
    reveal_strlit(" ");
    assert("/ { "@.len() == 4 && "/ { "@[0] == '/' && "/ { "@[1] == ' ' && "/ { "@[2] == '{'
        && "/ { "@[3] == ' ');
    assert("default "@.len() == 8 && "default "@[0] == 'd' && "default "@[7] == ' ');
    assert("default"@.len() == 7 && "default"@[0] == 'd' && "default"@[1] == 'e' && "default"@[2]
        == 'f' && "default"@[3] == 'a' && "default"@[4] == 'u' && "default"@[5] == 'l'
        && "default"@[6] == 't');
    assert("default "@[1] == 'e' && "default "@[2] == 'f' && "default "@[3] == 'a' && "default "@[4]
        == 'u' && "default "@[5] == 'l' && "default "@[6] == 't');
    assert(" }"@.len() == 2 && " }"@[0] == ' ' && " }"@[1] == '}');
    assert("}"@.len() == 1 && "}"@[0] == '}');
    assert(" "@.len() == 1 && " "@[0] == ' ');
    let cont: Seq<char> = match default {
        Some(d) => "default "@ + spec_render_function(d) + " }"@ + rest,
        None => "}"@ + rest,
    };
    assert(cont[0] == 'd' || cont[0] == '}');
    assert(!is_ws_char(cont[0]) && cont[0] != '"' && cont[0] != '(');
    let inner = arms_text(arms, cont);
    let s = "/"@ + p + "/ { "@ + inner + Seq::<char>::empty();
    let rest1 = seq![' '] + (seq!['{'] + (seq![' '] + inner));
    assert(s =~= seq!['/'] + p + seq!['/'] + rest1);
    lemma_regex_exact(p, rest1);
    let brace_on = seq!['{'] + (seq![' '] + inner);
    assert(!is_ws_char('{'));
    lemma_skip_ws_concat(seq![' '], brace_on);
    assert(rest1 =~= seq![' '] + brace_on);
    assert(skip_ws(rest1) == brace_on);
    assert(brace_on[0] == '{');
    let after_brace = brace_on.subrange(1, brace_on.len() as int);
    assert(after_brace =~= seq![' '] + inner);
    assert(inner[0] == '"' || inner == cont) by {
        if arms.len() > 0 {
            assert(inner =~= spec_quoted(arms[0].0) + " "@ + spec_render_function(arms[0].1) + " "@
                + arms_text(arms.drop_first(), cont));
        }
    }
    assert(!is_ws_char(inner[0]));
    lemma_skip_ws_concat(seq![' '], inner);
    let r3 = skip_ws(after_brace);
    assert(r3 == inner);
    lemma_case_entries_exact(Seq::<(Seq<char>, (Seq<char>, Seq<Seq<char>>))>::empty(), arms, cont);
    let r4 = cont;
    assert(Seq::<(Seq<char>, (Seq<char>, Seq<Seq<char>>))>::empty() + arms =~= arms);
    match default {
        Some(d) => {
            // the default keyword, whitespace, the function, the brace
            assert(r4.subrange(0, 7) =~= "default"@);
            assert(crate::text::spec_starts_with(r4, "default"@));
            let after_kw = r4.subrange(7, r4.len() as int);
            assert(after_kw =~= seq![' '] + (spec_render_function(d) + (" "@ + ("}"@ + rest))))
                by {
                assert(" }"@ + rest =~= " "@ + ("}"@ + rest));
            }
            assert(is_ident_char(spec_render_function(d)[0])) by {
                assert(spec_render_function(d)[0] == d.0[0]);
            }
            lemma_ident_not_special(spec_render_function(d)[0]);
            lemma_run_len_concat(
                seq![' '],
                spec_render_function(d) + (" "@ + ("}"@ + rest)),
                |c: char| is_ws_char(c),
            );
            assert(run_len(after_kw, |c: char| is_ws_char(c)) == 1);
            lemma_skip_ws_concat(seq![' '], spec_render_function(d) + (" "@ + ("}"@ + rest)));
            let after_ws = skip_ws(after_kw);
            assert(after_ws == spec_render_function(d) + (" "@ + ("}"@ + rest)));
            let frest = " "@ + ("}"@ + rest);
            assert(frest[0] == ' ');
            assert(!is_ident_char(' ')) by {
                vstd::utf8::char_u32_cast(' ', ' ' as u32);
            }
            assert(!is_ws_char('}'));
            lemma_skip_ws_concat(seq![' '], "}"@ + rest);
            assert(frest =~= seq![' '] + ("}"@ + rest));
            assert(skip_ws(frest) == "}"@ + rest);
            lemma_function_exact(d, frest);
            let r6 = frest;
            let r7 = skip_ws(r6);
            assert(r7 == "}"@ + rest);
            assert(r7[0] == '}');
            assert(r7.subrange(1, r7.len() as int) =~= rest);
        },
        None => {
            // no default keyword: the text opens with the closing brace
            assert(!crate::text::spec_starts_with(r4, "default"@)) by {
                if crate::text::spec_starts_with(r4, "default"@) {
                    assert(r4.subrange(0, 7)[0] == r4[0]);
                    assert(r4[0] == 'd');
                    assert(r4[0] == '}');
                    vstd::utf8::char_u32_cast('d', 'd' as u32);
                    vstd::utf8::char_u32_cast('}', '}' as u32);
                }
            }
            let r7 = skip_ws(r4);
            lemma_skip_ws_id(r4);
            assert(r7 == r4);
            assert(r7[0] == '}');
            assert(r7.subrange(1, r7.len() as int) =~= rest);
        },
    }
}

/// The arm pairs a well-formed case's entries denote: each value is a
/// one-step action pipeline.
pub open spec fn case_pairs(cases: Seq<(Seq<char>, SpecVariableTransform)>) -> Seq<
    (Seq<char>, (Seq<char>, Seq<Seq<char>>)),
> {
    cases.map_values(
        |e: (Seq<char>, SpecVariableTransform)| (
            e.0,
            match e.1 {
                SpecVariableTransform::Action { command } => command[0],
                _ => (Seq::<char>::empty(), Seq::<Seq<char>>::empty()),
            },
        ),
    )
}

/// A transform the renderer and parser round-trip: sound text in every
/// field, and a case block with at least one arm or a default.
pub open spec fn renderable_vt(vt: SpecVariableTransform) -> bool {
    match vt {
        SpecVariableTransform::Str(t) => t.len() >= 1 && forall|k: int|
            0 <= k < t.len() ==> (#[trigger] t[k]) != '"',
        SpecVariableTransform::Int(_) => true,
        SpecVariableTransform::PatternAction { pattern, command } => pattern.len() >= 1 && (forall|
            j: int,
        |
            0 <= j < pattern.len() ==> (#[trigger] pattern[j]) != '/') && pipeline_wf(command),
        SpecVariableTransform::Action { .. } => false,
        SpecVariableTransform::Case { pattern, cases, default } => {
            &&& pattern.len() >= 1
            &&& forall|j: int| 0 <= j < pattern.len() ==> (#[trigger] pattern[j]) != '/'
            &&& forall|i: int|
                0 <= i < cases.len() ==> ((#[trigger] cases[i]).1 matches
                    SpecVariableTransform::Action { command } && command.len() == 1 && fn_wf(
                    command[0],
                ))
            &&& arms_wf(case_pairs(cases))
            &&& arm_keys_fresh(
                Seq::<(Seq<char>, (Seq<char>, Seq<Seq<char>>))>::empty(),
                case_pairs(cases),
            )
            &&& match default {
                Some(d) => d.len() == 1 && fn_wf(d[0]),
                None => cases.len() >= 1,
            }
        },
    }
}

/// The continuation a case render ends with: the default arm when there
/// is one, then the closing brace.
pub open spec fn case_cont(default: Option<SpecPipeline>, rest: Seq<char>) -> Seq<char> {
    match default {
        Some(d) => "default "@ + spec_render_function(d[0]) + " }"@ + rest,
        None => "}"@ + rest,
    }
}

/// A rendered case interior is the arms text ending in the continuation.
proof fn lemma_case_inner_text(
    cases: Seq<(Seq<char>, SpecVariableTransform)>,
    default: Option<SpecPipeline>,
    rest: Seq<char>,
)
    requires
        forall|i: int|
            0 <= i < cases.len() ==> ((#[trigger] cases[i]).1 matches
                SpecVariableTransform::Action { command } && command.len() == 1),
        match default {
            Some(d) => d.len() == 1,
            None => cases.len() >= 1,
        },
    ensures
        spec_render_case_inner(cases, default) + " }"@ + rest == arms_text(
            case_pairs(cases),
            case_cont(default, rest),
        ),
    decreases cases.len(),
{
    reveal_strlit(" ");
    reveal_strlit(" }");
    reveal_strlit("}");
    reveal_strlit("default ");
    assert(" "@.len() == 1 && " "@[0] == ' ');
    assert(" }"@.len() == 2 && " }"@[0] == ' ' && " }"@[1] == '}');
    assert("}"@.len() == 1 && "}"@[0] == '}');
    let parts = cases.map_values(
        |e: (Seq<char>, SpecVariableTransform)| spec_quoted(e.0) + " "@ + (match e.1 {
            SpecVariableTransform::Action { command } => if command.len() == 1 {
                spec_render_function(command[0])
            } else {
                Seq::<char>::empty()
            },
            _ => Seq::<char>::empty(),
        }),
    );
    if cases.len() == 0 {
        match default {
            Some(d) => {
                let all = parts.push("default "@ + spec_render_function(d[0]));
                assert(all.len() == 1);
                assert(spec_join(all, " "@) == all[0]);
                assert(spec_render_case_inner(cases, default) + " }"@ + rest =~= case_cont(
                    default,
                    rest,
                ));
                assert(arms_text(case_pairs(cases), case_cont(default, rest)) == case_cont(
                    default,
                    rest,
                )) by {
                    assert(case_pairs(cases).len() == 0);
                }
            },
            None => {},
        }
    } else {
        let e0 = cases[0];
        let f0 = match e0.1 {
            SpecVariableTransform::Action { command } => command[0],
            _ => (Seq::<char>::empty(), Seq::<Seq<char>>::empty()),
        };
        let arm0 = spec_quoted(e0.0) + " "@ + spec_render_function(f0);
        assert(parts[0] == arm0);
        let all: Seq<Seq<char>> = match default {
            Some(d) => parts.push("default "@ + spec_render_function(d[0])),
            None => parts,
        };
        let all_tail: Seq<Seq<char>> = match default {
            Some(d) => parts.drop_first().push("default "@ + spec_render_function(d[0])),
            None => parts.drop_first(),
        };
        assert(all.drop_first() =~= all_tail);
        assert(all[0] == arm0);
        if all.len() >= 2 {
            lemma_case_inner_text(cases.drop_first(), default, rest);
            assert(cases.drop_first().map_values(
                |e: (Seq<char>, SpecVariableTransform)| spec_quoted(e.0) + " "@ + (match e.1 {
                    SpecVariableTransform::Action { command } => if command.len() == 1 {
                        spec_render_function(command[0])
                    } else {
                        Seq::<char>::empty()
                    },
                    _ => Seq::<char>::empty(),
                }),
            ) =~= parts.drop_first());
            assert(case_pairs(cases.drop_first()) =~= case_pairs(cases).drop_first());
            lemma_join_head(all, " "@);
            assert(spec_render_case_inner(cases, default) == arm0 + " "@ + spec_join(
                all_tail,
                " "@,
            ));
            assert(spec_join(all_tail, " "@) == spec_render_case_inner(
                cases.drop_first(),
                default,
            ));
            assert(arms_text(case_pairs(cases), case_cont(default, rest)) =~= arm0 + " "@
                + arms_text(case_pairs(cases.drop_first()), case_cont(default, rest))) by {
                assert(case_pairs(cases)[0] == (e0.0, f0));
            }
            assert(spec_render_case_inner(cases, default) + " }"@ + rest =~= arm0 + " "@ + (
            spec_render_case_inner(cases.drop_first(), default) + " }"@ + rest));
        } else {
            // a single arm and no default
            assert(cases.len() == 1 && default is None);
            assert(spec_join(all, " "@) == arm0);
            let pr = case_pairs(cases);
            assert(pr[0] == (e0.0, f0));
            assert(arms_text(pr, case_cont(default, rest)) == spec_quoted(pr[0].0) + " "@
                + spec_render_function(pr[0].1) + " "@ + arms_text(
                pr.drop_first(),
                case_cont(default, rest),
            ));
            assert(pr.drop_first().len() == 0);
            assert(arms_text(pr.drop_first(), case_cont(default, rest)) == case_cont(
                default,
                rest,
            ));
            assert(arms_text(pr, case_cont(default, rest)) =~= arm0 + " "@ + ("}"@ + rest));
            assert(spec_render_case_inner(cases, default) + " }"@ + rest =~= arm0 + " "@ + ("}"@
                + rest));
        }
    }
}

/// A rendered transform parses back to exactly itself. The text left
/// over keeps its leading whitespace for literals and loses it for the
/// braced forms, which consume trailing whitespace themselves.
pub open spec fn vv_rest(vt: SpecVariableTransform, rest: Seq<char>) -> Seq<char> {
    match vt {
        SpecVariableTransform::PatternAction { .. } => skip_ws(rest),
        SpecVariableTransform::Case { .. } => skip_ws(rest),
        _ => rest,
    }
}

#[verifier::rlimit(100)]
pub proof fn lemma_vv_exact(vt: SpecVariableTransform, rest: Seq<char>)
    requires
        renderable_vt(vt),
        rest.len() == 0 || !crate::text::is_digit_char(rest[0]),
    ensures
        crate::parser::spec_parse_variable_value(spec_render_vt(vt) + rest)
            == crate::parser::SpecParsed::Done(vt, vv_rest(vt, rest)),
{
    reveal_strlit("/");
    reveal_strlit("/ { ");
    assert("/"@.len() == 1 && "/"@[0] == '/');
    assert("/ { "@.len() == 4 && "/ { "@[0] == '/');
    vstd::utf8::char_u32_cast('"', '"' as u32);
    vstd::utf8::char_u32_cast('/', '/' as u32);
    vstd::utf8::char_u32_cast('-', '-' as u32);
    match vt {
        SpecVariableTransform::Str(t) => {
            let s = spec_render_vt(vt) + rest;
            assert(s =~= spec_quoted(t) + rest);
            assert(s[0] == '"');
            assert(crate::parser::spec_parse_regex(s) is None);
            lemma_quoted_exact(t, rest);
        },
        SpecVariableTransform::Int(i) => {
            let s = spec_render_vt(vt) + rest;
            assert(s =~= spec_i32_text(i as int) + rest);
            if i < 0 {
                assert(spec_i32_text(i as int)[0] == '-');
            } else {
                crate::numbers::lemma_digits_of_all_digits(i as int);
                assert(crate::text::is_digit_char(spec_i32_text(i as int)[0]));
            }
            assert(s[0] == spec_i32_text(i as int)[0]);
            assert(s[0] != '/' && s[0] != '"') by {
                if i >= 0 {
                    vstd::utf8::char_u32_cast(s[0], s[0] as u32);
                }
            }
            assert(crate::parser::spec_parse_regex(s) is None);
            assert(crate::parser::spec_parse_quoted(s) is None);
            lemma_int_exact(i, rest);
        },
        SpecVariableTransform::PatternAction { pattern, command } => {
            let s = spec_render_vt(vt) + rest;
            assert(s =~= "/"@ + pattern + "/ { "@ + spec_render_pipeline(command) + " }"@ + rest);
            lemma_pattern_action_exact(pattern, command, rest);
        },
        SpecVariableTransform::Action { .. } => {},
        SpecVariableTransform::Case { pattern, cases, default } => {
            let s = spec_render_vt(vt) + rest;
            lemma_case_inner_text(cases, default, rest);
            let pairs = case_pairs(cases);
            let cont = case_cont(default, rest);
            assert(s =~= "/"@ + pattern + "/ { "@ + arms_text(pairs, cont)
                + Seq::<char>::empty());
            let dpair: Option<(Seq<char>, Seq<Seq<char>>)> = match default {
                Some(d) => Some(d[0]),
                None => None,
            };
            assert(cont == (match dpair {
                Some(d) => "default "@ + spec_render_function(d) + " }"@ + rest,
                None => "}"@ + rest,
            }));
            lemma_case_block_exact(pattern, pairs, dpair, rest);
            lemma_case_pa_fails(pattern, pairs, dpair, rest);
            // the parse gives the pairs back; mapping them to one-step
            // actions gives the arms as they were
            let mapped_back = pairs.map_values(
                |e: (Seq<char>, (Seq<char>, Seq<Seq<char>>))| (
                    e.0,
                    SpecVariableTransform::Action { command: seq![e.1] },
                ),
            );
            assert forall|i: int| 0 <= i < cases.len() implies mapped_back[i] == cases[i] by {
                assert(cases[i].1 matches SpecVariableTransform::Action { command } ==> (seq![
                    command[0],
                ] =~= command));
            }
            assert(mapped_back =~= cases);
            assert((match dpair {
                Some(f) => Some(seq![f]),
                None => None,
            }) == default) by {
                match default {
                    Some(d) => {
                        assert(seq![d[0]] =~= d);
                    },
                    None => {},
                }
            }
        },
    }
}

/// A rendered case block never reads as a pattern action: its interior
/// opens with a quoted key or the default keyword, which the pipeline
/// grammar leaves standing before the closing brace.
proof fn lemma_case_pa_fails(
    p: Seq<char>,
    arms: Seq<(Seq<char>, (Seq<char>, Seq<Seq<char>>))>,
    default: Option<(Seq<char>, Seq<Seq<char>>)>,
    rest: Seq<char>,
)
    requires
        p.len() >= 1,
        forall|j: int| 0 <= j < p.len() ==> (#[trigger] p[j]) != '/',
        arms_wf(arms),
        match default {
            Some(d) => fn_wf(d),
            None => arms.len() >= 1,
        },
    ensures
        crate::parser::spec_parse_pattern_action(
            "/"@ + p + "/ { "@ + arms_text(
                arms,
                match default {
                    Some(d) => "default "@ + spec_render_function(d) + " }"@ + rest,
                    None => "}"@ + rest,
                },
            ) + Seq::<char>::empty(),
        ) is None,
{
    reveal_strlit("/");
    reveal_strlit("/ { ");
    reveal_strlit("default ");
    reveal_strlit(" }");
    reveal_strlit("}");
    reveal_strlit(" ");
    assert("/"@.len() == 1 && "/"@[0] == '/');
    assert("/ { "@.len() == 4 && "/ { "@[0] == '/' && "/ { "@[1] == ' ' && "/ { "@[2] == '{'
        && "/ { "@[3] == ' ');
    assert("default "@.len() == 8 && "default "@[0] == 'd' && "default "@[1] == 'e'
        && "default "@[2] == 'f' && "default "@[3] == 'a' && "default "@[4] == 'u' && "default "@[5]
        == 'l' && "default "@[6] == 't' && "default "@[7] == ' ');
    assert(" }"@.len() == 2 && " }"@[0] == ' ' && " }"@[1] == '}');
    assert("}"@.len() == 1 && "}"@[0] == '}');
    assert(" "@.len() == 1 && " "@[0] == ' ');
    let cont: Seq<char> = match default {
        Some(d) => "default "@ + spec_render_function(d) + " }"@ + rest,
        None => "}"@ + rest,
    };
    let inner = arms_text(arms, cont);
    let s = "/"@ + p + "/ { "@ + inner + Seq::<char>::empty();
    let rest1 = seq![' '] + (seq!['{'] + (seq![' '] + inner));
    assert(s =~= seq!['/'] + p + seq!['/'] + rest1);
    lemma_regex_exact(p, rest1);
    let brace_on = seq!['{'] + (seq![' '] + inner);
    lemma_skip_ws_concat(seq![' '], brace_on);
    assert(rest1 =~= seq![' '] + brace_on);
    assert(skip_ws(rest1) == brace_on);
    assert(brace_on[0] == '{');
    let after_brace = brace_on.subrange(1, brace_on.len() as int);
    assert(after_brace =~= seq![' '] + inner);
    if arms.len() > 0 {
        assert(inner =~= spec_quoted(arms[0].0) + " "@ + spec_render_function(arms[0].1) + " "@
            + arms_text(arms.drop_first(), cont));
        assert(inner[0] == '"');
        lemma_skip_ws_concat(seq![' '], inner);
        let r3 = skip_ws(after_brace);
        assert(r3 == inner);
        assert(!is_ident_char('"')) by {
            vstd::utf8::char_u32_cast('"', '"' as u32);
        }
        assert(run_len(r3, |c: char| is_ident_char(c)) == 0);
        assert(spec_parse_function(r3) is None);
        lemma_skip_ws_id(r3);
        assert(r3[0] != '}') by {
            vstd::utf8::char_u32_cast('"', '"' as u32);
            vstd::utf8::char_u32_cast('}', '}' as u32);
        }
    } else {
        let d = default->0;
        assert(inner == cont);
        assert(inner =~= "default"@ + (seq![' '] + (spec_render_function(d) + (" "@ + ("}"@
            + rest))))) by {
            reveal_strlit("default");
            assert("default"@.len() == 7);
            assert(" }"@ + rest =~= " "@ + ("}"@ + rest));
        }
        assert(inner[0] == 'd');
        lemma_skip_ws_concat(seq![' '], inner);
        let r3 = skip_ws(after_brace);
        assert(r3 == inner);
        // the pipeline reads `default` as a bare function name
        reveal_strlit("default");
        assert(forall|j: int|
            0 <= j < "default"@.len() ==> is_ident_char(#[trigger] "default"@[j]));
        let after_name = seq![' '] + (spec_render_function(d) + (" "@ + ("}"@ + rest)));
        assert(!is_ident_char(' ')) by {
            vstd::utf8::char_u32_cast(' ', ' ' as u32);
        }
        lemma_run_len_concat("default"@, after_name, |c: char| is_ident_char(c));
        assert(run_len(r3, |c: char| is_ident_char(c)) == 7);
        assert(r3.subrange(7, r3.len() as int) =~= after_name);
        let fnr = spec_render_function(d);
        assert(is_ident_char(fnr[0])) by {
            assert(fnr[0] == d.0[0]);
        }
        lemma_ident_not_special(fnr[0]);
        lemma_skip_ws_concat(seq![' '], fnr + (" "@ + ("}"@ + rest)));
        let tw = skip_ws(after_name);
        assert(tw == fnr + (" "@ + ("}"@ + rest)));
        assert(tw[0] == fnr[0]);
        assert(tw.len() > 0 && tw[0] != '(');
        // so the function is `default` with no arguments
        let fres = spec_parse_function(r3);
        assert(fres == Some((("default"@, Seq::<Seq<char>>::empty()), after_name)));
        // the pipeline stops: after the name comes the rendered function,
        // not a separator
        assert(tw[0] != '|');
        let pres = spec_parse_pipeline(r3);
        assert(pres == (seq![("default"@, Seq::<Seq<char>>::empty())], after_name));
        // and the closing brace check fails on the function name
        let r5 = skip_ws(after_name);
        assert(r5 == fnr + (" "@ + ("}"@ + rest)));
        assert(r5[0] != '}');
    }
}

/// An all-whitespace prefix never changes what `skip_ws` leaves.
pub proof fn lemma_skip_ws_ws_prefix(w: Seq<char>, t: Seq<char>)
    requires
        forall|j: int| 0 <= j < w.len() ==> is_ws_char(#[trigger] w[j]),
    ensures
        skip_ws(w + t) == skip_ws(t),
{
    lemma_run_len(t, |c: char| is_ws_char(c));
    let rt = run_len(t, |c: char| is_ws_char(c)) as int;
    let a = w + t.subrange(0, rt);
    let b = skip_ws(t);
    assert(forall|j: int| 0 <= j < a.len() ==> is_ws_char(#[trigger] a[j])) by {
        assert(forall|j: int| 0 <= j < rt ==> is_ws_char(#[trigger] t[j]));
        assert(forall|j: int|
            0 <= j < a.len() ==> a[j] == (if j < w.len() {
                w[j]
            } else {
                t[j - w.len()]
            }));
    }
    if b.len() > 0 {
        assert(b[0] == t[rt]);
        assert(!is_ws_char(b[0]));
    }
    lemma_skip_ws_concat(a, b);
    assert(w + t =~= a + b);
}

/// The head of a rendered variables block is its first entry line.
proof fn lemma_var_entries_head(s: Seq<(Seq<char>, SpecVariableTransform)>)
    requires
        s.len() >= 1,
    ensures
        spec_render_var_entries(s) == "  "@ + spec_quoted(s[0].0) + ": "@ + spec_render_vt(s[0].1)
            + "\n"@ + spec_render_var_entries(s.drop_first()),
    decreases s.len(),
{
    if s.len() == 1 {
        assert(s.subrange(0, 0) =~= Seq::<(Seq<char>, SpecVariableTransform)>::empty());
        assert(s.drop_first() =~= Seq::<(Seq<char>, SpecVariableTransform)>::empty());
        assert(spec_render_var_entries(s) =~= "  "@ + spec_quoted(s[0].0) + ": "@ + spec_render_vt(
            s[0].1,
        ) + "\n"@ + spec_render_var_entries(s.drop_first()));
    } else {
        let pre = s.subrange(0, s.len() - 1);
        lemma_var_entries_head(pre);
        assert(pre[0] == s[0]);
        assert(pre.drop_first() =~= s.drop_first().subrange(0, s.drop_first().len() - 1));
        assert(s.drop_first()[s.drop_first().len() - 1] == s[s.len() - 1]);
        assert(spec_render_var_entries(s.drop_first()) == spec_render_var_entries(
            s.drop_first().subrange(0, s.drop_first().len() - 1),
        ) + "  "@ + spec_quoted(s[s.len() - 1].0) + ": "@ + spec_render_vt(s[s.len() - 1].1)
            + "\n"@);
        assert(spec_render_var_entries(s) =~= "  "@ + spec_quoted(s[0].0) + ": "@
            + spec_render_vt(s[0].1) + "\n"@ + spec_render_var_entries(s.drop_first()));
    }
}

/// A rendered variables entry parses back to itself from any input whose
/// whitespace-stripped form is the entry's text.
proof fn lemma_variable_exact(s: Seq<char>, k: Seq<char>, vt: SpecVariableTransform, tail: Seq<
    char,
>)
    requires
        k.len() >= 1,
        forall|j: int| 0 <= j < k.len() ==> (#[trigger] k[j]) != '"',
        renderable_vt(vt),
        tail.len() > 0 && tail[0] == '\n',
        skip_ws(s) == spec_quoted(k) + ": "@ + spec_render_vt(vt) + tail,
    ensures
        crate::parser::spec_parse_variable(s) == crate::parser::SpecParsed::Done(
            (k, vt),
            vv_rest(vt, tail),
        ),
{
    reveal_strlit(": ");
    assert(": "@.len() == 2 && ": "@[0] == ':' && ": "@[1] == ' ');
    let sw = skip_ws(s);
    let vtr = spec_render_vt(vt);
    let after_q = ": "@ + vtr + tail;
    assert(sw =~= spec_quoted(k) + after_q);
    lemma_quoted_exact(k, after_q);
    let r1 = after_q;
    lemma_skip_ws_id(r1);
    assert(r1[0] == ':');
    let r2 = r1;
    let after_colon = r2.subrange(1, r2.len() as int);
    assert(after_colon =~= seq![' '] + (vtr + tail));
    assert(vtr.len() >= 1 && !is_ws_char(vtr[0])) by {
        vstd::utf8::char_u32_cast('"', '"' as u32);
        vstd::utf8::char_u32_cast('/', '/' as u32);
        vstd::utf8::char_u32_cast('-', '-' as u32);
        match vt {
            SpecVariableTransform::Str(t) => {
                assert(vtr[0] == '"');
            },
            SpecVariableTransform::Int(i) => {
                if i < 0 {
                    assert(vtr[0] == '-');
                } else {
                    crate::numbers::lemma_digits_of_all_digits(i as int);
                    assert(crate::text::is_digit_char(vtr[0]));
                    vstd::utf8::char_u32_cast(vtr[0], vtr[0] as u32);
                }
            },
            SpecVariableTransform::PatternAction { .. } => {
                reveal_strlit("/");
                assert(vtr[0] == '/');
            },
            SpecVariableTransform::Case { .. } => {
                reveal_strlit("/");
                assert(vtr[0] == '/');
            },
            SpecVariableTransform::Action { .. } => {},
        }
    }
    lemma_skip_ws_concat(seq![' '], vtr + tail);
    let r3 = skip_ws(after_colon);
    assert(r3 == vtr + tail);
    assert(tail[0] != '0' && !crate::text::is_digit_char(tail[0])) by {
        vstd::utf8::char_u32_cast(tail[0], tail[0] as u32);
        vstd::utf8::char_u32_cast('\n', '\n' as u32);
    }
    lemma_vv_exact(vt, tail);
}

/// Rendered variables fold back into exactly themselves, in order.
proof fn lemma_variables_exact(
    acc: Seq<(Seq<char>, SpecVariableTransform)>,
    entries: Seq<(Seq<char>, SpecVariableTransform)>,
    s: Seq<char>,
    trail: Seq<char>,
)
    requires
        forall|i: int|
            0 <= i < entries.len() ==> (#[trigger] entries[i]).0.len() >= 1 && (forall|j: int|
                0 <= j < entries[i].0.len() ==> entries[i].0[j] != '"') && renderable_vt(
                entries[i].1,
            ),
        forall|i: int, j: int| 0 <= i < j < entries.len() ==> entries[i].0 != entries[j].0,
        forall|i: int, j: int|
            0 <= i < acc.len() && 0 <= j < entries.len() ==> (#[trigger] acc[i]).0 != (
            #[trigger] entries[j]).0,
        skip_ws(s) == skip_ws(spec_render_var_entries(entries) + trail),
        skip_ws(trail).len() == 0 || skip_ws(trail)[0] != '"',
    ensures
        match crate::parser::spec_parse_variables(acc, s) {
            crate::parser::SpecParsed::Done(res, rf) => res == acc + entries && skip_ws(rf)
                == skip_ws(trail),
            _ => false,
        },
    decreases entries.len(),
{
    reveal_strlit("  ");
    assert("  "@.len() == 2 && "  "@[0] == ' ' && "  "@[1] == ' ');
    reveal_strlit("\n");
    assert("\n"@.len() == 1 && "\n"@[0] == '\n');
    if entries.len() == 0 {
        assert(spec_render_var_entries(entries) + trail =~= trail);
        let sw = skip_ws(s);
        assert(sw == skip_ws(trail));
        assert(spec_parse_quoted(sw) is None) by {
            if sw.len() > 0 {
                assert(sw[0] != '"');
            }
        }
        assert(acc + entries =~= acc);
        lemma_skip_ws_idem(s);
    } else {
        let k0 = entries[0].0;
        let vt0 = entries[0].1;
        lemma_var_entries_head(entries);
        let tail0 = "\n"@ + spec_render_var_entries(entries.drop_first()) + trail;
        assert(spec_render_var_entries(entries) + trail =~= "  "@ + (spec_quoted(k0) + ": "@
            + spec_render_vt(vt0) + tail0));
        lemma_skip_ws_ws_prefix("  "@, spec_quoted(k0) + ": "@ + spec_render_vt(vt0) + tail0);
        assert(skip_ws(spec_quoted(k0) + ": "@ + spec_render_vt(vt0) + tail0) == spec_quoted(k0)
            + ": "@ + spec_render_vt(vt0) + tail0) by {
            lemma_skip_ws_id(spec_quoted(k0) + ": "@ + spec_render_vt(vt0) + tail0);
        }
        assert(skip_ws(s) == spec_quoted(k0) + ": "@ + spec_render_vt(vt0) + tail0);
        assert(tail0[0] == '\n');
        lemma_variable_exact(s, k0, vt0, tail0);
        let after = vv_rest(vt0, tail0);
        let r2 = skip_ws(after);
        assert(r2 == skip_ws(tail0)) by {
            match vt0 {
                SpecVariableTransform::PatternAction { .. } => {
                    lemma_skip_ws_idem(tail0);
                },
                SpecVariableTransform::Case { .. } => {
                    lemma_skip_ws_idem(tail0);
                },
                _ => {},
            }
        }
        assert(skip_ws(tail0) == skip_ws(
            spec_render_var_entries(entries.drop_first()) + trail,
        )) by {
            lemma_skip_ws_ws_prefix(
                "\n"@,
                spec_render_var_entries(entries.drop_first()) + trail,
            );
            assert(tail0 =~= "\n"@ + (spec_render_var_entries(entries.drop_first()) + trail));
        }
        crate::parser::lemma_upsert_shape(acc, k0, vt0);
        assert(forall|i: int| 0 <= i < acc.len() ==> (#[trigger] acc[i]).0 != k0);
        assert(crate::parser::upsert(acc, k0, vt0) == acc.push((k0, vt0)));
        assert((k0, vt0) == entries[0]);
        assert(forall|j: int|
            0 <= j < entries.drop_first().len() ==> #[trigger] entries.drop_first()[j] == entries[j
            + 1]);
        lemma_skip_ws_idem(after);
        lemma_variables_exact(acc.push(entries[0]), entries.drop_first(), r2, trail);
        assert(acc.push(entries[0]) + entries.drop_first() =~= acc + entries);
        // the fold's guard held: the entry consumed text
        crate::parser::lemma_variable_progress(s);
        lemma_skip_ws_le(after);
        assert(r2.len() < s.len());
    }
}

/// One header entry consumed: the record gains the field, the text moves
/// past the line.
proof fn lemma_hh_name_step(h: SpecHobbitHole, nm: Seq<char>, tail: Seq<char>)
    requires
        nm.len() >= 1,
        forall|j: int| 0 <= j < nm.len() ==> (#[trigger] nm[j]) != '"',
        tail.len() > 0,
        !is_ws_char(tail[0]),
    ensures
        crate::parser::spec_parse_hh_entries(h, "name: "@ + spec_quoted(nm) + "\n"@ + tail)
            == crate::parser::spec_parse_hh_entries(SpecHobbitHole { name: nm, ..h }, tail),
{
    reveal_strlit("name: ");
    reveal_strlit("name");
    reveal_strlit("---");
    reveal_strlit("\n");
    assert("name: "@.len() == 6 && "name: "@[0] == 'n' && "name: "@[1] == 'a' && "name: "@[2]
        == 'm' && "name: "@[3] == 'e' && "name: "@[4] == ':' && "name: "@[5] == ' ');
    assert("name"@.len() == 4 && "name"@[0] == 'n' && "name"@[1] == 'a' && "name"@[2] == 'm'
        && "name"@[3] == 'e');
    assert("---"@.len() == 3 && "---"@[0] == '-');
    assert("\n"@.len() == 1 && "\n"@[0] == '\n');
    let s = "name: "@ + spec_quoted(nm) + "\n"@ + tail;
    assert(s[0] == 'n');
    assert(!crate::text::spec_starts_with(s, "---"@)) by {
        if crate::text::spec_starts_with(s, "---"@) {
            assert(s.subrange(0, 3)[0] == s[0]);
            vstd::utf8::char_u32_cast('n', 'n' as u32);
            vstd::utf8::char_u32_cast('-', '-' as u32);
        }
    }
    // the key
    let after_key = seq![':'] + (seq![' '] + (spec_quoted(nm) + ("\n"@ + tail)));
    assert(s =~= "name"@ + after_key);
    assert(forall|j: int| 0 <= j < "name"@.len() ==> is_ident_char(#[trigger] "name"@[j]));
    assert(!is_ident_char(':')) by {
        vstd::utf8::char_u32_cast(':', ':' as u32);
    }
    lemma_run_len_concat("name"@, after_key, |c: char| is_ident_char(c));
    assert(run_len(s, |c: char| is_ident_char(c)) == 4);
    assert(s.subrange(0, 4) =~= "name"@);
    assert(s.subrange(4, s.len() as int) =~= after_key);
    assert(!is_ws_char(':'));
    lemma_skip_ws_id(after_key);
    assert(after_key[0] == ':');
    let after_colon = after_key.subrange(1, after_key.len() as int);
    assert(after_colon =~= seq![' '] + (spec_quoted(nm) + ("\n"@ + tail)));
    assert(!is_ws_char('"')) by {
        vstd::utf8::char_u32_cast('"', '"' as u32);
    }
    assert((spec_quoted(nm) + ("\n"@ + tail))[0] == '"');
    lemma_skip_ws_concat(seq![' '], spec_quoted(nm) + ("\n"@ + tail));
    let r = skip_ws(after_colon);
    assert(r == spec_quoted(nm) + ("\n"@ + tail));
    lemma_quoted_exact(nm, "\n"@ + tail);
    assert(crate::parser::spec_key_kind(s.subrange(0, 4)) == crate::parser::HobbitHoleKey::Name);
    // step to the next entry
    assert(is_ws_char('\n'));
    lemma_skip_ws_ws_prefix("\n"@, tail);
    lemma_skip_ws_id(tail);
    assert(skip_ws("\n"@ + tail) == tail);
    assert(tail.len() < s.len());
}

/// A run-valued header entry consumed: description, interaction, or
/// action location.
proof fn lemma_hh_run_step(
    h: SpecHobbitHole,
    key_text: Seq<char>,
    key_ident: Seq<char>,
    value: Seq<char>,
    h2: SpecHobbitHole,
    tail: Seq<char>,
)
    requires
        key_text == key_ident + seq![':'] + seq![' '],
        key_ident.len() >= 1,
        forall|j: int| 0 <= j < key_ident.len() ==> is_ident_char(#[trigger] key_ident[j]),
        value.len() >= 1,
        forall|j: int| 0 <= j < value.len() ==> (#[trigger] value[j]) != '|' && value[j] != '\n',
        !is_ws_char(value[0]),
        tail.len() > 0,
        !is_ws_char(tail[0]),
        ({
            let m = value.len() as int;
            match crate::parser::spec_key_kind(key_ident) {
                crate::parser::HobbitHoleKey::Description => h2 == SpecHobbitHole {
                    description: Some(value),
                    ..h
                },
                crate::parser::HobbitHoleKey::Interaction => h2 == SpecHobbitHole {
                    interaction: Some(crate::parser::spec_interaction_from(value)),
                    ..h
                },
                crate::parser::HobbitHoleKey::ActionLocation => h2 == SpecHobbitHole {
                    action_location: Some(crate::parser::spec_location_from(value)),
                    ..h
                },
                _ => false,
            }
        }),
    ensures
        crate::parser::spec_parse_hh_entries(h, key_text + value + "\n"@ + tail)
            == crate::parser::spec_parse_hh_entries(h2, tail),
{
    reveal_strlit("---");
    reveal_strlit("\n");
    assert("---"@.len() == 3 && "---"@[0] == '-');
    assert("\n"@.len() == 1 && "\n"@[0] == '\n');
    let s = key_text + value + "\n"@ + tail;
    assert(s[0] == key_ident[0]);
    lemma_ident_not_special(key_ident[0]);
    assert(!crate::text::spec_starts_with(s, "---"@)) by {
        if crate::text::spec_starts_with(s, "---"@) {
            assert(s.subrange(0, 3)[0] == s[0]);
        }
    }
    let after_key = seq![':'] + (seq![' '] + (value + ("\n"@ + tail)));
    assert(s =~= key_ident + after_key);
    assert(!is_ident_char(':')) by {
        vstd::utf8::char_u32_cast(':', ':' as u32);
    }
    lemma_run_len_concat(key_ident, after_key, |c: char| is_ident_char(c));
    let n = key_ident.len() as int;
    assert(run_len(s, |c: char| is_ident_char(c)) == n);
    assert(s.subrange(0, n) =~= key_ident);
    assert(s.subrange(n, s.len() as int) =~= after_key);
    assert(!is_ws_char(':'));
    lemma_skip_ws_id(after_key);
    assert(after_key[0] == ':');
    let after_colon = after_key.subrange(1, after_key.len() as int);
    assert(after_colon =~= seq![' '] + (value + ("\n"@ + tail)));
    lemma_skip_ws_concat(seq![' '], value + ("\n"@ + tail));
    let r = skip_ws(after_colon);
    assert(r == value + ("\n"@ + tail));
    // the value runs to the end of the line
    assert(("\n"@ + tail)[0] == '\n');
    lemma_run_len_concat(value, "\n"@ + tail, |c: char| c != '|' && c != '\n');
    let m = value.len() as int;
    assert(run_len(r, |c: char| c != '|' && c != '\n') == m);
    assert(r.subrange(0, m) =~= value);
    assert(r.subrange(m, r.len() as int) =~= "\n"@ + tail);
    // step to the next entry
    lemma_skip_ws_ws_prefix("\n"@, tail);
    lemma_skip_ws_id(tail);
    assert(skip_ws("\n"@ + tail) == tail);
    assert(tail.len() < s.len());
}

/// The variables block consumed: the record gains the whole mapping.
proof fn lemma_hh_variables_step(
    h: SpecHobbitHole,
    entries: Seq<(Seq<char>, SpecVariableTransform)>,
    tail: Seq<char>,
)
    requires
        entries.len() >= 1,
        forall|i: int|
            0 <= i < entries.len() ==> (#[trigger] entries[i]).0.len() >= 1 && (forall|j: int|
                0 <= j < entries[i].0.len() ==> entries[i].0[j] != '"') && renderable_vt(
                entries[i].1,
            ),
        forall|i: int, j: int| 0 <= i < j < entries.len() ==> entries[i].0 != entries[j].0,
        tail.len() > 0,
        !is_ws_char(tail[0]),
        tail[0] != '"',
    ensures
        crate::parser::spec_parse_hh_entries(
            h,
            "variables:\n"@ + spec_render_var_entries(entries) + tail,
        ) == crate::parser::spec_parse_hh_entries(
            SpecHobbitHole { variables: entries, ..h },
            tail,
        ),
{
    reveal_strlit("variables:\n");
    reveal_strlit("variables");
    reveal_strlit("---");
    reveal_strlit("\n");
    assert("variables:\n"@.len() == 11 && "variables:\n"@[0] == 'v' && "variables:\n"@[1] == 'a'
        && "variables:\n"@[2] == 'r' && "variables:\n"@[3] == 'i' && "variables:\n"@[4] == 'a'
        && "variables:\n"@[5] == 'b' && "variables:\n"@[6] == 'l' && "variables:\n"@[7] == 'e'
        && "variables:\n"@[8] == 's' && "variables:\n"@[9] == ':' && "variables:\n"@[10] == '\n');
    assert("variables"@.len() == 9 && "variables"@[0] == 'v' && "variables"@[1] == 'a'
        && "variables"@[2] == 'r' && "variables"@[3] == 'i' && "variables"@[4] == 'a'
        && "variables"@[5] == 'b' && "variables"@[6] == 'l' && "variables"@[7] == 'e'
        && "variables"@[8] == 's');
    assert("---"@.len() == 3 && "---"@[0] == '-');
    assert("\n"@.len() == 1 && "\n"@[0] == '\n');
    let rve = spec_render_var_entries(entries);
    let s = "variables:\n"@ + rve + tail;
    assert(s[0] == 'v');
    assert(!crate::text::spec_starts_with(s, "---"@)) by {
        if crate::text::spec_starts_with(s, "---"@) {
            assert(s.subrange(0, 3)[0] == s[0]);
            vstd::utf8::char_u32_cast('v', 'v' as u32);
            vstd::utf8::char_u32_cast('-', '-' as u32);
        }
    }
    let after_key = seq![':'] + (seq!['\n'] + (rve + tail));
    assert(s =~= "variables"@ + after_key);
    assert(forall|j: int|
        0 <= j < "variables"@.len() ==> is_ident_char(#[trigger] "variables"@[j]));
    assert(!is_ident_char(':')) by {
        vstd::utf8::char_u32_cast(':', ':' as u32);
    }
    lemma_run_len_concat("variables"@, after_key, |c: char| is_ident_char(c));
    assert(run_len(s, |c: char| is_ident_char(c)) == 9);
    assert(s.subrange(0, 9) =~= "variables"@);
    assert(s.subrange(9, s.len() as int) =~= after_key);
    assert(!is_ws_char(':'));
    lemma_skip_ws_id(after_key);
    assert(after_key[0] == ':');
    let after_colon = after_key.subrange(1, after_key.len() as int);
    assert(after_colon =~= seq!['\n'] + (rve + tail));
    assert(crate::parser::spec_key_kind(s.subrange(0, 9))
        == crate::parser::HobbitHoleKey::Variables) by {
        reveal_strlit("name");
        reveal_strlit("description");
        reveal_strlit("interaction");
        reveal_strlit("actionLocation");
        assert("name"@.len() == 4 && "description"@.len() == 11 && "interaction"@.len() == 11
            && "actionLocation"@.len() == 14);
    }
    let r = skip_ws(after_colon);
    assert(r == skip_ws(rve + tail)) by {
        lemma_skip_ws_ws_prefix(seq!['\n'], rve + tail);
    }
    lemma_skip_ws_idem(rve + tail);
    lemma_skip_ws_idem(r);
    lemma_skip_ws_id(tail);
    lemma_variables_exact(
        Seq::<(Seq<char>, SpecVariableTransform)>::empty(),
        entries,
        r,
        tail,
    );
    let res = crate::parser::spec_parse_variables(
        Seq::<(Seq<char>, SpecVariableTransform)>::empty(),
        r,
    );
    assert(res matches crate::parser::SpecParsed::Done(vars, rf) && vars == Seq::<
        (Seq<char>, SpecVariableTransform),
    >::empty() + entries && skip_ws(rf) == tail);
    assert(Seq::<(Seq<char>, SpecVariableTransform)>::empty() + entries =~= entries);
    // progress: the fold moves past the whole block
    match res {
        crate::parser::SpecParsed::Done(vars, rf) => {
            assert(skip_ws(rf) == tail);
            assert(tail.len() < s.len());
        },
        _ => {},
    }
}

/// The closing fence ends the entries with the record as it stands.
proof fn lemma_hh_fence(h: SpecHobbitHole)
    ensures
        crate::parser::spec_parse_hh_entries(h, "---"@) == crate::parser::SpecParsed::Done(
            h,
            Seq::<char>::empty(),
        ),
{
    reveal_strlit("---");
    assert("---"@.len() == 3);
    assert("---"@.subrange(0, 3) =~= "---"@);
    assert(crate::text::spec_starts_with("---"@, "---"@));
    assert("---"@.subrange(3, 3) =~= Seq::<char>::empty());
    assert(skip_ws(Seq::<char>::empty()) =~= Seq::<char>::empty());
}

/// An interaction's canonical name is a plain one-line value.
proof fn lemma_interaction_name_chars(i: InteractionType)
    ensures
        spec_interaction_name(i).len() >= 1,
        !is_ws_char(spec_interaction_name(i)[0]),
        forall|j: int|
            0 <= j < spec_interaction_name(i).len() ==> (#[trigger] spec_interaction_name(i)[j])
                != '|' && spec_interaction_name(i)[j] != '\n',
{
    reveal_strlit("AppendCursor");
    reveal_strlit("AppendCursorStream");
    reveal_strlit("OutputFile");
    reveal_strlit("ReplaceSelection");
    reveal_strlit("ReplaceCurrentFile");
    reveal_strlit("InsertBeforeSelection");
    reveal_strlit("RunPanel");
    reveal_strlit("OnPaste");
}

/// Reading an interaction's canonical name back gives the interaction.
proof fn lemma_interaction_round(i: InteractionType)
    ensures
        crate::parser::spec_interaction_from(spec_interaction_name(i)) == i,
{
    reveal_strlit("AppendCursor");
    reveal_strlit("AppendCursorStream");
    reveal_strlit("OutputFile");
    reveal_strlit("ReplaceSelection");
    reveal_strlit("ReplaceCurrentFile");
    reveal_strlit("InsertBeforeSelection");
    reveal_strlit("RunPanel");
    reveal_strlit("OnPaste");
    reveal_strlit("appendcursor");
    reveal_strlit("appendcursorstream");
    reveal_strlit("outputfile");
    reveal_strlit("replaceselection");
    reveal_strlit("replacecurrentfile");
    reveal_strlit("insertbeforeselection");
    reveal_strlit("runpanel");
    reveal_strlit("onpaste");
    match i {
        InteractionType::AppendCursor => {
            assert(crate::text::spec_lower("AppendCursor"@) =~= "appendcursor"@);
        },
        InteractionType::AppendCursorStream => {
            assert(crate::text::spec_lower("AppendCursorStream"@) =~= "appendcursorstream"@);
            assert("appendcursorstream"@.len() != "appendcursor"@.len());
        },
        InteractionType::OutputFile => {
            assert(crate::text::spec_lower("OutputFile"@) =~= "outputfile"@);
            assert("outputfile"@.len() == 10);
        },
        InteractionType::ReplaceSelection => {
            assert(crate::text::spec_lower("ReplaceSelection"@) =~= "replaceselection"@);
            assert("replaceselection"@.len() == 16);
        },
        InteractionType::ReplaceCurrentFile => {
            assert(crate::text::spec_lower("ReplaceCurrentFile"@) =~= "replacecurrentfile"@);
            assert("replacecurrentfile"@.len() == 18 && "appendcursorstream"@.len() == 18);
            assert("replacecurrentfile"@[0] == 'r' && "appendcursorstream"@[0] == 'a');
            vstd::utf8::char_u32_cast('r', 'r' as u32);
            vstd::utf8::char_u32_cast('a', 'a' as u32);
        },
        InteractionType::InsertBeforeSelection => {
            assert(crate::text::spec_lower("InsertBeforeSelection"@) =~= "insertbeforeselection"@);
            assert("insertbeforeselection"@.len() == 21);
        },
        InteractionType::RunPanel => {
            assert(crate::text::spec_lower("RunPanel"@) =~= "runpanel"@);
            assert("runpanel"@.len() == 8);
        },
        InteractionType::OnPaste => {
            assert(crate::text::spec_lower("OnPaste"@) =~= "onpaste"@);
            assert("onpaste"@.len() == 7);
        },
    }
}

/// A location's canonical name is a plain one-line value.
proof fn lemma_location_name_chars(a: ShireActionLocation)
    ensures
        spec_location_name(a).len() >= 1,
        !is_ws_char(spec_location_name(a)[0]),
        forall|j: int|
            0 <= j < spec_location_name(a).len() ==> (#[trigger] spec_location_name(a)[j]) != '|'
                && spec_location_name(a)[j] != '\n',
{
    reveal_strlit("ContextMenu");
    reveal_strlit("IntentionMenu");
    reveal_strlit("TerminalMenu");
    reveal_strlit("CommitMenu");
    reveal_strlit("RunPanel");
    reveal_strlit("InputBox");
}

/// Reading a location's canonical name back gives the location.
proof fn lemma_location_round(a: ShireActionLocation)
    ensures
        crate::parser::spec_location_from(spec_location_name(a)) == a,
{
    reveal_strlit("ContextMenu");
    reveal_strlit("IntentionMenu");
    reveal_strlit("TerminalMenu");
    reveal_strlit("CommitMenu");
    reveal_strlit("RunPanel");
    reveal_strlit("InputBox");
    assert("ContextMenu"@.len() == 11 && "IntentionMenu"@.len() == 13 && "TerminalMenu"@.len()
        == 12 && "CommitMenu"@.len() == 10 && "RunPanel"@.len() == 8 && "InputBox"@.len() == 8);
    if a == ShireActionLocation::InputBox {
        assert("InputBox"@[0] == 'I' && "RunPanel"@[0] == 'R');
        vstd::utf8::char_u32_cast('I', 'I' as u32);
        vstd::utf8::char_u32_cast('R', 'R' as u32);
    }
}

/// A header the renderer and parser round-trip: quote-free name, a plain
/// one-line description, well-formed variables with distinct keys.
pub open spec fn spec_renderable_hole(h: SpecHobbitHole) -> bool {
    &&& forall|j: int| 0 <= j < h.name.len() ==> (#[trigger] h.name[j]) != '"'
    &&& match h.description {
        Some(d) => d.len() >= 1 && !is_ws_char(d[0]) && forall|j: int|
            0 <= j < d.len() ==> (#[trigger] d[j]) != '|' && d[j] != '\n',
        None => true,
    }
    &&& forall|i: int|
        0 <= i < h.variables.len() ==> (#[trigger] h.variables[i]).0.len() >= 1 && (forall|j: int|
            0 <= j < h.variables[i].0.len() ==> h.variables[i].0[j] != '"') && renderable_vt(
            h.variables[i].1,
        )
    &&& forall|i: int, j: int| 0 <= i < j < h.variables.len() ==> h.variables[i].0
        != h.variables[j].0
}

/// The text of a rendered header after each field line, outermost first.
pub open spec fn hh_tail5(h: SpecHobbitHole) -> Seq<char> {
    "---"@
}

pub open spec fn hh_tail4(h: SpecHobbitHole) -> Seq<char> {
    if h.variables.len() > 0 {
        "variables:\n"@ + spec_render_var_entries(h.variables) + hh_tail5(h)
    } else {
        hh_tail5(h)
    }
}

pub open spec fn hh_tail3(h: SpecHobbitHole) -> Seq<char> {
    match h.action_location {
        Some(a) => "actionLocation: "@ + spec_location_name(a) + "\n"@ + hh_tail4(h),
        None => hh_tail4(h),
    }
}

pub open spec fn hh_tail2(h: SpecHobbitHole) -> Seq<char> {
    match h.interaction {
        Some(i) => "interaction: "@ + spec_interaction_name(i) + "\n"@ + hh_tail3(h),
        None => hh_tail3(h),
    }
}

pub open spec fn hh_tail1(h: SpecHobbitHole) -> Seq<char> {
    match h.description {
        Some(d) => "description: "@ + d + "\n"@ + hh_tail2(h),
        None => hh_tail2(h),
    }
}

pub open spec fn hh_tail0(h: SpecHobbitHole) -> Seq<char> {
    if h.name.len() > 0 {
        "name: "@ + spec_quoted(h.name) + "\n"@ + hh_tail1(h)
    } else {
        hh_tail1(h)
    }
}

/// Every suffix of a rendered header opens with a letter or the fence.
proof fn lemma_hh_heads(h: SpecHobbitHole)
    ensures
        hh_tail5(h).len() > 0 && !is_ws_char(hh_tail5(h)[0]) && hh_tail5(h)[0] != '"',
        hh_tail4(h).len() > 0 && !is_ws_char(hh_tail4(h)[0]) && hh_tail4(h)[0] != '"',
        hh_tail3(h).len() > 0 && !is_ws_char(hh_tail3(h)[0]),
        hh_tail2(h).len() > 0 && !is_ws_char(hh_tail2(h)[0]),
        hh_tail1(h).len() > 0 && !is_ws_char(hh_tail1(h)[0]),
        hh_tail0(h).len() > 0 && !is_ws_char(hh_tail0(h)[0]),
{
    reveal_strlit("---");
    reveal_strlit("name: ");
    reveal_strlit("description: ");
    reveal_strlit("interaction: ");
    reveal_strlit("actionLocation: ");
    reveal_strlit("variables:\n");
    assert("---"@.len() == 3 && "---"@[0] == '-');
    assert("name: "@.len() == 6 && "name: "@[0] == 'n');
    assert("description: "@.len() == 13 && "description: "@[0] == 'd');
    assert("interaction: "@.len() == 13 && "interaction: "@[0] == 'i');
    assert("actionLocation: "@.len() == 16 && "actionLocation: "@[0] == 'a');
    assert("variables:\n"@.len() == 11 && "variables:\n"@[0] == 'v');
    vstd::utf8::char_u32_cast('v', 'v' as u32);
    vstd::utf8::char_u32_cast('"', '"' as u32);
    vstd::utf8::char_u32_cast('-', '-' as u32);
    vstd::utf8::char_u32_cast('a', 'a' as u32);
    vstd::utf8::char_u32_cast('i', 'i' as u32);
    vstd::utf8::char_u32_cast('d', 'd' as u32);
    vstd::utf8::char_u32_cast('n', 'n' as u32);
}

/// Concatenation regrouped from the left to the right.
proof fn lemma_assoc7(
    f: Seq<char>,
    a: Seq<char>,
    b: Seq<char>,
    c: Seq<char>,
    d: Seq<char>,
    e: Seq<char>,
    g: Seq<char>,
)
    ensures
        f + a + b + c + d + e + g == f + (a + (b + (c + (d + (e + g))))),
{
    assert(f + a + b + c + d + e + g =~= f + (a + (b + (c + (d + (e + g))))));
}

/// A rendered header is the opening fence, then the field lines.
proof fn lemma_hh_shape(h: SpecHobbitHole)
    ensures
        spec_render_hole(h) == "---\n"@ + hh_tail0(h),
{
    let a: Seq<char> = if h.name.len() > 0 {
        "name: "@ + spec_quoted(h.name) + "\n"@
    } else {
        Seq::<char>::empty()
    };
    let b: Seq<char> = match h.description {
        Some(d) => "description: "@ + d + "\n"@,
        None => Seq::<char>::empty(),
    };
    let c: Seq<char> = match h.interaction {
        Some(i) => "interaction: "@ + spec_interaction_name(i) + "\n"@,
        None => Seq::<char>::empty(),
    };
    let d2: Seq<char> = match h.action_location {
        Some(a2) => "actionLocation: "@ + spec_location_name(a2) + "\n"@,
        None => Seq::<char>::empty(),
    };
    let e: Seq<char> = if h.variables.len() > 0 {
        "variables:\n"@ + spec_render_var_entries(h.variables)
    } else {
        Seq::<char>::empty()
    };
    let g = "---"@;
    assert(spec_render_hole(h) == "---\n"@ + a + b + c + d2 + e + g);
    if h.variables.len() > 0 {
        assert(hh_tail4(h) == e + hh_tail5(h));
    } else {
        assert(e + hh_tail5(h) =~= hh_tail5(h));
    }
    match h.action_location {
        Some(_) => assert(hh_tail3(h) == d2 + hh_tail4(h)),
        None => assert(d2 + hh_tail4(h) =~= hh_tail4(h)),
    }
    match h.interaction {
        Some(_) => assert(hh_tail2(h) == c + hh_tail3(h)),
        None => assert(c + hh_tail3(h) =~= hh_tail3(h)),
    }
    match h.description {
        Some(_) => assert(hh_tail1(h) == b + hh_tail2(h)),
        None => assert(b + hh_tail2(h) =~= hh_tail2(h)),
    }
    if h.name.len() > 0 {
        assert(hh_tail0(h) == a + hh_tail1(h));
    } else {
        assert(a + hh_tail1(h) =~= hh_tail1(h));
    }
    assert(hh_tail0(h) == a + (b + (c + (d2 + (e + g)))));
    lemma_assoc7("---\n"@, a, b, c, d2, e, g);
}

/// The field lines fold into the header record, ending at the fence.
#[verifier::rlimit(100)]
proof fn lemma_hh_steps(h: SpecHobbitHole)
    requires
        spec_renderable_hole(h),
    ensures
        crate::parser::spec_parse_hh_entries(spec_default_hole(), hh_tail0(h))
            == crate::parser::SpecParsed::Done(h, Seq::<char>::empty()),
{
    reveal_strlit("name");
    reveal_strlit("name: ");
    reveal_strlit("description");
    reveal_strlit("description: ");
    reveal_strlit("interaction");
    reveal_strlit("interaction: ");
    reveal_strlit("actionLocation");
    reveal_strlit("actionLocation: ");
    lemma_hh_heads(h);
    let t1 = hh_tail1(h);
    let t2 = hh_tail2(h);
    let t3 = hh_tail3(h);
    let t4 = hh_tail4(h);
    let t5 = hh_tail5(h);
    let h0 = spec_default_hole();
    let h1: SpecHobbitHole = if h.name.len() > 0 {
        lemma_hh_name_step(h0, h.name, t1);
        SpecHobbitHole { name: h.name, ..h0 }
    } else {
        h0
    };
    assert(crate::parser::spec_parse_hh_entries(h0, hh_tail0(h))
        == crate::parser::spec_parse_hh_entries(h1, t1));
    let h2: SpecHobbitHole = match h.description {
        Some(d) => {
            assert(crate::parser::spec_key_kind("description"@)
                == crate::parser::HobbitHoleKey::Description) by {
                assert("name"@.len() == 4 && "description"@.len() == 11);
            }
            assert("description: "@ =~= "description"@ + seq![':'] + seq![' ']);
            lemma_hh_run_step(
                h1,
                "description: "@,
                "description"@,
                d,
                SpecHobbitHole { description: Some(d), ..h1 },
                t2,
            );
            SpecHobbitHole { description: Some(d), ..h1 }
        },
        None => h1,
    };
    assert(crate::parser::spec_parse_hh_entries(h1, t1) == crate::parser::spec_parse_hh_entries(
        h2,
        t2,
    ));
    let h3: SpecHobbitHole = match h.interaction {
        Some(i) => {
            assert(crate::parser::spec_key_kind("interaction"@)
                == crate::parser::HobbitHoleKey::Interaction) by {
                assert("name"@.len() == 4 && "description"@.len() == 11 && "interaction"@.len()
                    == 11);
                assert("interaction"@[0] == 'i' && "description"@[0] == 'd');
                vstd::utf8::char_u32_cast('i', 'i' as u32);
                vstd::utf8::char_u32_cast('d', 'd' as u32);
            }
            assert("interaction: "@ =~= "interaction"@ + seq![':'] + seq![' ']);
            lemma_interaction_name_chars(i);
            lemma_interaction_round(i);
            lemma_hh_run_step(
                h2,
                "interaction: "@,
                "interaction"@,
                spec_interaction_name(i),
                SpecHobbitHole { interaction: Some(i), ..h2 },
                t3,
            );
            SpecHobbitHole { interaction: Some(i), ..h2 }
        },
        None => h2,
    };
    assert(crate::parser::spec_parse_hh_entries(h2, t2) == crate::parser::spec_parse_hh_entries(
        h3,
        t3,
    ));
    let h4: SpecHobbitHole = match h.action_location {
        Some(a) => {
            assert(crate::parser::spec_key_kind("actionLocation"@)
                == crate::parser::HobbitHoleKey::ActionLocation) by {
                assert("name"@.len() == 4 && "description"@.len() == 11 && "interaction"@.len()
                    == 11 && "actionLocation"@.len() == 14);
            }
            assert("actionLocation: "@ =~= "actionLocation"@ + seq![':'] + seq![' ']);
            lemma_location_name_chars(a);
            lemma_location_round(a);
            lemma_hh_run_step(
                h3,
                "actionLocation: "@,
                "actionLocation"@,
                spec_location_name(a),
                SpecHobbitHole { action_location: Some(a), ..h3 },
                t4,
            );
            SpecHobbitHole { action_location: Some(a), ..h3 }
        },
        None => h3,
    };
    assert(crate::parser::spec_parse_hh_entries(h3, t3) == crate::parser::spec_parse_hh_entries(
        h4,
        t4,
    ));
    let h5: SpecHobbitHole = if h.variables.len() > 0 {
        lemma_hh_variables_step(h4, h.variables, t5);
        SpecHobbitHole { variables: h.variables, ..h4 }
    } else {
        h4
    };
    assert(crate::parser::spec_parse_hh_entries(h4, t4) == crate::parser::spec_parse_hh_entries(
        h5,
        t5,
    ));
    lemma_hh_fence(h5);
    assert(h5 == h) by {
        assert(h5.name == h.name);
        assert(h5.description == h.description);
        assert(h5.interaction == h.interaction);
        assert(h5.action_location == h.action_location);
        assert(h5.variables =~= h.variables);
    }
}

/// Rendering a header and parsing the text back gives the header, with
/// nothing left over.
pub proof fn lemma_header_round_trip(h: SpecHobbitHole)
    requires
        spec_renderable_hole(h),
    ensures
        crate::parser::spec_parse_hobbit_hole(spec_render_hole(h))
            == crate::parser::SpecParsed::Done(h, Seq::<char>::empty()),
{
    reveal_strlit("---\n");
    reveal_strlit("---");
    assert("---\n"@.len() == 4 && "---\n"@[0] == '-' && "---\n"@[1] == '-' && "---\n"@[2] == '-'
        && "---\n"@[3] == '\n');
    assert("---"@.len() == 3 && "---"@[0] == '-' && "---"@[1] == '-' && "---"@[2] == '-');
    lemma_hh_heads(h);
    lemma_hh_shape(h);
    let t0 = hh_tail0(h);
    let s = spec_render_hole(h);
    assert(s[0] == '-');
    lemma_skip_ws_id(s);
    assert(s.subrange(0, 3) =~= "---"@);
    assert(crate::text::spec_starts_with(s, "---"@));
    assert(s.subrange(3, s.len() as int) =~= seq!['\n'] + t0);
    lemma_skip_ws_ws_prefix(seq!['\n'], t0);
    lemma_skip_ws_id(t0);
    assert(skip_ws(s.subrange(3, s.len() as int)) == t0);
    lemma_hh_steps(h);
}

/// A regex literal parses back to exactly its interior.
pub proof fn lemma_regex_exact(t: Seq<char>, rest: Seq<char>)
    requires
        t.len() >= 1,
        forall|j: int| 0 <= j < t.len() ==> (#[trigger] t[j]) != '/',
    ensures
        spec_parse_regex(seq!['/'] + t + seq!['/'] + rest) == Some((t, rest)),
{
    let s = seq!['/'] + t + seq!['/'] + rest;
    assert(s[0] == '/');
    let cont = seq!['/'] + rest;
    assert(s.subrange(1, s.len() as int) =~= t + cont);
    lemma_run_len_concat(t, cont, |c: char| c != '/');
    let n = t.len() as int;
    assert(run_len(s.subrange(1, s.len() as int), |c: char| c != '/') == n);
    assert(s.subrange(1, 1 + n) =~= t);
    assert(s.subrange(2 + n, s.len() as int) =~= rest);
}

} // verus!

