//! Reading a value's canonical text back: the inverse of the value
//! model's rendering, for the variants that have a parseable textual
//! form, and the law that ties the two together.

use vstd::prelude::*;
use crate::ast::front_matter_type::FrontMatterType;
use crate::ast::front_matter_type::Processor;
use crate::ast::front_matter_type::RuleBasedPatternAction;
use crate::ast::front_matter_type::spec_fmt_display;
use crate::ast::front_matter_type::spec_proc_names;
use crate::numbers::all_digit_chars;
use crate::numbers::digits_val;
use crate::numbers::digits_to_i32;
use crate::text::all_ident_chars;
use crate::text::is_digit_char;
use crate::text::is_ident_char;
use crate::text::matches_at;
use crate::text::spec_join;
use crate::text::chars_of;
use crate::text::range_eq_str;
use crate::text::string_of_range;

verus! {

/// The plain shape of a value with a parseable textual form.
pub enum SpecValue {
    Str(Seq<char>),
    Num(i32),
    Bool(bool),
    Empty,
    Ident(Seq<char>),
    Var(Seq<char>),
    Pattern(Seq<char>, Seq<Seq<char>>),
}

/// The shape a value denotes, when it has one: literals, identifiers,
/// variables, and patterns with their processor names.
pub open spec fn value_model(f: FrontMatterType) -> Option<SpecValue> {
    match f {
        FrontMatterType::STRING(t) => Some(SpecValue::Str(t@)),
        FrontMatterType::NUMBER(n) => Some(SpecValue::Num(n)),
        FrontMatterType::BOOLEAN(b) => Some(SpecValue::Bool(b)),
        FrontMatterType::EMPTY => Some(SpecValue::Empty),
        FrontMatterType::IDENTIFIER(t) => Some(SpecValue::Ident(t@)),
        FrontMatterType::VARIABLE(t) => Some(SpecValue::Var(t@)),
        FrontMatterType::PATTERN(p) => Some(
            SpecValue::Pattern(
                p.pattern@,
                p.processors@.map_values(|pr: Processor| pr.func_name@),
            ),
        ),
        _ => None,
    }
}

/// The first position where `pat` occurs in `s`.
pub open spec fn spec_find_sub(s: Seq<char>, pat: Seq<char>) -> Option<int>
    decreases s.len(),
{
    if matches_at(s, pat, 0) {
        Some(0)
    } else if s.len() == 0 {
        None
    } else {
        match spec_find_sub(s.drop_first(), pat) {
            Some(i) => Some(i + 1),
            None => None,
        }
    }
}

/// `spec_find_sub` finds the first occurrence, or none at all.
pub proof fn lemma_find_sub(s: Seq<char>, pat: Seq<char>)
    ensures
        match spec_find_sub(s, pat) {
            Some(i) => 0 <= i && matches_at(s, pat, i) && forall|j: int|
                0 <= j < i ==> !matches_at(s, pat, j),
            None => forall|j: int| !matches_at(s, pat, j),
        },
    decreases s.len(),
{
    if !matches_at(s, pat, 0) && s.len() > 0 {
        lemma_find_sub(s.drop_first(), pat);
        assert forall|j: int| matches_at(s.drop_first(), pat, j) implies matches_at(
            s,
            pat,
            j + 1,
        ) by {
            assert(s.drop_first().subrange(j, j + pat.len() as int) =~= s.subrange(
                j + 1,
                j + 1 + pat.len() as int,
            ));
        }
        assert forall|j: int| j >= 1 && matches_at(s, pat, j) implies matches_at(
            s.drop_first(),
            pat,
            j - 1,
        ) by {
            assert(s.subrange(j, j + pat.len() as int) =~= s.drop_first().subrange(
                j - 1,
                j - 1 + pat.len() as int,
            ));
        }
        match spec_find_sub(s.drop_first(), pat) {
            Some(i) => {
                assert(matches_at(s, pat, i + 1));
                assert forall|j: int| 0 <= j < i + 1 implies !matches_at(s, pat, j) by {
                    if j >= 1 {
                        assert(!matches_at(s.drop_first(), pat, j - 1));
                    }
                }
            },
            None => {
                assert forall|j: int| !matches_at(s, pat, j) by {
                    if j >= 1 && matches_at(s, pat, j) {
                        assert(matches_at(s.drop_first(), pat, j - 1));
                    }
                }
            },
        }
    }
}

/// The pieces of `s` between occurrences of `sep`, in order.
pub open spec fn spec_split(s: Seq<char>, sep: Seq<char>) -> Seq<Seq<char>>
    decreases s.len(),
{
    match spec_find_sub(s, sep) {
        None => seq![s],
        Some(i) => {
            let rest = s.subrange(i + sep.len(), s.len() as int);
            if sep.len() > 0 && rest.len() < s.len() {
                seq![s.subrange(0, i)] + spec_split(rest, sep)
            } else {
                seq![s]
            }
        },
    }
}

/// Splitting a join of separator-free, non-empty parts gives the parts
/// back.
pub proof fn lemma_split_join(names: Seq<Seq<char>>)
    requires
        names.len() >= 1,
        forall|i: int|
            0 <= i < names.len() ==> (#[trigger] names[i]).len() >= 1 && all_ident_chars(names[i]),
    ensures
        spec_split(spec_join(names, ", "@), ", "@) == names,
    decreases names.len(),
{
    reveal_strlit(", ");
    assert(", "@.len() == 2 && ", "@[0] == ',' && ", "@[1] == ' ');
    let sep = ", "@;
    let s = spec_join(names, sep);
    lemma_find_sub(s, sep);
    if names.len() == 1 {
        assert(s == names[0]);
        assert(forall|j: int| 0 <= j < s.len() ==> is_ident_char(#[trigger] s[j]));
        assert forall|j: int| !matches_at(s, sep, j) by {
            if matches_at(s, sep, j) {
                assert(s.subrange(j, j + 2)[0] == s[j]);
                assert(s[j] == ',');
                assert(is_ident_char(s[j]));
                vstd::utf8::char_u32_cast(',', ',' as u32);
                vstd::utf8::char_u32_cast(s[j], s[j] as u32);
            }
        }
        assert(spec_find_sub(s, sep) is None);
        assert(spec_split(s, sep) =~= names);
    } else {
        crate::render::lemma_join_head(names, sep);
        let head = names[0];
        let tail = spec_join(names.drop_first(), sep);
        assert(s == head + sep + tail);
        let hl = head.len() as int;
        assert(matches_at(s, sep, hl)) by {
            assert(s.subrange(hl, hl + 2) =~= sep);
        }
        assert forall|j: int| 0 <= j < hl implies !matches_at(s, sep, j) by {
            if matches_at(s, sep, j) {
                assert(s.subrange(j, j + 2)[0] == s[j]);
                assert(s[j] == ',');
                assert(s[j] == head[j]);
                assert(is_ident_char(head[j]));
                vstd::utf8::char_u32_cast(',', ',' as u32);
                vstd::utf8::char_u32_cast(s[j], s[j] as u32);
            }
        }
        assert(spec_find_sub(s, sep) == Some(hl)) by {
            match spec_find_sub(s, sep) {
                Some(i) => {
                    if i < hl {
                    } else if i > hl {
                        assert(!matches_at(s, sep, hl));
                    }
                },
                None => {
                    assert(!matches_at(s, sep, hl));
                },
            }
        }
        let rest = s.subrange(hl + 2, s.len() as int);
        assert(rest =~= tail);
        assert(forall|j: int|
            0 <= j < names.drop_first().len() ==> #[trigger] names.drop_first()[j] == names[j
            + 1]);
        lemma_split_join(names.drop_first());
        assert(s.subrange(0, hl) =~= head);
        assert(rest.len() < s.len());
        assert(seq![head] + names.drop_first() =~= names);
    }
}

/// Whether the text is shaped like an integer literal.
pub open spec fn spec_numeric(s: Seq<char>) -> bool {
    let t = if s.len() > 0 && s[0] == '-' {
        s.drop_first()
    } else {
        s
    };
    t.len() >= 1 && all_digit_chars(t)
}

/// What a value's canonical text reads back as: the inverse of the
/// model's rendering on the variants that have one.
pub open spec fn spec_parse_value(s: Seq<char>) -> Option<SpecValue> {
    if s.len() == 0 {
        Some(SpecValue::Empty)
    } else if s[0] == '"' {
        if s.len() >= 2 && s.last() == '"' && (forall|j: int|
            1 <= j < s.len() - 1 ==> s[j] != '"') {
            Some(SpecValue::Str(s.subrange(1, s.len() - 1)))
        } else {
            None
        }
    } else if s[0] == '$' {
        if s.len() >= 2 && all_ident_chars(s.subrange(1, s.len() as int)) {
            Some(SpecValue::Var(s.subrange(1, s.len() as int)))
        } else {
            None
        }
    } else if s == "true"@ {
        Some(SpecValue::Bool(true))
    } else if s == "false"@ {
        Some(SpecValue::Bool(false))
    } else if spec_numeric(s) {
        let neg = s[0] == '-';
        let t = if neg {
            s.drop_first()
        } else {
            s
        };
        let val = digits_val(t);
        let signed = if neg {
            -val
        } else {
            val
        };
        if i32::MIN <= signed <= i32::MAX {
            Some(SpecValue::Num(signed as i32))
        } else {
            None
        }
    } else {
        match spec_find_sub(s, " -> "@) {
            Some(i) => {
                let pat = s.subrange(0, i);
                let names_part = s.subrange(i + 4, s.len() as int);
                if pat.len() >= 1 {
                    Some(
                        SpecValue::Pattern(
                            pat,
                            if names_part.len() == 0 {
                                Seq::<Seq<char>>::empty()
                            } else {
                                spec_split(names_part, ", "@)
                            },
                        ),
                    )
                } else {
                    None
                }
            },
            None => if all_ident_chars(s) {
                Some(SpecValue::Ident(s))
            } else {
                None
            },
        }
    }
}

/// Finds the first occurrence of `pat` in `v`, walking left to right.
fn x_find_sub(v: &Vec<char>, pat: &str) -> (r: Option<usize>)
    requires
        pat@.len() >= 1,
    ensures
        match spec_find_sub(v@, pat@) {
            Some(i) => r matches Some(x) && x == i,
            None => r is None,
        },
{
    let n = v.len();
    let m = pat.unicode_len();
    if m > n {
        proof {
            lemma_find_sub(v@, pat@);
            match spec_find_sub(v@, pat@) {
                Some(x) => {
                    assert(matches_at(v@, pat@, x));
                },
                None => {},
            }
        }
        return None;
    }
    let mut i: usize = 0;
    while i <= n - m
        invariant
            n == v@.len(),
            m == pat@.len(),
            1 <= m <= n,
            i <= n - m + 1,
            forall|j: int| 0 <= j < i ==> !matches_at(v@, pat@, j),
        decreases n - i,
    {
        if range_eq_str(v, i, i + m, pat) {
            proof {
                lemma_find_sub(v@, pat@);
                assert(matches_at(v@, pat@, i as int));
                match spec_find_sub(v@, pat@) {
                    Some(x) => {
                        if x > i {
                            assert(!matches_at(v@, pat@, i as int));
                        }
                    },
                    None => {
                        assert(!matches_at(v@, pat@, i as int));
                    },
                }
            }
            return Some(i);
        }
        i += 1;
    }
    proof {
        lemma_find_sub(v@, pat@);
        assert forall|j: int| !matches_at(v@, pat@, j) by {
            if 0 <= j < i {
            } else if matches_at(v@, pat@, j) {
                assert(j + m <= n);
            }
        }
        match spec_find_sub(v@, pat@) {
            Some(x) => {
                assert(!matches_at(v@, pat@, x));
            },
            None => {},
        }
    }
    None
}

/// Reads a value's canonical text back into the value it renders: quoted
/// text, an integer, a boolean, empty text, a variable reference, a
/// pattern rule, or a bare identifier.
#[verifier::rlimit(100)]
pub fn parse_value(input: &str) -> (r: Option<FrontMatterType>)
    ensures
        match spec_parse_value(input@) {
            Some(m) => r matches Some(f) && value_model(f) == Some(m),
            None => r is None,
        },
{
    proof {
        reveal_strlit("true");
        reveal_strlit("false");
        reveal_strlit(" -> ");
        reveal_strlit(", ");
        assert(" -> "@.len() == 4);
        assert(", "@.len() == 2);
    }
    let v = chars_of(input);
    let n = v.len();
    if n == 0 {
        return Some(FrontMatterType::EMPTY);
    }
    let c0 = v[0];
    if c0 == '"' {
        let e = crate::parser::x_run_not(&v, 1, '"');
        if n >= 2 && e == n - 1 {
            proof {
                crate::parser::lemma_run_len(
                    crate::parser::suffix(v@, 1),
                    |c: char| c != '"',
                );
                assert(forall|j: int|
                    1 <= j < n - 1 ==> v@[j] == crate::parser::suffix(v@, 1)[j - 1]);
                assert(v@.last() == v@[n - 1]);
                assert(crate::parser::suffix(v@, 1)[(n - 2) as int] == v@[n - 1]);
            }
            return Some(FrontMatterType::STRING(string_of_range(&v, 1, n - 1)));
        }
        proof {
            crate::parser::lemma_run_len(crate::parser::suffix(v@, 1), |c: char| c != '"');
            if n >= 2 && v@.last() == '"' && (forall|j: int| 1 <= j < n - 1 ==> v@[j] != '"') {
                assert(forall|j: int|
                    0 <= j < n - 2 ==> crate::parser::suffix(v@, 1)[j] == v@[j + 1]);
                assert(crate::parser::run_len(
                    crate::parser::suffix(v@, 1),
                    |c: char| c != '"',
                ) == n - 2) by {
                    crate::parser::lemma_run_len_concat(
                        v@.subrange(1, n - 1),
                        v@.subrange(n - 1, n as int),
                        |c: char| c != '"',
                    );
                    assert(v@.subrange(1, n - 1) + v@.subrange(n - 1, n as int)
                        =~= crate::parser::suffix(v@, 1));
                }
            }
        }
        return None;
    }
    if c0 == '$' {
        let e = crate::parser::x_run_ident(&v, 1);
        proof {
            crate::parser::lemma_run_len(
                crate::parser::suffix(v@, 1),
                |c: char| is_ident_char(c),
            );
            assert(crate::parser::suffix(v@, 1) =~= v@.subrange(1, n as int));
        }
        if n >= 2 && e == n {
            return Some(FrontMatterType::VARIABLE(string_of_range(&v, 1, n)));
        }
        return None;
    }
    if range_eq_str(&v, 0, n, "true") {
        proof {
            assert(v@.subrange(0, n as int) =~= v@);
        }
        return Some(FrontMatterType::BOOLEAN(true));
    }
    if range_eq_str(&v, 0, n, "false") {
        proof {
            assert(v@.subrange(0, n as int) =~= v@);
        }
        return Some(FrontMatterType::BOOLEAN(false));
    }
    proof {
        assert(v@.subrange(0, n as int) =~= v@);
    }
    let neg = c0 == '-';
    let start: usize = if neg {
        1
    } else {
        0
    };
    let e = crate::parser::x_run_digits(&v, start);
    proof {
        crate::parser::lemma_run_len(
            crate::parser::suffix(v@, start as int),
            |c: char| is_digit_char(c),
        );
        if neg {
            assert(crate::parser::suffix(v@, 1) =~= v@.drop_first());
        } else {
            assert(crate::parser::suffix(v@, 0) =~= v@);
        }
    }
    if e == n && e > start {
        // an integer literal
        proof {
            let t = if neg {
                v@.drop_first()
            } else {
                v@
            };
            assert(all_digit_chars(t)) by {
                crate::parser::lemma_run_len(
                    crate::parser::suffix(v@, start as int),
                    |c: char| is_digit_char(c),
                );
            }
            assert(t =~= v@.subrange(start as int, n as int));
        }
        match digits_to_i32(&v, start, n, neg) {
            Some(x) => {
                return Some(FrontMatterType::NUMBER(x));
            },
            None => {
                return None;
            },
        }
    }
    proof {
        // not numeric: the digit run stops short of the end
        let t = if neg {
            v@.drop_first()
        } else {
            v@
        };
        if spec_numeric(v@) {
            assert(t =~= v@.subrange(start as int, n as int));
            assert(crate::parser::run_len(
                crate::parser::suffix(v@, start as int),
                |c: char| is_digit_char(c),
            ) == t.len()) by {
                crate::parser::lemma_run_len_concat(
                    t,
                    Seq::<char>::empty(),
                    |c: char| is_digit_char(c),
                );
                assert(t + Seq::<char>::empty() =~= crate::parser::suffix(v@, start as int));
            }
        }
    }
    match x_find_sub(&v, " -> ") {
        Some(i) => {
            if i == 0 {
                return None;
            }
            proof {
                lemma_find_sub(v@, " -> "@);
            }
            let pattern = string_of_range(&v, 0, i);
            let names_start = i + 4;
            proof {
                assert(names_start <= n);
            }
            let mut processors: Vec<Processor> = Vec::new();
            if names_start < n {
                let ghost names_part = v@.subrange(names_start as int, n as int);
                let mut cur = names_start;
                loop
                    invariant_except_break
                        spec_split(names_part, ", "@) == processors@.map_values(
                            |pr: Processor| pr.func_name@,
                        ) + spec_split(v@.subrange(cur as int, n as int), ", "@),
                    invariant
                        names_start <= cur <= n,
                        n == v@.len(),
                        names_part == v@.subrange(names_start as int, n as int),
                        names_part.len() > 0,
                        ", "@.len() == 2,
                    ensures
                        crate::parser::suffix(v@, cur as int).len() >= 0,
                        spec_split(names_part, ", "@) == processors@.map_values(
                            |pr: Processor| pr.func_name@,
                        ),
                    decreases n - cur,
                {
                    let ghost remaining = v@.subrange(cur as int, n as int);
                    let next = x_find_sub_from(&v, cur, ", ");
                    let ghost om = processors@.map_values(|pr: Processor| pr.func_name@);
                    match next {
                        Some(k) => {
                            let name = string_of_range(&v, cur, k);
                            processors.push(Processor { func_name: name });
                            proof {
                                let sep = ", "@;
                                let rel = (k - cur) as int;
                                let nameseq = remaining.subrange(0, rel);
                                let rest2 = remaining.subrange(rel + 2, remaining.len() as int);
                                assert(nameseq =~= v@.subrange(cur as int, k as int));
                                assert(rest2 =~= v@.subrange(k + 2, n as int));
                                assert(spec_find_sub(remaining, sep) == Some(rel));
                                assert(rest2.len() < remaining.len());
                                assert(spec_split(remaining, sep) == seq![nameseq] + spec_split(
                                    rest2,
                                    sep,
                                ));
                                assert(processors@.map_values(|pr: Processor| pr.func_name@)
                                    =~= om.push(nameseq));
                                assert(om + (seq![nameseq] + spec_split(rest2, sep)) =~= om.push(
                                    nameseq,
                                ) + spec_split(rest2, sep));
                            }
                            cur = k + 2;
                        },
                        None => {
                            let name = string_of_range(&v, cur, n);
                            processors.push(Processor { func_name: name });
                            proof {
                                let sep = ", "@;
                                assert(spec_split(remaining, sep) == seq![remaining]);
                                assert(processors@.map_values(|pr: Processor| pr.func_name@)
                                    =~= om.push(remaining));
                                assert(om + seq![remaining] =~= om.push(remaining));
                            }
                            break ;
                        },
                    }
                }
            }
            let rule = RuleBasedPatternAction { pattern, processors };
            proof {
                if names_start < n {
                    assert(v@.subrange(names_start as int, n as int).len() > 0);
                } else {
                    assert(v@.subrange(names_start as int, n as int).len() == 0);
                    assert(processors@.map_values(|pr: Processor| pr.func_name@) =~= Seq::<
                        Seq<char>,
                    >::empty());
                }
                assert(v@.subrange(0, i as int) == rule.pattern@);
            }
            Some(FrontMatterType::PATTERN(rule))
        },
        None => {
            let e2 = crate::parser::x_run_ident(&v, 0);
            proof {
                crate::parser::lemma_run_len(
                    crate::parser::suffix(v@, 0),
                    |c: char| is_ident_char(c),
                );
                assert(crate::parser::suffix(v@, 0) =~= v@);
            }
            if e2 == n {
                Some(FrontMatterType::IDENTIFIER(string_of_range(&v, 0, n)))
            } else {
                None
            }
        },
    }
}

/// A value whose canonical text reads back: quote-free strings, sound
/// identifiers and variables, and patterns whose text shows the arrow
/// only once.
pub open spec fn spec_value_renderable(f: FrontMatterType) -> bool {
    match f {
        FrontMatterType::STRING(t) => forall|j: int| 0 <= j < t@.len() ==> (#[trigger] t@[j])
            != '"',
        FrontMatterType::NUMBER(_) => true,
        FrontMatterType::BOOLEAN(_) => true,
        FrontMatterType::EMPTY => true,
        FrontMatterType::IDENTIFIER(t) => t@.len() >= 1 && all_ident_chars(t@) && t@ != "true"@
            && t@ != "false"@ && (exists|j: int| 0 <= j < t@.len() && !is_digit_char(t@[j])),
        FrontMatterType::VARIABLE(t) => t@.len() >= 1 && all_ident_chars(t@),
        FrontMatterType::PATTERN(p) => {
            let names = p.processors@.map_values(|pr: Processor| pr.func_name@);
            &&& p.pattern@.len() >= 1
            &&& p.pattern@[0] != '"'
            &&& p.pattern@[0] != '$'
            &&& forall|i: int|
                0 <= i < p.pattern@.len() ==> !matches_at(spec_fmt_display(f), " -> "@, i)
            &&& forall|k: int|
                0 <= k < names.len() ==> (#[trigger] names[k]).len() >= 1 && all_ident_chars(
                    names[k],
                )
        },
        _ => false,
    }
}

#[verifier::rlimit(100)]
proof fn lemma_value_round_trip_number(f: FrontMatterType)
    requires
        value_model(f) is Some,
        spec_value_renderable(f),
        f is NUMBER,
    ensures
        spec_parse_value(spec_fmt_display(f)) == value_model(f),
{
    reveal_strlit("true");
    reveal_strlit("false");
    reveal_strlit("$");
    reveal_strlit(" -> ");
    reveal_strlit(", ");
    assert("true"@.len() == 4 && "true"@[0] == 't' && "true"@[1] == 'r' && "true"@[2] == 'u'
        && "true"@[3] == 'e');
    assert("false"@.len() == 5 && "false"@[0] == 'f' && "false"@[1] == 'a');
    assert("$"@.len() == 1 && "$"@[0] == '$');
    assert(" -> "@.len() == 4 && " -> "@[0] == ' ' && " -> "@[1] == '-' && " -> "@[2] == '>'
        && " -> "@[3] == ' ');
    let s = spec_fmt_display(f);
    match f {
        FrontMatterType::NUMBER(x) => {
            vstd::utf8::char_u32_cast('"', '"' as u32);
            vstd::utf8::char_u32_cast('$', '$' as u32);
            vstd::utf8::char_u32_cast('-', '-' as u32);
            vstd::utf8::char_u32_cast('t', 't' as u32);
            vstd::utf8::char_u32_cast('f', 'f' as u32);
            if x < 0 {
                let m = -(x as int);
                let digits = crate::numbers::spec_digits_of(m);
                crate::numbers::lemma_digits_of_all_digits(m);
                crate::numbers::lemma_digits_round_trip(m);
                assert(s =~= seq!['-'] + digits);
                assert(s[0] == '-');
                assert(s != "true"@ && s != "false"@) by {
                    vstd::utf8::char_u32_cast(s[0], s[0] as u32);
                }
                assert(s.drop_first() =~= digits);
                assert(spec_numeric(s));
            } else {
                let digits = crate::numbers::spec_digits_of(x as int);
                crate::numbers::lemma_digits_of_all_digits(x as int);
                crate::numbers::lemma_digits_round_trip(x as int);
                assert(s =~= digits);
                assert(is_digit_char(s[0]));
                assert(s[0] != '"' && s[0] != '$' && s[0] != '-' && s != "true"@ && s
                    != "false"@) by {
                    vstd::utf8::char_u32_cast(s[0], s[0] as u32);
                }
                assert(spec_numeric(s));
            }
        },
        _ => {},
    }
}

#[verifier::rlimit(100)]
proof fn lemma_value_round_trip_ident(f: FrontMatterType)
    requires
        value_model(f) is Some,
        spec_value_renderable(f),
        f is IDENTIFIER,
    ensures
        spec_parse_value(spec_fmt_display(f)) == value_model(f),
{
    reveal_strlit("true");
    reveal_strlit("false");
    reveal_strlit("$");
    reveal_strlit(" -> ");
    reveal_strlit(", ");
    assert("true"@.len() == 4 && "true"@[0] == 't' && "true"@[1] == 'r' && "true"@[2] == 'u'
        && "true"@[3] == 'e');
    assert("false"@.len() == 5 && "false"@[0] == 'f' && "false"@[1] == 'a');
    assert("$"@.len() == 1 && "$"@[0] == '$');
    assert(" -> "@.len() == 4 && " -> "@[0] == ' ' && " -> "@[1] == '-' && " -> "@[2] == '>'
        && " -> "@[3] == ' ');
    let s = spec_fmt_display(f);
    match f {
        FrontMatterType::IDENTIFIER(t) => {
            assert(s == t@);
            assert(is_ident_char(s[0]));
            assert(s[0] != '"' && s[0] != '$' && s[0] != '-') by {
                vstd::utf8::char_u32_cast(s[0], s[0] as u32);
                vstd::utf8::char_u32_cast('"', '"' as u32);
                vstd::utf8::char_u32_cast('$', '$' as u32);
                vstd::utf8::char_u32_cast('-', '-' as u32);
            }
            assert(!spec_numeric(s)) by {
                let w = choose|j: int| 0 <= j < t@.len() && !is_digit_char(t@[j]);
                assert(!all_digit_chars(s));
            }
            assert forall|j: int| !matches_at(s, " -> "@, j) by {
                if matches_at(s, " -> "@, j) {
                    assert(s.subrange(j, j + 4)[0] == s[j]);
                    assert(s[j] == ' ');
                    assert(is_ident_char(s[j]));
                    vstd::utf8::char_u32_cast(' ', ' ' as u32);
                    vstd::utf8::char_u32_cast(s[j], s[j] as u32);
                }
            }
            lemma_find_sub(s, " -> "@);
            match spec_find_sub(s, " -> "@) {
                Some(i) => {
                    assert(!matches_at(s, " -> "@, i));
                },
                None => {},
            }
        },
        _ => {},
    }
}

/// A pattern's text is not shaped like any literal.
#[verifier::rlimit(100)]
proof fn lemma_pattern_text_not_literal(pat: Seq<char>, joined: Seq<char>)
    requires
        pat.len() >= 1,
    ensures
        ({
            let s = pat + " -> "@ + joined;
            s.len() >= 1 && s[0] == pat[0] && s != "true"@ && s != "false"@ && !spec_numeric(s)
        }),
{
    reveal_strlit("true");
    reveal_strlit("false");
    reveal_strlit(" -> ");
    assert("true"@.len() == 4);
    assert("false"@.len() == 5 && "false"@[1] == 'a');
    assert(" -> "@.len() == 4 && " -> "@[0] == ' ');
    let s = pat + " -> "@ + joined;
    let hl = pat.len() as int;
    assert(s[0] == pat[0]);
    assert(s[hl] == ' ') by {
        assert(s =~= pat + (" -> "@ + joined));
    }
    assert(s.len() == hl + 4 + joined.len());
    assert(s != "true"@) by {
        assert(s.len() >= 5);
    }
    assert(s != "false"@) by {
        if s.len() == 5 {
            assert(hl == 1 && joined.len() == 0);
            assert(s[1] == ' ');
            vstd::utf8::char_u32_cast(' ', ' ' as u32);
            vstd::utf8::char_u32_cast('a', 'a' as u32);
        }
    }
    vstd::utf8::char_u32_cast(' ', ' ' as u32);
    assert(!is_digit_char(' ') && ' ' != '-') by {
        vstd::utf8::char_u32_cast('-', '-' as u32);
    }
    assert(!spec_numeric(s)) by {
        if s[0] == '-' {
            let t2 = s.drop_first();
            if hl >= 1 {
                assert(t2[hl - 1] == s[hl]);
                assert(!all_digit_chars(t2) || is_digit_char(t2[hl - 1]));
            }
        } else {
            if is_digit_char(s[0]) {
                assert(!all_digit_chars(s) || is_digit_char(s[hl]));
            }
        }
    }
}

/// A pattern's text shows the arrow first at the pattern's end.
#[verifier::rlimit(100)]
proof fn lemma_pattern_text_arrow(pat: Seq<char>, joined: Seq<char>)
    requires
        pat.len() >= 1,
        forall|i: int| 0 <= i < pat.len() ==> !matches_at(pat + " -> "@ + joined, " -> "@, i),
    ensures
        spec_find_sub(pat + " -> "@ + joined, " -> "@) == Some(pat.len() as int),
{
    reveal_strlit(" -> ");
    assert(" -> "@.len() == 4);
    let s = pat + " -> "@ + joined;
    let hl = pat.len() as int;
    assert(matches_at(s, " -> "@, hl)) by {
        assert(s.subrange(hl, hl + 4) =~= " -> "@);
    }
    lemma_find_sub(s, " -> "@);
    match spec_find_sub(s, " -> "@) {
        Some(i) => {
            if i > hl {
                assert(!matches_at(s, " -> "@, hl));
            }
        },
        None => {
            assert(!matches_at(s, " -> "@, hl));
        },
    }
}

#[verifier::rlimit(100)]
proof fn lemma_value_round_trip_pattern(f: FrontMatterType)
    requires
        value_model(f) is Some,
        spec_value_renderable(f),
        f is PATTERN,
    ensures
        spec_parse_value(spec_fmt_display(f)) == value_model(f),
{
    reveal_strlit(" -> ");
    reveal_strlit(", ");
    assert(" -> "@.len() == 4);
    assert(", "@.len() == 2);
    let s = spec_fmt_display(f);
    match f {
        FrontMatterType::PATTERN(p) => {
            let names = p.processors@.map_values(|pr: Processor| pr.func_name@);
            let pat = p.pattern@;
            let joined = spec_join(names, ", "@);
            assert(spec_proc_names(p.processors@, ", "@) == joined);
            assert(s == pat + " -> "@ + joined);
            lemma_pattern_text_not_literal(pat, joined);
            lemma_pattern_text_arrow(pat, joined);
            assert(s[0] == pat[0] && s[0] != '"' && s[0] != '$');
            let hl = pat.len() as int;
            assert(s.subrange(0, hl) =~= pat);
            assert(s.subrange(hl + 4, s.len() as int) =~= joined);
            if names.len() == 0 {
                assert(joined.len() == 0);
                assert(names =~= Seq::<Seq<char>>::empty());
                assert(spec_parse_value(s) == Some(
                    SpecValue::Pattern(pat, Seq::<Seq<char>>::empty()),
                ));
            } else {
                assert(joined.len() >= 1) by {
                    if names.len() == 1 {
                        assert(joined == names[0]);
                    } else {
                        crate::render::lemma_join_head(names, ", "@);
                        assert(joined == names[0] + ", "@ + spec_join(
                            names.drop_first(),
                            ", "@,
                        ));
                    }
                }
                lemma_split_join(names);
                assert(spec_split(joined, ", "@) == names);
                assert(spec_parse_value(s) == Some(SpecValue::Pattern(pat, names)));
            }
            assert(value_model(f) == Some(SpecValue::Pattern(pat, names)));
        },
        _ => {},
    }
}

/// Reading a value's canonical text back gives the value's shape: the
/// round trip through `display` and `parse_value`, stated for every
/// variant with a parseable textual form.
pub proof fn lemma_value_round_trip(f: FrontMatterType)
    requires
        value_model(f) is Some,
        spec_value_renderable(f),
    ensures
        spec_parse_value(spec_fmt_display(f)) == value_model(f),
{
    reveal_strlit("true");
    reveal_strlit("false");
    reveal_strlit("$");
    reveal_strlit(" -> ");
    reveal_strlit(", ");
    assert("true"@.len() == 4 && "true"@[0] == 't' && "true"@[1] == 'r' && "true"@[2] == 'u'
        && "true"@[3] == 'e');
    assert("false"@.len() == 5 && "false"@[0] == 'f' && "false"@[1] == 'a');
    assert("$"@.len() == 1 && "$"@[0] == '$');
    assert(" -> "@.len() == 4 && " -> "@[0] == ' ' && " -> "@[1] == '-' && " -> "@[2] == '>'
        && " -> "@[3] == ' ');
    let s = spec_fmt_display(f);
    match f {
        FrontMatterType::STRING(t) => {
            assert(s =~= seq!['"'] + t@ + seq!['"']);
            assert(s[0] == '"');
            assert(s.last() == '"');
            assert(forall|j: int| 1 <= j < s.len() - 1 ==> s[j] == t@[j - 1]);
            assert(s.subrange(1, s.len() - 1) =~= t@);
        },
        FrontMatterType::NUMBER(_) => {
            lemma_value_round_trip_number(f);
        },
        FrontMatterType::BOOLEAN(b) => {
            vstd::utf8::char_u32_cast('"', '"' as u32);
            vstd::utf8::char_u32_cast('$', '$' as u32);
            vstd::utf8::char_u32_cast('t', 't' as u32);
            vstd::utf8::char_u32_cast('f', 'f' as u32);
            if b {
                assert(s == "true"@);
                assert(s[0] == 't' && s[0] != '"' && s[0] != '$');
            } else {
                assert(s == "false"@);
                assert(s[0] == 'f' && s[0] != '"' && s[0] != '$');
                assert(s != "true"@);
            }
        },
        FrontMatterType::EMPTY => {
            assert(s.len() == 0);
        },
        FrontMatterType::IDENTIFIER(_) => {
            lemma_value_round_trip_ident(f);
        },
        FrontMatterType::VARIABLE(t) => {
            assert(s =~= seq!['$'] + t@);
            assert(s[0] == '$');
            assert(s[0] != '"') by {
                vstd::utf8::char_u32_cast('"', '"' as u32);
                vstd::utf8::char_u32_cast('$', '$' as u32);
            }
            assert(s.subrange(1, s.len() as int) =~= t@);
        },
        FrontMatterType::PATTERN(_) => {
            lemma_value_round_trip_pattern(f);
        },
        _ => {},
    }
}

/// Finds the first occurrence of `pat` at or after `from`.
fn x_find_sub_from(v: &Vec<char>, from: usize, pat: &str) -> (r: Option<usize>)
    requires
        pat@.len() >= 1,
        from <= v@.len(),
    ensures
        match spec_find_sub(v@.subrange(from as int, v@.len() as int), pat@) {
            Some(i) => r matches Some(x) && from <= x && x == from + i && from + i + pat@.len()
                <= v@.len(),
            None => r is None,
        },
{
    let ghost rem = v@.subrange(from as int, v@.len() as int);
    let n = v.len();
    let m = pat.unicode_len();
    if m > n - from {
        proof {
            lemma_find_sub(rem, pat@);
            match spec_find_sub(rem, pat@) {
                Some(x) => {
                    assert(matches_at(rem, pat@, x));
                },
                None => {},
            }
        }
        return None;
    }
    let mut i: usize = from;
    while i <= n - m
        invariant
            n == v@.len(),
            m == pat@.len(),
            m >= 1,
            from + m <= n,
            from <= i <= n - m + 1,
            rem == v@.subrange(from as int, v@.len() as int),
            forall|j: int| 0 <= j < i - from ==> !matches_at(rem, pat@, j),
        decreases n - i,
    {
        let hit = range_eq_str(v, i, i + m, pat);
        proof {
            assert(rem.subrange(i - from, i - from + m) =~= v@.subrange(i as int, (i
                + m) as int));
        }
        if hit {
            proof {
                lemma_find_sub(rem, pat@);
                assert(matches_at(rem, pat@, i - from));
                match spec_find_sub(rem, pat@) {
                    Some(x) => {
                        if x > i - from {
                            assert(!matches_at(rem, pat@, i - from));
                        }
                    },
                    None => {
                        assert(!matches_at(rem, pat@, i - from));
                    },
                }
            }
            return Some(i);
        }
        i += 1;
    }
    proof {
        lemma_find_sub(rem, pat@);
        assert forall|j: int| !matches_at(rem, pat@, j) by {
            if 0 <= j < i - from {
            } else if matches_at(rem, pat@, j) {
                assert(j + m <= rem.len());
            }
        }
        match spec_find_sub(rem, pat@) {
            Some(x) => {
                assert(!matches_at(rem, pat@, x));
            },
            None => {},
        }
    }
    None
}

} // verus!

