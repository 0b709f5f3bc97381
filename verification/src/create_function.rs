//! `CREATE [OR REPLACE] FUNCTION`, parsed by hand: PostgreSQL forms with `AS $$...$$`
//! or `AS '...'` bodies, and MySQL forms with `BEGIN ... END` or `RETURN expr` bodies.

use vstd::prelude::*;
use crate::ast::{
    FunctionArgMode, FunctionParameter, FunctionParameterView, FunctionVolatility, Statement,
    StatementView, opt_text, parameter_views,
};
use crate::parser::{ParseError, ParseErrorView, unsupported};
use crate::text::{chars_of, string_of};
use crate::sql_text::{
    append_chars, char_is_alnum, char_is_ws, find_char, find_ci, find_ci_from, find_from,
    find_ws, find_ws_from, has_prefix, is_alnum, is_ws, lemma_find_ci_from_props,
    lemma_find_from_props, lemma_find_ws_from_props, starts_ci, starts_with_chars, starts_with_ci,
    strip_end_char, sub_chars, trim, trim_chars, trim_end, trim_end_chars, trim_start,
    trim_start_chars, upper, is_suffix, contains_ci, lemma_suffix_trans, lemma_trim_start_is_suffix,
};
use crate::manual::{
    ident_end, lemma_ident_end, lemma_parenthesized_len, lemma_parenthesized_suffix,
    lemma_trim_start_len,
    parenthesized_spec, extract_parenthesized, split_at_ws_spec, split_at_whitespace, texts_of,
};
use crate::split::{lemma_tag_end, tag_end};

verus! {

// ---------------------------------------------------------------------
//  Parameters
// ---------------------------------------------------------------------

/// The state of the parameter-list splitter.
pub struct ParamSplit {
    pub parts: Seq<Seq<char>>,
    pub current: Seq<char>,
    pub depth: int,
    pub in_string: bool,
}

/// Splits a parameter list at the commas outside parentheses and `'...'` literals,
/// reading from position `i`; the last part is kept unless it is blank.
pub open spec fn split_params_from(s: Seq<char>, i: int, st: ParamSplit) -> Seq<Seq<char>>
    decreases s.len() - i,
{
    if i < 0 || i >= s.len() {
        if trim(st.current).len() > 0 {
            st.parts.push(st.current)
        } else {
            st.parts
        }
    } else {
        let c = s[i];
        if st.in_string {
            if c == '\'' && i + 1 < s.len() && s[i + 1] == '\'' {
                split_params_from(
                    s,
                    i + 2,
                    ParamSplit { current: st.current.push(c).push(s[i + 1]), ..st },
                )
            } else if c == '\'' {
                split_params_from(
                    s,
                    i + 1,
                    ParamSplit { current: st.current.push(c), in_string: false, ..st },
                )
            } else {
                split_params_from(s, i + 1, ParamSplit { current: st.current.push(c), ..st })
            }
        } else if c == '\'' {
            split_params_from(
                s,
                i + 1,
                ParamSplit { current: st.current.push(c), in_string: true, ..st },
            )
        } else if c == '(' {
            split_params_from(
                s,
                i + 1,
                ParamSplit { current: st.current.push(c), depth: st.depth + 1, ..st },
            )
        } else if c == ')' {
            split_params_from(
                s,
                i + 1,
                ParamSplit { current: st.current.push(c), depth: st.depth - 1, ..st },
            )
        } else if c == ',' && st.depth == 0 {
            split_params_from(
                s,
                i + 1,
                ParamSplit { parts: st.parts.push(st.current), current: Seq::empty(), ..st },
            )
        } else {
            split_params_from(s, i + 1, ParamSplit { current: st.current.push(c), ..st })
        }
    }
}

/// The parts of a parameter list.
pub open spec fn split_params_spec(s: Seq<char>) -> Seq<Seq<char>> {
    split_params_from(
        s,
        0,
        ParamSplit { parts: Seq::empty(), current: Seq::empty(), depth: 0, in_string: false },
    )
}

/// Splits a parameter list, as `split_params_spec` describes.
pub fn split_params(s: &[char]) -> (r: Vec<Vec<char>>)
    ensures
        texts_of(r@) == split_params_spec(s@),
{
    let mut parts: Vec<Vec<char>> = Vec::new();
    let mut current: Vec<char> = Vec::new();
    let mut opens: usize = 0;
    let mut closes: usize = 0;
    let mut in_string = false;
    let mut i: usize = 0;
    let n = s.len();
    assert(texts_of(parts@) =~= Seq::<Seq<char>>::empty());
    assert(current@ =~= Seq::<char>::empty());
    while i < n
        invariant
            n == s@.len(),
            i <= n,
            opens <= i,
            closes <= i,
            split_params_from(
                s@,
                i as int,
                ParamSplit {
                    parts: texts_of(parts@),
                    current: current@,
                    depth: opens - closes,
                    in_string,
                },
            ) == split_params_spec(s@),
        decreases n - i,
    {
        let c = s[i];
        if in_string {
            if c == '\'' && i + 1 < n && s[i + 1] == '\'' {
                current.push(c);
                current.push(s[i + 1]);
                i = i + 2;
            } else if c == '\'' {
                current.push(c);
                in_string = false;
                i = i + 1;
            } else {
                current.push(c);
                i = i + 1;
            }
        } else if c == '\'' {
            current.push(c);
            in_string = true;
            i = i + 1;
        } else if c == '(' {
            current.push(c);
            opens = opens + 1;
            i = i + 1;
        } else if c == ')' {
            current.push(c);
            closes = closes + 1;
            i = i + 1;
        } else if c == ',' && opens == closes {
            let ghost before = texts_of(parts@);
            let done = current;
            parts.push(done);
            assert(texts_of(parts@) =~= before.push(done@));
            current = Vec::new();
            assert(current@ =~= Seq::<char>::empty());
            i = i + 1;
        } else {
            current.push(c);
            i = i + 1;
        }
    }
    let ghost before = texts_of(parts@);
    if trim_chars(&current).len() > 0 {
        let last = current;
        parts.push(last);
        assert(texts_of(parts@) =~= before.push(last@));
    }
    parts
}

/// A name that may stand as a parameter name: an ASCII letter or `_`, then ASCII
/// letters, digits and `_`.
pub open spec fn valid_param_name(s: Seq<char>) -> bool {
    &&& s.len() > 0
    &&& (('a' <= s[0] && s[0] <= 'z') || ('A' <= s[0] && s[0] <= 'Z') || s[0] == '_')
    &&& forall|i: int| 0 <= i < s.len() ==> (is_alnum(#[trigger] s[i]) || s[i] == '_')
}

/// Tests `valid_param_name`.
pub fn is_valid_param_name(s: &[char]) -> (r: bool)
    ensures
        r == valid_param_name(s@),
{
    if s.len() == 0 {
        return false;
    }
    let f = s[0];
    if !(('a' <= f && f <= 'z') || ('A' <= f && f <= 'Z') || f == '_') {
        return false;
    }
    let mut i: usize = 0;
    while i < s.len()
        invariant
            i <= s@.len(),
            forall|j: int| 0 <= j < i ==> (is_alnum(#[trigger] s@[j]) || s@[j] == '_'),
        decreases s@.len() - i,
    {
        if !(char_is_alnum(s[i]) || s[i] == '_') {
            return false;
        }
        i = i + 1;
    }
    true
}

/// `s` from position `k` on, trimmed at its start.
pub open spec fn after(s: Seq<char>, k: int) -> Seq<char> {
    trim_start(s.skip(k))
}

/// One parameter: `[IN | OUT | INOUT | VARIADIC] [name] type [DEFAULT expr | = expr]`.
/// `DEFAULT` is found anywhere in the text (any ASCII case); the first word is the name
/// when it looks like one and is followed by whitespace.
pub open spec fn param_spec(s: Seq<char>) -> FunctionParameterView {
    let t = trim(s);
    let (mode, rest0) = if starts_ci(t, "INOUT"@) {
        (Some(FunctionArgMode::InOut), t.skip("INOUT"@.len() as int))
    } else if starts_ci(t, "VARIADIC"@) {
        (Some(FunctionArgMode::Variadic), t.skip("VARIADIC"@.len() as int))
    } else if starts_ci(t, "OUT"@) {
        (Some(FunctionArgMode::Out), t.skip("OUT"@.len() as int))
    } else if starts_ci(t, "IN "@) || starts_ci(t, "IN\t"@) || starts_ci(t, "IN\n"@) {
        (Some(FunctionArgMode::In), t.skip("IN"@.len() as int))
    } else {
        (None, t)
    };
    let rest = trim_start(rest0);
    let (main, default_expr) = match find_ci_from(rest, "DEFAULT"@, 0) {
        Some(idx) => (trim_end(rest.take(idx)), Some(trim(rest.skip(idx + "DEFAULT"@.len())))),
        None => match find_from(rest, '=', 0) {
            Some(idx) => (trim_end(rest.take(idx)), Some(trim(rest.skip(idx + 1)))),
            None => (rest, None),
        },
    };
    let (name, data_type) = match find_ws_from(main, 0) {
        Some(k) => if valid_param_name(main.take(k)) {
            (Some(main.take(k)), trim(main.skip(k)))
        } else {
            (None, main)
        },
        None => (None, main),
    };
    FunctionParameterView { mode, name, data_type, default_expr }
}

/// Parses one parameter, as `param_spec` describes.
pub fn parse_single_function_parameter(s: &[char]) -> (r: FunctionParameter)
    ensures
        r@ == param_spec(s@),
{
    let t = trim_chars(s);
    let k_inout = chars_of("INOUT");
    let k_var = chars_of("VARIADIC");
    let k_out = chars_of("OUT");
    let k_in = chars_of("IN");
    let (mode, rest0) = if starts_with_ci(&t, &k_inout) {
        (Some(FunctionArgMode::InOut), sub_chars(&t, k_inout.len(), t.len()))
    } else if starts_with_ci(&t, &k_var) {
        (Some(FunctionArgMode::Variadic), sub_chars(&t, k_var.len(), t.len()))
    } else if starts_with_ci(&t, &k_out) {
        (Some(FunctionArgMode::Out), sub_chars(&t, k_out.len(), t.len()))
    } else if starts_with_ci(&t, &chars_of("IN ")) || starts_with_ci(&t, &chars_of("IN\t"))
        || starts_with_ci(&t, &chars_of("IN\n")) {
        proof {
            reveal_strlit("IN");
            reveal_strlit("IN ");
            reveal_strlit("IN\t");
            reveal_strlit("IN\n");
        }
        (Some(FunctionArgMode::In), sub_chars(&t, k_in.len(), t.len()))
    } else {
        (None, sub_chars(&t, 0, t.len()))
    };
    assert(t@.subrange(0, t@.len() as int) =~= t@);
    assert(t@.subrange(k_inout@.len() as int, t@.len() as int) =~= t@.skip(k_inout@.len() as int));
    assert(t@.subrange(k_var@.len() as int, t@.len() as int) =~= t@.skip(k_var@.len() as int));
    assert(t@.subrange(k_out@.len() as int, t@.len() as int) =~= t@.skip(k_out@.len() as int));
    assert(t@.len() >= k_in@.len() ==> t@.subrange(k_in@.len() as int, t@.len() as int) =~= t@.skip(
        k_in@.len() as int,
    ));
    let rest = trim_start_chars(&rest0);
    let k_def = chars_of("DEFAULT");
    let (main, default_expr) = match find_ci(&rest, &k_def, 0) {
        Some(idx) => {
            proof {
                lemma_find_ci_from_props(rest@, k_def@, 0);
                assert(k_def@.len() <= rest@.skip(idx as int).len());
            }
            assert(idx + k_def.len() <= rest.len());
            let m = trim_end_chars(&sub_chars(&rest, 0, idx));
            assert(rest@.subrange(0, idx as int) =~= rest@.take(idx as int));
            let d = trim_chars(&sub_chars(&rest, idx + k_def.len(), rest.len()));
            assert(rest@.subrange(idx + k_def@.len(), rest@.len() as int) =~= rest@.skip(
                idx + "DEFAULT"@.len(),
            ));
            (m, Some(string_of(&d)))
        },
        None => match find_char(&rest, '=', 0) {
            Some(idx) => {
                proof {
                    lemma_find_from_props(rest@, '=', 0);
                }
                assert(idx < rest.len());
                let m = trim_end_chars(&sub_chars(&rest, 0, idx));
                assert(rest@.subrange(0, idx as int) =~= rest@.take(idx as int));
                let d = trim_chars(&sub_chars(&rest, idx + 1, rest.len()));
                assert(rest@.subrange(idx + 1, rest@.len() as int) =~= rest@.skip(idx + 1));
                (m, Some(string_of(&d)))
            },
            None => (sub_chars(&rest, 0, rest.len()), None),
        },
    };
    assert(rest@.subrange(0, rest@.len() as int) =~= rest@);
    let (name, data_type) = match find_ws(&main, 0) {
        Some(k) => {
            proof {
                lemma_find_ws_from_props(main@, 0);
            }
            let first = sub_chars(&main, 0, k);
            assert(first@ =~= main@.take(k as int));
            if is_valid_param_name(&first) {
                let ty = trim_chars(&sub_chars(&main, k, main.len()));
                assert(main@.subrange(k as int, main@.len() as int) =~= main@.skip(k as int));
                (Some(string_of(&first)), string_of(&ty))
            } else {
                (None, string_of(&main))
            }
        },
        None => (None, string_of(&main)),
    };
    FunctionParameter { mode, name, data_type, default_expr }
}

/// The parameters of a list: the non-blank parts, each parsed.
pub open spec fn params_spec(s: Seq<char>) -> Seq<FunctionParameterView> {
    let t = trim(s);
    if t.len() == 0 {
        Seq::empty()
    } else {
        params_of_parts(split_params_spec(t))
    }
}

/// The non-blank parts, each parsed as a parameter.
pub open spec fn params_of_parts(parts: Seq<Seq<char>>) -> Seq<FunctionParameterView>
    decreases parts.len(),
{
    if parts.len() == 0 {
        Seq::empty()
    } else {
        let prev = params_of_parts(parts.drop_last());
        if trim(parts.last()).len() == 0 {
            prev
        } else {
            prev.push(param_spec(trim(parts.last())))
        }
    }
}

/// Parses a parameter list, as `params_spec` describes.
pub fn parse_function_parameters(s: &[char]) -> (r: Vec<FunctionParameter>)
    ensures
        parameter_views(r@) == params_spec(s@),
{
    let t = trim_chars(s);
    let mut out: Vec<FunctionParameter> = Vec::new();
    if t.len() == 0 {
        assert(parameter_views(out@) =~= Seq::<FunctionParameterView>::empty());
        return out;
    }
    let parts = split_params(&t);
    let ghost pv = texts_of(parts@);
    let mut i: usize = 0;
    assert(parameter_views(out@) =~= params_of_parts(pv.take(0)));
    while i < parts.len()
        invariant
            i <= parts@.len(),
            pv == texts_of(parts@),
            parameter_views(out@) == params_of_parts(pv.take(i as int)),
        decreases parts@.len() - i,
    {
        assert(pv.take(i + 1).drop_last() =~= pv.take(i as int));
        assert(pv[i as int] == parts@[i as int]@);
        let p = trim_chars(&parts[i]);
        if p.len() > 0 {
            let ghost before = parameter_views(out@);
            let param = parse_single_function_parameter(&p);
            out.push(param);
            assert(parameter_views(out@) =~= before.push(param@));
        }
        i = i + 1;
    }
    assert(pv.take(parts@.len() as int) =~= pv);
    out
}

// ---------------------------------------------------------------------
//  Return type and body
// ---------------------------------------------------------------------

/// The return type at the start of `s`: `SETOF type`, `TABLE(...)`, or a type name up
/// to whitespace or `;`. The type text and what follows it.
pub open spec fn return_type_spec(s: Seq<char>) -> Result<(Seq<char>, Seq<char>), ParseErrorView>
    decreases s.len(),
{
    let t = trim_start(s);
    if starts_ci(t, "SETOF"@) {
        let a = after(t, "SETOF"@.len() as int);
        proof {
            lemma_trim_start_len(s);
            lemma_trim_start_len(t.skip("SETOF"@.len() as int));
            reveal_strlit("SETOF");
        }
        match return_type_spec(a) {
            Ok((ty, rest)) => Ok(("SETOF "@ + ty, rest)),
            Err(e) => Err(e),
        }
    } else if starts_ci(t, "TABLE"@) {
        match parenthesized_spec(after(t, "TABLE"@.len() as int)) {
            Ok((inner, rest)) => Ok(("TABLE("@ + inner + ")"@, rest)),
            Err(e) => Err(e),
        }
    } else {
        let end = ident_end(t, 0);
        Ok((t.take(end), t.skip(end)))
    }
}

pub proof fn lemma_return_type_len(s: Seq<char>)
    ensures
        return_type_spec(s) matches Ok((_, r)) ==> r.len() <= s.len(),
    decreases s.len(),
{
    let t = trim_start(s);
    lemma_trim_start_len(s);
    if starts_ci(t, "SETOF"@) {
        reveal_strlit("SETOF");
        lemma_trim_start_len(t.skip("SETOF"@.len() as int));
        lemma_return_type_len(after(t, "SETOF"@.len() as int));
    } else if starts_ci(t, "TABLE"@) {
        reveal_strlit("TABLE");
        lemma_trim_start_len(t.skip("TABLE"@.len() as int));
        lemma_parenthesized_len(after(t, "TABLE"@.len() as int));
    } else {
        lemma_ident_end(t, 0);
    }
}

/// What follows a return type is a suffix of the text.
pub proof fn lemma_return_type_suffix(s: Seq<char>)
    ensures
        return_type_spec(s) matches Ok((_, r)) ==> is_suffix(r, s),
    decreases s.len(),
{
    let t = trim_start(s);
    lemma_trim_start_is_suffix(s);
    lemma_trim_start_len(s);
    if starts_ci(t, "SETOF"@) {
        reveal_strlit("SETOF");
        let a = after(t, "SETOF"@.len() as int);
        lemma_trim_start_is_suffix(t.skip(5));
        lemma_return_type_suffix(a);
        if return_type_spec(a) is Ok {
            let r = return_type_spec(a)->Ok_0.1;
            lemma_suffix_trans(r, a, t.skip(5));
            lemma_suffix_trans(r, t.skip(5), t);
            lemma_suffix_trans(r, t, s);
        }
    } else if starts_ci(t, "TABLE"@) {
        reveal_strlit("TABLE");
        let a = after(t, "TABLE"@.len() as int);
        lemma_trim_start_is_suffix(t.skip(5));
        lemma_parenthesized_suffix(a);
        if parenthesized_spec(a) is Ok {
            let r = parenthesized_spec(a)->Ok_0.1;
            lemma_suffix_trans(r, a, t.skip(5));
            lemma_suffix_trans(r, t.skip(5), t);
            lemma_suffix_trans(r, t, s);
        }
    } else {
        lemma_ident_end(t, 0);
        lemma_suffix_trans(t.skip(ident_end(t, 0)), t, s);
    }
}

/// `s` from position `k` on, trimmed at its start.
fn after_of(s: &[char], k: usize) -> (r: Vec<char>)
    requires
        k <= s@.len(),
    ensures
        r@ == after(s@, k as int),
{
    let rest = sub_chars(s, k, s.len());
    assert(rest@ =~= s@.skip(k as int));
    trim_start_chars(&rest)
}

/// Reads a return type, as `return_type_spec` describes.
pub fn extract_return_type(s: &[char]) -> (r: Result<(Vec<char>, Vec<char>), ParseError>)
    ensures
        match r {
            Ok((a, b)) => return_type_spec(s@) == Ok::<(Seq<char>, Seq<char>), ParseErrorView>(
                (a@, b@),
            ),
            Err(e) => return_type_spec(s@) == Err::<(Seq<char>, Seq<char>), ParseErrorView>(e@),
        },
    decreases s@.len(),
{
    let t = trim_start_chars(s);
    proof {
        lemma_trim_start_len(s@);
    }
    let k_setof = chars_of("SETOF");
    let k_table = chars_of("TABLE");
    if starts_with_ci(&t, &k_setof) {
        let a = after_of(&t, k_setof.len());
        proof {
            lemma_trim_start_len(t@.skip(k_setof@.len() as int));
            reveal_strlit("SETOF");
        }
        match extract_return_type(&a) {
            Ok((ty, rest)) => {
                let mut out = chars_of("SETOF ");
                append_chars(&mut out, &ty);
                Ok((out, rest))
            },
            Err(e) => Err(e),
        }
    } else if starts_with_ci(&t, &k_table) {
        let a = after_of(&t, k_table.len());
        match extract_parenthesized(&a) {
            Ok((inner, rest)) => {
                let mut out = chars_of("TABLE(");
                append_chars(&mut out, &inner);
                append_chars(&mut out, &chars_of(")"));
                Ok((out, rest))
            },
            Err(e) => Err(e),
        }
    } else {
        let mut end: usize = 0;
        while end < t.len() && !(char_is_ws(t[end]) || t[end] == ';')
            invariant
                end <= t@.len(),
                ident_end(t@, end as int) == ident_end(t@, 0),
            decreases t@.len() - end,
        {
            end = end + 1;
        }
        let a = sub_chars(&t, 0, end);
        let b = sub_chars(&t, end, t.len());
        assert(a@ =~= t@.take(end as int));
        assert(b@ =~= t@.skip(end as int));
        Ok((a, b))
    }
}

/// The first position at or after `from` where `t` continues with `closing`.
pub open spec fn dollar_close(t: Seq<char>, from: int, closing: Seq<char>) -> Option<int>
    decreases t.len() - from,
{
    if from < 0 || from > t.len() {
        None
    } else if has_prefix(t.skip(from), closing) {
        Some(from)
    } else if from == t.len() {
        None
    } else {
        dollar_close(t, from + 1, closing)
    }
}

proof fn lemma_dollar_close(t: Seq<char>, from: int, closing: Seq<char>)
    requires
        0 <= from,
    ensures
        dollar_close(t, from, closing) matches Some(k) ==> from <= k && k + closing.len() <= t.len(),
    decreases t.len() - from,
{
    if from <= t.len() && !has_prefix(t.skip(from), closing) && from < t.len() {
        lemma_dollar_close(t, from + 1, closing);
    }
}

/// Reads a `'...'` body from position `i` (after the opening quote): a doubled quote
/// stands for one quote. The text and the position after the closing quote, or `None`
/// when the quote is not closed.
pub open spec fn quoted_body_scan(t: Seq<char>, i: int, acc: Seq<char>) -> Option<(Seq<char>, int)>
    decreases t.len() - i,
{
    if i < 0 || i >= t.len() {
        None
    } else if t[i] == '\'' {
        if i + 1 < t.len() && t[i + 1] == '\'' {
            quoted_body_scan(t, i + 2, acc.push('\''))
        } else {
            Some((acc, i + 1))
        }
    } else {
        quoted_body_scan(t, i + 1, acc.push(t[i]))
    }
}

proof fn lemma_quoted_body_scan(t: Seq<char>, i: int, acc: Seq<char>)
    requires
        0 <= i,
    ensures
        quoted_body_scan(t, i, acc) matches Some((_, e)) ==> i < e <= t.len(),
    decreases t.len() - i,
{
    if i < t.len() {
        if t[i] == '\'' {
            if i + 1 < t.len() && t[i + 1] == '\'' {
                lemma_quoted_body_scan(t, i + 2, acc.push('\''));
            }
        } else {
            lemma_quoted_body_scan(t, i + 1, acc.push(t[i]));
        }
    }
}

/// A function body after `AS`: `$tag$...$tag$` or `'...'`. The body text (without its
/// delimiters) and what follows it.
pub open spec fn function_body_spec(s: Seq<char>) -> Result<(Seq<char>, Seq<char>), ParseErrorView> {
    let t = trim_start(s);
    if t.len() > 0 && t[0] == '$' {
        let j = tag_end(t, 1);
        if j < t.len() && t[j] == '$' {
            let opening = t.take(j + 1);
            match dollar_close(t, j + 1, opening) {
                Some(k) => Ok((t.subrange(j + 1, k), t.skip(k + j + 1))),
                None => Err(
                    ParseErrorView::Unsupported(
                        "unterminated dollar-quoted string: expected closing "@ + opening,
                    ),
                ),
            }
        } else {
            Err(ParseErrorView::Unsupported("invalid dollar-quote start: "@ + t))
        }
    } else if t.len() > 0 && t[0] == '\'' {
        match quoted_body_scan(t, 1, Seq::empty()) {
            Some((b, e)) => Ok((b, t.skip(e))),
            None => Err(ParseErrorView::Unsupported("unterminated string literal: "@ + t)),
        }
    } else {
        Err(ParseErrorView::Unsupported("expected function body after AS (got: "@ + t + ")"@))
    }
}

pub proof fn lemma_function_body_len(s: Seq<char>)
    ensures
        function_body_spec(s) matches Ok((_, r)) ==> r.len() <= s.len(),
{
    let t = trim_start(s);
    lemma_trim_start_len(s);
    if t.len() > 0 && t[0] == '$' {
        lemma_tag_end(t, 1);
        let j = tag_end(t, 1);
        if j < t.len() && t[j] == '$' {
            lemma_dollar_close(t, j + 1, t.take(j + 1));
        }
    } else if t.len() > 0 && t[0] == '\'' {
        lemma_quoted_body_scan(t, 1, Seq::empty());
    }
}

/// What follows a function body is a suffix of the text.
pub proof fn lemma_function_body_suffix(s: Seq<char>)
    ensures
        function_body_spec(s) matches Ok((_, r)) ==> is_suffix(r, s),
{
    let t = trim_start(s);
    lemma_trim_start_is_suffix(s);
    if t.len() > 0 && t[0] == '$' {
        lemma_tag_end(t, 1);
        let j = tag_end(t, 1);
        if j < t.len() && t[j] == '$' {
            lemma_dollar_close(t, j + 1, t.take(j + 1));
            if dollar_close(t, j + 1, t.take(j + 1)) is Some {
                let k = dollar_close(t, j + 1, t.take(j + 1))->Some_0;
                lemma_suffix_trans(t.skip(k + j + 1), t, s);
            }
        }
    } else if t.len() > 0 && t[0] == '\'' {
        lemma_quoted_body_scan(t, 1, Seq::empty());
        if quoted_body_scan(t, 1, Seq::empty()) is Some {
            let e = quoted_body_scan(t, 1, Seq::empty())->Some_0.1;
            lemma_suffix_trans(t.skip(e), t, s);
        }
    }
}

/// Reads a function body, as `function_body_spec` describes.
pub fn extract_function_body(s: &[char]) -> (r: Result<(Vec<char>, Vec<char>), ParseError>)
    ensures
        match r {
            Ok((a, b)) => function_body_spec(s@) == Ok::<(Seq<char>, Seq<char>), ParseErrorView>(
                (a@, b@),
            ),
            Err(e) => function_body_spec(s@) == Err::<(Seq<char>, Seq<char>), ParseErrorView>(e@),
        },
{
    let t = trim_start_chars(s);
    let n = t.len();
    if n > 0 && t[0] == '$' {
        let mut j: usize = 1;
        while j < n && crate::sql_text::char_is_word(t[j])
            invariant
                1 <= j <= n,
                n == t@.len(),
                tag_end(t@, j as int) == tag_end(t@, 1),
            decreases n - j,
        {
            j = j + 1;
        }
        if j < n && t[j] == '$' {
            let opening = sub_chars(&t, 0, j + 1);
            assert(opening@ =~= t@.take(j + 1));
            let mut k = j + 1;
            while k < n
                invariant
                    j + 1 <= k <= n,
                    n == t@.len(),
                    j < n,
                    t@ == trim_start(s@),
                    t@.len() > 0 && t@[0] == '$',
                    tag_end(t@, 1) == j,
                    t@[j as int] == '$',
                    opening@ == t@.take(j + 1),
                    dollar_close(t@, k as int, opening@) == dollar_close(t@, j + 1, opening@),
                decreases n - k,
            {
                let tail = vstd::slice::slice_subrange(t.as_slice(), k, n);
                assert(tail@ =~= t@.skip(k as int));
                if starts_with_chars(tail, &opening) {
                    let body = sub_chars(&t, j + 1, k);
                    let rest = sub_chars(&t, k + j + 1, n);
                    assert(rest@ =~= t@.skip(k + j + 1));
                    return Ok((body, rest));
                }
                k = k + 1;
            }
            assert(!has_prefix(t@.skip(n as int), opening@));
            assert(dollar_close(t@, j + 1, opening@) is None);
            let mut m = chars_of("unterminated dollar-quoted string: expected closing ");
            append_chars(&mut m, &opening);
            return Err(ParseError::Unsupported(string_of(&m)));
        } else {
            return Err(unsupported("invalid dollar-quote start: ", &t));
        }
    }
    if n > 0 && t[0] == '\'' {
        let mut body: Vec<char> = Vec::new();
        let mut i: usize = 1;
        while i < n
            invariant
                1 <= i <= n + 1,
                n == t@.len(),
                t@ == trim_start(s@),
                t@.len() > 0 && t@[0] == '\'',
                quoted_body_scan(t@, i as int, body@) == quoted_body_scan(t@, 1, Seq::empty()),
            decreases n + 1 - i,
        {
            if t[i] == '\'' {
                if i + 1 < n && t[i + 1] == '\'' {
                    body.push('\'');
                    i = i + 2;
                } else {
                    let rest = sub_chars(&t, i + 1, n);
                    assert(rest@ =~= t@.skip(i + 1));
                    return Ok((body, rest));
                }
            } else {
                body.push(t[i]);
                i = i + 1;
            }
        }
        let mut m = chars_of("unterminated string literal: ");
        append_chars(&mut m, &t);
        return Err(ParseError::Unsupported(string_of(&m)));
    }
    let mut m = chars_of("expected function body after AS (got: ");
    append_chars(&mut m, &t);
    append_chars(&mut m, &chars_of(")"));
    Err(ParseError::Unsupported(string_of(&m)))
}

// ---------------------------------------------------------------------
//  MySQL BEGIN ... END bodies
// ---------------------------------------------------------------------

/// What `char::is_alphanumeric` answers for a character.
pub uninterp spec fn unicode_alphanumeric(c: char) -> bool;

/// `char::is_alphanumeric` (Unicode letters and numbers); the result is named
/// `unicode_alphanumeric`.
#[verifier::external_body]
fn char_is_alphanumeric(c: char) -> (r: bool)
    ensures
        r == unicode_alphanumeric(c),
{
    c.is_alphanumeric()
}

/// `rem` begins with the keyword `kw` (any ASCII case) not followed by a letter, digit
/// or `_`.
pub open spec fn keyword_at(rem: Seq<char>, kw: Seq<char>) -> bool {
    starts_ci(rem, kw) && (rem.len() == kw.len() || !(unicode_alphanumeric(rem[kw.len() as int])
        || rem[kw.len() as int] == '_'))
}

/// The position after a quoted name or literal that opened just before `p`, with
/// quote character `q` (a doubled quote stands for one), or the end.
pub open spec fn quote_skip(t: Seq<char>, p: int, q: char) -> int
    decreases t.len() - p,
{
    if p < 0 || p >= t.len() {
        t.len() as int
    } else if t[p] == q {
        if p + 1 < t.len() && t[p + 1] == q {
            quote_skip(t, p + 2, q)
        } else {
            p + 1
        }
    } else {
        quote_skip(t, p + 1, q)
    }
}

/// The position after the `*/` that closes a comment whose text starts at `p` (no
/// nesting); when none is found, the last position (or `p` itself near the end).
pub open spec fn block_skip(t: Seq<char>, p: int) -> int
    decreases t.len() - p,
{
    if p < 0 || p + 1 >= t.len() {
        p
    } else if t[p] == '*' && t[p + 1] == '/' {
        p + 2
    } else {
        block_skip(t, p + 1)
    }
}

/// The position of the line feed that ends a `--` comment at `p`, or the end.
pub open spec fn line_skip(t: Seq<char>, p: int) -> int {
    match find_from(t, '\n', p) {
        Some(k) => k,
        None => t.len() as int,
    }
}

pub proof fn lemma_quote_skip(t: Seq<char>, p: int, q: char)
    requires
        0 <= p <= t.len(),
    ensures
        p <= quote_skip(t, p, q) <= t.len(),
    decreases t.len() - p,
{
    if p < t.len() {
        if t[p] == q {
            if p + 1 < t.len() && t[p + 1] == q {
                lemma_quote_skip(t, p + 2, q);
            }
        } else {
            lemma_quote_skip(t, p + 1, q);
        }
    }
}

pub proof fn lemma_block_skip(t: Seq<char>, p: int)
    requires
        0 <= p,
    ensures
        p <= block_skip(t, p),
        p <= t.len() ==> block_skip(t, p) <= t.len(),
    decreases t.len() - p,
{
    if p + 1 < t.len() && !(t[p] == '*' && t[p + 1] == '/') {
        lemma_block_skip(t, p + 1);
    }
}

/// Scans a `BEGIN ... END` body from position `pos` at nesting `depth`: nested
/// `BEGIN`/`END` keywords are counted, quoted names and literals and comments are
/// skipped. At the matching `END`, the body is the text up to it (trimmed) and what
/// follows is the rest without one leading `;`; when no `END` matches, the whole text
/// with ` END` added is the body.
pub open spec fn be_scan(t: Seq<char>, pos: int, depth: int) -> (Seq<char>, Seq<char>)
    decreases t.len() - pos,
{
    if pos < 0 || pos >= t.len() {
        (trim(t) + " END"@, Seq::empty())
    } else {
        let rem = t.skip(pos);
        if keyword_at(rem, "BEGIN"@) {
            proof {
                reveal_strlit("BEGIN");
            }
            be_scan(t, pos + 5, depth + 1)
        } else if keyword_at(rem, "END"@) {
            proof {
                reveal_strlit("END");
            }
            if depth - 1 == 0 {
                let a = trim_start(t.skip(pos + 3));
                (trim(t.take(pos + 3)), if a.len() > 0 && a[0] == ';' {
                    a.drop_first()
                } else {
                    a
                })
            } else {
                be_scan(t, pos + 3, depth - 1)
            }
        } else if t[pos] == '\'' || t[pos] == '"' {
            proof {
                lemma_quote_skip(t, pos + 1, t[pos]);
            }
            be_scan(t, quote_skip(t, pos + 1, t[pos]), depth)
        } else if pos + 1 < t.len() && t[pos] == '-' && t[pos + 1] == '-' {
            proof {
                lemma_find_from_props(t, '\n', pos);
            }
            be_scan(t, line_skip(t, pos), depth)
        } else if pos + 1 < t.len() && t[pos] == '/' && t[pos + 1] == '*' {
            proof {
                lemma_block_skip(t, pos + 2);
            }
            be_scan(t, block_skip(t, pos + 2), depth)
        } else {
            be_scan(t, pos + 1, depth)
        }
    }
}

/// A MySQL `BEGIN ... END` body at the start of `s`, as `be_scan` reads it.
pub open spec fn begin_end_spec(s: Seq<char>) -> Result<(Seq<char>, Seq<char>), ParseErrorView> {
    let t = trim_start(s);
    if !starts_ci(t, "BEGIN"@) {
        Err(ParseErrorView::Unsupported("expected BEGIN clause in MySQL function body: "@ + s))
    } else {
        Ok(be_scan(t, "BEGIN"@.len() as int, 1))
    }
}

pub proof fn lemma_be_scan_len(t: Seq<char>, pos: int, depth: int)
    requires
        0 <= pos,
        t.len() > 0,
    ensures
        be_scan(t, pos, depth).1.len() < t.len(),
    decreases t.len() - pos,
{
    if pos < t.len() {
        let rem = t.skip(pos);
        reveal_strlit("BEGIN");
        reveal_strlit("END");
        if keyword_at(rem, "BEGIN"@) {
            lemma_be_scan_len(t, pos + 5, depth + 1);
        } else if keyword_at(rem, "END"@) {
            if depth - 1 == 0 {
                lemma_trim_start_len(t.skip(pos + 3));
            } else {
                lemma_be_scan_len(t, pos + 3, depth - 1);
            }
        } else if t[pos] == '\'' || t[pos] == '"' {
            lemma_quote_skip(t, pos + 1, t[pos]);
            lemma_be_scan_len(t, quote_skip(t, pos + 1, t[pos]), depth);
        } else if pos + 1 < t.len() && t[pos] == '-' && t[pos + 1] == '-' {
            lemma_find_from_props(t, '\n', pos);
            lemma_be_scan_len(t, line_skip(t, pos), depth);
        } else if pos + 1 < t.len() && t[pos] == '/' && t[pos + 1] == '*' {
            lemma_block_skip(t, pos + 2);
            lemma_be_scan_len(t, block_skip(t, pos + 2), depth);
        } else {
            lemma_be_scan_len(t, pos + 1, depth);
        }
    }
}

/// What follows a `BEGIN ... END` body is a suffix of the text scanned.
pub proof fn lemma_be_scan_suffix(t: Seq<char>, pos: int, depth: int)
    requires
        0 <= pos,
    ensures
        is_suffix(be_scan(t, pos, depth).1, t),
    decreases t.len() - pos,
{
    if pos < t.len() {
        let rem = t.skip(pos);
        reveal_strlit("BEGIN");
        reveal_strlit("END");
        if keyword_at(rem, "BEGIN"@) {
            lemma_be_scan_suffix(t, pos + 5, depth + 1);
        } else if keyword_at(rem, "END"@) {
            if depth - 1 == 0 {
                let a = trim_start(t.skip(pos + 3));
                lemma_trim_start_is_suffix(t.skip(pos + 3));
                lemma_suffix_trans(a, t.skip(pos + 3), t);
                if a.len() > 0 {
                    lemma_suffix_trans(a.skip(1), a, t);
                    assert(a.drop_first() =~= a.skip(1));
                }
            } else {
                lemma_be_scan_suffix(t, pos + 3, depth - 1);
            }
        } else if t[pos] == '\'' || t[pos] == '"' {
            lemma_quote_skip(t, pos + 1, t[pos]);
            lemma_be_scan_suffix(t, quote_skip(t, pos + 1, t[pos]), depth);
        } else if pos + 1 < t.len() && t[pos] == '-' && t[pos + 1] == '-' {
            lemma_find_from_props(t, '\n', pos);
            lemma_be_scan_suffix(t, line_skip(t, pos), depth);
        } else if pos + 1 < t.len() && t[pos] == '/' && t[pos + 1] == '*' {
            lemma_block_skip(t, pos + 2);
            lemma_be_scan_suffix(t, block_skip(t, pos + 2), depth);
        } else {
            lemma_be_scan_suffix(t, pos + 1, depth);
        }
    } else {
        assert(Seq::<char>::empty() =~= t.skip(t.len() as int));
    }
}

/// What follows a `BEGIN ... END` body is a suffix of the text.
pub proof fn lemma_begin_end_suffix(s: Seq<char>)
    ensures
        begin_end_spec(s) matches Ok((_, r)) ==> is_suffix(r, s),
{
    let t = trim_start(s);
    reveal_strlit("BEGIN");
    lemma_trim_start_is_suffix(s);
    lemma_be_scan_suffix(t, 5, 1);
    lemma_suffix_trans(be_scan(t, 5, 1).1, t, s);
}

/// Tests `keyword_at(t[pos..], kw)`.
fn keyword_at_of(t: &[char], pos: usize, kw: &[char]) -> (r: bool)
    requires
        pos <= t@.len(),
    ensures
        r == keyword_at(t@.skip(pos as int), kw@),
{
    let rem = vstd::slice::slice_subrange(t, pos, t.len());
    assert(rem@ =~= t@.skip(pos as int));
    if !starts_with_ci(rem, kw) {
        return false;
    }
    if rem.len() == kw.len() {
        return true;
    }
    let c = rem[kw.len()];
    !(char_is_alphanumeric(c) || c == '_')
}

/// Reads a MySQL `BEGIN ... END` body, as `begin_end_spec` describes.
pub fn extract_mysql_begin_end_body(s: &[char]) -> (r: Result<(Vec<char>, Vec<char>), ParseError>)
    ensures
        match r {
            Ok((a, b)) => begin_end_spec(s@) == Ok::<(Seq<char>, Seq<char>), ParseErrorView>(
                (a@, b@),
            ),
            Err(e) => begin_end_spec(s@) == Err::<(Seq<char>, Seq<char>), ParseErrorView>(e@),
        },
{
    let t = trim_start_chars(s);
    let k_begin = chars_of("BEGIN");
    let k_end = chars_of("END");
    if !starts_with_ci(&t, &k_begin) {
        return Err(unsupported("expected BEGIN clause in MySQL function body: ", s));
    }
    proof {
        reveal_strlit("BEGIN");
        reveal_strlit("END");
    }
    let n = t.len();
    let mut pos: usize = 5;
    let mut depth: usize = 1;
    while pos < n
        invariant
            pos <= n,
            n == t@.len(),
            1 <= depth <= pos,
            t@ == trim_start(s@),
            starts_ci(t@, "BEGIN"@),
            k_begin@ == "BEGIN"@,
            k_end@ == "END"@,
            "BEGIN"@.len() == 5,
            "END"@.len() == 3,
            be_scan(t@, pos as int, depth as int) == be_scan(t@, 5, 1),
        decreases n - pos,
    {
        if keyword_at_of(&t, pos, &k_begin) {
            depth = depth + 1;
            pos = pos + 5;
        } else if keyword_at_of(&t, pos, &k_end) {
            if depth == 1 {
                let body = trim_chars(&sub_chars(&t, 0, pos + 3));
                assert(t@.subrange(0, pos + 3) =~= t@.take(pos + 3));
                let a = after_of(&t, pos + 3);
                if a.len() > 0 && a[0] == ';' {
                    let b = sub_chars(&a, 1, a.len());
                    assert(b@ =~= a@.drop_first());
                    return Ok((body, b));
                }
                return Ok((body, a));
            }
            depth = depth - 1;
            pos = pos + 3;
        } else if t[pos] == '\'' || t[pos] == '"' {
            let q = t[pos];
            let mut p = pos + 1;
            let mut done = false;
            proof {
                lemma_quote_skip(t@, pos + 1, q);
            }
            while !done && p < n
                invariant
                    pos < p <= n,
                    n == t@.len(),
                    done ==> quote_skip(t@, pos + 1, q) == p,
                    !done ==> quote_skip(t@, p as int, q) == quote_skip(t@, pos + 1, q),
                decreases n - p,
            {
                if t[p] == q {
                    if p + 1 < n && t[p + 1] == q {
                        p = p + 2;
                    } else {
                        p = p + 1;
                        done = true;
                    }
                } else {
                    p = p + 1;
                }
            }
            pos = p;
        } else if pos + 1 < n && t[pos] == '-' && t[pos + 1] == '-' {
            proof {
                lemma_find_from_props(t@, '\n', pos as int);
            }
            pos = match find_char(&t, '\n', pos) {
                Some(k) => k,
                None => n,
            };
        } else if pos + 1 < n && t[pos] == '/' && t[pos + 1] == '*' {
            let mut p = pos + 2;
            proof {
                lemma_block_skip(t@, pos + 2);
            }
            while n - p >= 2 && !(t[p] == '*' && t[p + 1] == '/')
                invariant
                    pos + 2 <= p <= n,
                    n == t@.len(),
                    block_skip(t@, p as int) == block_skip(t@, pos + 2),
                decreases n - p,
            {
                p = p + 1;
            }
            if n - p >= 2 {
                p = p + 2;
            }
            pos = p;
        } else {
            pos = pos + 1;
        }
    }
    let mut body = trim_chars(&t);
    append_chars(&mut body, &chars_of(" END"));
    Ok((body, Vec::new()))
}

// ---------------------------------------------------------------------
//  CREATE FUNCTION
// ---------------------------------------------------------------------

/// `s` without the `'` and `"` characters at either end.
pub open spec fn strip_quote_chars(s: Seq<char>) -> Seq<char> {
    strip_quote_end(strip_quote_start(s))
}

pub open spec fn strip_quote_start(s: Seq<char>) -> Seq<char>
    decreases s.len(),
{
    if s.len() > 0 && (s[0] == '\'' || s[0] == '"') {
        strip_quote_start(s.drop_first())
    } else {
        s
    }
}

pub open spec fn strip_quote_end(s: Seq<char>) -> Seq<char>
    decreases s.len(),
{
    if s.len() > 0 && (s.last() == '\'' || s.last() == '"') {
        strip_quote_end(s.drop_last())
    } else {
        s
    }
}

/// `s` without one trailing `;` and the whitespace before it.
pub open spec fn drop_trailing_semicolon(s: Seq<char>) -> Seq<char> {
    if s.len() > 0 && s.last() == ';' {
        trim_end(s.drop_last())
    } else {
        s
    }
}

/// What has been read of a CREATE FUNCTION statement after its parameter list.
pub struct CfState {
    pub return_type: Seq<char>,
    pub language: Seq<char>,
    pub body: Option<Seq<char>>,
    pub volatility: Option<FunctionVolatility>,
    pub strict: bool,
    pub security_definer: bool,
}

/// The body of a MySQL `RETURN expr` function, when `rem` is one: `RETURN` (not
/// `RETURNS`) followed by whitespace and a non-empty expression.
pub open spec fn return_expr_body(rem: Seq<char>) -> Option<Seq<char>> {
    if starts_ci(rem, "RETURN"@) && !starts_ci(rem, "RETURNS"@) {
        let a = rem.skip("RETURN"@.len() as int);
        if a.len() == 0 || is_ws(a[0]) {
            let e = trim(strip_end_char(trim(a), ';'));
            if e.len() > 0 {
                Some("BEGIN RETURN "@ + e + "; END"@)
            } else {
                None
            }
        } else {
            None
        }
    } else {
        None
    }
}

/// The language, or `plpgsql` when none has been given.
pub open spec fn default_language(l: Seq<char>) -> Seq<char> {
    if l.len() == 0 {
        "plpgsql"@
    } else {
        l
    }
}

pub proof fn lemma_split_at_ws_len(s: Seq<char>)
    ensures
        split_at_ws_spec(s).1.len() <= s.len(),
        split_at_ws_spec(s).0.len() > 0 ==> split_at_ws_spec(s).1.len() < s.len(),
        split_at_ws_spec(s).0.len() + split_at_ws_spec(s).1.len() == s.len(),
{
    lemma_find_ws_from_props(s, 0);
}

pub proof fn lemma_trim_end_len(s: Seq<char>)
    ensures
        trim_end(s).len() <= s.len(),
    decreases s.len(),
{
    if s.len() > 0 && is_ws(s.last()) {
        lemma_trim_end_len(s.drop_last());
    }
}

pub proof fn lemma_after_len(s: Seq<char>, k: int)
    requires
        0 <= k <= s.len(),
    ensures
        after(s, k).len() <= s.len() - k,
{
    lemma_trim_start_len(s.skip(k));
}

/// The attributes of a CREATE FUNCTION statement, read from `rem` on: `RETURNS`,
/// `LANGUAGE`, volatility words (and MySQL's `[NOT] DETERMINISTIC`), MySQL data-access
/// words (ignored), `BEGIN ... END` and `RETURN expr` bodies, `STRICT`,
/// `SECURITY DEFINER | INVOKER`, `AS body`; any other word is skipped (with `= value`
/// after it, if any).
pub open spec fn cf_loop(rem: Seq<char>, st: CfState) -> Result<CfState, ParseErrorView>
    decreases rem.len(),
{
    if rem.len() == 0 {
        Ok(st)
    } else if starts_ci(rem, "RETURNS"@) {
        let a = after(rem, "RETURNS"@.len() as int);
        proof {
            lemma_after_len(rem, "RETURNS"@.len() as int);
            reveal_strlit("RETURNS");
            lemma_return_type_len(a);
        }
        match return_type_spec(a) {
            Err(e) => Err(e),
            Ok((ty, rest)) => {
                proof {
                    lemma_trim_start_len(rest);
                }
                cf_loop(trim_start(rest), CfState { return_type: ty, ..st })
            },
        }
    } else if starts_ci(rem, "LANGUAGE"@) {
        let a = after(rem, "LANGUAGE"@.len() as int);
        let (lang, rest) = split_at_ws_spec(a);
        let r = drop_trailing_semicolon(trim_start(rest));
        proof {
            lemma_after_len(rem, "LANGUAGE"@.len() as int);
            reveal_strlit("LANGUAGE");
            lemma_split_at_ws_len(a);
            lemma_trim_start_len(rest);
            lemma_trim_end_len(trim_start(rest).drop_last());
        }
        cf_loop(r, CfState { language: strip_quote_chars(lang), ..st })
    } else if starts_ci(rem, "IMMUTABLE"@) {
        proof {
            lemma_after_len(rem, "IMMUTABLE"@.len() as int);
            reveal_strlit("IMMUTABLE");
        }
        cf_loop(
            after(rem, "IMMUTABLE"@.len() as int),
            CfState { volatility: Some(FunctionVolatility::Immutable), ..st },
        )
    } else if starts_ci(rem, "STABLE"@) {
        proof {
            lemma_after_len(rem, "STABLE"@.len() as int);
            reveal_strlit("STABLE");
        }
        cf_loop(
            after(rem, "STABLE"@.len() as int),
            CfState { volatility: Some(FunctionVolatility::Stable), ..st },
        )
    } else if starts_ci(rem, "VOLATILE"@) {
        proof {
            lemma_after_len(rem, "VOLATILE"@.len() as int);
            reveal_strlit("VOLATILE");
        }
        cf_loop(
            after(rem, "VOLATILE"@.len() as int),
            CfState { volatility: Some(FunctionVolatility::Volatile), ..st },
        )
    } else if starts_ci(rem, "DETERMINISTIC"@) {
        proof {
            lemma_after_len(rem, "DETERMINISTIC"@.len() as int);
            reveal_strlit("DETERMINISTIC");
        }
        cf_loop(
            after(rem, "DETERMINISTIC"@.len() as int),
            CfState { volatility: Some(FunctionVolatility::Immutable), ..st },
        )
    } else if starts_ci(rem, "NOT DETERMINISTIC"@) {
        proof {
            lemma_after_len(rem, "NOT DETERMINISTIC"@.len() as int);
            reveal_strlit("NOT DETERMINISTIC");
        }
        cf_loop(
            after(rem, "NOT DETERMINISTIC"@.len() as int),
            CfState { volatility: Some(FunctionVolatility::Volatile), ..st },
        )
    } else if starts_ci(rem, "READS SQL DATA"@) {
        proof {
            lemma_after_len(rem, "READS SQL DATA"@.len() as int);
            reveal_strlit("READS SQL DATA");
        }
        cf_loop(after(rem, "READS SQL DATA"@.len() as int), st)
    } else if starts_ci(rem, "NO SQL"@) {
        proof {
            lemma_after_len(rem, "NO SQL"@.len() as int);
            reveal_strlit("NO SQL");
        }
        cf_loop(after(rem, "NO SQL"@.len() as int), st)
    } else if starts_ci(rem, "CONTAINS SQL"@) {
        proof {
            lemma_after_len(rem, "CONTAINS SQL"@.len() as int);
            reveal_strlit("CONTAINS SQL");
        }
        cf_loop(after(rem, "CONTAINS SQL"@.len() as int), st)
    } else if starts_ci(rem, "MODIFIES SQL DATA"@) {
        proof {
            lemma_after_len(rem, "MODIFIES SQL DATA"@.len() as int);
            reveal_strlit("MODIFIES SQL DATA");
        }
        cf_loop(after(rem, "MODIFIES SQL DATA"@.len() as int), st)
    } else if starts_ci(rem, "BEGIN"@) {
        match begin_end_spec(rem) {
            Err(e) => Err(e),
            Ok((b, a)) => {
                proof {
                    reveal_strlit("BEGIN");
                    lemma_trim_start_len(rem);
                    lemma_be_scan_len(trim_start(rem), 5, 1);
                    lemma_trim_start_len(a);
                    lemma_trim_end_len(trim_start(a).drop_last());
                }
                cf_loop(
                    drop_trailing_semicolon(trim_start(a)),
                    CfState { body: Some(b), language: default_language(st.language), ..st },
                )
            },
        }
    } else if return_expr_body(rem) is Some {
        cf_loop(
            Seq::empty(),
            CfState {
                body: return_expr_body(rem),
                language: default_language(st.language),
                ..st
            },
        )
    } else if starts_ci(rem, "STRICT"@) || starts_ci(rem, "RETURNS NULL ON NULL INPUT"@) {
        if starts_ci(rem, "RETURNS NULL ON NULL INPUT"@) {
            proof {
                lemma_after_len(rem, "RETURNS NULL ON NULL INPUT"@.len() as int);
                reveal_strlit("RETURNS NULL ON NULL INPUT");
            }
            cf_loop(after(rem, "RETURNS NULL ON NULL INPUT"@.len() as int), CfState { strict: true, ..st })
        } else {
            proof {
                lemma_after_len(rem, "STRICT"@.len() as int);
                reveal_strlit("STRICT");
            }
            cf_loop(after(rem, "STRICT"@.len() as int), CfState { strict: true, ..st })
        }
    } else if starts_ci(rem, "SECURITY DEFINER"@) {
        proof {
            lemma_after_len(rem, "SECURITY DEFINER"@.len() as int);
            reveal_strlit("SECURITY DEFINER");
        }
        cf_loop(after(rem, "SECURITY DEFINER"@.len() as int), CfState { security_definer: true, ..st })
    } else if starts_ci(rem, "SECURITY INVOKER"@) {
        proof {
            lemma_after_len(rem, "SECURITY INVOKER"@.len() as int);
            reveal_strlit("SECURITY INVOKER");
        }
        cf_loop(after(rem, "SECURITY INVOKER"@.len() as int), CfState { security_definer: false, ..st })
    } else if starts_ci(rem, "AS"@) {
        let a0 = after(rem, "AS"@.len() as int);
        match function_body_spec(a0) {
            Err(e) => Err(e),
            Ok((b, a)) => {
                proof {
                    reveal_strlit("AS");
                    lemma_after_len(rem, 2);
                    lemma_function_body_len(a0);
                    lemma_trim_start_len(a);
                    lemma_trim_end_len(trim_start(a).drop_last());
                }
                cf_loop(drop_trailing_semicolon(trim_start(a)), CfState { body: Some(b), ..st })
            },
        }
    } else {
        let (word, rest) = split_at_ws_spec(rem);
        proof {
            lemma_split_at_ws_len(rem);
            lemma_trim_start_len(rest);
        }
        if word.len() == 0 {
            Ok(st)
        } else {
            let rt = trim_start(rest);
            if rt.len() > 0 && rt[0] == '=' {
                let (v, av) = split_at_ws_spec(trim_start(rt.drop_first()));
                proof {
                    lemma_trim_start_len(rt.drop_first());
                    lemma_split_at_ws_len(trim_start(rt.drop_first()));
                    lemma_trim_start_len(av);
                }
                cf_loop(trim_start(av), st)
            } else {
                cf_loop(rt, st)
            }
        }
    }
}

/// Each volatility word sets the volatility it names and reading goes on after it:
/// `STABLE` gives `Stable`, `IMMUTABLE` and MySQL's `DETERMINISTIC` give `Immutable`,
/// `VOLATILE` and MySQL's `NOT DETERMINISTIC` give `Volatile` (any ASCII case), whatever
/// was read before.
pub proof fn law_volatility_word_sets_volatility(rem: Seq<char>, st: CfState)
    ensures
        starts_ci(rem, "STABLE"@) ==> cf_loop(rem, st) == cf_loop(
            after(rem, 6),
            (CfState { volatility: Some(FunctionVolatility::Stable), ..st }),
        ),
        starts_ci(rem, "IMMUTABLE"@) ==> cf_loop(rem, st) == cf_loop(
            after(rem, 9),
            (CfState { volatility: Some(FunctionVolatility::Immutable), ..st }),
        ),
        starts_ci(rem, "DETERMINISTIC"@) ==> cf_loop(rem, st) == cf_loop(
            after(rem, 13),
            (CfState { volatility: Some(FunctionVolatility::Immutable), ..st }),
        ),
        starts_ci(rem, "VOLATILE"@) ==> cf_loop(rem, st) == cf_loop(
            after(rem, 8),
            (CfState { volatility: Some(FunctionVolatility::Volatile), ..st }),
        ),
        starts_ci(rem, "NOT DETERMINISTIC"@) ==> cf_loop(rem, st) == cf_loop(
            after(rem, 17),
            (CfState { volatility: Some(FunctionVolatility::Volatile), ..st }),
        ),
{
    reveal_strlit("STABLE");
    reveal_strlit("IMMUTABLE");
    reveal_strlit("DETERMINISTIC");
    reveal_strlit("VOLATILE");
    reveal_strlit("NOT DETERMINISTIC");
    reveal_strlit("RETURNS");
    reveal_strlit("LANGUAGE");
    if rem.len() > 0 {
        let c = upper(rem[0]);
        assert(starts_ci(rem, "RETURNS"@) ==> c == 'R');
        assert(starts_ci(rem, "LANGUAGE"@) ==> c == 'L');
        assert(starts_ci(rem, "IMMUTABLE"@) ==> c == 'I');
        assert(starts_ci(rem, "STABLE"@) ==> c == 'S');
        assert(starts_ci(rem, "VOLATILE"@) ==> c == 'V');
        assert(starts_ci(rem, "DETERMINISTIC"@) ==> c == 'D');
    }
}

/// `text` holds a word that names volatility `v` (any ASCII case): `STABLE` for
/// `Stable`, `IMMUTABLE` or `DETERMINISTIC` for `Immutable`, `VOLATILE` or
/// `NOT DETERMINISTIC` for `Volatile`.
pub open spec fn names_volatility(text: Seq<char>, v: FunctionVolatility) -> bool {
    match v {
        FunctionVolatility::Stable => contains_ci(text, "STABLE"@),
        FunctionVolatility::Immutable => contains_ci(text, "IMMUTABLE"@) || contains_ci(
            text,
            "DETERMINISTIC"@,
        ),
        FunctionVolatility::Volatile => contains_ci(text, "VOLATILE"@) || contains_ci(
            text,
            "NOT DETERMINISTIC"@,
        ),
    }
}

/// `r` stands somewhere in `s`.
pub open spec fn within(r: Seq<char>, s: Seq<char>) -> bool {
    exists|a: int| 0 <= a && a + r.len() <= s.len() && #[trigger] s.subrange(a, a + r.len()) == r
}

/// Reading attributes from `text` either kept the volatility it started with or ended
/// with one that a word of `text` names.
pub open spec fn volatility_from(
    res: Result<CfState, ParseErrorView>,
    before: Option<FunctionVolatility>,
    text: Seq<char>,
) -> bool {
    res matches Ok(st2) ==> st2.volatility == before || (st2.volatility matches Some(v)
        && names_volatility(text, v))
}

proof fn lemma_suffix_within(r: Seq<char>, s: Seq<char>)
    requires
        is_suffix(r, s),
    ensures
        within(r, s),
{
    let a = s.len() - r.len();
    assert(s.subrange(a, a + r.len()) =~= r);
}

proof fn lemma_within_trans(r: Seq<char>, s: Seq<char>, u: Seq<char>)
    requires
        within(r, s),
        within(s, u),
    ensures
        within(r, u),
{
    let a = choose|a: int| 0 <= a && a + r.len() <= s.len() && #[trigger] s.subrange(a, a + r.len()) == r;
    let b = choose|b: int| 0 <= b && b + s.len() <= u.len() && #[trigger] u.subrange(b, b + s.len()) == s;
    assert(u.subrange(b + a, b + a + r.len()) =~= r);
}

proof fn lemma_semicolon_within(x: Seq<char>)
    ensures
        within(drop_trailing_semicolon(x), x),
        drop_trailing_semicolon(x).len() <= x.len(),
{
    let r = drop_trailing_semicolon(x);
    if x.len() > 0 && x.last() == ';' {
        crate::sql_text::lemma_trim_end_prefix(x.drop_last());
        let a: int = 0;
        assert(x.subrange(a, a + r.len()) =~= r);
    } else {
        let a: int = 0;
        assert(x.subrange(a, a + x.len()) =~= x);
    }
}

proof fn lemma_names_within(r: Seq<char>, s: Seq<char>, v: FunctionVolatility)
    requires
        within(r, s),
        names_volatility(r, v),
    ensures
        names_volatility(s, v),
{
    let a = choose|a: int| 0 <= a && a + r.len() <= s.len() && #[trigger] s.subrange(a, a + r.len()) == r;
    if contains_ci(r, "STABLE"@) {
        crate::sql_text::lemma_contains_ci_within(s, a, a + r.len(), "STABLE"@);
    }
    if contains_ci(r, "IMMUTABLE"@) {
        crate::sql_text::lemma_contains_ci_within(s, a, a + r.len(), "IMMUTABLE"@);
    }
    if contains_ci(r, "DETERMINISTIC"@) {
        crate::sql_text::lemma_contains_ci_within(s, a, a + r.len(), "DETERMINISTIC"@);
    }
    if contains_ci(r, "VOLATILE"@) {
        crate::sql_text::lemma_contains_ci_within(s, a, a + r.len(), "VOLATILE"@);
    }
    if contains_ci(r, "NOT DETERMINISTIC"@) {
        crate::sql_text::lemma_contains_ci_within(s, a, a + r.len(), "NOT DETERMINISTIC"@);
    }
}

proof fn lemma_volatility_from_within(
    res: Result<CfState, ParseErrorView>,
    before: Option<FunctionVolatility>,
    r: Seq<char>,
    s: Seq<char>,
)
    requires
        volatility_from(res, before, r),
        within(r, s),
    ensures
        volatility_from(res, before, s),
{
    if res is Ok {
        let st2 = res->Ok_0;
        if st2.volatility != before {
            lemma_names_within(r, s, st2.volatility->Some_0);
        }
    }
}

/// A text that begins with `kw` holds it.
proof fn lemma_starts_contains(s: Seq<char>, kw: Seq<char>)
    requires
        starts_ci(s, kw),
        kw.len() > 0,
    ensures
        contains_ci(s, kw),
{
    lemma_find_ci_from_props(s, kw, 0);
    assert(s.skip(0) =~= s);
}

/// One step of reading attributes: `rem` is read as `r` from state `st1`, where `r`
/// stands in `rem` and is shorter, and `st1` keeps the volatility or sets one that a
/// word of `rem` names.
proof fn lemma_cf_step(rem: Seq<char>, st: CfState, r: Seq<char>, st1: CfState)
    requires
        within(r, rem),
        r.len() < rem.len(),
        cf_loop(rem, st) == cf_loop(r, st1),
        st1.volatility == st.volatility || (st1.volatility matches Some(v) && names_volatility(rem, v)),
    ensures
        volatility_from(cf_loop(rem, st), st.volatility, rem),
    decreases rem.len(), 0nat,
{
    lemma_cf_loop_volatility(r, st1);
    lemma_volatility_from_within(cf_loop(r, st1), st1.volatility, r, rem);
}

/// What is left after trimming the start and a trailing `;` stands in the text.
proof fn lemma_tail_within(x: Seq<char>)
    ensures
        within(drop_trailing_semicolon(trim_start(x)), x),
        drop_trailing_semicolon(trim_start(x)).len() <= x.len(),
{
    let y = trim_start(x);
    lemma_trim_start_is_suffix(x);
    lemma_suffix_within(y, x);
    lemma_semicolon_within(y);
    lemma_within_trans(drop_trailing_semicolon(y), y, x);
}

/// What follows the first word stands in the text.
proof fn lemma_split_rest_within(x: Seq<char>)
    ensures
        is_suffix(split_at_ws_spec(x).1, x),
{
    lemma_find_ws_from_props(x, 0);
    if find_ws_from(x, 0) is None {
        assert(split_at_ws_spec(x).1 =~= x.skip(x.len() as int));
    }
}

/// Which branch of `cf_loop` reads `rem`.
spec fn cf_case(rem: Seq<char>) -> int {
    if rem.len() == 0 {
        0
    } else if starts_ci(rem, "RETURNS"@) {
        1
    } else if starts_ci(rem, "LANGUAGE"@) {
        2
    } else if starts_ci(rem, "IMMUTABLE"@) || starts_ci(rem, "STABLE"@) || starts_ci(rem, "VOLATILE"@)
        || starts_ci(rem, "DETERMINISTIC"@) || starts_ci(rem, "NOT DETERMINISTIC"@) {
        3
    } else if starts_ci(rem, "READS SQL DATA"@) || starts_ci(rem, "NO SQL"@) || starts_ci(
        rem,
        "CONTAINS SQL"@,
    ) || starts_ci(rem, "MODIFIES SQL DATA"@) {
        4
    } else if starts_ci(rem, "BEGIN"@) {
        5
    } else if return_expr_body(rem) is Some {
        6
    } else if starts_ci(rem, "STRICT"@) || starts_ci(rem, "RETURNS NULL ON NULL INPUT"@)
        || starts_ci(rem, "SECURITY DEFINER"@) || starts_ci(rem, "SECURITY INVOKER"@) {
        7
    } else if starts_ci(rem, "AS"@) {
        8
    } else {
        9
    }
}

/// The volatility that reading attributes ends with is the one it started with, or
/// one that a word of the text names.
pub proof fn lemma_cf_loop_volatility(rem: Seq<char>, st: CfState)
    ensures
        volatility_from(cf_loop(rem, st), st.volatility, rem),
    decreases rem.len(), 2nat,
{
    let c = cf_case(rem);
    if c == 1 {
        lemma_cf_returns(rem, st);
    } else if c == 2 {
        lemma_cf_language(rem, st);
    } else if c == 3 {
        lemma_cf_volatility_word(rem, st);
    } else if c == 4 {
        lemma_cf_data_access(rem, st);
    } else if c == 5 {
        lemma_cf_begin(rem, st);
    } else if c == 6 {
        lemma_cf_return_expr(rem, st);
    } else if c == 7 {
        lemma_cf_flags(rem, st);
    } else if c == 8 {
        lemma_cf_as(rem, st);
    } else if c == 9 {
        lemma_cf_other(rem, st);
    }
}

proof fn lemma_cf_returns(rem: Seq<char>, st: CfState)
    requires
        cf_case(rem) == 1,
    ensures
        volatility_from(cf_loop(rem, st), st.volatility, rem),
    decreases rem.len(), 1nat,
{
    reveal_strlit("RETURNS");
    let a = after(rem, "RETURNS"@.len() as int);
    lemma_keyword_step(rem, "RETURNS"@.len() as int);
    lemma_return_type_suffix(a);
    match return_type_spec(a) {
        Err(_) => {},
        Ok((ty, rest)) => {
            let r = trim_start(rest);
            lemma_trim_start_is_suffix(rest);
            lemma_suffix_trans(r, rest, a);
            lemma_suffix_within(r, a);
            lemma_within_trans(r, a, rem);
            lemma_cf_step(rem, st, r, CfState { return_type: ty, ..st });
        },
    }
}

proof fn lemma_cf_language(rem: Seq<char>, st: CfState)
    requires
        cf_case(rem) == 2,
    ensures
        volatility_from(cf_loop(rem, st), st.volatility, rem),
    decreases rem.len(), 1nat,
{
    reveal_strlit("LANGUAGE");
    let a = after(rem, "LANGUAGE"@.len() as int);
    lemma_keyword_step(rem, "LANGUAGE"@.len() as int);
    let (lang, rest) = split_at_ws_spec(a);
    lemma_split_rest_within(a);
    lemma_suffix_within(rest, a);
    lemma_tail_within(rest);
    let r = drop_trailing_semicolon(trim_start(rest));
    lemma_within_trans(r, rest, a);
    lemma_within_trans(r, a, rem);
    lemma_cf_step(rem, st, r, CfState { language: strip_quote_chars(lang), ..st });
}

proof fn lemma_cf_volatility_word(rem: Seq<char>, st: CfState)
    requires
        cf_case(rem) == 3,
    ensures
        volatility_from(cf_loop(rem, st), st.volatility, rem),
    decreases rem.len(), 1nat,
{
    if starts_ci(rem, "IMMUTABLE"@) {
        reveal_strlit("IMMUTABLE");
        lemma_starts_contains(rem, "IMMUTABLE"@);
        lemma_keyword_step(rem, "IMMUTABLE"@.len() as int);
        lemma_cf_step(
            rem,
            st,
            after(rem, "IMMUTABLE"@.len() as int),
            CfState { volatility: Some(FunctionVolatility::Immutable), ..st },
        );
    } else if starts_ci(rem, "STABLE"@) {
        reveal_strlit("STABLE");
        lemma_starts_contains(rem, "STABLE"@);
        lemma_keyword_step(rem, "STABLE"@.len() as int);
        lemma_cf_step(
            rem,
            st,
            after(rem, "STABLE"@.len() as int),
            CfState { volatility: Some(FunctionVolatility::Stable), ..st },
        );
    } else if starts_ci(rem, "VOLATILE"@) {
        reveal_strlit("VOLATILE");
        lemma_starts_contains(rem, "VOLATILE"@);
        lemma_keyword_step(rem, "VOLATILE"@.len() as int);
        lemma_cf_step(
            rem,
            st,
            after(rem, "VOLATILE"@.len() as int),
            CfState { volatility: Some(FunctionVolatility::Volatile), ..st },
        );
    } else if starts_ci(rem, "DETERMINISTIC"@) {
        reveal_strlit("DETERMINISTIC");
        lemma_starts_contains(rem, "DETERMINISTIC"@);
        lemma_keyword_step(rem, "DETERMINISTIC"@.len() as int);
        lemma_cf_step(
            rem,
            st,
            after(rem, "DETERMINISTIC"@.len() as int),
            CfState { volatility: Some(FunctionVolatility::Immutable), ..st },
        );
    } else if starts_ci(rem, "NOT DETERMINISTIC"@) {
        reveal_strlit("NOT DETERMINISTIC");
        lemma_starts_contains(rem, "NOT DETERMINISTIC"@);
        lemma_keyword_step(rem, "NOT DETERMINISTIC"@.len() as int);
        lemma_cf_step(
            rem,
            st,
            after(rem, "NOT DETERMINISTIC"@.len() as int),
            CfState { volatility: Some(FunctionVolatility::Volatile), ..st },
        );
    }
}

proof fn lemma_cf_data_access(rem: Seq<char>, st: CfState)
    requires
        cf_case(rem) == 4,
    ensures
        volatility_from(cf_loop(rem, st), st.volatility, rem),
    decreases rem.len(), 1nat,
{
    if starts_ci(rem, "READS SQL DATA"@) {
        reveal_strlit("READS SQL DATA");
        lemma_keyword_step(rem, "READS SQL DATA"@.len() as int);
        lemma_cf_step(rem, st, after(rem, "READS SQL DATA"@.len() as int), st);
    } else if starts_ci(rem, "NO SQL"@) {
        reveal_strlit("NO SQL");
        lemma_keyword_step(rem, "NO SQL"@.len() as int);
        lemma_cf_step(rem, st, after(rem, "NO SQL"@.len() as int), st);
    } else if starts_ci(rem, "CONTAINS SQL"@) {
        reveal_strlit("CONTAINS SQL");
        lemma_keyword_step(rem, "CONTAINS SQL"@.len() as int);
        lemma_cf_step(rem, st, after(rem, "CONTAINS SQL"@.len() as int), st);
    } else if starts_ci(rem, "MODIFIES SQL DATA"@) {
        reveal_strlit("MODIFIES SQL DATA");
        lemma_keyword_step(rem, "MODIFIES SQL DATA"@.len() as int);
        lemma_cf_step(rem, st, after(rem, "MODIFIES SQL DATA"@.len() as int), st);
    }
}

proof fn lemma_cf_begin(rem: Seq<char>, st: CfState)
    requires
        cf_case(rem) == 5,
    ensures
        volatility_from(cf_loop(rem, st), st.volatility, rem),
    decreases rem.len(), 1nat,
{
    lemma_begin_end_suffix(rem);
    match begin_end_spec(rem) {
        Err(_) => {},
        Ok((b, a)) => {
            reveal_strlit("BEGIN");
            lemma_trim_start_len(rem);
            lemma_be_scan_len(trim_start(rem), 5, 1);
            lemma_suffix_within(a, rem);
            lemma_tail_within(a);
            let r = drop_trailing_semicolon(trim_start(a));
            lemma_within_trans(r, a, rem);
            lemma_cf_step(
                rem,
                st,
                r,
                CfState { body: Some(b), language: default_language(st.language), ..st },
            );
        },
    }
}

proof fn lemma_cf_return_expr(rem: Seq<char>, st: CfState)
    requires
        cf_case(rem) == 6,
    ensures
        volatility_from(cf_loop(rem, st), st.volatility, rem),
{
    let st1 = CfState {
        body: return_expr_body(rem),
        language: default_language(st.language),
        ..st
    };
    assert(cf_loop(Seq::empty(), st1) == Ok::<CfState, ParseErrorView>(st1));
}

proof fn lemma_cf_flags(rem: Seq<char>, st: CfState)
    requires
        cf_case(rem) == 7,
    ensures
        volatility_from(cf_loop(rem, st), st.volatility, rem),
    decreases rem.len(), 1nat,
{
    if starts_ci(rem, "STRICT"@) || starts_ci(rem, "RETURNS NULL ON NULL INPUT"@) {
        if starts_ci(rem, "RETURNS NULL ON NULL INPUT"@) {
            reveal_strlit("RETURNS NULL ON NULL INPUT");
            lemma_keyword_step(rem, "RETURNS NULL ON NULL INPUT"@.len() as int);
            lemma_cf_step(
                rem,
                st,
                after(rem, "RETURNS NULL ON NULL INPUT"@.len() as int),
                CfState { strict: true, ..st },
            );
        } else {
            reveal_strlit("STRICT");
            lemma_keyword_step(rem, "STRICT"@.len() as int);
            lemma_cf_step(rem, st, after(rem, "STRICT"@.len() as int), CfState { strict: true, ..st });
        }
    } else if starts_ci(rem, "SECURITY DEFINER"@) {
        reveal_strlit("SECURITY DEFINER");
        lemma_keyword_step(rem, "SECURITY DEFINER"@.len() as int);
        lemma_cf_step(
            rem,
            st,
            after(rem, "SECURITY DEFINER"@.len() as int),
            CfState { security_definer: true, ..st },
        );
    } else if starts_ci(rem, "SECURITY INVOKER"@) {
        reveal_strlit("SECURITY INVOKER");
        lemma_keyword_step(rem, "SECURITY INVOKER"@.len() as int);
        lemma_cf_step(
            rem,
            st,
            after(rem, "SECURITY INVOKER"@.len() as int),
            CfState { security_definer: false, ..st },
        );
    }
}

proof fn lemma_cf_as(rem: Seq<char>, st: CfState)
    requires
        cf_case(rem) == 8,
    ensures
        volatility_from(cf_loop(rem, st), st.volatility, rem),
    decreases rem.len(), 1nat,
{
    reveal_strlit("AS");
    let a0 = after(rem, "AS"@.len() as int);
    lemma_keyword_step(rem, "AS"@.len() as int);
    lemma_function_body_suffix(a0);
    match function_body_spec(a0) {
        Err(_) => {},
        Ok((b, a)) => {
            lemma_suffix_within(a, a0);
            lemma_within_trans(a, a0, rem);
            lemma_tail_within(a);
            let r = drop_trailing_semicolon(trim_start(a));
            lemma_within_trans(r, a, rem);
            lemma_cf_step(rem, st, r, CfState { body: Some(b), ..st });
        },
    }
}

proof fn lemma_cf_other(rem: Seq<char>, st: CfState)
    requires
        cf_case(rem) == 9,
    ensures
        volatility_from(cf_loop(rem, st), st.volatility, rem),
    decreases rem.len(), 1nat,
{
    let (word, rest) = split_at_ws_spec(rem);
    lemma_split_at_ws_len(rem);
    if word.len() > 0 {
        lemma_split_rest_within(rem);
        let rt = trim_start(rest);
        lemma_trim_start_is_suffix(rest);
        lemma_suffix_trans(rt, rest, rem);
        if rt.len() > 0 && rt[0] == '=' {
            let d = rt.drop_first();
            assert(d =~= rt.skip(1));
            lemma_suffix_trans(d, rt, rem);
            let td = trim_start(d);
            lemma_trim_start_is_suffix(d);
            lemma_suffix_trans(td, d, rem);
            let (v, av) = split_at_ws_spec(td);
            lemma_split_rest_within(td);
            lemma_suffix_trans(av, td, rem);
            let r = trim_start(av);
            lemma_trim_start_is_suffix(av);
            lemma_suffix_trans(r, av, rem);
            lemma_suffix_within(r, rem);
            lemma_cf_step(rem, st, r, st);
        } else {
            lemma_suffix_within(rt, rem);
            lemma_cf_step(rem, st, rt, st);
        }
    }
}

/// After a keyword of `k` characters at the start of `rem`, the rest of `rem` (trimmed
/// at its start) stands in `rem` and is shorter.
proof fn lemma_keyword_step(rem: Seq<char>, k: int)
    requires
        0 < k <= rem.len(),
    ensures
        within(after(rem, k), rem),
        after(rem, k).len() < rem.len(),
{
    lemma_trim_start_is_suffix(rem.skip(k));
    lemma_suffix_trans(after(rem, k), rem.skip(k), rem);
    lemma_suffix_within(after(rem, k), rem);
}

/// The statement built from the attributes read, or the error met; the body is
/// required, and trailing `;` are removed from the return type and the language.
pub open spec fn cf_result(
    sql: Seq<char>,
    name: Seq<char>,
    params_str: Seq<char>,
    or_replace: bool,
    res: Result<CfState, ParseErrorView>,
) -> Result<StatementView, ParseErrorView> {
    match res {
        Err(e) => Err(e),
        Ok(st) => match st.body {
            None => Err(
                ParseErrorView::Unsupported("CREATE FUNCTION missing AS clause (body): "@ + sql),
            ),
            Some(body) => Ok(
                StatementView::CreateFunction {
                    name,
                    parameters: params_spec(params_str),
                    return_type: trim(strip_end_char(st.return_type, ';')),
                    language: trim(strip_end_char(st.language, ';')),
                    body,
                    or_replace,
                    volatility: st.volatility,
                    strict: st.strict,
                    security_definer: st.security_definer,
                },
            ),
        },
    }
}

/// `CREATE [OR REPLACE] FUNCTION name (params) attributes`: the name (which may not be
/// empty), the parameters, and the attributes as `cf_loop` reads them; the body is
/// required. Trailing `;` are removed from the return type and the language.
pub open spec fn create_function_spec(sql: Seq<char>) -> Result<StatementView, ParseErrorView> {
    let t = trim(sql);
    let head = if starts_ci(t, "CREATE OR REPLACE FUNCTION"@) {
        Some((true, after(t, "CREATE OR REPLACE FUNCTION"@.len() as int)))
    } else if starts_ci(t, "CREATE FUNCTION"@) {
        Some((false, after(t, "CREATE FUNCTION"@.len() as int)))
    } else {
        None
    };
    match head {
        None => Err(ParseErrorView::Unsupported("not a CREATE FUNCTION statement: "@ + sql)),
        Some((or_replace, rest)) => match crate::manual::function_name_spec(rest) {
            Err(e) => Err(e),
            Ok((name_str, after_name)) => {
                let name = trim(name_str);
                if name.len() == 0 {
                    Err(ParseErrorView::Unsupported("CREATE FUNCTION missing function name: "@ + sql))
                } else {
                    match parenthesized_spec(after_name) {
                        Err(e) => Err(e),
                        Ok((params_str, after_params)) => {
                            let init = CfState {
                                return_type: Seq::empty(),
                                language: Seq::empty(),
                                body: None,
                                volatility: None,
                                strict: false,
                                security_definer: false,
                            };
                            cf_result(sql, name, params_str, or_replace, cf_loop(trim(after_params), init))
                        },
                    }
                }
            },
        },
    }
}

/// A parsed CREATE FUNCTION has a volatility only where its text names it: `Stable`
/// only where the text holds `STABLE`, `Immutable` only where it holds `IMMUTABLE` or
/// `DETERMINISTIC`, `Volatile` only where it holds `VOLATILE` or `NOT DETERMINISTIC`
/// (any ASCII case).
pub proof fn law_volatility_named_in_text(sql: Seq<char>)
    ensures
        match create_function_spec(sql) {
            Ok(StatementView::CreateFunction { volatility: Some(v), .. }) => names_volatility(
                trim(sql),
                v,
            ),
            _ => true,
        },
{
    let t = trim(sql);
    reveal_strlit("CREATE OR REPLACE FUNCTION");
    reveal_strlit("CREATE FUNCTION");
    let k: int = if starts_ci(t, "CREATE OR REPLACE FUNCTION"@) {
        26
    } else {
        15
    };
    if !starts_ci(t, "CREATE OR REPLACE FUNCTION"@) && !starts_ci(t, "CREATE FUNCTION"@) {
        return;
    }
    let rest = after(t, k);
    lemma_keyword_step(t, k);
    crate::manual::lemma_function_name_suffix(rest);
    match crate::manual::function_name_spec(rest) {
        Err(_) => {},
        Ok((name_str, after_name)) => {
            lemma_parenthesized_suffix(after_name);
            match parenthesized_spec(after_name) {
                Err(_) => {},
                Ok((params_str, after_params)) => {
                    lemma_suffix_trans(after_params, after_name, rest);
                    lemma_suffix_within(after_params, rest);
                    lemma_within_trans(after_params, rest, t);
                    let y = trim_start(after_params);
                    lemma_trim_start_is_suffix(after_params);
                    lemma_suffix_within(y, after_params);
                    lemma_within_trans(y, after_params, t);
                    let r = trim(after_params);
                    crate::sql_text::lemma_trim_end_prefix(y);
                    let a: int = 0;
                    assert(y.subrange(a, a + r.len()) =~= r);
                    lemma_within_trans(r, y, t);
                    let init = CfState {
                        return_type: Seq::empty(),
                        language: Seq::empty(),
                        body: None,
                        volatility: None,
                        strict: false,
                        security_definer: false,
                    };
                    lemma_cf_loop_volatility(r, init);
                    let res = cf_loop(r, init);
                    if res is Ok && res->Ok_0.volatility is Some {
                        lemma_names_within(r, t, res->Ok_0.volatility->Some_0);
                    }
                },
            }
        },
    }
}

/// The view of an optional character vector.
pub open spec fn opt_chars(o: Option<Vec<char>>) -> Option<Seq<char>> {
    match o {
        Some(v) => Some(v@),
        None => None,
    }
}

/// `s` without the `'` and `"` characters at either end.
fn strip_quote_chars_of(s: &[char]) -> (r: Vec<char>)
    ensures
        r@ == strip_quote_chars(s@),
{
    let mut i: usize = 0;
    assert(s@.skip(0) =~= s@);
    while i < s.len() && (s[i] == '\'' || s[i] == '"')
        invariant
            i <= s@.len(),
            strip_quote_start(s@.skip(i as int)) == strip_quote_start(s@),
        decreases s@.len() - i,
    {
        assert(s@.skip(i as int).drop_first() =~= s@.skip(i + 1));
        i = i + 1;
    }
    let t = sub_chars(s, i, s.len());
    assert(t@ == strip_quote_start(s@));
    let mut j: usize = t.len();
    assert(t@.take(j as int) =~= t@);
    while j > 0 && (t[j - 1] == '\'' || t[j - 1] == '"')
        invariant
            j <= t@.len(),
            strip_quote_end(t@.take(j as int)) == strip_quote_end(t@),
        decreases j,
    {
        assert(t@.take(j as int).drop_last() =~= t@.take(j - 1));
        j = j - 1;
    }
    sub_chars(&t, 0, j)
}

/// `s` without one trailing `;` and the whitespace before it.
fn drop_trailing_semicolon_of(s: Vec<char>) -> (r: Vec<char>)
    ensures
        r@ == drop_trailing_semicolon(s@),
{
    if s.len() > 0 && s[s.len() - 1] == ';' {
        let a = sub_chars(&s, 0, s.len() - 1);
        assert(a@ =~= s@.drop_last());
        trim_end_chars(&a)
    } else {
        s
    }
}

/// `s` without trailing `;`, trimmed.
fn trim_semicolons(s: &[char]) -> (r: Vec<char>)
    ensures
        r@ == trim(strip_end_char(s@, ';')),
{
    let mut j: usize = s.len();
    assert(s@.take(j as int) =~= s@);
    while j > 0 && s[j - 1] == ';'
        invariant
            j <= s@.len(),
            strip_end_char(s@.take(j as int), ';') == strip_end_char(s@, ';'),
        decreases j,
    {
        assert(s@.take(j as int).drop_last() =~= s@.take(j - 1));
        j = j - 1;
    }
    let a = sub_chars(s, 0, j);
    assert(a@ =~= s@.take(j as int));
    trim_chars(&a)
}

/// Computes `return_expr_body(rem)`.
fn return_expr_body_of(rem: &[char]) -> (r: Option<Vec<char>>)
    ensures
        match r {
            Some(b) => return_expr_body(rem@) == Some(b@),
            None => return_expr_body(rem@) is None,
        },
{
    let k_ret = chars_of("RETURN");
    if !(starts_with_ci(rem, &k_ret) && !starts_with_ci(rem, &chars_of("RETURNS"))) {
        return None;
    }
    let a = sub_chars(rem, k_ret.len(), rem.len());
    assert(a@ =~= rem@.skip("RETURN"@.len() as int));
    if !(a.len() == 0 || char_is_ws(a[0])) {
        return None;
    }
    let e = trim_semicolons(&trim_chars(&a));
    if e.len() == 0 {
        return None;
    }
    let mut b = chars_of("BEGIN RETURN ");
    append_chars(&mut b, &e);
    append_chars(&mut b, &chars_of("; END"));
    Some(b)
}

/// Parses a CREATE FUNCTION statement, as `create_function_spec` describes.
pub fn parse_create_function(sql: &[char]) -> (r: Result<Statement, ParseError>)
    ensures
        match r {
            Ok(st) => create_function_spec(sql@) == Ok::<StatementView, ParseErrorView>(st@),
            Err(e) => create_function_spec(sql@) == Err::<StatementView, ParseErrorView>(e@),
        },
{
    let t = trim_chars(sql);
    let k_orr = chars_of("CREATE OR REPLACE FUNCTION");
    let k_cf = chars_of("CREATE FUNCTION");
    let (or_replace, rest) = if starts_with_ci(&t, &k_orr) {
        (true, after_of(&t, k_orr.len()))
    } else if starts_with_ci(&t, &k_cf) {
        (false, after_of(&t, k_cf.len()))
    } else {
        return Err(unsupported("not a CREATE FUNCTION statement: ", sql));
    };
    let (name_str, after_name) = match crate::manual::extract_function_name(&rest) {
        Ok(p) => p,
        Err(e) => return Err(e),
    };
    let name = trim_chars(&name_str);
    if name.len() == 0 {
        return Err(unsupported("CREATE FUNCTION missing function name: ", sql));
    }
    let (params_str, after_params) = match extract_parenthesized(&after_name) {
        Ok(p) => p,
        Err(e) => return Err(e),
    };
    let parameters = parse_function_parameters(&params_str);
    let mut return_type: Vec<char> = Vec::new();
    let mut language: Vec<char> = Vec::new();
    let mut body: Option<Vec<char>> = None;
    let mut volatility: Option<FunctionVolatility> = None;
    let mut strict = false;
    let mut security_definer = false;
    let mut rem = trim_chars(&after_params);
    let ghost init = CfState {
        return_type: Seq::empty(),
        language: Seq::empty(),
        body: None,
        volatility: None,
        strict: false,
        security_definer: false,
    };
    assert(return_type@ =~= Seq::<char>::empty());
    assert(language@ =~= Seq::<char>::empty());
    assert(create_function_spec(sql@) == cf_result(
        sql@,
        name@,
        params_str@,
        or_replace,
        cf_loop(trim(after_params@), init),
    ));
    while rem.len() > 0
        invariant
            cf_loop(
                rem@,
                CfState {
                    return_type: return_type@,
                    language: language@,
                    body: opt_chars(body),
                    volatility,
                    strict,
                    security_definer,
                },
            ) == cf_loop(trim(after_params@), init),
            create_function_spec(sql@) == cf_result(
                sql@,
                name@,
                params_str@,
                or_replace,
                cf_loop(trim(after_params@), init),
            ),
            parameter_views(parameters@) == params_spec(params_str@),
        decreases rem@.len(),
    {
        let ghost st = CfState {
            return_type: return_type@,
            language: language@,
            body: opt_chars(body),
            volatility,
            strict,
            security_definer,
        };
        proof {
            reveal_strlit("AS");
            reveal_strlit("RETURNS");
            reveal_strlit("LANGUAGE");
            reveal_strlit("IMMUTABLE");
            reveal_strlit("STABLE");
            reveal_strlit("VOLATILE");
            reveal_strlit("DETERMINISTIC");
            reveal_strlit("NOT DETERMINISTIC");
            reveal_strlit("READS SQL DATA");
            reveal_strlit("NO SQL");
            reveal_strlit("CONTAINS SQL");
            reveal_strlit("MODIFIES SQL DATA");
            reveal_strlit("STRICT");
            reveal_strlit("RETURNS NULL ON NULL INPUT");
            reveal_strlit("SECURITY DEFINER");
            reveal_strlit("SECURITY INVOKER");
        }
        let ret_body = return_expr_body_of(&rem);
        if starts_with_ci(&rem, &chars_of("RETURNS")) {
            let k = chars_of("RETURNS");
            let a = after_of(&rem, k.len());
            proof {
                lemma_after_len(rem@, k@.len() as int);
                lemma_return_type_len(a@);
            }
            match extract_return_type(&a) {
                Err(e) => return Err(e),
                Ok((ty, rest)) => {
                    proof {
                        lemma_trim_start_len(rest@);
                    }
                    return_type = ty;
                    rem = trim_start_chars(&rest);
                },
            }
        } else if starts_with_ci(&rem, &chars_of("LANGUAGE")) {
            let k = chars_of("LANGUAGE");
            let a = after_of(&rem, k.len());
            let (lang, rest) = split_at_whitespace(&a);
            proof {
                lemma_after_len(rem@, k@.len() as int);
                lemma_split_at_ws_len(a@);
                lemma_trim_start_len(rest@);
                lemma_trim_end_len(trim_start(rest@).drop_last());
            }
            language = strip_quote_chars_of(&lang);
            rem = drop_trailing_semicolon_of(trim_start_chars(&rest));
        } else if starts_with_ci(&rem, &chars_of("IMMUTABLE")) {
            let k = chars_of("IMMUTABLE");
            proof {
                lemma_after_len(rem@, k@.len() as int);
            }
            volatility = Some(FunctionVolatility::Immutable);
            rem = after_of(&rem, k.len());
        } else if starts_with_ci(&rem, &chars_of("STABLE")) {
            let k = chars_of("STABLE");
            proof {
                lemma_after_len(rem@, k@.len() as int);
            }
            volatility = Some(FunctionVolatility::Stable);
            rem = after_of(&rem, k.len());
        } else if starts_with_ci(&rem, &chars_of("VOLATILE")) {
            let k = chars_of("VOLATILE");
            proof {
                lemma_after_len(rem@, k@.len() as int);
            }
            volatility = Some(FunctionVolatility::Volatile);
            rem = after_of(&rem, k.len());
        } else if starts_with_ci(&rem, &chars_of("DETERMINISTIC")) {
            let k = chars_of("DETERMINISTIC");
            proof {
                lemma_after_len(rem@, k@.len() as int);
            }
            volatility = Some(FunctionVolatility::Immutable);
            rem = after_of(&rem, k.len());
        } else if starts_with_ci(&rem, &chars_of("NOT DETERMINISTIC")) {
            let k = chars_of("NOT DETERMINISTIC");
            proof {
                lemma_after_len(rem@, k@.len() as int);
            }
            volatility = Some(FunctionVolatility::Volatile);
            rem = after_of(&rem, k.len());
        } else if starts_with_ci(&rem, &chars_of("READS SQL DATA")) {
            let k = chars_of("READS SQL DATA");
            proof {
                lemma_after_len(rem@, k@.len() as int);
            }
            rem = after_of(&rem, k.len());
        } else if starts_with_ci(&rem, &chars_of("NO SQL")) {
            let k = chars_of("NO SQL");
            proof {
                lemma_after_len(rem@, k@.len() as int);
            }
            rem = after_of(&rem, k.len());
        } else if starts_with_ci(&rem, &chars_of("CONTAINS SQL")) {
            let k = chars_of("CONTAINS SQL");
            proof {
                lemma_after_len(rem@, k@.len() as int);
            }
            rem = after_of(&rem, k.len());
        } else if starts_with_ci(&rem, &chars_of("MODIFIES SQL DATA")) {
            let k = chars_of("MODIFIES SQL DATA");
            proof {
                lemma_after_len(rem@, k@.len() as int);
            }
            rem = after_of(&rem, k.len());
        } else if starts_with_ci(&rem, &chars_of("BEGIN")) {
            match extract_mysql_begin_end_body(&rem) {
                Err(e) => return Err(e),
                Ok((b, a)) => {
                    proof {
                        reveal_strlit("BEGIN");
                        lemma_trim_start_len(rem@);
                        lemma_be_scan_len(trim_start(rem@), 5, 1);
                        lemma_trim_start_len(a@);
                        lemma_trim_end_len(trim_start(a@).drop_last());
                    }
                    body = Some(b);
                    if language.len() == 0 {
                        language = chars_of("plpgsql");
                    }
                    rem = drop_trailing_semicolon_of(trim_start_chars(&a));
                },
            }
        } else if ret_body.is_some() {
            body = ret_body;
            if language.len() == 0 {
                language = chars_of("plpgsql");
            }
            rem = Vec::new();
        } else if starts_with_ci(&rem, &chars_of("STRICT")) || starts_with_ci(
            &rem,
            &chars_of("RETURNS NULL ON NULL INPUT"),
        ) {
            strict = true;
            let k_rn = chars_of("RETURNS NULL ON NULL INPUT");
            if starts_with_ci(&rem, &k_rn) {
                proof {
                    lemma_after_len(rem@, k_rn@.len() as int);
                }
                rem = after_of(&rem, k_rn.len());
            } else {
                let k = chars_of("STRICT");
                proof {
                    lemma_after_len(rem@, k@.len() as int);
                }
                rem = after_of(&rem, k.len());
            }
        } else if starts_with_ci(&rem, &chars_of("SECURITY DEFINER")) {
            let k = chars_of("SECURITY DEFINER");
            proof {
                lemma_after_len(rem@, k@.len() as int);
            }
            security_definer = true;
            rem = after_of(&rem, k.len());
        } else if starts_with_ci(&rem, &chars_of("SECURITY INVOKER")) {
            let k = chars_of("SECURITY INVOKER");
            proof {
                lemma_after_len(rem@, k@.len() as int);
            }
            security_definer = false;
            rem = after_of(&rem, k.len());
        } else if starts_with_ci(&rem, &chars_of("AS")) {
            let k = chars_of("AS");
            let a0 = after_of(&rem, k.len());
            match extract_function_body(&a0) {
                Err(e) => return Err(e),
                Ok((b, a)) => {
                    proof {
                        lemma_after_len(rem@, 2);
                        lemma_function_body_len(a0@);
                        lemma_trim_start_len(a@);
                        lemma_trim_end_len(trim_start(a@).drop_last());
                    }
                    body = Some(b);
                    rem = drop_trailing_semicolon_of(trim_start_chars(&a));
                },
            }
        } else {
            let (word, rest) = split_at_whitespace(&rem);
            proof {
                lemma_split_at_ws_len(rem@);
                lemma_trim_start_len(rest@);
            }
            let rt = trim_start_chars(&rest);
            if word.len() == 0 {
                rem = Vec::new();
            } else if rt.len() > 0 && rt[0] == '=' {
                let a = after_of(&rt, 1);
                assert(rt@.skip(1) =~= rt@.drop_first());
                let (_value, av) = split_at_whitespace(&a);
                proof {
                    lemma_trim_start_len(rt@.drop_first());
                    lemma_split_at_ws_len(a@);
                    lemma_trim_start_len(av@);
                }
                rem = trim_start_chars(&av);
            } else {
                rem = rt;
            }
        }
    }
    let st_body = match body {
        Some(b) => b,
        None => return Err(unsupported("CREATE FUNCTION missing AS clause (body): ", sql)),
    };
    Ok(
        Statement::CreateFunction {
            name: string_of(&name),
            parameters,
            return_type: string_of(&trim_semicolons(&return_type)),
            language: string_of(&trim_semicolons(&language)),
            body: string_of(&st_body),
            or_replace,
            volatility,
            strict,
            security_definer,
        },
    )
}

} // verus!
