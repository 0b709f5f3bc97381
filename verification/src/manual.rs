//! Statements that sqlparser does not read, parsed by hand from their text.
//!
//! Each parser receives one statement, trimmed, and either builds its statement or
//! says why it cannot.

use vstd::prelude::*;
use crate::ast::{
    CommentObjectType, Statement, StatementView, TableName, TableNameView, plain_name,
    schema_name, table_name_of,
};
use crate::parser::{ParseError, ParseErrorView, unsupported};
use crate::text::{chars_of, decimal, decimal_chars, string_of};
use crate::sql_text::{
    append_chars, char_is_ws, eq_ci, eq_ignore_case, find_char, find_from, is_ws,
    lemma_find_from_props, split_chars, split_on, starts_ci, starts_with_ci, strip_end_char,
    sub_chars, trim, trim_chars, trim_end_chars, trim_start_chars, upper,
};

verus! {

// ---------------------------------------------------------------------
//  Names
// ---------------------------------------------------------------------

/// A name written as `name` or `schema.name` (split at every `.`; more than two parts
/// are refused). No quoting is understood.
pub open spec fn table_name_text_spec(s: Seq<char>) -> Result<TableNameView, ParseErrorView> {
    let t = trim(s);
    let parts = split_on(t, '.');
    if t.len() == 0 {
        Err(ParseErrorView::Unsupported("empty table/view name"@))
    } else if parts.len() == 1 {
        Ok(plain_name(parts[0]))
    } else if parts.len() == 2 {
        Ok(schema_name(parts[0], parts[1]))
    } else {
        Err(
            ParseErrorView::Unsupported(
                "unsupported table name with "@ + decimal(parts.len()) + " parts: "@ + t,
            ),
        )
    }
}

/// Parses `name` or `schema.name`, as `table_name_text_spec` describes.
pub fn parse_table_name_from_text(s: &[char]) -> (r: Result<TableName, ParseError>)
    ensures
        match r {
            Ok(n) => table_name_text_spec(s@) == Ok::<TableNameView, ParseErrorView>(n@),
            Err(e) => table_name_text_spec(s@) == Err::<TableNameView, ParseErrorView>(e@),
        },
{
    let t = trim_chars(s);
    if t.len() == 0 {
        return Err(ParseError::Unsupported(string_of(&chars_of("empty table/view name"))));
    }
    let parts = split_chars(&t, '.');
    proof {
        crate::sql_text::lemma_split_nonempty(t@, '.');
        assert(crate::sql_text::texts(parts@)[0] == parts@[0]@);
    }
    if parts.len() == 1 {
        Ok(table_name_of(None, &parts[0]))
    } else if parts.len() == 2 {
        assert(crate::sql_text::texts(parts@)[1] == parts@[1]@);
        Ok(table_name_of(Some(parts[0].as_slice()), &parts[1]))
    } else {
        let mut m = chars_of("unsupported table name with ");
        append_chars(&mut m, &decimal_chars(parts.len() as u64));
        append_chars(&mut m, &chars_of(" parts: "));
        append_chars(&mut m, &t);
        Err(ParseError::Unsupported(string_of(&m)))
    }
}

// ---------------------------------------------------------------------
//  COMMENT ON
// ---------------------------------------------------------------------

/// The first identifier of a text and what follows it: a `"quoted"` identifier (up to
/// the next `"`), or the characters up to the first whitespace or `;`.
pub open spec fn identifier_and_rest_spec(s: Seq<char>) -> Result<
    (Seq<char>, Seq<char>),
    ParseErrorView,
> {
    let t = trim(s);
    if t.len() == 0 {
        Err(ParseErrorView::Unsupported("expected identifier"@))
    } else if t[0] == '"' {
        let inner = t.drop_first();
        match find_from(inner, '"', 0) {
            Some(end) => Ok((inner.take(end), inner.skip(end + 1))),
            None => Err(ParseErrorView::Unsupported("unterminated quoted identifier"@)),
        }
    } else {
        let end = ident_end(t, 0);
        Ok((t.take(end), t.skip(end)))
    }
}

/// The first position at or after `i` that holds whitespace or `;`, or the end.
pub open spec fn ident_end(t: Seq<char>, i: int) -> int
    decreases t.len() - i,
{
    if i < 0 || i >= t.len() {
        t.len() as int
    } else if is_ws(t[i]) || t[i] == ';' {
        i
    } else {
        ident_end(t, i + 1)
    }
}

pub proof fn lemma_ident_end(t: Seq<char>, i: int)
    requires
        0 <= i <= t.len(),
    ensures
        i <= ident_end(t, i) <= t.len(),
    decreases t.len() - i,
{
    if i < t.len() && !(is_ws(t[i]) || t[i] == ';') {
        lemma_ident_end(t, i + 1);
    }
}

/// Splits off the first identifier, as `identifier_and_rest_spec` describes.
pub fn extract_identifier_and_rest(s: &[char]) -> (r: Result<(Vec<char>, Vec<char>), ParseError>)
    ensures
        match r {
            Ok((a, b)) => identifier_and_rest_spec(s@) == Ok::<
                (Seq<char>, Seq<char>),
                ParseErrorView,
            >((a@, b@)),
            Err(e) => identifier_and_rest_spec(s@) == Err::<
                (Seq<char>, Seq<char>),
                ParseErrorView,
            >(e@),
        },
{
    let t = trim_chars(s);
    if t.len() == 0 {
        return Err(ParseError::Unsupported(string_of(&chars_of("expected identifier"))));
    }
    if t[0] == '"' {
        let inner = sub_chars(&t, 1, t.len());
        assert(inner@ =~= t@.drop_first());
        match find_char(&inner, '"', 0) {
            Some(end) => {
                proof {
                    lemma_find_from_props(inner@, '"', 0);
                }
                let a = sub_chars(&inner, 0, end);
                let b = sub_chars(&inner, end + 1, inner.len());
                assert(a@ =~= inner@.take(end as int));
                assert(b@ =~= inner@.skip(end + 1));
                Ok((a, b))
            },
            None => Err(
                ParseError::Unsupported(string_of(&chars_of("unterminated quoted identifier"))),
            ),
        }
    } else {
        let mut end: usize = 0;
        while end < t.len() && !(char_is_ws(t[end]) || t[end] == ';')
            invariant
                end <= t@.len(),
                ident_end(t@, end as int) == ident_end(t@, 0),
            decreases t@.len() - end,
        {
            end = end + 1;
        }
        let a = sub_chars(&t, 0, end);
        let b = sub_chars(&t, end, t.len());
        assert(a@ =~= t@.take(end as int));
        assert(b@ =~= t@.skip(end as int));
        Ok((a, b))
    }
}

/// A comment value: `NULL` (any ASCII case) for no comment, or the text of a `'...'`
/// literal up to its next quote; trailing `;` are ignored.
pub open spec fn comment_value_spec(s: Seq<char>) -> Result<Option<Seq<char>>, ParseErrorView> {
    let v = trim(strip_end_char(trim(s), ';'));
    if eq_ci(v, "NULL"@) {
        Ok(None)
    } else if v.len() > 0 && v[0] == '\'' {
        let inner = v.drop_first();
        match find_from(inner, '\'', 0) {
            Some(end) => Ok(Some(inner.take(end))),
            None => Err(ParseErrorView::Unsupported("unterminated string literal"@)),
        }
    } else {
        Err(ParseErrorView::Unsupported("expected string literal or NULL: "@ + v))
    }
}

/// Parses a comment value, as `comment_value_spec` describes.
pub fn parse_comment_value(s: &[char]) -> (r: Result<Option<String>, ParseError>)
    ensures
        match r {
            Ok(v) => comment_value_spec(s@) == Ok::<Option<Seq<char>>, ParseErrorView>(
                crate::ast::opt_text(v),
            ),
            Err(e) => comment_value_spec(s@) == Err::<Option<Seq<char>>, ParseErrorView>(e@),
        },
{
    let t = trim_chars(s);
    let mut j: usize = t.len();
    assert(t@.take(j as int) =~= t@);
    while j > 0 && t[j - 1] == ';'
        invariant
            j <= t@.len(),
            strip_end_char(t@.take(j as int), ';') == strip_end_char(t@, ';'),
        decreases j,
    {
        assert(t@.take(j as int).drop_last() =~= t@.take(j - 1));
        j = j - 1;
    }
    let stripped = sub_chars(&t, 0, j);
    assert(stripped@ =~= t@.take(j as int));
    let v = trim_chars(&stripped);
    if eq_ignore_case(&v, &chars_of("NULL")) {
        return Ok(None);
    }
    if v.len() > 0 && v[0] == '\'' {
        let inner = sub_chars(&v, 1, v.len());
        assert(inner@ =~= v@.drop_first());
        match find_char(&inner, '\'', 0) {
            Some(end) => {
                proof {
                    lemma_find_from_props(inner@, '\'', 0);
                }
                let c = sub_chars(&inner, 0, end);
                assert(c@ =~= inner@.take(end as int));
                Ok(Some(string_of(&c)))
            },
            None => Err(
                ParseError::Unsupported(string_of(&chars_of("unterminated string literal"))),
            ),
        }
    } else {
        Err(unsupported("expected string literal or NULL: ", &v))
    }
}

/// `COMMENT ON TABLE name IS value` and `COMMENT ON COLUMN table.column IS value`
/// (keywords in any ASCII case; the column is what follows the last `.`).
pub open spec fn comment_spec(sql: Seq<char>) -> Result<StatementView, ParseErrorView> {
    if !starts_ci(sql, "COMMENT ON"@) {
        Err(ParseErrorView::Unsupported("not a COMMENT ON statement: "@ + sql))
    } else {
        let rest = trim(sql.skip("COMMENT ON"@.len() as int));
        if starts_ci(rest, "TABLE"@) {
            match identifier_and_rest_spec(trim(rest.skip("TABLE"@.len() as int))) {
                Err(e) => Err(e),
                Ok((name, remaining)) => {
                    let remaining = trim(remaining);
                    if !starts_ci(remaining, "IS"@) {
                        Err(ParseErrorView::Unsupported("expected IS keyword: "@ + remaining))
                    } else {
                        match comment_value_spec(trim(remaining.skip("IS"@.len() as int))) {
                            Err(e) => Err(e),
                            Ok(comment) => match table_name_text_spec(name) {
                                Err(e) => Err(e),
                                Ok(object_name) => Ok(
                                    StatementView::Comment {
                                        object_type: CommentObjectType::Table,
                                        object_name,
                                        column_name: None,
                                        comment,
                                    },
                                ),
                            },
                        }
                    }
                },
            }
        } else if starts_ci(rest, "COLUMN"@) {
            match identifier_and_rest_spec(trim(rest.skip("COLUMN"@.len() as int))) {
                Err(e) => Err(e),
                Ok((full, remaining)) => match last_index_of(full, '.') {
                    None => Err(
                        ParseErrorView::Unsupported("expected table.column format: "@ + full),
                    ),
                    Some(dot) => {
                        let remaining = trim(remaining);
                        if !starts_ci(remaining, "IS"@) {
                            Err(ParseErrorView::Unsupported("expected IS keyword: "@ + remaining))
                        } else {
                            match comment_value_spec(trim(remaining.skip("IS"@.len() as int))) {
                                Err(e) => Err(e),
                                Ok(comment) => match table_name_text_spec(trim(full.take(dot))) {
                                    Err(e) => Err(e),
                                    Ok(object_name) => Ok(
                                        StatementView::Comment {
                                            object_type: CommentObjectType::Column,
                                            object_name,
                                            column_name: Some(trim(full.skip(dot + 1))),
                                            comment,
                                        },
                                    ),
                                },
                            }
                        }
                    },
                },
            }
        } else {
            Err(ParseErrorView::Unsupported("unsupported COMMENT ON object: "@ + rest))
        }
    }
}

/// Index of the last occurrence of `c` in `s`, if any.
pub open spec fn last_index_of(s: Seq<char>, c: char) -> Option<int>
    decreases s.len(),
{
    if s.len() == 0 {
        None
    } else if s.last() == c {
        Some(s.len() - 1)
    } else {
        last_index_of(s.drop_last(), c)
    }
}

proof fn lemma_last_index_of(s: Seq<char>, c: char)
    ensures
        match last_index_of(s, c) {
            Some(k) => 0 <= k < s.len() && s[k] == c,
            None => true,
        },
    decreases s.len(),
{
    if s.len() > 0 && s.last() != c {
        lemma_last_index_of(s.drop_last(), c);
    }
}

fn last_index(s: &[char], c: char) -> (r: Option<usize>)
    ensures
        match r {
            Some(k) => last_index_of(s@, c) == Some(k as int),
            None => last_index_of(s@, c) is None,
        },
{
    let mut j: usize = s.len();
    assert(s@.take(j as int) =~= s@);
    while j > 0
        invariant
            j <= s@.len(),
            last_index_of(s@.take(j as int), c) == last_index_of(s@, c),
        decreases j,
    {
        if s[j - 1] == c {
            return Some(j - 1);
        }
        assert(s@.take(j as int).drop_last() =~= s@.take(j - 1));
        j = j - 1;
    }
    None
}

/// Parses a COMMENT ON statement, as `comment_spec` describes.
pub fn parse_comment(sql: &[char]) -> (r: Result<Statement, ParseError>)
    ensures
        match r {
            Ok(st) => comment_spec(sql@) == Ok::<StatementView, ParseErrorView>(st@),
            Err(e) => comment_spec(sql@) == Err::<StatementView, ParseErrorView>(e@),
        },
{
    let head = chars_of("COMMENT ON");
    if !starts_with_ci(sql, &head) {
        return Err(unsupported("not a COMMENT ON statement: ", sql));
    }
    let rest = trim_chars(&sub_chars(sql, head.len(), sql.len()));
    assert(sql@.subrange(head@.len() as int, sql@.len() as int) =~= sql@.skip(
        "COMMENT ON"@.len() as int,
    ));
    let kw_table = chars_of("TABLE");
    let kw_column = chars_of("COLUMN");
    let kw_is = chars_of("IS");
    if starts_with_ci(&rest, &kw_table) {
        let after = trim_chars(&sub_chars(&rest, kw_table.len(), rest.len()));
        assert(rest@.subrange(kw_table@.len() as int, rest@.len() as int) =~= rest@.skip(
            "TABLE"@.len() as int,
        ));
        let (name, remaining) = match extract_identifier_and_rest(&after) {
            Ok(p) => p,
            Err(e) => return Err(e),
        };
        let remaining = trim_chars(&remaining);
        if !starts_with_ci(&remaining, &kw_is) {
            return Err(unsupported("expected IS keyword: ", &remaining));
        }
        let after_is = trim_chars(&sub_chars(&remaining, kw_is.len(), remaining.len()));
        assert(remaining@.subrange(kw_is@.len() as int, remaining@.len() as int)
            =~= remaining@.skip("IS"@.len() as int));
        let comment = match parse_comment_value(&after_is) {
            Ok(c) => c,
            Err(e) => return Err(e),
        };
        let object_name = match parse_table_name_from_text(&name) {
            Ok(n) => n,
            Err(e) => return Err(e),
        };
        Ok(
            Statement::Comment {
                object_type: CommentObjectType::Table,
                object_name,
                column_name: None,
                comment,
            },
        )
    } else if starts_with_ci(&rest, &kw_column) {
        let after = trim_chars(&sub_chars(&rest, kw_column.len(), rest.len()));
        assert(rest@.subrange(kw_column@.len() as int, rest@.len() as int) =~= rest@.skip(
            "COLUMN"@.len() as int,
        ));
        let (full, remaining) = match extract_identifier_and_rest(&after) {
            Ok(p) => p,
            Err(e) => return Err(e),
        };
        let dot = match last_index(&full, '.') {
            Some(d) => d,
            None => return Err(unsupported("expected table.column format: ", &full)),
        };
        proof {
            lemma_last_index_of(full@, '.');
        }
        assert(dot < full.len());
        let remaining = trim_chars(&remaining);
        if !starts_with_ci(&remaining, &kw_is) {
            return Err(unsupported("expected IS keyword: ", &remaining));
        }
        let after_is = trim_chars(&sub_chars(&remaining, kw_is.len(), remaining.len()));
        assert(remaining@.subrange(kw_is@.len() as int, remaining@.len() as int)
            =~= remaining@.skip("IS"@.len() as int));
        let comment = match parse_comment_value(&after_is) {
            Ok(c) => c,
            Err(e) => return Err(e),
        };
        let table_part = trim_chars(&sub_chars(&full, 0, dot));
        assert(full@.subrange(0, dot as int) =~= full@.take(dot as int));
        let object_name = match parse_table_name_from_text(&table_part) {
            Ok(n) => n,
            Err(e) => return Err(e),
        };
        let column = trim_chars(&sub_chars(&full, dot + 1, full.len()));
        assert(full@.subrange(dot + 1, full@.len() as int) =~= full@.skip(dot + 1));
        Ok(
            Statement::Comment {
                object_type: CommentObjectType::Column,
                object_name,
                column_name: Some(string_of(&column)),
                comment,
            },
        )
    } else {
        Err(unsupported("unsupported COMMENT ON object: ", &rest))
    }
}

// ---------------------------------------------------------------------
//  LISTEN / UNLISTEN / NOTIFY / ANALYZE
// ---------------------------------------------------------------------

/// The state of the LISTEN/NOTIFY tokenizer: the finished tokens, the token being
/// built, and the quote that is open, if any.
pub struct TokState {
    pub tokens: Seq<Seq<char>>,
    pub current: Seq<char>,
    pub quote: Option<char>,
}

/// `tokens`, with `current` added when it is not empty.
pub open spec fn flush(tokens: Seq<Seq<char>>, current: Seq<char>) -> Seq<Seq<char>> {
    if current.len() > 0 {
        tokens.push(current)
    } else {
        tokens
    }
}

/// One character of the LISTEN/NOTIFY tokenizer: inside a quote everything is kept up
/// to and including the closing quote; outside, a quote opens a new token, a comma is
/// a token of its own, whitespace ends the current token.
pub open spec fn tok_step(st: TokState, ch: char) -> TokState {
    match st.quote {
        Some(q) => if ch == q {
            TokState { tokens: st.tokens.push(st.current.push(ch)), current: Seq::empty(), quote: None }
        } else {
            TokState { tokens: st.tokens, current: st.current.push(ch), quote: Some(q) }
        },
        None => if ch == '\'' || ch == '"' {
            TokState { tokens: flush(st.tokens, st.current), current: seq![ch], quote: Some(ch) }
        } else if ch == ',' {
            TokState {
                tokens: flush(st.tokens, st.current).push(seq![',']),
                current: Seq::empty(),
                quote: None,
            }
        } else if is_ws(ch) {
            TokState { tokens: flush(st.tokens, st.current), current: Seq::empty(), quote: None }
        } else {
            TokState { tokens: st.tokens, current: st.current.push(ch), quote: None }
        },
    }
}

/// The tokenizer state after reading `s`.
pub open spec fn tok_state(s: Seq<char>) -> TokState
    decreases s.len(),
{
    if s.len() == 0 {
        TokState { tokens: Seq::empty(), current: Seq::empty(), quote: None }
    } else {
        tok_step(tok_state(s.drop_last()), s.last())
    }
}

/// The tokens of a LISTEN/UNLISTEN/NOTIFY/ANALYZE statement (an unclosed quote runs to
/// the end).
pub open spec fn tokens_spec(s: Seq<char>) -> Seq<Seq<char>> {
    flush(tok_state(s).tokens, tok_state(s).current)
}

fn flush_token(tokens: &mut Vec<Vec<char>>, current: Vec<char>)
    ensures
        texts_of(final(tokens)@) == flush(texts_of(old(tokens)@), current@),
{
    if current.len() > 0 {
        let ghost before = texts_of(tokens@);
        tokens.push(current);
        assert(texts_of(tokens@) =~= before.push(current@));
    }
}

/// The views of a sequence of character vectors.
pub open spec fn texts_of(v: Seq<Vec<char>>) -> Seq<Seq<char>> {
    Seq::new(v.len(), |i: int| v[i]@)
}

/// Splits a statement into tokens, as `tokens_spec` describes.
pub fn tokenize_listen_notify(sql: &[char]) -> (r: Vec<Vec<char>>)
    ensures
        texts_of(r@) == tokens_spec(sql@),
{
    let mut tokens: Vec<Vec<char>> = Vec::new();
    let mut current: Vec<char> = Vec::new();
    let mut quote: Option<char> = None;
    let mut i: usize = 0;
    assert(sql@.take(0) =~= Seq::<char>::empty());
    assert(texts_of(tokens@) =~= Seq::<Seq<char>>::empty());
    assert(current@ =~= Seq::<char>::empty());
    while i < sql.len()
        invariant
            i <= sql@.len(),
            tok_state(sql@.take(i as int)) == (TokState {
                tokens: texts_of(tokens@),
                current: current@,
                quote,
            }),
        decreases sql@.len() - i,
    {
        let ch = sql[i];
        assert(sql@.take(i + 1).drop_last() =~= sql@.take(i as int));
        let ghost before = texts_of(tokens@);
        match quote {
            Some(q) => {
                current.push(ch);
                if ch == q {
                    let done = current;
                    tokens.push(done);
                    current = Vec::new();
                    quote = None;
                    assert(texts_of(tokens@) =~= before.push(done@));
                }
            },
            None => {
                if ch == '\'' || ch == '"' {
                    flush_token(&mut tokens, current);
                    current = Vec::new();
                    current.push(ch);
                    quote = Some(ch);
                    assert(current@ =~= seq![ch]);
                } else if ch == ',' {
                    flush_token(&mut tokens, current);
                    let ghost mid = texts_of(tokens@);
                    let mut comma = Vec::new();
                    comma.push(',');
                    tokens.push(comma);
                    assert(texts_of(tokens@) =~= mid.push(seq![',']));
                    current = Vec::new();
                } else if char_is_ws(ch) {
                    flush_token(&mut tokens, current);
                    current = Vec::new();
                } else {
                    current.push(ch);
                }
            },
        }
        assert(current@ == tok_state(sql@.take(i + 1)).current);
        i = i + 1;
    }
    assert(sql@.take(sql@.len() as int) =~= sql@);
    flush_token(&mut tokens, current);
    tokens
}

/// The channel of LISTEN/UNLISTEN/NOTIFY: a `"quoted"` name without its quotes, or a
/// bare name of ASCII letters, digits, `_` and `.`.
pub open spec fn channel_spec(tok: Seq<char>) -> Result<Seq<char>, ParseErrorView> {
    if tok.len() >= 2 && tok[0] == '"' && tok.last() == '"' {
        Ok(tok.subrange(1, tok.len() - 1))
    } else if tok.len() > 0 && forall|i: int| 0 <= i < tok.len() ==> channel_char(#[trigger] tok[i]) {
        Ok(tok)
    } else {
        Err(
            ParseErrorView::Unsupported(
                "invalid channel name: "@ + tok + " (expected identifier or quoted string)"@,
            ),
        )
    }
}

/// A character allowed in a bare channel name.
pub open spec fn channel_char(c: char) -> bool {
    crate::sql_text::is_alnum(c) || c == '_' || c == '.'
}

/// Parses a channel name, as `channel_spec` describes.
pub fn parse_channel_name(tok: &[char]) -> (r: Result<Vec<char>, ParseError>)
    ensures
        match r {
            Ok(c) => channel_spec(tok@) == Ok::<Seq<char>, ParseErrorView>(c@),
            Err(e) => channel_spec(tok@) == Err::<Seq<char>, ParseErrorView>(e@),
        },
{
    let n = tok.len();
    if n >= 2 && tok[0] == '"' && tok[n - 1] == '"' {
        return Ok(sub_chars(tok, 1, n - 1));
    }
    let mut ok = n > 0;
    let mut i: usize = 0;
    while i < n
        invariant
            n == tok@.len(),
            i <= n,
            ok == (n > 0 && forall|j: int| 0 <= j < i ==> channel_char(#[trigger] tok@[j])),
        decreases n - i,
    {
        if !(crate::sql_text::char_is_alnum(tok[i]) || tok[i] == '_' || tok[i] == '.') {
            ok = false;
        }
        i = i + 1;
    }
    if ok {
        assert(tok@.subrange(0, n as int) =~= tok@);
        Ok(sub_chars(tok, 0, n))
    } else {
        let mut m = chars_of("invalid channel name: ");
        append_chars(&mut m, tok);
        append_chars(&mut m, &chars_of(" (expected identifier or quoted string)"));
        Err(ParseError::Unsupported(string_of(&m)))
    }
}

/// The text inside a `'...'` or `"..."` token whose first and last characters are the
/// same quote.
pub open spec fn string_literal_spec(tok: Seq<char>) -> Option<Seq<char>> {
    if tok.len() >= 2 && (tok[0] == '\'' || tok[0] == '"') && tok[0] == tok.last() {
        Some(tok.subrange(1, tok.len() - 1))
    } else {
        None
    }
}

/// Takes the quotes off a string token, as `string_literal_spec` describes.
pub fn strip_string_literal(tok: &[char]) -> (r: Option<Vec<char>>)
    ensures
        match r {
            Some(v) => string_literal_spec(tok@) == Some(v@),
            None => string_literal_spec(tok@) is None,
        },
{
    let n = tok.len();
    if n >= 2 && (tok[0] == '\'' || tok[0] == '"') && tok[0] == tok[n - 1] {
        Some(sub_chars(tok, 1, n - 1))
    } else {
        None
    }
}

/// `LISTEN channel`.
pub open spec fn listen_spec(sql: Seq<char>) -> Result<StatementView, ParseErrorView> {
    let t = tokens_spec(sql);
    if t.len() != 2 {
        Err(ParseErrorView::Unsupported("LISTEN requires exactly 1 channel argument, got: "@ + sql))
    } else if !eq_ci(t[0], "LISTEN"@) {
        Err(ParseErrorView::Unsupported("expected LISTEN, got: "@ + t[0]))
    } else {
        match channel_spec(t[1]) {
            Ok(channel) => Ok(StatementView::Listen { channel }),
            Err(e) => Err(e),
        }
    }
}

/// Parses `LISTEN channel`, as `listen_spec` describes.
pub fn parse_listen(sql: &[char]) -> (r: Result<Statement, ParseError>)
    ensures
        match r {
            Ok(st) => listen_spec(sql@) == Ok::<StatementView, ParseErrorView>(st@),
            Err(e) => listen_spec(sql@) == Err::<StatementView, ParseErrorView>(e@),
        },
{
    let t = tokenize_listen_notify(sql);
    if t.len() != 2 {
        return Err(unsupported("LISTEN requires exactly 1 channel argument, got: ", sql));
    }
    assert(texts_of(t@)[0] == t@[0]@ && texts_of(t@)[1] == t@[1]@);
    if !eq_ignore_case(&t[0], &chars_of("LISTEN")) {
        return Err(unsupported("expected LISTEN, got: ", &t[0]));
    }
    match parse_channel_name(&t[1]) {
        Ok(c) => Ok(Statement::Listen { channel: string_of(&c) }),
        Err(e) => Err(e),
    }
}

/// `UNLISTEN channel` or `UNLISTEN *`.
pub open spec fn unlisten_spec(sql: Seq<char>) -> Result<StatementView, ParseErrorView> {
    let t = tokens_spec(sql);
    if t.len() != 2 {
        Err(
            ParseErrorView::Unsupported(
                "UNLISTEN requires exactly 1 argument (channel or *), got: "@ + sql,
            ),
        )
    } else if !eq_ci(t[0], "UNLISTEN"@) {
        Err(ParseErrorView::Unsupported("expected UNLISTEN, got: "@ + t[0]))
    } else if t[1] == seq!['*'] {
        Ok(StatementView::Unlisten { channel: seq!['*'] })
    } else {
        match channel_spec(t[1]) {
            Ok(channel) => Ok(StatementView::Unlisten { channel }),
            Err(e) => Err(e),
        }
    }
}

/// Parses `UNLISTEN channel` or `UNLISTEN *`, as `unlisten_spec` describes.
pub fn parse_unlisten(sql: &[char]) -> (r: Result<Statement, ParseError>)
    ensures
        match r {
            Ok(st) => unlisten_spec(sql@) == Ok::<StatementView, ParseErrorView>(st@),
            Err(e) => unlisten_spec(sql@) == Err::<StatementView, ParseErrorView>(e@),
        },
{
    let t = tokenize_listen_notify(sql);
    if t.len() != 2 {
        return Err(
            unsupported("UNLISTEN requires exactly 1 argument (channel or *), got: ", sql),
        );
    }
    assert(texts_of(t@)[0] == t@[0]@ && texts_of(t@)[1] == t@[1]@);
    if !eq_ignore_case(&t[0], &chars_of("UNLISTEN")) {
        return Err(unsupported("expected UNLISTEN, got: ", &t[0]));
    }
    let mut star: Vec<char> = Vec::new();
    star.push('*');
    assert(star@ =~= seq!['*']);
    if crate::sql_text::chars_eq(&t[1], &star) {
        return Ok(Statement::Unlisten { channel: string_of(&star) });
    }
    match parse_channel_name(&t[1]) {
        Ok(c) => Ok(Statement::Unlisten { channel: string_of(&c) }),
        Err(e) => Err(e),
    }
}

/// `NOTIFY channel` or `NOTIFY channel, 'payload'`.
pub open spec fn notify_spec(sql: Seq<char>) -> Result<StatementView, ParseErrorView> {
    let t = tokens_spec(sql);
    if t.len() < 2 {
        Err(ParseErrorView::Unsupported("NOTIFY requires at least 1 channel argument, got: "@ + sql))
    } else if !eq_ci(t[0], "NOTIFY"@) {
        Err(ParseErrorView::Unsupported("expected NOTIFY, got: "@ + t[0]))
    } else {
        match channel_spec(t[1]) {
            Err(e) => Err(e),
            Ok(channel) => if t.len() == 2 {
                Ok(StatementView::Notify { channel, payload: Seq::empty() })
            } else if t.len() != 4 || t[2] != seq![','] {
                Err(
                    ParseErrorView::Unsupported(
                        "NOTIFY payload syntax: NOTIFY <channel>, '<payload>', got: "@ + sql,
                    ),
                )
            } else {
                match string_literal_spec(t[3]) {
                    Some(payload) => Ok(StatementView::Notify { channel, payload }),
                    None => Err(
                        ParseErrorView::InvalidValue(
                            "NOTIFY payload must be a quoted string, got: "@ + t[3],
                        ),
                    ),
                }
            },
        }
    }
}

/// Parses `NOTIFY channel [, 'payload']`, as `notify_spec` describes.
pub fn parse_notify(sql: &[char]) -> (r: Result<Statement, ParseError>)
    ensures
        match r {
            Ok(st) => notify_spec(sql@) == Ok::<StatementView, ParseErrorView>(st@),
            Err(e) => notify_spec(sql@) == Err::<StatementView, ParseErrorView>(e@),
        },
{
    let t = tokenize_listen_notify(sql);
    if t.len() < 2 {
        return Err(unsupported("NOTIFY requires at least 1 channel argument, got: ", sql));
    }
    assert(texts_of(t@)[0] == t@[0]@ && texts_of(t@)[1] == t@[1]@);
    if !eq_ignore_case(&t[0], &chars_of("NOTIFY")) {
        return Err(unsupported("expected NOTIFY, got: ", &t[0]));
    }
    let channel = match parse_channel_name(&t[1]) {
        Ok(c) => c,
        Err(e) => return Err(e),
    };
    if t.len() == 2 {
        return Ok(Statement::Notify { channel: string_of(&channel), payload: String::new() });
    }
    let mut comma: Vec<char> = Vec::new();
    comma.push(',');
    assert(comma@ =~= seq![',']);
    if t.len() != 4 || !crate::sql_text::chars_eq(&t[2], &comma) {
        return Err(
            unsupported("NOTIFY payload syntax: NOTIFY <channel>, '<payload>', got: ", sql),
        );
    }
    assert(texts_of(t@)[2] == t@[2]@ && texts_of(t@)[3] == t@[3]@);
    match strip_string_literal(&t[3]) {
        Some(p) => Ok(Statement::Notify { channel: string_of(&channel), payload: string_of(&p) }),
        None => Err(
            crate::parser::invalid_value("NOTIFY payload must be a quoted string, got: ", &t[3]),
        ),
    }
}

/// How `format!("{:?}")` renders a list of strings (`Vec<String>`'s `Debug`): each
/// string's `Debug` rendering, separated by `", "`, in square brackets.
pub open spec fn debug_string_list(items: Seq<Seq<char>>) -> Seq<char> {
    "["@ + crate::sql_text::join_with(
        Seq::new(items.len(), |i: int| crate::online_ddl::debug_text(items[i])),
        ", "@,
    ) + "]"@
}

/// The `Debug` rendering of a list of texts, as `debug_string_list` describes.
fn debug_list(items: &Vec<Vec<char>>) -> (r: String)
    ensures
        r@ == debug_string_list(texts_of(items@)),
{
    let ghost parts = Seq::new(items@.len(), |i: int| crate::online_ddl::debug_text(items@[i]@));
    let mut out = "[".to_owned();
    let mut i: usize = 0;
    while i < items.len()
        invariant
            i <= items@.len(),
            parts == Seq::new(items@.len(), |k: int| crate::online_ddl::debug_text(items@[k]@)),
            out@ == "["@ + crate::sql_text::join_with(parts.take(i as int), ", "@),
        decreases items@.len() - i,
    {
        assert(parts.take(i + 1).drop_last() =~= parts.take(i as int));
        if i > 0 {
            crate::text::push_str(&mut out, ", ");
        }
        let d = crate::online_ddl::debug_string(string_of(&items[i]).as_str());
        crate::text::push_str(&mut out, d.as_str());
        i = i + 1;
        assert(out@ =~= "["@ + crate::sql_text::join_with(parts.take(i as int), ", "@));
    }
    crate::text::push_str(&mut out, "]");
    assert(parts.take(items@.len() as int) =~= parts);
    assert(Seq::new(texts_of(items@).len(), |k: int| crate::online_ddl::debug_text(texts_of(items@)[k])) =~= parts);
    out
}

/// An identifier without the `"..."` or `` `...` `` around it.
pub open spec fn strip_ident_quotes_spec(s: Seq<char>) -> Seq<char> {
    if s.len() >= 2 && ((s[0] == '"' && s.last() == '"') || (s[0] == '`' && s.last() == '`')) {
        s.subrange(1, s.len() - 1)
    } else {
        s
    }
}

/// Takes the quotes off an identifier, as `strip_ident_quotes_spec` describes.
pub fn strip_identifier_quotes(s: &[char]) -> (r: Vec<char>)
    ensures
        r@ == strip_ident_quotes_spec(s@),
{
    let n = s.len();
    if n >= 2 && ((s[0] == '"' && s[n - 1] == '"') || (s[0] == '`' && s[n - 1] == '`')) {
        sub_chars(s, 1, n - 1)
    } else {
        assert(s@.subrange(0, n as int) =~= s@);
        sub_chars(s, 0, n)
    }
}

/// A table name from its parts: `table` or `schema`, `table`.
pub open spec fn name_from_parts_spec(parts: Seq<Seq<char>>) -> Result<TableNameView, ParseErrorView> {
    if parts.len() == 1 {
        Ok(plain_name(strip_ident_quotes_spec(parts[0])))
    } else if parts.len() == 2 {
        Ok(schema_name(strip_ident_quotes_spec(parts[0]), strip_ident_quotes_spec(parts[1])))
    } else {
        Err(
            ParseErrorView::Unsupported(
                "invalid table name with "@ + decimal(parts.len()) + " parts: "@
                    + debug_string_list(parts),
            ),
        )
    }
}

/// Builds a table name from its parts, as `name_from_parts_spec` describes.
pub fn build_table_name_from_parts(parts: &Vec<Vec<char>>) -> (r: Result<TableName, ParseError>)
    ensures
        match r {
            Ok(n) => name_from_parts_spec(texts_of(parts@)) == Ok::<TableNameView, ParseErrorView>(
                n@,
            ),
            Err(e) => name_from_parts_spec(texts_of(parts@)) == Err::<
                TableNameView,
                ParseErrorView,
            >(e@),
        },
{
    if parts.len() == 1 {
        assert(texts_of(parts@)[0] == parts@[0]@);
        let name = strip_identifier_quotes(&parts[0]);
        Ok(table_name_of(None, &name))
    } else if parts.len() == 2 {
        assert(texts_of(parts@)[0] == parts@[0]@ && texts_of(parts@)[1] == parts@[1]@);
        let schema = strip_identifier_quotes(&parts[0]);
        let name = strip_identifier_quotes(&parts[1]);
        Ok(table_name_of(Some(schema.as_slice()), &name))
    } else {
        let mut m = chars_of("invalid table name with ");
        append_chars(&mut m, &decimal_chars(parts.len() as u64));
        append_chars(&mut m, &chars_of(" parts: "));
        let d = debug_list(parts);
        append_chars(&mut m, &chars_of(d.as_str()));
        Err(ParseError::Unsupported(string_of(&m)))
    }
}

/// The tables collected so far by ANALYZE and the parts of the name being read.
pub struct AnalyzeAcc {
    pub tables: Seq<TableNameView>,
    pub parts: Seq<Seq<char>>,
}

/// Reads the tokens `from..n` of an ANALYZE statement: a comma ends a name, a lone
/// `.` is skipped, any other token is a part of the current name.
pub open spec fn analyze_acc(toks: Seq<Seq<char>>, from: int, n: int) -> Result<
    AnalyzeAcc,
    ParseErrorView,
>
    decreases n - from,
{
    if n <= from {
        Ok(AnalyzeAcc { tables: Seq::empty(), parts: Seq::empty() })
    } else {
        match analyze_acc(toks, from, n - 1) {
            Err(e) => Err(e),
            Ok(acc) => {
                let tok = toks[n - 1];
                if tok == seq![','] {
                    if acc.parts.len() > 0 {
                        match name_from_parts_spec(acc.parts) {
                            Ok(t) => Ok(AnalyzeAcc { tables: acc.tables.push(t), parts: Seq::empty() }),
                            Err(e) => Err(e),
                        }
                    } else {
                        Ok(acc)
                    }
                } else if tok == seq!['.'] {
                    Ok(acc)
                } else {
                    Ok(AnalyzeAcc { tables: acc.tables, parts: acc.parts.push(tok) })
                }
            },
        }
    }
}

proof fn lemma_analyze_error_sticks(toks: Seq<Seq<char>>, from: int, m: int, n: int)
    requires
        from <= m <= n,
        analyze_acc(toks, from, m) is Err,
    ensures
        analyze_acc(toks, from, n) == analyze_acc(toks, from, m),
    decreases n - m,
{
    if n > m {
        lemma_analyze_error_sticks(toks, from, m, n - 1);
    }
}

/// `ANALYZE [VERBOSE] [table [, ...]]`.
pub open spec fn analyze_spec(sql: Seq<char>) -> Result<StatementView, ParseErrorView> {
    let t = tokens_spec(sql);
    if t.len() == 0 {
        Err(ParseErrorView::Unsupported("ANALYZE statement is empty: "@ + sql))
    } else if !eq_ci(t[0], "ANALYZE"@) {
        Err(ParseErrorView::Unsupported("expected ANALYZE, got: "@ + t[0]))
    } else {
        let verbose = t.len() > 1 && eq_ci(t[1], "VERBOSE"@);
        let from: int = if verbose {
            2
        } else {
            1
        };
        match analyze_acc(t, from, t.len() as int) {
            Err(e) => Err(e),
            Ok(acc) => if acc.parts.len() > 0 {
                match name_from_parts_spec(acc.parts) {
                    Ok(tn) => Ok(StatementView::Analyze { tables: acc.tables.push(tn), verbose }),
                    Err(e) => Err(e),
                }
            } else {
                Ok(StatementView::Analyze { tables: acc.tables, verbose })
            },
        }
    }
}

/// Parses `ANALYZE [VERBOSE] [table [, ...]]`, as `analyze_spec` describes.
pub fn parse_analyze(sql: &[char]) -> (r: Result<Statement, ParseError>)
    ensures
        match r {
            Ok(st) => analyze_spec(sql@) == Ok::<StatementView, ParseErrorView>(st@),
            Err(e) => analyze_spec(sql@) == Err::<StatementView, ParseErrorView>(e@),
        },
{
    let t = tokenize_listen_notify(sql);
    let ghost tv = texts_of(t@);
    if t.len() == 0 {
        return Err(unsupported("ANALYZE statement is empty: ", sql));
    }
    assert(tv[0] == t@[0]@);
    if !eq_ignore_case(&t[0], &chars_of("ANALYZE")) {
        return Err(unsupported("expected ANALYZE, got: ", &t[0]));
    }
    let mut idx: usize = 1;
    let mut verbose = false;
    if t.len() > 1 {
        assert(tv[1] == t@[1]@);
        if eq_ignore_case(&t[1], &chars_of("VERBOSE")) {
            verbose = true;
            idx = 2;
        }
    }
    let from = idx;
    let mut tables: Vec<TableName> = Vec::new();
    let mut parts: Vec<Vec<char>> = Vec::new();
    let mut comma: Vec<char> = Vec::new();
    comma.push(',');
    let mut dot: Vec<char> = Vec::new();
    dot.push('.');
    assert(comma@ =~= seq![',']);
    assert(dot@ =~= seq!['.']);
    assert(crate::ast::table_name_views(tables@) =~= Seq::<TableNameView>::empty());
    assert(texts_of(parts@) =~= Seq::<Seq<char>>::empty());
    while idx < t.len()
        invariant
            from <= idx <= t@.len(),
            tv == texts_of(t@),
            tv.len() > 0,
            eq_ci(tv[0], "ANALYZE"@),
            verbose == (tv.len() > 1 && eq_ci(tv[1], "VERBOSE"@)),
            from == (if verbose { 2usize } else { 1usize }),
            tokens_spec(sql@) == tv,
            comma@ == seq![','],
            dot@ == seq!['.'],
            analyze_acc(tv, from as int, idx as int) == Ok::<AnalyzeAcc, ParseErrorView>(
                AnalyzeAcc {
                    tables: crate::ast::table_name_views(tables@),
                    parts: texts_of(parts@),
                },
            ),
        decreases t@.len() - idx,
    {
        assert(tv[idx as int] == t@[idx as int]@);
        let ghost tb = crate::ast::table_name_views(tables@);
        if crate::sql_text::chars_eq(&t[idx], &comma) {
            if parts.len() > 0 {
                match build_table_name_from_parts(&parts) {
                    Ok(n) => {
                        tables.push(n);
                        assert(crate::ast::table_name_views(tables@) =~= tb.push(n@));
                    },
                    Err(e) => {
                        proof {
                            lemma_analyze_error_sticks(tv, from as int, idx + 1, tv.len() as int);
                        }
                        return Err(e);
                    },
                }
                parts = Vec::new();
                assert(texts_of(parts@) =~= Seq::<Seq<char>>::empty());
            }
        } else if crate::sql_text::chars_eq(&t[idx], &dot) {
        } else {
            let ghost pv = texts_of(parts@);
            let piece = sub_chars(&t[idx], 0, t[idx].len());
            assert(t@[idx as int]@.subrange(0, t@[idx as int]@.len() as int) =~= t@[idx as int]@);
            parts.push(piece);
            assert(texts_of(parts@) =~= pv.push(t@[idx as int]@));
        }
        idx = idx + 1;
    }
    if parts.len() > 0 {
        let ghost tb = crate::ast::table_name_views(tables@);
        match build_table_name_from_parts(&parts) {
            Ok(n) => {
                tables.push(n);
                assert(crate::ast::table_name_views(tables@) =~= tb.push(n@));
            },
            Err(e) => return Err(e),
        }
    }
    Ok(Statement::Analyze { tables, verbose })
}

// ---------------------------------------------------------------------
//  ALTER TYPE
// ---------------------------------------------------------------------

/// A type name: `name` or `schema.name` (split at the first `.`), trailing `;` dropped.
pub open spec fn type_name_spec(s: Seq<char>) -> Result<TableNameView, ParseErrorView> {
    let t = trim(s);
    if t.len() == 0 {
        Err(ParseErrorView::Unsupported("empty table name"@))
    } else {
        let u = trim(strip_end_char(t, ';'));
        match find_from(u, '.', 0) {
            Some(k) => Ok(schema_name(u.take(k), u.skip(k + 1))),
            None => Ok(plain_name(u)),
        }
    }
}

/// Parses a type name, as `type_name_spec` describes.
pub fn parse_table_name(s: &[char]) -> (r: Result<TableName, ParseError>)
    ensures
        match r {
            Ok(n) => type_name_spec(s@) == Ok::<TableNameView, ParseErrorView>(n@),
            Err(e) => type_name_spec(s@) == Err::<TableNameView, ParseErrorView>(e@),
        },
{
    let t = trim_chars(s);
    if t.len() == 0 {
        return Err(ParseError::Unsupported(string_of(&chars_of("empty table name"))));
    }
    let mut j: usize = t.len();
    assert(t@.take(j as int) =~= t@);
    while j > 0 && t[j - 1] == ';'
        invariant
            j <= t@.len(),
            strip_end_char(t@.take(j as int), ';') == strip_end_char(t@, ';'),
        decreases j,
    {
        assert(t@.take(j as int).drop_last() =~= t@.take(j - 1));
        j = j - 1;
    }
    let stripped = sub_chars(&t, 0, j);
    assert(stripped@ =~= t@.take(j as int));
    let u = trim_chars(&stripped);
    match find_char(&u, '.', 0) {
        Some(k) => {
            proof {
                lemma_find_from_props(u@, '.', 0);
            }
            assert(k < u.len());
            let a = sub_chars(&u, 0, k);
            let b = sub_chars(&u, k + 1, u.len());
            assert(a@ =~= u@.take(k as int));
            assert(b@ =~= u@.skip(k + 1));
            Ok(table_name_of(Some(a.as_slice()), &b))
        },
        None => Ok(table_name_of(None, &u)),
    }
}

/// The text of a `'...'` literal at the start of `s` (after whitespace), up to the
/// next `'`; no escapes are understood.
pub open spec fn string_literal_at_spec(s: Seq<char>) -> Result<Seq<char>, ParseErrorView> {
    let t = crate::sql_text::trim_start(s);
    if t.len() == 0 || t[0] != '\'' {
        Err(ParseErrorView::Unsupported("expected string literal: "@ + t))
    } else {
        let inner = t.drop_first();
        match find_from(inner, '\'', 0) {
            Some(end) => Ok(inner.take(end)),
            None => Err(ParseErrorView::Unsupported("unterminated string literal: "@ + inner)),
        }
    }
}

/// What follows the `'...'` literal at the start of `s`.
pub open spec fn after_string_literal_spec(s: Seq<char>) -> Result<Seq<char>, ParseErrorView> {
    let t = crate::sql_text::trim_start(s);
    if t.len() == 0 || t[0] != '\'' {
        Err(ParseErrorView::Unsupported("expected string literal: "@ + t))
    } else {
        let inner = t.drop_first();
        match find_from(inner, '\'', 0) {
            Some(end) => Ok(inner.skip(end + 1)),
            None => Err(ParseErrorView::Unsupported("unterminated string literal: "@ + inner)),
        }
    }
}

/// Reads the literal at the start of `s`: its text and what follows it.
fn scan_string_literal(s: &[char]) -> (r: Result<(Vec<char>, Vec<char>), ParseError>)
    ensures
        match r {
            Ok((v, rest)) => string_literal_at_spec(s@) == Ok::<Seq<char>, ParseErrorView>(v@)
                && after_string_literal_spec(s@) == Ok::<Seq<char>, ParseErrorView>(rest@),
            Err(e) => string_literal_at_spec(s@) == Err::<Seq<char>, ParseErrorView>(e@)
                && after_string_literal_spec(s@) == Err::<Seq<char>, ParseErrorView>(e@),
        },
{
    let t = trim_start_chars(s);
    if t.len() == 0 || t[0] != '\'' {
        return Err(unsupported("expected string literal: ", &t));
    }
    let inner = sub_chars(&t, 1, t.len());
    assert(inner@ =~= t@.drop_first());
    match find_char(&inner, '\'', 0) {
        Some(end) => {
            proof {
                lemma_find_from_props(inner@, '\'', 0);
            }
            let v = sub_chars(&inner, 0, end);
            let rest = sub_chars(&inner, end + 1, inner.len());
            assert(v@ =~= inner@.take(end as int));
            assert(rest@ =~= inner@.skip(end + 1));
            Ok((v, rest))
        },
        None => Err(unsupported("unterminated string literal: ", &inner)),
    }
}

/// Parses the literal at the start of `s`, as `string_literal_at_spec` describes.
pub fn parse_string_literal(s: &[char]) -> (r: Result<Vec<char>, ParseError>)
    ensures
        match r {
            Ok(v) => string_literal_at_spec(s@) == Ok::<Seq<char>, ParseErrorView>(v@),
            Err(e) => string_literal_at_spec(s@) == Err::<Seq<char>, ParseErrorView>(e@),
        },
{
    match scan_string_literal(s) {
        Ok((v, _)) => Ok(v),
        Err(e) => Err(e),
    }
}

/// Skips the literal at the start of `s`, as `after_string_literal_spec` describes.
pub fn skip_string_literal(s: &[char]) -> (r: Result<Vec<char>, ParseError>)
    ensures
        match r {
            Ok(v) => after_string_literal_spec(s@) == Ok::<Seq<char>, ParseErrorView>(v@),
            Err(e) => after_string_literal_spec(s@) == Err::<Seq<char>, ParseErrorView>(e@),
        },
{
    match scan_string_literal(s) {
        Ok((_, rest)) => Ok(rest),
        Err(e) => Err(e),
    }
}

/// What follows the keyword `kw` at the start of `s` (after whitespace), trimmed at
/// its start.
pub open spec fn after_keyword_spec(s: Seq<char>, kw: Seq<char>) -> Result<Seq<char>, ParseErrorView> {
    let t = crate::sql_text::trim_start(s);
    if starts_ci(t, kw) {
        Ok(crate::sql_text::trim_start(t.skip(kw.len() as int)))
    } else {
        Err(ParseErrorView::Unsupported("expected keyword `"@ + kw + "`, got: "@ + t))
    }
}

/// Skips the keyword `kw` at the start of `s`, as `after_keyword_spec` describes.
pub fn after_kw_after_keyword(s: &[char], kw: &str) -> (r: Result<Vec<char>, ParseError>)
    ensures
        match r {
            Ok(v) => after_keyword_spec(s@, kw@) == Ok::<Seq<char>, ParseErrorView>(v@),
            Err(e) => after_keyword_spec(s@, kw@) == Err::<Seq<char>, ParseErrorView>(e@),
        },
{
    let t = trim_start_chars(s);
    let k = chars_of(kw);
    if starts_with_ci(&t, &k) {
        let rest = sub_chars(&t, k.len(), t.len());
        assert(rest@ =~= t@.skip(kw@.len() as int));
        Ok(trim_start_chars(&rest))
    } else {
        let mut m = chars_of("expected keyword `");
        append_chars(&mut m, &k);
        append_chars(&mut m, &chars_of("`, got: "));
        append_chars(&mut m, &t);
        Err(ParseError::Unsupported(string_of(&m)))
    }
}

/// `s` cut at its first whitespace character: the part before it and the rest.
pub open spec fn split_at_ws_spec(s: Seq<char>) -> (Seq<char>, Seq<char>) {
    match crate::sql_text::find_ws_from(s, 0) {
        Some(k) => (s.take(k), s.skip(k)),
        None => (s, Seq::empty()),
    }
}

/// Cuts `s` at its first whitespace character, as `split_at_ws_spec` describes.
pub fn split_at_whitespace(s: &[char]) -> (r: (Vec<char>, Vec<char>))
    ensures
        (r.0@, r.1@) == split_at_ws_spec(s@),
{
    match crate::sql_text::find_ws(s, 0) {
        Some(k) => {
            proof {
                crate::sql_text::lemma_find_ws_from_props(s@, 0);
            }
            let a = sub_chars(s, 0, k);
            let b = sub_chars(s, k, s.len());
            assert(a@ =~= s@.take(k as int));
            assert(b@ =~= s@.skip(k as int));
            (a, b)
        },
        None => {
            assert(s@.subrange(0, s@.len() as int) =~= s@);
            (sub_chars(s, 0, s.len()), Vec::new())
        },
    }
}

/// `ALTER TYPE name ADD VALUE [IF NOT EXISTS] 'v'`, `ALTER TYPE name RENAME VALUE 'a'
/// TO 'b'` and `ALTER TYPE name RENAME TO new_name` (keywords in any ASCII case;
/// anything after the added value is ignored).
pub open spec fn alter_type_spec(sql: Seq<char>) -> Result<StatementView, ParseErrorView> {
    let t = trim(sql);
    if !starts_ci(t, "ALTER TYPE"@) {
        Err(ParseErrorView::Unsupported("not an ALTER TYPE statement: "@ + sql))
    } else {
        let (name_str, rest0) = split_at_ws_spec(
            crate::sql_text::trim_start(t.skip("ALTER TYPE"@.len() as int)),
        );
        if name_str.len() == 0 {
            Err(ParseErrorView::Unsupported("ALTER TYPE missing type name: "@ + sql))
        } else {
            match type_name_spec(name_str) {
                Err(e) => Err(e),
                Ok(name) => {
                    let rest = trim(rest0);
                    if starts_ci(rest, "ADD VALUE"@) {
                        let after_kw = crate::sql_text::trim_start(rest.skip("ADD VALUE"@.len() as int));
                        let ine = starts_ci(after_kw, "IF NOT EXISTS"@);
                        let after = if ine {
                            crate::sql_text::trim_start(after_kw.skip("IF NOT EXISTS"@.len() as int))
                        } else {
                            after_kw
                        };
                        match string_literal_at_spec(after) {
                            Err(e) => Err(e),
                            Ok(value) => Ok(
                                StatementView::AlterType {
                                    name,
                                    action: crate::ast::AlterTypeActionView::AddValue {
                                        value,
                                        if_not_exists: ine,
                                    },
                                },
                            ),
                        }
                    } else if starts_ci(rest, "RENAME VALUE"@) {
                        let after_kw = crate::sql_text::trim_start(
                            rest.skip("RENAME VALUE"@.len() as int),
                        );
                        match string_literal_at_spec(after_kw) {
                            Err(e) => Err(e),
                            Ok(old) => match after_string_literal_spec(after_kw) {
                                Err(e) => Err(e),
                                Ok(after_old) => match after_keyword_spec(
                                    crate::sql_text::trim_start(after_old),
                                    "TO"@,
                                ) {
                                    Err(e) => Err(e),
                                    Ok(after_to) => match string_literal_at_spec(after_to) {
                                        Err(e) => Err(e),
                                        Ok(new) => Ok(
                                            StatementView::AlterType {
                                                name,
                                                action: crate::ast::AlterTypeActionView::RenameValue {
                                                    old,
                                                    new,
                                                },
                                            },
                                        ),
                                    },
                                },
                            },
                        }
                    } else if starts_ci(rest, "RENAME TO"@) {
                        let after_kw = crate::sql_text::trim_start(rest.skip("RENAME TO"@.len() as int));
                        let new_name_str = split_at_ws_spec(after_kw).0;
                        if new_name_str.len() == 0 {
                            Err(
                                ParseErrorView::Unsupported(
                                    "ALTER TYPE RENAME TO missing new name: "@ + sql,
                                ),
                            )
                        } else {
                            match type_name_spec(new_name_str) {
                                Err(e) => Err(e),
                                Ok(new_name) => Ok(
                                    StatementView::AlterType {
                                        name,
                                        action: crate::ast::AlterTypeActionView::Rename { new_name },
                                    },
                                ),
                            }
                        }
                    } else {
                        Err(ParseErrorView::Unsupported("unsupported ALTER TYPE operation: "@ + rest))
                    }
                },
            }
        }
    }
}

/// `s` from position `k` on, trimmed at its start.
fn rest_after(s: &[char], k: usize) -> (r: Vec<char>)
    requires
        k <= s@.len(),
    ensures
        r@ == crate::sql_text::trim_start(s@.skip(k as int)),
{
    let rest = sub_chars(s, k, s.len());
    assert(rest@ =~= s@.skip(k as int));
    trim_start_chars(&rest)
}

/// `ALTER TYPE ... ADD VALUE` reports `if_not_exists` exactly when `IF NOT EXISTS` (any
/// ASCII case) follows the statement's first `ADD VALUE`, after whitespace.
#[verifier::rlimit(40)]
pub proof fn law_add_value_if_not_exists(sql: Seq<char>)
    ensures
        match alter_type_spec(sql) {
            Ok(
                StatementView::AlterType {
                    action: crate::ast::AlterTypeActionView::AddValue { if_not_exists, .. },
                    ..
                },
            ) => match crate::sql_text::find_ci_from(trim(sql), "ADD VALUE"@, 0) {
                Some(j) => if_not_exists == starts_ci(
                    crate::sql_text::trim_start(trim(sql).skip(j + 9)),
                    "IF NOT EXISTS"@,
                ),
                None => false,
            },
            _ => true,
        },
{
    let t = trim(sql);
    let n = t.len();
    let av = "ADD VALUE"@;
    let ine_kw = "IF NOT EXISTS"@;
    reveal_strlit("ALTER TYPE");
    reveal_strlit("ADD VALUE");
    reveal_strlit("IF NOT EXISTS");
    if !starts_ci(t, "ALTER TYPE"@) {
        return;
    }
    let s0 = t.skip(10);
    let u = crate::sql_text::trim_start(s0);
    crate::sql_text::lemma_trim_start_suffix(s0);
    let p = n - u.len();
    assert(u =~= t.skip(p));
    assert forall|i: int| 10 <= i < p implies is_ws(#[trigger] t[i]) by {
        assert(t[i] == s0[i - 10]);
    }
    crate::sql_text::lemma_find_ws_from_props(u, 0);
    let (name_str, rest0) = split_at_ws_spec(u);
    if name_str.len() == 0 || crate::sql_text::find_ws_from(u, 0) is None {
        return;
    }
    let k = crate::sql_text::find_ws_from(u, 0)->Some_0;
    let q = p + k;
    assert(rest0 =~= t.skip(q));
    assert forall|i: int| p <= i < q implies !is_ws(#[trigger] t[i]) by {
        assert(t[i] == u[i - p]);
    }
    assert(is_ws(t[q])) by { assert(u[k] == t[q]); }
    let y = crate::sql_text::trim_start(rest0);
    crate::sql_text::lemma_trim_start_suffix(rest0);
    let j = n - y.len();
    assert(y =~= t.skip(j));
    assert forall|i: int| q <= i < j implies is_ws(#[trigger] t[i]) by {
        assert(t[i] == rest0[i - q]);
    }
    assert(j > q) by {
        if j == q {
            assert(y[0] == t[q]);
        }
    }
    let rest = trim(rest0);
    crate::sql_text::lemma_trim_end_prefix(y);
    if !starts_ci(rest, av) {
        return;
    }
    let m = rest.len();
    assert forall|i: int| 0 <= i < 9 implies upper(#[trigger] t[j + i]) == av[i] by {
        assert(rest[i] == y[i]);
        assert(y[i] == t[j + i]);
    }
    // `ADD VALUE` does not begin before `j`.
    assert forall|i: int| 0 <= i < j implies !starts_ci(#[trigger] t.skip(i), av) by {
        if starts_ci(t.skip(i), av) {
            assert(upper(t.skip(i)[3]) == ' ');
            assert(t.skip(i)[3] == t[i + 3]);
            assert(t.skip(i)[4] == t[i + 4]);
            assert(t.skip(i)[2] == t[i + 2]);
            assert(t.skip(i)[0] == t[i]);
            crate::sql_text::lemma_upper_ws(t[i + 3]);
            crate::sql_text::lemma_upper_ws(t[i + 4]);
            crate::sql_text::lemma_upper_ws(t[i + 2]);
            assert(t[i + 3] == ' ');
            if i + 3 < 10 {
                assert(upper(t[i + 3]) == "ALTER TYPE"@[i + 3]);
                assert(upper(t[2]) == 'T');
            } else if i + 3 < p {
                if i + 4 < p {
                    assert(is_ws(t[i + 4]));
                } else if i + 2 >= 10 {
                    assert(is_ws(t[i + 2]));
                } else {
                    assert(upper(t[9]) == 'E');
                }
            } else if i + 3 < q {
                assert(!is_ws(t[i + 3]));
            } else if i + 3 < j {
                if i + 4 < j {
                    assert(is_ws(t[i + 4]));
                } else {
                    assert(upper(t[j + 0]) == 'A');
                }
            } else {
                let x = i + 3 - j;
                assert(upper(t[j + x]) == av[x]);
            }
        }
    }
    assert(starts_ci(t.skip(j), av)) by {
        assert forall|i: int| 0 <= i < 9 implies upper(#[trigger] t.skip(j)[i]) == av[i] by {
            assert(t.skip(j)[i] == t[j + i]);
        }
    }
    crate::sql_text::lemma_find_ci_from_first(t, av, 0, j);
    // What follows `ADD VALUE` in `rest` is what follows it in the text, cut before
    // trailing whitespace.
    let a = rest.skip(9);
    let b = t.skip(j + 9);
    assert(a =~= b.take(a.len() as int));
    assert forall|i: int| a.len() <= i < b.len() implies is_ws(#[trigger] b[i]) by {
        assert(b[i] == y[i + 9]);
    }
    crate::sql_text::lemma_trim_start_starts_ci_ws_tail(a, b, ine_kw);
}

/// Parses an ALTER TYPE statement, as `alter_type_spec` describes.
pub fn parse_alter_type(sql: &[char]) -> (r: Result<Statement, ParseError>)
    ensures
        match r {
            Ok(st) => alter_type_spec(sql@) == Ok::<StatementView, ParseErrorView>(st@),
            Err(e) => alter_type_spec(sql@) == Err::<StatementView, ParseErrorView>(e@),
        },
{
    let t = trim_chars(sql);
    let head = chars_of("ALTER TYPE");
    if !starts_with_ci(&t, &head) {
        return Err(unsupported("not an ALTER TYPE statement: ", sql));
    }
    let (name_str, rest0) = split_at_whitespace(&rest_after(&t, head.len()));
    if name_str.len() == 0 {
        return Err(unsupported("ALTER TYPE missing type name: ", sql));
    }
    let name = match parse_table_name(&name_str) {
        Ok(n) => n,
        Err(e) => return Err(e),
    };
    let rest = trim_chars(&rest0);
    let add_value = chars_of("ADD VALUE");
    let rename_value = chars_of("RENAME VALUE");
    let rename_to = chars_of("RENAME TO");
    if starts_with_ci(&rest, &add_value) {
        let after_kw = rest_after(&rest, add_value.len());
        let ine_kw = chars_of("IF NOT EXISTS");
        let ine = starts_with_ci(&after_kw, &ine_kw);
        let after = if ine {
            rest_after(&after_kw, ine_kw.len())
        } else {
            after_kw
        };
        match parse_string_literal(&after) {
            Err(e) => Err(e),
            Ok(value) => Ok(
                Statement::AlterType {
                    name,
                    action: crate::ast::AlterTypeAction::AddValue {
                        value: string_of(&value),
                        if_not_exists: ine,
                    },
                },
            ),
        }
    } else if starts_with_ci(&rest, &rename_value) {
        let after_kw = rest_after(&rest, rename_value.len());
        let old = match parse_string_literal(&after_kw) {
            Ok(v) => v,
            Err(e) => return Err(e),
        };
        let after_old = match skip_string_literal(&after_kw) {
            Ok(v) => trim_start_chars(&v),
            Err(e) => return Err(e),
        };
        let after_to = match after_kw_after_keyword(&after_old, "TO") {
            Ok(v) => v,
            Err(e) => return Err(e),
        };
        match parse_string_literal(&after_to) {
            Err(e) => Err(e),
            Ok(new) => Ok(
                Statement::AlterType {
                    name,
                    action: crate::ast::AlterTypeAction::RenameValue {
                        old: string_of(&old),
                        new: string_of(&new),
                    },
                },
            ),
        }
    } else if starts_with_ci(&rest, &rename_to) {
        let after_kw = rest_after(&rest, rename_to.len());
        let (new_name_str, _) = split_at_whitespace(&after_kw);
        if new_name_str.len() == 0 {
            return Err(unsupported("ALTER TYPE RENAME TO missing new name: ", sql));
        }
        match parse_table_name(&new_name_str) {
            Err(e) => Err(e),
            Ok(new_name) => Ok(
                Statement::AlterType {
                    name,
                    action: crate::ast::AlterTypeAction::Rename { new_name },
                },
            ),
        }
    } else {
        Err(unsupported("unsupported ALTER TYPE operation: ", &rest))
    }
}

// ---------------------------------------------------------------------
//  FLASHBACK
// ---------------------------------------------------------------------

/// The words of `s` read so far: the finished words and the word being read.
pub open spec fn words_state(s: Seq<char>) -> (Seq<Seq<char>>, Seq<char>)
    decreases s.len(),
{
    if s.len() == 0 {
        (Seq::empty(), Seq::empty())
    } else {
        let (w, cur) = words_state(s.drop_last());
        if is_ws(s.last()) {
            (flush(w, cur), Seq::empty())
        } else {
            (w, cur.push(s.last()))
        }
    }
}

/// The whitespace-separated words of `s` (`str::split_whitespace`).
pub open spec fn words(s: Seq<char>) -> Seq<Seq<char>> {
    flush(words_state(s).0, words_state(s).1)
}

/// Splits `s` into its whitespace-separated words.
pub fn split_words(s: &[char]) -> (r: Vec<Vec<char>>)
    ensures
        texts_of(r@) == words(s@),
{
    let mut w: Vec<Vec<char>> = Vec::new();
    let mut cur: Vec<char> = Vec::new();
    let mut i: usize = 0;
    assert(s@.take(0) =~= Seq::<char>::empty());
    assert(texts_of(w@) =~= Seq::<Seq<char>>::empty());
    assert(cur@ =~= Seq::<char>::empty());
    while i < s.len()
        invariant
            i <= s@.len(),
            words_state(s@.take(i as int)) == (texts_of(w@), cur@),
        decreases s@.len() - i,
    {
        assert(s@.take(i + 1).drop_last() =~= s@.take(i as int));
        if char_is_ws(s[i]) {
            flush_token(&mut w, cur);
            cur = Vec::new();
            assert(cur@ =~= Seq::<char>::empty());
        } else {
            cur.push(s[i]);
        }
        i = i + 1;
    }
    assert(s@.take(s@.len() as int) =~= s@);
    flush_token(&mut w, cur);
    w
}

/// The ASCII upper case of each character.
pub fn upper_chars(s: &[char]) -> (r: Vec<char>)
    ensures
        r@ == crate::sql_text::upper_seq(s@),
{
    let mut out: Vec<char> = Vec::new();
    let mut i: usize = 0;
    while i < s.len()
        invariant
            i <= s@.len(),
            out@ == crate::sql_text::upper_seq(s@.take(i as int)),
        decreases s@.len() - i,
    {
        out.push(crate::sql_text::char_upper(s[i]));
        i = i + 1;
        assert(out@ =~= crate::sql_text::upper_seq(s@.take(i as int)));
    }
    assert(s@.take(s@.len() as int) =~= s@);
    out
}

/// The value of a string of ASCII digits.
pub open spec fn digits_value(s: Seq<char>) -> nat
    decreases s.len(),
{
    if s.len() == 0 {
        0
    } else {
        digits_value(s.drop_last()) * 10 + ((s.last() as u32) - ('0' as u32)) as nat
    }
}

/// All characters are ASCII digits.
pub open spec fn all_digits(s: Seq<char>) -> bool {
    forall|i: int| 0 <= i < s.len() ==> '0' <= #[trigger] s[i] && s[i] <= '9'
}

/// How `str::parse::<u64>` reads `s`: an optional `+`, then at least one ASCII digit,
/// with a value that fits in 64 bits.
pub open spec fn parse_u64_spec(s: Seq<char>) -> Option<u64> {
    let d = if s.len() > 0 && s[0] == '+' {
        s.drop_first()
    } else {
        s
    };
    if d.len() == 0 || !all_digits(d) || digits_value(d) > u64::MAX {
        None
    } else {
        Some(digits_value(d) as u64)
    }
}

proof fn lemma_digits_value_grows(s: Seq<char>, i: int)
    requires
        0 <= i <= s.len(),
        all_digits(s),
    ensures
        digits_value(s.take(i)) <= digits_value(s),
    decreases s.len() - i,
{
    if i == s.len() {
        assert(s.take(i) =~= s);
    } else {
        lemma_digits_value_grows(s, i + 1);
        assert(s.take(i + 1).drop_last() =~= s.take(i));
        assert(s.take(i + 1).last() == s[i]);
        assert('0' <= s[i]);
    }
}

/// Reads an unsigned 64-bit integer, as `parse_u64_spec` describes.
pub fn parse_u64(s: &[char]) -> (r: Option<u64>)
    ensures
        r == parse_u64_spec(s@),
{
    let start: usize = if s.len() > 0 && s[0] == '+' {
        1
    } else {
        0
    };
    let d = sub_chars(s, start, s.len());
    assert(start == 1 ==> d@ =~= s@.drop_first());
    assert(start == 0 ==> d@ =~= s@);
    if d.len() == 0 {
        return None;
    }
    let mut v: u64 = 0;
    let mut i: usize = 0;
    while i < d.len()
        invariant
            i <= d@.len(),
            forall|j: int| 0 <= j < i ==> '0' <= #[trigger] d@[j] && d@[j] <= '9',
            v == digits_value(d@.take(i as int)),
            d@.len() > 0,
            start == 1 ==> d@ == s@.drop_first(),
            start == 0 ==> d@ == s@,
            (start == 1) == (s@.len() > 0 && s@[0] == '+'),
            start <= 1,
        decreases d@.len() - i,
    {
        let c = d[i];
        if !('0' <= c && c <= '9') {
            assert(!all_digits(d@));
            return None;
        }
        let digit = (c as u32 - '0' as u32) as u64;
        assert(d@.take(i + 1).drop_last() =~= d@.take(i as int));
        if v > (u64::MAX - digit) / 10 {
            proof {
                assert(digits_value(d@.take(i + 1)) == v * 10 + digit);
                assert(v * 10 + digit > u64::MAX) by (nonlinear_arith)
                    requires
                        v > (u64::MAX - digit) / 10,
                        digit <= 9,
                ;
                if all_digits(d@) {
                    lemma_digits_value_grows(d@, i + 1);
                }
            }
            return None;
        }
        assert(v * 10 + digit <= u64::MAX) by (nonlinear_arith)
            requires
                v <= (u64::MAX - digit) / 10,
                digit <= 9,
        ;
        v = v * 10 + digit;
        i = i + 1;
    }
    assert(d@.take(d@.len() as int) =~= d@);
    Some(v)
}

/// The text inside matching `'...'` or `"..."` quotes around `s` (after trimming).
pub open spec fn strip_quotes_spec(s: Seq<char>) -> Option<Seq<char>> {
    let t = trim(s);
    if t.len() >= 2 && t[0] == t.last() && (t[0] == '\'' || t[0] == '"') {
        Some(t.subrange(1, t.len() - 1))
    } else {
        None
    }
}

/// Takes matching quotes off `s`, as `strip_quotes_spec` describes.
pub fn strip_quotes(s: &[char]) -> (r: Option<Vec<char>>)
    ensures
        match r {
            Some(v) => strip_quotes_spec(s@) == Some(v@),
            None => strip_quotes_spec(s@) is None,
        },
{
    let t = trim_chars(s);
    let n = t.len();
    if n >= 2 && t[0] == t[n - 1] && (t[0] == '\'' || t[0] == '"') {
        Some(sub_chars(&t, 1, n - 1))
    } else {
        None
    }
}

/// `FLASHBACK TRANSACTION txn_id` and `FLASHBACK TABLE name TO TIMESTAMP 'ts'` (words
/// compared in ASCII upper case; the timestamp is every word after `TIMESTAMP`, joined
/// with single spaces, without its quotes).
pub open spec fn flashback_spec(sql: Seq<char>) -> Result<StatementView, ParseErrorView> {
    let t = trim(sql);
    let w = words(t);
    if w.len() == 0 {
        Err(ParseErrorView::Unsupported("empty FLASHBACK statement"@))
    } else if crate::sql_text::upper_seq(w[0]) != "FLASHBACK"@ {
        Err(ParseErrorView::Unsupported("expected FLASHBACK, got "@ + crate::sql_text::upper_seq(w[0])))
    } else if w.len() < 2 {
        Err(
            ParseErrorView::Unsupported(
                "FLASHBACK requires a sub-keyword (TRANSACTION/TABLE), got: "@ + t,
            ),
        )
    } else {
        let second = crate::sql_text::upper_seq(w[1]);
        let args = w.skip(2);
        if second == "TRANSACTION"@ {
            if args.len() != 1 {
                Err(
                    ParseErrorView::Unsupported(
                        "FLASHBACK TRANSACTION requires exactly 1 argument (txn_id), got "@
                            + debug_string_list(args),
                    ),
                )
            } else {
                match parse_u64_spec(args[0]) {
                    Some(txn_id) => Ok(StatementView::FlashbackTransaction { txn_id }),
                    None => Err(
                        ParseErrorView::InvalidValue(
                            "FLASHBACK TRANSACTION txn_id must be a non-negative integer, got: "@
                                + args[0],
                        ),
                    ),
                }
            }
        } else if second == "TABLE"@ {
            if args.len() < 4 {
                Err(
                    ParseErrorView::Unsupported(
                        "FLASHBACK TABLE requires syntax: <name> TO TIMESTAMP '<ts>', got tokens: "@
                            + debug_string_list(args),
                    ),
                )
            } else if crate::sql_text::upper_seq(args[1]) != "TO"@ {
                Err(
                    ParseErrorView::Unsupported(
                        "FLASHBACK TABLE expects TO, got: "@ + crate::sql_text::upper_seq(args[1]),
                    ),
                )
            } else if crate::sql_text::upper_seq(args[2]) != "TIMESTAMP"@ {
                Err(
                    ParseErrorView::Unsupported(
                        "FLASHBACK TABLE expects TIMESTAMP, got: "@ + crate::sql_text::upper_seq(
                            args[2],
                        ),
                    ),
                )
            } else {
                let raw = crate::sql_text::join_with(args.skip(3), seq![' ']);
                match strip_quotes_spec(raw) {
                    None => Err(
                        ParseErrorView::InvalidValue(
                            "FLASHBACK TABLE timestamp must be a quoted string, got: "@ + raw,
                        ),
                    ),
                    Some(timestamp) => {
                        let name = args[0];
                        let table = match find_from(name, '.', 0) {
                            Some(k) => schema_name(name.take(k), name.skip(k + 1)),
                            None => plain_name(name),
                        };
                        Ok(StatementView::FlashbackTable { table, timestamp })
                    },
                }
            }
        } else {
            Err(
                ParseErrorView::Unsupported(
                    "unsupported FLASHBACK sub-keyword: "@ + second
                        + " (expected TRANSACTION or TABLE)"@,
                ),
            )
        }
    }
}

/// A copy of the vectors `v[from..]`.
fn tail_of(v: &Vec<Vec<char>>, from: usize) -> (r: Vec<Vec<char>>)
    requires
        from <= v@.len(),
    ensures
        texts_of(r@) == texts_of(v@).skip(from as int),
{
    let mut out: Vec<Vec<char>> = Vec::new();
    let mut i = from;
    while i < v.len()
        invariant
            from <= i <= v@.len(),
            texts_of(out@) == texts_of(v@).subrange(from as int, i as int),
        decreases v@.len() - i,
    {
        let ghost before = texts_of(out@);
        let c = sub_chars(&v[i], 0, v[i].len());
        assert(v@[i as int]@.subrange(0, v@[i as int]@.len() as int) =~= v@[i as int]@);
        out.push(c);
        assert(texts_of(out@) =~= before.push(v@[i as int]@));
        i = i + 1;
        assert(texts_of(out@) =~= texts_of(v@).subrange(from as int, i as int));
    }
    out
}

/// The vectors joined with one space between consecutive ones.
fn join_space(v: &Vec<Vec<char>>) -> (r: Vec<char>)
    ensures
        r@ == crate::sql_text::join_with(texts_of(v@), seq![' ']),
{
    let mut out: Vec<char> = Vec::new();
    let mut i: usize = 0;
    while i < v.len()
        invariant
            i <= v@.len(),
            out@ == crate::sql_text::join_with(texts_of(v@).take(i as int), seq![' ']),
        decreases v@.len() - i,
    {
        assert(texts_of(v@).take(i + 1).drop_last() =~= texts_of(v@).take(i as int));
        if i > 0 {
            out.push(' ');
        }
        append_chars(&mut out, &v[i]);
        i = i + 1;
        assert(out@ =~= crate::sql_text::join_with(texts_of(v@).take(i as int), seq![' ']));
    }
    assert(texts_of(v@).take(v@.len() as int) =~= texts_of(v@));
    out
}

/// Parses a FLASHBACK statement, as `flashback_spec` describes.
pub fn parse_flashback(sql: &[char]) -> (r: Result<Statement, ParseError>)
    ensures
        match r {
            Ok(st) => flashback_spec(sql@) == Ok::<StatementView, ParseErrorView>(st@),
            Err(e) => flashback_spec(sql@) == Err::<StatementView, ParseErrorView>(e@),
        },
{
    let t = trim_chars(sql);
    let w = split_words(&t);
    let ghost wv = texts_of(w@);
    if w.len() == 0 {
        return Err(ParseError::Unsupported(string_of(&chars_of("empty FLASHBACK statement"))));
    }
    assert(wv[0] == w@[0]@);
    let first = upper_chars(&w[0]);
    if !crate::sql_text::chars_eq(&first, &chars_of("FLASHBACK")) {
        return Err(unsupported("expected FLASHBACK, got ", &first));
    }
    if w.len() < 2 {
        return Err(unsupported("FLASHBACK requires a sub-keyword (TRANSACTION/TABLE), got: ", &t));
    }
    assert(wv[1] == w@[1]@);
    let second = upper_chars(&w[1]);
    let args = tail_of(&w, 2);
    let ghost av = texts_of(args@);
    if crate::sql_text::chars_eq(&second, &chars_of("TRANSACTION")) {
        if args.len() != 1 {
            let mut m = chars_of("FLASHBACK TRANSACTION requires exactly 1 argument (txn_id), got ");
            let d = debug_list(&args);
            append_chars(&mut m, &chars_of(d.as_str()));
            return Err(ParseError::Unsupported(string_of(&m)));
        }
        assert(av[0] == args@[0]@);
        match parse_u64(&args[0]) {
            Some(txn_id) => Ok(Statement::FlashbackTransaction { txn_id }),
            None => Err(
                crate::parser::invalid_value(
                    "FLASHBACK TRANSACTION txn_id must be a non-negative integer, got: ",
                    &args[0],
                ),
            ),
        }
    } else if crate::sql_text::chars_eq(&second, &chars_of("TABLE")) {
        if args.len() < 4 {
            let mut m = chars_of(
                "FLASHBACK TABLE requires syntax: <name> TO TIMESTAMP '<ts>', got tokens: ",
            );
            let d = debug_list(&args);
            append_chars(&mut m, &chars_of(d.as_str()));
            return Err(ParseError::Unsupported(string_of(&m)));
        }
        assert(av[0] == args@[0]@ && av[1] == args@[1]@ && av[2] == args@[2]@);
        let to_kw = upper_chars(&args[1]);
        let ts_kw = upper_chars(&args[2]);
        if !crate::sql_text::chars_eq(&to_kw, &chars_of("TO")) {
            return Err(unsupported("FLASHBACK TABLE expects TO, got: ", &to_kw));
        }
        if !crate::sql_text::chars_eq(&ts_kw, &chars_of("TIMESTAMP")) {
            return Err(unsupported("FLASHBACK TABLE expects TIMESTAMP, got: ", &ts_kw));
        }
        let raw = join_space(&tail_of(&args, 3));
        let timestamp = match strip_quotes(&raw) {
            Some(v) => v,
            None => return Err(
                crate::parser::invalid_value(
                    "FLASHBACK TABLE timestamp must be a quoted string, got: ",
                    &raw,
                ),
            ),
        };
        let name = &args[0];
        let table = match find_char(name, '.', 0) {
            Some(k) => {
                proof {
                    lemma_find_from_props(name@, '.', 0);
                }
                assert(k < name.len());
                let a = sub_chars(name, 0, k);
                let b = sub_chars(name, k + 1, name.len());
                assert(a@ =~= name@.take(k as int));
                assert(b@ =~= name@.skip(k + 1));
                table_name_of(Some(a.as_slice()), &b)
            },
            None => table_name_of(None, name),
        };
        Ok(Statement::FlashbackTable { table, timestamp: string_of(&timestamp) })
    } else {
        let mut m = chars_of("unsupported FLASHBACK sub-keyword: ");
        append_chars(&mut m, &second);
        append_chars(&mut m, &chars_of(" (expected TRANSACTION or TABLE)"));
        Err(ParseError::Unsupported(string_of(&m)))
    }
}

// ---------------------------------------------------------------------
//  Function names and parenthesized lists
// ---------------------------------------------------------------------

/// Reads a `"quoted"` name from position `i` (just after the opening quote): a doubled
/// quote stands for one quote. The name read, and the position after the closing quote
/// (or the end).
pub open spec fn quoted_name_scan(t: Seq<char>, i: int, acc: Seq<char>) -> (Seq<char>, int)
    decreases t.len() - i,
{
    if i < 0 || i >= t.len() {
        (acc, t.len() as int)
    } else if t[i] == '"' {
        if i + 1 < t.len() && t[i + 1] == '"' {
            quoted_name_scan(t, i + 2, acc.push('"'))
        } else {
            (acc, i + 1)
        }
    } else {
        quoted_name_scan(t, i + 1, acc.push(t[i]))
    }
}

pub proof fn lemma_quoted_name_scan(t: Seq<char>, i: int, acc: Seq<char>)
    requires
        0 <= i <= t.len(),
    ensures
        i <= quoted_name_scan(t, i, acc).1 <= t.len(),
    decreases t.len() - i,
{
    if i < t.len() {
        if t[i] == '"' {
            if i + 1 < t.len() && t[i + 1] == '"' {
                lemma_quoted_name_scan(t, i + 2, acc.push('"'));
            }
        } else {
            lemma_quoted_name_scan(t, i + 1, acc.push(t[i]));
        }
    }
}

/// The first position at or after `i` that holds whitespace or `(`, or the end.
pub open spec fn name_end(t: Seq<char>, i: int) -> int
    decreases t.len() - i,
{
    if i < 0 || i >= t.len() {
        t.len() as int
    } else if is_ws(t[i]) || t[i] == '(' {
        i
    } else {
        name_end(t, i + 1)
    }
}

proof fn lemma_name_end(t: Seq<char>, i: int)
    requires
        0 <= i <= t.len(),
    ensures
        i <= name_end(t, i) <= t.len(),
    decreases t.len() - i,
{
    if i < t.len() && !(is_ws(t[i]) || t[i] == '(') {
        lemma_name_end(t, i + 1);
    }
}

pub proof fn lemma_trim_start_len(s: Seq<char>)
    ensures
        crate::sql_text::trim_start(s).len() <= s.len(),
        crate::sql_text::trim_start(s).len() > 0 ==> !is_ws(crate::sql_text::trim_start(s)[0]),
    decreases s.len(),
{
    if s.len() > 0 && is_ws(s[0]) {
        lemma_trim_start_len(s.drop_first());
    }
}

/// A function name at the start of `s`: `name` up to whitespace or `(`, or a
/// `"quoted"` name, possibly followed by `.` and another name (the parts joined with
/// `.`). The name and what follows it.
pub open spec fn function_name_spec(s: Seq<char>) -> Result<(Seq<char>, Seq<char>), ParseErrorView>
    decreases s.len(),
{
    let t = crate::sql_text::trim_start(s);
    if t.len() == 0 {
        Err(ParseErrorView::Unsupported("CREATE FUNCTION missing function name"@))
    } else if t[0] == '"' {
        let (name, end) = quoted_name_scan(t, 1, Seq::empty());
        let remaining = t.skip(end);
        let rt = crate::sql_text::trim_start(remaining);
        if rt.len() > 0 && rt[0] == '.' {
            let after_dot = crate::sql_text::trim_start(rt.drop_first());
            proof {
                lemma_trim_start_len(s);
                lemma_quoted_name_scan(t, 1, Seq::empty());
                lemma_trim_start_len(remaining);
                lemma_trim_start_len(rt.drop_first());
            }
            match function_name_spec(after_dot) {
                Ok((rest_name, rest)) => Ok((name + seq!['.'] + rest_name, rest)),
                Err(e) => Err(e),
            }
        } else {
            Ok((name, remaining))
        }
    } else {
        let end = name_end(t, 0);
        Ok((t.take(end), t.skip(end)))
    }
}

/// What follows a function name is a suffix of the text.
pub proof fn lemma_function_name_suffix(s: Seq<char>)
    ensures
        function_name_spec(s) matches Ok((_, r)) ==> crate::sql_text::is_suffix(r, s),
    decreases s.len(),
{
    let t = crate::sql_text::trim_start(s);
    crate::sql_text::lemma_trim_start_suffix(s);
    if t.len() == 0 {
    } else if t[0] == '"' {
        let (name, end) = quoted_name_scan(t, 1, Seq::empty());
        lemma_quoted_name_scan(t, 1, Seq::empty());
        let remaining = t.skip(end);
        let rt = crate::sql_text::trim_start(remaining);
        crate::sql_text::lemma_trim_start_suffix(remaining);
        if rt.len() > 0 && rt[0] == '.' {
            let after_dot = crate::sql_text::trim_start(rt.drop_first());
            crate::sql_text::lemma_trim_start_suffix(rt.drop_first());
            lemma_function_name_suffix(after_dot);
            if function_name_spec(after_dot) is Ok {
                let r = function_name_spec(after_dot)->Ok_0.1;
                crate::sql_text::lemma_suffix_trans(r, after_dot, rt.drop_first());
                crate::sql_text::lemma_suffix_trans(r, rt.drop_first(), rt);
                crate::sql_text::lemma_suffix_trans(r, rt, remaining);
                crate::sql_text::lemma_suffix_trans(r, remaining, t);
                crate::sql_text::lemma_suffix_trans(r, t, s);
            }
        } else {
            crate::sql_text::lemma_suffix_trans(remaining, t, s);
        }
    } else {
        lemma_name_end(t, 0);
        crate::sql_text::lemma_suffix_trans(t.skip(name_end(t, 0)), t, s);
    }
}

/// Reads a function name, as `function_name_spec` describes.
pub fn extract_function_name(s: &[char]) -> (r: Result<(Vec<char>, Vec<char>), ParseError>)
    ensures
        match r {
            Ok((a, b)) => function_name_spec(s@) == Ok::<(Seq<char>, Seq<char>), ParseErrorView>(
                (a@, b@),
            ),
            Err(e) => function_name_spec(s@) == Err::<(Seq<char>, Seq<char>), ParseErrorView>(e@),
        },
    decreases s@.len(),
{
    let t = trim_start_chars(s);
    proof {
        lemma_trim_start_len(s@);
    }
    if t.len() == 0 {
        return Err(
            ParseError::Unsupported(string_of(&chars_of("CREATE FUNCTION missing function name"))),
        );
    }
    if t[0] == '"' {
        let mut name: Vec<char> = Vec::new();
        let mut i: usize = 1;
        let mut done = false;
        while !done && i < t.len()
            invariant
                1 <= i <= t@.len(),
                done ==> quoted_name_scan(t@, 1, Seq::empty()) == (name@, i as int),
                !done ==> quoted_name_scan(t@, i as int, name@) == quoted_name_scan(
                    t@,
                    1,
                    Seq::empty(),
                ),
            decreases t@.len() - i,
        {
            if t[i] == '"' {
                if i + 1 < t.len() && t[i + 1] == '"' {
                    name.push('"');
                    i = i + 2;
                } else {
                    i = i + 1;
                    done = true;
                }
            } else {
                name.push(t[i]);
                i = i + 1;
            }
        }
        proof {
            lemma_quoted_name_scan(t@, 1, Seq::empty());
        }
        assert(quoted_name_scan(t@, 1, Seq::empty()) == (name@, i as int));
        let remaining = sub_chars(&t, i, t.len());
        assert(remaining@ =~= t@.skip(i as int));
        let rt = trim_start_chars(&remaining);
        if rt.len() > 0 && rt[0] == '.' {
            let after_dot = rest_after(&rt, 1);
            assert(rt@.skip(1) =~= rt@.drop_first());
            proof {
                lemma_trim_start_len(remaining@);
                lemma_trim_start_len(rt@.drop_first());
            }
            match extract_function_name(&after_dot) {
                Ok((rest_name, rest)) => {
                    let ghost nm = name@;
                    let mut full = name;
                    full.push('.');
                    append_chars(&mut full, &rest_name);
                    assert(full@ =~= nm + seq!['.'] + rest_name@);
                    let ghost tt = crate::sql_text::trim_start(s@);
                    assert(t@ == tt);
                    assert(tt.len() > 0 && tt[0] == '"');
                    let ghost qn = quoted_name_scan(tt, 1, Seq::empty());
                    assert(qn.0 == nm && qn.1 == i);
                    assert(remaining@ == tt.skip(qn.1));
                    assert(after_dot@ == crate::sql_text::trim_start(rt@.drop_first()));
                    assert(rt@.len() > 0 && rt@[0] == '.');
                    assert(rt@ == crate::sql_text::trim_start(tt.skip(qn.1)));
                    assert(function_name_spec(s@) == Ok::<(Seq<char>, Seq<char>), ParseErrorView>((full@, rest@)));
                    Ok((full, rest))
                },
                Err(e) => Err(e),
            }
        } else {
            assert(function_name_spec(s@) == Ok::<(Seq<char>, Seq<char>), ParseErrorView>((name@, remaining@)));
            Ok((name, remaining))
        }
    } else {
        let mut end: usize = 0;
        while end < t.len() && !(char_is_ws(t[end]) || t[end] == '(')
            invariant
                end <= t@.len(),
                name_end(t@, end as int) == name_end(t@, 0),
            decreases t@.len() - end,
        {
            end = end + 1;
        }
        let a = sub_chars(&t, 0, end);
        let b = sub_chars(&t, end, t.len());
        assert(a@ =~= t@.take(end as int));
        assert(b@ =~= t@.skip(end as int));
        assert(name_end(t@, end as int) == end);
        assert(function_name_spec(s@) == Ok::<(Seq<char>, Seq<char>), ParseErrorView>((a@, b@)));
        Ok((a, b))
    }
}

/// The bytes of the UTF-8 encoding of `c`, each taken as the character with that code
/// (how a byte `b` reads as `b as char`).
pub open spec fn utf8_byte_chars(c: char) -> Seq<char> {
    let n = c as u32;
    if n < 0x80 {
        seq![c]
    } else if n < 0x800 {
        seq![((0xC0 | (n >> 6)) as u8) as char, ((0x80 | (n & 0x3F)) as u8) as char]
    } else if n < 0x10000 {
        seq![
            ((0xE0 | (n >> 12)) as u8) as char,
            ((0x80 | ((n >> 6) & 0x3F)) as u8) as char,
            ((0x80 | (n & 0x3F)) as u8) as char,
        ]
    } else {
        seq![
            ((0xF0 | (n >> 18)) as u8) as char,
            ((0x80 | ((n >> 12) & 0x3F)) as u8) as char,
            ((0x80 | ((n >> 6) & 0x3F)) as u8) as char,
            ((0x80 | (n & 0x3F)) as u8) as char,
        ]
    }
}

/// Appends `utf8_byte_chars(c)` to `out`.
fn push_utf8_byte_chars(out: &mut Vec<char>, c: char)
    ensures
        final(out)@ == old(out)@ + utf8_byte_chars(c),
{
    let n = c as u32;
    let ghost start = out@;
    if n < 0x80 {
        out.push(c);
    } else if n < 0x800 {
        out.push(((0xC0 | (n >> 6)) as u8) as char);
        out.push(((0x80 | (n & 0x3F)) as u8) as char);
    } else if n < 0x10000 {
        out.push(((0xE0 | (n >> 12)) as u8) as char);
        out.push(((0x80 | ((n >> 6) & 0x3F)) as u8) as char);
        out.push(((0x80 | (n & 0x3F)) as u8) as char);
    } else {
        out.push(((0xF0 | (n >> 18)) as u8) as char);
        out.push(((0x80 | ((n >> 12) & 0x3F)) as u8) as char);
        out.push(((0x80 | ((n >> 6) & 0x3F)) as u8) as char);
        out.push(((0x80 | (n & 0x3F)) as u8) as char);
    }
    assert(out@ =~= start + utf8_byte_chars(c));
}

/// Reads a parenthesized list from position `i`: nesting `depth`, whether a `'...'`
/// literal is open, and the content read so far. Inside a literal each byte of a
/// character's UTF-8 encoding is kept as a character of its own.
pub open spec fn paren_scan(
    s: Seq<char>,
    i: int,
    depth: nat,
    in_str: bool,
    content: Seq<char>,
) -> Result<(Seq<char>, Seq<char>), ParseErrorView>
    decreases s.len() - i,
{
    if i < 0 || i >= s.len() {
        Err(ParseErrorView::Unsupported("unmatched parenthesis: "@ + s))
    } else if in_str {
        let c = s[i];
        let content2 = content + utf8_byte_chars(c);
        if c == '\'' {
            if i + 1 < s.len() && s[i + 1] == '\'' {
                paren_scan(s, i + 2, depth, true, content2.push('\''))
            } else {
                paren_scan(s, i + 1, depth, false, content2)
            }
        } else {
            paren_scan(s, i + 1, depth, true, content2)
        }
    } else if s[i] == '(' {
        paren_scan(s, i + 1, depth + 1, false, content.push('('))
    } else if s[i] == ')' {
        if depth <= 1 {
            Ok((content, s.skip(i + 1)))
        } else {
            paren_scan(s, i + 1, (depth - 1) as nat, false, content.push(')'))
        }
    } else if s[i] == '\'' {
        paren_scan(s, i + 1, depth, true, content.push('\''))
    } else {
        paren_scan(s, i + 1, depth, false, content.push(s[i]))
    }
}

/// The content of the `(...)` at the start of `s` (after whitespace), without the outer
/// parentheses, and what follows the closing parenthesis.
pub open spec fn parenthesized_spec(s: Seq<char>) -> Result<(Seq<char>, Seq<char>), ParseErrorView> {
    let t = crate::sql_text::trim_start(s);
    if t.len() == 0 || t[0] != '(' {
        Err(ParseErrorView::Unsupported("expected '(' but got: "@ + t))
    } else {
        paren_scan(t, 1, 1, false, Seq::empty())
    }
}

pub proof fn lemma_paren_scan_len(
    s: Seq<char>,
    i: int,
    depth: nat,
    in_str: bool,
    content: Seq<char>,
)
    requires
        0 <= i,
    ensures
        paren_scan(s, i, depth, in_str, content) matches Ok((_, r)) ==> r.len() <= s.len(),
    decreases s.len() - i,
{
    if i < s.len() {
        let c = s[i];
        let content2 = content + utf8_byte_chars(c);
        if in_str {
            if c == '\'' {
                if i + 1 < s.len() && s[i + 1] == '\'' {
                    lemma_paren_scan_len(s, i + 2, depth, true, content2.push('\''));
                } else {
                    lemma_paren_scan_len(s, i + 1, depth, false, content2);
                }
            } else {
                lemma_paren_scan_len(s, i + 1, depth, true, content2);
            }
        } else if c == '(' {
            lemma_paren_scan_len(s, i + 1, depth + 1, false, content.push('('));
        } else if c == ')' {
            if depth > 1 {
                lemma_paren_scan_len(s, i + 1, (depth - 1) as nat, false, content.push(')'));
            }
        } else if c == '\'' {
            lemma_paren_scan_len(s, i + 1, depth, true, content.push('\''));
        } else {
            lemma_paren_scan_len(s, i + 1, depth, false, content.push(c));
        }
    }
}

pub proof fn lemma_parenthesized_len(s: Seq<char>)
    ensures
        parenthesized_spec(s) matches Ok((_, r)) ==> r.len() <= s.len(),
{
    lemma_trim_start_len(s);
    lemma_paren_scan_len(crate::sql_text::trim_start(s), 1, 1, false, Seq::empty());
}

/// What follows a parenthesized list is a suffix of the text scanned.
pub proof fn lemma_paren_scan_suffix(
    s: Seq<char>,
    i: int,
    depth: nat,
    in_str: bool,
    content: Seq<char>,
)
    requires
        0 <= i,
    ensures
        paren_scan(s, i, depth, in_str, content) matches Ok((_, r)) ==> crate::sql_text::is_suffix(r, s),
    decreases s.len() - i,
{
    if i < s.len() {
        let c = s[i];
        let content2 = content + utf8_byte_chars(c);
        if in_str {
            if c == '\'' {
                if i + 1 < s.len() && s[i + 1] == '\'' {
                    lemma_paren_scan_suffix(s, i + 2, depth, true, content2.push('\''));
                } else {
                    lemma_paren_scan_suffix(s, i + 1, depth, false, content2);
                }
            } else {
                lemma_paren_scan_suffix(s, i + 1, depth, true, content2);
            }
        } else if c == '(' {
            lemma_paren_scan_suffix(s, i + 1, depth + 1, false, content.push('('));
        } else if c == ')' {
            if depth > 1 {
                lemma_paren_scan_suffix(s, i + 1, (depth - 1) as nat, false, content.push(')'));
            } else {
                crate::sql_text::lemma_skip_is_suffix(s, i + 1);
            }
        } else if c == '\'' {
            lemma_paren_scan_suffix(s, i + 1, depth, true, content.push('\''));
        } else {
            lemma_paren_scan_suffix(s, i + 1, depth, false, content.push(c));
        }
    }
}

/// What follows a parenthesized list is a suffix of the text.
pub proof fn lemma_parenthesized_suffix(s: Seq<char>)
    ensures
        parenthesized_spec(s) matches Ok((_, r)) ==> crate::sql_text::is_suffix(r, s),
{
    let t = crate::sql_text::trim_start(s);
    crate::sql_text::lemma_trim_start_suffix(s);
    lemma_paren_scan_suffix(t, 1, 1, false, Seq::empty());
    if parenthesized_spec(s) is Ok {
        crate::sql_text::lemma_suffix_trans(parenthesized_spec(s)->Ok_0.1, t, s);
    }
}

/// Reads a parenthesized list, as `parenthesized_spec` describes.
pub fn extract_parenthesized(s: &[char]) -> (r: Result<(Vec<char>, Vec<char>), ParseError>)
    ensures
        match r {
            Ok((a, b)) => parenthesized_spec(s@) == Ok::<(Seq<char>, Seq<char>), ParseErrorView>(
                (a@, b@),
            ),
            Err(e) => parenthesized_spec(s@) == Err::<(Seq<char>, Seq<char>), ParseErrorView>(e@),
        },
{
    let t = trim_start_chars(s);
    if t.len() == 0 || t[0] != '(' {
        return Err(unsupported("expected '(' but got: ", &t));
    }
    let mut depth: usize = 1;
    let mut in_str = false;
    let mut content: Vec<char> = Vec::new();
    let mut i: usize = 1;
    while i < t.len()
        invariant
            1 <= i <= t@.len(),
            1 <= depth <= i,
            t@ == crate::sql_text::trim_start(s@),
            t@.len() > 0 && t@[0] == '(',
            paren_scan(t@, i as int, depth as nat, in_str, content@) == paren_scan(
                t@,
                1,
                1,
                false,
                Seq::empty(),
            ),
        decreases t@.len() - i,
    {
        let c = t[i];
        if in_str {
            push_utf8_byte_chars(&mut content, c);
            if c == '\'' {
                if i + 1 < t.len() && t[i + 1] == '\'' {
                    content.push('\'');
                    i = i + 2;
                } else {
                    in_str = false;
                    i = i + 1;
                }
            } else {
                i = i + 1;
            }
        } else if c == '(' {
            depth = depth + 1;
            content.push('(');
            i = i + 1;
        } else if c == ')' {
            if depth <= 1 {
                let rest = sub_chars(&t, i + 1, t.len());
                assert(rest@ =~= t@.skip(i + 1));
                return Ok((content, rest));
            }
            depth = depth - 1;
            content.push(')');
            i = i + 1;
        } else if c == '\'' {
            in_str = true;
            content.push('\'');
            i = i + 1;
        } else {
            content.push(c);
            i = i + 1;
        }
    }
    Err(unsupported("unmatched parenthesis: ", &t))
}

// ---------------------------------------------------------------------
//  DROP FUNCTION / DROP MATERIALIZED VIEW / REFRESH MATERIALIZED VIEW
// ---------------------------------------------------------------------

/// The pieces, trimmed, without the empty ones.
pub open spec fn trimmed_nonempty(p: Seq<Seq<char>>) -> Seq<Seq<char>>
    decreases p.len(),
{
    if p.len() == 0 {
        Seq::empty()
    } else {
        let prev = trimmed_nonempty(p.drop_last());
        let x = trim(p.last());
        if x.len() > 0 {
            prev.push(x)
        } else {
            prev
        }
    }
}

/// The `,`-separated items of `s`, trimmed, without the empty ones.
fn comma_items(s: &[char]) -> (r: Vec<Vec<char>>)
    ensures
        texts_of(r@) == trimmed_nonempty(split_on(s@, ',')),
{
    let pieces = split_chars(s, ',');
    let ghost pv = crate::sql_text::texts(pieces@);
    let mut out: Vec<Vec<char>> = Vec::new();
    let mut i: usize = 0;
    assert(texts_of(out@) =~= trimmed_nonempty(pv.take(0)));
    while i < pieces.len()
        invariant
            i <= pieces@.len(),
            pv == crate::sql_text::texts(pieces@),
            texts_of(out@) == trimmed_nonempty(pv.take(i as int)),
        decreases pieces@.len() - i,
    {
        assert(pv.take(i + 1).drop_last() =~= pv.take(i as int));
        assert(pv[i as int] == pieces@[i as int]@);
        let x = trim_chars(&pieces[i]);
        if x.len() > 0 {
            let ghost before = texts_of(out@);
            out.push(x);
            assert(texts_of(out@) =~= before.push(x@));
        }
        i = i + 1;
    }
    assert(pv.take(pieces@.len() as int) =~= pv);
    out
}

/// `DROP FUNCTION [IF EXISTS] name [(type, ...)] [CASCADE]`.
pub open spec fn drop_function_spec(sql: Seq<char>) -> Result<StatementView, ParseErrorView> {
    let t = trim(sql);
    if !starts_ci(t, "DROP FUNCTION"@) {
        Err(ParseErrorView::Unsupported("not a DROP FUNCTION statement: "@ + sql))
    } else {
        let rest0 = crate::sql_text::trim_start(t.skip("DROP FUNCTION"@.len() as int));
        let if_exists = starts_ci(rest0, "IF EXISTS"@);
        let rest1 = if if_exists {
            crate::sql_text::trim_start(rest0.skip("IF EXISTS"@.len() as int))
        } else {
            rest0
        };
        match function_name_spec(rest1) {
            Err(e) => Err(e),
            Ok((name_str, after_name)) => {
                let ant = crate::sql_text::trim_start(after_name);
                if ant.len() > 0 && ant[0] == '(' {
                    match parenthesized_spec(ant) {
                        Err(e) => Err(e),
                        Ok((inner, after)) => Ok(
                            StatementView::DropFunction {
                                name: trim(name_str),
                                parameter_types: trimmed_nonempty(split_on(inner, ',')),
                                if_exists,
                                cascade: starts_ci(crate::sql_text::trim_start(after), "CASCADE"@),
                            },
                        ),
                    }
                } else {
                    Ok(
                        StatementView::DropFunction {
                            name: trim(name_str),
                            parameter_types: Seq::empty(),
                            if_exists,
                            cascade: starts_ci(ant, "CASCADE"@),
                        },
                    )
                }
            },
        }
    }
}

/// A list of strings from character vectors.
fn strings_of(v: &Vec<Vec<char>>) -> (r: Vec<String>)
    ensures
        crate::ast::string_views(r@) == texts_of(v@),
{
    let mut out: Vec<String> = Vec::new();
    let mut i: usize = 0;
    while i < v.len()
        invariant
            i <= v@.len(),
            crate::ast::string_views(out@) == texts_of(v@).take(i as int),
        decreases v@.len() - i,
    {
        let ghost before = crate::ast::string_views(out@);
        out.push(string_of(&v[i]));
        assert(crate::ast::string_views(out@) =~= before.push(v@[i as int]@));
        i = i + 1;
        assert(texts_of(v@).take(i as int) =~= texts_of(v@).take(i - 1).push(v@[i - 1]@));
    }
    assert(texts_of(v@).take(v@.len() as int) =~= texts_of(v@));
    out
}

/// Parses a DROP FUNCTION statement, as `drop_function_spec` describes.
pub fn parse_drop_function(sql: &[char]) -> (r: Result<Statement, ParseError>)
    ensures
        match r {
            Ok(st) => drop_function_spec(sql@) == Ok::<StatementView, ParseErrorView>(st@),
            Err(e) => drop_function_spec(sql@) == Err::<StatementView, ParseErrorView>(e@),
        },
{
    let t = trim_chars(sql);
    let head = chars_of("DROP FUNCTION");
    if !starts_with_ci(&t, &head) {
        return Err(unsupported("not a DROP FUNCTION statement: ", sql));
    }
    let rest0 = rest_after(&t, head.len());
    let ie = chars_of("IF EXISTS");
    let if_exists = starts_with_ci(&rest0, &ie);
    let rest1 = if if_exists {
        rest_after(&rest0, ie.len())
    } else {
        rest0
    };
    let (name_str, after_name) = match extract_function_name(&rest1) {
        Ok(p) => p,
        Err(e) => return Err(e),
    };
    let name = string_of(&trim_chars(&name_str));
    let ant = trim_start_chars(&after_name);
    let cascade_kw = chars_of("CASCADE");
    if ant.len() > 0 && ant[0] == '(' {
        let (inner, after) = match extract_parenthesized(&ant) {
            Ok(p) => p,
            Err(e) => return Err(e),
        };
        let types = comma_items(&inner);
        let rest = trim_start_chars(&after);
        Ok(
            Statement::DropFunction {
                name,
                parameter_types: strings_of(&types),
                if_exists,
                cascade: starts_with_ci(&rest, &cascade_kw),
            },
        )
    } else {
        let none: Vec<String> = Vec::new();
        assert(crate::ast::string_views(none@) =~= Seq::<Seq<char>>::empty());
        Ok(
            Statement::DropFunction {
                name,
                parameter_types: none,
                if_exists,
                cascade: starts_with_ci(&ant, &cascade_kw),
            },
        )
    }
}

/// The names of a list, each parsed with `table_name_text_spec`; the first error, if
/// any.
pub open spec fn parse_names_spec(items: Seq<Seq<char>>) -> Result<Seq<TableNameView>, ParseErrorView>
    decreases items.len(),
{
    if items.len() == 0 {
        Ok(Seq::empty())
    } else {
        match parse_names_spec(items.drop_last()) {
            Err(e) => Err(e),
            Ok(prev) => match table_name_text_spec(items.last()) {
                Err(e) => Err(e),
                Ok(n) => Ok(prev.push(n)),
            },
        }
    }
}

proof fn lemma_parse_names_error_sticks(items: Seq<Seq<char>>, m: int)
    requires
        0 <= m <= items.len(),
        parse_names_spec(items.take(m)) is Err,
    ensures
        parse_names_spec(items) == parse_names_spec(items.take(m)),
    decreases items.len() - m,
{
    if m < items.len() {
        assert(items.take(m + 1).drop_last() =~= items.take(m));
        lemma_parse_names_error_sticks(items, m + 1);
    } else {
        assert(items.take(m) =~= items);
    }
}

/// Parses every name of a list, as `parse_names_spec` describes.
fn parse_names(items: &Vec<Vec<char>>) -> (r: Result<Vec<TableName>, ParseError>)
    ensures
        match r {
            Ok(v) => parse_names_spec(texts_of(items@)) == Ok::<Seq<TableNameView>, ParseErrorView>(
                crate::ast::table_name_views(v@),
            ),
            Err(e) => parse_names_spec(texts_of(items@)) == Err::<
                Seq<TableNameView>,
                ParseErrorView,
            >(e@),
        },
{
    let ghost iv = texts_of(items@);
    let mut out: Vec<TableName> = Vec::new();
    let mut i: usize = 0;
    assert(crate::ast::table_name_views(out@) =~= Seq::<TableNameView>::empty());
    assert(iv.take(0) =~= Seq::<Seq<char>>::empty());
    while i < items.len()
        invariant
            i <= items@.len(),
            iv == texts_of(items@),
            parse_names_spec(iv.take(i as int)) == Ok::<Seq<TableNameView>, ParseErrorView>(
                crate::ast::table_name_views(out@),
            ),
        decreases items@.len() - i,
    {
        assert(iv.take(i + 1).drop_last() =~= iv.take(i as int));
        assert(iv[i as int] == items@[i as int]@);
        match parse_table_name_from_text(&items[i]) {
            Ok(n) => {
                let ghost before = crate::ast::table_name_views(out@);
                out.push(n);
                assert(crate::ast::table_name_views(out@) =~= before.push(n@));
            },
            Err(e) => {
                proof {
                    lemma_parse_names_error_sticks(iv, i + 1);
                }
                return Err(e);
            },
        }
        i = i + 1;
    }
    assert(iv.take(items@.len() as int) =~= iv);
    Ok(out)
}

/// `DROP MATERIALIZED VIEW [IF EXISTS] name [, ...] [CASCADE | RESTRICT]`.
pub open spec fn drop_mv_spec(sql: Seq<char>) -> Result<StatementView, ParseErrorView> {
    let t = trim(sql);
    if !starts_ci(t, "DROP MATERIALIZED VIEW"@) {
        Err(ParseErrorView::Unsupported("not a DROP MATERIALIZED VIEW statement: "@ + sql))
    } else {
        let rest0 = crate::sql_text::trim_start(t.skip("DROP MATERIALIZED VIEW"@.len() as int));
        let if_exists = starts_ci(rest0, "IF EXISTS"@);
        let rest = if if_exists {
            crate::sql_text::trim_start(rest0.skip("IF EXISTS"@.len() as int))
        } else {
            rest0
        };
        let cascade = crate::sql_text::ends_ci(rest, "CASCADE"@);
        let names_str = if cascade {
            crate::sql_text::trim_end(rest.take(rest.len() - "CASCADE"@.len()))
        } else if crate::sql_text::ends_ci(rest, "RESTRICT"@) {
            crate::sql_text::trim_end(rest.take(rest.len() - "RESTRICT"@.len()))
        } else {
            rest
        };
        match parse_names_spec(trimmed_nonempty(split_on(names_str, ','))) {
            Err(e) => Err(e),
            Ok(names) => if names.len() == 0 {
                Err(
                    ParseErrorView::Unsupported(
                        "DROP MATERIALIZED VIEW requires at least one view name, got: "@ + sql,
                    ),
                )
            } else {
                Ok(StatementView::DropView { names, if_exists, cascade, materialized: true })
            },
        }
    }
}

/// Parses a DROP MATERIALIZED VIEW statement, as `drop_mv_spec` describes.
pub fn parse_drop_materialized_view(sql: &[char]) -> (r: Result<Statement, ParseError>)
    ensures
        match r {
            Ok(st) => drop_mv_spec(sql@) == Ok::<StatementView, ParseErrorView>(st@),
            Err(e) => drop_mv_spec(sql@) == Err::<StatementView, ParseErrorView>(e@),
        },
{
    let t = trim_chars(sql);
    let head = chars_of("DROP MATERIALIZED VIEW");
    if !starts_with_ci(&t, &head) {
        return Err(unsupported("not a DROP MATERIALIZED VIEW statement: ", sql));
    }
    let rest0 = rest_after(&t, head.len());
    let ie = chars_of("IF EXISTS");
    let if_exists = starts_with_ci(&rest0, &ie);
    let rest = if if_exists {
        rest_after(&rest0, ie.len())
    } else {
        rest0
    };
    let kw_cascade = chars_of("CASCADE");
    let kw_restrict = chars_of("RESTRICT");
    let cascade = crate::sql_text::ends_with_ci(&rest, &kw_cascade);
    let names_str = if cascade {
        let a = sub_chars(&rest, 0, rest.len() - kw_cascade.len());
        assert(a@ =~= rest@.take(rest@.len() - kw_cascade@.len()));
        trim_end_chars(&a)
    } else if crate::sql_text::ends_with_ci(&rest, &kw_restrict) {
        let a = sub_chars(&rest, 0, rest.len() - kw_restrict.len());
        assert(a@ =~= rest@.take(rest@.len() - kw_restrict@.len()));
        trim_end_chars(&a)
    } else {
        rest
    };
    let items = comma_items(&names_str);
    let names = match parse_names(&items) {
        Ok(v) => v,
        Err(e) => return Err(e),
    };
    if names.len() == 0 {
        return Err(
            unsupported("DROP MATERIALIZED VIEW requires at least one view name, got: ", sql),
        );
    }
    Ok(Statement::DropView { names, if_exists, cascade, materialized: true })
}

/// `REFRESH MATERIALIZED VIEW [CONCURRENTLY] name [WITH DATA | WITH NO DATA]`
/// (`CONCURRENTLY` is accepted and ignored; data is loaded unless `WITH NO DATA`).
pub open spec fn refresh_mv_spec(sql: Seq<char>) -> Result<StatementView, ParseErrorView> {
    let t = trim(sql);
    if !starts_ci(t, "REFRESH MATERIALIZED VIEW"@) {
        Err(ParseErrorView::Unsupported("not a REFRESH MATERIALIZED VIEW statement: "@ + sql))
    } else {
        let rest0 = crate::sql_text::trim_start(t.skip("REFRESH MATERIALIZED VIEW"@.len() as int));
        let rest = if starts_ci(rest0, "CONCURRENTLY"@) {
            crate::sql_text::trim_start(rest0.skip("CONCURRENTLY"@.len() as int))
        } else {
            rest0
        };
        let no_data = crate::sql_text::ends_ci(rest, "WITH NO DATA"@);
        let name_str = if no_data {
            crate::sql_text::trim_end(rest.take(rest.len() - "WITH NO DATA"@.len()))
        } else if crate::sql_text::ends_ci(rest, "WITH DATA"@) {
            crate::sql_text::trim_end(rest.take(rest.len() - "WITH DATA"@.len()))
        } else {
            rest
        };
        match table_name_text_spec(trim(name_str)) {
            Err(e) => Err(e),
            Ok(name) => Ok(StatementView::RefreshMaterializedView { name, with_data: !no_data }),
        }
    }
}

/// Parses a REFRESH MATERIALIZED VIEW statement, as `refresh_mv_spec` describes.
pub fn parse_refresh_materialized_view(sql: &[char]) -> (r: Result<Statement, ParseError>)
    ensures
        match r {
            Ok(st) => refresh_mv_spec(sql@) == Ok::<StatementView, ParseErrorView>(st@),
            Err(e) => refresh_mv_spec(sql@) == Err::<StatementView, ParseErrorView>(e@),
        },
{
    let t = trim_chars(sql);
    let head = chars_of("REFRESH MATERIALIZED VIEW");
    if !starts_with_ci(&t, &head) {
        return Err(unsupported("not a REFRESH MATERIALIZED VIEW statement: ", sql));
    }
    let rest0 = rest_after(&t, head.len());
    let conc = chars_of("CONCURRENTLY");
    let rest = if starts_with_ci(&rest0, &conc) {
        rest_after(&rest0, conc.len())
    } else {
        rest0
    };
    let kw_no = chars_of("WITH NO DATA");
    let kw_data = chars_of("WITH DATA");
    let no_data = crate::sql_text::ends_with_ci(&rest, &kw_no);
    let name_str = if no_data {
        let a = sub_chars(&rest, 0, rest.len() - kw_no.len());
        assert(a@ =~= rest@.take(rest@.len() - kw_no@.len()));
        trim_end_chars(&a)
    } else if crate::sql_text::ends_with_ci(&rest, &kw_data) {
        let a = sub_chars(&rest, 0, rest.len() - kw_data.len());
        assert(a@ =~= rest@.take(rest@.len() - kw_data@.len()));
        trim_end_chars(&a)
    } else {
        rest
    };
    let name = match parse_table_name_from_text(&trim_chars(&name_str)) {
        Ok(n) => n,
        Err(e) => return Err(e),
    };
    Ok(Statement::RefreshMaterializedView { name, with_data: !no_data })
}

/// Data is loaded unless the statement ends with `WITH NO DATA`: a REFRESH MATERIALIZED
/// VIEW statement that parses reports `with_data == false` exactly when its trimmed text
/// ends with `WITH NO DATA` (any ASCII case); so one with no `WITH` clause reports
/// `with_data == true`. Left out is the one text that runs the head's last keyword into
/// the clause, `REFRESH MATERIALIZED VIEWITH NO DATA`, which names a view `ITH NO DATA`.
pub proof fn law_refresh_loads_data_unless_no_data(sql: Seq<char>)
    requires
        !eq_ci(trim(sql), "REFRESH MATERIALIZED VIEWITH NO DATA"@),
    ensures
        match refresh_mv_spec(sql) {
            Ok(StatementView::RefreshMaterializedView { with_data, .. }) => with_data
                == !crate::sql_text::ends_ci(trim(sql), "WITH NO DATA"@),
            Ok(_) => false,
            Err(_) => true,
        },
{
    let t = trim(sql);
    let n = t.len();
    let h = "REFRESH MATERIALIZED VIEW"@;
    let k = "WITH NO DATA"@;
    let c = "CONCURRENTLY"@;
    reveal_strlit("REFRESH MATERIALIZED VIEW");
    reveal_strlit("WITH NO DATA");
    reveal_strlit("CONCURRENTLY");
    reveal_strlit("REFRESH MATERIALIZED VIEWITH NO DATA");
    if starts_ci(t, h) {
        let s0 = t.skip(25);
        let rest0 = crate::sql_text::trim_start(s0);
        crate::sql_text::lemma_trim_start_suffix(s0);
        let p0 = n - rest0.len();
        assert(rest0 =~= t.skip(p0));
        assert forall|i: int| 25 <= i < p0 implies is_ws(#[trigger] t[i]) by {
            assert(t[i] == s0[i - 25]);
        }
        assert(upper(t[24]) == 'W');
        let conc = starts_ci(rest0, c);
        let rest = if conc {
            crate::sql_text::trim_start(rest0.skip(12))
        } else {
            rest0
        };
        let p = n - rest.len();
        if conc {
            let s1 = rest0.skip(12);
            crate::sql_text::lemma_trim_start_suffix(s1);
            assert(rest =~= t.skip(p));
            assert forall|i: int| p0 + 12 <= i < p implies is_ws(#[trigger] t[i]) by {
                assert(t[i] == s1[i - p0 - 12]);
            }
            assert(t[p0 + 11] == rest0[11]);
            assert(upper(t[p0 + 11]) == 'Y');
        }
        assert(rest == t.skip(p));
        if rest.len() >= 12 {
            assert(rest.skip(rest.len() - 12) =~= t.skip(n - 12));
        } else if crate::sql_text::ends_ci(t, k) {
            // The clause would reach back before `rest`: only the excluded text does so.
            let off = n - 12;
            assert(p > off);
            assert(upper(t[off + 0]) == 'W') by { assert(t.skip(off)[0] == t[off]); }
            let j1 = p - 1 - off;
            assert(upper(t[p - 1]) == k[j1]) by { assert(t.skip(off)[j1] == t[p - 1]); }
            if j1 >= 1 {
                assert(upper(t[p - 2]) == k[j1 - 1]) by { assert(t.skip(off)[j1 - 1] == t[p - 2]); }
            }
            if !conc && p == 25 {
                assert(j1 == 0);
                assert(eq_ci(t, "REFRESH MATERIALIZED VIEWITH NO DATA"@)) by {
                    assert forall|i: int| 0 <= i < 36 implies upper(#[trigger] t[i])
                        == "REFRESH MATERIALIZED VIEWITH NO DATA"@[i] by {
                        if i >= 24 {
                            assert(t.skip(off)[i - 24] == t[i]);
                        }
                    }
                }
                assert(false);
            }
            assert(false);
        }
    }
}

} // verus!
