//! Cutting SQL text into statements, and the tests on statement heads that choose how
//! a text is parsed.

use vstd::prelude::*;
use crate::text::chars_of;
use crate::sql_text::{
    char_is_ascii_ws, char_is_word, find_char, find_from, has_prefix, is_ascii_ws, is_word,
    lemma_find_from_props, split_chars, split_on, starts_ci, starts_with_chars, starts_with_ci,
    sub_chars, texts, trim, trim_chars, trim_start, trim_start_chars,
};

verus! {

// ---------------------------------------------------------------------
//  Statement heads
// ---------------------------------------------------------------------

/// A statement (trimmed at its start) begins with the word `REPLACE`.
pub open spec fn replace_head(t: Seq<char>) -> bool {
    starts_ci(t, "REPLACE"@) && (t.len() == 7 || is_ascii_ws(t[7]))
}

/// A statement (trimmed at its start) begins with `SET NAMES` followed by the end,
/// ASCII whitespace or a quote.
pub open spec fn set_names_head(t: Seq<char>) -> bool {
    starts_ci(t, "SET NAMES"@) && (t.len() == 9 || is_ascii_ws(t[9]) || t[9] == '\'' || t[9]
        == '"')
}

/// A statement (trimmed at its start) begins with `CREATE FUNCTION`,
/// `CREATE OR REPLACE FUNCTION` or `DROP FUNCTION`.
pub open spec fn function_ddl_head(t: Seq<char>) -> bool {
    starts_ci(t, "CREATE FUNCTION"@) || starts_ci(t, "CREATE OR REPLACE FUNCTION"@) || starts_ci(
        t,
        "DROP FUNCTION"@,
    )
}

/// Some `;`-separated piece of `s`, trimmed at its start, is a `REPLACE` statement.
pub open spec fn has_replace(s: Seq<char>) -> bool {
    let p = split_on(s, ';');
    exists|i: int| 0 <= i < p.len() && replace_head(trim_start(#[trigger] p[i]))
}

/// Some `;`-separated piece of `s`, trimmed at its start, is a `SET NAMES` statement.
pub open spec fn has_set_names(s: Seq<char>) -> bool {
    let p = split_on(s, ';');
    exists|i: int| 0 <= i < p.len() && set_names_head(trim_start(#[trigger] p[i]))
}

/// Some `;`-separated piece of `s`, trimmed at its start, creates or drops a function.
pub open spec fn has_function_ddl(s: Seq<char>) -> bool {
    let p = split_on(s, ';');
    exists|i: int| 0 <= i < p.len() && function_ddl_head(trim_start(#[trigger] p[i]))
}

fn replace_head_of(t: &[char]) -> (r: bool)
    ensures
        r == replace_head(t@),
{
    proof {
        reveal_strlit("REPLACE");
    }
    starts_with_ci(t, &chars_of("REPLACE")) && (t.len() == 7 || char_is_ascii_ws(t[7]))
}

fn set_names_head_of(t: &[char]) -> (r: bool)
    ensures
        r == set_names_head(t@),
{
    proof {
        reveal_strlit("SET NAMES");
    }
    starts_with_ci(t, &chars_of("SET NAMES")) && (t.len() == 9 || char_is_ascii_ws(t[9]) || t[9]
        == '\'' || t[9] == '"')
}

fn function_ddl_head_of(t: &[char]) -> (r: bool)
    ensures
        r == function_ddl_head(t@),
{
    starts_with_ci(t, &chars_of("CREATE FUNCTION")) || starts_with_ci(
        t,
        &chars_of("CREATE OR REPLACE FUNCTION"),
    ) || starts_with_ci(t, &chars_of("DROP FUNCTION"))
}

/// Tests whether the text holds a `REPLACE` statement (such texts are read with the
/// MySQL dialect).
pub fn contains_replace_statement(sql: &[char]) -> (r: bool)
    ensures
        r == has_replace(sql@),
{
    let segs = split_chars(sql, ';');
    let ghost p = split_on(sql@, ';');
    let mut i: usize = 0;
    while i < segs.len()
        invariant
            i <= segs@.len(),
            texts(segs@) == p,
            p == split_on(sql@, ';'),
            forall|j: int| 0 <= j < i ==> !replace_head(trim_start(#[trigger] p[j])),
        decreases segs@.len() - i,
    {
        assert(segs@[i as int]@ == p[i as int]);
        let t = trim_start_chars(&segs[i]);
        if replace_head_of(&t) {
            assert(replace_head(trim_start(p[i as int])));
            return true;
        }
        i = i + 1;
    }
    false
}

/// Tests whether the text holds a `SET NAMES` statement (such texts are read with the
/// MySQL dialect).
pub fn contains_set_names_statement(sql: &[char]) -> (r: bool)
    ensures
        r == has_set_names(sql@),
{
    let segs = split_chars(sql, ';');
    let ghost p = split_on(sql@, ';');
    let mut i: usize = 0;
    while i < segs.len()
        invariant
            i <= segs@.len(),
            texts(segs@) == p,
            p == split_on(sql@, ';'),
            forall|j: int| 0 <= j < i ==> !set_names_head(trim_start(#[trigger] p[j])),
        decreases segs@.len() - i,
    {
        assert(segs@[i as int]@ == p[i as int]);
        let t = trim_start_chars(&segs[i]);
        if set_names_head_of(&t) {
            assert(set_names_head(trim_start(p[i as int])));
            return true;
        }
        i = i + 1;
    }
    false
}

/// Tests whether the text creates or drops a function (such texts are cut into
/// statements with `split_sql_statements_with_dollar_quotes`).
pub fn contains_function_ddl(sql: &[char]) -> (r: bool)
    ensures
        r == has_function_ddl(sql@),
{
    let segs = split_chars(sql, ';');
    let ghost p = split_on(sql@, ';');
    let mut i: usize = 0;
    while i < segs.len()
        invariant
            i <= segs@.len(),
            texts(segs@) == p,
            p == split_on(sql@, ';'),
            forall|j: int| 0 <= j < i ==> !function_ddl_head(trim_start(#[trigger] p[j])),
        decreases segs@.len() - i,
    {
        assert(segs@[i as int]@ == p[i as int]);
        let t = trim_start_chars(&segs[i]);
        if function_ddl_head_of(&t) {
            assert(function_ddl_head(trim_start(p[i as int])));
            return true;
        }
        i = i + 1;
    }
    false
}

// ---------------------------------------------------------------------
//  Cutting at top-level semicolons
// ---------------------------------------------------------------------

/// Where a `--` comment that starts at `i` ends: at the next line feed, or at the end.
pub open spec fn line_comment_end(s: Seq<char>, i: int) -> int {
    match find_from(s, '\n', i) {
        Some(k) => k,
        None => s.len() as int,
    }
}

/// Where a `/* ... */` comment ends, scanning from `i` at nesting depth `depth`:
/// just after the `*/` that closes the outermost comment, or at the end.
pub open spec fn block_comment_end(s: Seq<char>, i: int, depth: nat) -> int
    decreases s.len() - i, depth,
{
    if depth == 0 || i < 0 || i >= s.len() {
        i
    } else if s[i] == '/' && i + 1 < s.len() && s[i + 1] == '*' {
        block_comment_end(s, i + 2, depth + 1)
    } else if s[i] == '*' && i + 1 < s.len() && s[i + 1] == '/' {
        block_comment_end(s, i + 2, (depth - 1) as nat)
    } else {
        block_comment_end(s, i + 1, depth)
    }
}

/// Where a `'...'` literal ends, scanning from `i` (just after the opening quote):
/// just after the closing quote (a doubled quote stands for one quote), or at the end.
pub open spec fn quote_end(s: Seq<char>, i: int) -> int
    decreases s.len() - i,
{
    if i < 0 || i >= s.len() {
        s.len() as int
    } else if s[i] == '\'' {
        if i + 1 < s.len() && s[i + 1] == '\'' {
            quote_end(s, i + 2)
        } else {
            i + 1
        }
    } else {
        quote_end(s, i + 1)
    }
}

/// The first position at or after `j` that does not hold an ASCII letter, digit or `_`.
pub open spec fn tag_end(s: Seq<char>, j: int) -> int
    decreases s.len() - j,
{
    if j < 0 || j >= s.len() || !is_word(s[j]) {
        j
    } else {
        tag_end(s, j + 1)
    }
}

/// Where a dollar-quoted string ends, scanning from `i` for its closing tag `closing`:
/// just after the first copy of `closing`, or at the end.
pub open spec fn dollar_end(s: Seq<char>, i: int, closing: Seq<char>) -> int
    decreases s.len() - i,
{
    if i < 0 || i >= s.len() {
        s.len() as int
    } else if s[i] == '$' && has_prefix(s.skip(i), closing) {
        i + closing.len()
    } else {
        dollar_end(s, i + 1, closing)
    }
}

/// Position `i` starts a dollar quote `$tag$`.
pub open spec fn dollar_opens(s: Seq<char>, i: int) -> bool {
    0 <= i < s.len() && s[i] == '$' && tag_end(s, i + 1) < s.len() && s[tag_end(s, i + 1)] == '$'
}

/// Where the item that starts at position `i` (not a `;`) ends: a `--` or nested
/// `/* */` comment, a `'...'` literal, a `$tag$...$tag$` string, or a single character.
pub open spec fn item_end(s: Seq<char>, i: int) -> int {
    if s[i] == '-' && i + 1 < s.len() && s[i + 1] == '-' {
        line_comment_end(s, i)
    } else if s[i] == '/' && i + 1 < s.len() && s[i + 1] == '*' {
        block_comment_end(s, i + 2, 1)
    } else if s[i] == '\'' {
        quote_end(s, i + 1)
    } else if dollar_opens(s, i) {
        let j = tag_end(s, i + 1);
        dollar_end(s, j + 1, s.subrange(i, j + 1))
    } else {
        i + 1
    }
}

pub proof fn lemma_block_comment_end(s: Seq<char>, i: int, depth: nat)
    requires
        0 <= i <= s.len(),
    ensures
        i <= block_comment_end(s, i, depth) <= s.len(),
    decreases s.len() - i, depth,
{
    if depth == 0 || i >= s.len() {
    } else if s[i] == '/' && i + 1 < s.len() && s[i + 1] == '*' {
        lemma_block_comment_end(s, i + 2, depth + 1);
    } else if s[i] == '*' && i + 1 < s.len() && s[i + 1] == '/' {
        lemma_block_comment_end(s, i + 2, (depth - 1) as nat);
    } else {
        lemma_block_comment_end(s, i + 1, depth);
    }
}

pub proof fn lemma_quote_end(s: Seq<char>, i: int)
    requires
        0 <= i <= s.len(),
    ensures
        i <= quote_end(s, i) <= s.len(),
    decreases s.len() - i,
{
    if i < s.len() && s[i] == '\'' && i + 1 < s.len() && s[i + 1] == '\'' {
        lemma_quote_end(s, i + 2);
    } else if i < s.len() && s[i] != '\'' {
        lemma_quote_end(s, i + 1);
    }
}

pub proof fn lemma_tag_end(s: Seq<char>, j: int)
    requires
        0 <= j <= s.len(),
    ensures
        j <= tag_end(s, j) <= s.len(),
        forall|k: int| j <= k < tag_end(s, j) ==> is_word(#[trigger] s[k]),
    decreases s.len() - j,
{
    if j < s.len() && is_word(s[j]) {
        lemma_tag_end(s, j + 1);
    }
}

pub proof fn lemma_dollar_end(s: Seq<char>, i: int, closing: Seq<char>)
    requires
        0 <= i <= s.len(),
    ensures
        i <= dollar_end(s, i, closing) <= s.len(),
    decreases s.len() - i,
{
    if i < s.len() && !(s[i] == '$' && has_prefix(s.skip(i), closing)) {
        lemma_dollar_end(s, i + 1, closing);
    }
}

pub proof fn lemma_item_end(s: Seq<char>, i: int)
    requires
        0 <= i < s.len(),
    ensures
        i < item_end(s, i) <= s.len(),
{
    if s[i] == '-' && i + 1 < s.len() && s[i + 1] == '-' {
        lemma_find_from_props(s, '\n', i);
    } else if s[i] == '/' && i + 1 < s.len() && s[i + 1] == '*' {
        lemma_block_comment_end(s, i + 2, 1);
    } else if s[i] == '\'' {
        lemma_quote_end(s, i + 1);
    } else if dollar_opens(s, i) {
        lemma_tag_end(s, i + 1);
        let j = tag_end(s, i + 1);
        lemma_dollar_end(s, j + 1, s.subrange(i, j + 1));
    }
}

/// The statements of `s` from position `i` on, the current one having begun at
/// `start`: each ends just after a `;` that stands outside comments, quoted literals
/// and dollar-quoted strings (the `;` stays with it); the rest after the last such `;`
/// is a statement too unless it is blank.
pub open spec fn split_from(s: Seq<char>, i: int, start: int) -> Seq<Seq<char>>
    decreases s.len() - i,
{
    if i < 0 || i >= s.len() {
        if 0 <= start <= s.len() && trim(s.subrange(start, s.len() as int)).len() > 0 {
            seq![s.subrange(start, s.len() as int)]
        } else {
            Seq::empty()
        }
    } else if s[i] == ';' {
        seq![s.subrange(start, i + 1)] + split_from(s, i + 1, i + 1)
    } else {
        let e = item_end(s, i);
        if i < e <= s.len() {
            split_from(s, e, start)
        } else {
            Seq::empty()
        }
    }
}

/// The statements of `s`, cut at the semicolons outside comments and quotes.
pub open spec fn split_with_dollar_quotes_spec(s: Seq<char>) -> Seq<Seq<char>> {
    split_from(s, 0, 0)
}

/// The end of the item at `i`, as `item_end` describes.
fn item_end_of(s: &[char], i: usize) -> (e: usize)
    requires
        i < s@.len(),
    ensures
        e as int == item_end(s@, i as int),
{
    proof {
        lemma_item_end(s@, i as int);
    }
    let n = s.len();
    if s[i] == '-' && i + 1 < n && s[i + 1] == '-' {
        match find_char(s, '\n', i) {
            Some(k) => k,
            None => n,
        }
    } else if s[i] == '/' && i + 1 < n && s[i + 1] == '*' {
        let mut depth: usize = 1;
        let mut j = i + 2;
        while j < n && depth > 0
            invariant
                i + 2 <= j <= n,
                n == s@.len(),
                s@[i as int] == '/',
                s@[i + 1] == '*',
                depth <= j,
                block_comment_end(s@, j as int, depth as nat) == block_comment_end(
                    s@,
                    i + 2,
                    1,
                ),
            decreases n - j, depth,
        {
            if s[j] == '/' && j + 1 < n && s[j + 1] == '*' {
                depth = depth + 1;
                j = j + 2;
            } else if s[j] == '*' && j + 1 < n && s[j + 1] == '/' {
                depth = depth - 1;
                j = j + 2;
            } else {
                j = j + 1;
            }
        }
        j
    } else if s[i] == '\'' {
        let mut j = i + 1;
        while j < n
            invariant
                i + 1 <= j <= n,
                n == s@.len(),
                s@[i as int] == '\'',
                quote_end(s@, j as int) == quote_end(s@, i + 1),
            decreases n - j,
        {
            if s[j] == '\'' {
                if j + 1 < n && s[j + 1] == '\'' {
                    j = j + 2;
                } else {
                    assert(quote_end(s@, j as int) == j + 1);
                    return j + 1;
                }
            } else {
                j = j + 1;
            }
        }
        n
    } else if s[i] == '$' {
        let mut j = i + 1;
        while j < n && char_is_word(s[j])
            invariant
                i + 1 <= j <= n,
                n == s@.len(),
                s@[i as int] == '$',
                tag_end(s@, j as int) == tag_end(s@, i + 1),
            decreases n - j,
        {
            j = j + 1;
        }
        if j < n && s[j] == '$' {
            let closing = sub_chars(s, i, j + 1);
            let mut k = j + 1;
            while k < n
                invariant
                    j + 1 <= k <= n,
                    n == s@.len(),
                    i < j < n,
                    s@[i as int] == '$',
                    s@[j as int] == '$',
                    tag_end(s@, i + 1) == j,
                    closing@ == s@.subrange(i as int, j + 1),
                    dollar_end(s@, k as int, closing@) == dollar_end(s@, j + 1, closing@),
                decreases n - k,
            {
                if s[k] == '$' {
                    let rest = vstd::slice::slice_subrange(s, k, n);
                    assert(rest@ =~= s@.skip(k as int));
                    if starts_with_chars(rest, &closing) {
                        assert(dollar_end(s@, k as int, closing@) == k + closing@.len());
                        assert(dollar_opens(s@, i as int));
                        return k + closing.len();
                    }
                }
                k = k + 1;
            }
            assert(dollar_opens(s@, i as int));
            n
        } else {
            i + 1
        }
    } else {
        i + 1
    }
}

/// Cuts a text into statements at the semicolons that stand outside `--` and nested
/// `/* */` comments, `'...'` literals and `$tag$...$tag$` strings, as
/// `split_with_dollar_quotes_spec` describes. Used for texts that create or drop
/// functions, whose bodies hold semicolons.
pub fn split_sql_statements_with_dollar_quotes(sql: &[char]) -> (r: Vec<Vec<char>>)
    ensures
        texts(r@) == split_with_dollar_quotes_spec(sql@),
{
    let n = sql.len();
    let mut pieces: Vec<Vec<char>> = Vec::new();
    let mut start: usize = 0;
    let mut i: usize = 0;
    while i < n
        invariant
            n == sql@.len(),
            start <= i <= n,
            texts(pieces@) + split_from(sql@, i as int, start as int)
                == split_with_dollar_quotes_spec(sql@),
        decreases n - i,
    {
        if sql[i] == ';' {
            let piece = sub_chars(sql, start, i + 1);
            let ghost before = texts(pieces@);
            pieces.push(piece);
            assert(texts(pieces@) =~= before.push(sql@.subrange(start as int, i + 1)));
            assert(texts(pieces@) + split_from(sql@, i + 1, i + 1) =~= before + split_from(
                sql@,
                i as int,
                start as int,
            ));
            i = i + 1;
            start = i;
        } else {
            let e = item_end_of(sql, i);
            proof {
                lemma_item_end(sql@, i as int);
            }
            i = e;
        }
    }
    let last = sub_chars(sql, start, n);
    let ghost before = texts(pieces@);
    if trim_chars(&last).len() > 0 {
        pieces.push(last);
        assert(texts(pieces@) =~= before + split_from(sql@, n as int, start as int));
    } else {
        assert(before =~= before + split_from(sql@, n as int, start as int));
    }
    pieces
}

} // verus!
