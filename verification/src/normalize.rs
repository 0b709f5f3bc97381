//! Rewrites applied to SQL text before it is parsed, and the size checks made on it.
//!
//! Database tools send `SET` statements without a value (`SET AUTOCOMMIT`), with the
//! PostgreSQL boolean shorthand (`SET x ON`), or in forms that sqlparser does not read
//! (`SET CHARACTER SET`, `SET SESSION AUTHORIZATION`, `SET TIME ZONE`); those are
//! rewritten to `SET name = value`. `SHOW PROCEDURE STATUS` and `SHOW FUNCTION STATUS`
//! become a query with no rows.

use vstd::prelude::*;
use crate::text::chars_of;
use crate::sql_text::{
    append_chars, char_is_word, char_upper, chars_eq, contains_chars_ci, ends_ci, ends_with_ci,
    eq_ci, eq_ignore_case, escape_quotes, escape_single_quotes, find_char, find_ci,
    find_ci_from, find_from, lemma_find_ci_from_props, find_ws, find_ws_from, is_word, lemma_find_from_props,
    split_chars, split_on, starts_ci, starts_with_ci, strip_char, strip_chars, sub_chars, texts,
    trim, trim_chars, trim_start, trim_start_chars, upper, contains_ci, join_with,
};

verus! {

// ---------------------------------------------------------------------
//  OR / AND count
// ---------------------------------------------------------------------

/// Position `i` of `s` starts a whole word `OR` or `AND` (any ASCII case): the
/// character before it, if any, and the character after it, if any, are not word
/// characters.
pub open spec fn op_keyword_at(s: Seq<char>, i: int) -> bool {
    &&& 0 <= i < s.len()
    &&& (i == 0 || !is_word(s[i - 1]))
    &&& {
        ||| (i + 2 <= s.len() && upper(s[i]) == 'O' && upper(s[i + 1]) == 'R' && (i + 2
            == s.len() || !is_word(s[i + 2])))
        ||| (i + 3 <= s.len() && upper(s[i]) == 'A' && upper(s[i + 1]) == 'N' && upper(s[i + 2])
            == 'D' && (i + 3 == s.len() || !is_word(s[i + 3])))
    }
}

/// The number of positions below `n` where a whole word `OR` or `AND` starts.
pub open spec fn op_keyword_count(s: Seq<char>, n: int) -> nat
    decreases n,
{
    if n <= 0 {
        0
    } else {
        op_keyword_count(s, n - 1) + if op_keyword_at(s, n - 1) {
            1nat
        } else {
            0nat
        }
    }
}

/// Counts the whole words `OR` and `AND` (any ASCII case) in `sql`.
///
/// Words inside string literals are counted too: the count only serves to refuse
/// texts whose chains of boolean operators would be too deep to parse safely.
pub fn count_binary_op_keywords(sql: &[char]) -> (count: usize)
    ensures
        count == op_keyword_count(sql@, sql@.len() as int),
{
    let n = sql.len();
    let mut count: usize = 0;
    let mut i: usize = 0;
    while i < n
        invariant
            n == sql@.len(),
            i <= n,
            count == op_keyword_count(sql@, i as int),
            count <= i,
        decreases n - i,
    {
        let s = sql;
        if i > 0 && char_is_word(s[i - 1]) {
            assert(!op_keyword_at(s@, i as int));
            i = i + 1;
        } else if n - i >= 2 && char_upper(s[i]) == 'O' && char_upper(s[i + 1]) == 'R' && (n - i
            == 2 || !char_is_word(s[i + 2])) {
            assert(op_keyword_at(s@, i as int));
            assert(!op_keyword_at(s@, i + 1));
            assert(op_keyword_count(s@, i + 1) == op_keyword_count(s@, i as int) + 1);
            assert(op_keyword_count(s@, i + 2) == op_keyword_count(s@, i + 1));
            count = count + 1;
            i = i + 2;
        } else if n - i >= 3 && char_upper(s[i]) == 'A' && char_upper(s[i + 1]) == 'N'
            && char_upper(s[i + 2]) == 'D' && (n - i == 3 || !char_is_word(s[i + 3])) {
            assert(op_keyword_at(s@, i as int));
            assert(!op_keyword_at(s@, i + 1));
            assert(!op_keyword_at(s@, i + 2));
            assert(op_keyword_count(s@, i + 1) == op_keyword_count(s@, i as int) + 1);
            assert(op_keyword_count(s@, i + 2) == op_keyword_count(s@, i + 1));
            assert(op_keyword_count(s@, i + 3) == op_keyword_count(s@, i + 2));
            count = count + 1;
            i = i + 3;
        } else {
            assert(!op_keyword_at(s@, i as int));
            i = i + 1;
        }
    }
    count
}

// ---------------------------------------------------------------------
//  SET statements
// ---------------------------------------------------------------------

/// `t` (already trimmed) is a `SET` statement: exactly `SET`, or `SET` and a space.
pub open spec fn is_set_statement(t: Seq<char>) -> bool {
    eq_ci(t, "SET"@) || starts_ci(t, "SET "@)
}

/// What follows `SET` in a trimmed `SET` statement, trimmed.
pub open spec fn set_body(t: Seq<char>) -> Seq<char> {
    trim(t.skip("SET"@.len() as int))
}

/// `SET <name> = '<value>'`, where the value is `raw` (or `default` when `raw` is
/// empty) without surrounding quotes, with its single quotes doubled.
pub open spec fn quoted_setting(prefix: Seq<char>, raw: Seq<char>, default: Seq<char>) -> Seq<char> {
    let v = if raw.len() == 0 {
        default
    } else {
        raw
    };
    prefix + escape_single_quotes(strip_char(strip_char(v, '\''), '"')) + "'"@
}

/// Whether a `;`-separated segment is a `SET` statement that `normalize_set` rewrites.
pub open spec fn needs_set_spec(seg: Seq<char>) -> bool {
    let t = trim(seg);
    if t.len() == 0 || !is_set_statement(t) {
        false
    } else {
        let a = set_body(t);
        if a.len() == 0 {
            true
        } else if starts_ci(a, "CHARACTER SET"@) {
            true
        } else if starts_ci(a, "SESSION AUTHORIZATION"@) {
            true
        } else if eq_ci(a, "TIME ZONE"@) || starts_ci(a, "TIME ZONE "@) {
            true
        } else if let Some(e) = find_from(t, '=', 0) {
            trim(t.skip(e + 1)).len() == 0
        } else if let Some(k) = find_ci_from(a, " TO"@, 0) {
            trim_start(a.skip(k + 3)).len() == 0
        } else if ends_ci(a, " ON"@) || ends_ci(a, " OFF"@) {
            true
        } else {
            find_ws_from(a, 0) is None
        }
    }
}

/// The rewriting of one `;`-separated segment; segments it does not concern come back
/// unchanged (untrimmed).
///
/// | segment | result |
/// |---|---|
/// | `SET` | `SET autocommit = 1` |
/// | `SET CHARACTER SET cs` | `SET character_set_client = 'cs'` (`UTF8` when empty) |
/// | `SET SESSION AUTHORIZATION u` | `SET session_authorization = '...'`, from the 21st character of the body on (`DEFAULT` when empty) |
/// | `SET TIME ZONE z` | `SET timezone = 'z'` (`UTC` when empty) |
/// | `SET x =` | `SET x = 1` |
/// | `SET x TO` | `SET x = 1` |
/// | `SET x ON` / `SET x OFF` | `SET x = 'on'` / `SET x = 'off'` |
/// | `SET x` | `SET x = 1` |
pub open spec fn normalize_set_spec(seg: Seq<char>) -> Seq<char> {
    let t = trim(seg);
    if !is_set_statement(t) {
        seg
    } else {
        let a = set_body(t);
        if a.len() == 0 {
            "SET autocommit = 1"@
        } else if starts_ci(a, "CHARACTER SET"@) {
            quoted_setting(
                "SET character_set_client = '"@,
                trim(a.skip("CHARACTER SET"@.len() as int)),
                "UTF8"@,
            )
        } else if starts_ci(a, "SESSION AUTHORIZATION"@) {
            quoted_setting("SET session_authorization = '"@, trim(a.skip(20)), "DEFAULT"@)
        } else if eq_ci(a, "TIME ZONE"@) || starts_ci(a, "TIME ZONE "@) {
            quoted_setting("SET timezone = '"@, trim(a.skip("TIME ZONE"@.len() as int)), "UTC"@)
        } else if let Some(e) = find_from(t, '=', 0) {
            if trim(t.skip(e + 1)).len() == 0 {
                trim(t.take(e)) + " = 1"@
            } else {
                seg
            }
        } else if let Some(k) = find_ci_from(a, " TO"@, 0) {
            if trim_start(a.skip(k + 3)).len() == 0 {
                "SET "@ + trim(a.take(k)) + " = 1"@
            } else {
                seg
            }
        } else if ends_ci(a, " ON"@) && trim(a.take(a.len() - 3)).len() > 0 {
            "SET "@ + trim(a.take(a.len() - 3)) + " = 'on'"@
        } else if ends_ci(a, " OFF"@) && trim(a.take(a.len() - 4)).len() > 0 {
            "SET "@ + trim(a.take(a.len() - 4)) + " = 'off'"@
        } else if find_ws_from(a, 0) is None {
            "SET "@ + a + " = 1"@
        } else {
            seg
        }
    }
}

/// The body of a trimmed `SET` statement, trimmed.
fn set_body_of(t: &[char]) -> (a: Vec<char>)
    requires
        is_set_statement(t@),
    ensures
        a@ == set_body(t@),
{
    let kw = chars_of("SET");
    proof {
        reveal_strlit("SET");
        reveal_strlit("SET ");
    }
    let rest = sub_chars(t, kw.len(), t.len());
    assert(rest@ =~= t@.skip("SET"@.len() as int));
    trim_chars(&rest)
}

/// Tests whether a `;`-separated segment needs the `SET` rewriting.
pub fn needs_set_normalization(seg: &[char]) -> (r: bool)
    ensures
        r == needs_set_spec(seg@),
{
    let t = trim_chars(seg);
    if t.len() == 0 {
        return false;
    }
    if !(eq_ignore_case(&t, &chars_of("SET")) || starts_with_ci(&t, &chars_of("SET "))) {
        return false;
    }
    let a = set_body_of(&t);
    if a.len() == 0 {
        return true;
    }
    if starts_with_ci(&a, &chars_of("CHARACTER SET")) {
        return true;
    }
    if starts_with_ci(&a, &chars_of("SESSION AUTHORIZATION")) {
        return true;
    }
    if eq_ignore_case(&a, &chars_of("TIME ZONE")) || starts_with_ci(&a, &chars_of("TIME ZONE ")) {
        return true;
    }
    if let Some(e) = find_char(&t, '=', 0) {
        proof {
            lemma_find_from_props(t@, '=', 0);
        }
        let after = sub_chars(&t, e + 1, t.len());
        return trim_chars(&after).len() == 0;
    }
    let to = chars_of(" TO");
    if let Some(k) = find_ci(&a, &to, 0) {
        proof {
            lemma_find_ci_from_props(a@, to@, 0);
            reveal_strlit(" TO");
        }
        let after = if k + 3 <= a.len() {
            sub_chars(&a, k + 3, a.len())
        } else {
            Vec::new()
        };
        assert(after@ =~= a@.skip(k + 3));
        return trim_start_chars(&after).len() == 0;
    }
    if ends_with_ci(&a, &chars_of(" ON")) || ends_with_ci(&a, &chars_of(" OFF")) {
        return true;
    }
    find_ws(&a, 0).is_none()
}

/// `prefix`, then `raw` (or `default` when `raw` is empty) without surrounding quotes
/// and with its single quotes doubled, then `'`.
fn quoted_setting_of(prefix: &str, raw: &[char], default: &str) -> (r: Vec<char>)
    ensures
        r@ == quoted_setting(prefix@, raw@, default@),
{
    let v = if raw.len() == 0 {
        chars_of(default)
    } else {
        sub_chars(raw, 0, raw.len())
    };
    assert(raw@.subrange(0, raw@.len() as int) =~= raw@);
    let v1 = strip_chars(&v, '\'');
    let v2 = strip_chars(&v1, '"');
    let mut out = chars_of(prefix);
    let esc = escape_quotes(&v2);
    append_chars(&mut out, &esc);
    out.push('\'');
    proof {
        reveal_strlit("'");
        assert(out@ =~= quoted_setting(prefix@, raw@, default@));
    }
    out
}

/// `a`, then `b`, then `c`.
fn concat3(a: &str, b: &[char], c: &str) -> (r: Vec<char>)
    ensures
        r@ == a@ + b@ + c@,
{
    let mut out = chars_of(a);
    append_chars(&mut out, b);
    let tail = chars_of(c);
    append_chars(&mut out, &tail);
    out
}

/// Rewrites one `;`-separated segment as `normalize_set_spec` describes.
pub fn normalize_set_no_value(seg: &[char]) -> (r: Vec<char>)
    ensures
        r@ == normalize_set_spec(seg@),
{
    let unchanged = sub_chars(seg, 0, seg.len());
    assert(seg@.subrange(0, seg@.len() as int) =~= seg@);
    let t = trim_chars(seg);
    if !(eq_ignore_case(&t, &chars_of("SET")) || starts_with_ci(&t, &chars_of("SET "))) {
        return unchanged;
    }
    let a = set_body_of(&t);
    if a.len() == 0 {
        return chars_of("SET autocommit = 1");
    }
    let charset = chars_of("CHARACTER SET");
    if starts_with_ci(&a, &charset) {
        let raw = trim_chars(&sub_chars(&a, charset.len(), a.len()));
        assert(a@.subrange(charset@.len() as int, a@.len() as int) =~= a@.skip(
            "CHARACTER SET"@.len() as int,
        ));
        return quoted_setting_of("SET character_set_client = '", &raw, "UTF8");
    }
    if starts_with_ci(&a, &chars_of("SESSION AUTHORIZATION")) {
        proof {
            reveal_strlit("SESSION AUTHORIZATION");
        }
        let raw = trim_chars(&sub_chars(&a, 20, a.len()));
        assert(a@.subrange(20, a@.len() as int) =~= a@.skip(20));
        return quoted_setting_of("SET session_authorization = '", &raw, "DEFAULT");
    }
    let tz = chars_of("TIME ZONE");
    if eq_ignore_case(&a, &tz) || starts_with_ci(&a, &chars_of("TIME ZONE ")) {
        proof {
            reveal_strlit("TIME ZONE");
            reveal_strlit("TIME ZONE ");
        }
        let raw = trim_chars(&sub_chars(&a, tz.len(), a.len()));
        assert(a@.subrange(tz@.len() as int, a@.len() as int) =~= a@.skip(
            "TIME ZONE"@.len() as int,
        ));
        return quoted_setting_of("SET timezone = '", &raw, "UTC");
    }
    if let Some(e) = find_char(&t, '=', 0) {
        proof {
            lemma_find_from_props(t@, '=', 0);
        }
        assert(e < t.len());
        let after = sub_chars(&t, e + 1, t.len());
        assert(after@ =~= t@.skip(e + 1));
        if trim_chars(&after).len() == 0 {
            let var = trim_chars(&sub_chars(&t, 0, e));
            assert(t@.subrange(0, e as int) =~= t@.take(e as int));
            let mut out = var;
            append_chars(&mut out, &chars_of(" = 1"));
            return out;
        }
        return unchanged;
    }
    let to = chars_of(" TO");
    if let Some(k) = find_ci(&a, &to, 0) {
        proof {
            lemma_find_ci_from_props(a@, to@, 0);
            reveal_strlit(" TO");
        }
        let after = sub_chars(&a, k + 3, a.len());
        assert(after@ =~= a@.skip(k + 3));
        if trim_start_chars(&after).len() == 0 {
            let var = trim_chars(&sub_chars(&a, 0, k));
            assert(a@.subrange(0, k as int) =~= a@.take(k as int));
            return concat3("SET ", &var, " = 1");
        }
        return unchanged;
    }
    proof {
        reveal_strlit(" ON");
        reveal_strlit(" OFF");
    }
    if ends_with_ci(&a, &chars_of(" ON")) {
        let var = trim_chars(&sub_chars(&a, 0, a.len() - 3));
        assert(a@.subrange(0, a@.len() - 3) =~= a@.take(a@.len() - 3));
        if var.len() > 0 {
            return concat3("SET ", &var, " = 'on'");
        }
    }
    if ends_with_ci(&a, &chars_of(" OFF")) {
        let var = trim_chars(&sub_chars(&a, 0, a.len() - 4));
        assert(a@.subrange(0, a@.len() - 4) =~= a@.take(a@.len() - 4));
        if var.len() > 0 {
            return concat3("SET ", &var, " = 'off'");
        }
    }
    if find_ws(&a, 0).is_none() {
        return concat3("SET ", &a, " = 1");
    }
    unchanged
}

/// A segment that `normalize_set_spec` concerns is rewritten exactly when
/// `needs_set_spec` holds of it: every other segment comes back unchanged.
pub proof fn law_unneeded_segment_unchanged(seg: Seq<char>)
    requires
        !needs_set_spec(seg),
    ensures
        normalize_set_spec(seg) == seg,
{
    let t = trim(seg);
    if t.len() == 0 {
        reveal_strlit("SET");
        reveal_strlit("SET ");
    }
}

/// The text holds the word `set` (any ASCII case) as a whole text or followed by a
/// space, tab, line feed, carriage return or `;`.
pub open spec fn has_set_word(s: Seq<char>) -> bool {
    ||| eq_ci(s, "SET"@)
    ||| contains_ci(s, "SET "@)
    ||| contains_ci(s, "SET\t"@)
    ||| contains_ci(s, "SET\n"@)
    ||| contains_ci(s, "SET\r"@)
    ||| contains_ci(s, "SET;"@)
}

/// Some piece needs the `SET` rewriting.
pub open spec fn some_needs_set(segs: Seq<Seq<char>>) -> bool {
    exists|i: int| 0 <= i < segs.len() && needs_set_spec(#[trigger] segs[i])
}

/// The `SET` rewriting of a whole text: when the text holds the word `set` and some
/// `;`-separated segment needs rewriting, every segment is rewritten and the segments
/// are joined with `;` again; otherwise the text is unchanged.
pub open spec fn normalize_sets_spec(s: Seq<char>) -> Seq<char> {
    let segs = split_on(s, ';');
    if has_set_word(s) && some_needs_set(segs) {
        join_with(Seq::new(segs.len(), |i: int| normalize_set_spec(segs[i])), seq![';'])
    } else {
        s
    }
}

/// Tests `has_set_word`.
fn has_set_word_of(s: &[char]) -> (r: bool)
    ensures
        r == has_set_word(s@),
{
    eq_ignore_case(s, &chars_of("SET")) || contains_chars_ci(s, &chars_of("SET "))
        || contains_chars_ci(s, &chars_of("SET\t")) || contains_chars_ci(s, &chars_of("SET\n"))
        || contains_chars_ci(s, &chars_of("SET\r")) || contains_chars_ci(s, &chars_of("SET;"))
}

/// Applies the `SET` rewriting to a whole text, as `normalize_sets_spec` describes.
pub fn normalize_set_statements(sql: &[char]) -> (r: Vec<char>)
    ensures
        r@ == normalize_sets_spec(sql@),
{
    let unchanged = sub_chars(sql, 0, sql.len());
    assert(sql@.subrange(0, sql@.len() as int) =~= sql@);
    if !has_set_word_of(sql) {
        return unchanged;
    }
    let segs = split_chars(sql, ';');
    let ghost pieces = split_on(sql@, ';');
    let mut needs = false;
    let mut i: usize = 0;
    while i < segs.len()
        invariant
            i <= segs@.len(),
            texts(segs@) == pieces,
            needs == (exists|j: int| 0 <= j < i && needs_set_spec(#[trigger] pieces[j])),
        decreases segs@.len() - i,
    {
        assert(segs@[i as int]@ == pieces[i as int]);
        if needs_set_normalization(&segs[i]) {
            needs = true;
        }
        i = i + 1;
    }
    if !needs {
        return unchanged;
    }
    let ghost rewritten = Seq::new(pieces.len(), |k: int| normalize_set_spec(pieces[k]));
    let mut out: Vec<char> = Vec::new();
    let mut k: usize = 0;
    while k < segs.len()
        invariant
            k <= segs@.len(),
            texts(segs@) == pieces,
            rewritten.len() == pieces.len(),
            forall|j: int| 0 <= j < pieces.len() ==> #[trigger] rewritten[j] == normalize_set_spec(pieces[j]),
            out@ == join_with(rewritten.take(k as int), seq![';']),
        decreases segs@.len() - k,
    {
        assert(segs@[k as int]@ == pieces[k as int]);
        let part = normalize_set_no_value(&segs[k]);
        assert(rewritten.take(k + 1).drop_last() =~= rewritten.take(k as int));
        if k > 0 {
            out.push(';');
        }
        append_chars(&mut out, &part);
        k = k + 1;
        assert(out@ =~= join_with(rewritten.take(k as int), seq![';']));
    }
    assert(rewritten.take(segs@.len() as int) =~= rewritten);
    out
}

/// The query that stands in for `SHOW PROCEDURE STATUS` and `SHOW FUNCTION STATUS`:
/// the columns of a routine listing, and no rows.
pub open spec fn empty_routines_query() -> Seq<char> {
    "SELECT '' AS Db, '' AS Name, '' AS Type, '' AS Definer, '' AS Modified, '' AS Created, '' AS Security_type, '' AS Comment, '' AS character_set_client, '' AS collation_connection, '' AS \"Database Collation\" WHERE 1=0"@
}

/// A trimmed segment is `SHOW PROCEDURE STATUS ...` or `SHOW FUNCTION STATUS ...`.
pub open spec fn is_show_status(t: Seq<char>) -> bool {
    starts_ci(t, "SHOW PROCEDURE STATUS"@) || starts_ci(t, "SHOW FUNCTION STATUS"@)
}

/// Some piece is a routine-status listing.
pub open spec fn some_show_status(segs: Seq<Seq<char>>) -> bool {
    exists|i: int| 0 <= i < segs.len() && is_show_status(trim(#[trigger] segs[i]))
}

/// The routine-status rewriting of a whole text: when the text holds `show` followed
/// by a space, tab or line feed, and some `;`-separated segment is a routine-status
/// listing, each such segment is replaced by `empty_routines_query()`; otherwise the
/// text is unchanged.
pub open spec fn normalize_show_spec(s: Seq<char>) -> Seq<char> {
    let segs = split_on(s, ';');
    if (contains_ci(s, "SHOW "@) || contains_ci(s, "SHOW\t"@) || contains_ci(s, "SHOW\n"@))
        && some_show_status(segs) {
        join_with(
            Seq::new(
                segs.len(),
                |i: int|
                    if is_show_status(trim(segs[i])) {
                        empty_routines_query()
                    } else {
                        segs[i]
                    },
            ),
            seq![';'],
        )
    } else {
        s
    }
}

fn is_show_status_of(t: &[char]) -> (r: bool)
    ensures
        r == is_show_status(t@),
{
    starts_with_ci(t, &chars_of("SHOW PROCEDURE STATUS")) || starts_with_ci(
        t,
        &chars_of("SHOW FUNCTION STATUS"),
    )
}

/// Applies the routine-status rewriting, as `normalize_show_spec` describes.
pub fn normalize_show_procedure_function(sql: &[char]) -> (r: Vec<char>)
    ensures
        r@ == normalize_show_spec(sql@),
{
    let unchanged = sub_chars(sql, 0, sql.len());
    assert(sql@.subrange(0, sql@.len() as int) =~= sql@);
    if !(contains_chars_ci(sql, &chars_of("SHOW ")) || contains_chars_ci(sql, &chars_of("SHOW\t"))
        || contains_chars_ci(sql, &chars_of("SHOW\n"))) {
        return unchanged;
    }
    let segs = split_chars(sql, ';');
    let ghost pieces = split_on(sql@, ';');
    let mut found = false;
    let mut i: usize = 0;
    while i < segs.len()
        invariant
            i <= segs@.len(),
            texts(segs@) == pieces,
            found == (exists|j: int| 0 <= j < i && is_show_status(trim(#[trigger] pieces[j]))),
        decreases segs@.len() - i,
    {
        assert(segs@[i as int]@ == pieces[i as int]);
        let t = trim_chars(&segs[i]);
        if is_show_status_of(&t) {
            found = true;
        }
        i = i + 1;
    }
    if !found {
        return unchanged;
    }
    let ghost rewritten = Seq::new(
        pieces.len(),
        |k: int|
            if is_show_status(trim(pieces[k])) {
                empty_routines_query()
            } else {
                pieces[k]
            },
    );
    let mut out: Vec<char> = Vec::new();
    let mut k: usize = 0;
    while k < segs.len()
        invariant
            k <= segs@.len(),
            texts(segs@) == pieces,
            rewritten.len() == pieces.len(),
            forall|j: int| 0 <= j < pieces.len() ==> #[trigger] rewritten[j] == (
                if is_show_status(trim(pieces[j])) {
                    empty_routines_query()
                } else {
                    pieces[j]
                }),
            out@ == join_with(rewritten.take(k as int), seq![';']),
        decreases segs@.len() - k,
    {
        assert(segs@[k as int]@ == pieces[k as int]);
        assert(rewritten.take(k + 1).drop_last() =~= rewritten.take(k as int));
        if k > 0 {
            out.push(';');
        }
        let t = trim_chars(&segs[k]);
        if is_show_status_of(&t) {
            let q = chars_of(
                "SELECT '' AS Db, '' AS Name, '' AS Type, '' AS Definer, '' AS Modified, '' AS Created, '' AS Security_type, '' AS Comment, '' AS character_set_client, '' AS collation_connection, '' AS \"Database Collation\" WHERE 1=0",
            );
            append_chars(&mut out, &q);
        } else {
            append_chars(&mut out, &segs[k]);
        }
        k = k + 1;
        assert(out@ =~= join_with(rewritten.take(k as int), seq![';']));
    }
    assert(rewritten.take(segs@.len() as int) =~= rewritten);
    out
}

} // verus!
