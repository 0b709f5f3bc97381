//! SQL text to statements.
//!
//! The text is first normalised (bare `SET` forms that sqlparser rejects get a value,
//! `SHOW PROCEDURE/FUNCTION STATUS` becomes an empty query), checked against size
//! limits, and cut into statements. Statements that sqlparser cannot read are parsed
//! here by hand; the others go to sqlparser (PostgreSQL dialect, or MySQL dialect when
//! the text holds `REPLACE` or `SET NAMES`), and each result is accepted or refused by
//! its kind. The statements come back in the order in which they stand in the text.

use vstd::prelude::*;
use crate::ast::{SqlKind, SqlStatement, Statement, StatementView};
use crate::sql_text::{starts_ci, starts_with_ci, trim, trim_chars, trim_start};
use crate::text::{chars_of, string_of};
use crate::sql_text::{append_chars, has_prefix, sub_chars};
use sqlparser::ast::Statement as SpStatement;

verus! {

/// Largest accepted SQL text, in bytes.
pub const MAX_SQL_LEN: usize = 1048576;

/// Largest accepted number of `OR`/`AND` keywords in one text.
pub const MAX_BINARY_OP_CHAIN: usize = 256;

// ---------------------------------------------------------------------
//  Errors
// ---------------------------------------------------------------------

/// Why a text could not be parsed.
#[derive(Debug, Clone, PartialEq, Eq)]
pub enum ParseError {
    /// sqlparser refused the text.
    SqlParser(String),
    /// The statement is outside what the library supports.
    Unsupported(String),
    /// A data type could not be converted.
    InvalidDataType(String),
    /// A literal value could not be converted.
    InvalidValue(String),
}

/// The view of a parse error.
pub enum ParseErrorView {
    SqlParser(Seq<char>),
    Unsupported(Seq<char>),
    InvalidDataType(Seq<char>),
    InvalidValue(Seq<char>),
}

impl View for ParseError {
    type V = ParseErrorView;

    open spec fn view(&self) -> ParseErrorView {
        match self {
            ParseError::SqlParser(m) => ParseErrorView::SqlParser(m@),
            ParseError::Unsupported(m) => ParseErrorView::Unsupported(m@),
            ParseError::InvalidDataType(m) => ParseErrorView::InvalidDataType(m@),
            ParseError::InvalidValue(m) => ParseErrorView::InvalidValue(m@),
        }
    }
}

/// The text of a parse error as it is shown to users.
pub open spec fn error_text(e: ParseErrorView) -> Seq<char> {
    match e {
        ParseErrorView::SqlParser(m) => "sqlparser error: "@ + m,
        ParseErrorView::Unsupported(m) => "unsupported SQL syntax: "@ + m,
        ParseErrorView::InvalidDataType(m) => "invalid data type: "@ + m,
        ParseErrorView::InvalidValue(m) => "invalid literal value: "@ + m,
    }
}

/// `prefix` followed by `rest`, as a string.
pub fn concat_text(prefix: &str, rest: &[char]) -> (r: String)
    ensures
        r@ == prefix@ + rest@,
{
    let mut v = chars_of(prefix);
    append_chars(&mut v, rest);
    string_of(&v)
}

impl ParseError {
    /// The message shown to users.
    pub fn to_string(&self) -> (r: String)
        ensures
            r@ == error_text(self@),
    {
        match self {
            ParseError::SqlParser(m) => concat_text("sqlparser error: ", &chars_of(m.as_str())),
            ParseError::Unsupported(m) => concat_text(
                "unsupported SQL syntax: ",
                &chars_of(m.as_str()),
            ),
            ParseError::InvalidDataType(m) => concat_text(
                "invalid data type: ",
                &chars_of(m.as_str()),
            ),
            ParseError::InvalidValue(m) => concat_text(
                "invalid literal value: ",
                &chars_of(m.as_str()),
            ),
        }
    }
}

/// An `Unsupported` error whose message is `prefix` followed by `rest`.
pub fn unsupported(prefix: &str, rest: &[char]) -> (r: ParseError)
    ensures
        r@ == ParseErrorView::Unsupported(prefix@ + rest@),
{
    ParseError::Unsupported(concat_text(prefix, rest))
}

/// An `InvalidValue` error whose message is `prefix` followed by `rest`.
pub fn invalid_value(prefix: &str, rest: &[char]) -> (r: ParseError)
    ensures
        r@ == ParseErrorView::InvalidValue(prefix@ + rest@),
{
    ParseError::InvalidValue(concat_text(prefix, rest))
}

// ---------------------------------------------------------------------
//  sqlparser
// ---------------------------------------------------------------------

/// What `sqlparser::parser::Parser::parse_sql` with the PostgreSQL dialect gives for a
/// text: the `Debug` rendering of each statement it read, or the text of its error.
pub uninterp spec fn postgres_parse(sql: Seq<char>) -> Result<Seq<Seq<char>>, Seq<char>>;

/// What `sqlparser::parser::Parser::parse_sql` with the MySQL dialect gives for a text,
/// in the same form as `postgres_parse`.
pub uninterp spec fn mysql_parse(sql: Seq<char>) -> Result<Seq<Seq<char>>, Seq<char>>;

/// A text in which sqlparser 0.53.0 may reach one of its `unwrap`s: `GRANTED BY` in
/// GRANT/REVOKE and `FLUSH RELAY LOGS FOR CHANNEL` need both words of the pair (any
/// case).
pub open spec fn may_panic(sql: Seq<char>) -> bool {
    (crate::sql_text::contains_ci(sql, "GRANTED"@) && crate::sql_text::contains_ci(sql, "BY"@))
        || (crate::sql_text::contains_ci(sql, "RELAY"@) && crate::sql_text::contains_ci(sql, "LOGS"@))
}

/// The statements sqlparser read, each with its `Debug` rendering.
pub type RenderedStatements = Vec<(String, SpStatement)>;

/// The renderings of read statements.
pub open spec fn renderings(v: Seq<(String, SpStatement)>) -> Seq<Seq<char>> {
    Seq::new(v.len(), |i: int| v[i].0@)
}

/// Runs `sqlparser::parser::Parser::parse_sql` with `PostgreSqlDialect`, pairing each
/// statement with its `Debug` rendering. The contract names the renderings, or the
/// error's `to_string`, as `postgres_parse` of `sql`. Texts on which the parser may
/// panic are left out.
#[verifier::external_body]
fn sqlparser_postgres(sql: &str) -> (r: Result<RenderedStatements, String>)
    requires
        !may_panic(sql@),
    ensures
        match r {
            Ok(v) => postgres_parse(sql@) == Ok::<Seq<Seq<char>>, Seq<char>>(renderings(v@)),
            Err(e) => postgres_parse(sql@) == Err::<Seq<Seq<char>>, Seq<char>>(e@),
        },
{
    match sqlparser::parser::Parser::parse_sql(&sqlparser::dialect::PostgreSqlDialect {}, sql) {
        Ok(v) => Ok(v.into_iter().map(|s| (format!("{:?}", s), s)).collect()),
        Err(e) => Err(e.to_string()),
    }
}

/// Runs `sqlparser::parser::Parser::parse_sql` with `MySqlDialect`, as
/// `sqlparser_postgres` does; the result is named `mysql_parse` of `sql`.
#[verifier::external_body]
fn sqlparser_mysql(sql: &str) -> (r: Result<RenderedStatements, String>)
    requires
        !may_panic(sql@),
    ensures
        match r {
            Ok(v) => mysql_parse(sql@) == Ok::<Seq<Seq<char>>, Seq<char>>(renderings(v@)),
            Err(e) => mysql_parse(sql@) == Err::<Seq<Seq<char>>, Seq<char>>(e@),
        },
{
    match sqlparser::parser::Parser::parse_sql(&sqlparser::dialect::MySqlDialect {}, sql) {
        Ok(v) => Ok(v.into_iter().map(|s| (format!("{:?}", s), s)).collect()),
        Err(e) => Err(e.to_string()),
    }
}

/// A character that ends the variant name at the head of a `Debug` rendering.
pub open spec fn ends_name(c: char) -> bool {
    c == '(' || c == ' ' || c == '{'
}

/// The end of the variant name in a rendering, from position `i` on.
pub open spec fn name_end(d: Seq<char>, i: int) -> int
    decreases d.len() - i,
{
    if i < 0 || i >= d.len() {
        d.len() as int
    } else if ends_name(d[i]) {
        i
    } else {
        name_end(d, i + 1)
    }
}

/// The statement's variant name: the head of its rendering up to `(`, ` ` or `{`.
pub open spec fn variant_name(d: Seq<char>) -> Seq<char> {
    d.take(name_end(d, 0))
}

/// A DROP of a table, index, sequence, type or view (the object type is the first field
/// of the rendering).
pub open spec fn drop_accepted(d: Seq<char>) -> bool {
    ||| has_prefix(d, "Drop { object_type: Table,"@)
    ||| has_prefix(d, "Drop { object_type: Index,"@)
    ||| has_prefix(d, "Drop { object_type: Sequence,"@)
    ||| has_prefix(d, "Drop { object_type: Type,"@)
    ||| has_prefix(d, "Drop { object_type: View,"@)
}

/// A CREATE VIEW that is materialized (`materialized` is the second field).
pub open spec fn view_materialized(d: Seq<char>) -> bool {
    has_prefix(d, "CreateView { or_replace: false, materialized: true,"@) || has_prefix(
        d,
        "CreateView { or_replace: true, materialized: true,"@,
    )
}

/// The kind of a sqlparser statement by its rendering: the kinds the library accepts,
/// named by their variant; `Other` for every other variant and for a DROP of another
/// object type.
pub open spec fn debug_kind(d: Seq<char>) -> SqlKind {
    let n = variant_name(d);
    if n == "Query"@ { SqlKind::Query }
    else if n == "Insert"@ { SqlKind::Insert }
    else if n == "Update"@ { SqlKind::Update }
    else if n == "Delete"@ { SqlKind::Delete }
    else if n == "CreateTable"@ { SqlKind::CreateTable }
    else if n == "Drop"@ { if drop_accepted(d) { SqlKind::Drop } else { SqlKind::Other } }
    else if n == "CreateIndex"@ { SqlKind::CreateIndex }
    else if n == "CreateSequence"@ { SqlKind::CreateSequence }
    else if n == "StartTransaction"@ { SqlKind::StartTransaction }
    else if n == "Commit"@ { SqlKind::Commit }
    else if n == "Rollback"@ { SqlKind::Rollback }
    else if n == "Savepoint"@ { SqlKind::Savepoint }
    else if n == "ReleaseSavepoint"@ { SqlKind::ReleaseSavepoint }
    else if n == "SetTransaction"@ { SqlKind::SetTransaction }
    else if n == "Explain"@ { SqlKind::Explain }
    else if n == "Merge"@ { SqlKind::Merge }
    else if n == "Prepare"@ { SqlKind::Prepare }
    else if n == "Execute"@ { SqlKind::Execute }
    else if n == "Deallocate"@ { SqlKind::Deallocate }
    else if n == "CreateType"@ { SqlKind::CreateType }
    else if n == "ShowTables"@ { SqlKind::ShowTables }
    else if n == "ShowCreate"@ { SqlKind::ShowCreate }
    else if n == "ShowVariable"@ { SqlKind::ShowVariable }
    else if n == "SetNames"@ { SqlKind::SetNames }
    else if n == "SetNamesDefault"@ { SqlKind::SetNamesDefault }
    else if n == "SetVariable"@ { SqlKind::SetVariable }
    else if n == "SetTimeZone"@ { SqlKind::SetTimeZone }
    else if n == "SetRole"@ { SqlKind::SetRole }
    else if n == "Copy"@ { SqlKind::Copy }
    else if n == "CreateTrigger"@ { SqlKind::CreateTrigger }
    else if n == "DropTrigger"@ { SqlKind::DropTrigger }
    else if n == "CreateView"@ { SqlKind::CreateView { materialized: view_materialized(d) } }
    else if n == "AlterTable"@ { SqlKind::AlterTable }
    else if n == "Truncate"@ { SqlKind::Truncate }
    else { SqlKind::Other }
}

/// The variant name at the head of a rendering.
fn variant_name_of(d: &[char]) -> (r: Vec<char>)
    ensures
        r@ == variant_name(d@),
{
    let mut i: usize = 0;
    while i < d.len()
        invariant
            i <= d@.len(),
            name_end(d@, 0) == name_end(d@, i as int),
        ensures
            i <= d@.len(),
            name_end(d@, 0) == name_end(d@, i as int),
            i == d@.len() || ends_name(d@[i as int]),
        decreases d@.len() - i,
    {
        if d[i] == '(' || d[i] == ' ' || d[i] == '{' {
            break;
        }
        i = i + 1;
    }
    assert(name_end(d@, i as int) == i as int);
    sub_chars(d, 0, i)
}

/// Whether the rendering starts with `p`.
fn has_head(d: &[char], p: &str) -> (r: bool)
    ensures
        r == has_prefix(d@, p@),
{
    crate::sql_text::starts_with_chars(d, &chars_of(p))
}

/// Whether the name is `w`.
fn named(n: &[char], w: &str) -> (r: bool)
    ensures
        r == (n@ == w@),
{
    crate::sql_text::chars_eq(n, &chars_of(w))
}

/// The kind of a sqlparser statement by its rendering, as `debug_kind` describes.
pub fn statement_kind(d: &[char]) -> (k: SqlKind)
    ensures
        k == debug_kind(d@),
{
    let n = variant_name_of(d);
    if named(&n, "Query") { SqlKind::Query }
    else if named(&n, "Insert") { SqlKind::Insert }
    else if named(&n, "Update") { SqlKind::Update }
    else if named(&n, "Delete") { SqlKind::Delete }
    else if named(&n, "CreateTable") { SqlKind::CreateTable }
    else if named(&n, "Drop") {
        if has_head(d, "Drop { object_type: Table,") || has_head(d, "Drop { object_type: Index,")
            || has_head(d, "Drop { object_type: Sequence,") || has_head(d, "Drop { object_type: Type,")
            || has_head(d, "Drop { object_type: View,") {
            SqlKind::Drop
        } else {
            SqlKind::Other
        }
    }
    else if named(&n, "CreateIndex") { SqlKind::CreateIndex }
    else if named(&n, "CreateSequence") { SqlKind::CreateSequence }
    else if named(&n, "StartTransaction") { SqlKind::StartTransaction }
    else if named(&n, "Commit") { SqlKind::Commit }
    else if named(&n, "Rollback") { SqlKind::Rollback }
    else if named(&n, "Savepoint") { SqlKind::Savepoint }
    else if named(&n, "ReleaseSavepoint") { SqlKind::ReleaseSavepoint }
    else if named(&n, "SetTransaction") { SqlKind::SetTransaction }
    else if named(&n, "Explain") { SqlKind::Explain }
    else if named(&n, "Merge") { SqlKind::Merge }
    else if named(&n, "Prepare") { SqlKind::Prepare }
    else if named(&n, "Execute") { SqlKind::Execute }
    else if named(&n, "Deallocate") { SqlKind::Deallocate }
    else if named(&n, "CreateType") { SqlKind::CreateType }
    else if named(&n, "ShowTables") { SqlKind::ShowTables }
    else if named(&n, "ShowCreate") { SqlKind::ShowCreate }
    else if named(&n, "ShowVariable") { SqlKind::ShowVariable }
    else if named(&n, "SetNames") { SqlKind::SetNames }
    else if named(&n, "SetNamesDefault") { SqlKind::SetNamesDefault }
    else if named(&n, "SetVariable") { SqlKind::SetVariable }
    else if named(&n, "SetTimeZone") { SqlKind::SetTimeZone }
    else if named(&n, "SetRole") { SqlKind::SetRole }
    else if named(&n, "Copy") { SqlKind::Copy }
    else if named(&n, "CreateTrigger") { SqlKind::CreateTrigger }
    else if named(&n, "DropTrigger") { SqlKind::DropTrigger }
    else if named(&n, "CreateView") {
        let m = has_head(d, "CreateView { or_replace: false, materialized: true,")
            || has_head(d, "CreateView { or_replace: true, materialized: true,");
        SqlKind::CreateView { materialized: m }
    }
    else if named(&n, "AlterTable") { SqlKind::AlterTable }
    else if named(&n, "Truncate") { SqlKind::Truncate }
    else { SqlKind::Other }
}

/// The statements sqlparser read, each with its kind, its `Debug` rendering and itself.
pub type ParsedStatements = Vec<(SqlKind, String, SpStatement)>;

/// The kinds and renderings of parsed statements.
pub open spec fn parsed_view(v: Seq<(SqlKind, String, SpStatement)>) -> Seq<(SqlKind, Seq<char>)> {
    Seq::new(v.len(), |i: int| (v[i].0, v[i].1@))
}

/// Each rendering with the kind `debug_kind` gives it.
pub open spec fn kinds_of(ds: Seq<Seq<char>>) -> Seq<(SqlKind, Seq<char>)> {
    Seq::new(ds.len(), |i: int| (debug_kind(ds[i]), ds[i]))
}

/// Tags each read statement with its kind.
fn tag_statements(v: RenderedStatements) -> (r: ParsedStatements)
    ensures
        parsed_view(r@) == kinds_of(renderings(v@)),
{
    let mut rest = v;
    let ghost orig = rest@;
    let mut out: ParsedStatements = Vec::new();
    while rest.len() > 0
        invariant
            out@.len() + rest@.len() == orig.len(),
            rest@ == orig.subrange(out@.len() as int, orig.len() as int),
            forall|j: int| 0 <= j < out@.len() ==> #[trigger] out@[j].0 == debug_kind(orig[j].0@) && out@[j].1@ == orig[j].0@,
        decreases rest@.len(),
    {
        let (d, st) = rest.remove(0);
        let k = statement_kind(&chars_of(d.as_str()));
        out.push((k, d, st));
        assert(rest@ =~= orig.subrange(out@.len() as int, orig.len() as int));
    }
    assert(parsed_view(out@) =~= kinds_of(renderings(orig)));
    out
}

/// The refusal of a sqlparser statement of kind `Other`, naming the statement by its
/// `Debug` rendering.
pub open spec fn refusal_of(debug: Seq<char>) -> ParseErrorView {
    ParseErrorView::Unsupported("unsupported statement: "@ + debug)
}

/// Accepts a sqlparser statement of the given kind, or refuses it when the kind is
/// `Other`, with a message that names the statement.
pub fn accept_statement(kind: SqlKind, debug: String, stmt: SpStatement) -> (r: Result<Statement, ParseError>)
    ensures
        kind != SqlKind::Other ==> (r matches Ok(s) && s@ == (StatementView::Sql {
            kind,
            if_not_exists: false,
            text: debug@,
        })),
        kind == SqlKind::Other ==> (r matches Err(e) && e@ == refusal_of(debug@)),
{
    if kind == SqlKind::Other {
        Err(ParseError::Unsupported(concat_text("unsupported statement: ", &chars_of(debug.as_str()))))
    } else {
        Ok(Statement::Sql(SqlStatement { kind, if_not_exists: false, debug, statement: stmt }))
    }
}

/// Converts one statement that sqlparser read: accepted when its kind is one the
/// library supports, refused otherwise.
pub fn convert_statement(parsed: (SqlKind, String, SpStatement)) -> (r: Result<Statement, ParseError>)
    ensures
        parsed.0 != SqlKind::Other ==> (r matches Ok(s) && s@ == (StatementView::Sql {
            kind: parsed.0,
            if_not_exists: false,
            text: parsed.1@,
        })),
        parsed.0 == SqlKind::Other ==> (r matches Err(e) && e@ == refusal_of(parsed.1@)),
{
    let (kind, debug, stmt) = parsed;
    accept_statement(kind, debug, stmt)
}

/// The refusal sqlparser is spared: the text holds a word on which it may panic.
pub open spec fn guard_message() -> Seq<char> {
    "statements with GRANTED BY or RELAY LOGS are not supported"@
}

/// What sqlparser gives for a text: with the MySQL dialect when `mysql` holds, else
/// with the PostgreSQL dialect; a text on which it may panic is refused beforehand.
pub open spec fn sqlparser_outcome(mysql: bool, text: Seq<char>) -> Result<Seq<(SqlKind, Seq<char>)>, Seq<char>> {
    if may_panic(text) {
        Err(guard_message())
    } else {
        match (if mysql { mysql_parse(text) } else { postgres_parse(text) }) {
            Ok(ds) => Ok(kinds_of(ds)),
            Err(e) => Err(e),
        }
    }
}

/// Runs sqlparser on `text` with the dialect `mysql` chooses.
fn run_sqlparser(mysql: bool, text: &[char]) -> (r: Result<ParsedStatements, String>)
    ensures
        match r {
            Ok(v) => sqlparser_outcome(mysql, text@) == Ok::<Seq<(SqlKind, Seq<char>)>, Seq<char>>(parsed_view(v@)),
            Err(e) => sqlparser_outcome(mysql, text@) == Err::<Seq<(SqlKind, Seq<char>)>, Seq<char>>(e@),
        },
{
    let granted = crate::sql_text::contains_chars_ci(text, &chars_of("GRANTED"))
        && crate::sql_text::contains_chars_ci(text, &chars_of("BY"));
    let relay = crate::sql_text::contains_chars_ci(text, &chars_of("RELAY"))
        && crate::sql_text::contains_chars_ci(text, &chars_of("LOGS"));
    if granted || relay {
        return Err(string_of(&chars_of("statements with GRANTED BY or RELAY LOGS are not supported")));
    }
    let s = string_of(text);
    let read = if mysql {
        sqlparser_mysql(s.as_str())
    } else {
        sqlparser_postgres(s.as_str())
    };
    match read {
        Ok(v) => Ok(tag_statements(v)),
        Err(e) => Err(e),
    }
}

/// The views of a sequence of statements.
pub open spec fn statement_views(v: Seq<Statement>) -> Seq<StatementView> {
    Seq::new(v.len(), |i: int| v[i]@)
}

/// The test that a parsed statement is of kind `Other`.
pub open spec fn is_other() -> spec_fn((SqlKind, Seq<char>)) -> bool {
    |p: (SqlKind, Seq<char>)| p.0 == SqlKind::Other
}

/// What converting the statements sqlparser read gives: the refusal of the first one of
/// kind `Other`, or else every statement with its kind.
pub open spec fn convert_spec(ps: Seq<(SqlKind, Seq<char>)>) -> Result<Seq<StatementView>, ParseErrorView> {
    match crate::assoc::first_where(ps, is_other()) {
        Some(i) => Err(refusal_of(ps[i].1)),
        None => Ok(Seq::new(ps.len(), |i: int| StatementView::Sql { kind: ps[i].0, if_not_exists: false, text: ps[i].1 })),
    }
}

/// Converts every statement sqlparser produced, stopping at the first one refused.
pub fn convert_all(stmts: ParsedStatements) -> (r: Result<Vec<Statement>, ParseError>)
    ensures
        match r {
            Ok(v) => convert_spec(parsed_view(stmts@)) == Ok::<Seq<StatementView>, ParseErrorView>(statement_views(v@)),
            Err(e) => convert_spec(parsed_view(stmts@)) == Err::<Seq<StatementView>, ParseErrorView>(e@),
        },
{
    let ghost ps = parsed_view(stmts@);
    proof { crate::assoc::lemma_first_where(ps, is_other()); }
    let mut rest = stmts;
    let mut out: Vec<Statement> = Vec::new();
    while rest.len() > 0
        invariant
            ps == parsed_view(stmts@),
            out@.len() + rest@.len() == ps.len(),
            parsed_view(rest@) == ps.subrange(out@.len() as int, ps.len() as int),
            forall|k: int| 0 <= k < out@.len() ==> ps[k].0 != SqlKind::Other,
            forall|k: int| 0 <= k < out@.len() ==> #[trigger] out@[k]@ == (StatementView::Sql {
                kind: ps[k].0,
                if_not_exists: false,
                text: ps[k].1,
            }),
        decreases rest@.len(),
    {
        let ghost at = out@.len() as int;
        let ghost before = rest@;
        let first = rest.remove(0);
        assert(ps[at] == parsed_view(before)[0]);
        assert(ps[at] == (first.0, first.1@));
        assert(parsed_view(rest@) =~= parsed_view(before).subrange(1, before.len() as int));
        assert(parsed_view(rest@) =~= ps.subrange(at + 1, ps.len() as int));
        let ghost fk = first.0;
        let ghost fd = first.1@;
        match convert_statement(first) {
            Ok(st) => {
                out.push(st);
            },
            Err(e) => {
                proof {
                    assert(fk == SqlKind::Other);
                    assert(e@ == refusal_of(fd));
                    assert(is_other()(ps[at]));
                    assert forall|k: int| 0 <= k < at implies !is_other()(#[trigger] ps[k]) by {}
                    crate::assoc::lemma_first_where_at(ps, is_other(), at);
                    assert(convert_spec(ps) == Err::<Seq<StatementView>, ParseErrorView>(refusal_of(ps[at].1)));
                }
                return Err(e);
            },
        }
    }
    proof {
        assert forall|k: int| 0 <= k < ps.len() implies !is_other()(#[trigger] ps[k]) by {}
        crate::assoc::lemma_first_where(ps, is_other());
        assert(statement_views(out@) =~= Seq::new(ps.len(), |i: int| StatementView::Sql { kind: ps[i].0, if_not_exists: false, text: ps[i].1 }));
    }
    Ok(out)
}

// ---------------------------------------------------------------------
//  Statement kinds of the text
// ---------------------------------------------------------------------

/// How a statement of the text is parsed.
#[derive(Debug, Clone, Copy, PartialEq, Eq, Structural)]
pub enum SegmentKind {
    /// An empty piece between semicolons.
    Blank,
    /// Read by sqlparser.
    Plain,
    AlterType,
    Flashback,
    Listen,
    Unlisten,
    Notify,
    CreateFunction,
    DropFunction,
    DropMaterializedView,
    RefreshMaterializedView,
    Comment,
    Analyze,
    CreateMaterializedViewIfNotExists,
}

/// `CREATE MATERIALIZED VIEW IF NOT EXISTS ...` (any ASCII case).
pub open spec fn is_create_mv_ine(t: Seq<char>) -> bool {
    starts_ci(t, "CREATE MATERIALIZED VIEW"@) && starts_ci(
        trim_start(t.skip("CREATE MATERIALIZED VIEW"@.len() as int)),
        "IF NOT EXISTS"@,
    )
}

/// The kind of a trimmed statement, by its leading words (any ASCII case).
pub open spec fn segment_kind(t: Seq<char>) -> SegmentKind {
    if t.len() == 0 {
        SegmentKind::Blank
    } else if starts_ci(t, "ALTER TYPE"@) {
        SegmentKind::AlterType
    } else if starts_ci(t, "FLASHBACK"@) {
        SegmentKind::Flashback
    } else if starts_ci(t, "LISTEN"@) {
        SegmentKind::Listen
    } else if starts_ci(t, "UNLISTEN"@) {
        SegmentKind::Unlisten
    } else if starts_ci(t, "NOTIFY"@) {
        SegmentKind::Notify
    } else if starts_ci(t, "CREATE FUNCTION"@) || starts_ci(t, "CREATE OR REPLACE FUNCTION"@) {
        SegmentKind::CreateFunction
    } else if starts_ci(t, "DROP FUNCTION"@) {
        SegmentKind::DropFunction
    } else if starts_ci(t, "DROP MATERIALIZED VIEW"@) {
        SegmentKind::DropMaterializedView
    } else if starts_ci(t, "REFRESH MATERIALIZED VIEW"@) {
        SegmentKind::RefreshMaterializedView
    } else if starts_ci(t, "COMMENT ON"@) {
        SegmentKind::Comment
    } else if starts_ci(t, "ANALYZE"@) {
        SegmentKind::Analyze
    } else if is_create_mv_ine(t) {
        SegmentKind::CreateMaterializedViewIfNotExists
    } else {
        SegmentKind::Plain
    }
}

/// Classifies a trimmed statement, as `segment_kind` describes.
pub fn classify_segment(t: &[char]) -> (k: SegmentKind)
    ensures
        k == segment_kind(t@),
{
    if t.len() == 0 {
        SegmentKind::Blank
    } else if starts_with_ci(t, &chars_of("ALTER TYPE")) {
        SegmentKind::AlterType
    } else if starts_with_ci(t, &chars_of("FLASHBACK")) {
        SegmentKind::Flashback
    } else if starts_with_ci(t, &chars_of("LISTEN")) {
        SegmentKind::Listen
    } else if starts_with_ci(t, &chars_of("UNLISTEN")) {
        SegmentKind::Unlisten
    } else if starts_with_ci(t, &chars_of("NOTIFY")) {
        SegmentKind::Notify
    } else if starts_with_ci(t, &chars_of("CREATE FUNCTION")) || starts_with_ci(
        t,
        &chars_of("CREATE OR REPLACE FUNCTION"),
    ) {
        SegmentKind::CreateFunction
    } else if starts_with_ci(t, &chars_of("DROP FUNCTION")) {
        SegmentKind::DropFunction
    } else if starts_with_ci(t, &chars_of("DROP MATERIALIZED VIEW")) {
        SegmentKind::DropMaterializedView
    } else if starts_with_ci(t, &chars_of("REFRESH MATERIALIZED VIEW")) {
        SegmentKind::RefreshMaterializedView
    } else if starts_with_ci(t, &chars_of("COMMENT ON")) {
        SegmentKind::Comment
    } else if starts_with_ci(t, &chars_of("ANALYZE")) {
        SegmentKind::Analyze
    } else {
        let head = chars_of("CREATE MATERIALIZED VIEW");
        if starts_with_ci(t, &head) {
            let rest = sub_chars(t, head.len(), t.len());
            assert(rest@ =~= t@.skip("CREATE MATERIALIZED VIEW"@.len() as int));
            if starts_with_ci(&crate::sql_text::trim_start_chars(&rest), &chars_of("IF NOT EXISTS")) {
                return SegmentKind::CreateMaterializedViewIfNotExists;
            }
        }
        SegmentKind::Plain
    }
}

/// The order in which the hand-parsed kinds are parsed (and so which error is reported
/// first); 0 for the others.
pub open spec fn kind_rank(k: SegmentKind) -> int {
    match k {
        SegmentKind::AlterType => 1,
        SegmentKind::Flashback => 2,
        SegmentKind::Listen => 3,
        SegmentKind::Unlisten => 4,
        SegmentKind::Notify => 5,
        SegmentKind::CreateFunction => 6,
        SegmentKind::DropFunction => 7,
        SegmentKind::DropMaterializedView => 8,
        SegmentKind::RefreshMaterializedView => 9,
        SegmentKind::CreateMaterializedViewIfNotExists => 10,
        SegmentKind::Comment => 11,
        SegmentKind::Analyze => 12,
        _ => 0,
    }
}

fn kind_rank_of(k: SegmentKind) -> (r: u8)
    ensures
        r as int == kind_rank(k),
{
    match k {
        SegmentKind::AlterType => 1,
        SegmentKind::Flashback => 2,
        SegmentKind::Listen => 3,
        SegmentKind::Unlisten => 4,
        SegmentKind::Notify => 5,
        SegmentKind::CreateFunction => 6,
        SegmentKind::DropFunction => 7,
        SegmentKind::DropMaterializedView => 8,
        SegmentKind::RefreshMaterializedView => 9,
        SegmentKind::CreateMaterializedViewIfNotExists => 10,
        SegmentKind::Comment => 11,
        SegmentKind::Analyze => 12,
        _ => 0,
    }
}

/// What the hand parser of a kind gives for a statement (for the kinds that need no
/// outside parser).
pub open spec fn hand_parse_spec(k: SegmentKind, t: Seq<char>) -> Result<StatementView, ParseErrorView> {
    match k {
        SegmentKind::AlterType => crate::manual::alter_type_spec(t),
        SegmentKind::Flashback => crate::manual::flashback_spec(t),
        SegmentKind::Listen => crate::manual::listen_spec(t),
        SegmentKind::Unlisten => crate::manual::unlisten_spec(t),
        SegmentKind::Notify => crate::manual::notify_spec(t),
        SegmentKind::CreateFunction => crate::create_function::create_function_spec(t),
        SegmentKind::DropFunction => crate::manual::drop_function_spec(t),
        SegmentKind::DropMaterializedView => crate::manual::drop_mv_spec(t),
        SegmentKind::RefreshMaterializedView => crate::manual::refresh_mv_spec(t),
        SegmentKind::Comment => crate::manual::comment_spec(t),
        _ => crate::manual::analyze_spec(t),
    }
}

/// The text handed to sqlparser for `CREATE MATERIALIZED VIEW IF NOT EXISTS ...`: the
/// statement without `IF NOT EXISTS`, or the refusal when it is not of that form.
pub open spec fn mv_ine_text_spec(sql: Seq<char>) -> Result<Seq<char>, ParseErrorView> {
    let t = trim(sql);
    let rest = trim_start(t.skip("CREATE MATERIALIZED VIEW"@.len() as int));
    if !starts_ci(t, "CREATE MATERIALIZED VIEW"@) || !starts_ci(rest, "IF NOT EXISTS"@) {
        Err(
            ParseErrorView::Unsupported(
                "not a CREATE MATERIALIZED VIEW IF NOT EXISTS statement: "@ + sql,
            ),
        )
    } else {
        Ok("CREATE MATERIALIZED VIEW "@ + trim_start(rest.skip("IF NOT EXISTS"@.len() as int)))
    }
}

/// What `CREATE MATERIALIZED VIEW IF NOT EXISTS ...` gives: the refusals fixed by the
/// text and by sqlparser's answer; when sqlparser read one statement, that statement as
/// a materialized view with `IF NOT EXISTS`, or the refusal of a statement of another
/// kind.
pub open spec fn mv_ine_spec(sql: Seq<char>) -> Result<StatementView, ParseErrorView> {
    match mv_ine_text_spec(sql) {
        Err(e) => Err(e),
        Ok(text) => match sqlparser_outcome(false, text) {
            Err(m) => Err(ParseErrorView::SqlParser(m)),
            Ok(ps) => if ps.len() != 1 {
                Err(
                    ParseErrorView::Unsupported(
                        "CREATE MATERIALIZED VIEW IF NOT EXISTS produced "@ + crate::text::decimal(ps.len())
                            + " statements, expected 1: "@ + sql,
                    ),
                )
            } else if ps[0].0 == SqlKind::Other {
                Err(refusal_of(ps[0].1))
            } else if ps[0].0 == (SqlKind::CreateView { materialized: true }) {
                Ok(StatementView::Sql { kind: SqlKind::CreateView { materialized: true }, if_not_exists: true, text: ps[0].1 })
            } else {
                Err(ParseErrorView::Unsupported("expected materialized CreateView, got "@ + ps[0].1 + ": "@ + sql))
            },
        },
    }
}

/// The outcome of `CREATE MATERIALIZED VIEW IF NOT EXISTS ...` is `mv_ine_spec`.
pub open spec fn mv_ine_outcome(sql: Seq<char>, r: Result<StatementView, ParseErrorView>) -> bool {
    r == mv_ine_spec(sql)
}

/// Parses `CREATE MATERIALIZED VIEW IF NOT EXISTS name AS ...`: the statement without
/// `IF NOT EXISTS` goes to sqlparser, which must read one materialized view.
pub fn parse_create_materialized_view_if_not_exists(sql: &[char]) -> (r: Result<Statement, ParseError>)
    ensures
        mv_ine_outcome(
            sql@,
            match r {
                Ok(s) => Ok::<StatementView, ParseErrorView>(s@),
                Err(e) => Err::<StatementView, ParseErrorView>(e@),
            },
        ),
{
    let t = trim_chars(sql);
    let head = chars_of("CREATE MATERIALIZED VIEW");
    let ine = chars_of("IF NOT EXISTS");
    if !starts_with_ci(&t, &head) {
        return Err(unsupported("not a CREATE MATERIALIZED VIEW IF NOT EXISTS statement: ", sql));
    }
    let rest = crate::sql_text::trim_start_chars(&sub_chars(&t, head.len(), t.len()));
    assert(t@.subrange(head@.len() as int, t@.len() as int) =~= t@.skip(
        "CREATE MATERIALIZED VIEW"@.len() as int,
    ));
    if !starts_with_ci(&rest, &ine) {
        return Err(unsupported("not a CREATE MATERIALIZED VIEW IF NOT EXISTS statement: ", sql));
    }
    let after = crate::sql_text::trim_start_chars(&sub_chars(&rest, ine.len(), rest.len()));
    assert(rest@.subrange(ine@.len() as int, rest@.len() as int) =~= rest@.skip(
        "IF NOT EXISTS"@.len() as int,
    ));
    let mut text = chars_of("CREATE MATERIALIZED VIEW ");
    append_chars(&mut text, &after);
    let mut stmts = match run_sqlparser(false, &text) {
        Ok(v) => v,
        Err(m) => return Err(ParseError::SqlParser(m)),
    };
    if stmts.len() != 1 {
        let mut m = chars_of("CREATE MATERIALIZED VIEW IF NOT EXISTS produced ");
        append_chars(&mut m, &crate::text::decimal_chars(stmts.len() as u64));
        append_chars(&mut m, &chars_of(" statements, expected 1: "));
        append_chars(&mut m, sql);
        return Err(ParseError::Unsupported(string_of(&m)));
    }
    let (k, d, first) = stmts.remove(0);
    let dc = crate::text::copy_string(&d);
    match convert_statement((k, d, first)) {
        Err(e) => Err(e),
        Ok(Statement::Sql(mut st)) => {
            if st.kind == (SqlKind::CreateView { materialized: true }) {
                st.if_not_exists = true;
                Ok(Statement::Sql(st))
            } else {
                let mut m = chars_of("expected materialized CreateView, got ");
                append_chars(&mut m, &chars_of(dc.as_str()));
                append_chars(&mut m, &chars_of(": "));
                append_chars(&mut m, sql);
                Err(ParseError::Unsupported(string_of(&m)))
            }
        },
        Ok(_) => {
            proof { assert(false); }
            Err(ParseError::Unsupported(string_of(&chars_of(""))))
        },
    }
}

/// What the hand parser of a kind gives: `hand_parse_spec`, or, for
/// `CREATE MATERIALIZED VIEW IF NOT EXISTS`, `mv_ine_spec`.
pub open spec fn special_spec(k: SegmentKind, t: Seq<char>) -> Result<StatementView, ParseErrorView> {
    if k == SegmentKind::CreateMaterializedViewIfNotExists {
        mv_ine_spec(t)
    } else {
        hand_parse_spec(k, t)
    }
}

/// The outcome of the hand parser of a kind is `special_spec`.
pub open spec fn special_outcome(
    k: SegmentKind,
    t: Seq<char>,
    r: Result<StatementView, ParseErrorView>,
) -> bool {
    r == special_spec(k, t)
}

/// The view of a parse result.
pub open spec fn result_view(r: Result<Statement, ParseError>) -> Result<StatementView, ParseErrorView> {
    match r {
        Ok(s) => Ok(s@),
        Err(e) => Err(e@),
    }
}

/// Parses a statement of a hand-parsed kind.
pub fn parse_special(k: SegmentKind, t: &[char]) -> (r: Result<Statement, ParseError>)
    requires
        kind_rank(k) > 0,
    ensures
        special_outcome(k, t@, result_view(r)),
{
    match k {
        SegmentKind::AlterType => crate::manual::parse_alter_type(t),
        SegmentKind::Flashback => crate::manual::parse_flashback(t),
        SegmentKind::Listen => crate::manual::parse_listen(t),
        SegmentKind::Unlisten => crate::manual::parse_unlisten(t),
        SegmentKind::Notify => crate::manual::parse_notify(t),
        SegmentKind::CreateFunction => crate::create_function::parse_create_function(t),
        SegmentKind::DropFunction => crate::manual::parse_drop_function(t),
        SegmentKind::DropMaterializedView => crate::manual::parse_drop_materialized_view(t),
        SegmentKind::RefreshMaterializedView => crate::manual::parse_refresh_materialized_view(t),
        SegmentKind::Comment => crate::manual::parse_comment(t),
        SegmentKind::CreateMaterializedViewIfNotExists => parse_create_materialized_view_if_not_exists(t),
        _ => crate::manual::parse_analyze(t),
    }
}

// ---------------------------------------------------------------------
//  Size checks and preprocessing
// ---------------------------------------------------------------------

/// The text after the `SET` and routine-status rewritings.
pub open spec fn prepared_text(sql: Seq<char>) -> Seq<char> {
    crate::normalize::normalize_show_spec(crate::normalize::normalize_sets_spec(sql))
}

/// The text to parse, or the refusal: a text over `MAX_SQL_LEN` bytes, or one whose
/// rewritten form holds more than `MAX_BINARY_OP_CHAIN` `OR`/`AND` words.
pub open spec fn prepare_spec(sql: Seq<char>, byte_len: nat) -> Result<Seq<char>, ParseErrorView> {
    if byte_len > MAX_SQL_LEN {
        Err(
            ParseErrorView::Unsupported(
                "SQL too long: "@ + crate::text::decimal(byte_len) + " bytes (max 1048576 bytes)"@,
            ),
        )
    } else {
        let p = prepared_text(sql);
        let c = crate::normalize::op_keyword_count(p, p.len() as int);
        if c > MAX_BINARY_OP_CHAIN {
            Err(
                ParseErrorView::Unsupported(
                    "too many OR/AND operators in SQL: "@ + crate::text::decimal(c)
                        + " (max 256); this is a ADV-BUG-001 protection against stack overflow DoS"@,
                ),
            )
        } else {
            Ok(p)
        }
    }
}

/// Checks the size limits and rewrites the text, as `prepare_spec` describes.
pub fn prepare(sql: &str) -> (r: Result<Vec<char>, ParseError>)
    ensures
        match r {
            Ok(p) => prepare_spec(sql@, sql.len() as nat) == Ok::<Seq<char>, ParseErrorView>(p@),
            Err(e) => prepare_spec(sql@, sql.len() as nat) == Err::<Seq<char>, ParseErrorView>(e@),
        },
{
    let len = sql.len();
    if len > MAX_SQL_LEN {
        let mut m = chars_of("SQL too long: ");
        append_chars(&mut m, &crate::text::decimal_chars(len as u64));
        append_chars(&mut m, &chars_of(" bytes (max 1048576 bytes)"));
        return Err(ParseError::Unsupported(string_of(&m)));
    }
    let chars = chars_of(sql);
    let n1 = crate::normalize::normalize_set_statements(&chars);
    let n2 = crate::normalize::normalize_show_procedure_function(&n1);
    let count = crate::normalize::count_binary_op_keywords(&n2);
    if count > MAX_BINARY_OP_CHAIN {
        let mut m = chars_of("too many OR/AND operators in SQL: ");
        append_chars(&mut m, &crate::text::decimal_chars(count as u64));
        append_chars(
            &mut m,
            &chars_of(" (max 256); this is a ADV-BUG-001 protection against stack overflow DoS"),
        );
        return Err(ParseError::Unsupported(string_of(&m)));
    }
    Ok(n2)
}

// ---------------------------------------------------------------------
//  Statements of the text
// ---------------------------------------------------------------------

/// The statements of the rewritten text, before trimming: cut at every `;`, or, when
/// the text creates or drops a function, at the `;` outside quotes and comments.
pub open spec fn raw_segments(p: Seq<char>) -> Seq<Seq<char>> {
    if crate::split::has_function_ddl(p) {
        crate::split::split_with_dollar_quotes_spec(p)
    } else {
        crate::sql_text::split_on(p, ';')
    }
}

/// The trimmed statements of the rewritten text.
pub open spec fn statement_segments(p: Seq<char>) -> Seq<Seq<char>> {
    Seq::new(raw_segments(p).len(), |i: int| trim(raw_segments(p)[i]))
}

/// The kinds of a list of statements.
pub open spec fn segment_kinds(segs: Seq<Seq<char>>) -> Seq<SegmentKind> {
    Seq::new(segs.len(), |i: int| segment_kind(segs[i]))
}

/// Some statement is parsed by hand.
pub open spec fn has_special(kinds: Seq<SegmentKind>) -> bool {
    exists|i: int| 0 <= i < kinds.len() && kind_rank(#[trigger] kinds[i]) > 0
}

/// The whole text goes to sqlparser at once: it creates or drops no function and no
/// statement is parsed by hand.
pub open spec fn takes_fast_path(p: Seq<char>) -> bool {
    !crate::split::has_function_ddl(p) && !has_special(segment_kinds(statement_segments(p)))
}

/// The statements read by sqlparser, in order.
pub open spec fn plain_segments(segs: Seq<Seq<char>>, kinds: Seq<SegmentKind>) -> Seq<Seq<char>>
    decreases segs.len(),
{
    if segs.len() == 0 || kinds.len() != segs.len() {
        Seq::empty()
    } else {
        let prev = plain_segments(segs.drop_last(), kinds.drop_last());
        if kinds.last() == SegmentKind::Plain {
            prev.push(segs.last())
        } else {
            prev
        }
    }
}

/// The dialect for the statements read by sqlparser: MySQL when one of them holds a
/// `REPLACE` or `SET NAMES` statement.
pub open spec fn plain_dialect(plain: Seq<Seq<char>>) -> bool {
    (exists|j: int| 0 <= j < plain.len() && crate::split::has_replace(#[trigger] plain[j])) || (exists|
        j: int,
    |
        0 <= j < plain.len() && crate::split::has_set_names(#[trigger] plain[j]))
}

/// What can come of sqlparser and the conversion for the statements read by sqlparser:
/// nothing when their text is blank; sqlparser's refusal; or the accepted statements,
/// as many as sqlparser read, unless one is refused.
pub open spec fn plain_outcome(plain: Seq<Seq<char>>, pl: Result<Seq<StatementView>, ParseErrorView>) -> bool {
    let text = crate::sql_text::join_with(plain, "; "@);
    if trim(text).len() == 0 {
        pl == Ok::<Seq<StatementView>, ParseErrorView>(Seq::empty())
    } else {
        match sqlparser_outcome(plain_dialect(plain), text) {
            Err(m) => pl == Err::<Seq<StatementView>, ParseErrorView>(ParseErrorView::SqlParser(m)),
            Ok(ps) => pl == convert_spec(ps),
        }
    }
}

// ---------------------------------------------------------------------
//  Putting the statements together
// ---------------------------------------------------------------------

/// The view of an optional parse result.
pub open spec fn opt_result_view(o: Option<Result<Statement, ParseError>>) -> Option<
    Result<StatementView, ParseErrorView>,
> {
    match o {
        Some(r) => Some(result_view(r)),
        None => None,
    }
}

/// The views of the optional parse results.
pub open spec fn opt_result_views(v: Seq<Option<Result<Statement, ParseError>>>) -> Seq<
    Option<Result<StatementView, ParseErrorView>>,
> {
    Seq::new(v.len(), |i: int| opt_result_view(v[i]))
}

/// The first error among the hand-parsed statements, taking the kinds in rank order
/// and, within a kind, the statements in text order; from rank `r` and position `i` on.
pub open spec fn first_error_from(
    kinds: Seq<SegmentKind>,
    res: Seq<Option<Result<StatementView, ParseErrorView>>>,
    r: int,
    i: int,
) -> Option<ParseErrorView>
    decreases 13 - r, kinds.len() - i,
{
    if r < 1 || r > 12 {
        None
    } else if i < 0 || i >= kinds.len() {
        first_error_from(kinds, res, r + 1, 0)
    } else if kind_rank(kinds[i]) == r && i < res.len() {
        match res[i] {
            Some(Err(e)) => Some(e),
            _ => first_error_from(kinds, res, r, i + 1),
        }
    } else {
        first_error_from(kinds, res, r, i + 1)
    }
}

/// The number of statements read by sqlparser.
pub open spec fn plain_count(kinds: Seq<SegmentKind>) -> nat
    decreases kinds.len(),
{
    if kinds.len() == 0 {
        0
    } else {
        plain_count(kinds.drop_last()) + if kinds.last() == SegmentKind::Plain {
            1nat
        } else {
            0nat
        }
    }
}

/// The statements in text order, from position `i` on, the sqlparser statements being
/// taken from `pv` from index `j` on: blank pieces give nothing, a hand-parsed
/// statement gives its result, a sqlparser statement the next of `pv`.
pub open spec fn merge_from(
    kinds: Seq<SegmentKind>,
    res: Seq<Option<Result<StatementView, ParseErrorView>>>,
    pv: Seq<StatementView>,
    i: int,
    j: int,
) -> Seq<StatementView>
    decreases kinds.len() - i,
{
    if i < 0 || i >= kinds.len() {
        Seq::empty()
    } else if kinds[i] == SegmentKind::Plain {
        if 0 <= j < pv.len() {
            seq![pv[j]] + merge_from(kinds, res, pv, i + 1, j + 1)
        } else {
            merge_from(kinds, res, pv, i + 1, j + 1)
        }
    } else if i < res.len() {
        match res[i] {
            Some(Ok(v)) => seq![v] + merge_from(kinds, res, pv, i + 1, j),
            _ => merge_from(kinds, res, pv, i + 1, j),
        }
    } else {
        merge_from(kinds, res, pv, i + 1, j)
    }
}

/// The result of a text with hand-parsed statements: the first hand-parser error; else
/// the error of the sqlparser part; else a refusal when sqlparser read another number
/// of statements than were given to it; else all statements in text order.
pub open spec fn finish_spec(
    kinds: Seq<SegmentKind>,
    res: Seq<Option<Result<StatementView, ParseErrorView>>>,
    pl: Result<Seq<StatementView>, ParseErrorView>,
) -> Result<Seq<StatementView>, ParseErrorView> {
    match first_error_from(kinds, res, 1, 0) {
        Some(e) => Err(e),
        None => match pl {
            Err(e) => Err(e),
            Ok(pv) => if pv.len() != plain_count(kinds) {
                Err(
                    ParseErrorView::Unsupported(
                        "parse_sql: non-special statement count mismatch (parsed="@
                            + crate::text::decimal(pv.len()) + ", expected="@
                            + crate::text::decimal(plain_count(kinds))
                            + ") \u{2014} possible sqlparser splitting issue"@,
                    ),
                )
            } else {
                Ok(merge_from(kinds, res, pv, 0, 0))
            },
        },
    }
}

/// A copy of an error.
pub fn copy_error(e: &ParseError) -> (r: ParseError)
    ensures
        r@ == e@,
{
    match e {
        ParseError::SqlParser(m) => ParseError::SqlParser(crate::text::copy_string(m)),
        ParseError::Unsupported(m) => ParseError::Unsupported(crate::text::copy_string(m)),
        ParseError::InvalidDataType(m) => ParseError::InvalidDataType(crate::text::copy_string(m)),
        ParseError::InvalidValue(m) => ParseError::InvalidValue(crate::text::copy_string(m)),
    }
}

/// Finds the first hand-parser error, as `first_error_from` describes.
pub fn first_special_error(
    kinds: &Vec<SegmentKind>,
    results: &Vec<Option<Result<Statement, ParseError>>>,
) -> (r: Option<ParseError>)
    ensures
        match r {
            Some(e) => first_error_from(kinds@, opt_result_views(results@), 1, 0) == Some(e@),
            None => first_error_from(kinds@, opt_result_views(results@), 1, 0) is None,
        },
{
    let ghost res = opt_result_views(results@);
    let mut rank: u8 = 1;
    while rank <= 12
        invariant
            1 <= rank <= 13,
            res == opt_result_views(results@),
            first_error_from(kinds@, res, rank as int, 0) == first_error_from(kinds@, res, 1, 0),
        decreases 13 - rank,
    {
        let mut i: usize = 0;
        while i < kinds.len()
            invariant
                1 <= rank <= 12,
                i <= kinds@.len(),
                res == opt_result_views(results@),
                first_error_from(kinds@, res, rank as int, i as int) == first_error_from(
                    kinds@,
                    res,
                    1,
                    0,
                ),
            decreases kinds@.len() - i,
        {
            if kind_rank_of(kinds[i]) == rank && i < results.len() {
                match &results[i] {
                    Some(Err(e)) => {
                        return Some(copy_error(e));
                    },
                    _ => {},
                }
            }
            i = i + 1;
        }
        rank = rank + 1;
    }
    None
}

pub proof fn lemma_plain_count_step(kinds: Seq<SegmentKind>, i: int)
    requires
        0 <= i < kinds.len(),
    ensures
        plain_count(kinds.take(i + 1)) == plain_count(kinds.take(i)) + if kinds[i]
            == SegmentKind::Plain {
            1nat
        } else {
            0nat
        },
{
    assert(kinds.take(i + 1).drop_last() =~= kinds.take(i));
}

pub proof fn lemma_plain_count_mono(kinds: Seq<SegmentKind>, a: int, b: int)
    requires
        0 <= a <= b <= kinds.len(),
    ensures
        plain_count(kinds.take(a)) <= plain_count(kinds.take(b)),
    decreases b - a,
{
    if a < b {
        lemma_plain_count_mono(kinds, a, b - 1);
        lemma_plain_count_step(kinds, b - 1);
    }
}

/// Counts the statements read by sqlparser.
fn plain_count_of(kinds: &Vec<SegmentKind>) -> (c: usize)
    ensures
        c == plain_count(kinds@),
{
    let mut c: usize = 0;
    let mut i: usize = 0;
    while i < kinds.len()
        invariant
            i <= kinds@.len(),
            c == plain_count(kinds@.take(i as int)),
            c <= i,
        decreases kinds@.len() - i,
    {
        assert(kinds@.take(i + 1).drop_last() =~= kinds@.take(i as int));
        if kinds[i] == SegmentKind::Plain {
            c = c + 1;
        }
        i = i + 1;
    }
    assert(kinds@.take(kinds@.len() as int) =~= kinds@);
    c
}

/// Puts the results of a text with hand-parsed statements together, as `finish_spec`
/// describes.
pub fn finish_statements(
    kinds: &Vec<SegmentKind>,
    results: Vec<Option<Result<Statement, ParseError>>>,
    plain: Result<Vec<Statement>, ParseError>,
) -> (r: Result<Vec<Statement>, ParseError>)
    requires
        results@.len() == kinds@.len(),
    ensures
        match r {
            Ok(v) => finish_spec(
                kinds@,
                opt_result_views(results@),
                match plain {
                    Ok(p) => Ok::<Seq<StatementView>, ParseErrorView>(statement_views(p@)),
                    Err(e) => Err::<Seq<StatementView>, ParseErrorView>(e@),
                },
            ) == Ok::<Seq<StatementView>, ParseErrorView>(statement_views(v@)),
            Err(e) => finish_spec(
                kinds@,
                opt_result_views(results@),
                match plain {
                    Ok(p) => Ok::<Seq<StatementView>, ParseErrorView>(statement_views(p@)),
                    Err(e) => Err::<Seq<StatementView>, ParseErrorView>(e@),
                },
            ) == Err::<Seq<StatementView>, ParseErrorView>(e@),
        },
{
    if let Some(e) = first_special_error(kinds, &results) {
        return Err(e);
    }
    let mut pv = match plain {
        Ok(p) => p,
        Err(e) => return Err(e),
    };
    let expected = plain_count_of(kinds);
    if pv.len() != expected {
        let mut m = chars_of("parse_sql: non-special statement count mismatch (parsed=");
        append_chars(&mut m, &crate::text::decimal_chars(pv.len() as u64));
        append_chars(&mut m, &chars_of(", expected="));
        append_chars(&mut m, &crate::text::decimal_chars(expected as u64));
        append_chars(&mut m, &chars_of(") \u{2014} possible sqlparser splitting issue"));
        return Err(ParseError::Unsupported(string_of(&m)));
    }
    let ghost res = opt_result_views(results@);
    let ghost all_pv = statement_views(pv@);
    let mut results = results;
    let mut out: Vec<Statement> = Vec::new();
    let mut i: usize = 0;
    let mut j: usize = 0;
    proof {
        assert(kinds@.take(0) =~= Seq::<SegmentKind>::empty());
        assert(statement_views(pv@).skip(0) =~= all_pv);
        assert(res.skip(0) =~= res);
        assert(statement_views(out@) =~= Seq::<StatementView>::empty());
    }
    while i < kinds.len()
        invariant
            i <= kinds@.len(),
            res.len() == kinds@.len(),
            results@.len() + i == res.len(),
            opt_result_views(results@) == res.skip(i as int),
            all_pv.len() == plain_count(kinds@),
            all_pv.len() <= usize::MAX,
            j == plain_count(kinds@.take(i as int)),
            j <= all_pv.len(),
            statement_views(pv@) == all_pv.skip(j as int),
            statement_views(out@) + merge_from(kinds@, res, all_pv, i as int, j as int)
                == merge_from(kinds@, res, all_pv, 0, 0),
        decreases kinds@.len() - i,
    {
        proof {
            lemma_plain_count_step(kinds@, i as int);
            lemma_plain_count_mono(kinds@, i + 1, kinds@.len() as int);
            assert(kinds@.take(kinds@.len() as int) =~= kinds@);
        }
        let ghost rv = results@;
        proof {
            assert(opt_result_views(rv)[0] == res.skip(i as int)[0]);
        }
        let item = results.remove(0);
        proof {
            assert(item == rv[0]);
            assert(opt_result_view(item) == res[i as int]);
            assert forall|k: int| 0 <= k < results@.len() implies #[trigger] opt_result_views(
                results@,
            )[k] == res.skip(i + 1)[k] by {
                assert(results@[k] == rv[k + 1]);
                assert(opt_result_views(rv)[k + 1] == res.skip(i as int)[k + 1]);
            }
            assert(opt_result_views(results@) =~= res.skip(i + 1));
        }
        let ghost before = statement_views(out@);
        if kinds[i] == SegmentKind::Plain {
            assert(plain_count(kinds@.take(i + 1)) == j + 1);
            assert(j + 1 <= all_pv.len());
            assert(statement_views(pv@).len() == pv@.len());
            assert(pv@.len() == all_pv.len() - j);
            let ghost pvv = pv@;
            let st = pv.remove(0);
            assert(st == pvv[0]);
            assert(statement_views(pvv)[0] == all_pv.skip(j as int)[0]);
            assert(st@ == all_pv[j as int]);
            out.push(st);
            assert(statement_views(out@) =~= before.push(all_pv[j as int]));
            assert forall|k: int| 0 <= k < pv@.len() implies #[trigger] statement_views(pv@)[k]
                == all_pv.skip(j + 1)[k] by {
                assert(pv@[k] == pvv[k + 1]);
                assert(statement_views(pvv)[k + 1] == all_pv.skip(j as int)[k + 1]);
            }
            assert(statement_views(pv@) =~= all_pv.skip(j + 1));
            assert(statement_views(out@) + merge_from(kinds@, res, all_pv, i + 1, j + 1)
                =~= before + merge_from(kinds@, res, all_pv, i as int, j as int));
            j = j + 1;
        } else {
            match item {
                Some(Ok(st)) => {
                    out.push(st);
                    assert(statement_views(out@) =~= before.push(st@));
                    assert(statement_views(out@) + merge_from(kinds@, res, all_pv, i + 1, j as int)
                        =~= before + merge_from(kinds@, res, all_pv, i as int, j as int));
                },
                _ => {},
            }
        }
        i = i + 1;
    }
    assert(merge_from(kinds@, res, all_pv, i as int, j as int) =~= Seq::<StatementView>::empty());
    assert(statement_views(out@) =~= statement_views(out@) + Seq::<StatementView>::empty());
    Ok(out)
}


// ---------------------------------------------------------------------
//  Text order
// ---------------------------------------------------------------------

/// The number of statements among the pieces: those that are not blank.
pub open spec fn stmt_count(kinds: Seq<SegmentKind>) -> nat
    decreases kinds.len(),
{
    if kinds.len() == 0 {
        0
    } else {
        stmt_count(kinds.drop_last()) + if kinds.last() != SegmentKind::Blank {
            1nat
        } else {
            0nat
        }
    }
}

/// The statement that the piece `q` gives: the next sqlparser statement, or the result
/// of its hand parser.
pub open spec fn piece_statement(
    kinds: Seq<SegmentKind>,
    res: Seq<Option<Result<StatementView, ParseErrorView>>>,
    pv: Seq<StatementView>,
    q: int,
) -> StatementView {
    if kinds[q] == SegmentKind::Plain {
        pv[plain_count(kinds.take(q)) as int]
    } else {
        match res[q] {
            Some(Ok(v)) => v,
            _ => arbitrary(),
        }
    }
}

/// Every hand-parsed piece was parsed.
pub open spec fn hand_parsed_ok(
    kinds: Seq<SegmentKind>,
    res: Seq<Option<Result<StatementView, ParseErrorView>>>,
) -> bool {
    &&& res.len() == kinds.len()
    &&& forall|q: int|
        0 <= q < kinds.len() && kinds[q] != SegmentKind::Blank && kinds[q] != SegmentKind::Plain
            ==> (#[trigger] res[q] matches Some(Ok(_)))
    &&& forall|q: int| 0 <= q < kinds.len() && kinds[q] == SegmentKind::Blank ==> (#[trigger] res[q]) is None
}

proof fn lemma_stmt_count_step(kinds: Seq<SegmentKind>, i: int)
    requires
        0 <= i < kinds.len(),
    ensures
        stmt_count(kinds.take(i + 1)) == stmt_count(kinds.take(i)) + if kinds[i] != SegmentKind::Blank {
            1nat
        } else {
            0nat
        },
{
    assert(kinds.take(i + 1).drop_last() =~= kinds.take(i));
}

proof fn lemma_stmt_count_mono(kinds: Seq<SegmentKind>, a: int, b: int)
    requires
        0 <= a <= b <= kinds.len(),
    ensures
        stmt_count(kinds.take(a)) <= stmt_count(kinds.take(b)),
        stmt_count(kinds.take(b)) - stmt_count(kinds.take(a)) <= b - a,
    decreases b - a,
{
    if a < b {
        lemma_stmt_count_mono(kinds, a, b - 1);
        lemma_stmt_count_step(kinds, b - 1);
    }
}

/// One step of `merge_from`: a blank piece gives nothing, any other its statement.
proof fn lemma_merge_step(
    kinds: Seq<SegmentKind>,
    res: Seq<Option<Result<StatementView, ParseErrorView>>>,
    pv: Seq<StatementView>,
    i: int,
)
    requires
        0 <= i < kinds.len(),
        hand_parsed_ok(kinds, res),
        pv.len() == plain_count(kinds),
    ensures
        merge_from(kinds, res, pv, i, plain_count(kinds.take(i)) as int) == if kinds[i]
            == SegmentKind::Blank {
            merge_from(kinds, res, pv, i + 1, plain_count(kinds.take(i + 1)) as int)
        } else {
            seq![piece_statement(kinds, res, pv, i)] + merge_from(
                kinds,
                res,
                pv,
                i + 1,
                plain_count(kinds.take(i + 1)) as int,
            )
        },
{
    lemma_plain_count_step(kinds, i);
    lemma_plain_count_mono(kinds, i + 1, kinds.len() as int);
    assert(kinds.take(kinds.len() as int) =~= kinds);
    if kinds[i] == SegmentKind::Blank {
        assert(res[i] is None);
    } else if kinds[i] != SegmentKind::Plain {
        assert(res[i] matches Some(Ok(_)));
    }
}

/// `merge_from` from piece `i` on gives the statements of the pieces from `i` on, in
/// order.
#[verifier::rlimit(40)]
proof fn lemma_merge_order(
    kinds: Seq<SegmentKind>,
    res: Seq<Option<Result<StatementView, ParseErrorView>>>,
    pv: Seq<StatementView>,
    i: int,
)
    requires
        0 <= i <= kinds.len(),
        hand_parsed_ok(kinds, res),
        pv.len() == plain_count(kinds),
    ensures
        merge_from(kinds, res, pv, i, plain_count(kinds.take(i)) as int).len() == stmt_count(kinds)
            - stmt_count(kinds.take(i)),
        forall|q: int|
            i <= q < kinds.len() && kinds[q] != SegmentKind::Blank ==> merge_from(
                kinds,
                res,
                pv,
                i,
                plain_count(kinds.take(i)) as int,
            )[stmt_count(kinds.take(q)) - stmt_count(kinds.take(i))] == #[trigger] piece_statement(
                kinds,
                res,
                pv,
                q,
            ),
    decreases kinds.len() - i,
{
    assert(kinds.take(kinds.len() as int) =~= kinds);
    if i < kinds.len() {
        lemma_merge_step(kinds, res, pv, i);
        lemma_stmt_count_step(kinds, i);
        lemma_stmt_count_mono(kinds, i + 1, kinds.len() as int);
        lemma_merge_order(kinds, res, pv, i + 1);
        let m = merge_from(kinds, res, pv, i, plain_count(kinds.take(i)) as int);
        let m2 = merge_from(kinds, res, pv, i + 1, plain_count(kinds.take(i + 1)) as int);
        let s0 = stmt_count(kinds.take(i));
        let s1 = stmt_count(kinds.take(i + 1));
        assert(forall|k: int| 0 <= k < m2.len() ==> m[k + (s1 - s0)] == m2[k]);
        assert forall|q: int|
            i <= q < kinds.len() && kinds[q] != SegmentKind::Blank implies m[stmt_count(kinds.take(q))
                - s0] == #[trigger] piece_statement(kinds, res, pv, q) by {
            if q > i {
                lemma_stmt_count_mono(kinds, i + 1, q);
                lemma_stmt_count_step(kinds, q);
                lemma_stmt_count_mono(kinds, q + 1, kinds.len() as int);
                let k = stmt_count(kinds.take(q)) - s1;
                assert(m[k + (s1 - s0)] == m2[k]);
            }
        }
    }
}

/// When no hand parser failed and sqlparser read every statement given to it, the
/// statements come back in text order: one for each piece that is not blank, the
/// statement of the `n`-th such piece at position `n`.
pub proof fn law_statements_in_text_order(
    segs: Seq<Seq<char>>,
    kinds: Seq<SegmentKind>,
    res: Seq<Option<Result<StatementView, ParseErrorView>>>,
    pv: Seq<StatementView>,
)
    requires
        special_results_fit(segs, kinds, res),
        first_error_from(kinds, res, 1, 0) is None,
        pv.len() == plain_count(kinds),
    ensures
        finish_spec(kinds, res, Ok(pv)) matches Ok(m) && m.len() == stmt_count(kinds) && forall|q: int|
            0 <= q < kinds.len() && kinds[q] != SegmentKind::Blank ==> m[stmt_count(kinds.take(q)) as int]
                == piece_statement(kinds, res, pv, q),
{
    lemma_no_hand_error(kinds, res, 1, 0);
    assert forall|q: int|
        0 <= q < kinds.len() && kinds[q] != SegmentKind::Blank && kinds[q] != SegmentKind::Plain
            implies (#[trigger] res[q] matches Some(Ok(_))) by {
        assert(kind_rank(kinds[q]) > 0);
    }
    assert(kinds.take(0) =~= Seq::<SegmentKind>::empty());
    lemma_merge_order(kinds, res, pv, 0);
}

/// No error from rank `r` and position `i` on means that no hand parser of those ranks
/// and positions failed.
proof fn lemma_no_hand_error(
    kinds: Seq<SegmentKind>,
    res: Seq<Option<Result<StatementView, ParseErrorView>>>,
    r: int,
    i: int,
)
    requires
        1 <= r,
        0 <= i,
        first_error_from(kinds, res, r, i) is None,
    ensures
        forall|q: int|
            0 <= q < kinds.len() && q < res.len() && ((kind_rank(kinds[q]) == r && q >= i) || (r
                < kind_rank(kinds[q]) <= 12)) ==> !(#[trigger] res[q] matches Some(Err(_))),
    decreases 13 - r, kinds.len() - i,
{
    if r > 12 {
    } else if i >= kinds.len() {
        lemma_no_hand_error(kinds, res, r + 1, 0);
    } else {
        lemma_no_hand_error(kinds, res, r, i + 1);
    }
}

// ---------------------------------------------------------------------
//  Entry points
// ---------------------------------------------------------------------

/// The view of a list result.
pub open spec fn results_view(r: Result<Vec<Statement>, ParseError>) -> Result<
    Seq<StatementView>,
    ParseErrorView,
> {
    match r {
        Ok(v) => Ok(statement_views(v@)),
        Err(e) => Err(e@),
    }
}

/// `res` holds, for each hand-parsed statement, an outcome its parser can give, and
/// nothing for the others.
pub open spec fn special_results_fit(
    segs: Seq<Seq<char>>,
    kinds: Seq<SegmentKind>,
    res: Seq<Option<Result<StatementView, ParseErrorView>>>,
) -> bool {
    &&& res.len() == segs.len()
    &&& kinds.len() == segs.len()
    &&& forall|i: int|
        0 <= i < segs.len() ==> {
            &&& kind_rank(#[trigger] kinds[i]) > 0 ==> (res[i] is Some && special_outcome(
                kinds[i],
                segs[i],
                res[i]->0,
            ))
            &&& kind_rank(kinds[i]) == 0 ==> res[i] is None
        }
}

/// What `parse_sql` can give for a text of `byte_len` bytes.
///
/// - Too long a text, or too many `OR`/`AND` words: the refusal of `prepare_spec`.
/// - No hand-parsed statement and no function DDL: the rewritten text goes to sqlparser
///   (MySQL dialect when it holds `REPLACE` or `SET NAMES`); its refusal is returned as
///   `SqlParser`, else its statements, each accepted or refused by kind.
/// - Otherwise: each hand-parsed statement gives what its parser gives; the others,
///   joined with `"; "`, go to sqlparser (when not blank); the result is `finish_spec`
///   of these: the first hand-parser error, the sqlparser error, a count mismatch, or
///   every statement in text order.
pub open spec fn parse_outcome(
    sql: Seq<char>,
    byte_len: nat,
    r: Result<Seq<StatementView>, ParseErrorView>,
) -> bool {
    match prepare_spec(sql, byte_len) {
        Err(e) => r == Err::<Seq<StatementView>, ParseErrorView>(e),
        Ok(p) => if takes_fast_path(p) {
            match sqlparser_outcome(
                crate::split::has_replace(p) || crate::split::has_set_names(p),
                p,
            ) {
                Err(m) => r == Err::<Seq<StatementView>, ParseErrorView>(
                    ParseErrorView::SqlParser(m),
                ),
                Ok(ps) => r == convert_spec(ps),
            }
        } else {
            let segs = statement_segments(p);
            let kinds = segment_kinds(segs);
            exists|
                res: Seq<Option<Result<StatementView, ParseErrorView>>>,
                pl: Result<Seq<StatementView>, ParseErrorView>,
            |
                #![trigger finish_spec(kinds, res, pl)]
                special_results_fit(segs, kinds, res) && (first_error_from(kinds, res, 1, 0) is None
                    ==> plain_outcome(plain_segments(segs, kinds), pl)) && r == finish_spec(
                    kinds,
                    res,
                    pl,
                )
        },
    }
}

/// The parts joined with `"; "` between consecutive ones.
fn join_statements(v: &Vec<Vec<char>>) -> (r: Vec<char>)
    ensures
        r@ == crate::sql_text::join_with(crate::manual::texts_of(v@), "; "@),
{
    let sep = chars_of("; ");
    let ghost tv = crate::manual::texts_of(v@);
    let mut out: Vec<char> = Vec::new();
    let mut i: usize = 0;
    while i < v.len()
        invariant
            i <= v@.len(),
            tv == crate::manual::texts_of(v@),
            sep@ == "; "@,
            out@ == crate::sql_text::join_with(tv.take(i as int), "; "@),
        decreases v@.len() - i,
    {
        assert(tv.take(i + 1).drop_last() =~= tv.take(i as int));
        assert(tv[i as int] == v@[i as int]@);
        if i > 0 {
            append_chars(&mut out, &sep);
        }
        append_chars(&mut out, &v[i]);
        i = i + 1;
        assert(out@ =~= crate::sql_text::join_with(tv.take(i as int), "; "@));
    }
    assert(tv.take(v@.len() as int) =~= tv);
    out
}

/// Parses SQL text into statements, as `parse_outcome` describes.
pub fn parse_sql(sql: &str) -> (r: Result<Vec<Statement>, ParseError>)
    ensures
        parse_outcome(sql@, sql.len() as nat, results_view(r)),
{
    let p = match prepare(sql) {
        Ok(p) => p,
        Err(e) => return Err(e),
    };
    let has_fn = crate::split::contains_function_ddl(&p);
    let raw = if has_fn {
        crate::split::split_sql_statements_with_dollar_quotes(&p)
    } else {
        crate::sql_text::split_chars(&p, ';')
    };
    let ghost rs = raw_segments(p@);
    assert(crate::sql_text::texts(raw@) == rs);
    let ghost segs_v = statement_segments(p@);
    let ghost kinds_v = segment_kinds(segs_v);
    let mut segs: Vec<Vec<char>> = Vec::new();
    let mut kinds: Vec<SegmentKind> = Vec::new();
    let mut special = false;
    let mut i: usize = 0;
    while i < raw.len()
        invariant
            i <= raw@.len(),
            rs == crate::sql_text::texts(raw@),
            rs.len() == segs_v.len(),
            segs_v == statement_segments(p@),
            kinds_v == segment_kinds(segs_v),
            segs_v == Seq::new(rs.len(), |k: int| trim(rs[k])),
            crate::manual::texts_of(segs@) == segs_v.take(i as int),
            kinds@ == kinds_v.take(i as int),
            special == (exists|k: int| 0 <= k < i && kind_rank(#[trigger] kinds_v[k]) > 0),
        decreases raw@.len() - i,
    {
        assert(rs[i as int] == raw@[i as int]@);
        let t = trim_chars(&raw[i]);
        let k = classify_segment(&t);
        assert(segs_v[i as int] == t@);
        assert(kinds_v[i as int] == k);
        let ghost before = crate::manual::texts_of(segs@);
        segs.push(t);
        kinds.push(k);
        assert(crate::manual::texts_of(segs@) =~= before.push(t@));
        assert(crate::manual::texts_of(segs@) =~= segs_v.take(i + 1));
        assert(kinds@ =~= kinds_v.take(i + 1));
        if kind_rank_of(k) > 0 {
            special = true;
        }
        proof {
            if special && kind_rank(k) == 0 {
                let w = choose|w: int| 0 <= w < i && kind_rank(#[trigger] kinds_v[w]) > 0;
                assert(0 <= w < i + 1 && kind_rank(kinds_v[w]) > 0);
            }
        }
        i = i + 1;
    }
    assert(crate::manual::texts_of(segs@) =~= segs_v);
    assert(kinds@ =~= kinds_v);
    if !has_fn && !special {
        assert(takes_fast_path(p@));
        let mysql = crate::split::contains_replace_statement(&p)
            || crate::split::contains_set_names_statement(&p);
        return match run_sqlparser(mysql, &p) {
            Err(m) => Err(ParseError::SqlParser(m)),
            Ok(v) => convert_all(v),
        };
    }
    assert(!takes_fast_path(p@));
    // Hand-parsed statements.
    let mut results: Vec<Option<Result<Statement, ParseError>>> = Vec::new();
    let mut j: usize = 0;
    while j < segs.len()
        invariant
            j <= segs@.len(),
            segs@.len() == kinds@.len(),
            crate::manual::texts_of(segs@) == segs_v,
            kinds@ == kinds_v,
            results@.len() == j,
            forall|k: int|
                0 <= k < j ==> {
                    &&& kind_rank(#[trigger] kinds_v[k]) > 0 ==> (opt_result_views(results@)[k] is Some
                        && special_outcome(kinds_v[k], segs_v[k], opt_result_views(results@)[k]->0))
                    &&& kind_rank(kinds_v[k]) == 0 ==> opt_result_views(results@)[k] is None
                },
        decreases segs@.len() - j,
    {
        assert(segs_v[j as int] == segs@[j as int]@);
        let ghost before = opt_result_views(results@);
        if kind_rank_of(kinds[j]) > 0 {
            let r0 = parse_special(kinds[j], &segs[j]);
            results.push(Some(r0));
        } else {
            results.push(None);
        }
        assert(opt_result_views(results@).drop_last() =~= before);
        j = j + 1;
    }
    let ghost res_v = opt_result_views(results@);
    assert(special_results_fit(segs_v, kinds_v, res_v));
    if let Some(e) = first_special_error(&kinds, &results) {
        let ghost pl: Result<Seq<StatementView>, ParseErrorView> = Ok(Seq::empty());
        assert(finish_spec(kinds_v, res_v, pl) == Err::<Seq<StatementView>, ParseErrorView>(e@));
        return Err(e);
    }
    // Statements read by sqlparser.
    let mut plain: Vec<Vec<char>> = Vec::new();
    let mut mysql = false;
    let mut m: usize = 0;
    while m < segs.len()
        invariant
            m <= segs@.len(),
            segs@.len() == kinds@.len(),
            crate::manual::texts_of(segs@) == segs_v,
            kinds@ == kinds_v,
            segs_v.len() == kinds_v.len(),
            crate::manual::texts_of(plain@) == plain_segments(segs_v.take(m as int), kinds_v.take(m as int)),
            mysql == plain_dialect(crate::manual::texts_of(plain@)),
        decreases segs@.len() - m,
    {
        assert(segs_v[m as int] == segs@[m as int]@);
        assert(segs_v.take(m + 1).drop_last() =~= segs_v.take(m as int));
        assert(kinds_v.take(m + 1).drop_last() =~= kinds_v.take(m as int));
        if kinds[m] == SegmentKind::Plain {
            let ghost before = crate::manual::texts_of(plain@);
            let piece = sub_chars(&segs[m], 0, segs[m].len());
            assert(segs@[m as int]@.subrange(0, segs@[m as int]@.len() as int) =~= segs@[m as int]@);
            let hit = crate::split::contains_replace_statement(&piece)
                || crate::split::contains_set_names_statement(&piece);
            plain.push(piece);
            let ghost now = crate::manual::texts_of(plain@);
            assert(now =~= before.push(segs_v[m as int]));
            proof {
                if hit {
                    let jj = before.len() as int;
                    assert(now[jj] == segs_v[m as int]);
                    if crate::split::has_replace(now[jj]) {
                        assert(exists|x: int| 0 <= x < now.len() && crate::split::has_replace(#[trigger] now[x]));
                    } else {
                        assert(exists|x: int| 0 <= x < now.len() && crate::split::has_set_names(#[trigger] now[x]));
                    }
                }
                assert forall|x: int| 0 <= x < before.len() implies #[trigger] now[x] == before[x] by {}
                if plain_dialect(before) {
                    if exists|x: int| 0 <= x < before.len() && crate::split::has_replace(#[trigger] before[x]) {
                        let x = choose|x: int| 0 <= x < before.len() && crate::split::has_replace(#[trigger] before[x]);
                        assert(now[x] == before[x]);
                    } else {
                        let x = choose|x: int| 0 <= x < before.len() && crate::split::has_set_names(#[trigger] before[x]);
                        assert(now[x] == before[x]);
                    }
                }
                if plain_dialect(now) && !hit {
                    if exists|x: int| 0 <= x < now.len() && crate::split::has_replace(#[trigger] now[x]) {
                        let x = choose|x: int| 0 <= x < now.len() && crate::split::has_replace(#[trigger] now[x]);
                        assert(x < before.len());
                        assert(now[x] == before[x]);
                    } else {
                        let x = choose|x: int| 0 <= x < now.len() && crate::split::has_set_names(#[trigger] now[x]);
                        assert(x < before.len());
                        assert(now[x] == before[x]);
                    }
                }
            }
            mysql = mysql || hit;
        }
        m = m + 1;
    }
    assert(segs_v.take(segs_v.len() as int) =~= segs_v);
    assert(kinds_v.take(kinds_v.len() as int) =~= kinds_v);
    let text = join_statements(&plain);
    let pl = if trim_chars(&text).len() == 0 {
        Ok(Vec::new())
    } else {
        match run_sqlparser(mysql, &text) {
            Err(msg) => Err(ParseError::SqlParser(msg)),
            Ok(v) => convert_all(v),
        }
    };
    let ghost pl_v = results_view(pl);
    proof {
        if trim(text@).len() == 0 {
            assert(statement_views(Seq::<Statement>::empty()) =~= Seq::<StatementView>::empty());
        }
    }
    assert(plain_outcome(plain_segments(segs_v, kinds_v), pl_v));
    let r = finish_statements(&kinds, results, pl);
    assert(results_view(r) == finish_spec(kinds_v, res_v, pl_v));
    r
}

/// A text has one outcome: two results that `parse_outcome` admits for the same text
/// are equal.
pub proof fn law_parse_outcome_unique(
    sql: Seq<char>,
    byte_len: nat,
    r1: Result<Seq<StatementView>, ParseErrorView>,
    r2: Result<Seq<StatementView>, ParseErrorView>,
)
    requires
        parse_outcome(sql, byte_len, r1),
        parse_outcome(sql, byte_len, r2),
    ensures
        r1 == r2,
{
    match prepare_spec(sql, byte_len) {
        Err(_) => {},
        Ok(p) => if !takes_fast_path(p) {
            let segs = statement_segments(p);
            let kinds = segment_kinds(segs);
            let (res1, pl1) = choose|
                res: Seq<Option<Result<StatementView, ParseErrorView>>>,
                pl: Result<Seq<StatementView>, ParseErrorView>,
            |
                #![trigger finish_spec(kinds, res, pl)]
                special_results_fit(segs, kinds, res) && (first_error_from(kinds, res, 1, 0) is None
                    ==> plain_outcome(plain_segments(segs, kinds), pl)) && r1 == finish_spec(kinds, res, pl);
            let (res2, pl2) = choose|
                res: Seq<Option<Result<StatementView, ParseErrorView>>>,
                pl: Result<Seq<StatementView>, ParseErrorView>,
            |
                #![trigger finish_spec(kinds, res, pl)]
                special_results_fit(segs, kinds, res) && (first_error_from(kinds, res, 1, 0) is None
                    ==> plain_outcome(plain_segments(segs, kinds), pl)) && r2 == finish_spec(kinds, res, pl);
            assert(res1 =~= res2) by {
                assert forall|i: int| 0 <= i < res1.len() implies res1[i] == res2[i] by {
                    if kind_rank(kinds[i]) > 0 {
                        assert(res1[i]->0 == special_spec(kinds[i], segs[i]));
                        assert(res2[i]->0 == special_spec(kinds[i], segs[i]));
                    }
                }
            }
        },
    }
}

/// What `parse_one` gives when `parse_sql` gives `all`: the one statement, the refusal
/// of another number of statements, or the error of `parse_sql`.
pub open spec fn one_of(all: Result<Seq<StatementView>, ParseErrorView>) -> Result<StatementView, ParseErrorView> {
    match all {
        Err(e) => Err(e),
        Ok(v) => if v.len() == 1 {
            Ok(v[0])
        } else {
            Err(ParseErrorView::Unsupported("expected 1 statement, got "@ + crate::text::decimal(v.len())))
        },
    }
}

/// What `parse_single_statement` gives when `parse_sql` gives `all`: the one statement,
/// the refusal of none or of several, or the error of `parse_sql`.
pub open spec fn single_of(all: Result<Seq<StatementView>, ParseErrorView>) -> Result<StatementView, ParseErrorView> {
    match all {
        Err(e) => Err(e),
        Ok(v) => if v.len() == 0 {
            Err(ParseErrorView::Unsupported("empty SQL statement"@))
        } else if v.len() > 1 {
            Err(
                ParseErrorView::Unsupported(
                    "multi-statement SQL not allowed in single-statement mode (ADV-BUG-002 protection): got "@
                        + crate::text::decimal(v.len()) + " statements"@,
                ),
            )
        } else {
            Ok(v[0])
        },
    }
}

/// `parse_one` and `parse_single_statement` agree with `parse_sql` on the same text:
/// whatever `parse_sql` gives (`all`), they give `one_of(all)` and `single_of(all)`.
pub proof fn law_single_parsers_agree(
    sql: Seq<char>,
    byte_len: nat,
    all: Result<Seq<StatementView>, ParseErrorView>,
    one: Result<StatementView, ParseErrorView>,
    single: Result<StatementView, ParseErrorView>,
)
    requires
        parse_outcome(sql, byte_len, all),
        exists|a: Result<Seq<StatementView>, ParseErrorView>|
            #![trigger parse_outcome(sql, byte_len, a)]
            parse_outcome(sql, byte_len, a) && one == one_of(a),
        exists|a: Result<Seq<StatementView>, ParseErrorView>|
            #![trigger parse_outcome(sql, byte_len, a)]
            parse_outcome(sql, byte_len, a) && single == single_of(a),
    ensures
        one == one_of(all),
        single == single_of(all),
{
    let a1 = choose|a: Result<Seq<StatementView>, ParseErrorView>|
        #![trigger parse_outcome(sql, byte_len, a)]
        parse_outcome(sql, byte_len, a) && one == one_of(a);
    let a2 = choose|a: Result<Seq<StatementView>, ParseErrorView>|
        #![trigger parse_outcome(sql, byte_len, a)]
        parse_outcome(sql, byte_len, a) && single == single_of(a);
    law_parse_outcome_unique(sql, byte_len, all, a1);
    law_parse_outcome_unique(sql, byte_len, all, a2);
}

/// Parses a text that must hold exactly one statement.
pub fn parse_one(sql: &str) -> (r: Result<Statement, ParseError>)
    ensures
        exists|all: Result<Seq<StatementView>, ParseErrorView>|
            #![trigger parse_outcome(sql@, sql.len() as nat, all)]
            parse_outcome(sql@, sql.len() as nat, all) && result_view(r) == one_of(all),
{
    let stmts = match parse_sql(sql) {
        Ok(v) => v,
        Err(e) => return Err(e),
    };
    let ghost all = statement_views(stmts@);
    if stmts.len() != 1 {
        let mut m = chars_of("expected 1 statement, got ");
        append_chars(&mut m, &crate::text::decimal_chars(stmts.len() as u64));
        return Err(ParseError::Unsupported(string_of(&m)));
    }
    let mut stmts = stmts;
    let s = stmts.remove(0);
    assert(all[0] == s@);
    Ok(s)
}

/// Whether a statement is empty. No statement the parser produces is.
fn is_empty_statement(stmt: &Statement) -> (r: bool)
    ensures
        !r,
{
    false
}

/// Parses a text for single-statement execution: exactly one (non-empty) statement is
/// accepted; none, or more than one, is refused.
pub fn parse_single_statement(sql: &str) -> (r: Result<Statement, ParseError>)
    ensures
        exists|all: Result<Seq<StatementView>, ParseErrorView>|
            #![trigger parse_outcome(sql@, sql.len() as nat, all)]
            parse_outcome(sql@, sql.len() as nat, all) && result_view(r) == single_of(all),
{
    let stmts = match parse_sql(sql) {
        Ok(v) => v,
        Err(e) => return Err(e),
    };
    let ghost all = statement_views(stmts@);
    let mut count: usize = 0;
    let mut i: usize = 0;
    while i < stmts.len()
        invariant
            i <= stmts@.len(),
            count == i,
        decreases stmts@.len() - i,
    {
        if !is_empty_statement(&stmts[i]) {
            count = count + 1;
        }
        i = i + 1;
    }
    if count == 0 {
        return Err(ParseError::Unsupported(string_of(&chars_of("empty SQL statement"))));
    }
    if count > 1 {
        let mut m = chars_of(
            "multi-statement SQL not allowed in single-statement mode (ADV-BUG-002 protection): got ",
        );
        append_chars(&mut m, &crate::text::decimal_chars(count as u64));
        append_chars(&mut m, &chars_of(" statements"));
        return Err(ParseError::Unsupported(string_of(&m)));
    }
    let mut stmts = stmts;
    let s = stmts.remove(0);
    assert(all[0] == s@);
    Ok(s)
}

} // verus!
