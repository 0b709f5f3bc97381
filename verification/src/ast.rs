//! The statements that the parser produces.
//!
//! Statements that sqlparser understands are kept as sqlparser produced them, together
//! with the kind of statement they are; the statements that the parser recognises by
//! hand (ALTER TYPE, FLASHBACK, LISTEN/UNLISTEN/NOTIFY, ANALYZE, CREATE/DROP FUNCTION,
//! DROP/REFRESH MATERIALIZED VIEW, COMMENT ON) have variants of their own.

use vstd::prelude::*;
use crate::text::{chars_of, copy_string};
use crate::sql_text::append_chars;
use sqlparser::ast::Statement as SpStatement;

verus! {

/// The statement type of sqlparser, carried through unchanged.
#[verifier::external_type_specification]
#[verifier::external_body]
pub struct ExSqlparserStatement(SpStatement);

// ---------------------------------------------------------------------
//  TableName
// ---------------------------------------------------------------------

/// A possibly schema-qualified object name.
#[derive(Debug, Clone, PartialEq, Eq)]
pub struct TableName {
    /// Schema, when the name was qualified.
    pub schema: Option<String>,
    /// Object name.
    pub name: String,
}

/// The view of a table name.
pub struct TableNameView {
    pub schema: Option<Seq<char>>,
    pub name: Seq<char>,
}

impl View for TableName {
    type V = TableNameView;

    open spec fn view(&self) -> TableNameView {
        TableNameView {
            schema: match self.schema {
                Some(s) => Some(s@),
                None => None,
            },
            name: self.name@,
        }
    }
}

/// The views of a sequence of table names.
pub open spec fn table_name_views(v: Seq<TableName>) -> Seq<TableNameView> {
    Seq::new(v.len(), |i: int| v[i]@)
}

/// The unqualified name `name`.
pub open spec fn plain_name(name: Seq<char>) -> TableNameView {
    TableNameView { schema: None, name }
}

/// The name `name` in schema `schema`.
pub open spec fn schema_name(schema: Seq<char>, name: Seq<char>) -> TableNameView {
    TableNameView { schema: Some(schema), name }
}

/// `schema.name`, or `name` when there is no schema.
pub open spec fn qualified_text(t: TableNameView) -> Seq<char> {
    match t.schema {
        Some(s) => s + seq!['.'] + t.name,
        None => t.name,
    }
}

impl TableName {
    /// An unqualified name.
    pub fn new(name: &str) -> (r: TableName)
        ensures
            r@ == plain_name(name@),
    {
        TableName { schema: None, name: name.to_owned() }
    }

    /// A name in the given schema.
    pub fn with_schema(schema: &str, name: &str) -> (r: TableName)
        ensures
            r@ == schema_name(schema@, name@),
    {
        TableName { schema: Some(schema.to_owned()), name: name.to_owned() }
    }

    /// `schema.name`, or `name` for an unqualified name.
    pub fn qualified_name(&self) -> (r: String)
        ensures
            r@ == qualified_text(self@),
    {
        match &self.schema {
            Some(s) => {
                let mut out: Vec<char> = chars_of(s.as_str());
                out.push('.');
                let n = chars_of(self.name.as_str());
                append_chars(&mut out, &n);
                proof {
                    assert(out@ =~= qualified_text(self@));
                }
                crate::text::string_of(&out)
            },
            None => copy_string(&self.name),
        }
    }

    /// A copy of this name.
    pub fn duplicate(&self) -> (r: TableName)
        ensures
            r@ == self@,
    {
        TableName {
            schema: match &self.schema {
                Some(s) => Some(copy_string(s)),
                None => None,
            },
            name: copy_string(&self.name),
        }
    }
}

/// Builds a table name from its parts as character sequences.
pub fn table_name_of(schema: Option<&[char]>, name: &[char]) -> (r: TableName)
    ensures
        r@ == (TableNameView {
            schema: match schema {
                Some(s) => Some(s@),
                None => None,
            },
            name: name@,
        }),
{
    TableName {
        schema: match schema {
            Some(s) => Some(crate::text::string_of(s)),
            None => None,
        },
        name: crate::text::string_of(name),
    }
}

// ---------------------------------------------------------------------
//  Hand-parsed statement details
// ---------------------------------------------------------------------

/// The object a COMMENT ON statement annotates.
#[derive(Debug, Clone, Copy, PartialEq, Eq, Structural)]
pub enum CommentObjectType {
    Table,
    Column,
}

/// What an ALTER TYPE statement does to an enum type.
#[derive(Debug, Clone, PartialEq, Eq)]
pub enum AlterTypeAction {
    /// `ADD VALUE [IF NOT EXISTS] 'value'`
    AddValue { value: String, if_not_exists: bool },
    /// `RENAME VALUE 'old' TO 'new'`
    RenameValue { old: String, new: String },
    /// `RENAME TO new_name`
    Rename { new_name: TableName },
}

/// The view of an ALTER TYPE action.
pub enum AlterTypeActionView {
    AddValue { value: Seq<char>, if_not_exists: bool },
    RenameValue { old: Seq<char>, new: Seq<char> },
    Rename { new_name: TableNameView },
}

impl View for AlterTypeAction {
    type V = AlterTypeActionView;

    open spec fn view(&self) -> AlterTypeActionView {
        match self {
            AlterTypeAction::AddValue { value, if_not_exists } => AlterTypeActionView::AddValue {
                value: value@,
                if_not_exists: *if_not_exists,
            },
            AlterTypeAction::RenameValue { old, new } => AlterTypeActionView::RenameValue {
                old: old@,
                new: new@,
            },
            AlterTypeAction::Rename { new_name } => AlterTypeActionView::Rename {
                new_name: new_name@,
            },
        }
    }
}

/// How a function parameter passes its value.
#[derive(Debug, Clone, Copy, PartialEq, Eq, Structural)]
pub enum FunctionArgMode {
    In,
    Out,
    InOut,
    Variadic,
}

/// How a function's result depends on its arguments and the database.
#[derive(Debug, Clone, Copy, PartialEq, Eq, Structural)]
pub enum FunctionVolatility {
    Immutable,
    Stable,
    Volatile,
}

/// One parameter of a CREATE FUNCTION statement.
#[derive(Debug, Clone, PartialEq, Eq)]
pub struct FunctionParameter {
    /// `IN`, `OUT`, `INOUT` or `VARIADIC`, when given.
    pub mode: Option<FunctionArgMode>,
    /// Parameter name, when given.
    pub name: Option<String>,
    /// Type text.
    pub data_type: String,
    /// Default expression text, when given.
    pub default_expr: Option<String>,
}

/// The view of a function parameter.
pub struct FunctionParameterView {
    pub mode: Option<FunctionArgMode>,
    pub name: Option<Seq<char>>,
    pub data_type: Seq<char>,
    pub default_expr: Option<Seq<char>>,
}

impl View for FunctionParameter {
    type V = FunctionParameterView;

    open spec fn view(&self) -> FunctionParameterView {
        FunctionParameterView {
            mode: self.mode,
            name: opt_text(self.name),
            data_type: self.data_type@,
            default_expr: opt_text(self.default_expr),
        }
    }
}

/// The views of a sequence of function parameters.
pub open spec fn parameter_views(v: Seq<FunctionParameter>) -> Seq<FunctionParameterView> {
    Seq::new(v.len(), |i: int| v[i]@)
}

// ---------------------------------------------------------------------
//  Statements parsed by sqlparser
// ---------------------------------------------------------------------

/// The kinds of sqlparser statement that the library accepts, and `Other` for the rest.
#[derive(Debug, Clone, Copy, PartialEq, Eq, Structural)]
pub enum SqlKind {
    Query,
    Insert,
    Update,
    Delete,
    CreateTable,
    Drop,
    CreateIndex,
    CreateSequence,
    StartTransaction,
    Commit,
    Rollback,
    Savepoint,
    ReleaseSavepoint,
    SetTransaction,
    Explain,
    Merge,
    Prepare,
    Execute,
    Deallocate,
    CreateType,
    ShowTables,
    ShowCreate,
    ShowVariable,
    SetNames,
    SetNamesDefault,
    SetVariable,
    SetTimeZone,
    SetRole,
    Copy,
    CreateTrigger,
    DropTrigger,
    /// CREATE VIEW, with whether the view is materialized.
    CreateView { materialized: bool },
    AlterTable,
    Truncate,
    /// Any statement that the library does not accept.
    Other,
}

/// A statement as sqlparser produced it.
#[derive(Debug, PartialEq)]
pub struct SqlStatement {
    /// What kind of statement it is.
    pub kind: SqlKind,
    /// Set for `CREATE MATERIALIZED VIEW IF NOT EXISTS`, whose `IF NOT EXISTS` is taken
    /// out before sqlparser reads the statement.
    pub if_not_exists: bool,
    /// The statement as its `Debug` rendering shows it.
    pub debug: String,
    /// The statement itself.
    pub statement: SpStatement,
}

/// Copies a sqlparser statement with its `Clone` (derived in sqlparser). Nothing is
/// stated of the copy: Verus sees nothing inside the statement.
#[verifier::external_body]
fn clone_statement(s: &SpStatement) -> SpStatement {
    s.clone()
}

impl Clone for SqlStatement {
    /// A copy: the same kind, flag and rendering, and a clone of the sqlparser statement.
    fn clone(&self) -> (r: Self)
        ensures
            r.kind == self.kind,
            r.if_not_exists == self.if_not_exists,
            r.debug@ == self.debug@,
    {
        SqlStatement {
            kind: self.kind,
            if_not_exists: self.if_not_exists,
            debug: copy_string(&self.debug),
            statement: clone_statement(&self.statement),
        }
    }
}

// ---------------------------------------------------------------------
//  Statement
// ---------------------------------------------------------------------

/// A parsed SQL statement.
#[derive(Debug, Clone, PartialEq)]
pub enum Statement {
    /// `ALTER TYPE name ...`
    AlterType { name: TableName, action: AlterTypeAction },
    /// `FLASHBACK TRANSACTION txn_id`
    FlashbackTransaction { txn_id: u64 },
    /// `FLASHBACK TABLE name TO TIMESTAMP 'ts'`
    FlashbackTable { table: TableName, timestamp: String },
    /// `LISTEN channel`
    Listen { channel: String },
    /// `UNLISTEN channel` or `UNLISTEN *`
    Unlisten { channel: String },
    /// `NOTIFY channel [, 'payload']`
    Notify { channel: String, payload: String },
    /// `ANALYZE [VERBOSE] [table [, ...]]`
    Analyze { tables: Vec<TableName>, verbose: bool },
    /// `CREATE [OR REPLACE] FUNCTION name (params) ...`
    CreateFunction {
        name: String,
        parameters: Vec<FunctionParameter>,
        return_type: String,
        language: String,
        body: String,
        or_replace: bool,
        volatility: Option<FunctionVolatility>,
        strict: bool,
        security_definer: bool,
    },
    /// `DROP FUNCTION [IF EXISTS] name [(types)] [CASCADE]`
    DropFunction { name: String, parameter_types: Vec<String>, if_exists: bool, cascade: bool },
    /// `DROP MATERIALIZED VIEW [IF EXISTS] names [CASCADE | RESTRICT]`
    DropView { names: Vec<TableName>, if_exists: bool, cascade: bool, materialized: bool },
    /// `REFRESH MATERIALIZED VIEW [CONCURRENTLY] name [WITH [NO] DATA]`
    RefreshMaterializedView { name: TableName, with_data: bool },
    /// `COMMENT ON TABLE name IS ...` or `COMMENT ON COLUMN table.column IS ...`
    Comment {
        object_type: CommentObjectType,
        object_name: TableName,
        column_name: Option<String>,
        comment: Option<String>,
    },
    /// A statement that sqlparser read.
    Sql(SqlStatement),
}

/// The view of an optional string.
pub open spec fn opt_text(o: Option<String>) -> Option<Seq<char>> {
    match o {
        Some(s) => Some(s@),
        None => None,
    }
}

/// The views of a sequence of strings.
pub open spec fn string_views(v: Seq<String>) -> Seq<Seq<char>> {
    Seq::new(v.len(), |i: int| v[i]@)
}

/// The view of a statement.
pub enum StatementView {
    AlterType { name: TableNameView, action: AlterTypeActionView },
    FlashbackTransaction { txn_id: u64 },
    FlashbackTable { table: TableNameView, timestamp: Seq<char> },
    Listen { channel: Seq<char> },
    Unlisten { channel: Seq<char> },
    Notify { channel: Seq<char>, payload: Seq<char> },
    Analyze { tables: Seq<TableNameView>, verbose: bool },
    CreateFunction {
        name: Seq<char>,
        parameters: Seq<FunctionParameterView>,
        return_type: Seq<char>,
        language: Seq<char>,
        body: Seq<char>,
        or_replace: bool,
        volatility: Option<FunctionVolatility>,
        strict: bool,
        security_definer: bool,
    },
    DropFunction {
        name: Seq<char>,
        parameter_types: Seq<Seq<char>>,
        if_exists: bool,
        cascade: bool,
    },
    DropView { names: Seq<TableNameView>, if_exists: bool, cascade: bool, materialized: bool },
    RefreshMaterializedView { name: TableNameView, with_data: bool },
    Comment {
        object_type: CommentObjectType,
        object_name: TableNameView,
        column_name: Option<Seq<char>>,
        comment: Option<Seq<char>>,
    },
    Sql { kind: SqlKind, if_not_exists: bool, text: Seq<char> },
}

impl View for Statement {
    type V = StatementView;

    open spec fn view(&self) -> StatementView {
        match self {
            Statement::AlterType { name, action } => StatementView::AlterType {
                name: name@,
                action: action@,
            },
            Statement::FlashbackTransaction { txn_id } => StatementView::FlashbackTransaction {
                txn_id: *txn_id,
            },
            Statement::FlashbackTable { table, timestamp } => StatementView::FlashbackTable {
                table: table@,
                timestamp: timestamp@,
            },
            Statement::Listen { channel } => StatementView::Listen { channel: channel@ },
            Statement::Unlisten { channel } => StatementView::Unlisten { channel: channel@ },
            Statement::Notify { channel, payload } => StatementView::Notify {
                channel: channel@,
                payload: payload@,
            },
            Statement::Analyze { tables, verbose } => StatementView::Analyze {
                tables: table_name_views(tables@),
                verbose: *verbose,
            },
            Statement::CreateFunction {
                name,
                parameters,
                return_type,
                language,
                body,
                or_replace,
                volatility,
                strict,
                security_definer,
            } => StatementView::CreateFunction {
                name: name@,
                parameters: parameter_views(parameters@),
                return_type: return_type@,
                language: language@,
                body: body@,
                or_replace: *or_replace,
                volatility: *volatility,
                strict: *strict,
                security_definer: *security_definer,
            },
            Statement::DropFunction { name, parameter_types, if_exists, cascade } =>
                StatementView::DropFunction {
                name: name@,
                parameter_types: string_views(parameter_types@),
                if_exists: *if_exists,
                cascade: *cascade,
            },
            Statement::DropView { names, if_exists, cascade, materialized } =>
                StatementView::DropView {
                names: table_name_views(names@),
                if_exists: *if_exists,
                cascade: *cascade,
                materialized: *materialized,
            },
            Statement::RefreshMaterializedView { name, with_data } =>
                StatementView::RefreshMaterializedView { name: name@, with_data: *with_data },
            Statement::Comment { object_type, object_name, column_name, comment } =>
                StatementView::Comment {
                object_type: *object_type,
                object_name: object_name@,
                column_name: opt_text(*column_name),
                comment: opt_text(*comment),
            },
            Statement::Sql(s) => StatementView::Sql {
                kind: s.kind,
                if_not_exists: s.if_not_exists,
                text: s.debug@,
            },
        }
    }
}


// ---------------------------------------------------------------------
//  Catalog definitions
// ---------------------------------------------------------------------

/// A column of a table as the catalog records it: its name, its type as written, and
/// whether it belongs to the primary key.
#[derive(Debug, Clone, PartialEq, Eq)]
pub struct ColumnDefinition {
    /// Column name.
    pub name: String,
    /// Type text.
    pub data_type: String,
    /// Part of the primary key.
    pub primary_key: bool,
}

/// The view of a column definition.
pub struct ColumnDefinitionView {
    pub name: Seq<char>,
    pub data_type: Seq<char>,
    pub primary_key: bool,
}

impl View for ColumnDefinition {
    type V = ColumnDefinitionView;

    open spec fn view(&self) -> ColumnDefinitionView {
        ColumnDefinitionView {
            name: self.name@,
            data_type: self.data_type@,
            primary_key: self.primary_key,
        }
    }
}

/// The views of a sequence of column definitions.
pub open spec fn column_views(v: Seq<ColumnDefinition>) -> Seq<ColumnDefinitionView> {
    Seq::new(v.len(), |i: int| v[i]@)
}

impl ColumnDefinition {
    /// A column that is not part of the primary key.
    pub fn new(name: &str, data_type: &str) -> (r: ColumnDefinition)
        ensures
            r@ == (ColumnDefinitionView { name: name@, data_type: data_type@, primary_key: false }),
    {
        ColumnDefinition { name: name.to_owned(), data_type: data_type.to_owned(), primary_key: false }
    }

    /// A copy of this column.
    pub fn duplicate(&self) -> (r: ColumnDefinition)
        ensures
            r@ == self@,
    {
        ColumnDefinition {
            name: copy_string(&self.name),
            data_type: copy_string(&self.data_type),
            primary_key: self.primary_key,
        }
    }
}

/// What a foreign key does when the referenced row is deleted or updated.
#[derive(Debug, Clone, Copy, PartialEq, Eq, Structural)]
pub enum ReferenceAction {
    NoAction,
    Restrict,
    Cascade,
    SetNull,
    SetDefault,
}

/// The referenced side of a foreign key.
#[derive(Debug, Clone, PartialEq, Eq)]
pub struct ForeignKeyReference {
    /// Referenced table.
    pub table: TableName,
    /// Referenced columns; `None` stands for the referenced table's primary key.
    pub columns: Option<Vec<String>>,
    /// ON DELETE action, when given.
    pub on_delete: Option<ReferenceAction>,
    /// ON UPDATE action, when given.
    pub on_update: Option<ReferenceAction>,
}

/// The view of a foreign key reference.
pub struct ForeignKeyReferenceView {
    pub table: TableNameView,
    pub columns: Option<Seq<Seq<char>>>,
    pub on_delete: Option<ReferenceAction>,
    pub on_update: Option<ReferenceAction>,
}

impl View for ForeignKeyReference {
    type V = ForeignKeyReferenceView;

    open spec fn view(&self) -> ForeignKeyReferenceView {
        ForeignKeyReferenceView {
            table: self.table@,
            columns: match self.columns {
                Some(c) => Some(string_views(c@)),
                None => None,
            },
            on_delete: self.on_delete,
            on_update: self.on_update,
        }
    }
}

/// A column of an index: its name and its ordering.
#[derive(Debug, Clone, PartialEq, Eq)]
pub struct IndexColumn {
    /// Indexed column.
    pub column: String,
    /// Ascending order.
    pub asc: bool,
    /// NULLs sort first.
    pub nulls_first: bool,
}

} // verus!
