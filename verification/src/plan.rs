//! The catalog that planning consults: tables, sequences, enum types, foreign keys,
//! indexes, comments and functions, each looked up by a lower-cased key; and the
//! errors of planning.
//!
//! A table-like object is keyed by `schema.name` in lower case, with `public` for an
//! unqualified name; a column comment by that key, a dot and the lower-cased column
//! name; a function by its lower-cased name.

use vstd::prelude::*;
use crate::ast::{
    column_views, opt_text, qualified_text, string_views, ColumnDefinition, ColumnDefinitionView,
    ForeignKeyReference, ForeignKeyReferenceView, FunctionParameter, FunctionVolatility, IndexColumn,
    ReferenceAction, TableName, TableNameView,
};
use crate::assoc::{
    assoc_insert, assoc_remove, entries_view, find_key, insert_key, key_index, lemma_insert,
    first_where, lemma_first_where, lemma_first_where_at, lemma_lists_push,
    lemma_lists_update, lemma_entries_update, lemma_key_index, lemma_key_index_of_unique, lemma_lists_keys, lemma_remove, lemma_update_keeps_unique, list_at, lists_view,
    append_key, keys_of, lookup, put_list, remove_key, take_list, swap_value, unique_keys, assoc_append,
};
use crate::sql_text::{char_upper, trim, trim_chars, upper};
use crate::text::{chars_of, copy_string, decimal, push_char, push_decimal, push_str};

verus! {

// ---------------------------------------------------------------------
//  Errors
// ---------------------------------------------------------------------

/// An error of planning.
#[derive(Debug, Clone, PartialEq, Eq)]
pub enum PlanError {
    /// The table does not exist.
    TableNotFound(String),
    /// The column does not exist.
    ColumnNotFound(String),
    /// More than one table has a column of that name.
    AmbiguousColumn(String),
    /// An INSERT names a different number of columns than it gives values.
    ColumnCountMismatch { expected: usize, actual: usize },
    /// The SQL feature is not supported.
    Unsupported(String),
    /// The expression is not valid.
    InvalidExpression(String),
    /// The table exists already.
    TableAlreadyExists(String),
}

/// The view of a planning error.
pub enum PlanErrorView {
    TableNotFound(Seq<char>),
    ColumnNotFound(Seq<char>),
    AmbiguousColumn(Seq<char>),
    ColumnCountMismatch { expected: nat, actual: nat },
    Unsupported(Seq<char>),
    InvalidExpression(Seq<char>),
    TableAlreadyExists(Seq<char>),
}

impl View for PlanError {
    type V = PlanErrorView;

    open spec fn view(&self) -> PlanErrorView {
        match self {
            PlanError::TableNotFound(m) => PlanErrorView::TableNotFound(m@),
            PlanError::ColumnNotFound(m) => PlanErrorView::ColumnNotFound(m@),
            PlanError::AmbiguousColumn(m) => PlanErrorView::AmbiguousColumn(m@),
            PlanError::ColumnCountMismatch { expected, actual } =>
                PlanErrorView::ColumnCountMismatch {
                expected: *expected as nat,
                actual: *actual as nat,
            },
            PlanError::Unsupported(m) => PlanErrorView::Unsupported(m@),
            PlanError::InvalidExpression(m) => PlanErrorView::InvalidExpression(m@),
            PlanError::TableAlreadyExists(m) => PlanErrorView::TableAlreadyExists(m@),
        }
    }
}

/// The message of a planning error.
pub open spec fn plan_error_text(e: PlanErrorView) -> Seq<char> {
    match e {
        PlanErrorView::TableNotFound(m) => "table not found: "@ + m,
        PlanErrorView::ColumnNotFound(m) => "column not found: "@ + m,
        PlanErrorView::AmbiguousColumn(m) => "ambiguous column: "@ + m,
        PlanErrorView::ColumnCountMismatch { expected, actual } => "column count mismatch: expected "@
            + decimal(expected) + ", got "@ + decimal(actual),
        PlanErrorView::Unsupported(m) => "unsupported SQL feature: "@ + m,
        PlanErrorView::InvalidExpression(m) => "invalid expression: "@ + m,
        PlanErrorView::TableAlreadyExists(m) => "table already exists: "@ + m,
    }
}

/// `prefix` followed by `rest`.
fn prefixed(prefix: &str, rest: &String) -> (r: String)
    ensures
        r@ == prefix@ + rest@,
{
    let mut out = prefix.to_owned();
    push_str(&mut out, rest.as_str());
    out
}

impl PlanError {
    /// The message shown to users.
    pub fn to_string(&self) -> (r: String)
        ensures
            r@ == plan_error_text(self@),
    {
        match self {
            PlanError::TableNotFound(m) => prefixed("table not found: ", m),
            PlanError::ColumnNotFound(m) => prefixed("column not found: ", m),
            PlanError::AmbiguousColumn(m) => prefixed("ambiguous column: ", m),
            PlanError::ColumnCountMismatch { expected, actual } => {
                let mut out = "column count mismatch: expected ".to_owned();
                let e: u64 = *expected as u64;
                let a: u64 = *actual as u64;
                push_decimal(&mut out, e);
                push_str(&mut out, ", got ");
                push_decimal(&mut out, a);
                out
            },
            PlanError::Unsupported(m) => prefixed("unsupported SQL feature: ", m),
            PlanError::InvalidExpression(m) => prefixed("invalid expression: ", m),
            PlanError::TableAlreadyExists(m) => prefixed("table already exists: ", m),
        }
    }
}

/// A column-count error placed at an INSERT row: an `InvalidExpression` that names the
/// row; any other error unchanged.
pub open spec fn with_row(e: PlanErrorView, row: nat) -> PlanErrorView {
    match e {
        PlanErrorView::ColumnCountMismatch { expected, actual } => PlanErrorView::InvalidExpression(
            "row "@ + decimal(row) + ": column count mismatch (expected "@ + decimal(expected)
                + ", got "@ + decimal(actual) + ")"@,
        ),
        other => other,
    }
}

impl PlanError {
    /// The error as met at the given row of an INSERT, as `with_row` describes.
    pub fn into_error_with_row(self, row: usize) -> (r: PlanError)
        ensures
            r@ == with_row(self@, row as nat),
    {
        match self {
            PlanError::ColumnCountMismatch { expected, actual } => {
                let mut out = "row ".to_owned();
                push_decimal(&mut out, row as u64);
                push_str(&mut out, ": column count mismatch (expected ");
                push_decimal(&mut out, expected as u64);
                push_str(&mut out, ", got ");
                push_decimal(&mut out, actual as u64);
                push_str(&mut out, ")");
                PlanError::InvalidExpression(out)
            },
            other => other,
        }
    }
}

// ---------------------------------------------------------------------
//  Keys
// ---------------------------------------------------------------------

/// What `str::to_lowercase` gives for a text: its Unicode lower-case mapping.
pub uninterp spec fn lowercase(s: Seq<char>) -> Seq<char>;

/// Every character is ASCII.
pub open spec fn is_ascii_text(s: Seq<char>) -> bool {
    forall|i: int| 0 <= i < s.len() ==> (#[trigger] s[i] as u32) < 128
}

/// The ASCII lower case of `c`; other characters are unchanged.
pub open spec fn ascii_lower(c: char) -> char {
    if 'A' <= c && c <= 'Z' {
        ((c as u32) + 32) as char
    } else {
        c
    }
}

/// The ASCII lower case of every character.
pub open spec fn ascii_lower_seq(s: Seq<char>) -> Seq<char> {
    Seq::new(s.len(), |i: int| ascii_lower(s[i]))
}

/// Lower-cases a text with `str::to_lowercase`. The contract names the result, and
/// states what std documents for ASCII text: `A`-`Z` become `a`-`z`, the rest stays;
/// the Unicode mapping of other text is not stated.
#[verifier::external_body]
fn lower_text(s: &str) -> (r: String)
    ensures
        r@ == lowercase(s@),
        is_ascii_text(s@) ==> r@ == ascii_lower_seq(s@),
{
    s.to_lowercase()
}

/// The catalog key of a table-like object: `schema.name` lower-cased, with `public` as
/// the schema of an unqualified name.
pub open spec fn object_key(t: TableNameView) -> Seq<char> {
    match t.schema {
        Some(s) => lowercase(s) + seq!['.'] + lowercase(t.name),
        None => "public."@ + lowercase(t.name),
    }
}

/// The catalog key of a column comment.
pub open spec fn column_key(t: TableNameView, column: Seq<char>) -> Seq<char> {
    object_key(t) + seq!['.'] + lowercase(column)
}

/// The catalog key of `name`.
fn key_of(name: &TableName) -> (r: String)
    ensures
        r@ == object_key(name@),
{
    let mut out = match &name.schema {
        Some(s) => {
            let mut o = lower_text(s.as_str());
            push_char(&mut o, '.');
            o
        },
        None => "public.".to_owned(),
    };
    let n = lower_text(name.name.as_str());
    push_str(&mut out, n.as_str());
    out
}

/// The catalog key of the comment on `column` of `table`.
fn column_key_of(table: &TableName, column: &str) -> (r: String)
    ensures
        r@ == column_key(table@, column@),
{
    let mut out = key_of(table);
    push_char(&mut out, '.');
    let c = lower_text(column);
    push_str(&mut out, c.as_str());
    out
}

// ---------------------------------------------------------------------
//  Case-insensitive comparison
// ---------------------------------------------------------------------

/// `a` and `b` are equal up to ASCII case.
pub open spec fn same_ci(a: Seq<char>, b: Seq<char>) -> bool {
    a.len() == b.len() && forall|i: int| 0 <= i < a.len() ==> upper(#[trigger] a[i]) == upper(b[i])
}

/// Compares two texts up to ASCII case (`str::eq_ignore_ascii_case`).
pub fn eq_ascii_ci(a: &[char], b: &[char]) -> (r: bool)
    ensures
        r == same_ci(a@, b@),
{
    if a.len() != b.len() {
        return false;
    }
    let mut i: usize = 0;
    while i < a.len()
        invariant
            a@.len() == b@.len(),
            i <= a@.len(),
            forall|j: int| 0 <= j < i ==> upper(#[trigger] a@[j]) == upper(b@[j]),
        decreases a@.len() - i,
    {
        if char_upper(a[i]) != char_upper(b[i]) {
            return false;
        }
        i = i + 1;
    }
    true
}

// ---------------------------------------------------------------------
//  Table schemas
// ---------------------------------------------------------------------

/// The columns of a table, in order.
#[derive(Debug, Clone, PartialEq, Eq)]
pub struct TableSchema {
    /// Table name.
    pub name: TableName,
    /// Columns, in definition order.
    pub columns: Vec<ColumnDefinition>,
}

/// The view of a table schema.
pub struct TableSchemaView {
    pub name: TableNameView,
    pub columns: Seq<ColumnDefinitionView>,
}

impl View for TableSchema {
    type V = TableSchemaView;

    open spec fn view(&self) -> TableSchemaView {
        TableSchemaView { name: self.name@, columns: column_views(self.columns@) }
    }
}

/// The first column whose name equals `name` up to ASCII case is at `i`.
pub open spec fn first_column_at(cols: Seq<ColumnDefinition>, name: Seq<char>, i: int) -> bool {
    &&& 0 <= i < cols.len()
    &&& same_ci(cols[i].name@, name)
    &&& forall|j: int| 0 <= j < i ==> !same_ci(#[trigger] cols[j].name@, name)
}

impl TableSchema {
    /// The first column named `name`, compared up to ASCII case.
    pub fn find_column(&self, name: &str) -> (r: Option<&ColumnDefinition>)
        ensures
            match r {
                Some(c) => exists|i: int| first_column_at(self.columns@, name@, i) && *c == self.columns@[i],
                None => forall|i: int| 0 <= i < self.columns@.len() ==> !same_ci(#[trigger] self.columns@[i].name@, name@),
            },
    {
        let n = chars_of(name);
        let mut i: usize = 0;
        while i < self.columns.len()
            invariant
                i <= self.columns@.len(),
                n@ == name@,
                forall|j: int| 0 <= j < i ==> !same_ci(#[trigger] self.columns@[j].name@, name@),
            decreases self.columns@.len() - i,
        {
            let c = &self.columns[i];
            if eq_ascii_ci(&chars_of(c.name.as_str()), &n) {
                assert(first_column_at(self.columns@, name@, i as int));
                return Some(c);
            }
            i = i + 1;
        }
        None
    }

    /// The column names, in definition order.
    pub fn column_names(&self) -> (r: Vec<&str>)
        ensures
            r@.len() == self.columns@.len(),
            forall|i: int| 0 <= i < r@.len() ==> #[trigger] r@[i]@ == self.columns@[i].name@,
    {
        let mut out: Vec<&str> = Vec::new();
        let mut i: usize = 0;
        while i < self.columns.len()
            invariant
                i <= self.columns@.len(),
                out@.len() == i,
                forall|j: int| 0 <= j < i ==> #[trigger] out@[j]@ == self.columns@[j].name@,
            decreases self.columns@.len() - i,
        {
            out.push(self.columns[i].name.as_str());
            i = i + 1;
        }
        out
    }

    /// A copy of this schema.
    pub fn duplicate(&self) -> (r: TableSchema)
        ensures
            r@ == self@,
    {
        let mut cols: Vec<ColumnDefinition> = Vec::new();
        let mut i: usize = 0;
        while i < self.columns.len()
            invariant
                i <= self.columns@.len(),
                cols@.len() == i,
                forall|j: int| 0 <= j < i ==> #[trigger] cols@[j]@ == self.columns@[j]@,
            decreases self.columns@.len() - i,
        {
            cols.push(self.columns[i].duplicate());
            i = i + 1;
        }
        assert(column_views(cols@) =~= column_views(self.columns@));
        TableSchema { name: self.name.duplicate(), columns: cols }
    }
}


// ---------------------------------------------------------------------
//  Sequences and enum types
// ---------------------------------------------------------------------

/// A sequence (CREATE SEQUENCE).
#[derive(Debug, Clone, PartialEq, Eq)]
pub struct SequenceDefinition {
    /// Sequence name.
    pub name: TableName,
    /// First value.
    pub start: i64,
    /// Step.
    pub increment: i64,
    /// Lower bound, when given.
    pub min_value: Option<i64>,
    /// Upper bound, when given.
    pub max_value: Option<i64>,
    /// Whether the sequence wraps around.
    pub cycle: bool,
}

/// The view of a sequence.
pub struct SequenceView {
    pub name: TableNameView,
    pub start: i64,
    pub increment: i64,
    pub min_value: Option<i64>,
    pub max_value: Option<i64>,
    pub cycle: bool,
}

impl View for SequenceDefinition {
    type V = SequenceView;

    open spec fn view(&self) -> SequenceView {
        SequenceView {
            name: self.name@,
            start: self.start,
            increment: self.increment,
            min_value: self.min_value,
            max_value: self.max_value,
            cycle: self.cycle,
        }
    }
}

impl SequenceDefinition {
    /// The default sequence: starts at 1, steps by 1, no bounds, no wrap-around.
    pub fn new(name: TableName) -> (r: SequenceDefinition)
        ensures
            r@ == (SequenceView {
                name: name@,
                start: 1,
                increment: 1,
                min_value: None,
                max_value: None,
                cycle: false,
            }),
    {
        SequenceDefinition { name, start: 1, increment: 1, min_value: None, max_value: None, cycle: false }
    }

    /// A copy of this sequence.
    pub fn duplicate(&self) -> (r: SequenceDefinition)
        ensures
            r@ == self@,
    {
        SequenceDefinition {
            name: self.name.duplicate(),
            start: self.start,
            increment: self.increment,
            min_value: self.min_value,
            max_value: self.max_value,
            cycle: self.cycle,
        }
    }
}

/// An enum type (CREATE TYPE name AS ENUM (...)).
#[derive(Debug, Clone, PartialEq, Eq)]
pub struct EnumTypeDefinition {
    /// Type name.
    pub name: TableName,
    /// Labels, in declaration order.
    pub labels: Vec<String>,
}

/// The view of an enum type.
pub struct EnumTypeView {
    pub name: TableNameView,
    pub labels: Seq<Seq<char>>,
}

impl View for EnumTypeDefinition {
    type V = EnumTypeView;

    open spec fn view(&self) -> EnumTypeView {
        EnumTypeView { name: self.name@, labels: string_views(self.labels@) }
    }
}

/// A copy of a list of strings.
fn copy_texts(v: &Vec<String>) -> (r: Vec<String>)
    ensures
        string_views(r@) == string_views(v@),
{
    let mut r: Vec<String> = Vec::new();
    let mut i: usize = 0;
    while i < v.len()
        invariant
            i <= v@.len(),
            r@.len() == i,
            forall|k: int| 0 <= k < i ==> #[trigger] r@[k]@ == v@[k]@,
        decreases v@.len() - i,
    {
        r.push(copy_string(&v[i]));
        i = i + 1;
    }
    assert(string_views(r@) =~= string_views(v@));
    r
}

impl EnumTypeDefinition {
    /// An enum type with the given labels.
    pub fn new(name: TableName, labels: Vec<String>) -> (r: EnumTypeDefinition)
        ensures
            r@ == (EnumTypeView { name: name@, labels: string_views(labels@) }),
    {
        EnumTypeDefinition { name, labels }
    }

    /// Whether `label` is one of the labels (compared exactly).
    pub fn contains(&self, label: &str) -> (r: bool)
        ensures
            r == exists|i: int| 0 <= i < self.labels@.len() && #[trigger] self.labels@[i]@ == label@,
    {
        let mut i: usize = 0;
        while i < self.labels.len()
            invariant
                i <= self.labels@.len(),
                forall|j: int| 0 <= j < i ==> #[trigger] self.labels@[j]@ != label@,
            decreases self.labels@.len() - i,
        {
            if crate::text::str_eq(self.labels[i].as_str(), label) {
                return true;
            }
            i = i + 1;
        }
        false
    }

    /// A copy of this enum type.
    pub fn duplicate(&self) -> (r: EnumTypeDefinition)
        ensures
            r@ == self@,
    {
        EnumTypeDefinition { name: self.name.duplicate(), labels: copy_texts(&self.labels) }
    }
}

// ---------------------------------------------------------------------
//  Foreign keys
// ---------------------------------------------------------------------

/// A foreign key, column-level and table-level alike.
#[derive(Debug, Clone, PartialEq, Eq)]
pub struct ForeignKeyConstraint {
    /// Constraint name, when given.
    pub name: Option<String>,
    /// Columns of the referencing (child) table.
    pub columns: Vec<String>,
    /// What is referenced.
    pub reference: ForeignKeyReference,
}

/// The view of a foreign key.
pub struct ForeignKeyView {
    pub name: Option<Seq<char>>,
    pub columns: Seq<Seq<char>>,
    pub reference: ForeignKeyReferenceView,
}

impl View for ForeignKeyConstraint {
    type V = ForeignKeyView;

    open spec fn view(&self) -> ForeignKeyView {
        ForeignKeyView {
            name: opt_text(self.name),
            columns: string_views(self.columns@),
            reference: self.reference@,
        }
    }
}

/// A copy of an optional string.
fn copy_opt(o: &Option<String>) -> (r: Option<String>)
    ensures
        opt_text(r) == opt_text(*o),
{
    match o {
        Some(s) => Some(copy_string(s)),
        None => None,
    }
}

impl ForeignKeyConstraint {
    /// A copy of this foreign key.
    pub fn duplicate(&self) -> (r: ForeignKeyConstraint)
        ensures
            r@ == self@,
    {
        ForeignKeyConstraint {
            name: copy_opt(&self.name),
            columns: copy_texts(&self.columns),
            reference: ForeignKeyReference {
                table: self.reference.table.duplicate(),
                columns: match &self.reference.columns {
                    Some(c) => Some(copy_texts(c)),
                    None => None,
                },
                on_delete: self.reference.on_delete,
                on_update: self.reference.on_update,
            },
        }
    }
}

/// A foreign key seen from the referenced (parent) table: which table refers to it,
/// by which columns, and what happens on delete and update.
#[derive(Debug, Clone, PartialEq, Eq)]
pub struct ReferencingKey {
    /// Referencing (child) table.
    pub child_table: TableName,
    /// Foreign key columns of the child table.
    pub child_columns: Vec<String>,
    /// Referenced columns of the parent table.
    pub parent_columns: Vec<String>,
    /// ON DELETE action.
    pub on_delete: ReferenceAction,
    /// ON UPDATE action.
    pub on_update: ReferenceAction,
    /// Constraint name, when given.
    pub name: Option<String>,
}

/// The view of a referencing key.
pub struct ReferencingKeyView {
    pub child_table: TableNameView,
    pub child_columns: Seq<Seq<char>>,
    pub parent_columns: Seq<Seq<char>>,
    pub on_delete: ReferenceAction,
    pub on_update: ReferenceAction,
    pub name: Option<Seq<char>>,
}

impl View for ReferencingKey {
    type V = ReferencingKeyView;

    open spec fn view(&self) -> ReferencingKeyView {
        ReferencingKeyView {
            child_table: self.child_table@,
            child_columns: string_views(self.child_columns@),
            parent_columns: string_views(self.parent_columns@),
            on_delete: self.on_delete,
            on_update: self.on_update,
            name: opt_text(self.name),
        }
    }
}

impl ReferencingKey {
    /// A copy of this referencing key.
    pub fn duplicate(&self) -> (r: ReferencingKey)
        ensures
            r@ == self@,
    {
        ReferencingKey {
            child_table: self.child_table.duplicate(),
            child_columns: copy_texts(&self.child_columns),
            parent_columns: copy_texts(&self.parent_columns),
            on_delete: self.on_delete,
            on_update: self.on_update,
            name: copy_opt(&self.name),
        }
    }
}

// ---------------------------------------------------------------------
//  Indexes and functions
// ---------------------------------------------------------------------

/// An index of a table.
#[derive(Debug, Clone, PartialEq, Eq)]
pub struct IndexDefinition {
    /// Index name.
    pub name: String,
    /// Indexed table.
    pub table: TableName,
    /// Indexed columns, in declaration order.
    pub columns: Vec<IndexColumn>,
    /// Whether the index is UNIQUE.
    pub unique: bool,
}

impl IndexDefinition {
    /// A non-unique index.
    pub fn new(name: &str, table: TableName, columns: Vec<IndexColumn>) -> (r: IndexDefinition)
        ensures
            r.name@ == name@,
            r.table == table,
            r.columns == columns,
            !r.unique,
    {
        IndexDefinition { name: name.to_owned(), table, columns, unique: false }
    }

    /// A UNIQUE index.
    pub fn new_unique(name: &str, table: TableName, columns: Vec<IndexColumn>) -> (r: IndexDefinition)
        ensures
            r.name@ == name@,
            r.table == table,
            r.columns == columns,
            r.unique,
    {
        IndexDefinition { name: name.to_owned(), table, columns, unique: true }
    }

    /// The indexed column names, in declaration order.
    pub fn column_names(&self) -> (r: Vec<&str>)
        ensures
            r@.len() == self.columns@.len(),
            forall|i: int| 0 <= i < r@.len() ==> #[trigger] r@[i]@ == self.columns@[i].column@,
    {
        let mut out: Vec<&str> = Vec::new();
        let mut i: usize = 0;
        while i < self.columns.len()
            invariant
                i <= self.columns@.len(),
                out@.len() == i,
                forall|j: int| 0 <= j < i ==> #[trigger] out@[j]@ == self.columns@[j].column@,
            decreases self.columns@.len() - i,
        {
            out.push(self.columns[i].column.as_str());
            i = i + 1;
        }
        out
    }
}

/// The view of an index.
pub struct IndexView {
    pub name: Seq<char>,
    pub table: TableNameView,
    pub columns: Seq<(Seq<char>, bool, bool)>,
    pub unique: bool,
}

impl View for IndexDefinition {
    type V = IndexView;

    open spec fn view(&self) -> IndexView {
        IndexView {
            name: self.name@,
            table: self.table@,
            columns: Seq::new(
                self.columns@.len(),
                |i: int| (self.columns@[i].column@, self.columns@[i].asc, self.columns@[i].nulls_first),
            ),
            unique: self.unique,
        }
    }
}

impl IndexDefinition {
    /// A copy of this index.
    pub fn duplicate(&self) -> (r: IndexDefinition)
        ensures
            r@ == self@,
    {
        let mut cols: Vec<IndexColumn> = Vec::new();
        let mut i: usize = 0;
        while i < self.columns.len()
            invariant
                i <= self.columns@.len(),
                cols@.len() == i,
                forall|j: int| 0 <= j < i ==> {
                    &&& (#[trigger] cols@[j]).column@ == self.columns@[j].column@
                    &&& cols@[j].asc == self.columns@[j].asc
                    &&& cols@[j].nulls_first == self.columns@[j].nulls_first
                },
            decreases self.columns@.len() - i,
        {
            let c = &self.columns[i];
            cols.push(IndexColumn { column: copy_string(&c.column), asc: c.asc, nulls_first: c.nulls_first });
            i = i + 1;
        }
        let r = IndexDefinition {
            name: copy_string(&self.name),
            table: self.table.duplicate(),
            columns: cols,
            unique: self.unique,
        };
        assert(r@.columns =~= self@.columns);
        r
    }
}

/// A SQL function: its signature, language and body text.
#[derive(Debug, Clone, PartialEq, Eq)]
pub struct FunctionDefinition {
    /// Function name, possibly schema-qualified, in its original case.
    pub name: String,
    /// Parameters, in declaration order.
    pub parameters: Vec<FunctionParameter>,
    /// Return type text.
    pub return_type: String,
    /// Language.
    pub language: String,
    /// Body text, without its delimiters.
    pub body: String,
    /// IMMUTABLE, STABLE or VOLATILE, when given.
    pub volatility: Option<FunctionVolatility>,
    /// RETURNS NULL ON NULL INPUT.
    pub strict: bool,
    /// SECURITY DEFINER.
    pub security_definer: bool,
}

/// The parameters of `a` have the types `types`, one for one, compared after trimming
/// and up to ASCII case.
pub open spec fn types_match(a: Seq<FunctionParameter>, types: Seq<Seq<char>>) -> bool {
    a.len() == types.len() && forall|i: int| 0 <= i < a.len() ==> same_ci(
        trim(#[trigger] a[i].data_type@),
        trim(types[i]),
    )
}

/// The parameter types of a function.
pub open spec fn parameter_types(a: Seq<FunctionParameter>) -> Seq<Seq<char>> {
    Seq::new(a.len(), |i: int| a[i].data_type@)
}

/// The views of a list of character vectors.
pub open spec fn char_rows(v: Seq<Vec<char>>) -> Seq<Seq<char>> {
    Seq::new(v.len(), |i: int| v[i]@)
}

/// Whether the parameters `a` have the types `types`.
fn parameters_match(a: &Vec<FunctionParameter>, types: &Vec<Vec<char>>) -> (r: bool)
    ensures
        r == types_match(a@, char_rows(types@)),
{
    if a.len() != types.len() {
        return false;
    }
    let mut i: usize = 0;
    while i < a.len()
        invariant
            a@.len() == types@.len(),
            i <= a@.len(),
            forall|j: int| 0 <= j < i ==> same_ci(trim(#[trigger] a@[j].data_type@), trim(types@[j]@)),
        decreases a@.len() - i,
    {
        let t = trim_chars(&chars_of(a[i].data_type.as_str()));
        let u = trim_chars(&types[i]);
        if !eq_ascii_ci(&t, &u) {
            return false;
        }
        i = i + 1;
    }
    true
}

/// The parameter types of `params`, as character vectors.
fn type_rows(params: &Vec<FunctionParameter>) -> (r: Vec<Vec<char>>)
    ensures
        char_rows(r@) == parameter_types(params@),
{
    let mut out: Vec<Vec<char>> = Vec::new();
    let mut i: usize = 0;
    while i < params.len()
        invariant
            i <= params@.len(),
            out@.len() == i,
            forall|j: int| 0 <= j < i ==> #[trigger] out@[j]@ == params@[j].data_type@,
        decreases params@.len() - i,
    {
        out.push(chars_of(params[i].data_type.as_str()));
        i = i + 1;
    }
    assert(char_rows(out@) =~= parameter_types(params@));
    out
}

/// The given type names, as character vectors.
fn text_rows(types: &[String]) -> (r: Vec<Vec<char>>)
    ensures
        char_rows(r@) == string_views(types@),
{
    let mut out: Vec<Vec<char>> = Vec::new();
    let mut i: usize = 0;
    while i < types.len()
        invariant
            i <= types@.len(),
            out@.len() == i,
            forall|j: int| 0 <= j < i ==> #[trigger] out@[j]@ == types@[j]@,
        decreases types@.len() - i,
    {
        out.push(chars_of(types[i].as_str()));
        i = i + 1;
    }
    assert(char_rows(out@) =~= string_views(types@));
    out
}

/// The test that a function has the parameter types `types`.
pub open spec fn has_types(types: Seq<Seq<char>>) -> spec_fn(FunctionDefinition) -> bool {
    |f: FunctionDefinition| types_match(f.parameters@, types)
}

/// The test that a function takes `n` arguments.
pub open spec fn has_arity(n: nat) -> spec_fn(FunctionDefinition) -> bool {
    |f: FunctionDefinition| f.parameters@.len() == n
}

/// Position of the first function in `list` with the parameter types `types`.
fn find_signature(list: &Vec<FunctionDefinition>, types: &Vec<Vec<char>>) -> (r: Option<usize>)
    ensures
        match r {
            Some(i) => i < list@.len() && first_where(list@, has_types(char_rows(types@))) == Some(i as int),
            None => first_where(list@, has_types(char_rows(types@))) is None,
        },
{
    let ghost p = has_types(char_rows(types@));
    proof { lemma_first_where(list@, p); }
    let mut i: usize = 0;
    while i < list.len()
        invariant
            i <= list@.len(),
            p == has_types(char_rows(types@)),
            forall|j: int| 0 <= j < i ==> !p(#[trigger] list@[j]),
        decreases list@.len() - i,
    {
        if parameters_match(&list[i].parameters, types) {
            proof { lemma_first_where_at(list@, p, i as int); }
            return Some(i);
        }
        i = i + 1;
    }
    None
}


/// What adding the function `def` makes of the function table `fs`: the new table, or
/// the message of the error.
pub open spec fn add_function_outcome(
    fs: Seq<(Seq<char>, Seq<FunctionDefinition>)>,
    def: FunctionDefinition,
    or_replace: bool,
) -> Result<Seq<(Seq<char>, Seq<FunctionDefinition>)>, Seq<char>> {
    let key = lowercase(def.name@);
    let list = list_at(fs, key);
    match first_where(list, has_types(parameter_types(def.parameters@))) {
        Some(i) => if or_replace {
            Ok(assoc_insert(fs, key, list.update(i, def)))
        } else {
            Err("function "@ + def.name@ + " already exists with same parameter types"@)
        },
        None => Ok(assoc_insert(fs, key, list.push(def))),
    }
}

/// What dropping the function `name` with the parameter types `types` (none given: the
/// only one of that name) makes of the function table `fs`: whether a function was
/// dropped and the new table, or the message of the error.
pub open spec fn drop_function_outcome(
    fs: Seq<(Seq<char>, Seq<FunctionDefinition>)>,
    name: Seq<char>,
    types: Seq<Seq<char>>,
    if_exists: bool,
) -> Result<(bool, Seq<(Seq<char>, Seq<FunctionDefinition>)>), Seq<char>> {
    let key = lowercase(name);
    let list = list_at(fs, key);
    if list.len() == 0 {
        if if_exists {
            Ok((false, fs))
        } else {
            Err("function "@ + name + " does not exist"@)
        }
    } else if types.len() == 0 {
        if list.len() == 1 {
            Ok((true, assoc_insert(fs, key, Seq::empty())))
        } else {
            Err("function "@ + name + " is overloaded ("@ + decimal(list.len()) + " variants), must specify parameter types"@)
        }
    } else {
        match first_where(list, has_types(types)) {
            Some(i) => Ok((true, assoc_insert(fs, key, list.remove(i)))),
            None => if if_exists {
                Ok((false, fs))
            } else {
                Err("function "@ + name + " with specified parameter types does not exist"@)
            },
        }
    }
}

/// `a`, `b` and `c` joined.
fn join3(a: &str, b: &str, c: &str) -> (r: String)
    ensures
        r@ == a@ + b@ + c@,
{
    let mut out = a.to_owned();
    push_str(&mut out, b);
    push_str(&mut out, c);
    out
}

/// The answer when there is no function of the name.
fn no_function(name: &str, if_exists: bool) -> (r: Result<bool, PlanError>)
    ensures
        if if_exists {
            r == Ok::<bool, PlanError>(false)
        } else {
            r matches Err(e) && e@ == PlanErrorView::Unsupported("function "@ + name@ + " does not exist"@)
        },
{
    if if_exists {
        Ok(false)
    } else {
        Err(PlanError::Unsupported(join3("function ", name, " does not exist")))
    }
}


/// The test that a column belongs to the primary key.
pub open spec fn is_primary() -> spec_fn(ColumnDefinition) -> bool {
    |c: ColumnDefinition| c.primary_key
}

/// The columns a foreign key references: those it names, or else the first primary-key
/// column of the referenced table; or the error when they cannot be found.
pub open spec fn referenced_columns(
    tables: Seq<(Seq<char>, TableSchema)>,
    fk: ForeignKeyConstraint,
) -> Result<Seq<Seq<char>>, PlanErrorView> {
    match fk.reference.columns {
        Some(cols) => Ok(string_views(cols@)),
        None => match lookup(tables, object_key(fk.reference.table@)) {
            None => Err(PlanErrorView::TableNotFound(qualified_text(fk.reference.table@))),
            Some(schema) => match first_where(schema.columns@, is_primary()) {
                Some(i) => Ok(seq![schema.columns@[i].name@]),
                None => Err(PlanErrorView::Unsupported(
                    "cannot resolve PK of referenced table "@ + qualified_text(fk.reference.table@) + " for FK"@,
                )),
            },
        },
    }
}

/// The action of a foreign key, `NO ACTION` when none is given.
pub open spec fn action_or_default(a: Option<ReferenceAction>) -> ReferenceAction {
    match a {
        Some(x) => x,
        None => ReferenceAction::NoAction,
    }
}

/// The test that an index is named `name`, up to ASCII case.
pub open spec fn index_named(name: Seq<char>) -> spec_fn(IndexDefinition) -> bool {
    |i: IndexDefinition| same_ci(i.name@, name)
}

/// The index list `list` with `index` put in place of the one of the same name, or
/// added at the end.
pub open spec fn with_index(list: Seq<IndexDefinition>, index: IndexDefinition) -> Seq<IndexDefinition> {
    match first_where(list, index_named(index.name@)) {
        Some(p) => list.update(p, index),
        None => list.push(index),
    }
}

/// The test that an entry of the index table holds an index named `name`.
pub open spec fn holds_index(name: Seq<char>) -> spec_fn((Seq<char>, Seq<IndexDefinition>)) -> bool {
    |e: (Seq<char>, Seq<IndexDefinition>)| first_where(e.1, index_named(name)) is Some
}

/// `b` is the index list `a` with every index moved to the table `t`.
pub open spec fn moved_indexes(a: Seq<IndexDefinition>, b: Seq<IndexDefinition>, t: TableNameView) -> bool {
    &&& a.len() == b.len()
    &&& forall|j: int| 0 <= j < a.len() ==> {
        &&& (#[trigger] b[j]).name == a[j].name
        &&& b[j].columns == a[j].columns
        &&& b[j].unique == a[j].unique
        &&& b[j].table@ == t
    }
}


/// Position of the first primary-key column.
fn first_primary(cols: &Vec<ColumnDefinition>) -> (r: Option<usize>)
    ensures
        match r {
            Some(i) => i < cols@.len() && first_where(cols@, is_primary()) == Some(i as int),
            None => first_where(cols@, is_primary()) is None,
        },
{
    let ghost p = is_primary();
    proof { lemma_first_where(cols@, p); }
    let mut i: usize = 0;
    while i < cols.len()
        invariant
            i <= cols@.len(),
            p == is_primary(),
            forall|j: int| 0 <= j < i ==> !p(#[trigger] cols@[j]),
        decreases cols@.len() - i,
    {
        if cols[i].primary_key {
            proof { lemma_first_where_at(cols@, p, i as int); }
            return Some(i);
        }
        i = i + 1;
    }
    None
}

/// Position of the first index named `name`, up to ASCII case.
fn find_index_named(list: &Vec<IndexDefinition>, name: &[char]) -> (r: Option<usize>)
    ensures
        match r {
            Some(i) => i < list@.len() && first_where(list@, index_named(name@)) == Some(i as int),
            None => first_where(list@, index_named(name@)) is None,
        },
{
    let ghost p = index_named(name@);
    proof { lemma_first_where(list@, p); }
    let mut i: usize = 0;
    while i < list.len()
        invariant
            i <= list@.len(),
            p == index_named(name@),
            forall|j: int| 0 <= j < i ==> !p(#[trigger] list@[j]),
        decreases list@.len() - i,
    {
        if eq_ascii_ci(&chars_of(list[i].name.as_str()), name) {
            proof { lemma_first_where_at(list@, p, i as int); }
            return Some(i);
        }
        i = i + 1;
    }
    None
}

/// The index list `list` with every index moved to the table `t`.
fn move_indexes(list: Vec<IndexDefinition>, t: &TableName) -> (r: Vec<IndexDefinition>)
    ensures
        moved_indexes(list@, r@, t@),
{
    let mut rest = list;
    let ghost orig = rest@;
    let mut out: Vec<IndexDefinition> = Vec::new();
    while rest.len() > 0
        invariant
            out@.len() + rest@.len() == orig.len(),
            rest@ == orig.subrange(out@.len() as int, orig.len() as int),
            forall|j: int| 0 <= j < out@.len() ==> {
                &&& (#[trigger] out@[j]).name == orig[j].name
                &&& out@[j].columns == orig[j].columns
                &&& out@[j].unique == orig[j].unique
                &&& out@[j].table@ == t@
            },
        decreases rest@.len(),
    {
        let ix = rest.remove(0);
        out.push(IndexDefinition { name: ix.name, table: t.duplicate(), columns: ix.columns, unique: ix.unique });
        assert(rest@ =~= orig.subrange(out@.len() as int, orig.len() as int));
    }
    out
}


/// `y` is the referencing key `x` after the table under key `ok` was renamed to
/// `new_name`: the child table renamed when it is that table, else unchanged.
pub open spec fn child_renamed(x: ReferencingKey, y: ReferencingKey, ok: Seq<char>, new_name: TableNameView) -> bool {
    if object_key(x.child_table@) == ok {
        y@ == (ReferencingKeyView { child_table: new_name, ..x@ })
    } else {
        y == x
    }
}

/// `b` is the referencing-key table `a` with `child_renamed` applied to every key, the
/// entries and lists staying in place.
pub open spec fn children_renamed(
    a: Seq<(Seq<char>, Seq<ReferencingKey>)>,
    b: Seq<(Seq<char>, Seq<ReferencingKey>)>,
    ok: Seq<char>,
    new_name: TableNameView,
) -> bool {
    &&& a.len() == b.len()
    &&& forall|i: int| 0 <= i < a.len() ==> (#[trigger] b[i]).0 == a[i].0 && b[i].1.len() == a[i].1.len()
    &&& forall|i: int, j: int|
        0 <= i < a.len() && 0 <= j < a[i].1.len() ==> child_renamed(a[i].1[j], #[trigger] b[i].1[j], ok, new_name)
}

/// The list `list` with `child_renamed` applied to every referencing key.
fn rename_child_list(list: Vec<ReferencingKey>, ok: &[char], new_name: &TableName) -> (r: Vec<ReferencingKey>)
    ensures
        r@.len() == list@.len(),
        forall|j: int| 0 <= j < list@.len() ==> child_renamed(list@[j], #[trigger] r@[j], ok@, new_name@),
{
    let mut rest = list;
    let ghost orig = rest@;
    let mut out: Vec<ReferencingKey> = Vec::new();
    while rest.len() > 0
        invariant
            out@.len() + rest@.len() == orig.len(),
            rest@ == orig.subrange(out@.len() as int, orig.len() as int),
            forall|j: int| 0 <= j < out@.len() ==> child_renamed(orig[j], #[trigger] out@[j], ok@, new_name@),
        decreases rest@.len(),
    {
        let mut rk = rest.remove(0);
        let k = key_of(&rk.child_table);
        if crate::sql_text::chars_eq(&chars_of(k.as_str()), ok) {
            rk.child_table = new_name.duplicate();
        }
        out.push(rk);
        assert(rest@ =~= orig.subrange(out@.len() as int, orig.len() as int));
    }
    out
}

/// Applies `child_renamed` to every referencing key of the table.
fn rename_children(v: &mut Vec<(String, Vec<ReferencingKey>)>, ok: &[char], new_name: &TableName)
    requires
        unique_keys(lists_view(old(v)@)),
    ensures
        children_renamed(lists_view(old(v)@), lists_view(final(v)@), ok@, new_name@),
        unique_keys(lists_view(final(v)@)),
{
    let ghost orig = v@;
    let mut i: usize = 0;
    while i < v.len()
        invariant
            v@.len() == orig.len(),
            i <= orig.len(),
            forall|k: int| 0 <= k < orig.len() ==> (#[trigger] v@[k]).0 == orig[k].0,
            forall|k: int| i <= k < orig.len() ==> #[trigger] v@[k] == orig[k],
            forall|k: int| 0 <= k < i ==> (#[trigger] v@[k]).1@.len() == orig[k].1@.len(),
            forall|k: int, j: int|
                0 <= k < i && 0 <= j < orig[k].1@.len() ==> child_renamed(orig[k].1@[j], #[trigger] v@[k].1@[j], ok@, new_name@),
        decreases orig.len() - i,
    {
        let list = swap_value(v, i, Vec::new());
        let renamed = rename_child_list(list, ok, new_name);
        let _ = swap_value(v, i, renamed);
        i = i + 1;
    }
    proof {
        let a = lists_view(orig);
        let b = lists_view(v@);
        assert forall|k: int| 0 <= k < a.len() implies #[trigger] b[k].0 == a[k].0 && b[k].1.len() == a[k].1.len() by {}
        assert forall|k: int, j: int| 0 <= k < a.len() && 0 <= j < a[k].1.len() implies child_renamed(a[k].1[j], #[trigger] b[k].1[j], ok@, new_name@) by {
            assert(v@[k].1@[j] == b[k].1[j]);
        }
        assert forall|x: int, y: int| 0 <= x < y < b.len() implies b[x].0 != b[y].0 by {
            assert(a[x].0 != a[y].0);
        }
    }
}

/// `b` is the catalog `a` after the table under `ok`, whose schema was `schema`, was
/// renamed to `new_name` with the key `nk`: the schema, its index list (each index moved
/// to the new name) and its foreign keys are under the new key, and every referencing
/// key that named it as child table names the new name; nothing else changed.
pub open spec fn renamed(
    a: CatalogView,
    b: CatalogView,
    ok: Seq<char>,
    nk: Seq<char>,
    schema: TableSchema,
    new_name: TableNameView,
) -> bool {
    &&& lookup(b.tables, nk) matches Some(t) && t@ == (TableSchemaView {
        name: new_name,
        columns: schema@.columns,
    }) && b.tables == assoc_insert(assoc_remove(a.tables, ok), nk, t)
    &&& match lookup(a.indexes, ok) {
        Some(l) => lookup(b.indexes, nk) matches Some(l2) && moved_indexes(l, l2, new_name)
            && b.indexes == assoc_insert(assoc_remove(a.indexes, ok), nk, l2),
        None => b.indexes == a.indexes,
    }
    &&& b.foreign_keys == match lookup(a.foreign_keys, ok) {
        Some(l) => assoc_insert(assoc_remove(a.foreign_keys, ok), nk, l),
        None => a.foreign_keys,
    }
    &&& b.sequences == a.sequences
    &&& children_renamed(a.referencing_keys, b.referencing_keys, ok, new_name)
    &&& b.enum_types == a.enum_types
    &&& b.comments == a.comments
    &&& b.functions == a.functions
}


/// The key under which a table written `schema.name` is also looked for: the table
/// `schema_name` of the public schema.
pub open spec fn fallback_key(schema: Seq<char>, name: Seq<char>) -> Seq<char> {
    "public."@ + lowercase(schema) + seq!['_'] + lowercase(name)
}

/// The key ending under which an unqualified table `name` is also looked for.
pub open spec fn name_suffix(name: Seq<char>) -> Seq<char> {
    seq!['_'] + lowercase(name)
}

/// `a` ends with `b`.
pub open spec fn ends_with(a: Seq<char>, b: Seq<char>) -> bool {
    b.len() <= a.len() && a.subrange(a.len() - b.len(), a.len() as int) == b
}

/// The test that a table entry's key ends with `suffix`.
pub open spec fn key_ends_with(suffix: Seq<char>) -> spec_fn((Seq<char>, TableSchema)) -> bool {
    |e: (Seq<char>, TableSchema)| ends_with(e.0, suffix)
}

/// Where the table `t` is found: under its key; else, for `schema.name`, under the key of
/// `public.schema_name`; else, for an unqualified name, under the first key that ends
/// with `_name`.
pub open spec fn table_position(tables: Seq<(Seq<char>, TableSchema)>, t: TableNameView) -> Option<int> {
    match key_index(tables, object_key(t)) {
        Some(i) => Some(i),
        None => match t.schema {
            Some(s) => key_index(tables, fallback_key(s, t.name)),
            None => first_where(tables, key_ends_with(name_suffix(t.name))),
        },
    }
}

/// Whether `a` ends with `b`.
fn ends_with_chars(a: &[char], b: &[char]) -> (r: bool)
    ensures
        r == ends_with(a@, b@),
{
    if b.len() > a.len() {
        return false;
    }
    let off = a.len() - b.len();
    let mut i: usize = 0;
    while i < b.len()
        invariant
            off + b.len() == a.len(),
            i <= b@.len(),
            forall|j: int| 0 <= j < i ==> #[trigger] b@[j] == a@[off + j],
        decreases b@.len() - i,
    {
        if a[off + i] != b[i] {
            assert(a@.subrange(off as int, a@.len() as int)[i as int] != b@[i as int]);
            return false;
        }
        i = i + 1;
    }
    assert(a@.subrange(off as int, a@.len() as int) =~= b@);
    true
}

// ---------------------------------------------------------------------
//  The in-memory catalog
// ---------------------------------------------------------------------

/// A catalog held in memory: each kind of object in a table keyed by its catalog key,
/// every key at most once.
#[derive(Debug, Clone)]
pub struct InMemoryCatalog {
    tables: Vec<(String, TableSchema)>,
    sequences: Vec<(String, SequenceDefinition)>,
    foreign_keys: Vec<(String, Vec<ForeignKeyConstraint>)>,
    referencing_keys: Vec<(String, Vec<ReferencingKey>)>,
    enum_types: Vec<(String, EnumTypeDefinition)>,
    indexes: Vec<(String, Vec<IndexDefinition>)>,
    comments: Vec<(String, String)>,
    functions: Vec<(String, Vec<FunctionDefinition>)>,
}

/// The view of a catalog: for each kind of object, its entries (key and value) in the
/// order in which the keys were first added.
pub struct CatalogView {
    pub tables: Seq<(Seq<char>, TableSchema)>,
    pub sequences: Seq<(Seq<char>, SequenceDefinition)>,
    pub foreign_keys: Seq<(Seq<char>, Seq<ForeignKeyConstraint>)>,
    pub referencing_keys: Seq<(Seq<char>, Seq<ReferencingKey>)>,
    pub enum_types: Seq<(Seq<char>, EnumTypeDefinition)>,
    pub indexes: Seq<(Seq<char>, Seq<IndexDefinition>)>,
    pub comments: Seq<(Seq<char>, String)>,
    pub functions: Seq<(Seq<char>, Seq<FunctionDefinition>)>,
}

impl View for InMemoryCatalog {
    type V = CatalogView;

    closed spec fn view(&self) -> CatalogView {
        CatalogView {
            tables: entries_view(self.tables@),
            sequences: entries_view(self.sequences@),
            foreign_keys: lists_view(self.foreign_keys@),
            referencing_keys: lists_view(self.referencing_keys@),
            enum_types: entries_view(self.enum_types@),
            indexes: lists_view(self.indexes@),
            comments: entries_view(self.comments@),
            functions: lists_view(self.functions@),
        }
    }
}

/// No key occurs twice in any of the catalog's tables.
pub open spec fn catalog_wf(c: CatalogView) -> bool {
    &&& unique_keys(c.tables)
    &&& unique_keys(c.sequences)
    &&& unique_keys(c.foreign_keys)
    &&& unique_keys(c.referencing_keys)
    &&& unique_keys(c.enum_types)
    &&& unique_keys(c.indexes)
    &&& unique_keys(c.comments)
    &&& unique_keys(c.functions)
}

/// The empty catalog view.
pub open spec fn empty_catalog() -> CatalogView {
    CatalogView {
        tables: Seq::empty(),
        sequences: Seq::empty(),
        foreign_keys: Seq::empty(),
        referencing_keys: Seq::empty(),
        enum_types: Seq::empty(),
        indexes: Seq::empty(),
        comments: Seq::empty(),
        functions: Seq::empty(),
    }
}

impl InMemoryCatalog {
    /// An empty catalog.
    pub fn new() -> (r: InMemoryCatalog)
        ensures
            r@ == empty_catalog(),
            catalog_wf(r@),
    {
        let r = InMemoryCatalog {
            tables: Vec::new(),
            sequences: Vec::new(),
            foreign_keys: Vec::new(),
            referencing_keys: Vec::new(),
            enum_types: Vec::new(),
            indexes: Vec::new(),
            comments: Vec::new(),
            functions: Vec::new(),
        };
        assert(r@.tables =~= Seq::empty());
        assert(r@.sequences =~= Seq::empty());
        assert(r@.foreign_keys =~= Seq::empty());
        assert(r@.referencing_keys =~= Seq::empty());
        assert(r@.enum_types =~= Seq::empty());
        assert(r@.indexes =~= Seq::empty());
        assert(r@.comments =~= Seq::empty());
        assert(r@.functions =~= Seq::empty());
        r
    }

    /// Adds a table, replacing the one under the same key.
    pub fn add_table(&mut self, schema: TableSchema)
        requires
            catalog_wf(old(self)@),
        ensures
            catalog_wf(final(self)@),
            final(self)@ == (CatalogView {
                tables: assoc_insert(old(self)@.tables, object_key(schema.name@), schema),
                ..old(self)@
            }),
    {
        let k = key_of(&schema.name);
        proof { lemma_insert(self@.tables, k@, schema); }
        insert_key(&mut self.tables, k, schema);
    }

    /// Removes the table `name` and returns it.
    pub fn remove_table(&mut self, name: &TableName) -> (r: Option<TableSchema>)
        requires
            catalog_wf(old(self)@),
        ensures
            catalog_wf(final(self)@),
            r == lookup(old(self)@.tables, object_key(name@)),
            final(self)@ == (CatalogView {
                tables: assoc_remove(old(self)@.tables, object_key(name@)),
                ..old(self)@
            }),
    {
        let k = key_of(name);
        proof { lemma_remove(self@.tables, k@); }
        remove_key(&mut self.tables, &chars_of(k.as_str()))
    }

    /// Adds a sequence, replacing the one under the same key.
    pub fn add_sequence(&mut self, def: SequenceDefinition)
        requires
            catalog_wf(old(self)@),
        ensures
            catalog_wf(final(self)@),
            final(self)@ == (CatalogView {
                sequences: assoc_insert(old(self)@.sequences, object_key(def.name@), def),
                ..old(self)@
            }),
    {
        let k = key_of(&def.name);
        proof { lemma_insert(self@.sequences, k@, def); }
        insert_key(&mut self.sequences, k, def);
    }

    /// Sets the comment on a table; `None` removes it. Always succeeds.
    pub fn set_table_comment(&mut self, name: &TableName, comment: Option<String>) -> (r: Result<(), PlanError>)
        requires
            catalog_wf(old(self)@),
        ensures
            catalog_wf(final(self)@),
            r is Ok,
            final(self)@ == (CatalogView {
                comments: match comment {
                    Some(c) => assoc_insert(old(self)@.comments, object_key(name@), c),
                    None => assoc_remove(old(self)@.comments, object_key(name@)),
                },
                ..old(self)@
            }),
    {
        let k = key_of(name);
        self.put_comment(k, comment);
        Ok(())
    }

    /// Sets the comment on a column; `None` removes it. Always succeeds.
    pub fn set_column_comment(
        &mut self,
        table: &TableName,
        column: &str,
        comment: Option<String>,
    ) -> (r: Result<(), PlanError>)
        requires
            catalog_wf(old(self)@),
        ensures
            catalog_wf(final(self)@),
            r is Ok,
            final(self)@ == (CatalogView {
                comments: match comment {
                    Some(c) => assoc_insert(old(self)@.comments, column_key(table@, column@), c),
                    None => assoc_remove(old(self)@.comments, column_key(table@, column@)),
                },
                ..old(self)@
            }),
    {
        let k = column_key_of(table, column);
        self.put_comment(k, comment);
        Ok(())
    }

    /// Stores or removes the comment under `k`.
    fn put_comment(&mut self, k: String, comment: Option<String>)
        requires
            catalog_wf(old(self)@),
        ensures
            catalog_wf(final(self)@),
            final(self)@ == (CatalogView {
                comments: match comment {
                    Some(c) => assoc_insert(old(self)@.comments, k@, c),
                    None => assoc_remove(old(self)@.comments, k@),
                },
                ..old(self)@
            }),
    {
        match comment {
            Some(c) => {
                proof { lemma_insert(self@.comments, k@, c); }
                insert_key(&mut self.comments, k, c);
            },
            None => {
                proof { lemma_remove(self@.comments, k@); }
                let _ = remove_key(&mut self.comments, &chars_of(k.as_str()));
            },
        }
    }

    /// The comment on a table.
    pub fn get_table_comment(&self, name: &TableName) -> (r: Option<String>)
        ensures
            r == lookup(self@.comments, object_key(name@)),
    {
        let k = key_of(name);
        self.comment_at(&chars_of(k.as_str()))
    }

    /// The comment on a column.
    pub fn get_column_comment(&self, table: &TableName, column: &str) -> (r: Option<String>)
        ensures
            r == lookup(self@.comments, column_key(table@, column@)),
    {
        let k = column_key_of(table, column);
        self.comment_at(&chars_of(k.as_str()))
    }

    /// The comment stored under `k`.
    fn comment_at(&self, k: &[char]) -> (r: Option<String>)
        ensures
            r == lookup(self@.comments, k@),
    {
        match find_key(&self.comments, k) {
            Some(i) => Some(copy_string(&self.comments[i].1)),
            None => None,
        }
    }

    /// Adds an enum type, replacing the one under the same key.
    pub fn add_enum_type(&mut self, def: EnumTypeDefinition)
        requires
            catalog_wf(old(self)@),
        ensures
            catalog_wf(final(self)@),
            final(self)@ == (CatalogView {
                enum_types: assoc_insert(old(self)@.enum_types, object_key(def.name@), def),
                ..old(self)@
            }),
    {
        let k = key_of(&def.name);
        proof { lemma_insert(self@.enum_types, k@, def); }
        insert_key(&mut self.enum_types, k, def);
    }

    /// Removes the enum type `name` and returns it.
    pub fn remove_enum_type(&mut self, name: &TableName) -> (r: Option<EnumTypeDefinition>)
        requires
            catalog_wf(old(self)@),
        ensures
            catalog_wf(final(self)@),
            r == lookup(old(self)@.enum_types, object_key(name@)),
            final(self)@ == (CatalogView {
                enum_types: assoc_remove(old(self)@.enum_types, object_key(name@)),
                ..old(self)@
            }),
    {
        let k = key_of(name);
        proof { lemma_remove(self@.enum_types, k@); }
        remove_key(&mut self.enum_types, &chars_of(k.as_str()))
    }

    /// The enum type `name`, to be changed in place.
    pub fn get_enum_type_mut(&mut self, name: &TableName) -> (r: Option<&mut EnumTypeDefinition>)
        requires
            catalog_wf(old(self)@),
        ensures
            match r {
                Some(d) => key_index(old(self)@.enum_types, object_key(name@)) matches Some(i)
                    && *d == old(self)@.enum_types[i].1
                    && catalog_wf(final(self)@)
                    && final(self)@ == (CatalogView {
                        enum_types: old(self)@.enum_types.update(i, (object_key(name@), *final(d))),
                        ..old(self)@
                    }),
                None => lookup(old(self)@.enum_types, object_key(name@)) is None
                    && final(self)@ == old(self)@,
            },
    {
        let k = key_of(name);
        match find_key(&self.enum_types, &chars_of(k.as_str())) {
            Some(i) => {
                proof {
                    lemma_key_index(self@.enum_types, k@);
                    lemma_entries_update(self.enum_types@, i as int);
                    lemma_update_keeps_unique(self@.enum_types, i as int);
                }
                Some(&mut self.enum_types[i].1)
            },
            None => None,
        }
    }

    /// Adds a function. Functions of one name may coexist when their parameter types
    /// differ; one with the same types is replaced when `or_replace` holds and refused
    /// otherwise.
    pub fn add_function(&mut self, def: FunctionDefinition, or_replace: bool) -> (r: Result<(), PlanError>)
        requires
            catalog_wf(old(self)@),
        ensures
            is_ascii_text(def.name@) ==> lowercase(def.name@) == ascii_lower_seq(def.name@),
            catalog_wf(final(self)@),
            match add_function_outcome(old(self)@.functions, def, or_replace) {
                Ok(fs) => r is Ok && final(self)@ == (CatalogView { functions: fs, ..old(self)@ }),
                Err(m) => r matches Err(e) && e@ == PlanErrorView::Unsupported(m) && final(self)@ == old(self)@,
            },
    {
        let key = lower_text(def.name.as_str());
        let kc = chars_of(key.as_str());
        let types = type_rows(&def.parameters);
        let ghost orig = self.functions@;
        let ghost fs = self@.functions;
        proof {
            lemma_lists_keys(orig, key@);
            lemma_key_index(fs, key@);
        }
        match find_key(&self.functions, &kc) {
            Some(i) => {
                let mut list = swap_value(&mut self.functions, i, Vec::new());
                proof {
                    assert(list@ == list_at(fs, key@));
                }
                match find_signature(&list, &types) {
                    Some(j) => {
                        if or_replace {
                            list.set(j, def);
                            let _ = swap_value(&mut self.functions, i, list);
                            proof {
                                lemma_lists_update(orig, i as int, list);
                                assert(self.functions@ =~= orig.update(i as int, (orig[i as int].0, list)));
                                lemma_insert(fs, key@, list@);
                            }
                            Ok(())
                        } else {
                            let msg = join3("function ", def.name.as_str(), " already exists with same parameter types");
                            let _ = swap_value(&mut self.functions, i, list);
                            proof {
                                assert(self.functions@ =~= orig);
                            }
                            Err(PlanError::Unsupported(msg))
                        }
                    },
                    None => {
                        list.push(def);
                        let _ = swap_value(&mut self.functions, i, list);
                        proof {
                            lemma_lists_update(orig, i as int, list);
                            assert(self.functions@ =~= orig.update(i as int, (orig[i as int].0, list)));
                            lemma_insert(fs, key@, list@);
                        }
                        Ok(())
                    },
                }
            },
            None => {
                let mut list: Vec<FunctionDefinition> = Vec::new();
                list.push(def);
                proof {
                    lemma_lists_push(orig, key, list);
                    lemma_insert(fs, key@, list@);
                    assert(list@ =~= list_at(fs, key@).push(def));
                }
                self.functions.push((key, list));
                Ok(())
            },
        }
    }

    /// Drops a function: the one with the given parameter types, or, when none are
    /// given, the only one of that name. Answers whether a function was dropped.
    pub fn drop_function(&mut self, name: &str, parameter_types: &[String], if_exists: bool) -> (r: Result<bool, PlanError>)
        requires
            catalog_wf(old(self)@),
        ensures
            is_ascii_text(name@) ==> lowercase(name@) == ascii_lower_seq(name@),
            catalog_wf(final(self)@),
            match drop_function_outcome(old(self)@.functions, name@, string_views(parameter_types@), if_exists) {
                Ok((dropped, fs)) => r == Ok::<bool, PlanError>(dropped)
                    && final(self)@ == (CatalogView { functions: fs, ..old(self)@ }),
                Err(m) => r matches Err(e) && e@ == PlanErrorView::Unsupported(m) && final(self)@ == old(self)@,
            },
    {
        let key = lower_text(name);
        let kc = chars_of(key.as_str());
        let ghost orig = self.functions@;
        let ghost fs = self@.functions;
        proof {
            lemma_lists_keys(orig, key@);
            lemma_key_index(fs, key@);
        }
        let i: usize = match find_key(&self.functions, &kc) {
            Some(i) => {
                if self.functions[i].1.len() == 0 {
                    return no_function(name, if_exists);
                }
                i
            },
            None => {
                return no_function(name, if_exists);
            },
        };
        proof {
            assert(self.functions@[i as int].1@ == list_at(fs, key@));
        }
        if parameter_types.len() == 0 {
            let n = self.functions[i].1.len();
            if n == 1 {
                let _ = swap_value(&mut self.functions, i, Vec::new());
                proof {
                    let e = self.functions@[i as int].1;
                    lemma_lists_update(orig, i as int, e);
                    assert(self.functions@ =~= orig.update(i as int, (orig[i as int].0, e)));
                    lemma_insert(fs, key@, e@);
                    assert(e@ =~= Seq::<FunctionDefinition>::empty());
                }
                Ok(true)
            } else {
                let mut msg = join3("function ", name, " is overloaded (");
                push_decimal(&mut msg, n as u64);
                push_str(&mut msg, " variants), must specify parameter types");
                Err(PlanError::Unsupported(msg))
            }
        } else {
            let types = text_rows(parameter_types);
            let mut list = swap_value(&mut self.functions, i, Vec::new());
            match find_signature(&list, &types) {
                Some(j) => {
                    let _ = list.remove(j);
                    let _ = swap_value(&mut self.functions, i, list);
                    proof {
                        lemma_lists_update(orig, i as int, list);
                        assert(self.functions@ =~= orig.update(i as int, (orig[i as int].0, list)));
                        lemma_insert(fs, key@, list@);
                    }
                    Ok(true)
                },
                None => {
                    let _ = swap_value(&mut self.functions, i, list);
                    proof {
                        assert(self.functions@ =~= orig);
                    }
                    if if_exists {
                        Ok(false)
                    } else {
                        Err(PlanError::Unsupported(join3("function ", name, " with specified parameter types does not exist")))
                    }
                },
            }
        }
    }

    /// The first function of the name.
    pub fn get_function(&self, name: &str) -> (r: Option<&FunctionDefinition>)
        ensures
            is_ascii_text(name@) ==> lowercase(name@) == ascii_lower_seq(name@),
            match r {
                Some(f) => list_at(self@.functions, lowercase(name@)).len() > 0
                    && *f == list_at(self@.functions, lowercase(name@))[0],
                None => list_at(self@.functions, lowercase(name@)).len() == 0,
            },
    {
        let key = lower_text(name);
        proof {
            lemma_lists_keys(self.functions@, key@);
            lemma_key_index(self@.functions, key@);
        }
        match find_key(&self.functions, &chars_of(key.as_str())) {
            Some(i) => {
                if self.functions[i].1.len() > 0 {
                    Some(&self.functions[i].1[0])
                } else {
                    None
                }
            },
            None => None,
        }
    }

    /// The first function of the name that takes `arg_count` arguments.
    pub fn find_function(&self, name: &str, arg_count: usize) -> (r: Option<&FunctionDefinition>)
        ensures
            is_ascii_text(name@) ==> lowercase(name@) == ascii_lower_seq(name@),
            match first_where(list_at(self@.functions, lowercase(name@)), has_arity(arg_count as nat)) {
                Some(i) => r matches Some(f) && *f == list_at(self@.functions, lowercase(name@))[i],
                None => r is None,
            },
    {
        let key = lower_text(name);
        proof {
            lemma_lists_keys(self.functions@, key@);
            lemma_key_index(self@.functions, key@);
        }
        match find_key(&self.functions, &chars_of(key.as_str())) {
            Some(i) => {
                let list = &self.functions[i].1;
                let ghost p = has_arity(arg_count as nat);
                proof {
                    lemma_first_where(list@, p);
                    assert(list@ == list_at(self@.functions, key@));
                }
                let mut j: usize = 0;
                while j < list.len()
                    invariant
                        j <= list@.len(),
                        p == has_arity(arg_count as nat),
                        list@ == list_at(self@.functions, lowercase(name@)),
                        is_ascii_text(name@) ==> lowercase(name@) == ascii_lower_seq(name@),
                        forall|k: int| 0 <= k < j ==> !p(#[trigger] list@[k]),
                    decreases list@.len() - j,
                {
                    if list[j].parameters.len() == arg_count {
                        proof { lemma_first_where_at(list@, p, j as int); }
                        return Some(&list[j]);
                    }
                    j = j + 1;
                }
                None
            },
            None => None,
        }
    }

    /// The keys of the function table: the lower-cased function names.
    pub fn list_functions(&self) -> (r: Vec<String>)
        ensures
            string_views(r@) == keys_of(self@.functions),
    {
        let mut out: Vec<String> = Vec::new();
        let mut i: usize = 0;
        while i < self.functions.len()
            invariant
                i <= self.functions@.len(),
                out@.len() == i,
                forall|j: int| 0 <= j < i ==> #[trigger] out@[j]@ == self.functions@[j].0@,
            decreases self.functions@.len() - i,
        {
            out.push(copy_string(&self.functions[i].0));
            i = i + 1;
        }
        assert(string_views(out@) =~= keys_of(self@.functions));
        out
    }

    /// All functions of the name, in the order in which they were added.
    pub fn list_function_overloads(&self, name: &str) -> (r: Vec<&FunctionDefinition>)
        ensures
            is_ascii_text(name@) ==> lowercase(name@) == ascii_lower_seq(name@),
            r@.len() == list_at(self@.functions, lowercase(name@)).len(),
            forall|i: int| 0 <= i < r@.len() ==> *#[trigger] r@[i] == list_at(self@.functions, lowercase(name@))[i],
    {
        let key = lower_text(name);
        proof {
            lemma_lists_keys(self.functions@, key@);
            lemma_key_index(self@.functions, key@);
        }
        let mut out: Vec<&FunctionDefinition> = Vec::new();
        match find_key(&self.functions, &chars_of(key.as_str())) {
            Some(i) => {
                let list = &self.functions[i].1;
                let mut j: usize = 0;
                while j < list.len()
                    invariant
                        j <= list@.len(),
                        out@.len() == j,
                        forall|k: int| 0 <= k < j ==> *#[trigger] out@[k] == list@[k],
                    decreases list@.len() - j,
                {
                    out.push(&list[j]);
                    j = j + 1;
                }
            },
            None => {},
        }
        out
    }

    /// Records a foreign key of `child_table`: in the child's list of foreign keys, and
    /// as a referencing key in the list of the referenced table.
    pub fn add_foreign_key(&mut self, child_table: &TableName, fk: ForeignKeyConstraint) -> (r: Result<(), PlanError>)
        requires
            catalog_wf(old(self)@),
        ensures
            catalog_wf(final(self)@),
            match referenced_columns(old(self)@.tables, fk) {
                Ok(pc) => r is Ok && {
                    let l = list_at(final(self)@.referencing_keys, object_key(fk.reference.table@));
                    &&& l.len() > 0
                    &&& l.last()@ == (ReferencingKeyView {
                        child_table: child_table@,
                        child_columns: string_views(fk.columns@),
                        parent_columns: pc,
                        on_delete: action_or_default(fk.reference.on_delete),
                        on_update: action_or_default(fk.reference.on_update),
                        name: opt_text(fk.name),
                    })
                    &&& final(self)@ == (CatalogView {
                        foreign_keys: assoc_append(old(self)@.foreign_keys, object_key(child_table@), fk),
                        referencing_keys: assoc_append(
                            old(self)@.referencing_keys,
                            object_key(fk.reference.table@),
                            l.last(),
                        ),
                        ..old(self)@
                    })
                },
                Err(e) => r matches Err(x) && x@ == e && final(self)@ == old(self)@,
            },
    {
        let child_key = key_of(child_table);
        let parent_key = key_of(&fk.reference.table);
        let parent_columns: Vec<String> = match &fk.reference.columns {
            Some(cols) => copy_texts(cols),
            None => {
                proof { lemma_key_index(self@.tables, parent_key@); }
                match find_key(&self.tables, &chars_of(parent_key.as_str())) {
                    None => {
                        return Err(PlanError::TableNotFound(fk.reference.table.qualified_name()));
                    },
                    Some(i) => {
                        let schema = &self.tables[i].1;
                        match first_primary(&schema.columns) {
                            Some(j) => {
                                let mut v: Vec<String> = Vec::new();
                                v.push(copy_string(&schema.columns[j].name));
                                assert(string_views(v@) =~= seq![schema.columns@[j as int].name@]);
                                v
                            },
                            None => {
                                let q = fk.reference.table.qualified_name();
                                return Err(PlanError::Unsupported(join3(
                                    "cannot resolve PK of referenced table ",
                                    q.as_str(),
                                    " for FK",
                                )));
                            },
                        }
                    },
                }
            },
        };
        let referencing = ReferencingKey {
            child_table: child_table.duplicate(),
            child_columns: copy_texts(&fk.columns),
            parent_columns,
            on_delete: match fk.reference.on_delete {
                Some(a) => a,
                None => ReferenceAction::NoAction,
            },
            on_update: match fk.reference.on_update {
                Some(a) => a,
                None => ReferenceAction::NoAction,
            },
            name: copy_opt(&fk.name),
        };
        let ghost rk = referencing;
        append_key(&mut self.foreign_keys, child_key, fk);
        append_key(&mut self.referencing_keys, parent_key, referencing);
        proof {
            let pk = object_key(fk.reference.table@);
            let old_rks = old(self)@.referencing_keys;
            lemma_insert(old_rks, pk, list_at(old_rks, pk).push(rk));
            assert(list_at(self@.referencing_keys, pk) == list_at(old_rks, pk).push(rk));
        }
        Ok(())
    }

    /// Adds an index to its table's list, in place of an index of the same name (up to
    /// ASCII case) or at the end.
    pub fn add_index(&mut self, index: IndexDefinition)
        requires
            catalog_wf(old(self)@),
        ensures
            catalog_wf(final(self)@),
            final(self)@ == (CatalogView {
                indexes: assoc_insert(
                    old(self)@.indexes,
                    object_key(index.table@),
                    with_index(list_at(old(self)@.indexes, object_key(index.table@)), index),
                ),
                ..old(self)@
            }),
    {
        let key = key_of(&index.table);
        let name = chars_of(index.name.as_str());
        let ghost orig = self.indexes@;
        let ghost s = self@.indexes;
        proof {
            lemma_lists_keys(orig, key@);
            lemma_key_index(s, key@);
        }
        match find_key(&self.indexes, &chars_of(key.as_str())) {
            Some(i) => {
                let mut list = swap_value(&mut self.indexes, i, Vec::new());
                match find_index_named(&list, &name) {
                    Some(p) => {
                        list.set(p, index);
                    },
                    None => {
                        list.push(index);
                    },
                }
                let _ = swap_value(&mut self.indexes, i, list);
                proof {
                    lemma_lists_update(orig, i as int, list);
                    assert(self.indexes@ =~= orig.update(i as int, (orig[i as int].0, list)));
                    lemma_insert(s, key@, list@);
                }
            },
            None => {
                let mut list: Vec<IndexDefinition> = Vec::new();
                list.push(index);
                proof {
                    lemma_lists_push(orig, key, list);
                    lemma_insert(s, key@, list@);
                    lemma_first_where(Seq::<IndexDefinition>::empty(), index_named(index.name@));
                    assert(list@ =~= with_index(list_at(s, key@), index));
                }
                self.indexes.push((key, list));
            },
        }
    }

    /// Removes the first index named `name` (compared, up to ASCII case, with its Unicode
    /// lower case), looking through the tables' lists in order, and returns it.
    pub fn remove_index(&mut self, name: &str) -> (r: Option<IndexDefinition>)
        requires
            catalog_wf(old(self)@),
        ensures
            catalog_wf(final(self)@),
            match first_where(old(self)@.indexes, holds_index(lowercase(name@))) {
                Some(t) => {
                    let list = old(self)@.indexes[t].1;
                    let p = first_where(list, index_named(lowercase(name@)))->0;
                    &&& r == Some(list[p])
                    &&& final(self)@ == (CatalogView {
                        indexes: old(self)@.indexes.update(t, (old(self)@.indexes[t].0, list.remove(p))),
                        ..old(self)@
                    })
                },
                None => r is None && final(self)@ == old(self)@,
            },
    {
        let lower = chars_of(lower_text(name).as_str());
        let ghost orig = self.indexes@;
        let ghost s = self@.indexes;
        let ghost h = holds_index(lower@);
        proof { lemma_first_where(s, h); }
        let mut t: usize = 0;
        while t < self.indexes.len()
            invariant
                t <= self.indexes@.len(),
                self.indexes@ == orig,
                self@ == old(self)@,
                catalog_wf(old(self)@),
                lower@ == lowercase(name@),
                s == lists_view(orig),
                h == holds_index(lower@),
                forall|j: int| 0 <= j < t ==> !h(#[trigger] s[j]),
            decreases self.indexes@.len() - t,
        {
            match find_index_named(&self.indexes[t].1, &lower) {
                Some(p) => {
                    proof {
                        assert(s[t as int].1 == self.indexes@[t as int].1@);
                        lemma_first_where_at(s, h, t as int);
                    }
                    let mut list = swap_value(&mut self.indexes, t, Vec::new());
                    let removed = list.remove(p);
                    let _ = swap_value(&mut self.indexes, t, list);
                    proof {
                        lemma_lists_update(orig, t as int, list);
                        assert(self.indexes@ =~= orig.update(t as int, (orig[t as int].0, list)));
                        lemma_update_keeps_unique(s, t as int);
                    }
                    return Some(removed);
                },
                None => {
                    proof { assert(s[t as int].1 == self.indexes@[t as int].1@); }
                },
            }
            t = t + 1;
        }
        None
    }

    /// Replaces the schema of an existing table.
    pub fn replace_table_schema(&mut self, schema: TableSchema) -> (r: Result<(), PlanError>)
        requires
            catalog_wf(old(self)@),
        ensures
            catalog_wf(final(self)@),
            match lookup(old(self)@.tables, object_key(schema.name@)) {
                Some(_) => r is Ok && final(self)@ == (CatalogView {
                    tables: assoc_insert(old(self)@.tables, object_key(schema.name@), schema),
                    ..old(self)@
                }),
                None => r matches Err(e) && e@ == PlanErrorView::TableNotFound(qualified_text(schema.name@))
                    && final(self)@ == old(self)@,
            },
    {
        let k = key_of(&schema.name);
        proof { lemma_key_index(self@.tables, k@); }
        match find_key(&self.tables, &chars_of(k.as_str())) {
            None => Err(PlanError::TableNotFound(schema.name.qualified_name())),
            Some(_) => {
                proof { lemma_insert(self@.tables, k@, schema); }
                insert_key(&mut self.tables, k, schema);
                Ok(())
            },
        }
    }

    /// Renames a table: its schema, its indexes and its foreign keys move to the new
    /// name, and the referencing keys that name it as child table name the new name.
    pub fn rename_table(&mut self, old_name: &TableName, new_name: &TableName) -> (r: Result<(), PlanError>)
        requires
            catalog_wf(old(self)@),
        ensures
            catalog_wf(final(self)@),
            match lookup(old(self)@.tables, object_key(old_name@)) {
                None => r matches Err(e) && e@ == PlanErrorView::TableNotFound(qualified_text(old_name@))
                    && final(self)@ == old(self)@,
                Some(schema) => if lookup(old(self)@.tables, object_key(new_name@)) is Some {
                    r matches Err(e) && e@ == PlanErrorView::TableAlreadyExists(qualified_text(new_name@))
                        && final(self)@ == old(self)@
                } else {
                    r is Ok && renamed(
                        old(self)@,
                        final(self)@,
                        object_key(old_name@),
                        object_key(new_name@),
                        schema,
                        new_name@,
                    )
                },
            },
    {
        let ok = key_of(old_name);
        let nk = key_of(new_name);
        let okc = chars_of(ok.as_str());
        let nkc = chars_of(nk.as_str());
        proof {
            lemma_key_index(self@.tables, ok@);
            lemma_key_index(self@.tables, nk@);
        }
        if find_key(&self.tables, &okc).is_none() {
            return Err(PlanError::TableNotFound(old_name.qualified_name()));
        }
        if find_key(&self.tables, &nkc).is_some() {
            return Err(PlanError::TableAlreadyExists(new_name.qualified_name()));
        }
        let ghost a = self@;
        proof { lemma_remove(a.tables, ok@); }
        let mut schema = match remove_key(&mut self.tables, &okc) {
            Some(x) => x,
            None => {
                proof { assert(false); }
                return Ok(());
            },
        };
        schema.name = new_name.duplicate();
        let ghost t = schema;
        proof { lemma_insert(self@.tables, nk@, schema); }
        insert_key(&mut self.tables, copy_string(&nk), schema);
        proof {
            lemma_insert(assoc_remove(a.tables, ok@), nk@, t);
        }
        match take_list(&mut self.indexes, &okc) {
            Some(list) => {
                let moved = move_indexes(list, new_name);
                let ghost l2 = moved@;
                put_list(&mut self.indexes, copy_string(&nk), moved);
                proof { lemma_insert(assoc_remove(a.indexes, ok@), nk@, l2); }
            },
            None => {
                proof { lemma_remove(a.indexes, ok@); }
            },
        }
        match take_list(&mut self.foreign_keys, &okc) {
            Some(list) => {
                put_list(&mut self.foreign_keys, nk, list);
            },
            None => {
                proof { lemma_remove(a.foreign_keys, ok@); }
            },
        }
        rename_children(&mut self.referencing_keys, &okc, new_name);
        Ok(())
    }

    /// Where the table `name` is found (see `table_position`).
    fn find_table(&self, name: &TableName) -> (r: Option<usize>)
        ensures
            match table_position(self@.tables, name@) {
                Some(i) => 0 <= i < self@.tables.len() && (r matches Some(j) && j as int == i),
                None => r is None,
            },
    {
        let k = key_of(name);
        let ghost s = self@.tables;
        proof { lemma_key_index(s, k@); }
        match find_key(&self.tables, &chars_of(k.as_str())) {
            Some(i) => {
                return Some(i);
            },
            None => {},
        }
        match &name.schema {
            Some(sch) => {
                let mut f = "public.".to_owned();
                let ls = lower_text(sch.as_str());
                push_str(&mut f, ls.as_str());
                push_char(&mut f, '_');
                let ln = lower_text(name.name.as_str());
                push_str(&mut f, ln.as_str());
                proof {
                    assert(f@ =~= fallback_key(sch@, name.name@));
                    lemma_key_index(s, f@);
                }
                find_key(&self.tables, &chars_of(f.as_str()))
            },
            None => {
                let mut suffix = "_".to_owned();
                let ln = lower_text(name.name.as_str());
                push_str(&mut suffix, ln.as_str());
                let sc = chars_of(suffix.as_str());
                proof {
                    reveal_strlit("_");
                    assert(sc@ =~= name_suffix(name.name@));
                }
                let ghost p = key_ends_with(name_suffix(name.name@));
                proof { lemma_first_where(s, p); }
                let mut i: usize = 0;
                while i < self.tables.len()
                    invariant
                        i <= self.tables@.len(),
                        s == self@.tables,
                        p == key_ends_with(name_suffix(name.name@)),
                        sc@ == name_suffix(name.name@),
                        table_position(s, name@) == first_where(s, p),
                        forall|j: int| 0 <= j < i ==> !p(#[trigger] s[j]),
                    decreases self.tables@.len() - i,
                {
                    if ends_with_chars(&chars_of(self.tables[i].0.as_str()), &sc) {
                        proof { lemma_first_where_at(s, p, i as int); }
                        return Some(i);
                    }
                    i = i + 1;
                }
                None
            },
        }
    }
}

impl Default for InMemoryCatalog {
    /// An empty catalog.
    fn default() -> (r: Self)
        ensures
            r@ == empty_catalog(),
            catalog_wf(r@),
    {
        InMemoryCatalog::new()
    }
}

/// What planning needs to know of the database's objects. Only the table queries must
/// be provided; the others answer that there is nothing.
pub trait Catalog {
    /// Whether the table exists.
    fn table_exists(&self, name: &TableName) -> bool;

    /// The table's schema.
    fn get_table(&self, name: &TableName) -> Option<TableSchema>;

    /// The names of all tables.
    fn list_tables(&self) -> Vec<TableName>;

    /// Whether the sequence exists.
    fn sequence_exists(&self, _name: &TableName) -> (r: bool)
        default_ensures
            !r,
    {
        false
    }

    /// The sequence's definition.
    fn get_sequence(&self, _name: &TableName) -> (r: Option<SequenceDefinition>)
        default_ensures
            r is None,
    {
        None
    }

    /// The names of all sequences.
    fn list_sequences(&self) -> (r: Vec<TableName>)
        default_ensures
            r@.len() == 0,
    {
        Vec::new()
    }

    /// The foreign keys of a table.
    fn get_foreign_keys(&self, _name: &TableName) -> (r: Vec<ForeignKeyConstraint>)
        default_ensures
            r@.len() == 0,
    {
        Vec::new()
    }

    /// The foreign keys that refer to a table.
    fn get_referencing_keys(&self, _name: &TableName) -> (r: Vec<ReferencingKey>)
        default_ensures
            r@.len() == 0,
    {
        Vec::new()
    }

    /// Whether the enum type exists.
    fn enum_type_exists(&self, _name: &TableName) -> (r: bool)
        default_ensures
            !r,
    {
        false
    }

    /// The enum type's definition.
    fn get_enum_type(&self, _name: &TableName) -> (r: Option<EnumTypeDefinition>)
        default_ensures
            r is None,
    {
        None
    }

    /// The names of all enum types.
    fn list_enum_types(&self) -> (r: Vec<TableName>)
        default_ensures
            r@.len() == 0,
    {
        Vec::new()
    }

    /// The indexes of a table.
    fn list_indexes(&self, _table: &TableName) -> (r: Vec<IndexDefinition>)
        default_ensures
            r@.len() == 0,
    {
        Vec::new()
    }
}

impl Catalog for InMemoryCatalog {
    fn table_exists(&self, name: &TableName) -> (r: bool)
        ensures
            r == table_position(self@.tables, name@) is Some,
    {
        self.find_table(name).is_some()
    }

    fn get_table(&self, name: &TableName) -> (r: Option<TableSchema>)
        ensures
            match table_position(self@.tables, name@) {
                Some(i) => r matches Some(t) && t@ == self@.tables[i].1@,
                None => r is None,
            },
    {
        match self.find_table(name) {
            Some(i) => Some(self.tables[i].1.duplicate()),
            None => None,
        }
    }

    fn list_tables(&self) -> (r: Vec<TableName>)
        ensures
            r@.len() == self@.tables.len(),
            forall|i: int| 0 <= i < r@.len() ==> #[trigger] r@[i]@ == self@.tables[i].1.name@,
    {
        let mut out: Vec<TableName> = Vec::new();
        let mut i: usize = 0;
        while i < self.tables.len()
            invariant
                i <= self.tables@.len(),
                out@.len() == i,
                forall|j: int| 0 <= j < i ==> #[trigger] out@[j]@ == self@.tables[j].1.name@,
            decreases self.tables@.len() - i,
        {
            out.push(self.tables[i].1.name.duplicate());
            i = i + 1;
        }
        out
    }

    fn sequence_exists(&self, name: &TableName) -> (r: bool)
        ensures
            r == lookup(self@.sequences, object_key(name@)) is Some,
    {
        let k = key_of(name);
        find_key(&self.sequences, &chars_of(k.as_str())).is_some()
    }

    fn get_sequence(&self, name: &TableName) -> (r: Option<SequenceDefinition>)
        ensures
            match lookup(self@.sequences, object_key(name@)) {
                Some(d) => r matches Some(x) && x@ == d@,
                None => r is None,
            },
    {
        let k = key_of(name);
        match find_key(&self.sequences, &chars_of(k.as_str())) {
            Some(i) => Some(self.sequences[i].1.duplicate()),
            None => None,
        }
    }

    fn list_sequences(&self) -> (r: Vec<TableName>)
        ensures
            r@.len() == self@.sequences.len(),
            forall|i: int| 0 <= i < r@.len() ==> #[trigger] r@[i]@ == self@.sequences[i].1.name@,
    {
        let mut out: Vec<TableName> = Vec::new();
        let mut i: usize = 0;
        while i < self.sequences.len()
            invariant
                i <= self.sequences@.len(),
                out@.len() == i,
                forall|j: int| 0 <= j < i ==> #[trigger] out@[j]@ == self@.sequences[j].1.name@,
            decreases self.sequences@.len() - i,
        {
            out.push(self.sequences[i].1.name.duplicate());
            i = i + 1;
        }
        out
    }

    fn get_foreign_keys(&self, name: &TableName) -> (r: Vec<ForeignKeyConstraint>)
        ensures
            r@.len() == list_at(self@.foreign_keys, object_key(name@)).len(),
            forall|i: int| 0 <= i < r@.len() ==> #[trigger] r@[i]@ == list_at(
                self@.foreign_keys,
                object_key(name@),
            )[i]@,
    {
        let k = key_of(name);
        proof {
            lemma_lists_keys(self.foreign_keys@, k@);
            lemma_key_index(self@.foreign_keys, k@);
        }
        let mut out: Vec<ForeignKeyConstraint> = Vec::new();
        match find_key(&self.foreign_keys, &chars_of(k.as_str())) {
            Some(i) => {
                let list = &self.foreign_keys[i].1;
                let mut j: usize = 0;
                while j < list.len()
                    invariant
                        j <= list@.len(),
                        out@.len() == j,
                        forall|q: int| 0 <= q < j ==> #[trigger] out@[q]@ == list@[q]@,
                    decreases list@.len() - j,
                {
                    out.push(list[j].duplicate());
                    j = j + 1;
                }
            },
            None => {},
        }
        out
    }

    fn get_referencing_keys(&self, name: &TableName) -> (r: Vec<ReferencingKey>)
        ensures
            r@.len() == list_at(self@.referencing_keys, object_key(name@)).len(),
            forall|i: int| 0 <= i < r@.len() ==> #[trigger] r@[i]@ == list_at(
                self@.referencing_keys,
                object_key(name@),
            )[i]@,
    {
        let k = key_of(name);
        proof {
            lemma_lists_keys(self.referencing_keys@, k@);
            lemma_key_index(self@.referencing_keys, k@);
        }
        let mut out: Vec<ReferencingKey> = Vec::new();
        match find_key(&self.referencing_keys, &chars_of(k.as_str())) {
            Some(i) => {
                let list = &self.referencing_keys[i].1;
                let mut j: usize = 0;
                while j < list.len()
                    invariant
                        j <= list@.len(),
                        out@.len() == j,
                        forall|q: int| 0 <= q < j ==> #[trigger] out@[q]@ == list@[q]@,
                    decreases list@.len() - j,
                {
                    out.push(list[j].duplicate());
                    j = j + 1;
                }
            },
            None => {},
        }
        out
    }

    fn enum_type_exists(&self, name: &TableName) -> (r: bool)
        ensures
            r == lookup(self@.enum_types, object_key(name@)) is Some,
    {
        let k = key_of(name);
        find_key(&self.enum_types, &chars_of(k.as_str())).is_some()
    }

    fn get_enum_type(&self, name: &TableName) -> (r: Option<EnumTypeDefinition>)
        ensures
            match lookup(self@.enum_types, object_key(name@)) {
                Some(d) => r matches Some(x) && x@ == d@,
                None => r is None,
            },
    {
        let k = key_of(name);
        match find_key(&self.enum_types, &chars_of(k.as_str())) {
            Some(i) => Some(self.enum_types[i].1.duplicate()),
            None => None,
        }
    }

    fn list_enum_types(&self) -> (r: Vec<TableName>)
        ensures
            r@.len() == self@.enum_types.len(),
            forall|i: int| 0 <= i < r@.len() ==> #[trigger] r@[i]@ == self@.enum_types[i].1.name@,
    {
        let mut out: Vec<TableName> = Vec::new();
        let mut i: usize = 0;
        while i < self.enum_types.len()
            invariant
                i <= self.enum_types@.len(),
                out@.len() == i,
                forall|j: int| 0 <= j < i ==> #[trigger] out@[j]@ == self@.enum_types[j].1.name@,
            decreases self.enum_types@.len() - i,
        {
            out.push(self.enum_types[i].1.name.duplicate());
            i = i + 1;
        }
        out
    }

    fn list_indexes(&self, table: &TableName) -> (r: Vec<IndexDefinition>)
        ensures
            r@.len() == list_at(self@.indexes, object_key(table@)).len(),
            forall|i: int| 0 <= i < r@.len() ==> #[trigger] r@[i]@ == list_at(
                self@.indexes,
                object_key(table@),
            )[i]@,
    {
        let k = key_of(table);
        proof {
            lemma_lists_keys(self.indexes@, k@);
            lemma_key_index(self@.indexes, k@);
        }
        let mut out: Vec<IndexDefinition> = Vec::new();
        match find_key(&self.indexes, &chars_of(k.as_str())) {
            Some(i) => {
                let list = &self.indexes[i].1;
                let mut j: usize = 0;
                while j < list.len()
                    invariant
                        j <= list@.len(),
                        out@.len() == j,
                        forall|q: int| 0 <= q < j ==> #[trigger] out@[q]@ == list@[q]@,
                    decreases list@.len() - j,
                {
                    out.push(list[j].duplicate());
                    j = j + 1;
                }
            },
            None => {},
        }
        out
    }
}


// ---------------------------------------------------------------------
//  Laws of the catalog
// ---------------------------------------------------------------------

/// A comment set on a table or a column is the comment read back under the same key;
/// setting none removes it; comments under other keys are untouched.
pub proof fn law_comment_read_back(comments: Seq<(Seq<char>, String)>, key: Seq<char>, comment: Option<String>)
    requires
        unique_keys(comments),
    ensures
        ({
            let after = match comment {
                Some(c) => assoc_insert(comments, key, c),
                None => assoc_remove(comments, key),
            };
            &&& lookup(after, key) == comment
            &&& unique_keys(after)
            &&& forall|k: Seq<char>| k != key ==> #[trigger] lookup(after, k) == lookup(comments, k)
        }),
{
    match comment {
        Some(c) => lemma_insert(comments, key, c),
        None => lemma_remove(comments, key),
    }
}

/// A table just added is the one found under its name.
pub proof fn law_added_table_found(tables: Seq<(Seq<char>, TableSchema)>, schema: TableSchema)
    requires
        unique_keys(tables),
    ensures
        ({
            let after = assoc_insert(tables, object_key(schema.name@), schema);
            table_position(after, schema.name@) matches Some(i) && after[i].1 == schema
        }),
{
    let k = object_key(schema.name@);
    let after = assoc_insert(tables, k, schema);
    lemma_insert(tables, k, schema);
    lemma_key_index(after, k);
}

/// After a table is removed, nothing is stored under its key.
pub proof fn law_removed_table_gone(tables: Seq<(Seq<char>, TableSchema)>, name: TableNameView)
    requires
        unique_keys(tables),
    ensures
        lookup(assoc_remove(tables, object_key(name)), object_key(name)) is None,
{
    lemma_remove(tables, object_key(name));
}

/// After a rename, the table is found under the new key with its columns, and nothing
/// is stored under the old key.
pub proof fn law_rename_moves_table(
    a: CatalogView,
    b: CatalogView,
    ok: Seq<char>,
    nk: Seq<char>,
    schema: TableSchema,
    new_name: TableNameView,
)
    requires
        catalog_wf(a),
        lookup(a.tables, ok) == Some(schema),
        lookup(a.tables, nk) is None,
        renamed(a, b, ok, nk, schema, new_name),
    ensures
        lookup(b.tables, nk) matches Some(t) && t@.columns == schema@.columns && t@.name == new_name,
        lookup(b.tables, ok) is None,
{
    lemma_key_index(a.tables, ok);
    lemma_key_index(a.tables, nk);
    lemma_remove(a.tables, ok);
    let t = lookup(b.tables, nk)->0;
    lemma_insert(assoc_remove(a.tables, ok), nk, t);
}

/// A signature matches itself.
proof fn lemma_types_match_self(params: Seq<FunctionParameter>)
    ensures
        types_match(params, parameter_types(params)),
{
}

/// A function added under a name that had none can be dropped again by its parameter
/// types, and the name then has no function.
pub proof fn law_added_function_can_be_dropped(
    fs: Seq<(Seq<char>, Seq<FunctionDefinition>)>,
    def: FunctionDefinition,
    or_replace: bool,
    if_exists: bool,
)
    requires
        unique_keys(fs),
        list_at(fs, lowercase(def.name@)).len() == 0,
    ensures
        add_function_outcome(fs, def, or_replace) matches Ok(added) && drop_function_outcome(
            added,
            def.name@,
            parameter_types(def.parameters@),
            if_exists,
        ) matches Ok((dropped, after)) && dropped && list_at(after, lowercase(def.name@)).len() == 0,
{
    let key = lowercase(def.name@);
    let types = parameter_types(def.parameters@);
    lemma_first_where(list_at(fs, key), has_types(types));
    let l = list_at(fs, key).push(def);
    assert(l =~= seq![def]);
    let added = assoc_insert(fs, key, l);
    lemma_insert(fs, key, l);
    lemma_types_match_self(def.parameters@);
    assert(has_types(types)(l[0]));
    lemma_first_where_at(l, has_types(types), 0);
    if types.len() == 0 {
        lemma_insert(added, key, Seq::empty());
    } else {
        lemma_insert(added, key, l.remove(0));
        assert(l.remove(0) =~= Seq::<FunctionDefinition>::empty());
    }
}

/// Adding a function leaves every other name's functions as they were.
pub proof fn law_add_function_keeps_others(
    fs: Seq<(Seq<char>, Seq<FunctionDefinition>)>,
    def: FunctionDefinition,
    or_replace: bool,
    other: Seq<char>,
)
    requires
        unique_keys(fs),
        other != lowercase(def.name@),
    ensures
        add_function_outcome(fs, def, or_replace) matches Ok(added) ==> lookup(added, other) == lookup(fs, other),
{
    let key = lowercase(def.name@);
    let list = list_at(fs, key);
    lemma_insert(fs, key, list.push(def));
    match first_where(list, has_types(parameter_types(def.parameters@))) {
        Some(i) => lemma_insert(fs, key, list.update(i, def)),
        None => {},
    }
}


/// Two ASCII names that differ only in ASCII case have the same lower case.
pub proof fn lemma_ascii_case_same_key(a: Seq<char>, b: Seq<char>)
    requires
        is_ascii_text(a),
        is_ascii_text(b),
        same_ci(a, b),
    ensures
        ascii_lower_seq(a) == ascii_lower_seq(b),
{
    assert forall|i: int| 0 <= i < a.len() implies #[trigger] ascii_lower(a[i]) == ascii_lower(b[i]) by {
        assert(upper(a[i]) == upper(b[i]));
        assert((a[i] as u32) < 128 && (b[i] as u32) < 128);
    }
    assert(ascii_lower_seq(a) =~= ascii_lower_seq(b));
}

/// A function added without replacing is the last overload listed under its name, and
/// under every ASCII-case variant of it.
pub proof fn law_added_function_listed_last(
    fs: Seq<(Seq<char>, Seq<FunctionDefinition>)>,
    def: FunctionDefinition,
    name: Seq<char>,
)
    requires
        unique_keys(fs),
        add_function_outcome(fs, def, false) is Ok,
        lowercase(name) == lowercase(def.name@),
    ensures
        ({
            let after = add_function_outcome(fs, def, false)->Ok_0;
            let l = list_at(after, lowercase(name));
            l.len() > 0 && l.last() == def
        }),
{
    let key = lowercase(def.name@);
    let list = list_at(fs, key);
    lemma_insert(fs, key, list.push(def));
}

/// ASCII names that differ only in ASCII case have the same catalog key, given what the
/// function lookups state of the lower case of ASCII names.
pub proof fn law_ascii_case_variants_share_key(a: Seq<char>, b: Seq<char>)
    requires
        is_ascii_text(a),
        is_ascii_text(b),
        same_ci(a, b),
        lowercase(a) == ascii_lower_seq(a),
        lowercase(b) == ascii_lower_seq(b),
    ensures
        lowercase(a) == lowercase(b),
{
    lemma_ascii_case_same_key(a, b);
}

} // verus!
