//! Online schema changes through a shadow table.
//!
//! A change runs through a fixed sequence of phases: a shadow table with the
//! source's structure is created, the change is applied to its schema, the rows are
//! copied chunk by chunk with the change applied to each row, the copy is checked
//! (row count and checksum), the shadow table takes the original name, and the task
//! completes.

use vstd::prelude::*;
use crate::text::{copy_string, push_char, push_str, push_quoted_ident, push_decimal, push_decimal_padded, quote_ident, decimal, zero_pad, chars_of};

verus! {

/// Rows copied per chunk by default.
pub const DEFAULT_CHUNK_SIZE: usize = 10_000;

/// Lock timeout in milliseconds by default.
pub const DEFAULT_LOCK_TIMEOUT_MS: u64 = 5_000;

/// Retries allowed by default.
pub const DEFAULT_MAX_RETRIES: u32 = 3;

/// Largest number of mismatching row positions that a verification records.
pub const MAX_MISMATCH_RECORDS: usize = 100;

// ---------------------------------------------------------------------
//  ColumnDefinition
// ---------------------------------------------------------------------

/// One column of a table.
#[derive(Debug, Clone, PartialEq, Eq)]
pub struct ColumnDefinition {
    /// Column name.
    pub name: String,
    /// Type name, such as "INT" or "VARCHAR(255)".
    pub data_type: String,
    /// Whether the column accepts NULL.
    pub nullable: bool,
    /// Default value expression.
    pub default_value: Option<String>,
}

/// The abstract content of a column definition.
pub struct ColumnView {
    pub name: Seq<char>,
    pub data_type: Seq<char>,
    pub nullable: bool,
    pub default_value: Option<Seq<char>>,
}

/// The view of an optional string.
pub open spec fn opt_view(o: Option<String>) -> Option<Seq<char>> {
    match o {
        Some(s) => Some(s@),
        None => None,
    }
}

fn copy_opt_string(o: &Option<String>) -> (res: Option<String>)
    ensures
        opt_view(res) == opt_view(*o),
{
    match o {
        Some(s) => Some(copy_string(s)),
        None => None,
    }
}

impl View for ColumnDefinition {
    type V = ColumnView;

    open spec fn view(&self) -> ColumnView {
        ColumnView {
            name: self.name@,
            data_type: self.data_type@,
            nullable: self.nullable,
            default_value: opt_view(self.default_value),
        }
    }
}

impl ColumnDefinition {
    /// A nullable column without default.
    pub fn new(name: &str, data_type: &str) -> (res: Self)
        ensures
            res@ == (ColumnView { name: name@, data_type: data_type@, nullable: true, default_value: None }),
    {
        ColumnDefinition {
            name: name.to_owned(),
            data_type: data_type.to_owned(),
            nullable: true,
            default_value: None,
        }
    }

    /// The same column, marked NOT NULL.
    pub fn not_null(self) -> (res: Self)
        ensures
            res@ == (ColumnView { nullable: false, ..self@ }),
    {
        let mut s = self;
        s.nullable = false;
        s
    }

    /// The same column with the given default value.
    pub fn with_default(self, value: &str) -> (res: Self)
        ensures
            res@ == (ColumnView { default_value: Some(value@), ..self@ }),
    {
        let mut s = self;
        s.default_value = Some(value.to_owned());
        s
    }

    /// A copy of this column.
    pub fn duplicate(&self) -> (res: Self)
        ensures
            res@ == self@,
    {
        ColumnDefinition {
            name: copy_string(&self.name),
            data_type: copy_string(&self.data_type),
            nullable: self.nullable,
            default_value: copy_opt_string(&self.default_value),
        }
    }
}

// ---------------------------------------------------------------------
//  TableSchema
// ---------------------------------------------------------------------

/// The ordered columns of a table.
#[derive(Debug, Clone, PartialEq, Eq)]
pub struct TableSchema {
    /// Columns in order.
    pub columns: Vec<ColumnDefinition>,
}

/// The views of a sequence of columns.
pub open spec fn columns_view(cols: Seq<ColumnDefinition>) -> Seq<ColumnView> {
    cols.map_values(|c: ColumnDefinition| c@)
}

/// `i` is the first position in `cols` whose name is `name`.
pub open spec fn is_first_column(cols: Seq<ColumnView>, name: Seq<char>, i: int) -> bool {
    &&& 0 <= i < cols.len()
    &&& cols[i].name == name
    &&& forall|j: int| 0 <= j < i ==> cols[j].name != name
}

/// No column in `cols` has the name `name`.
pub open spec fn no_column(cols: Seq<ColumnView>, name: Seq<char>) -> bool {
    forall|j: int| 0 <= j < cols.len() ==> cols[j].name != name
}

/// The position of the first column named `name`, if there is one.
pub open spec fn column_position(cols: Seq<ColumnView>, name: Seq<char>) -> Option<int>
    decreases cols.len(),
{
    if cols.len() == 0 {
        None
    } else {
        match column_position(cols.drop_last(), name) {
            Some(i) => Some(i),
            None => if cols.last().name == name { Some(cols.len() - 1) } else { None },
        }
    }
}

/// `column_position` finds the first column with the name, or tells that there is none.
pub proof fn lemma_column_position(cols: Seq<ColumnView>, name: Seq<char>)
    ensures
        match column_position(cols, name) {
            Some(i) => is_first_column(cols, name, i),
            None => no_column(cols, name),
        },
    decreases cols.len(),
{
    if cols.len() > 0 {
        let prefix = cols.drop_last();
        lemma_column_position(prefix, name);
        assert(forall|j: int| 0 <= j < prefix.len() ==> prefix[j] == cols[j]);
    }
}

/// `column_position` is the unique first match.
pub proof fn lemma_column_position_unique(cols: Seq<ColumnView>, name: Seq<char>, i: int)
    requires
        is_first_column(cols, name, i),
    ensures
        column_position(cols, name) == Some(i),
{
    lemma_column_position(cols, name);
}

/// `column_position` is `None` exactly when no column has the name.
pub proof fn lemma_column_position_none(cols: Seq<ColumnView>, name: Seq<char>)
    requires
        no_column(cols, name),
    ensures
        column_position(cols, name) is None,
{
    lemma_column_position(cols, name);
}

impl View for TableSchema {
    type V = Seq<ColumnView>;

    open spec fn view(&self) -> Seq<ColumnView> {
        columns_view(self.columns@)
    }
}

impl TableSchema {
    /// A schema without columns.
    pub fn new() -> (res: Self)
        ensures
            res@ == Seq::<ColumnView>::empty(),
    {
        TableSchema { columns: Vec::new() }
    }

    /// A schema with the given columns.
    pub fn from_columns(columns: Vec<ColumnDefinition>) -> (res: Self)
        ensures
            res.columns@ == columns@,
            res@ == columns_view(columns@),
    {
        TableSchema { columns }
    }

    /// Appends a column.
    pub fn add_column(&mut self, col: ColumnDefinition)
        ensures
            final(self)@ == old(self)@.push(col@),
    {
        self.columns.push(col);
        assert(self@ =~= old(self)@.push(col@));
    }

    /// The number of columns.
    pub fn column_count(&self) -> (res: usize)
        ensures
            res == self@.len(),
    {
        self.columns.len()
    }

    /// The position of the first column named `name`.
    pub fn find_column(&self, name: &str) -> (res: Option<usize>)
        ensures
            match res {
                Some(i) => is_first_column(self@, name@, i as int),
                None => no_column(self@, name@),
            },
            res matches Some(i) ==> column_position(self@, name@) == Some(i as int),
            res is None ==> column_position(self@, name@) is None,
    {
        let target = name.to_owned();
        let mut i: usize = 0;
        while i < self.columns.len()
            invariant
                i <= self.columns@.len(),
                target@ == name@,
                forall|j: int| 0 <= j < i ==> self@[j].name != name@,
            decreases self.columns@.len() - i,
        {
            if self.columns[i].name == target {
                proof {
                    lemma_column_position_unique(self@, name@, i as int);
                }
                return Some(i);
            }
            i = i + 1;
        }
        proof {
            lemma_column_position_none(self@, name@);
        }
        None
    }

    /// Whether a column named `name` exists.
    pub fn contains_column(&self, name: &str) -> (res: bool)
        ensures
            res == exists|j: int| 0 <= j < self@.len() && self@[j].name == name@,
            res == (column_position(self@, name@) is Some),
    {
        self.find_column(name).is_some()
    }

    /// Removes the first column named `name`; tells whether one was removed.
    pub fn drop_column(&mut self, name: &str) -> (res: bool)
        ensures
            final(self)@ == schema_drop(old(self)@, name@),
            res == (column_position(old(self)@, name@) is Some),
    {
        match self.find_column(name) {
            Some(idx) => {
                self.columns.remove(idx);
                assert(self@ =~= old(self)@.remove(idx as int));
                true
            }
            None => false,
        }
    }

    /// Sets the type of the first column named `name`; tells whether one was found.
    pub fn modify_column(&mut self, name: &str, new_type: &str) -> (res: bool)
        ensures
            final(self)@ == schema_modify(old(self)@, name@, new_type@),
            res == (column_position(old(self)@, name@) is Some),
    {
        match self.find_column(name) {
            Some(idx) => {
                let mut col = self.columns.remove(idx);
                col.data_type = new_type.to_owned();
                self.columns.insert(idx, col);
                assert(self@ =~= old(self)@.update(idx as int, ColumnView { data_type: new_type@, ..old(self)@[idx as int] }));
                true
            }
            None => false,
        }
    }

    /// Renames the first column named `old_name`; tells whether one was found.
    pub fn rename_column(&mut self, old_name: &str, new_name: &str) -> (res: bool)
        ensures
            final(self)@ == schema_rename(old(self)@, old_name@, new_name@),
            res == (column_position(old(self)@, old_name@) is Some),
    {
        match self.find_column(old_name) {
            Some(idx) => {
                let mut col = self.columns.remove(idx);
                col.name = new_name.to_owned();
                self.columns.insert(idx, col);
                assert(self@ =~= old(self)@.update(idx as int, ColumnView { name: new_name@, ..old(self)@[idx as int] }));
                true
            }
            None => false,
        }
    }

    /// A copy of this schema.
    pub fn duplicate(&self) -> (res: Self)
        ensures
            res@ == self@,
    {
        let mut cols: Vec<ColumnDefinition> = Vec::new();
        let mut i: usize = 0;
        while i < self.columns.len()
            invariant
                i <= self.columns@.len(),
                cols@.len() == i,
                forall|k: int| 0 <= k < i ==> #[trigger] cols@[k]@ == self.columns@[k]@,
            decreases self.columns@.len() - i,
        {
            cols.push(self.columns[i].duplicate());
            i = i + 1;
        }
        assert(columns_view(cols@) =~= self@);
        TableSchema { columns: cols }
    }
}

/// The schema without its first column named `name` (unchanged if there is none).
pub open spec fn schema_drop(cols: Seq<ColumnView>, name: Seq<char>) -> Seq<ColumnView> {
    match column_position(cols, name) {
        Some(i) => cols.remove(i),
        None => cols,
    }
}

/// The schema with the type of its first column named `name` replaced.
pub open spec fn schema_modify(cols: Seq<ColumnView>, name: Seq<char>, new_type: Seq<char>) -> Seq<ColumnView> {
    match column_position(cols, name) {
        Some(i) => cols.update(i, ColumnView { data_type: new_type, ..cols[i] }),
        None => cols,
    }
}

/// The schema with its first column named `old_name` renamed.
pub open spec fn schema_rename(cols: Seq<ColumnView>, old_name: Seq<char>, new_name: Seq<char>) -> Seq<ColumnView> {
    match column_position(cols, old_name) {
        Some(i) => cols.update(i, ColumnView { name: new_name, ..cols[i] }),
        None => cols,
    }
}

/// Dropping a column just added under a new name gives back the schema.
pub proof fn law_add_then_drop(cols: Seq<ColumnView>, col: ColumnView)
    requires
        no_column(cols, col.name),
    ensures
        schema_drop(cols.push(col), col.name) == cols,
{
    let after = cols.push(col);
    assert(is_first_column(after, col.name, cols.len() as int));
    lemma_column_position_unique(after, col.name, cols.len() as int);
    assert(after.remove(cols.len() as int) =~= cols);
}

/// Renaming a column to a name no column has, and back, gives back the schema.
pub proof fn law_rename_round_trip(cols: Seq<ColumnView>, old_name: Seq<char>, new_name: Seq<char>)
    requires
        no_column(cols, new_name),
    ensures
        schema_rename(schema_rename(cols, old_name, new_name), new_name, old_name) == cols,
{
    lemma_column_position(cols, old_name);
    match column_position(cols, old_name) {
        Some(i) => {
            let mid = schema_rename(cols, old_name, new_name);
            assert(is_first_column(mid, new_name, i));
            lemma_column_position_unique(mid, new_name, i);
            assert(mid.update(i, ColumnView { name: old_name, ..mid[i] }) =~= cols);
        },
        None => {
            lemma_column_position_none(cols, new_name);
        },
    }
}

/// Changing a column's type keeps the column names in place.
pub proof fn law_modify_keeps_names(cols: Seq<ColumnView>, name: Seq<char>, new_type: Seq<char>)
    ensures
        schema_modify(cols, name, new_type).len() == cols.len(),
        forall|j: int| 0 <= j < cols.len() ==> #[trigger] schema_modify(cols, name, new_type)[j].name == cols[j].name,
{
    lemma_column_position(cols, name);
}

impl Default for TableSchema {
    fn default() -> (res: Self)
        ensures
            res@ == Seq::<ColumnView>::empty(),
    {
        Self::new()
    }
}

// ---------------------------------------------------------------------
//  Row
// ---------------------------------------------------------------------

/// A row of cell values, one per column, in column order.
#[derive(Debug, Clone, PartialEq, Eq)]
pub struct Row {
    /// Cell values.
    pub values: Vec<String>,
}

/// The views of a sequence of strings.
pub open spec fn strings_view(v: Seq<String>) -> Seq<Seq<char>> {
    v.map_values(|s: String| s@)
}

impl View for Row {
    type V = Seq<Seq<char>>;

    open spec fn view(&self) -> Seq<Seq<char>> {
        strings_view(self.values@)
    }
}

/// Copies a vector of strings.
pub fn copy_strings(v: &Vec<String>) -> (res: Vec<String>)
    ensures
        strings_view(res@) == strings_view(v@),
{
    let mut out: Vec<String> = Vec::new();
    let mut i: usize = 0;
    while i < v.len()
        invariant
            i <= v@.len(),
            out@.len() == i,
            forall|k: int| 0 <= k < i ==> #[trigger] out@[k]@ == v@[k]@,
        decreases v@.len() - i,
    {
        out.push(copy_string(&v[i]));
        i = i + 1;
    }
    assert(strings_view(out@) =~= strings_view(v@));
    out
}

impl Row {
    /// A row with the given values.
    pub fn new(values: Vec<String>) -> (res: Self)
        ensures
            res.values@ == values@,
            res@ == strings_view(values@),
    {
        Row { values }
    }

    /// A row without values.
    pub fn empty() -> (res: Self)
        ensures
            res@ == Seq::<Seq<char>>::empty(),
    {
        Row { values: Vec::new() }
    }

    /// The number of values.
    pub fn len(&self) -> (res: usize)
        ensures
            res == self@.len(),
    {
        self.values.len()
    }

    /// Whether the row has no values.
    pub fn is_empty(&self) -> (res: bool)
        ensures
            res == (self@.len() == 0),
    {
        self.values.len() == 0
    }

    /// The value at position `idx`.
    pub fn get(&self, idx: usize) -> (res: Option<&str>)
        ensures
            match res {
                Some(s) => idx < self@.len() && s@ == self@[idx as int],
                None => idx >= self@.len(),
            },
    {
        if idx < self.values.len() {
            Some(self.values[idx].as_str())
        } else {
            None
        }
    }

    /// Appends a value.
    pub fn push(&mut self, value: &str)
        ensures
            final(self)@ == old(self)@.push(value@),
    {
        self.values.push(value.to_owned());
        assert(self@ =~= old(self)@.push(value@));
    }

    /// A copy of this row.
    pub fn duplicate(&self) -> (res: Self)
        ensures
            res@ == self@,
    {
        Row { values: copy_strings(&self.values) }
    }
}

/// Compares two rows value by value.
pub fn rows_equal(a: &Row, b: &Row) -> (res: bool)
    ensures
        res == (a@ == b@),
{
    if a.values.len() != b.values.len() {
        assert(a@.len() != b@.len());
        return false;
    }
    let mut i: usize = 0;
    while i < a.values.len()
        invariant
            i <= a@.len(),
            a@.len() == b@.len(),
            forall|j: int| 0 <= j < i ==> a@[j] == b@[j],
        decreases a@.len() - i,
    {
        if !(a.values[i] == b.values[i]) {
            assert(a@[i as int] != b@[i as int]);
            return false;
        }
        i = i + 1;
    }
    assert(a@ =~= b@);
    true
}


// ---------------------------------------------------------------------
//  TableSnapshot
// ---------------------------------------------------------------------

/// A table held in memory: name, schema and rows.
#[derive(Debug, Clone)]
pub struct TableSnapshot {
    /// Table name.
    pub name: String,
    /// Table structure.
    pub schema: TableSchema,
    /// Rows in insertion order.
    pub rows: Vec<Row>,
}

/// The views of a sequence of rows.
pub open spec fn rows_view(rows: Seq<Row>) -> Seq<Seq<Seq<char>>> {
    rows.map_values(|r: Row| r@)
}

/// The abstract content of a table snapshot.
pub struct SnapshotView {
    pub name: Seq<char>,
    pub schema: Seq<ColumnView>,
    pub rows: Seq<Seq<Seq<char>>>,
}

impl View for TableSnapshot {
    type V = SnapshotView;

    open spec fn view(&self) -> SnapshotView {
        SnapshotView { name: self.name@, schema: self.schema@, rows: rows_view(self.rows@) }
    }
}

/// The FNV-1a offset basis (64 bit).
pub const FNV_OFFSET_BASIS: u64 = 0xcbf29ce484222325;

/// The FNV-1a prime (64 bit).
pub const FNV_PRIME: u64 = 0x100000001b3;

/// The 64-bit FNV-1a hash of a byte sequence.
pub open spec fn fnv1a_hash(bytes: Seq<u8>) -> u64
    decreases bytes.len(),
{
    if bytes.len() == 0 {
        FNV_OFFSET_BASIS
    } else {
        (fnv1a_hash(bytes.drop_last()) ^ (bytes.last() as u64)).wrapping_mul(FNV_PRIME)
    }
}

/// Folds the hashes of `vals` into `h`: each step multiplies by 31 and adds the
/// hash of the value's UTF-8 bytes, wrapping at 64 bits.
pub open spec fn fold_values(h: u64, vals: Seq<Seq<char>>) -> u64
    decreases vals.len(),
{
    if vals.len() == 0 {
        h
    } else {
        fold_values(h, vals.drop_last()).wrapping_mul(31).wrapping_add(
            fnv1a_hash(vstd::utf8::encode_utf8(vals.last())),
        )
    }
}

/// The checksum of a sequence of rows: all values folded in row order, from 0.
pub open spec fn rows_checksum(rows: Seq<Seq<Seq<char>>>) -> u64
    decreases rows.len(),
{
    if rows.len() == 0 {
        0
    } else {
        fold_values(rows_checksum(rows.drop_last()), rows.last())
    }
}

/// Multiplying by 31 modulo 2^64 loses nothing: 31 is odd, so it has an inverse.
proof fn lemma_times_31_injective(x: u64, y: u64)
    requires
        x.wrapping_mul(31) == y.wrapping_mul(31),
    ensures
        x == y,
{
    let m: int = 0x10000000000000000;
    let inv: int = 0xef7bdef7bdef7bdf;
    assert(31 * inv == 1 + 29 * m);
    assert forall|z: u64| ((z.wrapping_mul(31) as int) * inv) % m == z as int by {
        assert(z.wrapping_mul(31) as int == (z as int * 31) % m);
        vstd::arithmetic::div_mod::lemma_mul_mod_noop_left(z as int * 31, inv, m);
        assert((z as int * 31) * inv == (z as int) * (31 * inv)) by (nonlinear_arith);
        assert((z as int) * (1 + 29 * m) == m * (29 * z as int) + z as int) by (nonlinear_arith);
        vstd::arithmetic::div_mod::lemma_mod_multiples_vanish(29 * z as int, z as int, m);
        vstd::arithmetic::div_mod::lemma_small_mod(z as nat, m as nat);
    }
}

/// Folding the same values into two different hashes gives different results.
proof fn lemma_fold_values_injective(h1: u64, h2: u64, vals: Seq<Seq<char>>)
    requires
        fold_values(h1, vals) == fold_values(h2, vals),
    ensures
        h1 == h2,
    decreases vals.len(),
{
    if vals.len() > 0 {
        let a = fold_values(h1, vals.drop_last());
        let b = fold_values(h2, vals.drop_last());
        let c = fnv1a_hash(vstd::utf8::encode_utf8(vals.last()));
        assert(a.wrapping_mul(31).wrapping_add(c) == b.wrapping_mul(31).wrapping_add(c));
        assert(a.wrapping_mul(31) == b.wrapping_mul(31));
        lemma_times_31_injective(a, b);
        lemma_fold_values_injective(h1, h2, vals.drop_last());
    }
}

/// Folding two runs of values one after the other is folding them joined.
proof fn lemma_fold_values_concat(h: u64, a: Seq<Seq<char>>, b: Seq<Seq<char>>)
    ensures
        fold_values(h, a + b) == fold_values(fold_values(h, a), b),
    decreases b.len(),
{
    if b.len() == 0 {
        assert(a + b =~= a);
    } else {
        lemma_fold_values_concat(h, a, b.drop_last());
        assert((a + b).drop_last() =~= a + b.drop_last());
        assert((a + b).last() == b.last());
    }
}

/// The checksum of rows is every value of every row, in row order and in order
/// within each row, folded into 0.
pub proof fn law_checksum_folds_every_value(rows: Seq<Seq<Seq<char>>>)
    ensures
        rows_checksum(rows) == fold_values(0, rows.flatten()),
    decreases rows.len(),
{
    rows.lemma_flatten_and_flatten_alt_are_equivalent();
    if rows.len() > 0 {
        law_checksum_folds_every_value(rows.drop_last());
        rows.drop_last().lemma_flatten_and_flatten_alt_are_equivalent();
        lemma_fold_values_concat(0, rows.drop_last().flatten(), rows.last());
    } else {
        assert(rows.flatten() =~= Seq::<Seq<char>>::empty());
    }
}

/// Earlier rows are never lost from the checksum: two row lists that end in the same
/// row have equal checksums exactly when the rows before that row do.
pub proof fn law_checksum_keeps_earlier_rows(
    a: Seq<Seq<Seq<char>>>,
    b: Seq<Seq<Seq<char>>>,
    r: Seq<Seq<char>>,
)
    ensures
        rows_checksum(a.push(r)) == rows_checksum(b.push(r)) <==> rows_checksum(a)
            == rows_checksum(b),
{
    assert(a.push(r).drop_last() =~= a);
    assert(b.push(r).drop_last() =~= b);
    if rows_checksum(a.push(r)) == rows_checksum(b.push(r)) {
        lemma_fold_values_injective(rows_checksum(a), rows_checksum(b), r);
    }
}

/// FNV-1a hash of a byte slice.
pub fn fnv1a_64(bytes: &[u8]) -> (res: u64)
    ensures
        res == fnv1a_hash(bytes@),
{
    let mut hash: u64 = FNV_OFFSET_BASIS;
    let mut i: usize = 0;
    while i < bytes.len()
        invariant
            i <= bytes@.len(),
            hash == fnv1a_hash(bytes@.take(i as int)),
        decreases bytes@.len() - i,
    {
        assert(bytes@.take(i + 1).drop_last() =~= bytes@.take(i as int));
        hash = hash ^ (bytes[i] as u64);
        hash = hash.wrapping_mul(FNV_PRIME);
        i = i + 1;
    }
    assert(bytes@.take(bytes@.len() as int) =~= bytes@);
    hash
}

impl TableSnapshot {
    /// An empty table with the given name and schema.
    pub fn new(name: &str, schema: TableSchema) -> (res: Self)
        ensures
            res@ == (SnapshotView { name: name@, schema: schema@, rows: Seq::empty() }),
            res.schema == schema,
    {
        let res = TableSnapshot { name: name.to_owned(), schema, rows: Vec::new() };
        assert(res@.rows =~= Seq::<Seq<Seq<char>>>::empty());
        res
    }

    /// The table name.
    pub fn name(&self) -> (res: &str)
        ensures
            res@ == self@.name,
    {
        self.name.as_str()
    }

    /// The number of rows.
    pub fn row_count(&self) -> (res: u64)
        ensures
            res == self.rows@.len(),
    {
        self.rows.len() as u64
    }

    /// The number of columns.
    pub fn column_count(&self) -> (res: usize)
        ensures
            res == self@.schema.len(),
    {
        self.schema.column_count()
    }

    /// Appends a row.
    pub fn insert_row(&mut self, row: Row)
        ensures
            final(self)@ == (SnapshotView { rows: old(self)@.rows.push(row@), ..old(self)@ }),
            final(self).schema == old(self).schema,
    {
        self.rows.push(row);
        assert(self@.rows =~= old(self)@.rows.push(row@));
    }

    /// Appends rows in order.
    pub fn insert_rows(&mut self, rows: Vec<Row>)
        ensures
            final(self)@ == (SnapshotView { rows: old(self)@.rows + rows_view(rows@), ..old(self)@ }),
            final(self).schema == old(self).schema,
    {
        let ghost added = rows@;
        let mut rows = rows;
        self.rows.append(&mut rows);
        assert(self@.rows =~= old(self)@.rows + rows_view(added));
    }

    /// Removes all rows.
    pub fn clear_rows(&mut self)
        ensures
            final(self)@ == (SnapshotView { rows: Seq::empty(), ..old(self)@ }),
            final(self).schema == old(self).schema,
    {
        self.rows.clear();
        assert(self@.rows =~= Seq::<Seq<Seq<char>>>::empty());
    }

    /// The checksum of all values, row by row and column by column.
    pub fn checksum(&self) -> (res: u64)
        ensures
            res == rows_checksum(self@.rows),
    {
        let mut hash: u64 = 0;
        let mut i: usize = 0;
        while i < self.rows.len()
            invariant
                i <= self.rows@.len(),
                hash == rows_checksum(self@.rows.take(i as int)),
            decreases self.rows@.len() - i,
        {
            let row = &self.rows[i];
            let ghost vals = row@;
            let ghost base = hash;
            let mut j: usize = 0;
            while j < row.values.len()
                invariant
                    j <= row.values@.len(),
                    vals == row@,
                    hash == fold_values(base, vals.take(j as int)),
                decreases row.values@.len() - j,
            {
                assert(vals.take(j + 1).drop_last() =~= vals.take(j as int));
                let h = fnv1a_64(row.values[j].as_str().as_bytes());
                hash = hash.wrapping_mul(31).wrapping_add(h);
                j = j + 1;
            }
            assert(vals.take(vals.len() as int) =~= vals);
            assert(self@.rows.take(i + 1).drop_last() =~= self@.rows.take(i as int));
            i = i + 1;
        }
        assert(self@.rows.take(self@.rows.len() as int) =~= self@.rows);
        hash
    }

    /// The rows split into consecutive chunks of `max(chunk_size, 1)` rows; only the
    /// last chunk may be shorter.
    pub fn chunked_iter(&self, chunk_size: usize) -> (res: Vec<&[Row]>)
        ensures
            ({
                let k = if chunk_size == 0 { 1int } else { chunk_size as int };
                let n = self.rows@.len() as int;
                &&& res@.len() * k >= n
                &&& (res@.len() == 0 || (res@.len() - 1) * k < n)
                &&& forall|j: int| 0 <= j < res@.len() ==>
                    #[trigger] res@[j]@ == self.rows@.subrange(j * k, if (j + 1) * k < n { (j + 1) * k } else { n })
            }),
    {
        let k: usize = if chunk_size == 0 { 1 } else { chunk_size };
        let n = self.rows.len();
        let all = self.rows.as_slice();
        let mut res: Vec<&[Row]> = Vec::new();
        let mut start: usize = 0;
        assert(res@.len() * k == 0) by (nonlinear_arith)
            requires
                res@.len() == 0,
        ;
        while start < n
            invariant
                k >= 1,
                k == (if chunk_size == 0 { 1usize } else { chunk_size }),
                n == self.rows@.len(),
                all@ == self.rows@,
                start <= n,
                res@.len() * k >= start,
                start == n || start == res@.len() * k,
                res@.len() == 0 || (res@.len() - 1) * k < start,
                forall|j: int| 0 <= j < res@.len() ==>
                    #[trigger] res@[j]@ == self.rows@.subrange(j * k, if (j + 1) * k < n { (j + 1) * k } else { n as int }),
            decreases n - start,
        {
            let end = if n - start > k { start + k } else { n };
            let chunk = &all[start..end];
            let ghost j = res@.len() as int;
            assert((j + 1) * k == j * k + k) by (nonlinear_arith);
            res.push(chunk);
            assert(res@[j]@ == self.rows@.subrange(j * k, if (j + 1) * k < n { (j + 1) * k } else { n as int }));
            start = end;
        }
        res
    }
}

// ---------------------------------------------------------------------
//  DdlOperation
// ---------------------------------------------------------------------

/// A schema change that the shadow-table procedure supports.
#[derive(Debug, Clone, PartialEq, Eq)]
pub enum DdlOperation {
    /// Add a column.
    AddColumn {
        /// Column name.
        name: String,
        /// Column type.
        data_type: String,
        /// Default value expression.
        default_value: Option<String>,
    },
    /// Drop a column.
    DropColumn {
        /// Column name.
        name: String,
    },
    /// Change the type of a column.
    ModifyColumn {
        /// Column name.
        name: String,
        /// New type.
        new_type: String,
    },
    /// Rename a column.
    RenameColumn {
        /// Current name.
        old_name: String,
        /// New name.
        new_name: String,
    },
    /// Add an index.
    AddIndex {
        /// Index name.
        name: String,
        /// Indexed columns.
        columns: Vec<String>,
    },
    /// Drop an index.
    DropIndex {
        /// Index name.
        name: String,
    },
}

/// The quoted names, separated by ", ".
pub open spec fn quoted_list(names: Seq<Seq<char>>) -> Seq<char>
    decreases names.len(),
{
    if names.len() == 0 {
        Seq::empty()
    } else if names.len() == 1 {
        quote_ident(names[0])
    } else {
        quoted_list(names.drop_last()) + ", "@ + quote_ident(names.last())
    }
}

/// The column list keeps the order given: a name added at the end of a non-empty list
/// is quoted after a comma at the end of the list's text.
pub proof fn law_quoted_list_appends(names: Seq<Seq<char>>, x: Seq<char>)
    requires
        names.len() > 0,
    ensures
        quoted_list(names.push(x)) == quoted_list(names) + ", "@ + quote_ident(x),
{
    assert(names.push(x).drop_last() =~= names);
}

/// The column list keeps the order given: a name put in front of a non-empty list is
/// quoted first, before a comma and the list's text.
pub proof fn law_quoted_list_prepends(x: Seq<char>, names: Seq<Seq<char>>)
    requires
        names.len() > 0,
    ensures
        quoted_list(seq![x] + names) == quote_ident(x) + ", "@ + quoted_list(names),
    decreases names.len(),
{
    let all = seq![x] + names;
    if names.len() == 1 {
        assert(all.drop_last() =~= seq![x]);
        assert(all.last() == names[0]);
        assert(seq![x][0] == x);
        assert(quoted_list(seq![x]) == quote_ident(x));
        assert(quoted_list(names) == quote_ident(names[0]));
        assert(quoted_list(all) == quoted_list(all.drop_last()) + ", "@ + quote_ident(all.last()));
    } else {
        law_quoted_list_prepends(x, names.drop_last());
        assert(all.drop_last() =~= seq![x] + names.drop_last());
        assert(all.last() == names.last());
        assert(quoted_list(all) == quoted_list(seq![x] + names.drop_last()) + ", "@ + quote_ident(names.last()));
        assert(quoted_list(all) =~= quote_ident(x) + ", "@ + quoted_list(names));
    }
}

/// A list of one name is that name quoted, with no comma.
pub proof fn law_quoted_list_single(x: Seq<char>)
    ensures
        quoted_list(seq![x]) == quote_ident(x),
{
    assert(seq![x][0] == x);
}

/// The SQL text of an operation on `table`.
pub open spec fn operation_sql(op: DdlOperation, table: Seq<char>) -> Seq<char> {
    match op {
        DdlOperation::AddColumn { name, data_type, default_value } =>
            "ALTER TABLE "@ + quote_ident(table) + " ADD COLUMN "@ + quote_ident(name@) + " "@ + data_type@
                + match default_value {
                    Some(d) => " DEFAULT "@ + d@,
                    None => Seq::<char>::empty(),
                },
        DdlOperation::DropColumn { name } =>
            "ALTER TABLE "@ + quote_ident(table) + " DROP COLUMN "@ + quote_ident(name@),
        DdlOperation::ModifyColumn { name, new_type } =>
            "ALTER TABLE "@ + quote_ident(table) + " ALTER COLUMN "@ + quote_ident(name@) + " TYPE "@ + new_type@,
        DdlOperation::RenameColumn { old_name, new_name } =>
            "ALTER TABLE "@ + quote_ident(table) + " RENAME COLUMN "@ + quote_ident(old_name@) + " TO "@
                + quote_ident(new_name@),
        DdlOperation::AddIndex { name, columns } =>
            "CREATE INDEX "@ + quote_ident(name@) + " ON "@ + quote_ident(table) + " ("@
                + quoted_list(strings_view(columns@)) + ")"@,
        DdlOperation::DropIndex { name } => "DROP INDEX "@ + quote_ident(name@),
    }
}

/// The name of the operation's kind.
pub open spec fn operation_kind(op: DdlOperation) -> &'static str {
    match op {
        DdlOperation::AddColumn { .. } => "ADD_COLUMN",
        DdlOperation::DropColumn { .. } => "DROP_COLUMN",
        DdlOperation::ModifyColumn { .. } => "MODIFY_COLUMN",
        DdlOperation::RenameColumn { .. } => "RENAME_COLUMN",
        DdlOperation::AddIndex { .. } => "ADD_INDEX",
        DdlOperation::DropIndex { .. } => "DROP_INDEX",
    }
}

/// The operation changes the column structure.
pub open spec fn is_schema_change_op(op: DdlOperation) -> bool {
    op is AddColumn || op is DropColumn || op is ModifyColumn || op is RenameColumn
}

/// The operation is about an index.
pub open spec fn is_index_op_spec(op: DdlOperation) -> bool {
    op is AddIndex || op is DropIndex
}

impl DdlOperation {
    /// The name of the operation kind.
    pub fn kind_str(&self) -> (res: &'static str)
        ensures
            res == operation_kind(*self),
    {
        match self {
            DdlOperation::AddColumn { .. } => "ADD_COLUMN",
            DdlOperation::DropColumn { .. } => "DROP_COLUMN",
            DdlOperation::ModifyColumn { .. } => "MODIFY_COLUMN",
            DdlOperation::RenameColumn { .. } => "RENAME_COLUMN",
            DdlOperation::AddIndex { .. } => "ADD_INDEX",
            DdlOperation::DropIndex { .. } => "DROP_INDEX",
        }
    }

    /// The SQL statement for the operation on `table`; every identifier is quoted,
    /// types and default expressions are written as given.
    pub fn to_sql(&self, table: &str) -> (res: String)
        ensures
            res@ == operation_sql(*self, table@),
    {
        let mut sql = String::new();
        match self {
            DdlOperation::AddColumn { name, data_type, default_value } => {
                push_str(&mut sql, "ALTER TABLE ");
                push_quoted_ident(&mut sql, table);
                push_str(&mut sql, " ADD COLUMN ");
                push_quoted_ident(&mut sql, name.as_str());
                push_str(&mut sql, " ");
                push_str(&mut sql, data_type.as_str());
                match default_value {
                    Some(d) => {
                        push_str(&mut sql, " DEFAULT ");
                        push_str(&mut sql, d.as_str());
                    },
                    None => {},
                }
            },
            DdlOperation::DropColumn { name } => {
                push_str(&mut sql, "ALTER TABLE ");
                push_quoted_ident(&mut sql, table);
                push_str(&mut sql, " DROP COLUMN ");
                push_quoted_ident(&mut sql, name.as_str());
            },
            DdlOperation::ModifyColumn { name, new_type } => {
                push_str(&mut sql, "ALTER TABLE ");
                push_quoted_ident(&mut sql, table);
                push_str(&mut sql, " ALTER COLUMN ");
                push_quoted_ident(&mut sql, name.as_str());
                push_str(&mut sql, " TYPE ");
                push_str(&mut sql, new_type.as_str());
            },
            DdlOperation::RenameColumn { old_name, new_name } => {
                push_str(&mut sql, "ALTER TABLE ");
                push_quoted_ident(&mut sql, table);
                push_str(&mut sql, " RENAME COLUMN ");
                push_quoted_ident(&mut sql, old_name.as_str());
                push_str(&mut sql, " TO ");
                push_quoted_ident(&mut sql, new_name.as_str());
            },
            DdlOperation::AddIndex { name, columns } => {
                push_str(&mut sql, "CREATE INDEX ");
                push_quoted_ident(&mut sql, name.as_str());
                push_str(&mut sql, " ON ");
                push_quoted_ident(&mut sql, table);
                push_str(&mut sql, " (");
                let ghost start = sql@;
                let ghost names = strings_view(columns@);
                let mut i: usize = 0;
                while i < columns.len()
                    invariant
                        i <= columns@.len(),
                        names == strings_view(columns@),
                        sql@ == start + quoted_list(names.take(i as int)),
                    decreases columns@.len() - i,
                {
                    assert(names.take(i + 1).drop_last() =~= names.take(i as int));
                    if i > 0 {
                        push_str(&mut sql, ", ");
                    }
                    push_quoted_ident(&mut sql, columns[i].as_str());
                    i = i + 1;
                    assert(sql@ =~= start + quoted_list(names.take(i as int)));
                }
                assert(names.take(names.len() as int) =~= names);
                push_str(&mut sql, ")");
            },
            DdlOperation::DropIndex { name } => {
                push_str(&mut sql, "DROP INDEX ");
                push_quoted_ident(&mut sql, name.as_str());
            },
        }
        assert(sql@ =~= operation_sql(*self, table@));
        sql
    }

    /// Whether the operation changes the column structure.
    pub fn is_schema_change(&self) -> (res: bool)
        ensures
            res == is_schema_change_op(*self),
    {
        match self {
            DdlOperation::AddColumn { .. } | DdlOperation::DropColumn { .. }
            | DdlOperation::ModifyColumn { .. } | DdlOperation::RenameColumn { .. } => true,
            _ => false,
        }
    }

    /// Whether the operation is about an index.
    pub fn is_index_op(&self) -> (res: bool)
        ensures
            res == is_index_op_spec(*self),
    {
        match self {
            DdlOperation::AddIndex { .. } | DdlOperation::DropIndex { .. } => true,
            _ => false,
        }
    }

    /// The kind name as an owned string (the text that `Display` shows).
    pub fn to_string(&self) -> (res: String)
        ensures
            res@ == operation_kind(*self)@,
    {
        self.kind_str().to_owned()
    }

    /// A copy of this operation.
    pub fn duplicate(&self) -> (res: Self)
        ensures
            operation_view_eq(res, *self),
    {
        match self {
            DdlOperation::AddColumn { name, data_type, default_value } => DdlOperation::AddColumn {
                name: copy_string(name),
                data_type: copy_string(data_type),
                default_value: copy_opt_string(default_value),
            },
            DdlOperation::DropColumn { name } => DdlOperation::DropColumn { name: copy_string(name) },
            DdlOperation::ModifyColumn { name, new_type } => DdlOperation::ModifyColumn {
                name: copy_string(name),
                new_type: copy_string(new_type),
            },
            DdlOperation::RenameColumn { old_name, new_name } => DdlOperation::RenameColumn {
                old_name: copy_string(old_name),
                new_name: copy_string(new_name),
            },
            DdlOperation::AddIndex { name, columns } => DdlOperation::AddIndex {
                name: copy_string(name),
                columns: copy_strings(columns),
            },
            DdlOperation::DropIndex { name } => DdlOperation::DropIndex { name: copy_string(name) },
        }
    }
}

/// Two operations are of the same kind and hold the same texts.
pub open spec fn operation_view_eq(a: DdlOperation, b: DdlOperation) -> bool {
    match (a, b) {
        (DdlOperation::AddColumn { name: n1, data_type: t1, default_value: d1 },
         DdlOperation::AddColumn { name: n2, data_type: t2, default_value: d2 }) =>
            n1@ == n2@ && t1@ == t2@ && opt_view(d1) == opt_view(d2),
        (DdlOperation::DropColumn { name: n1 }, DdlOperation::DropColumn { name: n2 }) => n1@ == n2@,
        (DdlOperation::ModifyColumn { name: n1, new_type: t1 }, DdlOperation::ModifyColumn { name: n2, new_type: t2 }) =>
            n1@ == n2@ && t1@ == t2@,
        (DdlOperation::RenameColumn { old_name: o1, new_name: w1 }, DdlOperation::RenameColumn { old_name: o2, new_name: w2 }) =>
            o1@ == o2@ && w1@ == w2@,
        (DdlOperation::AddIndex { name: n1, columns: c1 }, DdlOperation::AddIndex { name: n2, columns: c2 }) =>
            n1@ == n2@ && strings_view(c1@) == strings_view(c2@),
        (DdlOperation::DropIndex { name: n1 }, DdlOperation::DropIndex { name: n2 }) => n1@ == n2@,
        _ => false,
    }
}


// ---------------------------------------------------------------------
//  DdlState
// ---------------------------------------------------------------------

/// The phases of a shadow-table schema change.
#[derive(Debug, Clone, PartialEq, Eq)]
pub enum DdlState {
    /// Not started.
    Init,
    /// Creating the shadow table.
    CreatingShadow,
    /// Applying the change to the shadow table.
    AlteringShadow,
    /// Copying the rows.
    CopyingData,
    /// Checking the copy.
    Verifying,
    /// Giving the shadow table the original name.
    Swapping,
    /// Removing the old table.
    Cleanup,
    /// Done.
    Completed,
    /// Stopped with the given reason.
    Failed(String),
}

/// The phase that follows `s`, if any.
pub open spec fn next_state(s: DdlState) -> Option<DdlState> {
    match s {
        DdlState::Init => Some(DdlState::CreatingShadow),
        DdlState::CreatingShadow => Some(DdlState::AlteringShadow),
        DdlState::AlteringShadow => Some(DdlState::CopyingData),
        DdlState::CopyingData => Some(DdlState::Verifying),
        DdlState::Verifying => Some(DdlState::Swapping),
        DdlState::Swapping => Some(DdlState::Cleanup),
        DdlState::Cleanup => Some(DdlState::Completed),
        DdlState::Completed => None,
        DdlState::Failed(_) => None,
    }
}

/// The phase is final.
pub open spec fn is_terminal_state(s: DdlState) -> bool {
    s is Completed || s is Failed
}

/// How many phases lie between `s` and completion (for a phase that is not final).
pub open spec fn steps_to_completion(s: DdlState) -> nat {
    match s {
        DdlState::Init => 7,
        DdlState::CreatingShadow => 6,
        DdlState::AlteringShadow => 5,
        DdlState::CopyingData => 4,
        DdlState::Verifying => 3,
        DdlState::Swapping => 2,
        DdlState::Cleanup => 1,
        _ => 0,
    }
}

/// The name of a phase.
pub open spec fn state_name(s: DdlState) -> &'static str {
    match s {
        DdlState::Init => "INIT",
        DdlState::CreatingShadow => "CREATING_SHADOW",
        DdlState::AlteringShadow => "ALTERING_SHADOW",
        DdlState::CopyingData => "COPYING_DATA",
        DdlState::Verifying => "VERIFYING",
        DdlState::Swapping => "SWAPPING",
        DdlState::Cleanup => "CLEANUP",
        DdlState::Completed => "COMPLETED",
        DdlState::Failed(_) => "FAILED",
    }
}

/// The phase reached from `s` after `n` steps; a final phase stays.
pub open spec fn advance_n(s: DdlState, n: nat) -> DdlState
    decreases n,
{
    if n == 0 {
        s
    } else {
        match next_state(s) {
            Some(t) => advance_n(t, (n - 1) as nat),
            None => s,
        }
    }
}

/// A phase has a successor exactly when it is not final.
pub proof fn law_next_iff_not_terminal(s: DdlState)
    ensures
        next_state(s) is Some <==> !is_terminal_state(s),
{
}

/// Each phase that is not final is followed by one that is one step closer to
/// completion, and the successor is never a failure.
pub proof fn law_next_progresses(s: DdlState)
    requires
        !is_terminal_state(s),
    ensures
        next_state(s) matches Some(t) && steps_to_completion(t) + 1 == steps_to_completion(s),
        next_state(s) matches Some(t) && !(t is Failed),
{
}

/// From any phase that is not final, seven steps reach completion; from `Init`
/// exactly seven are needed.
pub proof fn law_seven_steps_complete(s: DdlState)
    requires
        !is_terminal_state(s),
    ensures
        advance_n(s, 7) == DdlState::Completed,
        s == DdlState::Init ==> advance_n(s, 6) != DdlState::Completed,
{
    reveal_with_fuel(advance_n, 8);
}

impl DdlState {
    /// The name of the phase.
    pub fn as_str(&self) -> (res: &'static str)
        ensures
            res == state_name(*self),
    {
        match self {
            DdlState::Init => "INIT",
            DdlState::CreatingShadow => "CREATING_SHADOW",
            DdlState::AlteringShadow => "ALTERING_SHADOW",
            DdlState::CopyingData => "COPYING_DATA",
            DdlState::Verifying => "VERIFYING",
            DdlState::Swapping => "SWAPPING",
            DdlState::Cleanup => "CLEANUP",
            DdlState::Completed => "COMPLETED",
            DdlState::Failed(_) => "FAILED",
        }
    }

    /// Whether the phase is final.
    pub fn is_terminal(&self) -> (res: bool)
        ensures
            res == is_terminal_state(*self),
    {
        match self {
            DdlState::Completed | DdlState::Failed(_) => true,
            _ => false,
        }
    }

    /// Whether the change failed.
    pub fn is_failed(&self) -> (res: bool)
        ensures
            res == (*self is Failed),
    {
        match self {
            DdlState::Failed(_) => true,
            _ => false,
        }
    }

    /// Whether the change completed.
    pub fn is_completed(&self) -> (res: bool)
        ensures
            res == (*self is Completed),
    {
        match self {
            DdlState::Completed => true,
            _ => false,
        }
    }

    /// The following phase; none after a final phase.
    pub fn next(&self) -> (res: Option<DdlState>)
        ensures
            res == next_state(*self),
    {
        match self {
            DdlState::Init => Some(DdlState::CreatingShadow),
            DdlState::CreatingShadow => Some(DdlState::AlteringShadow),
            DdlState::AlteringShadow => Some(DdlState::CopyingData),
            DdlState::CopyingData => Some(DdlState::Verifying),
            DdlState::Verifying => Some(DdlState::Swapping),
            DdlState::Swapping => Some(DdlState::Cleanup),
            DdlState::Cleanup => Some(DdlState::Completed),
            DdlState::Completed | DdlState::Failed(_) => None,
        }
    }

    /// The phase name as an owned string (the text that `Display` shows).
    pub fn to_string(&self) -> (res: String)
        ensures
            res@ == state_name(*self)@,
    {
        self.as_str().to_owned()
    }

    /// A copy of this phase.
    pub fn duplicate(&self) -> (res: Self)
        ensures
            res == *self,
    {
        match self {
            DdlState::Init => DdlState::Init,
            DdlState::CreatingShadow => DdlState::CreatingShadow,
            DdlState::AlteringShadow => DdlState::AlteringShadow,
            DdlState::CopyingData => DdlState::CopyingData,
            DdlState::Verifying => DdlState::Verifying,
            DdlState::Swapping => DdlState::Swapping,
            DdlState::Cleanup => DdlState::Cleanup,
            DdlState::Completed => DdlState::Completed,
            DdlState::Failed(r) => DdlState::Failed(copy_string(r)),
        }
    }
}

// ---------------------------------------------------------------------
//  ShadowTableConfig
// ---------------------------------------------------------------------

/// Parameters of the shadow-table procedure.
#[derive(Debug, Clone)]
pub struct ShadowTableConfig {
    /// Rows copied per chunk.
    pub chunk_size: usize,
    /// Lock timeout in milliseconds.
    pub lock_timeout_ms: u64,
    /// Whether the checksums are compared.
    pub verify_checksum: bool,
    /// Retries allowed.
    pub max_retries: u32,
    /// Prefix of the shadow table's name.
    pub shadow_prefix: String,
}

impl ShadowTableConfig {
    /// The default parameters.
    pub fn new() -> (res: Self)
        ensures
            res.chunk_size == DEFAULT_CHUNK_SIZE,
            res.lock_timeout_ms == DEFAULT_LOCK_TIMEOUT_MS,
            res.verify_checksum,
            res.max_retries == DEFAULT_MAX_RETRIES,
            res.shadow_prefix@ == "_shadow_"@,
    {
        ShadowTableConfig {
            chunk_size: DEFAULT_CHUNK_SIZE,
            lock_timeout_ms: DEFAULT_LOCK_TIMEOUT_MS,
            verify_checksum: true,
            max_retries: DEFAULT_MAX_RETRIES,
            shadow_prefix: "_shadow_".to_owned(),
        }
    }

    /// The same parameters with another chunk size (at least 1).
    pub fn with_chunk_size(self, size: usize) -> (res: Self)
        ensures
            res == (ShadowTableConfig { chunk_size: if size == 0 { 1 } else { size }, ..self }),
    {
        let mut s = self;
        s.chunk_size = if size == 0 { 1 } else { size };
        s
    }

    /// The same parameters with another lock timeout.
    pub fn with_lock_timeout(self, ms: u64) -> (res: Self)
        ensures
            res == (ShadowTableConfig { lock_timeout_ms: ms, ..self }),
    {
        let mut s = self;
        s.lock_timeout_ms = ms;
        s
    }

    /// The same parameters without checksum comparison.
    pub fn without_verify(self) -> (res: Self)
        ensures
            res == (ShadowTableConfig { verify_checksum: false, ..self }),
    {
        let mut s = self;
        s.verify_checksum = false;
        s
    }

    /// The same parameters with another shadow-table prefix.
    pub fn with_shadow_prefix(self, prefix: &str) -> (res: Self)
        ensures
            res.shadow_prefix@ == prefix@,
            res.chunk_size == self.chunk_size,
            res.lock_timeout_ms == self.lock_timeout_ms,
            res.verify_checksum == self.verify_checksum,
            res.max_retries == self.max_retries,
    {
        let mut s = self;
        s.shadow_prefix = prefix.to_owned();
        s
    }

    /// The shadow table's name for `original`: the prefix followed by the name.
    pub fn shadow_table_name(&self, original: &str) -> (res: String)
        ensures
            res@ == self.shadow_prefix@ + original@,
    {
        let mut name = copy_string(&self.shadow_prefix);
        push_str(&mut name, original);
        name
    }

    /// A copy of these parameters.
    pub fn duplicate(&self) -> (res: Self)
        ensures
            res == *self,
    {
        ShadowTableConfig {
            chunk_size: self.chunk_size,
            lock_timeout_ms: self.lock_timeout_ms,
            verify_checksum: self.verify_checksum,
            max_retries: self.max_retries,
            shadow_prefix: copy_string(&self.shadow_prefix),
        }
    }
}

impl Default for ShadowTableConfig {
    fn default() -> (res: Self)
        ensures
            res.chunk_size == DEFAULT_CHUNK_SIZE,
            res.lock_timeout_ms == DEFAULT_LOCK_TIMEOUT_MS,
            res.verify_checksum,
            res.max_retries == DEFAULT_MAX_RETRIES,
            res.shadow_prefix@ == "_shadow_"@,
    {
        Self::new()
    }
}

// ---------------------------------------------------------------------
//  Clock
// ---------------------------------------------------------------------

#[verifier::external_type_specification]
#[verifier::external_body]
pub struct ExSystemTime(std::time::SystemTime);

/// Reads the system clock (`SystemTime::now`); nothing is promised of the value.
#[verifier::external_body]
fn clock_now() -> std::time::SystemTime {
    std::time::SystemTime::now()
}

/// Whole seconds from the Unix epoch to `t` (`SystemTime::duration_since`); 0 when
/// `t` lies before the epoch. Nothing is promised of the value.
#[verifier::external_body]
fn secs_since_epoch(t: std::time::SystemTime) -> u64 {
    t.duration_since(std::time::UNIX_EPOCH).map(|d| d.as_secs()).unwrap_or(0)
}

/// The current time in seconds since the Unix epoch.
fn now_secs() -> u64 {
    secs_since_epoch(clock_now())
}

// ---------------------------------------------------------------------
//  DdlProgress
// ---------------------------------------------------------------------

/// Progress of a change.
#[derive(Debug, Clone)]
pub struct DdlProgress {
    /// Rows copied so far.
    pub rows_copied: u64,
    /// Rows to copy.
    pub total_rows: u64,
    /// Current phase.
    pub current_state: DdlState,
    /// Start time, seconds since the Unix epoch.
    pub started_at: u64,
    /// Seconds spent so far.
    pub elapsed_secs: u64,
}

impl DdlProgress {
    /// Progress of a change of `total_rows` rows that starts now.
    pub fn new(total_rows: u64) -> (res: Self)
        ensures
            res.rows_copied == 0,
            res.total_rows == total_rows,
            res.current_state == DdlState::Init,
            res.elapsed_secs == 0,
    {
        DdlProgress {
            rows_copied: 0,
            total_rows,
            current_state: DdlState::Init,
            started_at: now_secs(),
            elapsed_secs: 0,
        }
    }

    /// Progress of a change without rows.
    pub fn empty() -> (res: Self)
        ensures
            res.rows_copied == 0,
            res.total_rows == 0,
            res.current_state == DdlState::Init,
            res.elapsed_secs == 0,
    {
        Self::new(0)
    }

    /// Whether all rows are copied.
    pub fn is_complete(&self) -> (res: bool)
        ensures
            res == (self.rows_copied >= self.total_rows),
    {
        self.rows_copied >= self.total_rows
    }

    /// Records a new phase and refreshes the elapsed time.
    pub fn update_state(&mut self, state: DdlState)
        ensures
            final(self).current_state == state,
            final(self).rows_copied == old(self).rows_copied,
            final(self).total_rows == old(self).total_rows,
            final(self).started_at == old(self).started_at,
    {
        self.current_state = state;
        self.elapsed_secs = now_secs().saturating_sub(self.started_at);
    }

    /// Counts `n` more copied rows (saturating) and refreshes the elapsed time.
    pub fn add_copied(&mut self, n: u64)
        ensures
            final(self).rows_copied == (if old(self).rows_copied + n > u64::MAX { u64::MAX as int } else { old(self).rows_copied + n }),
            final(self).current_state == old(self).current_state,
            final(self).total_rows == old(self).total_rows,
            final(self).started_at == old(self).started_at,
    {
        self.rows_copied = self.rows_copied.saturating_add(n);
        self.elapsed_secs = now_secs().saturating_sub(self.started_at);
    }
}

// ---------------------------------------------------------------------
//  VerifyResult
// ---------------------------------------------------------------------

/// The outcome of checking a copy against its source.
#[derive(Debug, Clone)]
pub struct VerifyResult {
    /// Rows of the source.
    pub source_rows: u64,
    /// Rows of the copy.
    pub shadow_rows: u64,
    /// Whether the row counts agree.
    pub row_count_match: bool,
    /// Checksum of the source (0 when not compared).
    pub checksum_source: u64,
    /// Checksum of the copy (0 when not compared).
    pub checksum_shadow: u64,
    /// Whether the checksums agree (true when not compared).
    pub checksum_match: bool,
    /// Positions where the rows differ, ascending, at most `MAX_MISMATCH_RECORDS`.
    pub mismatched_row_ids: Vec<u64>,
}

/// The ascending positions below `n` where `a` and `b` differ.
pub open spec fn mismatches(a: Seq<Seq<Seq<char>>>, b: Seq<Seq<Seq<char>>>, n: nat) -> Seq<u64>
    decreases n,
{
    if n == 0 {
        Seq::empty()
    } else {
        let p = mismatches(a, b, (n - 1) as nat);
        if a[n - 1] != b[n - 1] {
            p.push((n - 1) as u64)
        } else {
            p
        }
    }
}

/// The first `MAX_MISMATCH_RECORDS` positions, within the shorter of `a` and `b`,
/// where they differ.
pub open spec fn recorded_mismatches(a: Seq<Seq<Seq<char>>>, b: Seq<Seq<Seq<char>>>) -> Seq<u64> {
    let n = if a.len() < b.len() { a.len() } else { b.len() };
    let all = mismatches(a, b, n);
    if all.len() > MAX_MISMATCH_RECORDS { all.take(MAX_MISMATCH_RECORDS as int) } else { all }
}

/// The differences below `j` are a prefix of those below `m` when `j <= m`.
pub proof fn lemma_mismatches_prefix(a: Seq<Seq<Seq<char>>>, b: Seq<Seq<Seq<char>>>, j: nat, m: nat)
    requires
        j <= m,
    ensures
        mismatches(a, b, j).len() <= mismatches(a, b, m).len(),
        mismatches(a, b, m).take(mismatches(a, b, j).len() as int) == mismatches(a, b, j),
    decreases m - j,
{
    if j < m {
        lemma_mismatches_prefix(a, b, j, (m - 1) as nat);
        let p = mismatches(a, b, (m - 1) as nat);
        let q = mismatches(a, b, m);
        let l = mismatches(a, b, j).len() as int;
        assert(q.take(l) =~= p.take(l));
    } else {
        assert(mismatches(a, b, m).take(mismatches(a, b, m).len() as int) =~= mismatches(a, b, m));
    }
}

/// `v` is the verification outcome for a source with rows `src` and a copy with
/// rows `sh`, with checksums compared when `verify_checksum` holds.
pub open spec fn verification_of(v: VerifyResult, src: Seq<Seq<Seq<char>>>, sh: Seq<Seq<Seq<char>>>, verify_checksum: bool) -> bool {
    &&& v.source_rows == src.len()
    &&& v.shadow_rows == sh.len()
    &&& v.row_count_match == (src.len() == sh.len())
    &&& v.checksum_source == (if verify_checksum { rows_checksum(src) } else { 0 })
    &&& v.checksum_shadow == (if verify_checksum { rows_checksum(sh) } else { 0 })
    &&& v.checksum_match == (!verify_checksum || rows_checksum(src) == rows_checksum(sh))
    &&& v.mismatched_row_ids@ == recorded_mismatches(src, sh)
}

impl VerifyResult {
    /// Compares `shadow` against `source`: row counts, checksums when
    /// `verify_checksum` holds, and the first differing row positions.
    pub fn new(source: &TableSnapshot, shadow: &TableSnapshot, verify_checksum: bool) -> (res: Self)
        ensures
            verification_of(res, source@.rows, shadow@.rows, verify_checksum),
    {
        let source_rows = source.row_count();
        let shadow_rows = shadow.row_count();
        let row_count_match = source_rows == shadow_rows;
        let (checksum_source, checksum_shadow, checksum_match) = if verify_checksum {
            let cs = source.checksum();
            let csh = shadow.checksum();
            (cs, csh, cs == csh)
        } else {
            (0, 0, true)
        };
        let ghost a = source@.rows;
        let ghost b = shadow@.rows;
        let max_check: usize = if source.rows.len() < shadow.rows.len() { source.rows.len() } else { shadow.rows.len() };
        let mut mismatched: Vec<u64> = Vec::new();
        let mut i: usize = 0;
        while i < max_check
            invariant_except_break
                i <= max_check,
                mismatched@ == mismatches(a, b, i as nat),
                mismatched@.len() < MAX_MISMATCH_RECORDS,
            invariant
                a == source@.rows,
                b == shadow@.rows,
                max_check <= a.len(),
                max_check <= b.len(),
                max_check == (if a.len() < b.len() { a.len() } else { b.len() }),
            ensures
                mismatched@ == recorded_mismatches(a, b),
            decreases max_check - i,
        {
            let same = rows_equal(&source.rows[i], &shadow.rows[i]);
            assert(a[i as int] == source.rows@[i as int]@);
            assert(b[i as int] == shadow.rows@[i as int]@);
            assert(same == (a[i as int] == b[i as int]));
            if !same {
                mismatched.push(i as u64);
                if mismatched.len() >= MAX_MISMATCH_RECORDS {
                    proof {
                        lemma_mismatches_prefix(a, b, (i + 1) as nat, max_check as nat);
                        let all = mismatches(a, b, max_check as nat);
                        assert(all.take(MAX_MISMATCH_RECORDS as int) == mismatched@);
                        if all.len() == MAX_MISMATCH_RECORDS {
                            assert(all.take(MAX_MISMATCH_RECORDS as int) =~= all);
                        }
                    }
                    break;
                }
            }
            i = i + 1;
        }
        VerifyResult {
            source_rows,
            shadow_rows,
            row_count_match,
            checksum_source,
            checksum_shadow,
            checksum_match,
            mismatched_row_ids: mismatched,
        }
    }

    /// Whether the row counts and the checksums agree.
    pub fn passed(&self) -> (res: bool)
        ensures
            res == (self.row_count_match && self.checksum_match),
    {
        self.row_count_match && self.checksum_match
    }

    /// The number of recorded differing rows.
    pub fn mismatch_count(&self) -> (res: usize)
        ensures
            res == self.mismatched_row_ids@.len(),
    {
        self.mismatched_row_ids.len()
    }
}

/// A copy that holds exactly the source's rows passes verification and records no
/// difference, whether or not checksums are compared.
pub proof fn law_identical_copy_passes(v: VerifyResult, rows: Seq<Seq<Seq<char>>>, verify_checksum: bool)
    requires
        verification_of(v, rows, rows, verify_checksum),
    ensures
        v.row_count_match && v.checksum_match,
        v.mismatched_row_ids@.len() == 0,
{
    lemma_no_mismatches(rows, rows.len());
}

proof fn lemma_no_mismatches(rows: Seq<Seq<Seq<char>>>, n: nat)
    ensures
        mismatches(rows, rows, n).len() == 0,
    decreases n,
{
    if n > 0 {
        lemma_no_mismatches(rows, (n - 1) as nat);
    }
}


// ---------------------------------------------------------------------
//  Applying an operation
// ---------------------------------------------------------------------

/// The schema after `op`.
pub open spec fn applied_schema(cols: Seq<ColumnView>, op: DdlOperation) -> Seq<ColumnView> {
    match op {
        DdlOperation::AddColumn { name, data_type, default_value } =>
            cols.push(ColumnView { name: name@, data_type: data_type@, nullable: true, default_value: opt_view(default_value) }),
        DdlOperation::DropColumn { name } => schema_drop(cols, name@),
        DdlOperation::ModifyColumn { name, new_type } => schema_modify(cols, name@, new_type@),
        DdlOperation::RenameColumn { old_name, new_name } => schema_rename(cols, old_name@, new_name@),
        DdlOperation::AddIndex { .. } => cols,
        DdlOperation::DropIndex { .. } => cols,
    }
}

/// The position of the column that `op` drops from `cols`, if it drops one that exists.
pub open spec fn drop_position(cols: Seq<ColumnView>, op: DdlOperation) -> Option<int> {
    match op {
        DdlOperation::DropColumn { name } => column_position(cols, name@),
        _ => None,
    }
}

/// The text that an added column without default holds in existing rows.
pub open spec fn null_text() -> Seq<char> {
    "NULL"@
}

/// A row after `op`: an added column appends its default (or "NULL"), a dropped
/// column loses its value, other operations keep the row.
pub open spec fn transformed_row(row: Seq<Seq<char>>, op: DdlOperation, drop_idx: Option<int>) -> Seq<Seq<char>> {
    match op {
        DdlOperation::AddColumn { default_value, .. } => row.push(
            match default_value {
                Some(d) => d@,
                None => null_text(),
            },
        ),
        DdlOperation::DropColumn { .. } => match drop_idx {
            Some(i) => if 0 <= i < row.len() { row.remove(i) } else { row },
            None => row,
        },
        _ => row,
    }
}

/// All rows after `op`.
pub open spec fn transformed_rows(rows: Seq<Seq<Seq<char>>>, op: DdlOperation, drop_idx: Option<int>) -> Seq<Seq<Seq<char>>> {
    rows.map_values(|r: Seq<Seq<char>>| transformed_row(r, op, drop_idx))
}

/// An optional position as an optional integer.
pub open spec fn opt_int(o: Option<usize>) -> Option<int> {
    match o {
        Some(i) => Some(i as int),
        None => None,
    }
}

/// Applies an operation to a schema.
fn apply_operation(schema: &mut TableSchema, operation: &DdlOperation)
    ensures
        final(schema)@ == applied_schema(old(schema)@, *operation),
{
    match operation {
        DdlOperation::AddColumn { name, data_type, default_value } => {
            let mut col = ColumnDefinition::new(name.as_str(), data_type.as_str());
            match default_value {
                Some(d) => {
                    col = col.with_default(d.as_str());
                },
                None => {},
            }
            schema.add_column(col);
        },
        DdlOperation::DropColumn { name } => {
            schema.drop_column(name.as_str());
        },
        DdlOperation::ModifyColumn { name, new_type } => {
            schema.modify_column(name.as_str(), new_type.as_str());
        },
        DdlOperation::RenameColumn { old_name, new_name } => {
            schema.rename_column(old_name.as_str(), new_name.as_str());
        },
        DdlOperation::AddIndex { .. } | DdlOperation::DropIndex { .. } => {},
    }
}

/// Applies an operation to one row.
fn transform_row(row: &Row, operation: &DdlOperation, drop_idx: Option<usize>) -> (res: Row)
    ensures
        res@ == transformed_row(row@, *operation, opt_int(drop_idx)),
{
    match operation {
        DdlOperation::AddColumn { default_value, .. } => {
            let mut new_row = row.duplicate();
            match default_value {
                Some(d) => new_row.push(d.as_str()),
                None => new_row.push("NULL"),
            }
            new_row
        },
        DdlOperation::DropColumn { .. } => {
            match drop_idx {
                Some(idx) => {
                    let mut values = copy_strings(&row.values);
                    if idx < values.len() {
                        values.remove(idx);
                        assert(strings_view(values@) =~= row@.remove(idx as int));
                    }
                    Row::new(values)
                },
                None => row.duplicate(),
            }
        },
        _ => row.duplicate(),
    }
}

// ---------------------------------------------------------------------
//  DdlTask
// ---------------------------------------------------------------------

/// One shadow-table schema change and its progress.
#[derive(Debug, Clone)]
pub struct DdlTask {
    /// Task id.
    pub task_id: String,
    /// Table being changed.
    pub table: String,
    /// Shadow table's name.
    pub shadow_table: String,
    /// The change.
    pub operation: DdlOperation,
    /// Current phase.
    pub state: DdlState,
    /// Progress.
    pub progress: DdlProgress,
    /// Parameters.
    pub config: ShadowTableConfig,
    /// Retries so far.
    pub retries: u32,
}

/// The phase after one step from `s`: the successor, or `s` itself when final.
pub open spec fn step_state(s: DdlState) -> DdlState {
    match next_state(s) {
        Some(t) => t,
        None => s,
    }
}

/// `t` is a new task for `table` with the given id, change, row count and parameters.
pub open spec fn fresh_task(t: DdlTask, task_id: Seq<char>, table: Seq<char>, op: DdlOperation, total_rows: u64, config: ShadowTableConfig) -> bool {
    &&& t.task_id@ == task_id
    &&& t.table@ == table
    &&& t.shadow_table@ == config.shadow_prefix@ + table
    &&& t.operation == op
    &&& t.state == DdlState::Init
    &&& t.progress.rows_copied == 0
    &&& t.progress.total_rows == total_rows
    &&& t.progress.current_state == DdlState::Init
    &&& t.progress.elapsed_secs == 0
    &&& t.config == config
    &&& t.retries == 0
}

/// `a` and `b` describe the same change (everything but phase and progress agrees).
pub open spec fn same_change(a: DdlTask, b: DdlTask) -> bool {
    &&& a.task_id == b.task_id
    &&& a.table == b.table
    &&& a.shadow_table == b.shadow_table
    &&& a.operation == b.operation
    &&& a.config == b.config
    &&& a.retries == b.retries
    &&& a.progress.total_rows == b.progress.total_rows
    &&& a.progress.started_at == b.progress.started_at
}

impl DdlTask {
    /// A new task in phase `Init`.
    pub fn new(task_id: &str, table: &str, operation: DdlOperation, total_rows: u64, config: ShadowTableConfig) -> (res: Self)
        ensures
            fresh_task(res, task_id@, table@, operation, total_rows, config),
    {
        let shadow_table = config.shadow_table_name(table);
        DdlTask {
            task_id: task_id.to_owned(),
            table: table.to_owned(),
            shadow_table,
            operation,
            state: DdlState::Init,
            progress: DdlProgress::new(total_rows),
            config,
            retries: 0,
        }
    }

    /// Whether the task is in a final phase.
    pub fn is_terminal(&self) -> (res: bool)
        ensures
            res == is_terminal_state(self.state),
    {
        self.state.is_terminal()
    }

    /// Moves to the following phase and records it in the progress; returns it, or
    /// nothing (and changes nothing) in a final phase.
    pub fn advance(&mut self) -> (res: Option<DdlState>)
        ensures
            res == next_state(old(self).state),
            final(self).state == step_state(old(self).state),
            same_change(*final(self), *old(self)),
            final(self).progress.rows_copied == old(self).progress.rows_copied,
            res is Some ==> final(self).progress.current_state == final(self).state,
            res is None ==> *final(self) == *old(self),
    {
        match self.state.next() {
            Some(next) => {
                self.state = next.duplicate();
                self.progress.update_state(next.duplicate());
                Some(next)
            },
            None => None,
        }
    }

    /// Marks the task failed with the given reason.
    pub fn fail(&mut self, reason: &str)
        ensures
            final(self).state matches DdlState::Failed(r) && r@ == reason@,
            final(self).progress.current_state == final(self).state,
            same_change(*final(self), *old(self)),
            final(self).progress.rows_copied == old(self).progress.rows_copied,
    {
        let reason = reason.to_owned();
        self.state = DdlState::Failed(copy_string(&reason));
        self.progress.update_state(DdlState::Failed(reason));
    }

    /// Counts `n` more copied rows (saturating).
    pub fn add_copied(&mut self, n: u64)
        ensures
            final(self).progress.rows_copied == (if old(self).progress.rows_copied + n > u64::MAX { u64::MAX as int } else { old(self).progress.rows_copied + n }),
            final(self).state == old(self).state,
            final(self).progress.current_state == old(self).progress.current_state,
            same_change(*final(self), *old(self)),
    {
        self.progress.add_copied(n);
    }
}

/// Copies the rows of `source` into `shadow` chunk by chunk, each row changed by
/// `operation`, and records the number of copied rows in the task.
fn copy_data_in_chunks(
    source: &TableSnapshot,
    shadow: &mut TableSnapshot,
    operation: &DdlOperation,
    chunk_size: usize,
    task: &mut DdlTask,
)
    ensures
        final(shadow)@ == (SnapshotView {
            rows: old(shadow)@.rows + transformed_rows(source@.rows, *operation, drop_position(source@.schema, *operation)),
            ..old(shadow)@
        }),
        final(task).progress.rows_copied == source.rows@.len(),
        final(task).state == old(task).state,
        final(task).progress.current_state == old(task).progress.current_state,
        same_change(*final(task), *old(task)),
{
    let drop_idx = match operation {
        DdlOperation::DropColumn { name } => source.schema.find_column(name.as_str()),
        _ => None,
    };
    let ghost di = drop_position(source@.schema, *operation);
    assert(opt_int(drop_idx) == di);
    let k: usize = if chunk_size == 0 { 1 } else { chunk_size };
    let n = source.rows.len();
    let ghost base = shadow@.rows;
    let mut start: usize = 0;
    while start < n
        invariant
            k >= 1,
            n == source.rows@.len(),
            start <= n,
            opt_int(drop_idx) == di,
            shadow@ == (SnapshotView { rows: base + transformed_rows(source@.rows.take(start as int), *operation, di), ..old(shadow)@ }),
            task.state == old(task).state,
            task.progress.current_state == old(task).progress.current_state,
            same_change(*task, *old(task)),
        decreases n - start,
    {
        let end = if n - start > k { start + k } else { n };
        let mut batch: Vec<Row> = Vec::new();
        let mut r: usize = start;
        while r < end
            invariant
                start <= r <= end,
                end <= n,
                n == source.rows@.len(),
                opt_int(drop_idx) == di,
                batch@.len() == r - start,
                forall|j: int| 0 <= j < batch@.len() ==>
                    #[trigger] batch@[j]@ == transformed_row(source@.rows[start + j], *operation, di),
            decreases end - r,
        {
            let row = transform_row(&source.rows[r], operation, drop_idx);
            assert(source@.rows[r as int] == source.rows@[r as int]@);
            batch.push(row);
            r = r + 1;
        }
        assert(rows_view(batch@) =~= transformed_rows(source@.rows.subrange(start as int, end as int), *operation, di));
        shadow.insert_rows(batch);
        task.add_copied(chunk_size as u64);
        assert(source@.rows.take(end as int) =~= source@.rows.take(start as int) + source@.rows.subrange(start as int, end as int));
        assert(transformed_rows(source@.rows.take(end as int), *operation, di) =~= transformed_rows(source@.rows.take(start as int), *operation, di)
            + transformed_rows(source@.rows.subrange(start as int, end as int), *operation, di));
        assert(shadow@.rows =~= base + transformed_rows(source@.rows.take(end as int), *operation, di));
        start = end;
    }
    assert(source@.rows.take(n as int) =~= source@.rows);
    task.progress.rows_copied = source.row_count();
}


// ---------------------------------------------------------------------
//  ShadowTableExecutor
// ---------------------------------------------------------------------

/// Runs shadow-table schema changes and keeps their tasks by task id.
#[derive(Debug)]
pub struct ShadowTableExecutor {
    config: ShadowTableConfig,
    tasks: Vec<(String, DdlTask)>,
}

/// The position of the first entry with key `key`.
pub open spec fn key_position(entries: Seq<(Seq<char>, DdlTask)>, key: Seq<char>) -> Option<int>
    decreases entries.len(),
{
    if entries.len() == 0 {
        None
    } else {
        match key_position(entries.drop_last(), key) {
            Some(i) => Some(i),
            None => if entries.last().0 == key { Some(entries.len() - 1) } else { None },
        }
    }
}

/// `key_position` finds the first entry with the key, or tells that there is none.
pub proof fn lemma_key_position(entries: Seq<(Seq<char>, DdlTask)>, key: Seq<char>)
    ensures
        match key_position(entries, key) {
            Some(i) => 0 <= i < entries.len() && entries[i].0 == key
                && forall|j: int| 0 <= j < i ==> entries[j].0 != key,
            None => forall|j: int| 0 <= j < entries.len() ==> entries[j].0 != key,
        },
    decreases entries.len(),
{
    if entries.len() > 0 {
        let prefix = entries.drop_last();
        lemma_key_position(prefix, key);
        assert(forall|j: int| 0 <= j < prefix.len() ==> prefix[j] == entries[j]);
    }
}

/// No task id occurs twice: the invariant that every operation of the executor keeps.
pub open spec fn ids_unique(e: Seq<(Seq<char>, DdlTask)>) -> bool {
    forall|i: int, j: int| 0 <= i < j < e.len() ==> e[i].0 != e[j].0
}

/// Changing the task at one position keeps the ids unique (so does changing a task
/// through `task_mut`, whose contract gives the new entries as such an update).
pub proof fn lemma_update_ids(e: Seq<(Seq<char>, DdlTask)>, i: int)
    requires
        ids_unique(e),
        0 <= i < e.len(),
    ensures
        forall|k: Seq<char>, x: DdlTask| k == e[i].0 ==> ids_unique(#[trigger] e.update(i, (k, x))),
{
    assert forall|k: Seq<char>, x: DdlTask| k == e[i].0 implies ids_unique(#[trigger] e.update(i, (k, x))) by {
        let f = e.update(i, (k, x));
        assert forall|a: int, b: int| 0 <= a < b < f.len() implies f[a].0 != f[b].0 by {
            assert(f[a].0 == e[a].0 && f[b].0 == e[b].0);
        }
    }
}

/// Entries with the same ids in the same places keep the ids unique.
pub proof fn lemma_same_ids(a: Seq<(Seq<char>, DdlTask)>, b: Seq<(Seq<char>, DdlTask)>)
    requires
        ids_unique(a),
        a.len() == b.len(),
        forall|j: int| 0 <= j < a.len() ==> #[trigger] b[j].0 == a[j].0,
    ensures
        ids_unique(b),
{
    assert forall|i: int, j: int| 0 <= i < j < b.len() implies b[i].0 != b[j].0 by {
        assert(b[i].0 == a[i].0 && b[j].0 == a[j].0);
    }
}

/// The entries whose task is not in a final phase, in order.
pub open spec fn live_entries(entries: Seq<(Seq<char>, DdlTask)>) -> Seq<(Seq<char>, DdlTask)>
    decreases entries.len(),
{
    if entries.len() == 0 {
        Seq::empty()
    } else if is_terminal_state(entries.last().1.state) {
        live_entries(entries.drop_last())
    } else {
        live_entries(entries.drop_last()).push(entries.last())
    }
}

/// Every id of a live entry is an id of the entries.
proof fn lemma_live_ids(e: Seq<(Seq<char>, DdlTask)>)
    ensures
        forall|i: int| 0 <= i < live_entries(e).len() ==> exists|j: int| 0 <= j < e.len() && #[trigger] live_entries(e)[i].0 == e[j].0,
    decreases e.len(),
{
    if e.len() > 0 {
        let p = e.drop_last();
        lemma_live_ids(p);
        assert forall|i: int| 0 <= i < live_entries(e).len() implies exists|j: int| 0 <= j < e.len() && #[trigger] live_entries(e)[i].0 == e[j].0 by {
            if i < live_entries(p).len() {
                let j = choose|j: int| 0 <= j < p.len() && live_entries(p)[i].0 == p[j].0;
                assert(e[j] == p[j]);
            } else {
                assert(live_entries(e)[i].0 == e[e.len() - 1].0);
            }
        }
    }
}

/// Removing final tasks keeps the ids unique.
pub proof fn lemma_live_unique(e: Seq<(Seq<char>, DdlTask)>)
    requires
        ids_unique(e),
    ensures
        ids_unique(live_entries(e)),
    decreases e.len(),
{
    if e.len() > 0 {
        let p = e.drop_last();
        assert(ids_unique(p)) by {
            assert forall|i: int, j: int| 0 <= i < j < p.len() implies p[i].0 != p[j].0 by {
                assert(p[i] == e[i] && p[j] == e[j]);
            }
        }
        lemma_live_unique(p);
        lemma_live_ids(p);
        if !is_terminal_state(e.last().1.state) {
            let l = live_entries(e);
            let lp = live_entries(p);
            assert forall|i: int, j: int| 0 <= i < j < l.len() implies l[i].0 != l[j].0 by {
                if j == lp.len() {
                    let k = choose|k: int| 0 <= k < p.len() && lp[i].0 == p[k].0;
                    assert(p[k] == e[k]);
                    assert(l[j] == e.last());
                }
            }
        }
    }
}

/// The number of entries whose task is not in a final phase.
pub open spec fn live_count(entries: Seq<(Seq<char>, DdlTask)>) -> nat {
    live_entries(entries).len()
}

/// No more tasks are live than there are tasks.
pub proof fn law_live_at_most_all(entries: Seq<(Seq<char>, DdlTask)>)
    ensures
        live_count(entries) <= entries.len(),
    decreases entries.len(),
{
    if entries.len() > 0 {
        law_live_at_most_all(entries.drop_last());
    }
}

/// Every task that stays after removing final ones is live.
pub proof fn law_live_entries_are_live(entries: Seq<(Seq<char>, DdlTask)>)
    ensures
        forall|j: int| 0 <= j < live_entries(entries).len() ==> !is_terminal_state(#[trigger] live_entries(entries)[j].1.state),
        live_entries(live_entries(entries)) == live_entries(entries),
    decreases entries.len(),
{
    if entries.len() > 0 {
        law_live_entries_are_live(entries.drop_last());
        let l = live_entries(entries);
        let p = live_entries(entries.drop_last());
        if !is_terminal_state(entries.last().1.state) {
            assert(l.drop_last() =~= p);
        }
    }
}

/// The entry `(key, task)` keyed by the view of its key.
pub open spec fn entry_view(e: (String, DdlTask)) -> (Seq<char>, DdlTask) {
    (e.0@, e.1)
}

impl ShadowTableExecutor {
    /// The tasks with their ids, in the order they were first submitted.
    pub closed spec fn entries(&self) -> Seq<(Seq<char>, DdlTask)> {
        self.tasks@.map_values(|e: (String, DdlTask)| entry_view(e))
    }

    /// The parameters given to new tasks.
    pub closed spec fn parameters(&self) -> ShadowTableConfig {
        self.config
    }

    /// An executor without tasks.
    pub fn new(config: ShadowTableConfig) -> (res: Self)
        ensures
            res.entries() == Seq::<(Seq<char>, DdlTask)>::empty(),
            ids_unique(res.entries()),
            res.parameters() == config,
    {
        let res = ShadowTableExecutor { config, tasks: Vec::new() };
        assert(res.entries() =~= Seq::<(Seq<char>, DdlTask)>::empty());
        res
    }

    /// An executor with the default parameters.
    pub fn with_default_config() -> (res: Self)
        ensures
            res.entries() == Seq::<(Seq<char>, DdlTask)>::empty(),
            ids_unique(res.entries()),
            res.parameters().chunk_size == DEFAULT_CHUNK_SIZE,
            res.parameters().lock_timeout_ms == DEFAULT_LOCK_TIMEOUT_MS,
            res.parameters().verify_checksum,
            res.parameters().max_retries == DEFAULT_MAX_RETRIES,
            res.parameters().shadow_prefix@ == "_shadow_"@,
    {
        Self::new(ShadowTableConfig::new())
    }

    fn position(&self, task_id: &str) -> (res: Option<usize>)
        ensures
            opt_int(res) == key_position(self.entries(), task_id@),
            res matches Some(i) ==> i < self.tasks@.len() && self.tasks@[i as int].0@ == task_id@,
            self.entries().len() == self.tasks@.len(),
            forall|j: int| 0 <= j < self.tasks@.len() ==> #[trigger] self.entries()[j] == entry_view(self.tasks@[j]),
    {
        proof {
            lemma_key_position(self.entries(), task_id@);
        }
        let target = task_id.to_owned();
        let mut i: usize = 0;
        while i < self.tasks.len()
            invariant
                i <= self.tasks@.len(),
                target@ == task_id@,
                self.entries().len() == self.tasks@.len(),
                forall|j: int| 0 <= j < i ==> self.entries()[j].0 != task_id@,
                match key_position(self.entries(), task_id@) {
                    Some(p) => 0 <= p < self.entries().len() && self.entries()[p].0 == task_id@
                        && forall|j: int| 0 <= j < p ==> self.entries()[j].0 != task_id@,
                    None => forall|j: int| 0 <= j < self.entries().len() ==> self.entries()[j].0 != task_id@,
                },
            decreases self.tasks@.len() - i,
        {
            assert(self.entries()[i as int] == entry_view(self.tasks@[i as int]));
            if self.tasks[i].0 == target {
                return Some(i);
            }
            i = i + 1;
        }
        None
    }

    /// Registers a new task for `table` under `task_id` (replacing a task with the same
    /// id) and returns the id.
    pub fn submit(&mut self, task_id: &str, table: &str, operation: DdlOperation, total_rows: u64) -> (res: String)
        ensures
            ids_unique(old(self).entries()) ==> ids_unique(final(self).entries()),
            res@ == task_id@,
            final(self).parameters() == old(self).parameters(),
            ({
                let old_e = old(self).entries();
                let new_e = final(self).entries();
                let p = match key_position(old_e, task_id@) { Some(i) => i, None => old_e.len() as int };
                &&& new_e.len() == (if key_position(old_e, task_id@) is Some { old_e.len() } else { old_e.len() + 1 })
                &&& new_e[p].0 == task_id@
                &&& fresh_task(new_e[p].1, task_id@, table@, operation, total_rows, old(self).parameters())
                &&& forall|j: int| 0 <= j < old_e.len() && j != p ==> new_e[j] == old_e[j]
            }),
    {
        let task = DdlTask::new(task_id, table, operation, total_rows, self.config.duplicate());
        let key = task_id.to_owned();
        match self.position(task_id) {
            Some(i) => {
                self.tasks.set(i, (key, task));
                assert forall|j: int| 0 <= j < old(self).entries().len() && j != i implies
                    self.entries()[j] == old(self).entries()[j] by {
                    assert(self.tasks@[j] == old(self).tasks@[j]);
                }
                proof {
                    if ids_unique(old(self).entries()) {
                        assert(self.entries()[i as int] == entry_view(self.tasks@[i as int]));
                        assert(old(self).entries()[i as int] == entry_view(old(self).tasks@[i as int]));
                        assert forall|j: int| 0 <= j < old(self).entries().len() implies
                            #[trigger] self.entries()[j].0 == old(self).entries()[j].0 by {}
                        lemma_same_ids(old(self).entries(), self.entries());
                    }
                }
            },
            None => {
                self.tasks.push((key, task));
                assert forall|j: int| 0 <= j < old(self).entries().len() implies
                    self.entries()[j] == old(self).entries()[j] by {
                    assert(self.tasks@[j] == old(self).tasks@[j]);
                }
                proof {
                    lemma_key_position(old(self).entries(), task_id@);
                    let n = old(self).entries().len() as int;
                    assert(self.entries()[n] == entry_view(self.tasks@[n]));
                    if ids_unique(old(self).entries()) {
                        let e = self.entries();
                        assert forall|a: int, b: int| 0 <= a < b < e.len() implies e[a].0 != e[b].0 by {
                            assert(e[a] == old(self).entries()[a]);
                            if b < n {
                                assert(e[b] == old(self).entries()[b]);
                            }
                        }
                    }
                }
            },
        }
        task_id.to_owned()
    }

    /// The task with id `task_id`.
    pub fn task(&self, task_id: &str) -> (res: Option<&DdlTask>)
        ensures
            match key_position(self.entries(), task_id@) {
                Some(i) => res matches Some(t) && *t == self.entries()[i].1,
                None => res is None,
            },
    {
        match self.position(task_id) {
            Some(i) => {
                assert(self.entries()[i as int] == entry_view(self.tasks@[i as int]));
                Some(&self.tasks[i].1)
            },
            None => None,
        }
    }

    /// The task with id `task_id`, for changing it.
    pub fn task_mut(&mut self, task_id: &str) -> (res: Option<&mut DdlTask>)
        ensures
            match key_position(old(self).entries(), task_id@) {
                Some(i) => res matches Some(t) && *t == old(self).entries()[i].1
                    && final(self).entries() == old(self).entries().update(i, (task_id@, *final(t))),
                None => res is None && final(self).entries() == old(self).entries(),
            },
            final(self).parameters() == old(self).parameters(),
    {
        match self.position(task_id) {
            Some(i) => {
                assert(self.entries()[i as int] == entry_view(self.tasks@[i as int]));
                let entry = &mut self.tasks[i];
                Some(&mut entry.1)
            },
            None => None,
        }
    }

    /// The progress of the task with id `task_id`.
    pub fn progress(&self, task_id: &str) -> (res: Option<&DdlProgress>)
        ensures
            match key_position(self.entries(), task_id@) {
                Some(i) => res matches Some(p) && *p == self.entries()[i].1.progress,
                None => res is None,
            },
    {
        match self.task(task_id) {
            Some(t) => Some(&t.progress),
            None => None,
        }
    }

    /// Marks the task failed ("cancelled by user") unless it is missing or already in
    /// a final phase; tells whether it did.
    pub fn cancel(&mut self, task_id: &str) -> (res: bool)
        ensures
            ids_unique(old(self).entries()) ==> ids_unique(final(self).entries()),
            final(self).parameters() == old(self).parameters(),
            match key_position(old(self).entries(), task_id@) {
                Some(i) => if is_terminal_state(old(self).entries()[i].1.state) {
                    !res && final(self).entries() == old(self).entries()
                } else {
                    &&& res
                    &&& final(self).entries().len() == old(self).entries().len()
                    &&& final(self).entries()[i].0 == task_id@
                    &&& final(self).entries()[i].1.state matches DdlState::Failed(r) && r@ == "cancelled by user"@
                    &&& final(self).entries()[i].1.progress.current_state == final(self).entries()[i].1.state
                    &&& same_change(final(self).entries()[i].1, old(self).entries()[i].1)
                    &&& forall|j: int| 0 <= j < old(self).entries().len() && j != i ==> final(self).entries()[j] == old(self).entries()[j]
                },
                None => !res && final(self).entries() == old(self).entries(),
            },
    {
        match self.position(task_id) {
            Some(i) => {
                assert(self.entries()[i as int] == entry_view(self.tasks@[i as int]));
                if self.tasks[i].1.is_terminal() {
                    false
                } else {
                    let (key, mut task) = self.tasks.remove(i);
                    let ghost old_task = task;
                    task.fail("cancelled by user");
                    let ghost new_task = task;
                    self.tasks.insert(i, (key, task));
                    assert(self.tasks@ =~= old(self).tasks@.update(i as int, (key, new_task)));
                    assert(self.entries().len() == old(self).entries().len());
                    assert forall|j: int| 0 <= j < old(self).entries().len() && j != i implies
                        self.entries()[j] == old(self).entries()[j] by {
                        assert(self.tasks@[j] == old(self).tasks@[j]);
                    }
                    assert(self.entries()[i as int] == entry_view(self.tasks@[i as int]));
                    proof {
                        if ids_unique(old(self).entries()) {
                            assert forall|j: int| 0 <= j < old(self).entries().len() implies
                                #[trigger] self.entries()[j].0 == old(self).entries()[j].0 by {}
                            lemma_same_ids(old(self).entries(), self.entries());
                        }
                    }
                    true
                }
            },
            None => false,
        }
    }

    /// Removes the tasks in a final phase and returns how many were removed.
    pub fn remove_completed(&mut self) -> (res: usize)
        ensures
            ids_unique(old(self).entries()) ==> ids_unique(final(self).entries()),
            final(self).entries() == live_entries(old(self).entries()),
            res == old(self).entries().len() - live_count(old(self).entries()),
            final(self).parameters() == old(self).parameters(),
    {
        let before = self.tasks.len();
        let ghost old_e = self.entries();
        let mut all: Vec<(String, DdlTask)> = Vec::new();
        std::mem::swap(&mut all, &mut self.tasks);
        let ghost full = all@;
        assert(full.map_values(|e: (String, DdlTask)| entry_view(e)) == old_e);
        let mut kept: Vec<(String, DdlTask)> = Vec::new();
        let mut idx: usize = 0;
        while idx < before
            invariant
                full.len() == before,
                old_e == full.map_values(|e: (String, DdlTask)| entry_view(e)),
                idx <= before,
                all@ == full.subrange(idx as int, before as int),
                kept@.map_values(|e: (String, DdlTask)| entry_view(e)) == live_entries(old_e.take(idx as int)),
            decreases before - idx,
        {
            let e = all.remove(0);
            assert(e == full[idx as int]);
            assert(old_e[idx as int] == entry_view(e));
            assert(old_e.take(idx + 1).drop_last() =~= old_e.take(idx as int));
            let ghost prev = kept@;
            if !e.1.is_terminal() {
                kept.push(e);
                assert(kept@.map_values(|e: (String, DdlTask)| entry_view(e)) =~= prev.map_values(|e: (String, DdlTask)| entry_view(e)).push(old_e[idx as int]));
            }
            idx = idx + 1;
            assert(all@ =~= full.subrange(idx as int, before as int));
        }
        assert(old_e.take(before as int) =~= old_e);
        proof {
            law_live_at_most_all(old_e);
        }
        assert(kept@.len() == kept@.map_values(|e: (String, DdlTask)| entry_view(e)).len());
        self.tasks = kept;
        assert(self.entries() =~= live_entries(old_e));
        proof {
            if ids_unique(old_e) {
                lemma_live_unique(old_e);
            }
        }
        before - self.tasks.len()
    }

    /// Runs the whole shadow-table procedure of task `task_id` on `source`: the shadow
    /// table gets the source's schema with the change applied, receives every source
    /// row with the change applied, is verified against the source, takes the
    /// original name, and the task completes.
    pub fn execute(&mut self, task_id: &str, source: &TableSnapshot) -> (res: Result<(TableSnapshot, VerifyResult), String>)
        ensures
            ids_unique(old(self).entries()) ==> ids_unique(final(self).entries()),
            final(self).parameters() == old(self).parameters(),
            match key_position(old(self).entries(), task_id@) {
                None => res == Err::<(TableSnapshot, VerifyResult), String>(res->Err_0)
                    && res->Err_0@ == "task not found: "@ + task_id@
                    && final(self).entries() == old(self).entries(),
                Some(i) => if is_terminal_state(old(self).entries()[i].1.state) {
                    &&& res is Err
                    &&& res->Err_0@ == "task already terminal: "@ + state_text(old(self).entries()[i].1.state)
                    &&& final(self).entries() == old(self).entries()
                } else {
                    let before = old(self).entries()[i].1;
                    let after = final(self).entries()[i].1;
                    &&& res matches Ok((table, verify)) && {
                        &&& table@.name == before.table@
                        &&& table@.schema == applied_schema(source@.schema, before.operation)
                        &&& table@.rows == transformed_rows(source@.rows, before.operation, drop_position(source@.schema, before.operation))
                        &&& verification_of(verify, source@.rows, table@.rows, before.config.verify_checksum)
                    }
                    &&& final(self).entries().len() == old(self).entries().len()
                    &&& final(self).entries()[i].0 == task_id@
                    &&& after.state == DdlState::Completed
                    &&& after.progress.current_state == DdlState::Completed
                    &&& after.progress.rows_copied == source.rows@.len()
                    &&& same_change(after, before)
                    &&& forall|j: int| 0 <= j < old(self).entries().len() && j != i ==> final(self).entries()[j] == old(self).entries()[j]
                },
            },
    {
        let pos = match self.position(task_id) {
            Some(p) => p,
            None => {
                let mut msg = String::new();
                push_str(&mut msg, "task not found: ");
                push_str(&mut msg, task_id);
                return Err(msg);
            },
        };
        if self.tasks[pos].1.is_terminal() {
            let mut msg = String::new();
            push_str(&mut msg, "task already terminal: ");
            let described = describe_state(&self.tasks[pos].1.state);
            push_str(&mut msg, described.as_str());
            return Err(msg);
        }
        let (key, mut task) = self.tasks.remove(pos);

        // Init -> CreatingShadow: the shadow table, with the source's structure and no rows.
        task.advance();
        assert(task.progress.current_state == task.state);
        let mut shadow = TableSnapshot::new(task.shadow_table.as_str(), source.schema.duplicate());
        shadow.clear_rows();

        // CreatingShadow -> AlteringShadow: the change on the shadow schema.
        task.advance();
        let operation = task.operation.duplicate();
        let chunk_size = task.config.chunk_size;
        let verify_checksum = task.config.verify_checksum;
        apply_operation(&mut shadow.schema, &task.operation);

        // AlteringShadow -> CopyingData: the rows, chunk by chunk.
        task.advance();
        copy_data_in_chunks(source, &mut shadow, &operation, chunk_size, &mut task);

        // CopyingData -> Verifying.
        task.advance();
        let verify_result = VerifyResult::new(source, &shadow, verify_checksum);

        // Verifying -> Swapping: the shadow table takes the original name.
        task.advance();
        shadow.name = copy_string(&task.table);

        // Swapping -> Cleanup -> Completed.
        task.advance();
        task.advance();

        self.tasks.insert(pos, (key, task));
        proof {
            if ids_unique(old(self).entries()) {
                assert forall|j: int| 0 <= j < old(self).entries().len() implies
                    #[trigger] self.entries()[j].0 == old(self).entries()[j].0 by {
                    assert(self.entries()[j] == entry_view(self.tasks@[j]));
                    assert(old(self).entries()[j] == entry_view(old(self).tasks@[j]));
                    assert(self.tasks@[j].0 == old(self).tasks@[j].0);
                }
                lemma_same_ids(old(self).entries(), self.entries());
            }
        }
        Ok((shadow, verify_result))
    }

    /// The number of tasks not in a final phase.
    pub fn active_count(&self) -> (res: usize)
        ensures
            res == live_count(self.entries()),
    {
        let mut count: usize = 0;
        let mut i: usize = 0;
        while i < self.tasks.len()
            invariant
                i <= self.tasks@.len(),
                count == live_count(self.entries().take(i as int)),
                count <= i,
            decreases self.tasks@.len() - i,
        {
            assert(self.entries().take(i + 1).drop_last() =~= self.entries().take(i as int));
            assert(self.entries()[i as int] == entry_view(self.tasks@[i as int]));
            if !self.tasks[i].1.is_terminal() {
                count = count + 1;
            }
            i = i + 1;
        }
        assert(self.entries().take(self.tasks@.len() as int) =~= self.entries());
        count
    }

    /// The number of tasks.
    pub fn task_count(&self) -> (res: usize)
        ensures
            res == self.entries().len(),
    {
        self.tasks.len()
    }

}


/// What `format!("{:?}", s)` gives for a string: the text in double quotes, with the
/// escapes of `str::escape_debug`.
pub uninterp spec fn debug_text(s: Seq<char>) -> Seq<char>;

/// Renders a string as `Debug` does (`format!("{:?}")`); the result is named
/// `debug_text` of the string.
#[verifier::external_body]
pub(crate) fn debug_string(s: &str) -> (r: String)
    ensures
        r@ == debug_text(s@),
{
    format!("{:?}", s)
}

/// How a phase reads in messages: its name, and for `Failed` the reason in `Debug` form
/// in brackets (the derived `Debug` of the phase).
pub open spec fn state_text(s: DdlState) -> Seq<char> {
    match s {
        DdlState::Init => "Init"@,
        DdlState::CreatingShadow => "CreatingShadow"@,
        DdlState::AlteringShadow => "AlteringShadow"@,
        DdlState::CopyingData => "CopyingData"@,
        DdlState::Verifying => "Verifying"@,
        DdlState::Swapping => "Swapping"@,
        DdlState::Cleanup => "Cleanup"@,
        DdlState::Completed => "Completed"@,
        DdlState::Failed(r) => "Failed("@ + debug_text(r@) + ")"@,
    }
}

/// The text of a phase in messages, as `state_text` describes.
pub fn describe_state(state: &DdlState) -> (r: String)
    ensures
        r@ == state_text(*state),
{
    match state {
        DdlState::Init => "Init".to_owned(),
        DdlState::CreatingShadow => "CreatingShadow".to_owned(),
        DdlState::AlteringShadow => "AlteringShadow".to_owned(),
        DdlState::CopyingData => "CopyingData".to_owned(),
        DdlState::Verifying => "Verifying".to_owned(),
        DdlState::Swapping => "Swapping".to_owned(),
        DdlState::Cleanup => "Cleanup".to_owned(),
        DdlState::Completed => "Completed".to_owned(),
        DdlState::Failed(reason) => {
            let mut out = "Failed(".to_owned();
            let d = debug_string(reason.as_str());
            push_str(&mut out, d.as_str());
            push_str(&mut out, ")");
            out
        },
    }
}

// ---------------------------------------------------------------------
//  Helpers
// ---------------------------------------------------------------------

/// A task id: the prefix, "_" and the sequence number in at least six digits.
pub fn generate_task_id(prefix: &str, seq: u64) -> (res: String)
    ensures
        res@ == prefix@ + "_"@ + zero_pad(decimal(seq as nat), 6),
{
    let mut id = String::new();
    push_str(&mut id, prefix);
    push_str(&mut id, "_");
    push_decimal_padded(&mut id, seq, 6);
    id
}

/// The value that `generate_test_table` stores in row `i`, column `c`.
pub open spec fn test_value(i: nat, c: nat) -> Seq<char> {
    "v_"@ + decimal(i) + "_"@ + decimal(c)
}

/// A table named `name` with the given (name, type) columns and `row_count` rows;
/// row `i` holds "v_{i}_{c}" in column `c`.
pub fn generate_test_table(name: &str, columns: &[(&str, &str)], row_count: u64) -> (res: TableSnapshot)
    ensures
        res@.name == name@,
        res@.schema.len() == columns@.len(),
        forall|c: int| 0 <= c < columns@.len() ==> #[trigger] res@.schema[c] == (ColumnView {
            name: columns@[c].0@,
            data_type: columns@[c].1@,
            nullable: true,
            default_value: None,
        }),
        res@.rows.len() == row_count,
        forall|i: int| 0 <= i < row_count ==> (#[trigger] res@.rows[i]).len() == columns@.len(),
        forall|i: int, c: int| 0 <= i < row_count && 0 <= c < columns@.len() ==> #[trigger] res@.rows[i][c] == test_value(i as nat, c as nat),
{
    let mut cols: Vec<ColumnDefinition> = Vec::new();
    let mut c: usize = 0;
    while c < columns.len()
        invariant
            c <= columns@.len(),
            cols@.len() == c,
            forall|k: int| 0 <= k < c ==> #[trigger] cols@[k]@ == (ColumnView {
                name: columns@[k].0@,
                data_type: columns@[k].1@,
                nullable: true,
                default_value: None,
            }),
        decreases columns@.len() - c,
    {
        let (n, t) = columns[c];
        cols.push(ColumnDefinition::new(n, t));
        c = c + 1;
    }
    let mut table = TableSnapshot::new(name, TableSchema::from_columns(cols));
    let mut i: u64 = 0;
    while i < row_count
        invariant
            i <= row_count,
            table@.name == name@,
            table@.schema == columns_view(cols@),
            table@.rows.len() == i,
            forall|r: int| 0 <= r < i ==> (#[trigger] table@.rows[r]).len() == columns@.len(),
            forall|r: int, k: int| 0 <= r < i && 0 <= k < columns@.len() ==> #[trigger] table@.rows[r][k] == test_value(r as nat, k as nat),
        decreases row_count - i,
    {
        let mut values: Vec<String> = Vec::new();
        let mut k: usize = 0;
        while k < columns.len()
            invariant
                k <= columns@.len(),
                values@.len() == k,
                forall|m: int| 0 <= m < k ==> #[trigger] values@[m]@ == test_value(i as nat, m as nat),
            decreases columns@.len() - k,
        {
            let mut v = String::new();
            push_str(&mut v, "v_");
            push_decimal(&mut v, i);
            push_str(&mut v, "_");
            push_decimal(&mut v, k as u64);
            values.push(v);
            k = k + 1;
        }
        let row = Row::new(values);
        assert(row@.len() == columns@.len());
        table.insert_row(row);
        i = i + 1;
    }
    table
}

} // verus!
