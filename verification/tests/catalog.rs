//! The in-memory catalog: keys, lookups, comments, foreign keys, indexes, functions and
//! renames; and the messages of planning errors.

use szrsql_sql::ast::{
    ColumnDefinition, ForeignKeyReference, FunctionParameter, IndexColumn, ReferenceAction,
    TableName,
};
use szrsql_sql::plan::{
    Catalog, EnumTypeDefinition, ForeignKeyConstraint, FunctionDefinition, InMemoryCatalog,
    IndexDefinition, PlanError, SequenceDefinition, TableSchema,
};

fn schema(name: TableName, cols: &[(&str, bool)]) -> TableSchema {
    TableSchema {
        name,
        columns: cols
            .iter()
            .map(|(n, pk)| ColumnDefinition {
                name: n.to_string(),
                data_type: "INT".to_string(),
                primary_key: *pk,
            })
            .collect(),
    }
}

fn param(ty: &str) -> FunctionParameter {
    FunctionParameter { mode: None, name: None, data_type: ty.to_string(), default_expr: None }
}

fn function(name: &str, types: &[&str], body: &str) -> FunctionDefinition {
    FunctionDefinition {
        name: name.to_string(),
        parameters: types.iter().map(|t| param(t)).collect(),
        return_type: "integer".to_string(),
        language: "sql".to_string(),
        body: body.to_string(),
        volatility: None,
        strict: false,
        security_definer: false,
    }
}

fn index(name: &str, table: TableName, cols: &[&str]) -> IndexDefinition {
    IndexDefinition::new(
        name,
        table,
        cols.iter()
            .map(|c| IndexColumn { column: c.to_string(), asc: true, nulls_first: false })
            .collect(),
    )
}

#[test]
fn plan_error_messages() {
    assert_eq!(PlanError::TableNotFound("t".into()).to_string(), "table not found: t");
    assert_eq!(PlanError::ColumnNotFound("c".into()).to_string(), "column not found: c");
    assert_eq!(PlanError::AmbiguousColumn("id".into()).to_string(), "ambiguous column: id");
    assert_eq!(
        PlanError::ColumnCountMismatch { expected: 3, actual: 12 }.to_string(),
        "column count mismatch: expected 3, got 12"
    );
    assert_eq!(
        PlanError::Unsupported("x".into()).to_string(),
        "unsupported SQL feature: x"
    );
    assert_eq!(
        PlanError::InvalidExpression("1 +".into()).to_string(),
        "invalid expression: 1 +"
    );
    assert_eq!(
        PlanError::TableAlreadyExists("t".into()).to_string(),
        "table already exists: t"
    );
}

#[test]
fn find_column_ignores_ascii_case() {
    let s = schema(TableName::new("t"), &[("Id", true), ("name", false), ("ID", false)]);
    assert_eq!(s.find_column("id").map(|c| c.name.as_str()), Some("Id"));
    assert_eq!(s.find_column("NAME").map(|c| c.name.as_str()), Some("name"));
    assert!(s.find_column("missing").is_none());
    assert_eq!(s.column_names(), vec!["Id", "name", "ID"]);
}

#[test]
fn tables_are_keyed_case_insensitively() {
    let mut c = InMemoryCatalog::new();
    c.add_table(schema(TableName::new("Users"), &[("id", true)]));
    assert!(c.table_exists(&TableName::new("users")));
    assert!(c.table_exists(&TableName::with_schema("PUBLIC", "USERS")));
    assert!(!c.table_exists(&TableName::with_schema("other", "users")));
    let t = c.get_table(&TableName::new("USERS")).unwrap();
    assert_eq!(t.name.name, "Users");
    assert_eq!(c.list_tables().len(), 1);
    let removed = c.remove_table(&TableName::new("users")).unwrap();
    assert_eq!(removed.name.name, "Users");
    assert!(!c.table_exists(&TableName::new("users")));
    assert!(c.remove_table(&TableName::new("users")).is_none());
}

#[test]
fn table_lookup_falls_back_to_prefixed_names() {
    let mut c = InMemoryCatalog::new();
    c.add_table(schema(TableName::new("njszjt_soci_article"), &[("id", true)]));
    // `schema.table` is also looked for as `public.schema_table`.
    assert!(c.table_exists(&TableName::with_schema("njszjt", "soci_article")));
    let t = c.get_table(&TableName::with_schema("NJSZJT", "Soci_Article")).unwrap();
    assert_eq!(t.name.name, "njszjt_soci_article");
    // An unqualified name is also looked for as the end of a key.
    assert!(c.table_exists(&TableName::new("soci_article")));
    assert!(c.table_exists(&TableName::new("article")));
    assert!(!c.table_exists(&TableName::new("cle")));
    assert!(!c.table_exists(&TableName::with_schema("x", "soci_article")));
}

#[test]
fn sequences_and_enum_types() {
    let seq = SequenceDefinition::new(TableName::new("s"));
    assert_eq!(seq.start, 1);
    assert_eq!(seq.increment, 1);
    assert_eq!(seq.min_value, None);
    assert_eq!(seq.max_value, None);
    assert!(!seq.cycle);

    let mut c = InMemoryCatalog::new();
    assert!(!c.sequence_exists(&TableName::new("s")));
    c.add_sequence(SequenceDefinition { start: 10, ..seq });
    assert!(c.sequence_exists(&TableName::new("S")));
    assert_eq!(c.get_sequence(&TableName::new("s")).unwrap().start, 10);
    assert_eq!(c.list_sequences()[0].name, "s");

    let mood = EnumTypeDefinition::new(
        TableName::new("mood"),
        vec!["sad".to_string(), "ok".to_string()],
    );
    assert!(mood.contains("ok"));
    assert!(!mood.contains("OK"));
    c.add_enum_type(mood);
    assert!(c.enum_type_exists(&TableName::new("Mood")));
    if let Some(e) = c.get_enum_type_mut(&TableName::new("mood")) {
        e.labels.push("happy".to_string());
    }
    assert!(c.get_enum_type(&TableName::new("mood")).unwrap().contains("happy"));
    assert_eq!(c.list_enum_types().len(), 1);
    assert!(c.get_enum_type_mut(&TableName::new("other")).is_none());
    let removed = c.remove_enum_type(&TableName::new("MOOD")).unwrap();
    assert_eq!(removed.labels.len(), 3);
    assert!(!c.enum_type_exists(&TableName::new("mood")));
}

#[test]
fn comments_are_read_back() {
    let mut c = InMemoryCatalog::new();
    let t = TableName::new("Orders");
    assert!(c.set_table_comment(&t, Some("all orders".into())).is_ok());
    assert!(c.set_column_comment(&t, "Total", Some("in cents".into())).is_ok());
    assert_eq!(c.get_table_comment(&TableName::new("orders")), Some("all orders".to_string()));
    assert_eq!(c.get_column_comment(&t, "TOTAL"), Some("in cents".to_string()));
    assert_eq!(c.get_column_comment(&t, "other"), None);
    assert!(c.set_table_comment(&t, None).is_ok());
    assert_eq!(c.get_table_comment(&t), None);
    assert_eq!(c.get_column_comment(&t, "total"), Some("in cents".to_string()));
    assert!(c.set_column_comment(&t, "total", None).is_ok());
    assert_eq!(c.get_column_comment(&t, "total"), None);
}

#[test]
fn foreign_keys_resolve_the_primary_key() {
    let mut c = InMemoryCatalog::new();
    c.add_table(schema(TableName::new("parent"), &[("name", false), ("pid", true)]));
    let fk = ForeignKeyConstraint {
        name: Some("fk_child".to_string()),
        columns: vec!["parent_id".to_string()],
        reference: ForeignKeyReference {
            table: TableName::new("parent"),
            columns: None,
            on_delete: Some(ReferenceAction::Cascade),
            on_update: None,
        },
    };
    assert!(c.add_foreign_key(&TableName::new("child"), fk).is_ok());
    let fks = c.get_foreign_keys(&TableName::new("child"));
    assert_eq!(fks.len(), 1);
    assert_eq!(fks[0].columns, vec!["parent_id".to_string()]);
    let refs = c.get_referencing_keys(&TableName::new("PARENT"));
    assert_eq!(refs.len(), 1);
    assert_eq!(refs[0].child_table.name, "child");
    assert_eq!(refs[0].parent_columns, vec!["pid".to_string()]);
    assert_eq!(refs[0].on_delete, ReferenceAction::Cascade);
    assert_eq!(refs[0].on_update, ReferenceAction::NoAction);
    assert_eq!(refs[0].name, Some("fk_child".to_string()));
}

#[test]
fn foreign_key_errors() {
    let mut c = InMemoryCatalog::new();
    let fk = |table: TableName| ForeignKeyConstraint {
        name: None,
        columns: vec!["x".to_string()],
        reference: ForeignKeyReference {
            table,
            columns: None,
            on_delete: None,
            on_update: None,
        },
    };
    let e = c.add_foreign_key(&TableName::new("child"), fk(TableName::with_schema("s", "p")));
    assert_eq!(e, Err(PlanError::TableNotFound("s.p".to_string())));
    c.add_table(schema(TableName::new("nopk"), &[("a", false)]));
    let e = c.add_foreign_key(&TableName::new("child"), fk(TableName::new("nopk")));
    assert_eq!(
        e,
        Err(PlanError::Unsupported(
            "cannot resolve PK of referenced table nopk for FK".to_string()
        ))
    );
    assert!(c.get_foreign_keys(&TableName::new("child")).is_empty());
    // Named referenced columns need no table.
    let mut named = fk(TableName::new("absent"));
    named.reference.columns = Some(vec!["k".to_string()]);
    assert!(c.add_foreign_key(&TableName::new("child"), named).is_ok());
    assert_eq!(c.get_referencing_keys(&TableName::new("absent"))[0].parent_columns, vec!["k"]);
}

#[test]
fn indexes_replace_by_name_and_are_removed() {
    let mut c = InMemoryCatalog::new();
    let t = TableName::new("t");
    c.add_index(index("idx_a", t.clone(), &["a"]));
    c.add_index(index("idx_b", t.clone(), &["b"]));
    c.add_index(IndexDefinition::new_unique(
        "IDX_A",
        t.clone(),
        vec![IndexColumn { column: "a2".to_string(), asc: false, nulls_first: true }],
    ));
    let list = c.list_indexes(&t);
    assert_eq!(list.len(), 2);
    assert_eq!(list[0].name, "IDX_A");
    assert!(list[0].unique);
    assert_eq!(list[0].column_names(), vec!["a2"]);
    let removed = c.remove_index("Idx_B").unwrap();
    assert_eq!(removed.name, "idx_b");
    assert!(c.remove_index("idx_b").is_none());
    assert_eq!(c.list_indexes(&t).len(), 1);
}

#[test]
fn functions_overload_by_parameter_types() {
    let mut c = InMemoryCatalog::new();
    assert!(c.add_function(function("Add", &["int", "int"], "a"), false).is_ok());
    assert!(c.add_function(function("add", &["text"], "b"), false).is_ok());
    let e = c.add_function(function("ADD", &[" INT ", "Int"], "c"), false);
    assert_eq!(
        e,
        Err(PlanError::Unsupported(
            "function ADD already exists with same parameter types".to_string()
        ))
    );
    assert!(c.add_function(function("add", &["INT", "int"], "d"), true).is_ok());
    assert_eq!(c.get_function("ADD").unwrap().body, "d");
    assert_eq!(c.find_function("add", 1).unwrap().body, "b");
    assert!(c.find_function("add", 3).is_none());
    assert_eq!(c.list_functions(), vec!["add".to_string()]);
    let overloads = c.list_function_overloads("add");
    assert_eq!(overloads.len(), 2);
    assert_eq!(overloads[1].body, "b");
    assert!(c.get_function("other").is_none());
}

#[test]
fn dropping_functions() {
    let mut c = InMemoryCatalog::new();
    assert_eq!(
        c.drop_function("f", &[], false),
        Err(PlanError::Unsupported("function f does not exist".to_string()))
    );
    assert_eq!(c.drop_function("f", &[], true), Ok(false));
    c.add_function(function("f", &["int"], "a"), false).unwrap();
    c.add_function(function("f", &["text"], "b"), false).unwrap();
    assert_eq!(
        c.drop_function("f", &[], false),
        Err(PlanError::Unsupported(
            "function f is overloaded (2 variants), must specify parameter types".to_string()
        ))
    );
    assert_eq!(
        c.drop_function("f", &["bool".to_string()], false),
        Err(PlanError::Unsupported(
            "function f with specified parameter types does not exist".to_string()
        ))
    );
    assert_eq!(c.drop_function("f", &["bool".to_string()], true), Ok(false));
    assert_eq!(c.drop_function("F", &[" TEXT".to_string()], false), Ok(true));
    assert_eq!(c.drop_function("f", &[], false), Ok(true));
    assert!(c.get_function("f").is_none());
    // The name stays listed with no function left.
    assert_eq!(c.list_functions(), vec!["f".to_string()]);
    assert_eq!(c.drop_function("f", &[], true), Ok(false));
}

#[test]
fn replacing_and_renaming_tables() {
    let mut c = InMemoryCatalog::new();
    let e = c.replace_table_schema(schema(TableName::new("t"), &[]));
    assert_eq!(e, Err(PlanError::TableNotFound("t".to_string())));
    c.add_table(schema(TableName::new("t"), &[("a", false)]));
    assert!(c.replace_table_schema(schema(TableName::new("T"), &[("a", false), ("b", false)])).is_ok());
    assert_eq!(c.get_table(&TableName::new("t")).unwrap().columns.len(), 2);

    c.add_index(index("idx", TableName::new("t"), &["a"]));
    let fk = ForeignKeyConstraint {
        name: None,
        columns: vec!["a".to_string()],
        reference: ForeignKeyReference {
            table: TableName::new("p"),
            columns: Some(vec!["id".to_string()]),
            on_delete: None,
            on_update: None,
        },
    };
    c.add_foreign_key(&TableName::new("t"), fk).unwrap();
    c.add_table(schema(TableName::new("other"), &[]));

    assert_eq!(
        c.rename_table(&TableName::new("missing"), &TableName::new("x")),
        Err(PlanError::TableNotFound("missing".to_string()))
    );
    assert_eq!(
        c.rename_table(&TableName::new("t"), &TableName::with_schema("public", "OTHER")),
        Err(PlanError::TableAlreadyExists("public.OTHER".to_string()))
    );
    assert!(c.rename_table(&TableName::new("t"), &TableName::new("t2")).is_ok());
    assert!(!c.table_exists(&TableName::with_schema("public", "t")));
    let t2 = c.get_table(&TableName::new("t2")).unwrap();
    assert_eq!(t2.name.name, "t2");
    assert_eq!(t2.columns.len(), 2);
    let idx = c.list_indexes(&TableName::new("t2"));
    assert_eq!(idx.len(), 1);
    assert_eq!(idx[0].table.name, "t2");
    assert!(c.list_indexes(&TableName::new("t")).is_empty());
    assert_eq!(c.get_foreign_keys(&TableName::new("t2")).len(), 1);
    assert!(c.get_foreign_keys(&TableName::new("t")).is_empty());
    let refs = c.get_referencing_keys(&TableName::new("p"));
    assert_eq!(refs.len(), 1);
    assert_eq!(refs[0].child_table.name, "t2");
}

#[test]
fn a_new_function_can_be_dropped_by_its_types() {
    let mut c = InMemoryCatalog::new();
    c.add_function(function("other", &["int"], "o"), false).unwrap();
    c.add_function(function("Fresh", &["int", " text "], "x"), false).unwrap();
    assert_eq!(c.drop_function("fresh", &["INT".to_string(), "TEXT".to_string()], false), Ok(true));
    assert!(c.get_function("fresh").is_none());
    assert_eq!(c.get_function("other").unwrap().body, "o");

    c.add_function(function("noargs", &[], "n"), true).unwrap();
    assert_eq!(c.drop_function("NOARGS", &[], false), Ok(true));
    assert!(c.list_function_overloads("noargs").is_empty());
}

#[test]
fn default_catalog_is_empty() {
    let c = InMemoryCatalog::default();
    assert!(c.list_tables().is_empty());
    assert!(c.list_functions().is_empty());
    assert!(c.list_sequences().is_empty());
    assert!(c.list_enum_types().is_empty());
}

#[test]
fn column_count_errors_name_the_row() {
    let e = PlanError::ColumnCountMismatch { expected: 2, actual: 3 }.into_error_with_row(7);
    assert_eq!(
        e,
        PlanError::InvalidExpression("row 7: column count mismatch (expected 2, got 3)".to_string())
    );
    let other = PlanError::TableNotFound("t".to_string()).into_error_with_row(1);
    assert_eq!(other, PlanError::TableNotFound("t".to_string()));
}
