//! Statements parsed by hand, the rewriting of `SET` forms, the size checks, and the
//! order in which statements come back.

use szrsql_sql::ast::{
    AlterTypeAction, CommentObjectType, FunctionArgMode, FunctionVolatility, SqlKind, Statement,
    TableName,
};
use szrsql_sql::hex::decode;
use szrsql_sql::normalize::{
    count_binary_op_keywords, needs_set_normalization, normalize_set_no_value,
    normalize_set_statements, normalize_show_procedure_function,
};
use szrsql_sql::parser::{
    finish_statements, parse_one, parse_single_statement, parse_sql, ParseError, SegmentKind,
};
use szrsql_sql::split::split_sql_statements_with_dollar_quotes;

fn chars(s: &str) -> Vec<char> {
    s.chars().collect()
}

fn text(v: &[char]) -> String {
    v.iter().collect()
}

fn unsupported_message(r: Result<Statement, ParseError>) -> String {
    match r {
        Err(ParseError::Unsupported(m)) => m,
        other => panic!("expected Unsupported, got {other:?}"),
    }
}

#[test]
fn listen_unlisten_notify() {
    match parse_one("LISTEN orders").unwrap() {
        Statement::Listen { channel } => assert_eq!(channel, "orders"),
        other => panic!("unexpected {other:?}"),
    }
    match parse_one("UNLISTEN *").unwrap() {
        Statement::Unlisten { channel } => assert_eq!(channel, "*"),
        other => panic!("unexpected {other:?}"),
    }
    match parse_one("NOTIFY orders, 'hello world'").unwrap() {
        Statement::Notify { channel, payload } => {
            assert_eq!(channel, "orders");
            assert_eq!(payload, "hello world");
        }
        other => panic!("unexpected {other:?}"),
    }
    match parse_one("notify \"my channel\"").unwrap() {
        Statement::Notify { channel, payload } => {
            assert_eq!(channel, "my channel");
            assert_eq!(payload, "");
        }
        other => panic!("unexpected {other:?}"),
    }
    let m = unsupported_message(parse_one("LISTEN a b"));
    assert_eq!(m, "LISTEN requires exactly 1 channel argument, got: LISTEN a b");
    match parse_one("NOTIFY ch, payload") {
        Err(ParseError::InvalidValue(m)) => {
            assert_eq!(m, "NOTIFY payload must be a quoted string, got: payload")
        }
        other => panic!("unexpected {other:?}"),
    }
    let m = unsupported_message(parse_one("LISTEN a-b"));
    assert_eq!(m, "invalid channel name: a-b (expected identifier or quoted string)");
}

#[test]
fn analyze_tables() {
    match parse_one("ANALYZE VERBOSE t1, s.t2").unwrap() {
        Statement::Analyze { tables, verbose } => {
            assert!(verbose);
            assert_eq!(tables.len(), 2);
            assert_eq!(tables[0], TableName::new("t1"));
            assert_eq!(tables[1], TableName::new("s.t2"));
        }
        other => panic!("unexpected {other:?}"),
    }
    match parse_one("ANALYZE").unwrap() {
        Statement::Analyze { tables, verbose } => {
            assert!(!verbose);
            assert!(tables.is_empty());
        }
        other => panic!("unexpected {other:?}"),
    }
    match parse_one("ANALYZE \"Big\" . \"T\"").unwrap() {
        Statement::Analyze { tables, .. } => {
            assert_eq!(tables, vec![TableName::with_schema("Big", "T")]);
        }
        other => panic!("unexpected {other:?}"),
    }
    let m = unsupported_message(parse_one("ANALYZE a b c"));
    assert_eq!(m, "invalid table name with 3 parts: [\"a\", \"b\", \"c\"]");
}

#[test]
fn alter_type_forms() {
    match parse_one("ALTER TYPE mood ADD VALUE IF NOT EXISTS 'happy'").unwrap() {
        Statement::AlterType { name, action } => {
            assert_eq!(name, TableName::new("mood"));
            assert_eq!(
                action,
                AlterTypeAction::AddValue { value: "happy".to_string(), if_not_exists: true }
            );
        }
        other => panic!("unexpected {other:?}"),
    }
    match parse_one("alter type s.mood rename value 'sad' to 'blue'").unwrap() {
        Statement::AlterType { name, action } => {
            assert_eq!(name, TableName::with_schema("s", "mood"));
            assert_eq!(
                action,
                AlterTypeAction::RenameValue { old: "sad".to_string(), new: "blue".to_string() }
            );
        }
        other => panic!("unexpected {other:?}"),
    }
    match parse_one("ALTER TYPE mood RENAME TO feeling").unwrap() {
        Statement::AlterType { action, .. } => {
            assert_eq!(action, AlterTypeAction::Rename { new_name: TableName::new("feeling") });
        }
        other => panic!("unexpected {other:?}"),
    }
    let m = unsupported_message(parse_one("ALTER TYPE mood DROP VALUE 'x'"));
    assert_eq!(m, "unsupported ALTER TYPE operation: DROP VALUE 'x'");
    let m = unsupported_message(parse_one("ALTER TYPE mood ADD VALUE happy"));
    assert_eq!(m, "expected string literal: happy");
}

#[test]
fn flashback_forms() {
    match parse_one("FLASHBACK TRANSACTION 42").unwrap() {
        Statement::FlashbackTransaction { txn_id } => assert_eq!(txn_id, 42),
        other => panic!("unexpected {other:?}"),
    }
    match parse_one("FLASHBACK TABLE s.t TO TIMESTAMP '2026-07-20 12:00:00'").unwrap() {
        Statement::FlashbackTable { table, timestamp } => {
            assert_eq!(table, TableName::with_schema("s", "t"));
            assert_eq!(timestamp, "2026-07-20 12:00:00");
        }
        other => panic!("unexpected {other:?}"),
    }
    match parse_one("FLASHBACK TRANSACTION abc") {
        Err(ParseError::InvalidValue(m)) => assert_eq!(
            m,
            "FLASHBACK TRANSACTION txn_id must be a non-negative integer, got: abc"
        ),
        other => panic!("unexpected {other:?}"),
    }
    match parse_one("FLASHBACK TRANSACTION 18446744073709551616") {
        Err(ParseError::InvalidValue(_)) => {}
        other => panic!("unexpected {other:?}"),
    }
    match parse_one("FLASHBACK TRANSACTION +7").unwrap() {
        Statement::FlashbackTransaction { txn_id } => assert_eq!(txn_id, 7),
        other => panic!("unexpected {other:?}"),
    }
    let m = unsupported_message(parse_one("FLASHBACK DATABASE x"));
    assert_eq!(
        m,
        "unsupported FLASHBACK sub-keyword: DATABASE (expected TRANSACTION or TABLE)"
    );
    let m = unsupported_message(parse_one("FLASHBACK TRANSACTION 1 2"));
    assert_eq!(
        m,
        "FLASHBACK TRANSACTION requires exactly 1 argument (txn_id), got [\"1\", \"2\"]"
    );
}

#[test]
fn drop_and_refresh_materialized_views() {
    match parse_one("DROP MATERIALIZED VIEW IF EXISTS a, s.b CASCADE").unwrap() {
        Statement::DropView { names, if_exists, cascade, materialized } => {
            assert_eq!(names, vec![TableName::new("a"), TableName::with_schema("s", "b")]);
            assert!(if_exists && cascade && materialized);
        }
        other => panic!("unexpected {other:?}"),
    }
    let m = unsupported_message(parse_one("DROP MATERIALIZED VIEW RESTRICT"));
    assert_eq!(
        m,
        "DROP MATERIALIZED VIEW requires at least one view name, got: DROP MATERIALIZED VIEW RESTRICT"
    );
    match parse_one("REFRESH MATERIALIZED VIEW CONCURRENTLY s.v WITH NO DATA").unwrap() {
        Statement::RefreshMaterializedView { name, with_data } => {
            assert_eq!(name, TableName::with_schema("s", "v"));
            assert!(!with_data);
        }
        other => panic!("unexpected {other:?}"),
    }
    match parse_one("refresh materialized view v with data").unwrap() {
        Statement::RefreshMaterializedView { name, with_data } => {
            assert_eq!(name, TableName::new("v"));
            assert!(with_data);
        }
        other => panic!("unexpected {other:?}"),
    }
    let m = unsupported_message(parse_one("REFRESH MATERIALIZED VIEW a.b.c"));
    assert_eq!(m, "unsupported table name with 3 parts: a.b.c");
}

#[test]
fn create_materialized_view_if_not_exists() {
    match parse_one("CREATE MATERIALIZED VIEW IF NOT EXISTS mv AS SELECT 1").unwrap() {
        Statement::Sql(s) => {
            assert_eq!(s.kind, SqlKind::CreateView { materialized: true });
            assert!(s.if_not_exists);
        }
        other => panic!("unexpected {other:?}"),
    }
    match parse_sql("CREATE MATERIALIZED VIEW IF NOT EXISTS mv AS SELEC") {
        Err(ParseError::SqlParser(_)) => {}
        other => panic!("unexpected {other:?}"),
    }
}

#[test]
fn drop_function_forms() {
    match parse_one("DROP FUNCTION IF EXISTS f(int, text) CASCADE").unwrap() {
        Statement::DropFunction { name, parameter_types, if_exists, cascade } => {
            assert_eq!(name, "f");
            assert_eq!(parameter_types, vec!["int".to_string(), "text".to_string()]);
            assert!(if_exists && cascade);
        }
        other => panic!("unexpected {other:?}"),
    }
    match parse_one("DROP FUNCTION \"My\".\"Fn\"").unwrap() {
        Statement::DropFunction { name, parameter_types, if_exists, cascade } => {
            assert_eq!(name, "My.Fn");
            assert!(parameter_types.is_empty());
            assert!(!if_exists && !cascade);
        }
        other => panic!("unexpected {other:?}"),
    }
    let m = unsupported_message(parse_one("DROP FUNCTION f(int"));
    assert_eq!(m, "unmatched parenthesis: (int");
}

#[test]
fn create_function_postgres_form() {
    let sql = "CREATE OR REPLACE FUNCTION add_int(a integer, OUT b integer DEFAULT 0) RETURNS integer LANGUAGE plpgsql IMMUTABLE STRICT SECURITY DEFINER AS $$ BEGIN RETURN a + 1; END; $$;";
    match parse_one(sql).unwrap() {
        Statement::CreateFunction {
            name,
            parameters,
            return_type,
            language,
            body,
            or_replace,
            volatility,
            strict,
            security_definer,
        } => {
            assert_eq!(name, "add_int");
            assert_eq!(parameters.len(), 2);
            assert_eq!(parameters[0].mode, None);
            assert_eq!(parameters[0].name.as_deref(), Some("a"));
            assert_eq!(parameters[0].data_type, "integer");
            assert_eq!(parameters[1].mode, Some(FunctionArgMode::Out));
            assert_eq!(parameters[1].name.as_deref(), Some("b"));
            assert_eq!(parameters[1].data_type, "integer");
            assert_eq!(parameters[1].default_expr.as_deref(), Some("0"));
            assert_eq!(return_type, "integer");
            assert_eq!(language, "plpgsql");
            assert_eq!(body, " BEGIN RETURN a + 1; END; ");
            assert!(or_replace && strict && security_definer);
            assert_eq!(volatility, Some(FunctionVolatility::Immutable));
        }
        other => panic!("unexpected {other:?}"),
    }
}

#[test]
fn create_function_mysql_forms() {
    match parse_one("CREATE FUNCTION twice(x INT) RETURNS INT DETERMINISTIC RETURN x * 2").unwrap() {
        Statement::CreateFunction { body, language, volatility, return_type, .. } => {
            assert_eq!(body, "BEGIN RETURN x * 2; END");
            assert_eq!(language, "plpgsql");
            assert_eq!(return_type, "INT");
            assert_eq!(volatility, Some(FunctionVolatility::Immutable));
        }
        other => panic!("unexpected {other:?}"),
    }
    match parse_one("CREATE FUNCTION f(x INT) RETURNS INT NO SQL BEGIN BEGIN RETURN 1 END END").unwrap() {
        Statement::CreateFunction { body, .. } => {
            assert_eq!(body, "BEGIN BEGIN RETURN 1 END END");
        }
        other => panic!("unexpected {other:?}"),
    }
    // Semicolons inside a BEGIN ... END body cut the text into statements, as for any
    // text without dollar quotes.
    assert!(parse_one("CREATE FUNCTION f() RETURNS INT BEGIN RETURN 1; END").is_err());
    match parse_one("CREATE FUNCTION g() RETURNS INT BEGIN RETURN 1").unwrap() {
        Statement::CreateFunction { body, .. } => assert_eq!(body, "BEGIN RETURN 1 END"),
        other => panic!("unexpected {other:?}"),
    }
    let m = unsupported_message(parse_one("CREATE FUNCTION h() RETURNS INT LANGUAGE sql"));
    assert_eq!(
        m,
        "CREATE FUNCTION missing AS clause (body): CREATE FUNCTION h() RETURNS INT LANGUAGE sql"
    );
    match parse_one("CREATE FUNCTION q() RETURNS SETOF text COST = 5 AS 'select ''x'''").unwrap() {
        Statement::CreateFunction { body, return_type, .. } => {
            assert_eq!(body, "select 'x'");
            assert_eq!(return_type, "SETOF text");
        }
        other => panic!("unexpected {other:?}"),
    }
}

#[test]
fn statements_come_back_in_text_order() {
    let stmts = parse_sql("LISTEN a; SELECT 1; NOTIFY b; COMMENT ON TABLE t IS 'x'").unwrap();
    assert_eq!(stmts.len(), 4);
    assert!(matches!(&stmts[0], Statement::Listen { channel } if channel == "a"));
    assert!(matches!(&stmts[1], Statement::Sql(s) if s.kind == SqlKind::Query));
    assert!(matches!(&stmts[2], Statement::Notify { channel, .. } if channel == "b"));
    match &stmts[3] {
        Statement::Comment { object_type, comment, .. } => {
            assert_eq!(*object_type, CommentObjectType::Table);
            assert_eq!(comment.as_deref(), Some("x"));
        }
        other => panic!("unexpected {other:?}"),
    }
}

#[test]
fn hand_parser_errors_by_kind_order() {
    // The LISTEN statement comes first in the text, but ALTER TYPE statements are
    // parsed before LISTEN statements, so their error is the one reported.
    let r = parse_sql("LISTEN; ALTER TYPE mood DROP");
    match r {
        Err(ParseError::Unsupported(m)) => {
            assert_eq!(m, "unsupported ALTER TYPE operation: DROP")
        }
        other => panic!("unexpected {other:?}"),
    }
}

#[test]
fn size_limits() {
    let many = vec!["a = 1"; 258].join(" OR ");
    match parse_sql(&format!("SELECT 1 WHERE {many}")) {
        Err(ParseError::Unsupported(m)) => assert_eq!(
            m,
            "too many OR/AND operators in SQL: 257 (max 256); this is a ADV-BUG-001 protection against stack overflow DoS"
        ),
        other => panic!("unexpected {other:?}"),
    }
    let long = format!("SELECT '{}'", "x".repeat(1024 * 1024));
    match parse_sql(&long) {
        Err(ParseError::Unsupported(m)) => {
            assert_eq!(m, "SQL too long: 1048585 bytes (max 1048576 bytes)")
        }
        other => panic!("unexpected {other:?}"),
    }
}

#[test]
fn counting_boolean_keywords() {
    assert_eq!(count_binary_op_keywords(&chars("a OR b and c Or d")), 3);
    assert_eq!(count_binary_op_keywords(&chars("ORDER BY x, ANDROID, oregon")), 0);
    assert_eq!(count_binary_op_keywords(&chars("x=1 AND(y=2)OR z")), 2);
    assert_eq!(count_binary_op_keywords(&chars("or")), 1);
    assert_eq!(count_binary_op_keywords(&chars("é or é")), 1);
}

#[test]
fn set_statement_rewriting() {
    let norm = |s: &str| text(&normalize_set_no_value(&chars(s)));
    assert_eq!(norm("SET"), "SET autocommit = 1");
    assert_eq!(norm("  set autocommit"), "SET autocommit = 1");
    assert_eq!(norm("SET AUTOCOMMIT ON"), "SET AUTOCOMMIT = 'on'");
    assert_eq!(norm("SET x OFF"), "SET x = 'off'");
    assert_eq!(norm("SET x ="), "SET x = 1");
    assert_eq!(norm("SET search_path TO "), "SET search_path = 1");
    assert_eq!(norm("SET CHARACTER SET 'utf8mb4'"), "SET character_set_client = 'utf8mb4'");
    assert_eq!(norm("SET CHARACTER SET"), "SET character_set_client = 'UTF8'");
    assert_eq!(norm("SET TIME ZONE 'Asia/Shanghai'"), "SET timezone = 'Asia/Shanghai'");
    assert_eq!(norm("SET TIME ZONE it's"), "SET timezone = 'it''s'");
    // The value of SESSION AUTHORIZATION is read from the 21st character of the body on.
    assert_eq!(norm("SET SESSION AUTHORIZATION DEFAULT"), "SET session_authorization = 'N DEFAULT'");
    assert_eq!(norm("SET x = 3"), "SET x = 3");
    assert_eq!(norm(" SELECT 1 "), " SELECT 1 ");
    assert!(!needs_set_normalization(&chars("SET x = 3")));
    assert!(needs_set_normalization(&chars("SET x")));
    assert!(!needs_set_normalization(&chars("SET NAMES utf8")));
    assert_eq!(
        text(&normalize_set_statements(&chars("SET AUTOCOMMIT; SET x = 2;"))),
        "SET AUTOCOMMIT = 1; SET x = 2;"
    );
    // A lone trailing `set` after a semicolon is not a SET word for the rewriting.
    assert_eq!(text(&normalize_set_statements(&chars("SELECT 1;set"))), "SELECT 1;set");
}

#[test]
fn routine_status_rewriting() {
    let out = text(&normalize_show_procedure_function(&chars(
        "SHOW PROCEDURE STATUS WHERE Db = 'x'; SELECT 1",
    )));
    assert!(out.starts_with("SELECT '' AS Db, '' AS Name"));
    assert!(out.ends_with("WHERE 1=0; SELECT 1"));
    assert_eq!(text(&normalize_show_procedure_function(&chars("SHOW TABLES"))), "SHOW TABLES");
    let stmts = parse_sql("SHOW FUNCTION STATUS WHERE Db = 'app'").unwrap();
    assert!(matches!(&stmts[0], Statement::Sql(s) if s.kind == SqlKind::Query));
}

#[test]
fn dollar_quoted_cutting() {
    let segs = split_sql_statements_with_dollar_quotes(&chars(
        "CREATE FUNCTION f() RETURNS int AS $body$ SELECT 1; $body$ LANGUAGE sql; -- x;\nSELECT ';' /* a; /* b; */ c; */;  ",
    ));
    let segs: Vec<String> = segs.iter().map(|s| text(s)).collect();
    assert_eq!(segs.len(), 2);
    assert_eq!(
        segs[0],
        "CREATE FUNCTION f() RETURNS int AS $body$ SELECT 1; $body$ LANGUAGE sql;"
    );
    assert_eq!(segs[1], " -- x;\nSELECT ';' /* a; /* b; */ c; */;");
}

#[test]
fn single_statement_mode() {
    assert!(parse_single_statement("SELECT 1").is_ok());
    let m = unsupported_message(parse_single_statement("SELECT 1; DROP TABLE users"));
    assert_eq!(
        m,
        "multi-statement SQL not allowed in single-statement mode (ADV-BUG-002 protection): got 2 statements"
    );
    assert_eq!(unsupported_message(parse_single_statement("")), "empty SQL statement");
    assert_eq!(unsupported_message(parse_one("SELECT 1; SELECT 2")), "expected 1 statement, got 2");
}

#[test]
fn unsupported_sqlparser_statement() {
    let m = unsupported_message(parse_one("CREATE SCHEMA app"));
    assert!(m.starts_with("unsupported statement: CreateSchema"));
}

#[test]
fn finishing_checks_counts_and_order() {
    let kinds = vec![SegmentKind::Plain, SegmentKind::Listen, SegmentKind::Blank];
    let results = vec![
        None,
        Some(Ok(Statement::Listen { channel: "c".to_string() })),
        None,
    ];
    match finish_statements(&kinds, results, Ok(Vec::new())) {
        Err(ParseError::Unsupported(m)) => assert_eq!(
            m,
            "parse_sql: non-special statement count mismatch (parsed=0, expected=1) \u{2014} possible sqlparser splitting issue"
        ),
        other => panic!("unexpected {other:?}"),
    }
    let kinds = vec![SegmentKind::Listen, SegmentKind::Notify];
    let results = vec![
        Some(Err(ParseError::Unsupported("later".to_string()))),
        Some(Err(ParseError::Unsupported("first".to_string()))),
    ];
    match finish_statements(&kinds, results, Ok(Vec::new())) {
        Err(ParseError::Unsupported(m)) => assert_eq!(m, "later"),
        other => panic!("unexpected {other:?}"),
    }
}

#[test]
fn error_texts() {
    assert_eq!(ParseError::SqlParser("x".to_string()).to_string(), "sqlparser error: x");
    assert_eq!(
        ParseError::Unsupported("y".to_string()).to_string(),
        "unsupported SQL syntax: y"
    );
    assert_eq!(ParseError::InvalidDataType("z".to_string()).to_string(), "invalid data type: z");
    assert_eq!(ParseError::InvalidValue("w".to_string()).to_string(), "invalid literal value: w");
}

#[test]
fn hex_decoding() {
    assert_eq!(decode("48656c6C6f"), Ok(b"Hello".to_vec()));
    assert_eq!(decode(""), Ok(Vec::new()));
    assert_eq!(decode("abc"), Err(()));
    assert_eq!(decode("zz"), Err(()));
    assert_eq!(decode("é"), Err(()));
}

#[test]
fn qualified_names() {
    assert_eq!(TableName::new("t").qualified_name(), "t");
    assert_eq!(TableName::with_schema("public", "users").qualified_name(), "public.users");
}

#[test]
fn statements_read_by_sqlparser_keep_their_kinds_in_order() {
    let v = parse_sql("SELECT 1; INSERT INTO t VALUES (1); SELECT 2").unwrap();
    let kinds: Vec<SqlKind> = v
        .iter()
        .map(|s| match s {
            Statement::Sql(q) => q.kind,
            other => panic!("unexpected {other:?}"),
        })
        .collect();
    assert_eq!(kinds, vec![SqlKind::Query, SqlKind::Insert, SqlKind::Query]);
}

#[test]
fn mixed_text_agrees_with_single_parses() {
    let v = parse_sql("SELECT 1; COMMENT ON TABLE t IS 'x'; SELECT 2").unwrap();
    assert_eq!(v.len(), 3);
    assert!(matches!(&v[0], Statement::Sql(q) if q.kind == SqlKind::Query));
    assert!(matches!(&v[1], Statement::Comment { .. }));
    assert!(matches!(&v[2], Statement::Sql(q) if q.kind == SqlKind::Query));
    assert!(matches!(parse_one("SELECT 1"), Ok(Statement::Sql(q)) if q.kind == SqlKind::Query));
}

#[test]
fn texts_that_could_crash_sqlparser_are_refused() {
    let e = parse_sql("GRANT SELECT ON t TO u GRANTED BY 1").unwrap_err();
    assert_eq!(
        e.to_string(),
        "sqlparser error: statements with GRANTED BY or RELAY LOGS are not supported"
    );
    assert!(parse_sql("FLUSH RELAY LOGS FOR CHANNEL 1").is_err());
}

#[test]
fn unsupported_statement_names_itself() {
    let e = parse_one("GRANT SELECT ON t TO u").unwrap_err();
    assert!(e.to_string().starts_with("unsupported SQL syntax: unsupported statement: Grant"));
}

#[test]
fn sqlparser_statements_carry_their_rendering() {
    match parse_one("SELECT 1").unwrap() {
        Statement::Sql(q) => {
            assert_eq!(q.kind, SqlKind::Query);
            assert!(!q.if_not_exists);
            assert_eq!(q.debug, format!("{:?}", q.statement));
            assert!(q.debug.starts_with("Query("));
        }
        other => panic!("unexpected {other:?}"),
    }
}

#[test]
fn drop_of_other_objects_is_refused() {
    assert!(matches!(parse_one("DROP TABLE t"), Ok(Statement::Sql(q)) if q.kind == SqlKind::Drop));
    assert!(matches!(parse_one("DROP VIEW v"), Ok(Statement::Sql(q)) if q.kind == SqlKind::Drop));
    let e = parse_one("DROP SCHEMA s").unwrap_err();
    assert!(e.to_string().starts_with("unsupported SQL syntax: unsupported statement: Drop"));
}

#[test]
fn the_words_alone_do_not_refuse_a_text() {
    assert!(parse_one("SELECT 'granted'").is_ok());
    assert!(parse_one("SELECT relay FROM t").is_ok());
}

#[test]
fn statements_compare_and_clone() {
    let a = parse_one("SELECT 1").unwrap();
    let b = a.clone();
    assert_eq!(a, b);
    assert_eq!(parse_one("SELECT 1").unwrap(), a);
    assert_ne!(parse_one("SELECT 2").unwrap(), a);
    let c = parse_one("LISTEN orders").unwrap();
    assert_eq!(c.clone(), c);
}

#[test]
fn flashback_errors_render_the_tokens_as_a_list() {
    let e = parse_one("FLASHBACK TRANSACTION").unwrap_err();
    assert_eq!(
        e.to_string(),
        "unsupported SQL syntax: FLASHBACK TRANSACTION requires exactly 1 argument (txn_id), got []"
    );
    let e = parse_one("FLASHBACK TABLE t TO").unwrap_err();
    assert!(e.to_string().ends_with("got tokens: [\"t\", \"TO\"]"));
}
