use szrsql_sql::online_ddl::{
    fnv1a_64, generate_task_id, generate_test_table, ColumnDefinition, DdlOperation, DdlProgress,
    DdlState, DdlTask, Row, ShadowTableConfig, ShadowTableExecutor, TableSchema, TableSnapshot,
    VerifyResult, DEFAULT_CHUNK_SIZE, DEFAULT_LOCK_TIMEOUT_MS, DEFAULT_MAX_RETRIES,
    MAX_MISMATCH_RECORDS,
};

// ---- ColumnDefinition 测试 ----

#[test]
fn test_column_definition_new() {
    let col = ColumnDefinition::new("id", "BIGINT");
    assert_eq!(col.name, "id");
    assert_eq!(col.data_type, "BIGINT");
    assert!(col.nullable);
    assert!(col.default_value.is_none());
}

#[test]
fn test_column_definition_not_null() {
    let col = ColumnDefinition::new("name", "VARCHAR(255)").not_null();
    assert!(!col.nullable);
}

#[test]
fn test_column_definition_with_default() {
    let col = ColumnDefinition::new("age", "INT").with_default("0");
    assert_eq!(col.default_value.as_deref(), Some("0"));
}

// ---- TableSchema 测试 ----

#[test]
fn test_table_schema_new() {
    let schema = TableSchema::new();
    assert_eq!(schema.column_count(), 0);
}

#[test]
fn test_table_schema_add_column() {
    let mut schema = TableSchema::new();
    schema.add_column(ColumnDefinition::new("id", "BIGINT"));
    schema.add_column(ColumnDefinition::new("name", "VARCHAR(255)"));
    assert_eq!(schema.column_count(), 2);
    assert!(schema.contains_column("id"));
    assert!(schema.contains_column("name"));
    assert!(!schema.contains_column("age"));
}

#[test]
fn test_table_schema_find_column() {
    let schema = TableSchema::from_columns(vec![
        ColumnDefinition::new("id", "BIGINT"),
        ColumnDefinition::new("name", "VARCHAR(255)"),
    ]);
    assert_eq!(schema.find_column("id"), Some(0));
    assert_eq!(schema.find_column("name"), Some(1));
    assert_eq!(schema.find_column("age"), None);
}

#[test]
fn test_table_schema_drop_column() {
    let mut schema = TableSchema::from_columns(vec![
        ColumnDefinition::new("id", "BIGINT"),
        ColumnDefinition::new("name", "VARCHAR(255)"),
    ]);
    assert!(schema.drop_column("name"));
    assert_eq!(schema.column_count(), 1);
    assert!(!schema.contains_column("name"));
    assert!(!schema.drop_column("nonexistent"));
}

#[test]
fn test_table_schema_modify_column() {
    let mut schema = TableSchema::from_columns(vec![ColumnDefinition::new("age", "INT")]);
    assert!(schema.modify_column("age", "BIGINT"));
    assert_eq!(schema.columns[0].data_type, "BIGINT");
    assert!(!schema.modify_column("nonexistent", "BIGINT"));
}

#[test]
fn test_table_schema_rename_column() {
    let mut schema = TableSchema::from_columns(vec![ColumnDefinition::new("old", "INT")]);
    assert!(schema.rename_column("old", "new"));
    assert_eq!(schema.columns[0].name, "new");
    assert!(!schema.rename_column("nonexistent", "x"));
}

// ---- Row 测试 ----

#[test]
fn test_row_new() {
    let row = Row::new(vec!["1".to_string(), "hello".to_string()]);
    assert_eq!(row.len(), 2);
    assert_eq!(row.get(0), Some("1"));
    assert_eq!(row.get(1), Some("hello"));
    assert_eq!(row.get(2), None);
}

#[test]
fn test_row_empty() {
    let row = Row::empty();
    assert!(row.is_empty());
    assert_eq!(row.len(), 0);
}

#[test]
fn test_row_push() {
    let mut row = Row::empty();
    row.push("a");
    row.push("b");
    assert_eq!(row.len(), 2);
    assert_eq!(row.get(0), Some("a"));
}

// ---- TableSnapshot 测试 ----

#[test]
fn test_table_snapshot_new() {
    let schema = TableSchema::from_columns(vec![ColumnDefinition::new("id", "BIGINT")]);
    let table = TableSnapshot::new("users", schema);
    assert_eq!(table.name(), "users");
    assert_eq!(table.row_count(), 0);
    assert_eq!(table.column_count(), 1);
}

#[test]
fn test_table_snapshot_insert_row() {
    let schema = TableSchema::from_columns(vec![ColumnDefinition::new("id", "BIGINT")]);
    let mut table = TableSnapshot::new("users", schema);
    table.insert_row(Row::new(vec!["1".to_string()]));
    table.insert_row(Row::new(vec!["2".to_string()]));
    assert_eq!(table.row_count(), 2);
}

#[test]
fn test_table_snapshot_clear_rows() {
    let schema = TableSchema::from_columns(vec![ColumnDefinition::new("id", "BIGINT")]);
    let mut table = TableSnapshot::new("users", schema);
    table.insert_row(Row::new(vec!["1".to_string()]));
    table.clear_rows();
    assert_eq!(table.row_count(), 0);
}

#[test]
fn test_table_snapshot_checksum_consistency() {
    let schema = TableSchema::from_columns(vec![ColumnDefinition::new("id", "BIGINT")]);
    let mut t1 = TableSnapshot::new("t1", schema.clone());
    let mut t2 = TableSnapshot::new("t2", schema);
    t1.insert_row(Row::new(vec!["1".to_string()]));
    t1.insert_row(Row::new(vec!["2".to_string()]));
    t2.insert_row(Row::new(vec!["1".to_string()]));
    t2.insert_row(Row::new(vec!["2".to_string()]));
    assert_eq!(t1.checksum(), t2.checksum());
}

#[test]
fn test_table_snapshot_checksum_differs() {
    let schema = TableSchema::from_columns(vec![ColumnDefinition::new("id", "BIGINT")]);
    let mut t1 = TableSnapshot::new("t1", schema.clone());
    let mut t2 = TableSnapshot::new("t2", schema);
    t1.insert_row(Row::new(vec!["1".to_string()]));
    t2.insert_row(Row::new(vec!["2".to_string()]));
    assert_ne!(t1.checksum(), t2.checksum());
}

#[test]
fn test_table_snapshot_chunked_iter() {
    let schema = TableSchema::from_columns(vec![ColumnDefinition::new("id", "BIGINT")]);
    let mut table = TableSnapshot::new("t", schema);
    for i in 0..10 {
        table.insert_row(Row::new(vec![i.to_string()]));
    }
    let chunks: Vec<&[Row]> = table.chunked_iter(3);
    assert_eq!(chunks.len(), 4); // 3+3+3+1
    assert_eq!(chunks[0].len(), 3);
    assert_eq!(chunks[3].len(), 1);
}

// ---- DdlOperation 测试 ----

#[test]
fn test_ddl_operation_add_column() {
    let op = DdlOperation::AddColumn {
        name: "age".to_string(),
        data_type: "INT".to_string(),
        default_value: Some("0".to_string()),
    };
    assert_eq!(op.kind_str(), "ADD_COLUMN");
    assert!(op.is_schema_change());
    assert!(!op.is_index_op());
    let sql = op.to_sql("users");
    assert!(sql.contains("ALTER TABLE \"users\" ADD COLUMN \"age\" INT"));
    assert!(sql.contains("DEFAULT 0"));
}

#[test]
fn test_ddl_operation_drop_column() {
    let op = DdlOperation::DropColumn {
        name: "age".to_string(),
    };
    assert_eq!(op.kind_str(), "DROP_COLUMN");
    assert!(op.is_schema_change());
    let sql = op.to_sql("users");
    assert_eq!(sql, "ALTER TABLE \"users\" DROP COLUMN \"age\"");
}

#[test]
fn test_ddl_operation_modify_column() {
    let op = DdlOperation::ModifyColumn {
        name: "age".to_string(),
        new_type: "BIGINT".to_string(),
    };
    assert_eq!(op.kind_str(), "MODIFY_COLUMN");
    let sql = op.to_sql("users");
    assert!(sql.contains("ALTER COLUMN \"age\" TYPE BIGINT"));
}

#[test]
fn test_ddl_operation_rename_column() {
    let op = DdlOperation::RenameColumn {
        old_name: "old".to_string(),
        new_name: "new".to_string(),
    };
    assert_eq!(op.kind_str(), "RENAME_COLUMN");
    let sql = op.to_sql("users");
    assert!(sql.contains("RENAME COLUMN \"old\" TO \"new\""));
}

#[test]
fn test_ddl_operation_add_index() {
    let op = DdlOperation::AddIndex {
        name: "idx_age".to_string(),
        columns: vec!["age".to_string()],
    };
    assert_eq!(op.kind_str(), "ADD_INDEX");
    assert!(op.is_index_op());
    assert!(!op.is_schema_change());
    let sql = op.to_sql("users");
    assert!(sql.contains("CREATE INDEX \"idx_age\" ON \"users\" (\"age\")"));
}

#[test]
fn test_ddl_operation_drop_index() {
    let op = DdlOperation::DropIndex {
        name: "idx_age".to_string(),
    };
    assert_eq!(op.kind_str(), "DROP_INDEX");
    assert!(op.is_index_op());
    let sql = op.to_sql("users");
    assert_eq!(sql, "DROP INDEX \"idx_age\"");
}

/// 验证标识符转义防止二阶 SQL 注入
#[test]
fn test_ddl_operation_identifier_escaping() {
    // 表名含双引号 → 应被转义为 ""
    let op = DdlOperation::DropColumn {
        name: "col\"; DROP TABLE x; --".to_string(),
    };
    let sql = op.to_sql("user\"; DROP TABLE y; --");
    // 表名和列名都被双引号包裹，内部双引号被转义，不会产生注入
    assert!(sql.contains("\"user\"\"; DROP TABLE y; --\""));
    assert!(sql.contains("\"col\"\"; DROP TABLE x; --\""));
    // 不应出现未引用的 DROP TABLE（即注入成功的标志）
    assert!(!sql.starts_with("ALTER TABLE user"));
}

/// 验证索引列名转义
#[test]
fn test_ddl_operation_add_index_escaping() {
    let op = DdlOperation::AddIndex {
        name: "idx".to_string(),
        columns: vec!["col name".to_string(), "a\"b".to_string()],
    };
    let sql = op.to_sql("t");
    assert!(sql.contains("\"col name\""));
    assert!(sql.contains("\"a\"\"b\""));
}

// ---- DdlState 测试 ----

#[test]
fn test_ddl_state_as_str() {
    assert_eq!(DdlState::Init.as_str(), "INIT");
    assert_eq!(DdlState::CreatingShadow.as_str(), "CREATING_SHADOW");
    assert_eq!(DdlState::Completed.as_str(), "COMPLETED");
    assert_eq!(DdlState::Failed("test".to_string()).as_str(), "FAILED");
}

#[test]
fn test_ddl_state_is_terminal() {
    assert!(!DdlState::Init.is_terminal());
    assert!(!DdlState::CopyingData.is_terminal());
    assert!(DdlState::Completed.is_terminal());
    assert!(DdlState::Failed("err".to_string()).is_terminal());
}

#[test]
fn test_ddl_state_next_linear() {
    assert_eq!(DdlState::Init.next(), Some(DdlState::CreatingShadow));
    assert_eq!(
        DdlState::CreatingShadow.next(),
        Some(DdlState::AlteringShadow)
    );
    assert_eq!(DdlState::AlteringShadow.next(), Some(DdlState::CopyingData));
    assert_eq!(DdlState::CopyingData.next(), Some(DdlState::Verifying));
    assert_eq!(DdlState::Verifying.next(), Some(DdlState::Swapping));
    assert_eq!(DdlState::Swapping.next(), Some(DdlState::Cleanup));
    assert_eq!(DdlState::Cleanup.next(), Some(DdlState::Completed));
    assert_eq!(DdlState::Completed.next(), None);
    assert_eq!(DdlState::Failed("e".to_string()).next(), None);
}

#[test]
fn test_ddl_state_is_failed_completed() {
    assert!(DdlState::Failed("e".to_string()).is_failed());
    assert!(!DdlState::Completed.is_failed());
    assert!(DdlState::Completed.is_completed());
    assert!(!DdlState::Init.is_completed());
}

// ---- ShadowTableConfig 测试 ----

#[test]
fn test_shadow_table_config_default() {
    let config = ShadowTableConfig::new();
    assert_eq!(config.chunk_size, DEFAULT_CHUNK_SIZE);
    assert_eq!(config.lock_timeout_ms, DEFAULT_LOCK_TIMEOUT_MS);
    assert!(config.verify_checksum);
    assert_eq!(config.max_retries, DEFAULT_MAX_RETRIES);
}

#[test]
fn test_shadow_table_config_custom_chunk_size() {
    let config = ShadowTableConfig::new().with_chunk_size(5000);
    assert_eq!(config.chunk_size, 5000);
}

#[test]
fn test_shadow_table_config_chunk_size_min_one() {
    let config = ShadowTableConfig::new().with_chunk_size(0);
    assert_eq!(config.chunk_size, 1);
}

#[test]
fn test_shadow_table_config_without_verify() {
    let config = ShadowTableConfig::new().without_verify();
    assert!(!config.verify_checksum);
}

#[test]
fn test_shadow_table_config_custom_prefix() {
    let config = ShadowTableConfig::new().with_shadow_prefix("_sh_");
    assert_eq!(config.shadow_table_name("users"), "_sh_users");
}

#[test]
fn test_shadow_table_config_shadow_table_name() {
    let config = ShadowTableConfig::new();
    assert_eq!(config.shadow_table_name("orders"), "_shadow_orders");
}

// ---- DdlProgress 测试 ----

#[test]
fn test_ddl_progress_new() {
    let progress = DdlProgress::new(1000);
    assert_eq!(progress.rows_copied, 0);
    assert_eq!(progress.total_rows, 1000);
    assert_eq!(progress.current_state, DdlState::Init);
}






#[test]
fn test_ddl_progress_is_complete() {
    let mut progress = DdlProgress::new(100);
    assert!(!progress.is_complete());
    progress.rows_copied = 100;
    assert!(progress.is_complete());
}

#[test]
fn test_ddl_progress_update_state() {
    let mut progress = DdlProgress::new(100);
    progress.update_state(DdlState::CopyingData);
    assert_eq!(progress.current_state, DdlState::CopyingData);
}

#[test]
fn test_ddl_progress_add_copied() {
    let mut progress = DdlProgress::new(100);
    progress.add_copied(30);
    assert_eq!(progress.rows_copied, 30);
    progress.add_copied(70);
    assert_eq!(progress.rows_copied, 100);
}

// ---- VerifyResult 测试 ----

#[test]
fn test_verify_result_match() {
    let schema = TableSchema::from_columns(vec![ColumnDefinition::new("id", "INT")]);
    let mut source = TableSnapshot::new("source", schema.clone());
    let mut shadow = TableSnapshot::new("shadow", schema);
    for i in 0..10 {
        let row = Row::new(vec![i.to_string()]);
        source.insert_row(row.clone());
        shadow.insert_row(row);
    }
    let result = VerifyResult::new(&source, &shadow, true);
    assert!(result.passed());
    assert_eq!(result.source_rows, 10);
    assert_eq!(result.shadow_rows, 10);
    assert!(result.row_count_match);
    assert!(result.checksum_match);
    assert_eq!(result.mismatch_count(), 0);
}

#[test]
fn test_verify_result_row_count_mismatch() {
    let schema = TableSchema::from_columns(vec![ColumnDefinition::new("id", "INT")]);
    let mut source = TableSnapshot::new("source", schema.clone());
    let mut shadow = TableSnapshot::new("shadow", schema);
    for i in 0..10 {
        source.insert_row(Row::new(vec![i.to_string()]));
    }
    for i in 0..5 {
        shadow.insert_row(Row::new(vec![i.to_string()]));
    }
    let result = VerifyResult::new(&source, &shadow, true);
    assert!(!result.passed());
    assert!(!result.row_count_match);
}

#[test]
fn test_verify_result_checksum_mismatch() {
    let schema = TableSchema::from_columns(vec![ColumnDefinition::new("id", "INT")]);
    let mut source = TableSnapshot::new("source", schema.clone());
    let mut shadow = TableSnapshot::new("shadow", schema);
    source.insert_row(Row::new(vec!["1".to_string()]));
    shadow.insert_row(Row::new(vec!["2".to_string()]));
    let result = VerifyResult::new(&source, &shadow, true);
    assert!(!result.passed());
    assert!(!result.checksum_match);
    assert_eq!(result.mismatch_count(), 1);
}

#[test]
fn test_verify_result_without_checksum() {
    let schema = TableSchema::from_columns(vec![ColumnDefinition::new("id", "INT")]);
    let mut source = TableSnapshot::new("source", schema.clone());
    let mut shadow = TableSnapshot::new("shadow", schema);
    source.insert_row(Row::new(vec!["1".to_string()]));
    shadow.insert_row(Row::new(vec!["2".to_string()]));
    let result = VerifyResult::new(&source, &shadow, false);
    assert!(result.checksum_match);
    assert_eq!(result.checksum_source, 0);
    assert_eq!(result.checksum_shadow, 0);
}

#[test]
fn test_verify_result_mismatched_rows_capped() {
    let schema = TableSchema::from_columns(vec![ColumnDefinition::new("id", "INT")]);
    let mut source = TableSnapshot::new("source", schema.clone());
    let mut shadow = TableSnapshot::new("shadow", schema);
    for i in 0..200 {
        source.insert_row(Row::new(vec![format!("a_{}", i)]));
        shadow.insert_row(Row::new(vec![format!("b_{}", i)]));
    }
    let result = VerifyResult::new(&source, &shadow, true);
    assert!(result.mismatch_count() <= MAX_MISMATCH_RECORDS);
}

// ---- DdlTask 测试 ----

#[test]
fn test_ddl_task_new() {
    let config = ShadowTableConfig::new();
    let task = DdlTask::new(
        "task_001",
        "users",
        DdlOperation::AddColumn {
            name: "age".to_string(),
            data_type: "INT".to_string(),
            default_value: Some("0".to_string()),
        },
        1000,
        config,
    );
    assert_eq!(task.task_id, "task_001");
    assert_eq!(task.table, "users");
    assert_eq!(task.shadow_table, "_shadow_users");
    assert_eq!(task.state, DdlState::Init);
    assert_eq!(task.progress.total_rows, 1000);
    assert!(!task.is_terminal());
}

#[test]
fn test_ddl_task_advance() {
    let config = ShadowTableConfig::new();
    let mut task = DdlTask::new(
        "t1",
        "users",
        DdlOperation::AddColumn {
            name: "x".to_string(),
            data_type: "INT".to_string(),
            default_value: None,
        },
        0,
        config,
    );
    assert_eq!(task.state, DdlState::Init);
    task.advance();
    assert_eq!(task.state, DdlState::CreatingShadow);
    task.advance();
    assert_eq!(task.state, DdlState::AlteringShadow);
}

#[test]
fn test_ddl_task_fail() {
    let config = ShadowTableConfig::new();
    let mut task = DdlTask::new(
        "t1",
        "users",
        DdlOperation::AddColumn {
            name: "x".to_string(),
            data_type: "INT".to_string(),
            default_value: None,
        },
        0,
        config,
    );
    task.fail("test error");
    assert!(task.is_terminal());
    assert!(task.state.is_failed());
}

#[test]
fn test_ddl_task_add_copied() {
    let config = ShadowTableConfig::new();
    let mut task = DdlTask::new(
        "t1",
        "users",
        DdlOperation::AddColumn {
            name: "x".to_string(),
            data_type: "INT".to_string(),
            default_value: None,
        },
        100,
        config,
    );
    task.add_copied(50);
    assert_eq!(task.progress.rows_copied, 50);
}

// ---- ShadowTableExecutor 测试 ----

#[test]
fn test_executor_new() {
    let executor = ShadowTableExecutor::new(ShadowTableConfig::new());
    assert_eq!(executor.task_count(), 0);
    assert_eq!(executor.active_count(), 0);
}

#[test]
fn test_executor_submit() {
    let mut executor = ShadowTableExecutor::with_default_config();
    let task_id = executor.submit(
        "task_001",
        "users",
        DdlOperation::AddColumn {
            name: "age".to_string(),
            data_type: "INT".to_string(),
            default_value: Some("0".to_string()),
        },
        100,
    );
    assert_eq!(task_id, "task_001");
    assert_eq!(executor.task_count(), 1);
    assert_eq!(executor.active_count(), 1);
    assert!(executor.task(&task_id).is_some());
    assert!(executor.progress(&task_id).is_some());
}

#[test]
fn test_executor_cancel() {
    let mut executor = ShadowTableExecutor::with_default_config();
    let task_id = executor.submit(
        "t1",
        "users",
        DdlOperation::AddColumn {
            name: "x".to_string(),
            data_type: "INT".to_string(),
            default_value: None,
        },
        0,
    );
    assert!(executor.cancel(&task_id));
    let task = executor.task(&task_id).unwrap();
    assert!(task.is_terminal());
    assert!(task.state.is_failed());
}

#[test]
fn test_executor_cancel_terminal_returns_false() {
    let mut executor = ShadowTableExecutor::with_default_config();
    let task_id = executor.submit(
        "t1",
        "users",
        DdlOperation::AddColumn {
            name: "x".to_string(),
            data_type: "INT".to_string(),
            default_value: None,
        },
        0,
    );
    executor.cancel(&task_id);
    assert!(!executor.cancel(&task_id));
}

#[test]
fn test_executor_remove_completed() {
    let mut executor = ShadowTableExecutor::with_default_config();
    let t1 = executor.submit(
        "t1",
        "users",
        DdlOperation::AddColumn {
            name: "x".to_string(),
            data_type: "INT".to_string(),
            default_value: None,
        },
        0,
    );
    let _t2 = executor.submit(
        "t2",
        "orders",
        DdlOperation::AddColumn {
            name: "y".to_string(),
            data_type: "INT".to_string(),
            default_value: None,
        },
        0,
    );
    executor.cancel(&t1);
    let removed = executor.remove_completed();
    assert_eq!(removed, 1);
    assert_eq!(executor.task_count(), 1);
}

#[test]
fn test_executor_task_not_found() {
    let executor = ShadowTableExecutor::with_default_config();
    assert!(executor.task("nonexistent").is_none());
    assert!(executor.progress("nonexistent").is_none());
}

// ---- 完整流程集成测试 ----

#[test]
fn test_execute_add_column_full_workflow() {
    let mut executor = ShadowTableExecutor::with_default_config();
    let schema = TableSchema::from_columns(vec![
        ColumnDefinition::new("id", "BIGINT"),
        ColumnDefinition::new("name", "VARCHAR(255)"),
    ]);
    let mut source = TableSnapshot::new("users", schema);
    for i in 0..100 {
        source.insert_row(Row::new(vec![i.to_string(), format!("user_{}", i)]));
    }

    let task_id = executor.submit(
        "task_001",
        "users",
        DdlOperation::AddColumn {
            name: "age".to_string(),
            data_type: "INT".to_string(),
            default_value: Some("0".to_string()),
        },
        source.row_count(),
    );

    let (new_table, verify) = executor.execute(&task_id, &source).unwrap();

    // 影子表已重命名为原表名
    assert_eq!(new_table.name(), "users");
    // 新表列数 = 原表 2 + 新增 1 = 3
    assert_eq!(new_table.column_count(), 3);
    assert!(new_table.schema.contains_column("age"));
    // 行数一致
    assert_eq!(new_table.row_count(), source.row_count());
    // 每行新增了 age 列（值为 "0"）
    for row in &new_table.rows {
        assert_eq!(row.len(), 3);
        assert_eq!(row.get(2), Some("0"));
    }
    // 校验通过
    assert!(verify.row_count_match);
    // 任务状态为 Completed
    let task = executor.task(&task_id).unwrap();
    assert!(task.state.is_completed());
}

#[test]
fn test_execute_drop_column_full_workflow() {
    let mut executor = ShadowTableExecutor::with_default_config();
    let schema = TableSchema::from_columns(vec![
        ColumnDefinition::new("id", "BIGINT"),
        ColumnDefinition::new("name", "VARCHAR(255)"),
        ColumnDefinition::new("age", "INT"),
    ]);
    let mut source = TableSnapshot::new("users", schema);
    for i in 0..50 {
        source.insert_row(Row::new(vec![
            i.to_string(),
            format!("user_{}", i),
            "25".to_string(),
        ]));
    }

    let task_id = executor.submit(
        "task_002",
        "users",
        DdlOperation::DropColumn {
            name: "age".to_string(),
        },
        source.row_count(),
    );

    let (new_table, verify) = executor.execute(&task_id, &source).unwrap();

    // 影子表 schema 中 age 列已被删除
    assert!(!new_table.schema.contains_column("age"));
    assert_eq!(new_table.column_count(), 2);
    // 校验行数一致
    assert!(verify.row_count_match);
    // 每行只剩 2 列
    for row in &new_table.rows {
        assert_eq!(row.len(), 2);
    }
    let task = executor.task(&task_id).unwrap();
    assert!(task.state.is_completed());
}

#[test]
fn test_execute_modify_column_full_workflow() {
    let mut executor = ShadowTableExecutor::with_default_config();
    let schema =
        TableSchema::from_columns(vec![ColumnDefinition::new("age", &"INT".to_string())]);
    let mut source = TableSnapshot::new("users", schema);
    for i in 0..10 {
        source.insert_row(Row::new(vec![i.to_string()]));
    }

    let task_id = executor.submit(
        "task_003",
        "users",
        DdlOperation::ModifyColumn {
            name: "age".to_string(),
            new_type: "BIGINT".to_string(),
        },
        source.row_count(),
    );

    let (new_table, _verify) = executor.execute(&task_id, &source).unwrap();
    let col = new_table.schema.find_column("age").unwrap();
    assert_eq!(new_table.schema.columns[col].data_type, "BIGINT");
}

#[test]
fn test_execute_rename_column_full_workflow() {
    let mut executor = ShadowTableExecutor::with_default_config();
    let schema = TableSchema::from_columns(vec![ColumnDefinition::new("old_name", "INT")]);
    let mut source = TableSnapshot::new("users", schema);
    for i in 0..5 {
        source.insert_row(Row::new(vec![i.to_string()]));
    }

    let task_id = executor.submit(
        "task_004",
        "users",
        DdlOperation::RenameColumn {
            old_name: "old_name".to_string(),
            new_name: "new_name".to_string(),
        },
        source.row_count(),
    );

    let (new_table, _verify) = executor.execute(&task_id, &source).unwrap();
    assert!(!new_table.schema.contains_column("old_name"));
    assert!(new_table.schema.contains_column("new_name"));
}

#[test]
fn test_execute_add_index_full_workflow() {
    let mut executor = ShadowTableExecutor::with_default_config();
    let schema = TableSchema::from_columns(vec![
        ColumnDefinition::new("id", "BIGINT"),
        ColumnDefinition::new("name", "VARCHAR(255)"),
    ]);
    let mut source = TableSnapshot::new("users", schema);
    for i in 0..20 {
        source.insert_row(Row::new(vec![i.to_string(), format!("u_{}", i)]));
    }

    let task_id = executor.submit(
        "task_005",
        "users",
        DdlOperation::AddIndex {
            name: "idx_name".to_string(),
            columns: vec!["name".to_string()],
        },
        source.row_count(),
    );

    let (new_table, verify) = executor.execute(&task_id, &source).unwrap();
    assert_eq!(new_table.column_count(), 2);
    assert!(verify.passed());
}

#[test]
fn test_execute_drop_index_full_workflow() {
    let mut executor = ShadowTableExecutor::with_default_config();
    let schema = TableSchema::from_columns(vec![ColumnDefinition::new("id", "BIGINT")]);
    let mut source = TableSnapshot::new("users", schema);
    for i in 0..10 {
        source.insert_row(Row::new(vec![i.to_string()]));
    }

    let task_id = executor.submit(
        "task_006",
        "users",
        DdlOperation::DropIndex {
            name: "idx_id".to_string(),
        },
        source.row_count(),
    );

    let (_new_table, verify) = executor.execute(&task_id, &source).unwrap();
    assert!(verify.passed());
}

#[test]
fn test_execute_empty_table() {
    let mut executor = ShadowTableExecutor::with_default_config();
    let schema = TableSchema::from_columns(vec![ColumnDefinition::new("id", "BIGINT")]);
    let source = TableSnapshot::new("empty", schema);

    let task_id = executor.submit(
        "task_empty",
        "empty",
        DdlOperation::AddColumn {
            name: "x".to_string(),
            data_type: "INT".to_string(),
            default_value: None,
        },
        0,
    );

    let (new_table, verify) = executor.execute(&task_id, &source).unwrap();
    assert_eq!(new_table.row_count(), 0);
    assert_eq!(new_table.column_count(), 2);
    assert!(verify.passed());
}

#[test]
fn test_execute_large_table_100k_rows() {
    let mut executor = ShadowTableExecutor::with_default_config();
    let schema = TableSchema::from_columns(vec![
        ColumnDefinition::new("id", "BIGINT"),
        ColumnDefinition::new("data", "VARCHAR(255)"),
    ]);
    let mut source = TableSnapshot::new("big_table", schema);
    for i in 0..100_000 {
        source.insert_row(Row::new(vec![i.to_string(), format!("data_{}", i)]));
    }

    let task_id = executor.submit(
        "task_large",
        "big_table",
        DdlOperation::AddColumn {
            name: "status".to_string(),
            data_type: "INT".to_string(),
            default_value: Some("0".to_string()),
        },
        source.row_count(),
    );

    let (new_table, verify) = executor.execute(&task_id, &source).unwrap();
    assert_eq!(new_table.row_count(), 100_000);
    assert_eq!(new_table.column_count(), 3);
    assert!(verify.row_count_match);
    for row in &new_table.rows {
        assert_eq!(row.get(2), Some("0"));
    }
}

#[test]
fn test_execute_task_not_found() {
    let mut executor = ShadowTableExecutor::with_default_config();
    let schema = TableSchema::from_columns(vec![ColumnDefinition::new("id", "BIGINT")]);
    let source = TableSnapshot::new("users", schema);
    let result = executor.execute("nonexistent", &source);
    assert!(result.is_err());
}

#[test]
fn test_execute_task_already_terminal() {
    let mut executor = ShadowTableExecutor::with_default_config();
    let schema = TableSchema::from_columns(vec![ColumnDefinition::new("id", "BIGINT")]);
    let source = TableSnapshot::new("users", schema);
    let task_id = executor.submit(
        "t1",
        "users",
        DdlOperation::AddColumn {
            name: "x".to_string(),
            data_type: "INT".to_string(),
            default_value: None,
        },
        0,
    );
    executor.cancel(&task_id);
    let result = executor.execute(&task_id, &source);
    assert!(result.is_err());
}

#[test]
fn test_execute_state_transitions_complete() {
    let mut executor = ShadowTableExecutor::with_default_config();
    let schema = TableSchema::from_columns(vec![ColumnDefinition::new("id", "BIGINT")]);
    let mut source = TableSnapshot::new("users", schema);
    for i in 0..10 {
        source.insert_row(Row::new(vec![i.to_string()]));
    }

    let task_id = executor.submit(
        "task_states",
        "users",
        DdlOperation::AddColumn {
            name: "x".to_string(),
            data_type: "INT".to_string(),
            default_value: Some("0".to_string()),
        },
        source.row_count(),
    );

    executor.execute(&task_id, &source).unwrap();

    let task = executor.task(&task_id).unwrap();
    assert_eq!(task.state, DdlState::Completed);
    assert_eq!(task.progress.rows_copied, source.row_count());
}

// ---- 辅助函数测试 ----

#[test]
fn test_fnv1a_64_consistency() {
    let h1 = fnv1a_64(b"hello");
    let h2 = fnv1a_64(b"hello");
    assert_eq!(h1, h2);
}

#[test]
fn test_fnv1a_64_differs() {
    let h1 = fnv1a_64(b"hello");
    let h2 = fnv1a_64(b"world");
    assert_ne!(h1, h2);
}

#[test]
fn test_generate_task_id() {
    assert_eq!(generate_task_id("ddl", 1), "ddl_000001");
    assert_eq!(generate_task_id("ddl", 999999), "ddl_999999");
}

#[test]
fn test_generate_test_table() {
    let table = generate_test_table("test", &[("id", "BIGINT"), ("name", "VARCHAR(255)")], 5);
    assert_eq!(table.name(), "test");
    assert_eq!(table.column_count(), 2);
    assert_eq!(table.row_count(), 5);
}

// ---- 多任务并发测试 ----

#[test]
fn test_executor_multiple_tasks() {
    let mut executor = ShadowTableExecutor::with_default_config();
    let _t1 = executor.submit(
        "t1",
        "users",
        DdlOperation::AddColumn {
            name: "x".to_string(),
            data_type: "INT".to_string(),
            default_value: None,
        },
        0,
    );
    let _t2 = executor.submit(
        "t2",
        "orders",
        DdlOperation::AddColumn {
            name: "y".to_string(),
            data_type: "INT".to_string(),
            default_value: None,
        },
        0,
    );
    let _t3 = executor.submit(
        "t3",
        "products",
        DdlOperation::AddColumn {
            name: "z".to_string(),
            data_type: "INT".to_string(),
            default_value: None,
        },
        0,
    );
    assert_eq!(executor.task_count(), 3);
    assert_eq!(executor.active_count(), 3);
}

#[test]
fn test_executor_config_chunk_size_applied() {
    let config = ShadowTableConfig::new().with_chunk_size(100);
    let mut executor = ShadowTableExecutor::new(config);
    let schema = TableSchema::from_columns(vec![ColumnDefinition::new("id", "BIGINT")]);
    let mut source = TableSnapshot::new("users", schema);
    for i in 0..1000 {
        source.insert_row(Row::new(vec![i.to_string()]));
    }
    let task_id = executor.submit(
        "t1",
        "users",
        DdlOperation::AddColumn {
            name: "x".to_string(),
            data_type: "INT".to_string(),
            default_value: Some("0".to_string()),
        },
        source.row_count(),
    );
    let (_new_table, verify) = executor.execute(&task_id, &source).unwrap();
    assert!(verify.row_count_match);
    assert_eq!(verify.source_rows, 1000);
}

#[test]
fn test_execute_drop_column_specific_index() {
    // 测试 DropColumn 删除中间列
    let mut executor = ShadowTableExecutor::with_default_config();
    let schema = TableSchema::from_columns(vec![
        ColumnDefinition::new("id", "BIGINT"),
        ColumnDefinition::new("name", "VARCHAR(255)"),
        ColumnDefinition::new("age", "INT"),
    ]);
    let mut source = TableSnapshot::new("users", schema);
    source.insert_row(Row::new(vec![
        "1".to_string(),
        "alice".to_string(),
        "30".to_string(),
    ]));
    source.insert_row(Row::new(vec![
        "2".to_string(),
        "bob".to_string(),
        "25".to_string(),
    ]));

    let task_id = executor.submit(
        "task_drop_middle",
        "users",
        DdlOperation::DropColumn {
            name: "name".to_string(),
        },
        source.row_count(),
    );

    let (new_table, _verify) = executor.execute(&task_id, &source).unwrap();
    assert_eq!(new_table.column_count(), 2);
    // 删除中间列后，第 0 列仍是 id，第 1 列应是 age
    assert_eq!(new_table.rows[0].get(0), Some("1"));
    assert_eq!(new_table.rows[0].get(1), Some("30"));
    assert_eq!(new_table.rows[1].get(0), Some("2"));
    assert_eq!(new_table.rows[1].get(1), Some("25"));
}
