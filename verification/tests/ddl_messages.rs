//! The messages of a shadow-table change that cannot run.

use szrsql_sql::online_ddl::{
    describe_state, ColumnDefinition, DdlOperation, DdlState, ShadowTableExecutor, TableSchema,
    TableSnapshot,
};

fn add_column() -> DdlOperation {
    DdlOperation::AddColumn { name: "x".to_string(), data_type: "INT".to_string(), default_value: None }
}

#[test]
fn execute_twice_reports_completed_state() {
    let mut executor = ShadowTableExecutor::with_default_config();
    let schema = TableSchema::from_columns(vec![ColumnDefinition::new("id", "BIGINT")]);
    let source = TableSnapshot::new("users", schema);
    let task_id = executor.submit("t1", "users", add_column(), 0);
    assert!(executor.execute(&task_id, &source).is_ok());
    let again = executor.execute(&task_id, &source);
    assert_eq!(again.err(), Some("task already terminal: Completed".to_string()));
}

#[test]
fn execute_cancelled_reports_reason() {
    let mut executor = ShadowTableExecutor::with_default_config();
    let schema = TableSchema::from_columns(vec![ColumnDefinition::new("id", "BIGINT")]);
    let source = TableSnapshot::new("users", schema);
    let task_id = executor.submit("t1", "users", add_column(), 0);
    assert!(executor.cancel(&task_id));
    let result = executor.execute(&task_id, &source);
    assert_eq!(
        result.err(),
        Some("task already terminal: Failed(\"cancelled by user\")".to_string())
    );
}

#[test]
fn describe_state_matches_debug() {
    let states = vec![
        DdlState::Init,
        DdlState::CreatingShadow,
        DdlState::AlteringShadow,
        DdlState::CopyingData,
        DdlState::Verifying,
        DdlState::Swapping,
        DdlState::Cleanup,
        DdlState::Completed,
        DdlState::Failed("quote \" and\nline".to_string()),
    ];
    for s in states {
        assert_eq!(describe_state(&s), format!("{:?}", s));
    }
    assert_eq!(
        describe_state(&DdlState::Failed("a\"b".to_string())),
        "Failed(\"a\\\"b\")"
    );
}
