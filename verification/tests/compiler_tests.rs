use drorm_migrate::compiler::{apply_all, migration_to_sql, ApplyError, ErrorPolicy};
use drorm_migrate::declaration::{Field, Migration, Operation};
use drorm_migrate::resolver::resolve;
use drorm_migrate::sql::Dialect;
use rorm_declaration::imr::{Annotation, DbType};

fn field(name: &str, db_type: DbType, annotations: Vec<Annotation>) -> Field {
    Field { name: name.to_string(), db_type, annotations }
}

fn mig_with(id: &str, initial: bool, dependency: &str, operations: Vec<Operation>) -> Migration {
    Migration {
        hash: String::new(),
        initial,
        id: id.to_string(),
        dependency: dependency.to_string(),
        replaces: Vec::new(),
        operations,
    }
}

fn user_table() -> Operation {
    Operation::CreateModel {
        name: "user".to_string(),
        fields: vec![
            field("id", DbType::Int64, vec![Annotation::PrimaryKey]),
            field("name", DbType::Text, vec![]),
        ],
    }
}

#[test]
fn create_model_compiles_to_one_create_table() {
    let m = mig_with("0001_initial", true, "", vec![user_table()]);
    let script = migration_to_sql(Dialect::Postgres, &m).unwrap();
    assert_eq!(
        script.statements,
        vec!["CREATE TABLE \"user\" (\"id\" bigint PRIMARY KEY, \"name\" text); ".to_string()]
    );
}

#[test]
fn single_root_scenario() {
    // The set with one root resolves to itself and compiles to one script
    // holding one create-table statement with both columns.
    let order = resolve(vec![mig_with("0001_initial", true, "", vec![user_table()])]).unwrap();
    assert_eq!(order.len(), 1);
    let script = migration_to_sql(Dialect::Postgres, &order[0]).unwrap();
    assert_eq!(script.statements.len(), 1);
    let stmt = &script.statements[0];
    assert!(stmt.starts_with("CREATE TABLE \"user\" ("));
    assert!(stmt.contains("\"id\" bigint PRIMARY KEY"));
    assert!(stmt.contains("\"name\" text"));
}

#[test]
fn rename_model_scenario() {
    let a = mig_with("0001_initial", true, "", vec![user_table()]);
    let b = mig_with(
        "0002_rename",
        false,
        "0001_initial",
        vec![Operation::RenameModel { old: "user".to_string(), new: "person".to_string() }],
    );
    let order = resolve(vec![b, a]).unwrap();
    assert_eq!(order[0].id, "0001_initial");
    assert_eq!(order[1].id, "0002_rename");
    let script = migration_to_sql(Dialect::Postgres, &order[1]).unwrap();
    assert_eq!(
        script.statements,
        vec!["ALTER TABLE \"user\" RENAME TO \"person\";".to_string()]
    );
}

#[test]
fn delete_model_compiles_to_drop_table() {
    let m = mig_with(
        "0003_drop",
        false,
        "0002_rename",
        vec![Operation::DeleteModel { name: "person".to_string() }],
    );
    let script = migration_to_sql(Dialect::Postgres, &m).unwrap();
    assert_eq!(script.statements, vec!["DROP TABLE \"person\";".to_string()]);
}

#[test]
fn create_field_compiles_to_add_column() {
    let m = mig_with(
        "0004_add",
        false,
        "0003_drop",
        vec![Operation::CreateField {
            model: "user".to_string(),
            field: field("age", DbType::Int32, vec![]),
        }],
    );
    let script = migration_to_sql(Dialect::Postgres, &m).unwrap();
    assert_eq!(
        script.statements,
        vec!["ALTER TABLE \"user\" ADD COLUMN \"age\" integer;".to_string()]
    );
}

#[test]
fn rename_field_compiles_to_rename_column() {
    let m = mig_with(
        "0005_rename_col",
        false,
        "0004_add",
        vec![Operation::RenameField {
            table_name: "user".to_string(),
            old: "name".to_string(),
            new: "full_name".to_string(),
        }],
    );
    let script = migration_to_sql(Dialect::Postgres, &m).unwrap();
    assert_eq!(
        script.statements,
        vec!["ALTER TABLE \"user\" RENAME COLUMN \"name\" TO \"full_name\";".to_string()]
    );
}

#[test]
fn delete_field_compiles_to_drop_column() {
    let m = mig_with(
        "0006_drop_col",
        false,
        "0005_rename_col",
        vec![Operation::DeleteField { model: "user".to_string(), name: "age".to_string() }],
    );
    let script = migration_to_sql(Dialect::Postgres, &m).unwrap();
    assert_eq!(
        script.statements,
        vec!["ALTER TABLE \"user\" DROP COLUMN \"age\";".to_string()]
    );
}

#[test]
fn operations_compile_in_list_order() {
    let m = mig_with(
        "0001_initial",
        true,
        "",
        vec![
            user_table(),
            Operation::CreateField {
                model: "user".to_string(),
                field: field("age", DbType::Int32, vec![]),
            },
        ],
    );
    let script = migration_to_sql(Dialect::Postgres, &m).unwrap();
    assert_eq!(
        script.statements,
        vec![
            "CREATE TABLE \"user\" (\"id\" bigint PRIMARY KEY, \"name\" text); ".to_string(),
            "ALTER TABLE \"user\" ADD COLUMN \"age\" integer;".to_string(),
        ]
    );
}

#[test]
fn empty_model_is_rejected() {
    let m = mig_with(
        "0001_initial",
        true,
        "",
        vec![Operation::CreateModel { name: "user".to_string(), fields: vec![] }],
    );
    let e = migration_to_sql(Dialect::Postgres, &m).unwrap_err();
    assert_eq!(e.migration_id, "0001_initial");
    assert_eq!(e.operation_index, 1);
    assert_eq!(e.cause, "cannot create a model without fields");
}

#[test]
fn failing_operation_reports_its_position() {
    // AutoCreateTime on a boolean column is rejected by the dialect.
    let m = mig_with(
        "0002_bad",
        false,
        "0001_initial",
        vec![
            Operation::RenameModel { old: "a".to_string(), new: "b".to_string() },
            Operation::CreateField {
                model: "user".to_string(),
                field: field("flag", DbType::Boolean, vec![Annotation::AutoCreateTime]),
            },
        ],
    );
    let e = migration_to_sql(Dialect::Postgres, &m).unwrap_err();
    assert_eq!(e.migration_id, "0002_bad");
    assert_eq!(e.operation_index, 2);
    assert!(e.cause.contains("AutoCreateTime"));
}

#[test]
fn compiling_twice_is_identical() {
    let m = mig_with("0001_initial", true, "", vec![user_table()]);
    let s1 = migration_to_sql(Dialect::Postgres, &m).unwrap();
    let s2 = migration_to_sql(Dialect::Postgres, &m).unwrap();
    assert_eq!(s1.statements, s2.statements);
}

#[test]
fn apply_all_compiles_in_apply_order() {
    let a = mig_with("0001_initial", true, "", vec![user_table()]);
    let b = mig_with(
        "0002_rename",
        false,
        "0001_initial",
        vec![Operation::RenameModel { old: "user".to_string(), new: "person".to_string() }],
    );
    let scripts = apply_all(Dialect::Postgres, vec![b, a], ErrorPolicy::FailFast).unwrap();
    assert_eq!(scripts.len(), 2);
    assert!(scripts[0].statements[0].starts_with("CREATE TABLE \"user\""));
    assert_eq!(
        scripts[1].statements,
        vec!["ALTER TABLE \"user\" RENAME TO \"person\";".to_string()]
    );
}

#[test]
fn apply_all_reports_graph_errors() {
    let a = mig_with("a", false, "b", vec![]);
    let b = mig_with("b", false, "a", vec![]);
    let e = apply_all(Dialect::Postgres, vec![a, b], ErrorPolicy::FailFast).unwrap_err();
    assert!(matches!(e, ApplyError::Graph { .. }));
}

#[test]
fn apply_all_fail_fast_stops_at_first_failure() {
    let a = mig_with(
        "0001_initial",
        true,
        "",
        vec![Operation::CreateModel { name: "user".to_string(), fields: vec![] }],
    );
    let b = mig_with(
        "0002_also_bad",
        false,
        "0001_initial",
        vec![Operation::CreateModel { name: "group".to_string(), fields: vec![] }],
    );
    let e = apply_all(Dialect::Postgres, vec![a, b], ErrorPolicy::FailFast).unwrap_err();
    match e {
        ApplyError::Compile { scripts, errors } => {
            assert_eq!(scripts.len(), 0);
            assert_eq!(errors.len(), 1);
            assert_eq!(errors[0].migration_id, "0001_initial");
        }
        ApplyError::Graph { .. } => panic!("expected compile errors"),
    }
}

#[test]
fn apply_all_collects_every_failure() {
    let a = mig_with(
        "0001_initial",
        true,
        "",
        vec![Operation::CreateModel { name: "user".to_string(), fields: vec![] }],
    );
    let b = mig_with(
        "0002_also_bad",
        false,
        "0001_initial",
        vec![Operation::CreateModel { name: "group".to_string(), fields: vec![] }],
    );
    let e = apply_all(Dialect::Postgres, vec![a, b], ErrorPolicy::CollectAll).unwrap_err();
    match e {
        ApplyError::Compile { scripts, errors } => {
            assert_eq!(scripts.len(), 0);
            assert_eq!(errors.len(), 2);
            assert_eq!(errors[0].migration_id, "0001_initial");
            assert_eq!(errors[1].migration_id, "0002_also_bad");
        }
        ApplyError::Graph { .. } => panic!("expected compile errors"),
    }
}

#[test]
fn apply_all_collects_keeps_compiled_scripts() {
    let a = mig_with("0001_initial", true, "", vec![user_table()]);
    let b = mig_with(
        "0002_bad",
        false,
        "0001_initial",
        vec![Operation::CreateModel { name: "group".to_string(), fields: vec![] }],
    );
    let e = apply_all(Dialect::Postgres, vec![a, b], ErrorPolicy::CollectAll).unwrap_err();
    match e {
        ApplyError::Compile { scripts, errors } => {
            assert_eq!(scripts.len(), 1);
            assert!(scripts[0].statements[0].starts_with("CREATE TABLE \"user\""));
            assert_eq!(errors.len(), 1);
            assert_eq!(errors[0].migration_id, "0002_bad");
            assert_eq!(errors[0].operation_index, 1);
        }
        ApplyError::Graph { .. } => panic!("expected compile errors"),
    }
}
