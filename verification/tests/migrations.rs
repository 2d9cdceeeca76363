use revier_analysis::index::migrations::{
    migration_checksum, migrations_from_entries, parse_migration_file_name,
};

fn entries(items: &[(&str, &[u8])]) -> Vec<(String, Vec<u8>)> {
    items
        .iter()
        .map(|(path, sql)| (path.to_string(), sql.to_vec()))
        .collect()
}

#[test]
fn migration_file_name_requires_numeric_version_and_snake_name() {
    let parsed = parse_migration_file_name("0010_add_schema_history.sql").expect("解析迁移文件名");

    assert_eq!(parsed, (10, "add_schema_history".to_string()));
    assert!(parse_migration_file_name("10_add_schema_history.sql").is_err());
    assert!(parse_migration_file_name("0010-add-schema-history.sql").is_err());
    assert!(parse_migration_file_name("0010_add_schema_history.txt").is_err());
}

#[test]
fn migration_manifest_sorts_by_numeric_version_and_rejects_duplicates() {
    let migrations = migrations_from_entries(entries(&[
        ("0010_late.sql", b"select 10".as_slice()),
        ("0004_first.sql", b"select 4".as_slice()),
    ]))
    .expect("解析迁移清单");

    assert_eq!(
        migrations
            .iter()
            .map(|migration| migration.version)
            .collect::<Vec<_>>(),
        vec![4, 10]
    );
    assert_eq!(migrations[0].sql, b"select 4".to_vec());
    assert_eq!(migrations[1].sql, b"select 10".to_vec());
    assert_eq!(migrations[0].name, "first");
    assert_eq!(migrations[0].checksum, migration_checksum(b"select 4"));
    assert!(migrations_from_entries(entries(&[
        ("0004_first.sql", b"select 4".as_slice()),
        ("0004_duplicate.sql", b"select 4 again".as_slice()),
    ]))
    .is_err());
}

#[test]
fn migration_checksum_uses_original_bytes() {
    let checksum = migration_checksum(b"select 1\n");

    assert_eq!(checksum, migration_checksum(b"select 1\n"));
    assert_ne!(checksum, migration_checksum(b"select 1\r\n"));
}
