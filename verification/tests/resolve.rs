use merge_binder::ast::{Ident, TableAlias};
use merge_binder::catalog::{BoundBaseTable, ColumnCatalog, TableCatalog, TableId};
use merge_binder::error::ErrorCode;
use merge_binder::resolve::{resolve_merge_insert_columns, resolve_merge_target_index};

fn ident(name: &str) -> Ident {
    Ident { real_value: name.to_string() }
}

fn column(name: &str, is_hidden: bool) -> ColumnCatalog {
    ColumnCatalog { name: name.to_string(), is_hidden }
}

fn table() -> BoundBaseTable {
    BoundBaseTable {
        table_id: TableId { table_id: 1 },
        table_catalog: TableCatalog {
            name: "target".to_string(),
            version_id: None,
            columns: vec![column("id", false), column("h", true), column("v", false)],
            pk: Vec::new(),
        },
    }
}

#[test]
fn indices_start_at_the_start_of_the_range() {
    let index = resolve_merge_target_index(&table(), None, "target", &(10..13), &[ident("v")]);
    assert_eq!(index.unwrap(), 12);
    let indices = resolve_merge_insert_columns(&table(), None, "target", &(10..13), Vec::new());
    assert_eq!(indices.unwrap(), vec![10, 12]);
    let indices = resolve_merge_insert_columns(
        &table(),
        None,
        "target",
        &(10..13),
        vec![ident("h"), ident("id")],
    );
    assert_eq!(indices.unwrap(), vec![11, 10]);
}

#[test]
fn the_alias_replaces_the_given_name() {
    let alias = TableAlias { name: ident("t"), columns: Vec::new() };
    let by_alias = [ident("t"), ident("v")];
    let by_name = [ident("renamed"), ident("v")];
    let range = 0..3;
    assert!(resolve_merge_target_index(&table(), Some(&alias), "renamed", &range, &by_alias).is_ok());
    assert!(resolve_merge_target_index(&table(), Some(&alias), "renamed", &range, &by_name).is_err());
    assert!(resolve_merge_target_index(&table(), None, "renamed", &range, &by_alias).is_err());
    assert!(resolve_merge_target_index(&table(), None, "renamed", &range, &by_name).is_ok());
}

#[test]
fn a_missing_column_is_reported_under_the_given_name() {
    let error =
        resolve_merge_target_index(&table(), None, "renamed", &(0..3), &[ident("V")]).unwrap_err();
    assert_eq!(error.message(), "column \"V\" of relation \"renamed\"");
    assert!(matches!(error, ErrorCode::ItemNotFound(_)));
}

#[test]
fn a_missing_column_before_a_repeated_one_is_the_error() {
    let error = resolve_merge_insert_columns(
        &table(),
        None,
        "target",
        &(0..3),
        vec![ident("id"), ident("x"), ident("id")],
    )
    .unwrap_err();
    assert!(matches!(error, ErrorCode::ItemNotFound(_)));
    let error = resolve_merge_insert_columns(
        &table(),
        None,
        "target",
        &(0..3),
        vec![ident("id"), ident("id"), ident("x")],
    )
    .unwrap_err();
    assert_eq!(error.message(), "column specified more than once in MERGE INSERT");
}
