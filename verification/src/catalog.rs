//! What binding a `MERGE` needs to know of its target table.
use vstd::prelude::*;

verus! {

/// The identity of a table.
#[derive(Debug, Clone, Copy, PartialEq, Eq, Structural)]
pub struct TableId {
    pub table_id: u32,
}

/// The version of a table's schema.
pub type TableVersionId = u64;

/// One column of a table.
#[derive(Debug, Clone)]
pub struct ColumnCatalog {
    pub name: String,
    pub is_hidden: bool,
}

/// One column of a primary key, by its position among the table's columns.
#[derive(Debug, Clone, Copy)]
pub struct ColumnOrder {
    pub column_index: usize,
}

/// The schema of a table.
#[derive(Debug, Clone)]
pub struct TableCatalog {
    pub name: String,
    pub version_id: Option<TableVersionId>,
    pub columns: Vec<ColumnCatalog>,
    pub pk: Vec<ColumnOrder>,
}

/// A base table that a name was bound to.
#[derive(Debug, Clone)]
pub struct BoundBaseTable {
    pub table_id: TableId,
    pub table_catalog: TableCatalog,
}

} // verus!
