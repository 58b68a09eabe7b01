use merge_binder::catalog::{BoundBaseTable, ColumnCatalog, TableCatalog, TableId};
use merge_binder::merge::{
    BoundMerge, BoundMergeAction, BoundMergeAssignment, BoundMergeClause, BoundMergeClauseKind,
    BoundMergeRowIdentity, BoundMergeSourceIdentity,
};
use merge_binder::rewrite::{ExprRewriter, RewriteExprsRecursive};

/// Numbers the expressions that it sees.
struct Numbering {
    seen: Vec<String>,
}

impl ExprRewriter<String> for Numbering {
    fn rewrite_expr(&mut self, expr: String) -> String {
        let result = format!("{}#{}", expr, self.seen.len());
        self.seen.push(expr);
        result
    }
}

/// Hands expressions back.
struct Unchanged;

impl ExprRewriter<String> for Unchanged {
    fn rewrite_expr(&mut self, expr: String) -> String {
        expr
    }
}

/// A source with one expression in it.
#[derive(Debug)]
struct Source {
    expr: String,
}

impl<W: ExprRewriter<String>> RewriteExprsRecursive<String, W> for Source {
    fn rewrite_exprs_recursive(&mut self, rewriter: &mut W) {
        let expr = self.expr.clone();
        self.expr = rewriter.rewrite_expr(expr);
    }
}

fn text(text: &str) -> String {
    text.to_string()
}

fn merge() -> BoundMerge<Source, String> {
    BoundMerge {
        target: BoundBaseTable {
            table_id: TableId { table_id: 1 },
            table_catalog: TableCatalog {
                name: text("target"),
                version_id: Some(0),
                columns: vec![ColumnCatalog { name: text("v"), is_hidden: false }],
                pk: Vec::new(),
            },
        },
        source: Source { expr: text("source") },
        on: text("on"),
        clauses: vec![
            BoundMergeClause {
                kind: BoundMergeClauseKind::Matched,
                condition: Some(text("c0")),
                action: BoundMergeAction::Update {
                    assignments: vec![
                        BoundMergeAssignment { target_table_column_index: 4, expr: text("a") },
                        BoundMergeAssignment { target_table_column_index: 2, expr: text("b") },
                    ],
                },
            },
            BoundMergeClause {
                kind: BoundMergeClauseKind::Matched,
                condition: None,
                action: BoundMergeAction::Delete,
            },
            BoundMergeClause {
                kind: BoundMergeClauseKind::NotMatched,
                condition: Some(text("c1")),
                action: BoundMergeAction::Insert {
                    target_table_column_indices: vec![1, 0],
                    values: vec![text("x"), text("y")],
                },
            },
        ],
        row_identity: BoundMergeRowIdentity {
            candidate_target_range: 0..5,
            candidate_source_range: 5..7,
            target_table_id: TableId { table_id: 1 },
            target_table_version_id: 0,
            target_pk_column_indices: vec![3],
            source_identity: BoundMergeSourceIdentity { candidate_source_range: 5..7 },
        },
    }
}

#[test]
fn every_expression_is_rewritten_once_and_in_order() {
    let mut rewriter = Numbering { seen: Vec::new() };
    let mut merge = merge();
    merge.rewrite_exprs_recursive(&mut rewriter);
    assert_eq!(rewriter.seen, vec!["source", "on", "c0", "a", "b", "c1", "x", "y"]);
    assert_eq!(merge.source.expr, "source#0");
    assert_eq!(merge.on, "on#1");
    assert_eq!(merge.clauses[0].condition, Some(text("c0#2")));
    let BoundMergeAction::Update { assignments } = &merge.clauses[0].action else {
        panic!("expected update action");
    };
    assert_eq!(assignments[0].expr, "a#3");
    assert_eq!(assignments[1].expr, "b#4");
    assert_eq!(merge.clauses[2].condition, Some(text("c1#5")));
    let BoundMergeAction::Insert { values, .. } = &merge.clauses[2].action else {
        panic!("expected insert action");
    };
    assert_eq!(values, &vec![text("x#6"), text("y#7")]);
}

#[test]
fn rewriting_keeps_everything_but_the_expressions() {
    let mut rewriter = Numbering { seen: Vec::new() };
    let mut merge = merge();
    merge.rewrite_exprs_recursive(&mut rewriter);
    assert_eq!(merge.clauses.len(), 3);
    assert_eq!(merge.clauses[0].kind, BoundMergeClauseKind::Matched);
    assert_eq!(merge.clauses[2].kind, BoundMergeClauseKind::NotMatched);
    let BoundMergeAction::Update { assignments } = &merge.clauses[0].action else {
        panic!("expected update action");
    };
    assert_eq!(assignments[0].target_table_column_index, 4);
    assert_eq!(assignments[1].target_table_column_index, 2);
    assert!(merge.clauses[1].condition.is_none());
    assert!(matches!(merge.clauses[1].action, BoundMergeAction::Delete));
    let BoundMergeAction::Insert { target_table_column_indices, .. } = &merge.clauses[2].action
    else {
        panic!("expected insert action");
    };
    assert_eq!(target_table_column_indices, &vec![1, 0]);
    assert_eq!(merge.target.table_catalog.columns.len(), 1);
    assert_eq!(merge.row_identity.candidate_source_range, 5..7);
    assert_eq!(merge.row_identity.target_pk_column_indices, vec![3]);
}

#[test]
fn rewriting_nothing_leaves_the_statement_as_it_was() {
    let mut merge = merge();
    merge.rewrite_exprs_recursive(&mut Unchanged);
    assert_eq!(format!("{:?}", merge), format!("{:?}", self::merge()));
}
