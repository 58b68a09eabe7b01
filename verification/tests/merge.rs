use merge_binder::ast::{
    Assignment, AssignmentValue, Ident, MergeAction, MergeClause, MergeClauseKind, ObjectName,
    TableAlias,
};
use merge_binder::binder::{BindReply, MergeBinding, MergeError, MergeStep, TargetRelation};
use merge_binder::catalog::{BoundBaseTable, ColumnCatalog, ColumnOrder, TableCatalog, TableId};
use merge_binder::error::ErrorCode;
use merge_binder::merge::{BoundMerge, BoundMergeAction, BoundMergeClauseKind};
use merge_binder::plan::BindRequest;

type Merge = BoundMerge<String, String>;
type Outcome = Result<Merge, MergeError<String>>;

/// A binder that knows two tables of two columns, and marks what it has bound.
struct SmallBinder {
    target: TargetRelation,
    columns: usize,
    refused: Option<&'static str>,
    calls: Vec<String>,
}

fn ident(name: &str) -> Ident {
    Ident { real_value: name.to_string() }
}

fn alias(name: &str) -> TableAlias {
    TableAlias { name: ident(name), columns: Vec::new() }
}

fn column(name: &str, is_hidden: bool) -> ColumnCatalog {
    ColumnCatalog { name: name.to_string(), is_hidden }
}

fn table(columns: Vec<ColumnCatalog>, pk: Vec<usize>) -> BoundBaseTable {
    BoundBaseTable {
        table_id: TableId { table_id: 17 },
        table_catalog: TableCatalog {
            name: "target".to_string(),
            version_id: Some(3),
            columns,
            pk: pk.into_iter().map(|column_index| ColumnOrder { column_index }).collect(),
        },
    }
}

/// `create table target (id int primary key, v int)`
fn target_table() -> BoundBaseTable {
    table(vec![column("id", false), column("v", false)], vec![0])
}

fn binder(target: BoundBaseTable) -> SmallBinder {
    SmallBinder {
        target: TargetRelation::BaseTable(target),
        columns: 0,
        refused: None,
        calls: Vec::new(),
    }
}

impl SmallBinder {
    fn perform(
        &mut self,
        request: &BindRequest<&'static str, &'static str>,
    ) -> Result<BindReply<String, String>, String> {
        match request {
            BindRequest::RelationByName { name, alias, as_of, allow_cross_db } => {
                assert!(as_of.is_none());
                assert!(!allow_cross_db);
                let parts: Vec<String> = name.parts.iter().map(|part| part.real_value()).collect();
                let alias: String = match alias {
                    Some(alias) => alias.name.real_value(),
                    None => "-".to_string(),
                };
                self.calls.push(format!("target {} as {}", parts.join("."), alias));
                if self.refused == Some("target") {
                    return Err("no such table".to_string());
                }
                if let TargetRelation::BaseTable(table) = &self.target {
                    self.columns += table.table_catalog.columns.len();
                }
                Ok(BindReply::Target {
                    relation: self.target.clone(),
                    context_columns: self.columns,
                })
            }
            BindRequest::TableFactor { source } => {
                self.calls.push(format!("source {}", source));
                self.columns += 2;
                Ok(BindReply::Source {
                    relation: format!("<{}>", source),
                    context_columns: self.columns,
                })
            }
            BindRequest::Expr { expr } => {
                self.calls.push(format!("expr {}", expr));
                self.bound(expr)
            }
            BindRequest::BoolExpr { expr, clause } => {
                self.calls.push(format!("{} {}", clause.label(), expr));
                self.bound(expr)
            }
        }
    }

    fn bound(&self, expr: &'static str) -> Result<BindReply<String, String>, String> {
        if self.refused == Some(expr) {
            Err(format!("cannot bind {}", expr))
        } else {
            Ok(BindReply::Expr { expr: format!("<{}>", expr) })
        }
    }

    fn bind_merge(
        &mut self,
        table_alias: Option<TableAlias>,
        clauses: Vec<MergeClause<&'static str>>,
    ) -> Outcome {
        let mut binding = MergeBinding::bind_merge(
            ObjectName { parts: vec![ident("target")] },
            table_alias,
            "source as s",
            "t.id = s.id",
            clauses,
        );
        loop {
            let reply = self.perform(binding.request());
            match binding.resume(reply) {
                MergeStep::Ask(next) => binding = next,
                MergeStep::Done(outcome) => return outcome,
            }
        }
    }
}

fn update(
    condition: Option<&'static str>,
    assignments: Vec<(Vec<&str>, AssignmentValue<&'static str>)>,
) -> MergeClause<&'static str> {
    MergeClause {
        kind: MergeClauseKind::Matched,
        condition,
        action: MergeAction::Update {
            assignments: assignments
                .into_iter()
                .map(|(id, value)| Assignment { id: id.into_iter().map(ident).collect(), value })
                .collect(),
        },
    }
}

fn delete(condition: Option<&'static str>) -> MergeClause<&'static str> {
    MergeClause { kind: MergeClauseKind::Matched, condition, action: MergeAction::Delete }
}

fn insert(
    condition: Option<&'static str>,
    columns: Vec<&str>,
    values: Vec<&'static str>,
) -> MergeClause<&'static str> {
    MergeClause {
        kind: MergeClauseKind::NotMatched,
        condition,
        action: MergeAction::Insert { columns: columns.into_iter().map(ident).collect(), values },
    }
}

fn set<'a>(
    id: Vec<&'a str>,
    value: &'static str,
) -> (Vec<&'a str>, AssignmentValue<&'static str>) {
    (id, AssignmentValue::Expr(value))
}

fn bind_error(outcome: Outcome) -> String {
    match outcome {
        Err(MergeError::Code(ErrorCode::BindError(message))) => message,
        other => panic!("expected a bind error, got {:?}", other),
    }
}

fn not_found(outcome: Outcome) -> String {
    match outcome {
        Err(MergeError::Code(ErrorCode::ItemNotFound(message))) => message,
        other => panic!("expected a missing item, got {:?}", other),
    }
}

fn inserted(merge: &Merge, clause: usize) -> (Vec<usize>, Vec<String>) {
    match &merge.clauses[clause].action {
        BoundMergeAction::Insert { target_table_column_indices, values } => {
            (target_table_column_indices.clone(), values.clone())
        }
        other => panic!("expected insert action, got {:?}", other),
    }
}

#[test]
fn bind_merge_preserves_clause_order_and_identity_contract() {
    let mut binder = binder(target_table());
    let merge = binder
        .bind_merge(
            Some(alias("t")),
            vec![
                update(Some("s.v > 10"), vec![set(vec!["v"], "s.v")]),
                insert(Some("s.v > 0"), vec!["id", "v"], vec!["s.id", "s.v"]),
            ],
        )
        .unwrap();

    let target_len = merge.target.table_catalog.columns.len();
    assert_eq!(merge.row_identity.candidate_target_range, 0..target_len);
    assert_eq!(
        merge.row_identity.candidate_source_range.start,
        merge.row_identity.candidate_target_range.end
    );
    assert_eq!(
        merge.row_identity.target_pk_column_indices,
        merge
            .target
            .table_catalog
            .pk
            .iter()
            .map(|pk| pk.column_index)
            .collect::<Vec<_>>()
    );

    let id_index = merge
        .target
        .table_catalog
        .columns
        .iter()
        .position(|column| column.name == "id")
        .unwrap();
    let v_index = merge
        .target
        .table_catalog
        .columns
        .iter()
        .position(|column| column.name == "v")
        .unwrap();

    assert_eq!(merge.clauses.len(), 2);
    assert_eq!(merge.clauses[0].kind, BoundMergeClauseKind::Matched);
    assert_eq!(merge.clauses[1].kind, BoundMergeClauseKind::NotMatched);

    let BoundMergeAction::Update { assignments } = &merge.clauses[0].action else {
        panic!("expected update action");
    };
    assert_eq!(assignments.len(), 1);
    assert_eq!(assignments[0].target_table_column_index, v_index);

    let BoundMergeAction::Insert {
        target_table_column_indices,
        values,
    } = &merge.clauses[1].action
    else {
        panic!("expected insert action");
    };
    assert_eq!(target_table_column_indices, &vec![id_index, v_index]);
    assert_eq!(values.len(), 2);
}

#[test]
fn bind_merge_rejects_source_qualified_update_target() {
    let mut binder = binder(target_table());
    let err = binder
        .bind_merge(Some(alias("t")), vec![update(None, vec![set(vec!["s", "v"], "t.v")])])
        .unwrap_err();
    let MergeError::Code(code) = err else {
        panic!("expected an error of the statement");
    };
    assert!(code
        .message()
        .contains("MERGE target column qualifier must refer to the target table or alias"));
}

#[test]
fn bind_merge_accepts_target_alias_in_update_target_and_conditions() {
    let mut binder = binder(target_table());
    let merge = binder
        .bind_merge(
            Some(alias("t")),
            vec![
                update(Some("t.v < s.v"), vec![set(vec!["t", "v"], "s.v")]),
                insert(Some("s.v > 0"), vec!["id", "v"], vec!["s.id", "s.v"]),
            ],
        )
        .unwrap();
    assert_eq!(merge.clauses.len(), 2);
    assert!(merge.clauses.iter().all(|clause| clause.condition.is_some()));
}

#[test]
fn requests_come_in_the_order_of_the_statement() {
    let mut binder = binder(target_table());
    let merge = binder
        .bind_merge(
            Some(alias("t")),
            vec![
                update(Some("c0"), vec![set(vec!["v"], "e0"), set(vec!["t", "id"], "e1")]),
                delete(Some("c1")),
                insert(None, vec!["v", "id"], vec!["e2", "e3"]),
            ],
        )
        .unwrap();
    assert_eq!(
        binder.calls,
        vec![
            "target target as t",
            "source source as s",
            "MERGE ON t.id = s.id",
            "MERGE WHEN c0",
            "expr e0",
            "expr e1",
            "MERGE WHEN c1",
            "expr e2",
            "expr e3",
        ]
    );
    assert_eq!(merge.source, "<source as s>");
    assert_eq!(merge.on, "<t.id = s.id>");
    assert_eq!(merge.clauses[0].condition, Some("<c0>".to_string()));
    let BoundMergeAction::Update { assignments } = &merge.clauses[0].action else {
        panic!("expected update action");
    };
    let assigned: Vec<(usize, &str)> = assignments
        .iter()
        .map(|assignment| (assignment.target_table_column_index, assignment.expr.as_str()))
        .collect();
    assert_eq!(assigned, vec![(1, "<e0>"), (0, "<e1>")]);
    assert_eq!(merge.clauses[1].kind, BoundMergeClauseKind::Matched);
    assert_eq!(merge.clauses[1].condition, Some("<c1>".to_string()));
    assert!(matches!(merge.clauses[1].action, BoundMergeAction::Delete));
    assert_eq!(merge.clauses[2].condition, None);
    assert_eq!(inserted(&merge, 2), (vec![1, 0], vec!["<e2>".to_string(), "<e3>".to_string()]));
}

#[test]
fn row_identity_is_that_of_the_target() {
    let mut binder = binder(table(
        vec![column("a", false), column("b", false), column("c", true)],
        vec![2, 0],
    ));
    let merge = binder.bind_merge(None, vec![delete(None)]).unwrap();
    let identity = &merge.row_identity;
    assert_eq!(identity.candidate_target_range, 0..3);
    assert_eq!(identity.candidate_source_range, 3..5);
    assert_eq!(identity.source_identity.candidate_source_range, 3..5);
    assert_eq!(identity.target_table_id, TableId { table_id: 17 });
    assert_eq!(identity.target_table_version_id, 3);
    assert_eq!(identity.target_pk_column_indices, vec![2, 0]);
    let copy = identity.clone();
    assert_eq!(copy.candidate_target_range, 0..3);
    assert_eq!(copy.source_identity.candidate_source_range, 3..5);
    assert_eq!(copy.target_pk_column_indices, vec![2, 0]);
}

#[test]
fn a_statement_may_have_no_clauses() {
    let mut binder = binder(target_table());
    let merge = binder.bind_merge(None, Vec::new()).unwrap();
    assert!(merge.clauses.is_empty());
    assert_eq!(binder.calls[0], "target target as -");
    assert_eq!(binder.calls.len(), 3);
}

#[test]
fn the_target_must_be_a_base_table() {
    let mut binder = binder(target_table());
    binder.target = TargetRelation::Other;
    let outcome = binder.bind_merge(None, vec![delete(None)]);
    assert_eq!(bind_error(outcome), "MERGE target must be a base table");
    assert_eq!(binder.calls.len(), 1);
}

#[test]
fn an_error_of_a_request_ends_the_binding() {
    let mut refusing_target = binder(target_table());
    refusing_target.refused = Some("target");
    let outcome = refusing_target.bind_merge(None, vec![delete(None)]);
    assert!(matches!(outcome, Err(MergeError::Request(error)) if error == "no such table"));
    assert_eq!(refusing_target.calls.len(), 1);

    let mut refusing_value = binder(target_table());
    refusing_value.refused = Some("e0");
    let outcome = refusing_value.bind_merge(
        None,
        vec![update(None, vec![set(vec!["v"], "e0"), set(vec!["missing"], "e1")])],
    );
    assert!(matches!(outcome, Err(MergeError::Request(error)) if error == "cannot bind e0"));
}

#[test]
fn an_error_stops_all_later_requests() {
    let mut binder = binder(target_table());
    let outcome = binder.bind_merge(
        None,
        vec![
            update(Some("c0"), vec![set(vec!["v"], "e0"), set(vec!["missing"], "e1")]),
            delete(Some("c1")),
        ],
    );
    assert_eq!(not_found(outcome), "column \"missing\" of relation \"target\"");
    assert_eq!(binder.calls[3..], ["MERGE WHEN c0", "expr e0"]);
}

#[test]
fn the_first_of_two_errors_is_reported() {
    let outcome = binder(target_table()).bind_merge(
        None,
        vec![
            update(None, vec![(vec!["missing"], AssignmentValue::Default)]),
            insert(None, vec!["id", "id"], vec!["e0", "e1"]),
        ],
    );
    assert_eq!(not_found(outcome), "column \"missing\" of relation \"target\"");
}

#[test]
fn default_cannot_be_assigned() {
    let outcome = binder(target_table())
        .bind_merge(None, vec![update(None, vec![(vec!["v"], AssignmentValue::Default)])]);
    assert_eq!(bind_error(outcome), "MERGE UPDATE SET DEFAULT is not supported yet");
}

#[test]
fn the_name_of_the_table_qualifies_only_without_an_alias() {
    let clause = || vec![update(None, vec![set(vec!["target", "v"], "s.v")])];
    assert!(binder(target_table()).bind_merge(None, clause()).is_ok());
    assert_eq!(
        bind_error(binder(target_table()).bind_merge(Some(alias("t")), clause())),
        "MERGE target column qualifier must refer to the target table or alias"
    );
}

#[test]
fn a_column_reference_has_one_or_two_parts() {
    for id in [vec![], vec!["public", "target", "v"]] {
        let outcome =
            binder(target_table()).bind_merge(None, vec![update(None, vec![set(id, "s.v")])]);
        assert_eq!(bind_error(outcome), "invalid MERGE target column reference");
    }
}

#[test]
fn a_column_may_be_assigned_twice() {
    let merge = binder(target_table())
        .bind_merge(None, vec![update(None, vec![set(vec!["v"], "a"), set(vec!["v"], "b")])])
        .unwrap();
    let BoundMergeAction::Update { assignments } = &merge.clauses[0].action else {
        panic!("expected update action");
    };
    assert_eq!(assignments[0].target_table_column_index, 1);
    assert_eq!(assignments[1].target_table_column_index, 1);
}

#[test]
fn an_insert_lists_a_column_once() {
    let outcome = binder(target_table())
        .bind_merge(None, vec![insert(None, vec!["id", "v", "id"], vec!["a", "b", "c"])]);
    assert_eq!(bind_error(outcome), "column specified more than once in MERGE INSERT");
}

#[test]
fn an_insert_has_a_value_for_each_column() {
    let outcome = binder(target_table())
        .bind_merge(None, vec![insert(None, vec!["id", "v"], vec!["s.id"])]);
    assert_eq!(bind_error(outcome), "MERGE INSERT has 2 target columns but 1 values");

    let many = vec!["x"; 1203];
    let mut counted = binder(target_table());
    let outcome = counted.bind_merge(None, vec![insert(None, vec![], many)]);
    assert_eq!(bind_error(outcome), "MERGE INSERT has 2 target columns but 1203 values");
    assert_eq!(counted.calls.len(), 3);
}

#[test]
fn an_insert_without_columns_fills_the_visible_ones() {
    let columns = || {
        vec![
            column("_rw_timestamp", true),
            column("id", false),
            column("_row_id", true),
            column("v", false),
        ]
    };
    let merge = binder(table(columns(), vec![1]))
        .bind_merge(None, vec![insert(None, vec![], vec!["s.id", "s.v"])])
        .unwrap();
    assert_eq!(inserted(&merge, 0).0, vec![1, 3]);

    let merge = binder(table(columns(), vec![1]))
        .bind_merge(None, vec![insert(None, vec!["_row_id"], vec!["s.id"])])
        .unwrap();
    assert_eq!(inserted(&merge, 0).0, vec![2]);
}

#[test]
fn a_name_goes_to_the_first_column_that_bears_it() {
    let merge = binder(table(
        vec![column("a", false), column("b", false), column("b", false)],
        vec![0],
    ))
    .bind_merge(None, vec![insert(None, vec!["b"], vec!["x"])])
    .unwrap();
    assert_eq!(inserted(&merge, 0).0, vec![1]);
}
