//! What binding the clauses of a `MERGE` asks of the expression binder, and what it makes of the
//! bound expressions.
//!
//! Which column an assignment or an insertion goes to depends on the target table alone. So once
//! the target is known, the expressions to bind, their order, and the error that may end them are
//! known too: they are the plan of the statement.
use std::collections::VecDeque;
use std::ops::Range;

use vstd::prelude::*;

use crate::ast::{
    Assignment, AssignmentValue, MergeAction, MergeClause, MergeClauseKind, ObjectName, TableAlias,
};
use crate::catalog::BoundBaseTable;
#[allow(unused_imports)]
use crate::error::{insert_arity_message, ErrorCode, ErrorCodeView};
use crate::merge::{BoundMergeAction, BoundMergeAssignment, BoundMergeClause, BoundMergeClauseKind};
#[allow(unused_imports)]
use crate::merge::{clause_views, BoundMergeActionView, BoundMergeClauseView};
use crate::resolve::{resolve_merge_insert_columns, resolve_merge_target_index};
#[allow(unused_imports)]
use crate::resolve::{target_scope, TargetScope};

verus! {

/// The part of a statement in which an expression has to be boolean.
#[derive(Debug, Clone, Copy, PartialEq, Eq, Structural)]
pub enum BoolClause {
    On,
    When,
}

impl BoolClause {
    /// The name of the part in messages.
    pub open spec fn spec_label(self) -> Seq<char> {
        match self {
            BoolClause::On => "MERGE ON"@,
            BoolClause::When => "MERGE WHEN"@,
        }
    }

    /// The name of the part in messages.
    pub fn label(self) -> (label: &'static str)
        ensures
            label@ == self.spec_label(),
    {
        match self {
            BoolClause::On => "MERGE ON",
            BoolClause::When => "MERGE WHEN",
        }
    }
}

/// A name, a relation or an expression that is to be bound.
#[derive(Debug, Clone)]
pub enum BindRequest<F, E> {
    /// The relation that a name stands for, brought into scope under an alias.
    RelationByName {
        name: ObjectName,
        alias: Option<TableAlias>,
        as_of: Option<String>,
        allow_cross_db: bool,
    },
    /// A parsed relation, brought into scope.
    TableFactor { source: F },
    /// An expression.
    Expr { expr: E },
    /// An expression that has to be boolean.
    BoolExpr { expr: E, clause: BoolClause },
}

/// The requests of a statement or a part of it, in order, and the error that ends them.
pub struct Plan<F, E> {
    pub requests: Seq<BindRequest<F, E>>,
    pub error: Option<ErrorCodeView>,
}

impl<F, E> Plan<F, E> {
    /// Nothing to bind.
    pub open spec fn nothing() -> Self {
        Plan { requests: Seq::empty(), error: None }
    }

    /// A single request.
    pub open spec fn one(request: BindRequest<F, E>) -> Self {
        Plan { requests: seq![request], error: None }
    }

    /// An error before any request.
    pub open spec fn fail(error: ErrorCodeView) -> Self {
        Plan { requests: Seq::empty(), error: Some(error) }
    }

    /// One plan after the other. What follows an error is never reached.
    pub open spec fn followed_by(self, next: Self) -> Self {
        if self.error is Some {
            self
        } else {
            Plan { requests: self.requests + next.requests, error: next.error }
        }
    }
}

/// The plan of `column = value`: the column is resolved before the value is looked at.
pub open spec fn assignment_plan<F, E>(scope: TargetScope, assignment: Assignment<E>) -> Plan<F, E> {
    match scope.reference(assignment.id@) {
        Err(error) => Plan::fail(error),
        Ok(_) => match assignment.value {
            AssignmentValue::Expr(expr) => Plan::one(BindRequest::Expr { expr }),
            AssignmentValue::Default => Plan::fail(
                ErrorCodeView::BindError("MERGE UPDATE SET DEFAULT is not supported yet"@),
            ),
        },
    }
}

/// The plan of the assignments of an `UPDATE`, one after another.
pub open spec fn assignments_plan<F, E>(
    scope: TargetScope,
    assignments: Seq<Assignment<E>>,
) -> Plan<F, E>
    decreases assignments.len(),
{
    if assignments.len() == 0 {
        Plan::nothing()
    } else {
        assignments_plan(scope, assignments.drop_last()).followed_by(
            assignment_plan(scope, assignments.last()),
        )
    }
}

/// The requests for the values of an `INSERT`.
pub open spec fn value_requests<F, E>(values: Seq<E>) -> Seq<BindRequest<F, E>> {
    values.map_values(|expr: E| BindRequest::Expr { expr })
}

/// The plan of an action.
pub open spec fn action_plan<F, E>(scope: TargetScope, action: MergeAction<E>) -> Plan<F, E> {
    match action {
        MergeAction::Update { assignments } => assignments_plan(scope, assignments@),
        MergeAction::Delete => Plan::nothing(),
        MergeAction::Insert { columns, values } => match scope.insert_columns(columns@) {
            Err(error) => Plan::fail(error),
            Ok(indices) => if indices.len() != values@.len() {
                Plan::fail(
                    ErrorCodeView::BindError(insert_arity_message(indices.len(), values@.len())),
                )
            } else {
                Plan { requests: value_requests(values@), error: None }
            },
        },
    }
}

/// The plan of the condition of a clause.
pub open spec fn condition_plan<F, E>(condition: Option<E>) -> Plan<F, E> {
    match condition {
        Some(expr) => Plan::one(BindRequest::BoolExpr { expr, clause: BoolClause::When }),
        None => Plan::nothing(),
    }
}

/// The plan of a clause: its condition comes before its action.
pub open spec fn clause_plan<F, E>(scope: TargetScope, clause: MergeClause<E>) -> Plan<F, E> {
    condition_plan(clause.condition).followed_by(action_plan(scope, clause.action))
}

/// The plan of clauses, one after another.
pub open spec fn clauses_plan<F, E>(scope: TargetScope, clauses: Seq<MergeClause<E>>) -> Plan<F, E>
    decreases clauses.len(),
{
    if clauses.len() == 0 {
        Plan::nothing()
    } else {
        clauses_plan(scope, clauses.drop_last()).followed_by(clause_plan(scope, clauses.last()))
    }
}

/// A clause with its columns resolved, which waits for its expressions.
pub struct PlannedClause {
    pub kind: BoundMergeClauseKind,
    pub has_condition: bool,
    pub action: PlannedAction,
}

/// An action with its columns resolved, which waits for one expression for each of them.
pub enum PlannedAction {
    Update { target_table_column_indices: Vec<usize> },
    Delete,
    Insert { target_table_column_indices: Vec<usize> },
}

/// A planned clause as a mathematical value.
pub struct PlannedClauseView {
    pub kind: BoundMergeClauseKind,
    pub has_condition: bool,
    pub action: PlannedActionView,
}

/// A planned action as a mathematical value.
pub enum PlannedActionView {
    Update { target_table_column_indices: Seq<usize> },
    Delete,
    Insert { target_table_column_indices: Seq<usize> },
}

impl View for PlannedAction {
    type V = PlannedActionView;

    open spec fn view(&self) -> PlannedActionView {
        match *self {
            PlannedAction::Update { target_table_column_indices } => PlannedActionView::Update {
                target_table_column_indices: target_table_column_indices@,
            },
            PlannedAction::Delete => PlannedActionView::Delete,
            PlannedAction::Insert { target_table_column_indices } => PlannedActionView::Insert {
                target_table_column_indices: target_table_column_indices@,
            },
        }
    }
}

impl View for PlannedClause {
    type V = PlannedClauseView;

    open spec fn view(&self) -> PlannedClauseView {
        PlannedClauseView {
            kind: self.kind,
            has_condition: self.has_condition,
            action: self.action@,
        }
    }
}

/// The views of a list of planned clauses.
pub open spec fn planned_views(clauses: Seq<PlannedClause>) -> Seq<PlannedClauseView> {
    clauses.map_values(|clause: PlannedClause| clause@)
}

/// The columns that assignments go to, where all of them can be resolved.
pub open spec fn assignment_columns<E>(
    scope: TargetScope,
    assignments: Seq<Assignment<E>>,
) -> Seq<usize> {
    assignments.map_values(|assignment: Assignment<E>| scope.reference(assignment.id@)->Ok_0)
}

/// An action with its columns resolved, where its plan has no error.
pub open spec fn planned_action<E>(scope: TargetScope, action: MergeAction<E>) -> PlannedActionView {
    match action {
        MergeAction::Update { assignments } => PlannedActionView::Update {
            target_table_column_indices: assignment_columns(scope, assignments@),
        },
        MergeAction::Delete => PlannedActionView::Delete,
        MergeAction::Insert { columns, .. } => PlannedActionView::Insert {
            target_table_column_indices: scope.insert_columns(columns@)->Ok_0,
        },
    }
}

/// The rows that a bound clause applies to are those of the parsed one.
pub open spec fn bound_kind(kind: MergeClauseKind) -> BoundMergeClauseKind {
    match kind {
        MergeClauseKind::Matched => BoundMergeClauseKind::Matched,
        MergeClauseKind::NotMatched => BoundMergeClauseKind::NotMatched,
    }
}

/// A clause with its columns resolved, where its plan has no error.
pub open spec fn planned_clause<E>(scope: TargetScope, clause: MergeClause<E>) -> PlannedClauseView {
    PlannedClauseView {
        kind: bound_kind(clause.kind),
        has_condition: clause.condition is Some,
        action: planned_action(scope, clause.action),
    }
}

/// Clauses with their columns resolved, where their plan has no error.
pub open spec fn planned_clauses<E>(scope: TargetScope, clauses: Seq<MergeClause<E>>) -> Seq<
    PlannedClauseView,
> {
    clauses.map_values(|clause: MergeClause<E>| planned_clause(scope, clause))
}

/// An error in a prefix of the assignments is the error of the whole list.
proof fn lemma_assignments_plan_error<F, E>(
    scope: TargetScope,
    assignments: Seq<Assignment<E>>,
    count: int,
)
    requires
        0 <= count <= assignments.len(),
        assignments_plan::<F, E>(scope, assignments.take(count)).error is Some,
    ensures
        assignments_plan::<F, E>(scope, assignments) == assignments_plan::<F, E>(
            scope,
            assignments.take(count),
        ),
    decreases assignments.len() - count,
{
    if count == assignments.len() {
        assert(assignments.take(count) =~= assignments);
    } else {
        assert(assignments.take(count + 1).drop_last() =~= assignments.take(count));
        lemma_assignments_plan_error::<F, E>(scope, assignments, count + 1);
    }
}

/// Resolves the columns of `UPDATE SET` and adds a request for each assigned value.
fn plan_merge_update<F, E>(
    assignments: Vec<Assignment<E>>,
    target: &BoundBaseTable,
    target_alias: Option<&TableAlias>,
    target_table_name: &str,
    target_range: &Range<usize>,
    requests: &mut Vec<BindRequest<F, E>>,
) -> (columns: Result<Vec<usize>, ErrorCode>)
    requires
        target_scope(target, target_alias, target_table_name@, target_range.start).fits(),
    ensures
        ({
            let scope = target_scope(target, target_alias, target_table_name@, target_range.start);
            let plan = assignments_plan::<F, E>(scope, assignments@);
            &&& final(requests)@ == old(requests)@ + plan.requests
            &&& match columns {
                Ok(columns) => plan.error is None && columns@ == assignment_columns(
                    scope,
                    assignments@,
                ),
                Err(error) => plan.error == Some(error@),
            }
        }),
{
    let ghost scope = target_scope(target, target_alias, target_table_name@, target_range.start);
    let ghost all = assignments@;
    let mut columns: Vec<usize> = Vec::new();
    for assignment in iter: assignments
        invariant
            scope == target_scope(target, target_alias, target_table_name@, target_range.start),
            scope.fits(),
            iter.seq() == all,
            assignments_plan::<F, E>(scope, all.take(iter.index() as int)).error is None,
            requests@ == old(requests)@ + assignments_plan::<F, E>(
                scope,
                all.take(iter.index() as int),
            ).requests,
            columns@ == assignment_columns(scope, all.take(iter.index() as int)),
    {
        let ghost count = iter.index() as int;
        proof {
            assert(assignment == all[count]);
            assert(all.take(count + 1).drop_last() =~= all.take(count));
        }
        let column: usize = match resolve_merge_target_index(
            target,
            target_alias,
            target_table_name,
            target_range,
            assignment.id.as_slice(),
        ) {
            Ok(column) => column,
            Err(error) => {
                proof {
                    lemma_assignments_plan_error::<F, E>(scope, all, count + 1);
                }
                return Err(error);
            },
        };
        match assignment.value {
            AssignmentValue::Expr(expr) => {
                requests.push(BindRequest::Expr { expr });
            },
            AssignmentValue::Default => {
                proof {
                    lemma_assignments_plan_error::<F, E>(scope, all, count + 1);
                }
                return Err(ErrorCode::bind("MERGE UPDATE SET DEFAULT is not supported yet"));
            },
        }
        columns.push(column);
    }
    proof {
        assert(all.take(all.len() as int) =~= all);
    }
    Ok(columns)
}

/// Resolves the columns of an action and adds a request for each of its expressions.
pub fn plan_merge_action<F, E>(
    action: MergeAction<E>,
    target: &BoundBaseTable,
    target_alias: Option<&TableAlias>,
    target_table_name: &str,
    target_range: &Range<usize>,
    requests: &mut Vec<BindRequest<F, E>>,
) -> (planned: Result<PlannedAction, ErrorCode>)
    requires
        target_scope(target, target_alias, target_table_name@, target_range.start).fits(),
    ensures
        ({
            let scope = target_scope(target, target_alias, target_table_name@, target_range.start);
            let plan = action_plan::<F, E>(scope, action);
            &&& final(requests)@ == old(requests)@ + plan.requests
            &&& match planned {
                Ok(planned) => plan.error is None && planned@ == planned_action(scope, action),
                Err(error) => plan.error == Some(error@),
            }
        }),
{
    match action {
        MergeAction::Update { assignments } => {
            match plan_merge_update(
                assignments,
                target,
                target_alias,
                target_table_name,
                target_range,
                requests,
            ) {
                Ok(target_table_column_indices) => Ok(
                    PlannedAction::Update { target_table_column_indices },
                ),
                Err(error) => Err(error),
            }
        },
        MergeAction::Delete => Ok(PlannedAction::Delete),
        MergeAction::Insert { columns, values } => {
            let column_indices: Vec<usize> = match resolve_merge_insert_columns(
                target,
                target_alias,
                target_table_name,
                target_range,
                columns,
            ) {
                Ok(column_indices) => column_indices,
                Err(error) => {
                    return Err(error);
                },
            };
            if column_indices.len() != values.len() {
                return Err(ErrorCode::insert_arity(column_indices.len(), values.len()));
            }
            let ghost all = values@;
            for expr in iter: values
                invariant
                    iter.seq() == all,
                    requests@ == old(requests)@ + value_requests::<F, E>(
                        all.take(iter.index() as int),
                    ),
            {
                let ghost count = iter.index() as int;
                requests.push(BindRequest::Expr { expr });
                proof {
                    assert(value_requests::<F, E>(all.take(count + 1)) =~= value_requests::<F, E>(
                        all.take(count),
                    ).push(BindRequest::Expr { expr }));
                }
            }
            proof {
                assert(all.take(all.len() as int) =~= all);
            }
            Ok(PlannedAction::Insert { target_table_column_indices: column_indices })
        },
    }
}

/// Resolves the columns of a clause and adds a request for each of its expressions.
pub fn plan_merge_clause<F, E>(
    clause: MergeClause<E>,
    target: &BoundBaseTable,
    target_alias: Option<&TableAlias>,
    target_table_name: &str,
    target_range: &Range<usize>,
    requests: &mut Vec<BindRequest<F, E>>,
) -> (planned: Result<PlannedClause, ErrorCode>)
    requires
        target_scope(target, target_alias, target_table_name@, target_range.start).fits(),
    ensures
        ({
            let scope = target_scope(target, target_alias, target_table_name@, target_range.start);
            let plan = clause_plan::<F, E>(scope, clause);
            &&& final(requests)@ == old(requests)@ + plan.requests
            &&& match planned {
                Ok(planned) => plan.error is None && planned@ == planned_clause(scope, clause),
                Err(error) => plan.error == Some(error@),
            }
        }),
{
    let kind: BoundMergeClauseKind = match clause.kind {
        MergeClauseKind::Matched => BoundMergeClauseKind::Matched,
        MergeClauseKind::NotMatched => BoundMergeClauseKind::NotMatched,
    };
    let has_condition: bool = clause.condition.is_some();
    if let Some(expr) = clause.condition {
        requests.push(BindRequest::BoolExpr { expr, clause: BoolClause::When });
    }
    assert(requests@ =~= old(requests)@ + condition_plan::<F, E>(clause.condition).requests);
    match plan_merge_action(
        clause.action,
        target,
        target_alias,
        target_table_name,
        target_range,
        requests,
    ) {
        Ok(action) => Ok(PlannedClause { kind, has_condition, action }),
        Err(error) => Err(error),
    }
}

/// An error in a prefix of the clauses is the error of the whole list.
proof fn lemma_clauses_plan_error<F, E>(
    scope: TargetScope,
    clauses: Seq<MergeClause<E>>,
    count: int,
)
    requires
        0 <= count <= clauses.len(),
        clauses_plan::<F, E>(scope, clauses.take(count)).error is Some,
    ensures
        clauses_plan::<F, E>(scope, clauses) == clauses_plan::<F, E>(scope, clauses.take(count)),
    decreases clauses.len() - count,
{
    if count == clauses.len() {
        assert(clauses.take(count) =~= clauses);
    } else {
        assert(clauses.take(count + 1).drop_last() =~= clauses.take(count));
        lemma_clauses_plan_error::<F, E>(scope, clauses, count + 1);
    }
}

/// Resolves the columns of all clauses and adds a request for each of their expressions.
pub fn plan_merge_clauses<F, E>(
    clauses: Vec<MergeClause<E>>,
    target: &BoundBaseTable,
    target_alias: Option<&TableAlias>,
    target_table_name: &str,
    target_range: &Range<usize>,
    requests: &mut Vec<BindRequest<F, E>>,
) -> (planned: Result<Vec<PlannedClause>, ErrorCode>)
    requires
        target_scope(target, target_alias, target_table_name@, target_range.start).fits(),
    ensures
        ({
            let scope = target_scope(target, target_alias, target_table_name@, target_range.start);
            let plan = clauses_plan::<F, E>(scope, clauses@);
            &&& final(requests)@ == old(requests)@ + plan.requests
            &&& match planned {
                Ok(planned) => plan.error is None && planned_views(planned@) == planned_clauses(
                    scope,
                    clauses@,
                ),
                Err(error) => plan.error == Some(error@),
            }
        }),
{
    let ghost scope = target_scope(target, target_alias, target_table_name@, target_range.start);
    let ghost all = clauses@;
    let mut planned: Vec<PlannedClause> = Vec::new();
    for clause in iter: clauses
        invariant
            scope == target_scope(target, target_alias, target_table_name@, target_range.start),
            scope.fits(),
            iter.seq() == all,
            clauses_plan::<F, E>(scope, all.take(iter.index() as int)).error is None,
            requests@ == old(requests)@ + clauses_plan::<F, E>(
                scope,
                all.take(iter.index() as int),
            ).requests,
            planned_views(planned@) == planned_clauses(scope, all.take(iter.index() as int)),
    {
        let ghost count = iter.index() as int;
        proof {
            assert(all.take(count + 1).drop_last() =~= all.take(count));
        }
        match plan_merge_clause(
            clause,
            target,
            target_alias,
            target_table_name,
            target_range,
            requests,
        ) {
            Ok(clause) => {
                let ghost before = planned@;
                planned.push(clause);
                proof {
                    assert(planned_views(planned@) =~= planned_views(before).push(clause@));
                    assert(planned_clauses(scope, all.take(count + 1)) =~= planned_clauses(
                        scope,
                        all.take(count),
                    ).push(clause@));
                }
            },
            Err(error) => {
                proof {
                    lemma_clauses_plan_error::<F, E>(scope, all, count + 1);
                }
                return Err(error);
            },
        }
    }
    proof {
        assert(all.take(all.len() as int) =~= all);
    }
    Ok(planned)
}

/// How many expressions an action waits for.
pub open spec fn action_expr_count(action: PlannedActionView) -> nat {
    match action {
        PlannedActionView::Update { target_table_column_indices } => {
            target_table_column_indices.len()
        },
        PlannedActionView::Delete => 0,
        PlannedActionView::Insert { target_table_column_indices } => {
            target_table_column_indices.len()
        },
    }
}

/// How many expressions a clause waits for.
pub open spec fn clause_expr_count(clause: PlannedClauseView) -> nat {
    if clause.has_condition {
        1 + action_expr_count(clause.action)
    } else {
        action_expr_count(clause.action)
    }
}

/// How many expressions clauses wait for.
pub open spec fn clauses_expr_count(clauses: Seq<PlannedClauseView>) -> nat
    decreases clauses.len(),
{
    if clauses.len() == 0 {
        0
    } else {
        clauses_expr_count(clauses.drop_last()) + clause_expr_count(clauses.last())
    }
}

/// An action with the expressions that it takes from the front of `exprs`: the first for its
/// first column, and so on.
pub open spec fn bound_action<X>(action: PlannedActionView, exprs: Seq<X>) -> BoundMergeActionView<
    X,
> {
    match action {
        PlannedActionView::Update { target_table_column_indices } => BoundMergeActionView::Update {
            assignments: Seq::new(
                target_table_column_indices.len(),
                |i: int|
                    BoundMergeAssignment {
                        target_table_column_index: target_table_column_indices[i],
                        expr: exprs[i],
                    },
            ),
        },
        PlannedActionView::Delete => BoundMergeActionView::Delete,
        PlannedActionView::Insert { target_table_column_indices } => BoundMergeActionView::Insert {
            target_table_column_indices,
            values: exprs.take(target_table_column_indices.len() as int),
        },
    }
}

/// A clause with the expressions that it takes from the front of `exprs`: its condition first.
pub open spec fn bound_clause<X>(clause: PlannedClauseView, exprs: Seq<X>) -> BoundMergeClauseView<
    X,
> {
    if clause.has_condition {
        BoundMergeClauseView {
            kind: clause.kind,
            condition: Some(exprs[0]),
            action: bound_action(clause.action, exprs.skip(1)),
        }
    } else {
        BoundMergeClauseView {
            kind: clause.kind,
            condition: None,
            action: bound_action(clause.action, exprs),
        }
    }
}

/// Clauses with their expressions: each takes what those before it have left.
pub open spec fn bound_clauses<X>(clauses: Seq<PlannedClauseView>, exprs: Seq<X>) -> Seq<
    BoundMergeClauseView<X>,
> {
    Seq::new(
        clauses.len(),
        |i: int| bound_clause(clauses[i], exprs.skip(clauses_expr_count(clauses.take(i)) as int)),
    )
}

/// Gives an action its bound expressions, taken from the front of `exprs`.
pub fn bind_merge_action<X>(planned: PlannedAction, exprs: &mut VecDeque<X>) -> (action:
    BoundMergeAction<X>)
    requires
        action_expr_count(planned@) <= old(exprs)@.len(),
    ensures
        action@ == bound_action(planned@, old(exprs)@),
        final(exprs)@ == old(exprs)@.skip(action_expr_count(planned@) as int),
{
    match planned {
        PlannedAction::Update { target_table_column_indices } => {
            let mut assignments: Vec<BoundMergeAssignment<X>> = Vec::new();
            for i in 0..target_table_column_indices.len()
                invariant
                    target_table_column_indices@.len() <= old(exprs)@.len(),
                    exprs@ == old(exprs)@.skip(i as int),
                    assignments@.len() == i,
                    forall|j: int|
                        0 <= j < i ==> #[trigger] assignments@[j] == (BoundMergeAssignment {
                            target_table_column_index: target_table_column_indices@[j],
                            expr: old(exprs)@[j],
                        }),
            {
                let expr: X = exprs.pop_front().unwrap();
                assignments.push(
                    BoundMergeAssignment {
                        target_table_column_index: target_table_column_indices[i],
                        expr,
                    },
                );
            }
            let action: BoundMergeAction<X> = BoundMergeAction::Update { assignments };
            assert(assignments@ =~= bound_action(planned@, old(exprs)@)->assignments);
            action
        },
        PlannedAction::Delete => BoundMergeAction::Delete,
        PlannedAction::Insert { target_table_column_indices } => {
            let mut values: Vec<X> = Vec::new();
            for i in 0..target_table_column_indices.len()
                invariant
                    target_table_column_indices@.len() <= old(exprs)@.len(),
                    exprs@ == old(exprs)@.skip(i as int),
                    values@ == old(exprs)@.take(i as int),
            {
                let expr: X = exprs.pop_front().unwrap();
                values.push(expr);
            }
            BoundMergeAction::Insert { target_table_column_indices, values }
        },
    }
}

/// Gives a clause its bound expressions, taken from the front of `exprs`.
pub fn bind_merge_clause<X>(planned: PlannedClause, exprs: &mut VecDeque<X>) -> (clause:
    BoundMergeClause<X>)
    requires
        clause_expr_count(planned@) <= old(exprs)@.len(),
    ensures
        clause@ == bound_clause(planned@, old(exprs)@),
        final(exprs)@ == old(exprs)@.skip(clause_expr_count(planned@) as int),
{
    let condition: Option<X> = if planned.has_condition {
        exprs.pop_front()
    } else {
        None
    };
    let action: BoundMergeAction<X> = bind_merge_action(planned.action, exprs);
    BoundMergeClause { kind: planned.kind, condition, action }
}

/// The clauses before one of several do not wait for more expressions than all of them.
pub proof fn lemma_clauses_expr_count(clauses: Seq<PlannedClauseView>, count: int)
    requires
        0 <= count <= clauses.len(),
    ensures
        clauses_expr_count(clauses.take(count)) <= clauses_expr_count(clauses),
        count < clauses.len() ==> clauses_expr_count(clauses.take(count + 1))
            == clauses_expr_count(clauses.take(count)) + clause_expr_count(clauses[count]),
    decreases clauses.len() - count,
{
    if count == clauses.len() {
        assert(clauses.take(count) =~= clauses);
    } else {
        assert(clauses.take(count + 1).drop_last() =~= clauses.take(count));
        lemma_clauses_expr_count(clauses, count + 1);
    }
}

/// Gives all clauses their bound expressions, taken from the front of `exprs`.
pub fn bind_merge_clauses<X>(planned: Vec<PlannedClause>, exprs: &mut VecDeque<X>) -> (clauses: Vec<
    BoundMergeClause<X>,
>)
    requires
        clauses_expr_count(planned_views(planned@)) <= old(exprs)@.len(),
    ensures
        clause_views(clauses@) == bound_clauses(planned_views(planned@), old(exprs)@),
        final(exprs)@ == old(exprs)@.skip(clauses_expr_count(planned_views(planned@)) as int),
{
    let ghost all = planned_views(planned@);
    let ghost planned_clauses = planned@;
    let mut clauses: Vec<BoundMergeClause<X>> = Vec::new();
    for clause in iter: planned
        invariant
            iter.seq() == planned_clauses,
            all == planned_views(planned_clauses),
            clauses_expr_count(all) <= old(exprs)@.len(),
            exprs@ == old(exprs)@.skip(clauses_expr_count(all.take(iter.index() as int)) as int),
            clauses@.len() == iter.index(),
            forall|j: int|
                0 <= j < clauses@.len() ==> #[trigger] clauses@[j]@ == bound_clauses(
                    all,
                    old(exprs)@,
                )[j],
    {
        let ghost count = iter.index() as int;
        proof {
            lemma_clauses_expr_count(all, count);
            lemma_clauses_expr_count(all, count + 1);
        }
        clauses.push(bind_merge_clause(clause, exprs));
    }
    proof {
        assert(all.take(all.len() as int) =~= all);
    }
    assert(clause_views(clauses@) =~= bound_clauses(all, old(exprs)@));
    clauses
}

/// A request whose answer is an expression.
pub open spec fn asks_for_expr<F, E>(request: BindRequest<F, E>) -> bool {
    request is Expr || request is BoolExpr
}

/// The plan of assignments asks for expressions, for one per assignment where it has no error.
proof fn lemma_assignments_plan_requests<F, E>(
    scope: TargetScope,
    assignments: Seq<Assignment<E>>,
)
    ensures
        ({
            let plan = assignments_plan::<F, E>(scope, assignments);
            &&& plan.error is None ==> plan.requests.len() == assignments.len()
            &&& forall|i: int|
                0 <= i < plan.requests.len() ==> asks_for_expr(#[trigger] plan.requests[i])
        }),
    decreases assignments.len(),
{
    if assignments.len() > 0 {
        lemma_assignments_plan_requests::<F, E>(scope, assignments.drop_last());
    }
}

/// The plan of clauses asks for expressions, for as many as the clauses wait for where it has no
/// error.
pub proof fn lemma_clauses_plan_requests<F, E>(scope: TargetScope, clauses: Seq<MergeClause<E>>)
    ensures
        ({
            let plan = clauses_plan::<F, E>(scope, clauses);
            &&& plan.error is None ==> plan.requests.len() == clauses_expr_count(
                planned_clauses(scope, clauses),
            )
            &&& forall|i: int|
                0 <= i < plan.requests.len() ==> asks_for_expr(#[trigger] plan.requests[i])
        }),
    decreases clauses.len(),
{
    if clauses.len() > 0 {
        lemma_clauses_plan_requests::<F, E>(scope, clauses.drop_last());
        if let MergeAction::Update { assignments } = clauses.last().action {
            lemma_assignments_plan_requests::<F, E>(scope, assignments@);
        }
        assert(planned_clauses(scope, clauses).drop_last() =~= planned_clauses(
            scope,
            clauses.drop_last(),
        ));
    }
}

} // verus!
