//! Laws of what a clause asks for, and of what becomes of the answers.
use vstd::prelude::*;

use crate::ast::{Assignment, AssignmentValue, Ident, MergeAction, MergeClause, TableAlias};
use crate::catalog::{BoundBaseTable, ColumnCatalog};
use crate::error::{decimal_digits, ErrorCodeView};
use crate::laws::columns::{
    borne, law_an_unlisted_insert_counts_the_visible_columns, law_what_a_reference_stands_for,
    law_which_columns_an_insert_fills, listable,
};
use crate::merge::BoundMergeActionView;
use crate::plan::{
    action_expr_count, action_plan, assignments_plan, bound_action, bound_clause, bound_clauses,
    clause_expr_count, clause_plan, clauses_expr_count, clauses_plan, lemma_clauses_expr_count,
    planned_action, planned_clause, planned_clauses, BindRequest, BoolClause, PlannedActionView,
    PlannedClauseView,
};
use crate::resolve::{target_scope, TargetScope};

verus! {

/// An assignment that can be bound: it names a column and gives an expression for it.
pub open spec fn assignable<E>(scope: TargetScope, assignment: Assignment<E>) -> bool {
    &&& scope.reference(assignment.id@) is Ok
    &&& assignment.value is Expr
}

proof fn lemma_assignments_plan<F, E>(scope: TargetScope, assignments: Seq<Assignment<E>>)
    ensures
        ({
            let plan = assignments_plan::<F, E>(scope, assignments);
            let count = plan.requests.len();
            &&& count <= assignments.len()
            &&& forall|j: int|
                #![trigger plan.requests[j]]
                #![trigger assignments[j]]
                0 <= j < count ==> {
                    &&& assignable(scope, assignments[j])
                    &&& plan.requests[j] == (BindRequest::<F, E>::Expr {
                        expr: assignments[j].value->Expr_0,
                    })
                }
            &&& plan.error is None <==> count == assignments.len()
            &&& plan.error matches Some(error) ==> match scope.reference(assignments[count as int].id@) {
                Err(refused) => error == refused,
                Ok(_) => {
                    &&& assignments[count as int].value is Default
                    &&& error == ErrorCodeView::BindError(
                        "MERGE UPDATE SET DEFAULT is not supported yet"@,
                    )
                },
            }
        }),
    decreases assignments.len(),
{
    if assignments.len() > 0 {
        let before = assignments.drop_last();
        lemma_assignments_plan::<F, E>(scope, before);
        let plan = assignments_plan::<F, E>(scope, assignments);
        assert forall|j: int|
            #![trigger plan.requests[j]]
            #![trigger assignments[j]]
            0 <= j < plan.requests.len() implies {
            &&& assignable(scope, assignments[j])
            &&& plan.requests[j] == (BindRequest::<F, E>::Expr {
                expr: assignments[j].value->Expr_0,
            })
        } by {
            if j < before.len() {
                assert(assignments[j] == before[j]);
                assert(plan.requests[j] == assignments_plan::<F, E>(scope, before).requests[j]);
            }
        }
        let count = plan.requests.len() as int;
        if count < before.len() {
            assert(assignments[count] == before[count]);
        }
    }
}

/// What an `UPDATE` asks for: the values of its assignments as they are written, up to the first
/// one that cannot be bound. It has no error just where every assignment can be bound. Its error
/// is that of the first which cannot: its column is refused, or its value is `DEFAULT`.
pub proof fn law_what_an_update_asks_for<F, E>(
    scope: TargetScope,
    assignments: Vec<Assignment<E>>,
)
    ensures
        ({
            let written = assignments@;
            let plan = action_plan::<F, E>(scope, MergeAction::Update { assignments });
            let count = plan.requests.len();
            &&& plan.error is None <==> forall|j: int|
                0 <= j < written.len() ==> assignable(scope, #[trigger] written[j])
            &&& plan.error is None <==> count == written.len()
            &&& count <= written.len()
            &&& forall|j: int|
                #![trigger plan.requests[j]]
                #![trigger written[j]]
                0 <= j < count ==> {
                    &&& assignable(scope, written[j])
                    &&& written[j].value matches AssignmentValue::Expr(expr) && plan.requests[j] == (
                    BindRequest::<F, E>::Expr { expr })
                }
            &&& plan.error matches Some(error) ==> match scope.reference(written[count as int].id@) {
                Err(refused) => error == refused,
                Ok(_) => {
                    &&& written[count as int].value is Default
                    &&& error == ErrorCodeView::BindError(
                        "MERGE UPDATE SET DEFAULT is not supported yet"@,
                    )
                },
            }
        }),
{
    lemma_assignments_plan::<F, E>(scope, assignments@);
    let plan = action_plan::<F, E>(scope, MergeAction::Update { assignments });
    if plan.error is None {
        assert forall|j: int| 0 <= j < assignments@.len() implies assignable(
            scope,
            #[trigger] assignments@[j],
        ) by {}
    } else {
        assert(!assignable(scope, assignments@[plan.requests.len() as int]));
    }
}

/// What an `INSERT` asks for: its values, as many and in the order as they are written. It has no
/// error just where its columns can be filled and are as many as its values. With an error it asks
/// for nothing.
pub proof fn law_what_an_insert_asks_for<F, E>(
    scope: TargetScope,
    columns: Vec<Ident>,
    values: Vec<E>,
)
    ensures
        ({
            let written = values@;
            let plan = action_plan::<F, E>(scope, MergeAction::Insert { columns, values });
            match scope.insert_columns(columns@) {
                Err(refused) => plan.error == Some(refused) && plan.requests.len() == 0,
                Ok(indices) => if indices.len() != written.len() {
                    &&& plan.requests.len() == 0
                    &&& plan.error == Some(
                        ErrorCodeView::BindError(
                            "MERGE INSERT has "@ + decimal_digits(indices.len())
                                + " target columns but "@ + decimal_digits(written.len())
                                + " values"@,
                        ),
                    )
                } else {
                    &&& plan.error is None
                    &&& plan.requests.len() == written.len()
                    &&& forall|j: int|
                        #![trigger plan.requests[j]]
                        #![trigger written[j]]
                        0 <= j < written.len() ==> plan.requests[j] == (BindRequest::<F, E>::Expr {
                            expr: written[j],
                        })
                },
            }
        }),
{
}

/// An `UPDATE` has no error just where every assignment gives an expression to a column of the
/// target, named alone or after the one qualifier of the target: its alias or, where it has none,
/// its name.
pub proof fn law_just_the_good_updates_have_no_error<F, E>(
    target: &BoundBaseTable,
    target_alias: Option<&TableAlias>,
    table_name: Seq<char>,
    start: usize,
    assignments: Vec<Assignment<E>>,
)
    requires
        start + target.table_catalog.columns@.len() <= usize::MAX + 1,
    ensures
        action_plan::<F, E>(
            target_scope(target, target_alias, table_name, start),
            MergeAction::Update { assignments },
        ).error is None <==> forall|j: int|
            #![trigger assignments@[j]]
            0 <= j < assignments@.len() ==> {
                let id = assignments@[j].id@;
                let qualifier = match target_alias {
                    Some(alias) => alias.name.real_value@,
                    None => table_name,
                };
                &&& assignments@[j].value is Expr
                &&& id.len() == 1 || (id.len() == 2 && id[0].real_value@ == qualifier)
                &&& borne(target.table_catalog.columns@, id.last().real_value@)
            },
{
    let scope = target_scope(target, target_alias, table_name, start);
    let columns = target.table_catalog.columns@;
    law_what_an_update_asks_for::<F, E>(scope, assignments);
    assert forall|j: int| #![trigger assignments@[j]] 0 <= j < assignments@.len() implies (assignable(
        scope,
        assignments@[j],
    ) <==> {
        let id = assignments@[j].id@;
        let qualifier = match target_alias {
            Some(alias) => alias.name.real_value@,
            None => table_name,
        };
        &&& assignments@[j].value is Expr
        &&& id.len() == 1 || (id.len() == 2 && id[0].real_value@ == qualifier)
        &&& borne(columns, id.last().real_value@)
    }) by {
        let id = assignments@[j].id@;
        law_what_a_reference_stands_for(target, target_alias, table_name, start, id);
        if let Ok(index) = scope.reference(id) {
            assert(columns[index - start].name@ == id.last().real_value@);
        }
    }
}

/// An `INSERT` has no error just where it lists columns of the target, none of them twice, and has
/// a value for each or, without a list, a value for each column that is not hidden.
pub proof fn law_just_the_good_inserts_have_no_error<F, E>(
    target: &BoundBaseTable,
    target_alias: Option<&TableAlias>,
    table_name: Seq<char>,
    start: usize,
    columns: Vec<Ident>,
    values: Vec<E>,
)
    requires
        start + target.table_catalog.columns@.len() <= usize::MAX + 1,
    ensures
        action_plan::<F, E>(
            target_scope(target, target_alias, table_name, start),
            MergeAction::Insert { columns, values },
        ).error is None <==> if columns@.len() > 0 {
            &&& listable(target.table_catalog.columns@, columns@, columns@.len() as int)
            &&& columns@.len() == values@.len()
        } else {
            target.table_catalog.columns@.filter(|column: ColumnCatalog| !column.is_hidden).len()
                == values@.len()
        },
{
    let scope = target_scope(target, target_alias, table_name, start);
    law_what_an_insert_asks_for::<F, E>(scope, columns, values);
    law_which_columns_an_insert_fills(target, target_alias, table_name, start, columns@);
    law_an_unlisted_insert_counts_the_visible_columns(scope, scope.columns.len());
    assert(scope.columns.take(scope.columns.len() as int) =~= scope.columns);
}

/// A `DELETE` asks for nothing and has no error.
pub proof fn law_a_delete_asks_for_nothing<F, E>(scope: TargetScope)
    ensures
        action_plan::<F, E>(scope, MergeAction::<E>::Delete).requests.len() == 0,
        action_plan::<F, E>(scope, MergeAction::<E>::Delete).error is None,
{
}

/// A clause asks for its condition, as a boolean, and then for what its action asks for. Its
/// errors are those of its action.
pub proof fn law_what_a_clause_asks_for<F, E>(scope: TargetScope, clause: MergeClause<E>)
    ensures
        ({
            let plan = clause_plan::<F, E>(scope, clause);
            let action = action_plan::<F, E>(scope, clause.action);
            &&& plan.error == action.error
            &&& match clause.condition {
                Some(condition) => {
                    &&& plan.requests.len() == 1 + action.requests.len()
                    &&& plan.requests[0] == (BindRequest::<F, E>::BoolExpr {
                        expr: condition,
                        clause: BoolClause::When,
                    })
                    &&& forall|j: int|
                        0 <= j < action.requests.len() ==> #[trigger] action.requests[j]
                            == plan.requests[1 + j]
                },
                None => {
                    &&& plan.requests.len() == action.requests.len()
                    &&& forall|j: int|
                        0 <= j < action.requests.len() ==> #[trigger] action.requests[j]
                            == plan.requests[j]
                },
            }
        }),
{
}

/// How many expressions are written in an action.
pub open spec fn written_in_action<E>(action: MergeAction<E>) -> nat {
    match action {
        MergeAction::Update { assignments } => assignments@.len(),
        MergeAction::Delete => 0,
        MergeAction::Insert { values, .. } => values@.len(),
    }
}

/// How many conditions are written in a clause: one or none.
pub open spec fn written_conditions<E>(clause: MergeClause<E>) -> nat {
    match clause.condition {
        Some(_) => 1,
        None => 0,
    }
}

/// How many expressions are written in the clauses before one of them.
pub open spec fn written_before<E>(clauses: Seq<MergeClause<E>>, index: int) -> nat
    decreases index,
{
    if index <= 0 {
        0
    } else {
        written_before(clauses, index - 1) + written_conditions(clauses[index - 1])
            + written_in_action(clauses[index - 1].action)
    }
}

/// Nothing is written before the first clause. Before the next one there is what one clause holds
/// more: its condition, if it has one, and a value for each assignment or each insertion.
pub proof fn law_what_is_written_before_a_clause<E>(clauses: Seq<MergeClause<E>>, index: int)
    requires
        0 <= index < clauses.len(),
    ensures
        written_before(clauses, 0) == 0,
        written_before(clauses, index + 1) == written_before(clauses, index) + (
        if clauses[index].condition is Some {
            1nat
        } else {
            0nat
        }) + match clauses[index].action {
            MergeAction::Update { assignments } => assignments@.len(),
            MergeAction::Delete => 0,
            MergeAction::Insert { values, .. } => values@.len(),
        },
{
}

/// What is written before a clause does not depend on what follows.
proof fn lemma_written_before_prefix<E>(
    clauses: Seq<MergeClause<E>>,
    longer: Seq<MergeClause<E>>,
    index: int,
)
    requires
        0 <= index <= clauses.len() <= longer.len(),
        forall|i: int| 0 <= i < clauses.len() ==> #[trigger] clauses[i] == longer[i],
    ensures
        written_before(clauses, index) == written_before(longer, index),
    decreases index,
{
    if index > 0 {
        lemma_written_before_prefix(clauses, longer, index - 1);
        assert(clauses[index - 1] == longer[index - 1]);
    }
}

/// A clause without an error asks for all that is written in it.
pub proof fn law_a_good_clause_asks_for_all_of_it<F, E>(scope: TargetScope, clause: MergeClause<E>)
    requires
        clause_plan::<F, E>(scope, clause).error is None,
    ensures
        clause_plan::<F, E>(scope, clause).requests.len() == written_conditions(clause)
            + written_in_action(clause.action),
{
    match clause.action {
        MergeAction::Update { assignments } => {
            law_what_an_update_asks_for::<F, E>(scope, assignments);
        },
        MergeAction::Delete => {},
        MergeAction::Insert { columns, values } => {
            law_what_an_insert_asks_for::<F, E>(scope, columns, values);
        },
    }
}

/// The clauses before one of several have no error.
pub open spec fn good_before<F, E>(
    scope: TargetScope,
    clauses: Seq<MergeClause<E>>,
    index: int,
) -> bool {
    forall|i: int|
        0 <= i < index ==> clause_plan::<F, E>(scope, #[trigger] clauses[i]).error is None
}

/// Clauses ask one after another, up to the first that has an error. What a clause asks for comes
/// behind all that is written before it.
pub proof fn law_what_clauses_ask_for<F, E>(
    scope: TargetScope,
    clauses: Seq<MergeClause<E>>,
    index: int,
)
    requires
        0 <= index < clauses.len(),
        good_before::<F, E>(scope, clauses, index),
    ensures
        ({
            let all = clauses_plan::<F, E>(scope, clauses);
            let one = clause_plan::<F, E>(scope, clauses[index]);
            let base = written_before(clauses, index);
            &&& base + one.requests.len() <= all.requests.len()
            &&& forall|j: int|
                0 <= j < one.requests.len() ==> #[trigger] one.requests[j] == all.requests[base + j]
            &&& one.error is Some ==> {
                &&& all.error == one.error
                &&& all.requests.len() == base + one.requests.len()
            }
        }),
    decreases clauses.len(),
{
    let before = clauses.drop_last();
    let all = clauses_plan::<F, E>(scope, clauses);
    let one = clause_plan::<F, E>(scope, clauses[index]);
    assert forall|i: int| 0 <= i < before.len() implies #[trigger] before[i] == clauses[i] by {}
    lemma_written_before_prefix(before, clauses, if index < before.len() {
        index
    } else {
        before.len() as int
    });
    if index < before.len() {
        assert(good_before::<F, E>(scope, before, index)) by {
            assert forall|i: int| 0 <= i < index implies clause_plan::<F, E>(
                scope,
                #[trigger] before[i],
            ).error is None by {
                assert(before[i] == clauses[i]);
            }
        }
        law_what_clauses_ask_for::<F, E>(scope, before, index);
        let base = written_before(clauses, index);
        assert forall|j: int| 0 <= j < one.requests.len() implies #[trigger] one.requests[j]
            == all.requests[base + j] by {
            assert(one.requests[j] == clauses_plan::<F, E>(scope, before).requests[base + j]);
        }
    } else {
        assert(good_before::<F, E>(scope, before, before.len() as int)) by {
            assert forall|i: int| 0 <= i < before.len() implies clause_plan::<F, E>(
                scope,
                #[trigger] before[i],
            ).error is None by {
                assert(before[i] == clauses[i]);
            }
        }
        law_good_clauses_ask_for_all_of_them::<F, E>(scope, before);
    }
}

/// Clauses have no error just where none of them has, and then they ask for all that is written.
pub proof fn law_good_clauses_ask_for_all_of_them<F, E>(
    scope: TargetScope,
    clauses: Seq<MergeClause<E>>,
)
    ensures
        clauses_plan::<F, E>(scope, clauses).error is None <==> good_before::<F, E>(
            scope,
            clauses,
            clauses.len() as int,
        ),
        clauses_plan::<F, E>(scope, clauses).error is None ==> clauses_plan::<F, E>(
            scope,
            clauses,
        ).requests.len() == written_before(clauses, clauses.len() as int),
    decreases clauses.len(),
{
    if clauses.len() > 0 {
        let before = clauses.drop_last();
        let last = clauses.len() - 1;
        assert forall|i: int| 0 <= i < before.len() implies #[trigger] before[i] == clauses[i] by {}
        law_good_clauses_ask_for_all_of_them::<F, E>(scope, before);
        lemma_written_before_prefix(before, clauses, last);
        if clauses_plan::<F, E>(scope, clauses).error is None {
            law_a_good_clause_asks_for_all_of_it::<F, E>(scope, clauses[last]);
            assert forall|i: int| 0 <= i < clauses.len() implies clause_plan::<F, E>(
                scope,
                #[trigger] clauses[i],
            ).error is None by {
                if i < last {
                    assert(before[i] == clauses[i]);
                }
            }
        } else if good_before::<F, E>(scope, clauses, clauses.len() as int) {
            assert forall|i: int| 0 <= i < before.len() implies clause_plan::<F, E>(
                scope,
                #[trigger] before[i],
            ).error is None by {
                assert(before[i] == clauses[i]);
            }
            assert(clause_plan::<F, E>(scope, clauses[last]).error is None);
        }
    }
}

/// A planned clause is the parsed one with its columns resolved: each assignment's reference to
/// its index, and the columns of an insertion to theirs.
pub proof fn law_planning_resolves_every_column<F, E>(scope: TargetScope, clause: MergeClause<E>)
    requires
        clause_plan::<F, E>(scope, clause).error is None,
    ensures
        ({
            let planned = planned_clause(scope, clause);
            &&& (planned.kind is Matched) == (clause.kind is Matched)
            &&& (planned.kind is NotMatched) == (clause.kind is NotMatched)
            &&& planned.has_condition == (clause.condition is Some)
            &&& planned.action == planned_action(scope, clause.action)
            &&& match (clause.action, planned.action) {
                (
                    MergeAction::Update { assignments },
                    PlannedActionView::Update { target_table_column_indices },
                ) => {
                    &&& target_table_column_indices.len() == assignments@.len()
                    &&& forall|j: int|
                        #![trigger target_table_column_indices[j]]
                        #![trigger assignments@[j]]
                        0 <= j < assignments@.len() ==> scope.reference(assignments@[j].id@) == Ok::<
                            usize,
                            ErrorCodeView,
                        >(target_table_column_indices[j])
                },
                (MergeAction::Delete, PlannedActionView::Delete) => true,
                (
                    MergeAction::Insert { columns, values },
                    PlannedActionView::Insert { target_table_column_indices },
                ) => {
                    &&& scope.insert_columns(columns@) == Ok::<Seq<usize>, ErrorCodeView>(
                        target_table_column_indices,
                    )
                    &&& target_table_column_indices.len() == values@.len()
                },
                _ => false,
            }
        }),
{
    if let MergeAction::Update { assignments } = clause.action {
        law_what_an_update_asks_for::<F, E>(scope, assignments);
        let indices = planned_clause(scope, clause).action->Update_target_table_column_indices;
        assert forall|j: int|
            #![trigger indices[j]]
            #![trigger assignments@[j]]
            0 <= j < assignments@.len() implies scope.reference(assignments@[j].id@) == Ok::<
            usize,
            ErrorCodeView,
        >(indices[j]) by {
            assert(assignable(scope, assignments@[j]));
        }
    }
}

/// Planned clauses are the parsed ones, each at its place.
pub proof fn law_planning_keeps_places<E>(scope: TargetScope, clauses: Seq<MergeClause<E>>)
    ensures
        planned_clauses(scope, clauses).len() == clauses.len(),
        forall|i: int|
            0 <= i < clauses.len() ==> #[trigger] planned_clauses(scope, clauses)[i]
                == planned_clause(scope, clauses[i]),
{
}

/// An action waits for one expression per column, a clause for one more where it has a condition.
pub proof fn law_what_a_planned_clause_waits_for(clause: PlannedClauseView)
    ensures
        action_expr_count(clause.action) == match clause.action {
            PlannedActionView::Update { target_table_column_indices } => {
                target_table_column_indices.len()
            },
            PlannedActionView::Delete => 0,
            PlannedActionView::Insert { target_table_column_indices } => {
                target_table_column_indices.len()
            },
        },
        clause_expr_count(clause) == action_expr_count(clause.action) + if clause.has_condition {
            1nat
        } else {
            0nat
        },
{
}

/// Clauses wait for what each of them waits for.
pub proof fn law_what_planned_clauses_wait_for(clauses: Seq<PlannedClauseView>, index: int)
    requires
        0 <= index < clauses.len(),
    ensures
        clauses_expr_count(clauses.take(0)) == 0,
        clauses_expr_count(clauses.take(index + 1)) == clauses_expr_count(clauses.take(index))
            + clause_expr_count(clauses[index]),
        clauses_expr_count(clauses.take(clauses.len() as int)) == clauses_expr_count(clauses),
{
    lemma_clauses_expr_count(clauses, index);
    assert(clauses.take(clauses.len() as int) =~= clauses);
}

/// An action gives its columns the expressions in order: the first to the first, and so on.
pub proof fn law_expressions_go_to_columns_in_order<X>(action: PlannedActionView, exprs: Seq<X>)
    requires
        action_expr_count(action) <= exprs.len(),
    ensures
        match (action, bound_action(action, exprs)) {
            (
                PlannedActionView::Update { target_table_column_indices },
                BoundMergeActionView::Update { assignments },
            ) => {
                &&& assignments.len() == target_table_column_indices.len()
                &&& forall|j: int|
                    #![trigger assignments[j]]
                    0 <= j < assignments.len() ==> {
                        &&& assignments[j].target_table_column_index
                            == target_table_column_indices[j]
                        &&& assignments[j].expr == exprs[j]
                    }
            },
            (PlannedActionView::Delete, BoundMergeActionView::Delete) => true,
            (
                PlannedActionView::Insert { target_table_column_indices },
                BoundMergeActionView::Insert { target_table_column_indices: filled, values },
            ) => {
                &&& filled == target_table_column_indices
                &&& values.len() == target_table_column_indices.len()
                &&& forall|j: int| 0 <= j < values.len() ==> #[trigger] values[j] == exprs[j]
            },
            _ => false,
        },
{
}

/// A clause takes its condition first, and its action takes what comes behind it.
pub proof fn law_a_condition_comes_before_its_action<X>(clause: PlannedClauseView, exprs: Seq<X>)
    requires
        clause_expr_count(clause) <= exprs.len(),
    ensures
        ({
            let bound = bound_clause(clause, exprs);
            let first: int = if clause.has_condition {
                1
            } else {
                0
            };
            &&& bound.kind == clause.kind
            &&& bound.condition == if clause.has_condition {
                Some(exprs[0])
            } else {
                None
            }
            &&& bound.action == bound_action(
                clause.action,
                exprs.subrange(first, exprs.len() as int),
            )
        }),
{
    assert(exprs.subrange(0, exprs.len() as int) =~= exprs);
}

/// A clause among several takes its expressions behind those that the clauses before it take.
pub proof fn law_clauses_take_their_expressions_in_turn<X>(
    clauses: Seq<PlannedClauseView>,
    exprs: Seq<X>,
    index: int,
)
    requires
        0 <= index < clauses.len(),
        clauses_expr_count(clauses) <= exprs.len(),
    ensures
        bound_clauses(clauses, exprs).len() == clauses.len(),
        bound_clauses(clauses, exprs)[index] == bound_clause(
            clauses[index],
            exprs.subrange(
                clauses_expr_count(clauses.take(index)) as int,
                exprs.len() as int,
            ),
        ),
{
}

} // verus!
