//! Laws of binding a `MERGE`, stated over the values that the functions of this library speak of.
//!
//! - [`text`] speaks of names, messages and numbers in them.
//! - [`columns`] speaks of the columns that a statement may name.
//! - [`plans`] speaks of what a clause asks for, and of what becomes of the answers.
//! - [`rewriting`] speaks of what rewriting does to each expression, and in which order.
//! - [`statements`] speaks of whole statements: what is asked for when, which statements bind and
//!   which fail, and what each place of a bound statement holds.
//! - [`views`] says that the mathematical values of bound statements are the values themselves.
pub mod columns;
pub mod plans;
pub mod rewriting;
pub mod statements;
pub mod text;
pub mod views;

use vstd::prelude::*;

use crate::ast::{Assignment, AssignmentValue, Ident, MergeAction, MergeClause, MergeStatement};
use crate::binder::{
    answers, conversation, lemma_statement_plan_requests, progress, reply_exprs, statement_plan,
    statement_scope, target_request, BindReply, TargetRelation,
};
use crate::catalog::{BoundBaseTable, ColumnCatalog};
use crate::error::ErrorCodeView;
use crate::merge::{
    BoundMerge, BoundMergeAction, BoundMergeActionView, BoundMergeClause, BoundMergeClauseView,
    BoundMergeView,
};
use crate::plan::{
    action_plan, assignment_plan, assignments_plan, bound_action, bound_clause, bound_clauses,
    bound_kind, clause_expr_count, clause_plan, clauses_expr_count, clauses_plan, condition_plan,
    lemma_clauses_expr_count, planned_clauses, value_requests, BindRequest, BoolClause, Plan,
    PlannedClauseView,
};
use crate::resolve::{first_named, TargetScope};
use crate::rewrite::{
    assigned_columns, assigned_exprs, clauses_rewritten_along, rewritten_clauses, rewritten_list,
    ExprRewriter, RewriteExprsRecursive,
};

verus! {

/// A name resolves to the first column that bears it, and to none where no column does.
pub proof fn law_first_column_of_a_name(columns: Seq<ColumnCatalog>, name: Seq<char>)
    ensures
        match first_named(columns, name) {
            Some(position) => {
                &&& 0 <= position < columns.len()
                &&& columns[position].name@ == name
                &&& forall|i: int| 0 <= i < position ==> (#[trigger] columns[i]).name@ != name
            },
            None => forall|i: int| 0 <= i < columns.len() ==> (#[trigger] columns[i]).name@ != name,
        },
    decreases columns.len(),
{
    if columns.len() > 0 {
        law_first_column_of_a_name(columns.drop_last(), name);
        assert forall|i: int| 0 <= i < columns.len() - 1 implies #[trigger] columns[i]
            == columns.drop_last()[i] by {}
    }
}

/// A column qualified by the target's own qualifier is the column itself. Under any other
/// qualifier it is refused, whatever the column.
pub proof fn law_only_the_target_qualifies(scope: TargetScope, qualifier: Ident, column: Ident)
    ensures
        qualifier@ == scope.qualifier ==> scope.reference(seq![qualifier, column])
            == scope.reference(seq![column]),
        qualifier@ != scope.qualifier ==> scope.reference(seq![qualifier, column]) == Err::<
            usize,
            ErrorCodeView,
        >(
            ErrorCodeView::BindError(
                "MERGE target column qualifier must refer to the target table or alias"@,
            ),
        ),
{
}

/// A target that has an alias goes by it alone: its own name no longer qualifies its columns.
pub proof fn law_an_alias_hides_the_name<F, E>(
    statement: MergeStatement<F, E>,
    target: BoundBaseTable,
    qualifier: Ident,
    column: Ident,
)
    requires
        qualifier@ == target.table_catalog.name@,
    ensures
        match statement.table_alias {
            Some(alias) => alias.name@ != qualifier@ ==> statement_scope(
                statement,
                target,
            ).reference(seq![qualifier, column]) is Err,
            None => statement_scope(statement, target).reference(seq![qualifier, column])
                == statement_scope(statement, target).reference(seq![column]),
        },
{
}

/// A list of columns is accepted just where every one of them is a column of the target and no
/// two of them are the same. They are then filled in the order of the list.
pub proof fn law_listed_columns_are_known_and_distinct(scope: TargetScope, columns: Seq<Ident>)
    ensures
        scope.listed(columns) is Ok <==> {
            &&& forall|i: int| 0 <= i < columns.len() ==> scope.column((#[trigger] columns[i])@) is Ok
            &&& forall|i: int, j: int|
                0 <= i < j < columns.len() ==> scope.column((#[trigger] columns[i])@)
                    != scope.column((#[trigger] columns[j])@)
        },
        scope.listed(columns) matches Ok(indices) ==> {
            &&& indices.len() == columns.len()
            &&& forall|i: int|
                #![trigger columns[i]]
                #![trigger indices[i]]
                0 <= i < columns.len() ==> scope.column(columns[i]@) == Ok::<usize, ErrorCodeView>(
                    indices[i],
                )
            &&& indices.no_duplicates()
        },
    decreases columns.len(),
{
    if columns.len() > 0 {
        let before = columns.drop_last();
        law_listed_columns_are_known_and_distinct(scope, before);
        assert forall|i: int| 0 <= i < before.len() implies #[trigger] columns[i] == before[i] by {}
        assert(columns.last() == columns[columns.len() - 1]);
        if let Ok(indices) = scope.listed(before) {
            if let Ok(index) = scope.column(columns.last()@) {
                if indices.contains(index) {
                    let i = choose|i: int| 0 <= i < indices.len() && indices[i] == index;
                    assert(scope.column(columns[i]@) == scope.column(columns[columns.len() - 1]@));
                } else {
                    assert forall|i: int| 0 <= i < before.len() implies scope.column(
                        (#[trigger] columns[i])@,
                    ) != scope.column(columns.last()@) by {
                        assert(indices.contains(indices[i]));
                        assert(scope.column(before[i]@) == Ok::<usize, ErrorCodeView>(indices[i]));
                    }
                }
            }
        } else {
            if forall|i: int|
                0 <= i < columns.len() ==> scope.column((#[trigger] columns[i])@) is Ok {
                assert forall|i: int| 0 <= i < before.len() implies scope.column(
                    (#[trigger] before[i])@,
                ) is Ok by {
                    assert(columns[i] == before[i]);
                }
                let (i, j) = choose|i: int, j: int|
                    0 <= i < j < before.len() && scope.column((#[trigger] before[i])@)
                        == scope.column((#[trigger] before[j])@);
                assert(scope.column(columns[i]@) == scope.column(columns[j]@));
            }
        }
    }
}

/// Without a list, an `INSERT` fills the columns that are not hidden, and fills them in the order
/// of the table.
pub proof fn law_an_unlisted_insert_fills_the_visible_columns(scope: TargetScope, count: nat)
    requires
        scope.fits(),
        count <= scope.columns.len(),
    ensures
        forall|i: int|
            0 <= i < count ==> (scope.visible(count).contains((scope.start + i) as usize)
                <==> !(#[trigger] scope.columns[i]).is_hidden),
        forall|i: int|
            0 <= i < scope.visible(count).len() ==> scope.start <= #[trigger] scope.visible(
                count,
            )[i] < scope.start + count,
        forall|i: int, j: int|
            0 <= i < j < scope.visible(count).len() ==> #[trigger] scope.visible(count)[i]
                < #[trigger] scope.visible(count)[j],
    decreases count,
{
    if count > 0 {
        let before = (count - 1) as nat;
        law_an_unlisted_insert_fills_the_visible_columns(scope, before);
        let last = (scope.start + before) as usize;
        let visible = scope.visible(before);
        if !scope.columns[count - 1].is_hidden {
            assert(scope.visible(count) == visible.push(last));
            assert(scope.visible(count)[visible.len() as int] == last);
            assert forall|i: int| 0 <= i < count implies (scope.visible(count).contains(
                (scope.start + i) as usize,
            ) <==> !(#[trigger] scope.columns[i]).is_hidden) by {
                let index = (scope.start + i) as usize;
                if visible.contains(index) {
                    let k = choose|k: int| 0 <= k < visible.len() && visible[k] == index;
                    assert(scope.visible(count)[k] == index);
                }
                if scope.visible(count).contains(index) && i < before {
                    let k = choose|k: int|
                        0 <= k < scope.visible(count).len() && scope.visible(count)[k] == index;
                    assert(k < visible.len());
                    assert(visible[k] == index);
                }
            }
        } else {
            assert(scope.visible(count) == visible);
            if visible.contains(last) {
                let k = choose|k: int| 0 <= k < visible.len() && visible[k] == last;
                assert(visible[k] < scope.start + before);
            }
        }
    }
}

/// Assignments whose plan has no error all have a known column and a value other than `DEFAULT`.
proof fn lemma_assignments_without_error<F, E>(
    scope: TargetScope,
    assignments: Seq<Assignment<E>>,
)
    requires
        assignments_plan::<F, E>(scope, assignments).error is None,
    ensures
        forall|i: int|
            0 <= i < assignments.len() ==> {
                &&& scope.reference((#[trigger] assignments[i]).id@) is Ok
                &&& assignments[i].value is Expr
            },
    decreases assignments.len(),
{
    if assignments.len() > 0 {
        let before = assignments.drop_last();
        lemma_assignments_without_error::<F, E>(scope, before);
        assert forall|i: int| 0 <= i < assignments.len() implies {
            &&& scope.reference((#[trigger] assignments[i]).id@) is Ok
            &&& assignments[i].value is Expr
        } by {
            if i < before.len() {
                assert(assignments[i] == before[i]);
            }
        }
    }
}

/// Where the plan of clauses has no error, that of none of them has.
proof fn lemma_clauses_without_error<F, E>(scope: TargetScope, clauses: Seq<MergeClause<E>>)
    requires
        clauses_plan::<F, E>(scope, clauses).error is None,
    ensures
        forall|i: int|
            0 <= i < clauses.len() ==> clause_plan::<F, E>(
                scope,
                #[trigger] clauses[i],
            ).error is None,
    decreases clauses.len(),
{
    if clauses.len() > 0 {
        let before = clauses.drop_last();
        lemma_clauses_without_error::<F, E>(scope, before);
        assert forall|i: int| 0 <= i < clauses.len() implies clause_plan::<F, E>(
            scope,
            #[trigger] clauses[i],
        ).error is None by {
            if i < before.len() {
                assert(clauses[i] == before[i]);
            }
        }
    }
}

/// The error of clauses is that of the first one that has an error: clauses behind it are not
/// looked at.
pub proof fn law_the_first_error_wins<F, E>(scope: TargetScope, clauses: Seq<MergeClause<E>>)
    ensures
        match clauses_plan::<F, E>(scope, clauses).error {
            Some(error) => exists|first: int|
                {
                    &&& 0 <= first < clauses.len()
                    &&& clause_plan::<F, E>(scope, #[trigger] clauses[first]).error == Some(error)
                    &&& forall|i: int|
                        0 <= i < first ==> clause_plan::<F, E>(
                            scope,
                            #[trigger] clauses[i],
                        ).error is None
                },
            None => forall|i: int|
                0 <= i < clauses.len() ==> clause_plan::<F, E>(
                    scope,
                    #[trigger] clauses[i],
                ).error is None,
        },
    decreases clauses.len(),
{
    if clauses_plan::<F, E>(scope, clauses).error is None {
        lemma_clauses_without_error::<F, E>(scope, clauses);
    } else {
        let before = clauses.drop_last();
        law_the_first_error_wins::<F, E>(scope, before);
        let first = if let Some(error) = clauses_plan::<F, E>(scope, before).error {
            choose|first: int|
                {
                    &&& 0 <= first < before.len()
                    &&& clause_plan::<F, E>(scope, #[trigger] before[first]).error == Some(error)
                    &&& forall|i: int|
                        0 <= i < first ==> clause_plan::<F, E>(
                            scope,
                            #[trigger] before[i],
                        ).error is None
                }
        } else {
            before.len() as int
        };
        assert(clause_plan::<F, E>(scope, clauses[first]).error == clauses_plan::<F, E>(
            scope,
            clauses,
        ).error);
        assert forall|i: int| 0 <= i < first implies clause_plan::<F, E>(
            scope,
            #[trigger] clauses[i],
        ).error is None by {
            assert(clauses[i] == before[i]);
        }
    }
}

/// A bound statement has the clauses of the parsed one, in their order: each applies to the same
/// rows, has a condition just where the parsed one has, and does the same kind of thing.
pub proof fn law_clauses_keep_their_order<F, E, S, X>(
    statement: MergeStatement<F, E>,
    replies: Seq<BindReply<S, X>>,
)
    requires
        progress(statement, replies) is Binds,
    ensures
        ({
            let bound = progress(statement, replies)->Binds_0.clauses;
            let parsed = statement.clauses@;
            &&& bound.len() == parsed.len()
            &&& forall|i: int|
                #![trigger bound[i]]
                #![trigger parsed[i]]
                0 <= i < parsed.len() ==> {
                    &&& bound[i].kind == bound_kind(parsed[i].kind)
                    &&& bound[i].condition is Some <==> parsed[i].condition is Some
                    &&& bound[i].action is Update <==> parsed[i].action is Update
                    &&& bound[i].action is Delete <==> parsed[i].action is Delete
                    &&& bound[i].action is Insert <==> parsed[i].action is Insert
                }
        }),
{
}

/// A bound statement identifies rows as its target does: by table, version and primary key. In
/// the scope of its expressions the columns of the target come first, and those of the source
/// follow without a gap.
pub proof fn law_identity_contract<F, E, S, X>(
    statement: MergeStatement<F, E>,
    replies: Seq<BindReply<S, X>>,
)
    requires
        conversation(statement, replies),
        progress(statement, replies) is Binds,
    ensures
        ({
            let merge = progress(statement, replies)->Binds_0;
            let identity = merge.row_identity;
            let catalog = merge.target.table_catalog;
            &&& replies[0]->Target_relation == TargetRelation::BaseTable(merge.target)
            &&& identity.candidate_target_range.start == 0
            &&& identity.candidate_target_range.end == replies[0]->Target_context_columns
            &&& identity.candidate_source_range.start == identity.candidate_target_range.end
            &&& identity.candidate_source_range.end == replies[1]->Source_context_columns
            &&& identity.source_identity.candidate_source_range == identity.candidate_source_range
            &&& identity.target_table_id == merge.target.table_id
            &&& catalog.version_id == Some(identity.target_table_version_id)
            &&& identity.target_pk_column_indices.len() == catalog.pk@.len()
            &&& forall|i: int|
                0 <= i < catalog.pk@.len() ==> (#[trigger] catalog.pk@[i]).column_index
                    == identity.target_pk_column_indices[i]
        }),
{
    assert(answers(replies[0], target_request(statement)));
}

/// The name of the column in a reference, without its qualifier.
pub open spec fn referenced_name(id: Seq<Ident>) -> Seq<char> {
    id.last()@
}

/// Every assignment of a bound `UPDATE` goes to the first column of the target that bears the name
/// written in the statement. Where the name was qualified, it was by the target's own qualifier.
/// None of the values was `DEFAULT`.
pub proof fn law_updates_go_to_columns_of_the_target<F, E, S, X>(
    statement: MergeStatement<F, E>,
    replies: Seq<BindReply<S, X>>,
    clause: int,
)
    requires
        progress(statement, replies) is Binds,
        0 <= clause < statement.clauses@.len(),
        statement.clauses@[clause].action is Update,
    ensures
        ({
            let merge = progress(statement, replies)->Binds_0;
            let columns = merge.target.table_catalog.columns@;
            let parsed = statement.clauses@[clause].action->assignments@;
            let bound = merge.clauses[clause].action->assignments;
            &&& bound.len() == parsed.len()
            &&& forall|i: int|
                #![trigger bound[i]]
                #![trigger parsed[i]]
                0 <= i < parsed.len() ==> {
                    &&& bound[i].target_table_column_index < columns.len()
                    &&& first_named(columns, referenced_name(parsed[i].id@)) == Some(
                        bound[i].target_table_column_index as int,
                    )
                    &&& parsed[i].id@.len() == 1 || parsed[i].id@.len() == 2
                    &&& parsed[i].id@.len() == 2 ==> parsed[i].id@[0]@ == statement_scope(
                        statement,
                        merge.target,
                    ).qualifier
                    &&& parsed[i].value is Expr
                }
        }),
{
    let merge = progress(statement, replies)->Binds_0;
    let columns = merge.target.table_catalog.columns;
    let scope = statement_scope(statement, merge.target);
    let parsed = statement.clauses@[clause].action->assignments@;
    let bound = merge.clauses[clause].action->assignments;
    lemma_clauses_without_error::<F, E>(scope, statement.clauses@);
    lemma_assignments_without_error::<F, E>(scope, parsed);
    assert(columns.len() == columns@.len());
    assert forall|i: int|
        #![trigger bound[i]]
        #![trigger parsed[i]]
        0 <= i < parsed.len() implies {
        &&& bound[i].target_table_column_index < columns@.len()
        &&& first_named(columns@, referenced_name(parsed[i].id@)) == Some(
            bound[i].target_table_column_index as int,
        )
        &&& parsed[i].id@.len() == 1 || parsed[i].id@.len() == 2
        &&& parsed[i].id@.len() == 2 ==> parsed[i].id@[0]@ == scope.qualifier
        &&& parsed[i].value is Expr
    } by {
        law_first_column_of_a_name(columns@, referenced_name(parsed[i].id@));
        assert(scope.reference(parsed[i].id@) is Ok);
        assert(bound[i].target_table_column_index == scope.reference(parsed[i].id@)->Ok_0);
    }
}

/// A bound `INSERT` has one value for each column that it fills. The columns belong to the target
/// and no two are the same. They are the ones listed in the statement or, where it lists none,
/// those that are not hidden, in the order of the table.
pub proof fn law_inserts_fill_columns_of_the_target<F, E, S, X>(
    statement: MergeStatement<F, E>,
    replies: Seq<BindReply<S, X>>,
    clause: int,
)
    requires
        progress(statement, replies) is Binds,
        0 <= clause < statement.clauses@.len(),
        statement.clauses@[clause].action is Insert,
    ensures
        ({
            let merge = progress(statement, replies)->Binds_0;
            let columns = merge.target.table_catalog.columns@;
            let listed = statement.clauses@[clause].action->columns@;
            let indices = merge.clauses[clause].action->target_table_column_indices;
            let values = merge.clauses[clause].action->Insert_values;
            &&& values.len() == indices.len()
            &&& values.len() == statement.clauses@[clause].action->values@.len()
            &&& indices.no_duplicates()
            &&& forall|i: int| 0 <= i < indices.len() ==> #[trigger] indices[i] < columns.len()
            &&& listed.len() > 0 ==> {
                &&& indices.len() == listed.len()
                &&& forall|i: int|
                    0 <= i < indices.len() ==> first_named(columns, listed[i]@) == Some(
                        #[trigger] indices[i] as int,
                    )
            }
            &&& listed.len() == 0 ==> {
                &&& forall|i: usize|
                    #![trigger indices.contains(i)]
                    indices.contains(i) <==> (i < columns.len() && !columns[i as int].is_hidden)
                &&& forall|i: int, j: int|
                    0 <= i < j < indices.len() ==> #[trigger] indices[i] < #[trigger] indices[j]
            }
        }),
{
    let merge = progress(statement, replies)->Binds_0;
    let columns = merge.target.table_catalog.columns;
    let scope = statement_scope(statement, merge.target);
    let parsed = statement.clauses@;
    let listed = parsed[clause].action->columns@;
    let indices = merge.clauses[clause].action->target_table_column_indices;
    let planned = planned_clauses(scope, parsed);
    assert(columns.len() == columns@.len());
    lemma_clauses_without_error::<F, E>(scope, parsed);
    lemma_statement_plan_requests(statement, merge.target);
    lemma_clauses_expr_count(planned, clause);
    lemma_clauses_expr_count(planned, clause + 1);
    assert(clause_plan::<F, E>(scope, parsed[clause]).error is None);
    assert(scope.insert_columns(listed) == Ok::<Seq<usize>, ErrorCodeView>(indices));
    if listed.len() == 0 {
        law_an_unlisted_insert_fills_the_visible_columns(scope, scope.columns.len());
        assert forall|i: usize| #![trigger indices.contains(i)] indices.contains(i) <==> (i
            < columns@.len() && !columns@[i as int].is_hidden) by {
            if i < columns@.len() {
                assert(scope.columns[i as int] == columns@[i as int]);
            }
        }
    } else {
        law_listed_columns_are_known_and_distinct(scope, listed);
        assert forall|i: int| 0 <= i < indices.len() implies #[trigger] indices[i] < columns@.len()
            && first_named(columns@, listed[i]@) == Some(indices[i] as int) by {
            law_first_column_of_a_name(columns@, listed[i]@);
        }
    }
}

/// The requests for the values that assignments have, `DEFAULT` being none.
pub open spec fn assignment_requests<F, E>(assignments: Seq<Assignment<E>>) -> Seq<
    BindRequest<F, E>,
>
    decreases assignments.len(),
{
    if assignments.len() == 0 {
        Seq::empty()
    } else {
        let before = assignment_requests(assignments.drop_last());
        match assignments.last().value {
            AssignmentValue::Expr(expr) => before.push(BindRequest::Expr { expr }),
            AssignmentValue::Default => before,
        }
    }
}

/// The requests for all expressions of a clause, in the order in which they are written.
pub open spec fn clause_requests<F, E>(clause: MergeClause<E>) -> Seq<BindRequest<F, E>> {
    condition_plan(clause.condition).requests + match clause.action {
        MergeAction::Update { assignments } => assignment_requests(assignments@),
        MergeAction::Delete => Seq::empty(),
        MergeAction::Insert { values, .. } => value_requests(values@),
    }
}

/// The requests for all expressions of clauses, in the order in which they are written.
pub open spec fn clauses_requests<F, E>(clauses: Seq<MergeClause<E>>) -> Seq<BindRequest<F, E>>
    decreases clauses.len(),
{
    if clauses.len() == 0 {
        Seq::empty()
    } else {
        clauses_requests(clauses.drop_last()) + clause_requests(clauses.last())
    }
}

/// The requests for the source and for all expressions of a statement, in the order in which they
/// are written.
pub open spec fn statement_requests<F, E>(statement: MergeStatement<F, E>) -> Seq<
    BindRequest<F, E>,
> {
    seq![
        BindRequest::TableFactor { source: statement.source },
        BindRequest::BoolExpr { expr: statement.on, clause: BoolClause::On },
    ] + clauses_requests(statement.clauses@)
}

/// A plan asks for the first of some requests, and for all of them where it has no error.
pub open spec fn asks_in_order<F, E>(plan: Plan<F, E>, requests: Seq<BindRequest<F, E>>) -> bool {
    &&& plan.requests.len() <= requests.len()
    &&& plan.requests =~= requests.take(plan.requests.len() as int)
    &&& plan.error is None ==> plan.requests =~= requests
}

/// Plans that ask in order still do when one follows the other.
proof fn lemma_asks_in_order_followed_by<F, E>(
    plan: Plan<F, E>,
    requests: Seq<BindRequest<F, E>>,
    next: Plan<F, E>,
    next_requests: Seq<BindRequest<F, E>>,
)
    requires
        asks_in_order(plan, requests),
        asks_in_order(next, next_requests),
    ensures
        asks_in_order(plan.followed_by(next), requests + next_requests),
{
    let both = plan.followed_by(next);
    assert(both.requests =~= (requests + next_requests).take(both.requests.len() as int));
}

proof fn lemma_assignments_ask_in_order<F, E>(scope: TargetScope, assignments: Seq<Assignment<E>>)
    ensures
        asks_in_order(assignments_plan::<F, E>(scope, assignments), assignment_requests(assignments)),
    decreases assignments.len(),
{
    if assignments.len() > 0 {
        let before = assignments.drop_last();
        lemma_assignments_ask_in_order::<F, E>(scope, before);
        let last: Seq<BindRequest<F, E>> = match assignments.last().value {
            AssignmentValue::Expr(expr) => seq![BindRequest::Expr { expr }],
            AssignmentValue::Default => Seq::empty(),
        };
        assert(assignment_requests::<F, E>(assignments) =~= assignment_requests::<F, E>(before)
            + last);
        lemma_asks_in_order_followed_by(
            assignments_plan::<F, E>(scope, before),
            assignment_requests(before),
            assignment_plan::<F, E>(scope, assignments.last()),
            last,
        );
    }
}

proof fn lemma_clause_asks_in_order<F, E>(scope: TargetScope, clause: MergeClause<E>)
    ensures
        asks_in_order(clause_plan::<F, E>(scope, clause), clause_requests(clause)),
{
    let condition = condition_plan::<F, E>(clause.condition);
    let action = action_plan::<F, E>(scope, clause.action);
    let requests: Seq<BindRequest<F, E>> = match clause.action {
        MergeAction::Update { assignments } => {
            lemma_assignments_ask_in_order::<F, E>(scope, assignments@);
            assignment_requests(assignments@)
        },
        MergeAction::Delete => Seq::empty(),
        MergeAction::Insert { values, .. } => value_requests(values@),
    };
    assert(asks_in_order(condition, condition.requests)) by {
        assert(condition.requests.take(condition.requests.len() as int) =~= condition.requests);
    }
    assert(asks_in_order(action, requests)) by {
        assert(action.requests =~= requests.take(action.requests.len() as int));
    }
    lemma_asks_in_order_followed_by(condition, condition.requests, action, requests);
}

proof fn lemma_clauses_ask_in_order<F, E>(scope: TargetScope, clauses: Seq<MergeClause<E>>)
    ensures
        asks_in_order(clauses_plan::<F, E>(scope, clauses), clauses_requests(clauses)),
    decreases clauses.len(),
{
    if clauses.len() > 0 {
        let before = clauses.drop_last();
        lemma_clauses_ask_in_order::<F, E>(scope, before);
        lemma_clause_asks_in_order::<F, E>(scope, clauses.last());
        lemma_asks_in_order_followed_by(
            clauses_plan::<F, E>(scope, before),
            clauses_requests(before),
            clause_plan::<F, E>(scope, clauses.last()),
            clause_requests(clauses.last()),
        );
    }
}

/// The source and the expressions of a statement are bound in the order in which they are
/// written, all of them where the statement has no error, and none behind an error.
pub proof fn law_requests_follow_the_statement<F, E>(
    statement: MergeStatement<F, E>,
    target: BoundBaseTable,
)
    ensures
        asks_in_order(statement_plan(statement, target), statement_requests(statement)),
{
    let first = Plan {
        requests: seq![
            BindRequest::TableFactor { source: statement.source },
            BindRequest::BoolExpr { expr: statement.on, clause: BoolClause::On },
        ],
        error: None,
    };
    assert(first.requests.take(2) =~= first.requests);
    let scope = statement_scope(statement, target);
    lemma_clauses_ask_in_order::<F, E>(scope, statement.clauses@);
    lemma_asks_in_order_followed_by(
        first,
        first.requests,
        clauses_plan::<F, E>(scope, statement.clauses@),
        clauses_requests(statement.clauses@),
    );
}

/// Binding asks for nothing after it has ended, and it ends after a number of answers that the
/// target settles: one for the target itself and one for each request of the plan.
pub proof fn law_binding_ends<F, E, S, X>(
    statement: MergeStatement<F, E>,
    target: BoundBaseTable,
    context_columns: usize,
    replies: Seq<BindReply<S, X>>,
)
    requires
        replies.len() > 0,
        replies[0] == (BindReply::<S, X>::Target {
            relation: TargetRelation::BaseTable(target),
            context_columns,
        }),
    ensures
        progress(statement, replies) is Asks <==> replies.len() <= statement_plan(
            statement,
            target,
        ).requests.len(),
        progress(statement, replies) is Asks ==> forall|count: int|
            0 <= count <= replies.len() ==> progress(statement, #[trigger] replies.take(count)) is Asks,
{
}

/// The expressions of an action, in order.
pub open spec fn action_exprs<X>(action: BoundMergeActionView<X>) -> Seq<X> {
    match action {
        BoundMergeActionView::Update { assignments } => assigned_exprs(assignments),
        BoundMergeActionView::Delete => Seq::empty(),
        BoundMergeActionView::Insert { values, .. } => values,
    }
}

/// The expressions of a clause, in order.
pub open spec fn clause_exprs<X>(clause: BoundMergeClauseView<X>) -> Seq<X> {
    match clause.condition {
        Some(condition) => seq![condition] + action_exprs(clause.action),
        None => action_exprs(clause.action),
    }
}

/// The expressions of clauses, in order.
pub open spec fn clauses_exprs<X>(clauses: Seq<BoundMergeClauseView<X>>) -> Seq<X>
    decreases clauses.len(),
{
    if clauses.len() == 0 {
        Seq::empty()
    } else {
        clauses_exprs(clauses.drop_last()) + clause_exprs(clauses.last())
    }
}

/// The expressions of a bound statement, in order.
pub open spec fn merge_exprs<S, X>(merge: BoundMergeView<S, X>) -> Seq<X> {
    seq![merge.on] + clauses_exprs(merge.clauses)
}

/// A clause takes just the expressions that it waits for.
proof fn lemma_bound_clause_exprs<X>(clause: PlannedClauseView, exprs: Seq<X>)
    requires
        clause_expr_count(clause) <= exprs.len(),
    ensures
        clause_exprs(bound_clause(clause, exprs)) == exprs.take(clause_expr_count(clause) as int),
{
    let first: int = if clause.has_condition {
        1
    } else {
        0
    };
    let rest = exprs.skip(first);
    let count = clause_expr_count(clause) - first;
    assert(exprs.skip(0) =~= exprs);
    assert(action_exprs(bound_action(clause.action, rest)) =~= rest.take(count));
    assert(clause_exprs(bound_clause(clause, exprs)) =~= exprs.take(
        clause_expr_count(clause) as int,
    ));
}

/// Clauses take just the expressions that they wait for.
proof fn lemma_bound_clauses_exprs<X>(clauses: Seq<PlannedClauseView>, exprs: Seq<X>)
    requires
        clauses_expr_count(clauses) <= exprs.len(),
    ensures
        clauses_exprs(bound_clauses(clauses, exprs)) == exprs.take(
            clauses_expr_count(clauses) as int,
        ),
    decreases clauses.len(),
{
    if clauses.len() > 0 {
        let before = clauses.drop_last();
        let taken = clauses_expr_count(before) as int;
        lemma_bound_clauses_exprs(before, exprs);
        lemma_bound_clause_exprs(clauses.last(), exprs.skip(taken));
        let bound = bound_clauses(clauses, exprs);
        assert(clauses.take(clauses.len() - 1) =~= before);
        assert forall|i: int| 0 <= i < before.len() implies #[trigger] bound[i] == bound_clauses(
            before,
            exprs,
        )[i] by {
            assert(clauses.take(i) =~= before.take(i));
        }
        assert(bound.drop_last() =~= bound_clauses(before, exprs));
        assert(exprs.take(taken) + exprs.skip(taken).take(clause_expr_count(clauses.last()) as int)
            =~= exprs.take(clauses_expr_count(clauses) as int));
    } else {
        assert(exprs.take(0) =~= Seq::empty());
    }
}

/// The expressions of a bound statement are those that the requests were answered with, each at
/// the place of its request: none is lost, repeated or moved.
pub proof fn law_every_answer_has_its_place<F, E, S, X>(
    statement: MergeStatement<F, E>,
    replies: Seq<BindReply<S, X>>,
)
    requires
        conversation(statement, replies),
        progress(statement, replies) is Binds,
    ensures
        merge_exprs(progress(statement, replies)->Binds_0) == reply_exprs(replies.skip(2)),
{
    let merge = progress(statement, replies)->Binds_0;
    let planned = planned_clauses(statement_scope(statement, merge.target), statement.clauses@);
    let exprs = reply_exprs(replies.skip(3));
    let last = replies.len() - 1;
    assert(progress(statement, replies.take(last)) is Asks) by {
        assert(answers(replies[last], progress(statement, replies.take(last))->Asks_0));
    }
    lemma_statement_plan_requests(statement, merge.target);
    lemma_bound_clauses_exprs(planned, exprs);
    assert(exprs.take(exprs.len() as int) =~= exprs);
    assert(merge_exprs(merge) =~= reply_exprs(replies.skip(2)));
}

/// What of an action rewriting leaves alone: what it does, and with which columns.
pub open spec fn same_action_shape<X>(
    action: BoundMergeActionView<X>,
    other: BoundMergeActionView<X>,
) -> bool {
    match (action, other) {
        (
            BoundMergeActionView::Update { assignments },
            BoundMergeActionView::Update { assignments: others },
        ) => assigned_columns(assignments) == assigned_columns(others),
        (BoundMergeActionView::Delete, BoundMergeActionView::Delete) => true,
        (
            BoundMergeActionView::Insert { target_table_column_indices, values },
            BoundMergeActionView::Insert {
                target_table_column_indices: other_indices,
                values: other_values,
            },
        ) => target_table_column_indices == other_indices && values.len() == other_values.len(),
        _ => false,
    }
}

/// Rewriting the expressions of a bound statement changes expressions only. Its target, its row
/// identity, the order of its clauses, the rows that they apply to and the columns that they
/// assign to stay what they were.
pub proof fn law_rewriting_keeps_the_shape<S, X, W>(
    merge: BoundMerge<S, X>,
    before: W,
    result: BoundMerge<S, X>,
    after: W,
) where S: RewriteExprsRecursive<X, W>, X: Default, W: ExprRewriter<X>
    requires
        BoundMerge::rewritten(merge, before, result, after),
    ensures
        result@.target == merge@.target,
        result@.row_identity == merge@.row_identity,
        result@.clauses.len() == merge@.clauses.len(),
        forall|i: int|
            #![trigger merge@.clauses[i]]
            #![trigger result@.clauses[i]]
            0 <= i < merge@.clauses.len() ==> {
                &&& result@.clauses[i].kind == merge@.clauses[i].kind
                &&& result@.clauses[i].condition is Some <==> merge@.clauses[i].condition is Some
                &&& same_action_shape(merge@.clauses[i].action, result@.clauses[i].action)
            },
{
    assert forall|i: int| 0 <= i < merge.clauses@.len() implies {
        &&& (#[trigger] result.clauses@[i]).kind == merge.clauses@[i].kind
        &&& result.clauses@[i].condition is Some <==> merge.clauses@[i].condition is Some
        &&& same_action_shape(merge.clauses@[i].action@, result.clauses@[i].action@)
    } by {}
}

/// A rewriter that hands back every expression as it got it.
pub open spec fn leaves_expressions_alone<X, W: ExprRewriter<X>>() -> bool {
    forall|before: W, expr: X, after: W, result: X| #[trigger]
        W::rewrites(before, expr, after, result) ==> result == expr
}

proof fn lemma_list_left_alone<X, W: ExprRewriter<X>>(
    exprs: Seq<X>,
    before: W,
    results: Seq<X>,
    after: W,
)
    requires
        leaves_expressions_alone::<X, W>(),
        rewritten_list(exprs, before, results, after),
    ensures
        results == exprs,
{
    assert(results =~= exprs);
}

proof fn lemma_action_left_alone<X: Default, W: ExprRewriter<X>>(
    action: BoundMergeAction<X>,
    before: W,
    result: BoundMergeAction<X>,
    after: W,
)
    requires
        leaves_expressions_alone::<X, W>(),
        BoundMergeAction::rewritten(action, before, result, after),
    ensures
        result@ == action@,
{
    match (action, result) {
        (
            BoundMergeAction::Update { assignments },
            BoundMergeAction::Update { assignments: results },
        ) => {
            lemma_list_left_alone(
                assigned_exprs(assignments@),
                before,
                assigned_exprs(results@),
                after,
            );
            assert forall|i: int| 0 <= i < assignments@.len() implies #[trigger] results@[i]
                == assignments@[i] by {
                assert(assigned_exprs(results@)[i] == assigned_exprs(assignments@)[i]);
                assert(assigned_columns(results@)[i] == assigned_columns(assignments@)[i]);
            }
            assert(results@ =~= assignments@);
        },
        (
            BoundMergeAction::Insert { values, .. },
            BoundMergeAction::Insert { values: results, .. },
        ) => {
            lemma_list_left_alone(values@, before, results@, after);
        },
        _ => {},
    }
}

/// Rewriting that leaves the source and every expression alone leaves the statement as it was.
pub proof fn law_rewriting_nothing_changes_nothing<S, X, W>(
    merge: BoundMerge<S, X>,
    before: W,
    result: BoundMerge<S, X>,
    after: W,
) where S: RewriteExprsRecursive<X, W>, X: Default, W: ExprRewriter<X>
    requires
        BoundMerge::rewritten(merge, before, result, after),
        leaves_expressions_alone::<X, W>(),
        result.source == merge.source,
    ensures
        result@ == merge@,
{
    let (after_source, after_on) = choose|after_source: W, after_on: W|
        {
            &&& #[trigger] S::rewritten(merge.source, before, result.source, after_source)
            &&& #[trigger] W::rewrites(after_source, merge.on, after_on, result.on)
            &&& rewritten_clauses(merge.clauses@, after_on, result.clauses@, after)
        };
    let states = choose|states: Seq<W>| #[trigger]
        clauses_rewritten_along(merge.clauses@, result.clauses@, states) && states.first()
            == after_on && states.last() == after;
    assert forall|i: int| 0 <= i < merge.clauses@.len() implies (#[trigger] result.clauses@[i])@
        == merge.clauses@[i]@ by {
        let clause = merge.clauses@[i];
        let changed = result.clauses@[i];
        assert(BoundMergeClause::rewritten(clause, states[i], changed, states[i + 1]));
        if let Some(condition) = clause.condition {
            let between = choose|between: W|
                {
                    &&& #[trigger] W::rewrites(states[i], condition, between, changed.condition->0)
                    &&& BoundMergeAction::rewritten(
                        clause.action,
                        between,
                        changed.action,
                        states[i + 1],
                    )
                };
            lemma_action_left_alone(clause.action, between, changed.action, states[i + 1]);
        } else {
            lemma_action_left_alone(clause.action, states[i], changed.action, states[i + 1]);
        }
    }
    assert(result@.clauses =~= merge@.clauses);
}

} // verus!
