//! Laws of the mathematical values that stand for bound and planned statements.
use vstd::prelude::*;

use crate::merge::{
    clause_views, BoundMerge, BoundMergeAction, BoundMergeActionView, BoundMergeClause,
    BoundMergeRowIdentity,
};
use crate::plan::{planned_views, PlannedAction, PlannedActionView, PlannedClause};

verus! {

/// A bound action is shown as it is, columns and expressions at their places.
pub proof fn law_a_bound_action_is_shown_as_it_is<X>(action: BoundMergeAction<X>)
    ensures
        match (action, action@) {
            (
                BoundMergeAction::Update { assignments },
                BoundMergeActionView::Update { assignments: shown },
            ) => {
                &&& shown.len() == assignments@.len()
                &&& forall|i: int| 0 <= i < shown.len() ==> #[trigger] shown[i] == assignments@[i]
            },
            (BoundMergeAction::Delete, BoundMergeActionView::Delete) => true,
            (
                BoundMergeAction::Insert { target_table_column_indices, values },
                BoundMergeActionView::Insert {
                    target_table_column_indices: shown_indices,
                    values: shown_values,
                },
            ) => {
                &&& shown_indices.len() == target_table_column_indices@.len()
                &&& forall|i: int|
                    0 <= i < shown_indices.len() ==> #[trigger] shown_indices[i]
                        == target_table_column_indices@[i]
                &&& shown_values.len() == values@.len()
                &&& forall|i: int|
                    0 <= i < shown_values.len() ==> #[trigger] shown_values[i] == values@[i]
            },
            _ => false,
        },
{
}

/// A bound clause is shown as it is.
pub proof fn law_a_bound_clause_is_shown_as_it_is<X>(clause: BoundMergeClause<X>)
    ensures
        clause@.kind == clause.kind,
        clause@.condition == clause.condition,
        clause@.action == clause.action@,
{
}

/// A row identity is shown as it is.
pub proof fn law_a_row_identity_is_shown_as_it_is(identity: BoundMergeRowIdentity)
    ensures
        identity@.candidate_target_range.start == identity.candidate_target_range.start,
        identity@.candidate_target_range.end == identity.candidate_target_range.end,
        identity@.candidate_source_range.start == identity.candidate_source_range.start,
        identity@.candidate_source_range.end == identity.candidate_source_range.end,
        identity@.target_table_id == identity.target_table_id,
        identity@.target_table_version_id == identity.target_table_version_id,
        identity@.target_pk_column_indices == identity.target_pk_column_indices@,
        identity@.source_identity.candidate_source_range
            == identity.source_identity.candidate_source_range,
{
}

/// A bound statement is shown as it is, its clauses at their places.
pub proof fn law_a_bound_statement_is_shown_as_it_is<S, X>(merge: BoundMerge<S, X>)
    ensures
        merge@.target == merge.target,
        merge@.source == merge.source,
        merge@.on == merge.on,
        merge@.row_identity == merge.row_identity@,
        merge@.clauses.len() == merge.clauses@.len(),
        forall|i: int|
            #![trigger merge@.clauses[i]]
            #![trigger merge.clauses@[i]]
            0 <= i < merge.clauses@.len() ==> merge@.clauses[i] == merge.clauses@[i]@,
{
}

/// Bound clauses are shown at their places.
pub proof fn law_bound_clauses_are_shown_at_their_places<X>(clauses: Seq<BoundMergeClause<X>>)
    ensures
        clause_views(clauses).len() == clauses.len(),
        forall|i: int|
            0 <= i < clauses.len() ==> #[trigger] clause_views(clauses)[i] == clauses[i]@,
{
}

/// A planned action is shown as it is, its columns at their places.
pub proof fn law_a_planned_action_is_shown_as_it_is(action: PlannedAction)
    ensures
        match (action, action@) {
            (
                PlannedAction::Update { target_table_column_indices },
                PlannedActionView::Update { target_table_column_indices: shown },
            ) => shown == target_table_column_indices@,
            (PlannedAction::Delete, PlannedActionView::Delete) => true,
            (
                PlannedAction::Insert { target_table_column_indices },
                PlannedActionView::Insert { target_table_column_indices: shown },
            ) => shown == target_table_column_indices@,
            _ => false,
        },
{
}

/// Planned clauses are shown as they are, at their places.
pub proof fn law_planned_clauses_are_shown_at_their_places(clauses: Seq<PlannedClause>)
    ensures
        planned_views(clauses).len() == clauses.len(),
        forall|i: int|
            #![trigger planned_views(clauses)[i]]
            0 <= i < clauses.len() ==> {
                &&& planned_views(clauses)[i].kind == clauses[i].kind
                &&& planned_views(clauses)[i].has_condition == clauses[i].has_condition
                &&& planned_views(clauses)[i].action == clauses[i].action@
            },
{
}

} // verus!
