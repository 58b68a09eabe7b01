//! Rewriting of the expressions in a bound `MERGE`.
//!
//! An expression is handed to the rewriter by value. While the rewriter has it, the default
//! expression stands in its place.
use vstd::prelude::*;

use crate::merge::{BoundMerge, BoundMergeAction, BoundMergeAssignment, BoundMergeClause};

verus! {

/// A transformation of bound expressions, which may keep a state of its own.
pub trait ExprRewriter<X>: Sized {
    /// What one call may do: from the state `before` and the expression `expr` it comes to the
    /// state `after` and the expression `result`. That is anything, unless the rewriter says more.
    open spec fn rewrites(before: Self, expr: X, after: Self, result: X) -> bool {
        true
    }

    fn rewrite_expr(&mut self, expr: X) -> (result: X)
        ensures
            Self::rewrites(*old(self), expr, *final(self), result),
    ;
}

/// A value with bound expressions in it, all of which can be rewritten in place.
pub trait RewriteExprsRecursive<X, W: ExprRewriter<X>>: Sized {
    /// What rewriting all expressions of the value may do to it and to the rewriter. That is
    /// anything, unless the value says more.
    open spec fn rewritten(value: Self, before: W, result: Self, after: W) -> bool {
        true
    }

    fn rewrite_exprs_recursive(&mut self, rewriter: &mut W)
        ensures
            Self::rewritten(*old(self), *old(rewriter), *final(self), *final(rewriter)),
    ;
}

/// One expression after another is rewritten: `states` are the states of the rewriter, from the
/// one before the first expression to the one after the last.
pub open spec fn rewritten_along<X, W: ExprRewriter<X>>(
    exprs: Seq<X>,
    results: Seq<X>,
    states: Seq<W>,
) -> bool {
    &&& results.len() == exprs.len()
    &&& states.len() == exprs.len() + 1
    &&& forall|i: int|
        #![trigger exprs[i]]
        #![trigger results[i]]
        0 <= i < exprs.len() ==> W::rewrites(states[i], exprs[i], states[i + 1], results[i])
}

/// Every expression of a list is rewritten, in order.
pub open spec fn rewritten_list<X, W: ExprRewriter<X>>(
    exprs: Seq<X>,
    before: W,
    results: Seq<X>,
    after: W,
) -> bool {
    exists|states: Seq<W>| #[trigger]
        rewritten_along(exprs, results, states) && states.first() == before && states.last()
            == after
}

/// The expressions that a list of assignments assigns.
pub open spec fn assigned_exprs<X>(assignments: Seq<BoundMergeAssignment<X>>) -> Seq<X> {
    assignments.map_values(|assignment: BoundMergeAssignment<X>| assignment.expr)
}

/// The columns that a list of assignments assigns to.
pub open spec fn assigned_columns<X>(assignments: Seq<BoundMergeAssignment<X>>) -> Seq<usize> {
    assignments.map_values(
        |assignment: BoundMergeAssignment<X>| assignment.target_table_column_index,
    )
}

impl<X: Default, W: ExprRewriter<X>> RewriteExprsRecursive<X, W> for BoundMergeAction<X> {
    open spec fn rewritten(value: Self, before: W, result: Self, after: W) -> bool {
        match (value, result) {
            (
                BoundMergeAction::Update { assignments: old_assignments },
                BoundMergeAction::Update { assignments },
            ) => {
                &&& assigned_columns(assignments@) == assigned_columns(old_assignments@)
                &&& rewritten_list(
                    assigned_exprs(old_assignments@),
                    before,
                    assigned_exprs(assignments@),
                    after,
                )
            },
            (BoundMergeAction::Delete, BoundMergeAction::Delete) => after == before,
            (
                BoundMergeAction::Insert {
                    target_table_column_indices: old_indices,
                    values: old_values,
                },
                BoundMergeAction::Insert { target_table_column_indices, values },
            ) => {
                &&& target_table_column_indices == old_indices
                &&& rewritten_list(old_values@, before, values@, after)
            },
            _ => false,
        }
    }

    fn rewrite_exprs_recursive(&mut self, rewriter: &mut W) {
        match self {
            BoundMergeAction::Update { assignments } => {
                rewrite_assignments(assignments, rewriter);
            },
            BoundMergeAction::Delete => {},
            BoundMergeAction::Insert { values, .. } => {
                rewrite_values(values, rewriter);
            },
        }
    }
}

impl<X: Default, W: ExprRewriter<X>> RewriteExprsRecursive<X, W> for BoundMergeClause<X> {
    open spec fn rewritten(value: Self, before: W, result: Self, after: W) -> bool {
        &&& result.kind == value.kind
        &&& match (value.condition, result.condition) {
            (Some(old_condition), Some(condition)) => exists|between: W|
                {
                    &&& #[trigger] W::rewrites(before, old_condition, between, condition)
                    &&& BoundMergeAction::rewritten(value.action, between, result.action, after)
                },
            (None, None) => BoundMergeAction::rewritten(value.action, before, result.action, after),
            _ => false,
        }
    }

    fn rewrite_exprs_recursive(&mut self, rewriter: &mut W) {
        self.condition = match self.condition.take() {
            Some(condition) => Some(rewriter.rewrite_expr(condition)),
            None => None,
        };
        let ghost between = *rewriter;
        self.action.rewrite_exprs_recursive(rewriter);
        assert(old(self).condition is Some ==> W::rewrites(
            *old(rewriter),
            old(self).condition->0,
            between,
            self.condition->0,
        ));
    }
}

/// One clause after another is rewritten: `states` are the states of the rewriter, from the one
/// before the first clause to the one after the last.
pub open spec fn clauses_rewritten_along<X: Default, W: ExprRewriter<X>>(
    clauses: Seq<BoundMergeClause<X>>,
    results: Seq<BoundMergeClause<X>>,
    states: Seq<W>,
) -> bool {
    &&& results.len() == clauses.len()
    &&& states.len() == clauses.len() + 1
    &&& forall|i: int|
        #![trigger clauses[i]]
        #![trigger results[i]]
        0 <= i < clauses.len() ==> BoundMergeClause::rewritten(
            clauses[i],
            states[i],
            results[i],
            states[i + 1],
        )
}

/// Every clause of a list is rewritten, in order.
pub open spec fn rewritten_clauses<X: Default, W: ExprRewriter<X>>(
    clauses: Seq<BoundMergeClause<X>>,
    before: W,
    results: Seq<BoundMergeClause<X>>,
    after: W,
) -> bool {
    exists|states: Seq<W>| #[trigger]
        clauses_rewritten_along(clauses, results, states) && states.first() == before
            && states.last() == after
}

impl<S, X, W> RewriteExprsRecursive<X, W> for BoundMerge<S, X> where
    S: RewriteExprsRecursive<X, W>,
    X: Default,
    W: ExprRewriter<X>,
 {
    open spec fn rewritten(value: Self, before: W, result: Self, after: W) -> bool {
        &&& result.target == value.target
        &&& result.row_identity == value.row_identity
        &&& exists|after_source: W, after_on: W|
            {
                &&& #[trigger] S::rewritten(value.source, before, result.source, after_source)
                &&& #[trigger] W::rewrites(after_source, value.on, after_on, result.on)
                &&& rewritten_clauses(value.clauses@, after_on, result.clauses@, after)
            }
    }

    fn rewrite_exprs_recursive(&mut self, rewriter: &mut W) {
        self.source.rewrite_exprs_recursive(rewriter);
        let ghost after_source = *rewriter;
        let mut on: X = X::default();
        std::mem::swap(&mut on, &mut self.on);
        self.on = rewriter.rewrite_expr(on);
        let ghost old_clauses = self.clauses@;
        let ghost after_on = *rewriter;
        let ghost mut states: Seq<W> = seq![*rewriter];
        let count: usize = self.clauses.len();
        for i in 0..count
            invariant
                self.target == old(self).target,
                self.row_identity == old(self).row_identity,
                S::rewritten(old(self).source, *old(rewriter), self.source, after_source),
                W::rewrites(after_source, old(self).on, after_on, self.on),
                self.clauses@.len() == count,
                old_clauses.len() == count,
                states.len() == i + 1,
                states.last() == *rewriter,
                states.first() == after_on,
                forall|j: int| i <= j < count ==> self.clauses@[j] == old_clauses[j],
                forall|j: int|
                    #![trigger old_clauses[j]]
                    #![trigger self.clauses@[j]]
                    0 <= j < i ==> BoundMergeClause::rewritten(
                        old_clauses[j],
                        states[j],
                        self.clauses@[j],
                        states[j + 1],
                    ),
        {
            self.clauses[i].rewrite_exprs_recursive(rewriter);
            proof {
                states = states.push(*rewriter);
            }
        }
        proof {
            assert(clauses_rewritten_along(old_clauses, self.clauses@, states));
        }
    }
}

/// Rewrites every value of an `INSERT`.
fn rewrite_values<X: Default, W: ExprRewriter<X>>(values: &mut Vec<X>, rewriter: &mut W)
    ensures
        rewritten_list(old(values)@, *old(rewriter), final(values)@, *final(rewriter)),
{
    let ghost old_values = values@;
    let ghost mut states: Seq<W> = seq![*rewriter];
    let count: usize = values.len();
    for i in 0..count
        invariant
            values@.len() == count,
            old_values.len() == count,
            states.len() == i + 1,
            states.last() == *rewriter,
            states.first() == *old(rewriter),
            forall|j: int| i <= j < count ==> values@[j] == old_values[j],
            forall|j: int|
                #![trigger old_values[j]]
                #![trigger values@[j]]
                0 <= j < i ==> W::rewrites(states[j], old_values[j], states[j + 1], values@[j]),
    {
        let mut expr: X = X::default();
        std::mem::swap(&mut expr, &mut values[i]);
        values[i] = rewriter.rewrite_expr(expr);
        proof {
            states = states.push(*rewriter);
        }
    }
    proof {
        assert(rewritten_along(old_values, values@, states));
    }
}

/// Rewrites every value that an `UPDATE` assigns.
fn rewrite_assignments<X: Default, W: ExprRewriter<X>>(
    assignments: &mut Vec<BoundMergeAssignment<X>>,
    rewriter: &mut W,
)
    ensures
        assigned_columns(final(assignments)@) == assigned_columns(old(assignments)@),
        rewritten_list(
            assigned_exprs(old(assignments)@),
            *old(rewriter),
            assigned_exprs(final(assignments)@),
            *final(rewriter),
        ),
{
    let ghost old_assignments = assignments@;
    let ghost mut states: Seq<W> = seq![*rewriter];
    let count: usize = assignments.len();
    for i in 0..count
        invariant
            assignments@.len() == count,
            old_assignments.len() == count,
            states.len() == i + 1,
            states.last() == *rewriter,
            states.first() == *old(rewriter),
            forall|j: int| i <= j < count ==> assignments@[j] == old_assignments[j],
            forall|j: int|
                #![trigger old_assignments[j]]
                #![trigger assignments@[j]]
                0 <= j < i ==> {
                    &&& assignments@[j].target_table_column_index
                        == old_assignments[j].target_table_column_index
                    &&& W::rewrites(
                        states[j],
                        old_assignments[j].expr,
                        states[j + 1],
                        assignments@[j].expr,
                    )
                },
    {
        let mut expr: X = X::default();
        std::mem::swap(&mut expr, &mut assignments[i].expr);
        assignments[i].expr = rewriter.rewrite_expr(expr);
        proof {
            states = states.push(*rewriter);
        }
    }
    proof {
        assert(assigned_columns(assignments@) =~= assigned_columns(old_assignments));
        assert(rewritten_along(
            assigned_exprs(old_assignments),
            assigned_exprs(assignments@),
            states,
        ));
    }
}

} // verus!
