//! Laws of rewriting the expressions of a bound statement.
use vstd::prelude::*;

use crate::laws::{action_exprs, clause_exprs, clauses_exprs, merge_exprs};
use crate::merge::{clause_views, BoundMerge, BoundMergeAction, BoundMergeClause};
use crate::rewrite::{
    assigned_columns, assigned_exprs, clauses_rewritten_along, rewritten_along, rewritten_clauses,
    rewritten_list, ExprRewriter, RewriteExprsRecursive,
};

verus! {

/// A rewriter that gives `f(expr)` for every expression.
pub open spec fn applies<X, W: ExprRewriter<X>>(f: spec_fn(X) -> X) -> bool {
    forall|before: W, expr: X, after: W, result: X| #[trigger]
        W::rewrites(before, expr, after, result) ==> result == f(expr)
}

/// Every expression of an action becomes what the rewriter makes of it, at its place and for its
/// column.
pub proof fn law_every_expression_of_an_action_is_rewritten<X: Default, W: ExprRewriter<X>>(
    action: BoundMergeAction<X>,
    before: W,
    result: BoundMergeAction<X>,
    after: W,
    f: spec_fn(X) -> X,
)
    requires
        applies::<X, W>(f),
        BoundMergeAction::rewritten(action, before, result, after),
    ensures
        match (action, result) {
            (
                BoundMergeAction::Update { assignments },
                BoundMergeAction::Update { assignments: results },
            ) => {
                &&& results@.len() == assignments@.len()
                &&& forall|j: int|
                    #![trigger results@[j]]
                    #![trigger assignments@[j]]
                    0 <= j < assignments@.len() ==> {
                        &&& results@[j].target_table_column_index
                            == assignments@[j].target_table_column_index
                        &&& results@[j].expr == f(assignments@[j].expr)
                    }
            },
            (BoundMergeAction::Delete, BoundMergeAction::Delete) => true,
            (
                BoundMergeAction::Insert { target_table_column_indices, values },
                BoundMergeAction::Insert {
                    target_table_column_indices: result_indices,
                    values: results,
                },
            ) => {
                &&& result_indices@ == target_table_column_indices@
                &&& results@.len() == values@.len()
                &&& forall|j: int|
                    #![trigger results@[j]]
                    #![trigger values@[j]]
                    0 <= j < values@.len() ==> results@[j] == f(values@[j])
            },
            _ => false,
        },
{
    match (action, result) {
        (
            BoundMergeAction::Update { assignments },
            BoundMergeAction::Update { assignments: results },
        ) => {
            assert(assigned_columns(results@).len() == assigned_columns(assignments@).len());
            assert forall|j: int|
                #![trigger results@[j]]
                #![trigger assignments@[j]]
                0 <= j < assignments@.len() implies {
                &&& results@[j].target_table_column_index
                    == assignments@[j].target_table_column_index
                &&& results@[j].expr == f(assignments@[j].expr)
            } by {
                assert(assigned_columns(results@)[j] == assigned_columns(assignments@)[j]);
                assert(assigned_exprs(results@)[j] == f(assigned_exprs(assignments@)[j]));
            }
        },
        _ => {},
    }
}

/// Every expression of a clause becomes what the rewriter makes of it: its condition, whatever its
/// action, and the expressions of its action.
pub proof fn law_every_expression_of_a_clause_is_rewritten<X: Default, W: ExprRewriter<X>>(
    clause: BoundMergeClause<X>,
    before: W,
    result: BoundMergeClause<X>,
    after: W,
    f: spec_fn(X) -> X,
)
    requires
        applies::<X, W>(f),
        BoundMergeClause::rewritten(clause, before, result, after),
    ensures
        result.kind == clause.kind,
        result.condition == match clause.condition {
            Some(condition) => Some(f(condition)),
            None => None,
        },
        match (clause.action, result.action) {
            (
                BoundMergeAction::Update { assignments },
                BoundMergeAction::Update { assignments: results },
            ) => {
                &&& results@.len() == assignments@.len()
                &&& forall|j: int|
                    #![trigger results@[j]]
                    #![trigger assignments@[j]]
                    0 <= j < assignments@.len() ==> {
                        &&& results@[j].target_table_column_index
                            == assignments@[j].target_table_column_index
                        &&& results@[j].expr == f(assignments@[j].expr)
                    }
            },
            (BoundMergeAction::Delete, BoundMergeAction::Delete) => true,
            (
                BoundMergeAction::Insert { target_table_column_indices, values },
                BoundMergeAction::Insert {
                    target_table_column_indices: result_indices,
                    values: results,
                },
            ) => {
                &&& result_indices@ == target_table_column_indices@
                &&& results@.len() == values@.len()
                &&& forall|j: int|
                    #![trigger results@[j]]
                    #![trigger values@[j]]
                    0 <= j < values@.len() ==> results@[j] == f(values@[j])
            },
            _ => false,
        },
{
    let between = lemma_condition_rewritten(clause, before, result, after);
    law_every_expression_of_an_action_is_rewritten(clause.action, between, result.action, after, f);
}

/// The state of the rewriter between the condition of a clause and its action.
proof fn lemma_condition_rewritten<X: Default, W: ExprRewriter<X>>(
    clause: BoundMergeClause<X>,
    before: W,
    result: BoundMergeClause<X>,
    after: W,
) -> (between: W)
    requires
        BoundMergeClause::rewritten(clause, before, result, after),
    ensures
        BoundMergeAction::rewritten(clause.action, between, result.action, after),
        match (clause.condition, result.condition) {
            (Some(condition), Some(changed)) => W::rewrites(before, condition, between, changed),
            (None, None) => between == before,
            _ => false,
        },
{
    if let Some(condition) = clause.condition {
        choose|between: W|
            {
                &&& #[trigger] W::rewrites(before, condition, between, result.condition->0)
                &&& BoundMergeAction::rewritten(clause.action, between, result.action, after)
            }
    } else {
        before
    }
}

/// Every expression of a bound statement becomes what the rewriter makes of it: the `ON`
/// condition and, in every clause, the condition and the assigned or inserted values, each at its
/// place. Taken in order, the expressions of the result are those of the statement mapped.
pub proof fn law_every_expression_of_a_statement_is_rewritten<S, X, W>(
    merge: BoundMerge<S, X>,
    before: W,
    result: BoundMerge<S, X>,
    after: W,
    f: spec_fn(X) -> X,
) where S: RewriteExprsRecursive<X, W>, X: Default, W: ExprRewriter<X>
    requires
        applies::<X, W>(f),
        BoundMerge::rewritten(merge, before, result, after),
    ensures
        result.target == merge.target,
        result.row_identity == merge.row_identity,
        result.on == f(merge.on),
        result.clauses@.len() == merge.clauses@.len(),
        forall|i: int|
            #![trigger result.clauses@[i]]
            #![trigger merge.clauses@[i]]
            0 <= i < merge.clauses@.len() ==> {
                let clause = merge.clauses@[i];
                let changed = result.clauses@[i];
                &&& changed.kind == clause.kind
                &&& changed.condition == match clause.condition {
                    Some(condition) => Some(f(condition)),
                    None => None,
                }
                &&& match (clause.action, changed.action) {
                    (
                        BoundMergeAction::Update { assignments },
                        BoundMergeAction::Update { assignments: results },
                    ) => {
                        &&& results@.len() == assignments@.len()
                        &&& forall|j: int|
                            #![trigger results@[j]]
                            #![trigger assignments@[j]]
                            0 <= j < assignments@.len() ==> {
                                &&& results@[j].target_table_column_index
                                    == assignments@[j].target_table_column_index
                                &&& results@[j].expr == f(assignments@[j].expr)
                            }
                    },
                    (BoundMergeAction::Delete, BoundMergeAction::Delete) => true,
                    (
                        BoundMergeAction::Insert { target_table_column_indices, values },
                        BoundMergeAction::Insert {
                            target_table_column_indices: result_indices,
                            values: results,
                        },
                    ) => {
                        &&& result_indices@ == target_table_column_indices@
                        &&& results@.len() == values@.len()
                        &&& forall|j: int|
                            #![trigger results@[j]]
                            #![trigger values@[j]]
                            0 <= j < values@.len() ==> results@[j] == f(values@[j])
                    },
                    _ => false,
                }
            },
        merge_exprs(result@) == merge_exprs(merge@).map_values(f),
{
    let (_, states) = law_every_expression_is_handed_over_in_order(merge, before, result, after);
    assert(merge_exprs(result@) =~= merge_exprs(merge@).map_values(f)) by {
        assert forall|k: int| 0 <= k < merge_exprs(merge@).len() implies #[trigger] merge_exprs(
            result@,
        )[k] == f(merge_exprs(merge@)[k]) by {
            assert(W::rewrites(
                states[k],
                merge_exprs(merge@)[k],
                states[k + 1],
                merge_exprs(result@)[k],
            ));
        }
    }
    assert(merge_exprs(merge@)[0] == merge.on);
    assert(merge_exprs(result@)[0] == result.on);
    let (_, _, clause_states) = lemma_merge_states(merge, before, result, after);
    assert forall|i: int|
        #![trigger result.clauses@[i]]
        #![trigger merge.clauses@[i]]
        0 <= i < merge.clauses@.len() implies {
        let clause = merge.clauses@[i];
        let changed = result.clauses@[i];
        &&& changed.kind == clause.kind
        &&& changed.condition == match clause.condition {
            Some(condition) => Some(f(condition)),
            None => None,
        }
        &&& match (clause.action, changed.action) {
            (
                BoundMergeAction::Update { assignments },
                BoundMergeAction::Update { assignments: results },
            ) => {
                &&& results@.len() == assignments@.len()
                &&& forall|j: int|
                    #![trigger results@[j]]
                    #![trigger assignments@[j]]
                    0 <= j < assignments@.len() ==> {
                        &&& results@[j].target_table_column_index
                            == assignments@[j].target_table_column_index
                        &&& results@[j].expr == f(assignments@[j].expr)
                    }
            },
            (BoundMergeAction::Delete, BoundMergeAction::Delete) => true,
            (
                BoundMergeAction::Insert { target_table_column_indices, values },
                BoundMergeAction::Insert {
                    target_table_column_indices: result_indices,
                    values: results,
                },
            ) => {
                &&& result_indices@ == target_table_column_indices@
                &&& results@.len() == values@.len()
                &&& forall|j: int|
                    #![trigger results@[j]]
                    #![trigger values@[j]]
                    0 <= j < values@.len() ==> results@[j] == f(values@[j])
            },
            _ => false,
        }
    } by {
        law_every_expression_of_a_clause_is_rewritten(
            merge.clauses@[i],
            clause_states[i],
            result.clauses@[i],
            clause_states[i + 1],
            f,
        );
    }
}

/// Expressions are handed to the rewriter one after another: call number `k` takes the rewriter
/// from `states[k]` to `states[k + 1]` and expression number `k` to result number `k`.
pub open spec fn handed_over<X, W: ExprRewriter<X>>(
    exprs: Seq<X>,
    results: Seq<X>,
    states: Seq<W>,
) -> bool {
    &&& results.len() == exprs.len()
    &&& states.len() == exprs.len() + 1
    &&& forall|k: int|
        #![trigger exprs[k]]
        #![trigger results[k]]
        0 <= k < exprs.len() ==> W::rewrites(states[k], exprs[k], states[k + 1], results[k])
}

/// What is handed over in two parts is handed over.
proof fn lemma_handed_over_in_parts<X, W: ExprRewriter<X>>(
    first: Seq<X>,
    first_results: Seq<X>,
    first_states: Seq<W>,
    second: Seq<X>,
    second_results: Seq<X>,
    second_states: Seq<W>,
) -> (states: Seq<W>)
    requires
        handed_over(first, first_results, first_states),
        handed_over(second, second_results, second_states),
        first_states.last() == second_states.first(),
    ensures
        handed_over(first + second, first_results + second_results, states),
        states.first() == first_states.first(),
        states.last() == second_states.last(),
{
    let states = first_states.drop_last() + second_states;
    let exprs = first + second;
    let results = first_results + second_results;
    let split = first.len() as int;
    assert forall|k: int|
        #![trigger exprs[k]]
        #![trigger results[k]]
        0 <= k < exprs.len() implies W::rewrites(states[k], exprs[k], states[k + 1], results[k]) by {
        if k < split {
            assert(exprs[k] == first[k]);
            assert(results[k] == first_results[k]);
            assert(states[k] == first_states[k]);
            assert(states[k + 1] == first_states[k + 1]);
        } else {
            assert(exprs[k] == second[k - split]);
            assert(results[k] == second_results[k - split]);
            assert(states[k] == second_states[k - split]);
            assert(states[k + 1] == second_states[k + 1 - split]);
        }
    }
    states
}

/// Every expression of an action is handed to the rewriter once, in order.
pub proof fn law_an_action_hands_over_in_order<X: Default, W: ExprRewriter<X>>(
    action: BoundMergeAction<X>,
    before: W,
    result: BoundMergeAction<X>,
    after: W,
) -> (states: Seq<W>)
    requires
        BoundMergeAction::rewritten(action, before, result, after),
    ensures
        handed_over(action_exprs(action@), action_exprs(result@), states),
        states.first() == before,
        states.last() == after,
{
    let exprs = action_exprs(action@);
    let results = action_exprs(result@);
    if action is Delete {
        seq![before]
    } else {
        let states = choose|states: Seq<W>| #[trigger]
            rewritten_along(exprs, results, states) && states.first() == before && states.last()
                == after;
        assert(rewritten_list(exprs, before, results, after));
        assert(rewritten_along(exprs, results, states));
        states
    }
}

/// Every expression of a clause is handed to the rewriter once, in order: the condition first.
pub proof fn law_a_clause_hands_over_in_order<X: Default, W: ExprRewriter<X>>(
    clause: BoundMergeClause<X>,
    before: W,
    result: BoundMergeClause<X>,
    after: W,
) -> (states: Seq<W>)
    requires
        BoundMergeClause::rewritten(clause, before, result, after),
    ensures
        handed_over(clause_exprs(clause@), clause_exprs(result@), states),
        states.first() == before,
        states.last() == after,
{
    let between = lemma_condition_rewritten(clause, before, result, after);
    let inner = law_an_action_hands_over_in_order(clause.action, between, result.action, after);
    if let Some(condition) = clause.condition {
        let changed = result.condition->0;
        let outer = seq![before, between];
        assert(handed_over(seq![condition], seq![changed], outer));
        lemma_handed_over_in_parts(
            seq![condition],
            seq![changed],
            outer,
            action_exprs(clause.action@),
            action_exprs(result.action@),
            inner,
        )
    } else {
        inner
    }
}

/// Every expression of a list of clauses is handed to the rewriter once, in order.
proof fn lemma_clauses_hand_over<X: Default, W: ExprRewriter<X>>(
    clauses: Seq<BoundMergeClause<X>>,
    results: Seq<BoundMergeClause<X>>,
    clause_states: Seq<W>,
) -> (states: Seq<W>)
    requires
        clauses_rewritten_along(clauses, results, clause_states),
    ensures
        handed_over(
            clauses_exprs(clause_views(clauses)),
            clauses_exprs(clause_views(results)),
            states,
        ),
        states.first() == clause_states.first(),
        states.last() == clause_states.last(),
    decreases clauses.len(),
{
    if clauses.len() == 0 {
        seq![clause_states[0]]
    } else {
        let last = clauses.len() - 1;
        let before = clauses.drop_last();
        let before_results = results.drop_last();
        let before_states = clause_states.drop_last();
        assert(BoundMergeClause::rewritten(
            clauses[last],
            clause_states[last],
            results[last],
            clause_states[last + 1],
        ));
        assert(clauses_rewritten_along(before, before_results, before_states)) by {
            assert forall|i: int|
                #![trigger before[i]]
                #![trigger before_results[i]]
                0 <= i < before.len() implies BoundMergeClause::rewritten(
                before[i],
                before_states[i],
                before_results[i],
                before_states[i + 1],
            ) by {
                assert(before[i] == clauses[i]);
                assert(before_results[i] == results[i]);
            }
        }
        let first = lemma_clauses_hand_over(before, before_results, before_states);
        let second = law_a_clause_hands_over_in_order(
            clauses[last],
            clause_states[last],
            results[last],
            clause_states[last + 1],
        );
        assert(clause_views(clauses).drop_last() =~= clause_views(before));
        assert(clause_views(results).drop_last() =~= clause_views(before_results));
        lemma_handed_over_in_parts(
            clauses_exprs(clause_views(before)),
            clauses_exprs(clause_views(before_results)),
            first,
            clause_exprs(clauses[last]@),
            clause_exprs(results[last]@),
            second,
        )
    }
}

/// The states of the rewriter after the source, after the `ON` condition and between the clauses.
proof fn lemma_merge_states<S, X, W>(
    merge: BoundMerge<S, X>,
    before: W,
    result: BoundMerge<S, X>,
    after: W,
) -> (states: (W, W, Seq<W>)) where S: RewriteExprsRecursive<X, W>, X: Default, W: ExprRewriter<X>
    requires
        BoundMerge::rewritten(merge, before, result, after),
    ensures
        S::rewritten(merge.source, before, result.source, states.0),
        W::rewrites(states.0, merge.on, states.1, result.on),
        clauses_rewritten_along(merge.clauses@, result.clauses@, states.2),
        states.2.first() == states.1,
        states.2.last() == after,
{
    let (after_source, after_on) = choose|after_source: W, after_on: W|
        {
            &&& #[trigger] S::rewritten(merge.source, before, result.source, after_source)
            &&& #[trigger] W::rewrites(after_source, merge.on, after_on, result.on)
            &&& rewritten_clauses(merge.clauses@, after_on, result.clauses@, after)
        };
    let clause_states = choose|states: Seq<W>| #[trigger]
        clauses_rewritten_along(merge.clauses@, result.clauses@, states) && states.first()
            == after_on && states.last() == after;
    (after_source, after_on, clause_states)
}

/// The source of a bound statement is rewritten first. Then every expression of the statement is
/// handed to the rewriter once, in order: the `ON` condition, and clause by clause the condition
/// and the values. The rewriter is left as the last call leaves it.
pub proof fn law_every_expression_is_handed_over_in_order<S, X, W>(
    merge: BoundMerge<S, X>,
    before: W,
    result: BoundMerge<S, X>,
    after: W,
) -> (states: (W, Seq<W>)) where S: RewriteExprsRecursive<X, W>, X: Default, W: ExprRewriter<X>
    requires
        BoundMerge::rewritten(merge, before, result, after),
    ensures
        S::rewritten(merge.source, before, result.source, states.0),
        states.1.first() == states.0,
        states.1.last() == after,
        states.1.len() == merge_exprs(merge@).len() + 1,
        merge_exprs(result@).len() == merge_exprs(merge@).len(),
        forall|k: int|
            #![trigger merge_exprs(merge@)[k]]
            #![trigger merge_exprs(result@)[k]]
            0 <= k < merge_exprs(merge@).len() ==> W::rewrites(
                states.1[k],
                merge_exprs(merge@)[k],
                states.1[k + 1],
                merge_exprs(result@)[k],
            ),
{
    let (after_source, after_on, clause_states) = lemma_merge_states(merge, before, result, after);
    let second = lemma_clauses_hand_over(merge.clauses@, result.clauses@, clause_states);
    let first = seq![after_source, after_on];
    assert(handed_over(seq![merge.on], seq![result.on], first));
    let states = lemma_handed_over_in_parts(
        seq![merge.on],
        seq![result.on],
        first,
        clauses_exprs(merge@.clauses),
        clauses_exprs(result@.clauses),
        second,
    );
    (after_source, states)
}

/// A rewriter that writes down what it is handed writes down the expressions of the statement,
/// each once and in order.
pub proof fn law_every_expression_is_seen_once<S, X, W>(
    merge: BoundMerge<S, X>,
    before: W,
    result: BoundMerge<S, X>,
    after: W,
    seen: spec_fn(W) -> Seq<X>,
) -> (after_source: W) where S: RewriteExprsRecursive<X, W>, X: Default, W: ExprRewriter<X>
    requires
        BoundMerge::rewritten(merge, before, result, after),
        forall|from: W, expr: X, to: W, changed: X| #[trigger]
            W::rewrites(from, expr, to, changed) ==> seen(to) == seen(from).push(expr),
    ensures
        S::rewritten(merge.source, before, result.source, after_source),
        seen(after) == seen(after_source) + merge_exprs(merge@),
{
    let (after_source, states) = law_every_expression_is_handed_over_in_order(
        merge,
        before,
        result,
        after,
    );
    let exprs = merge_exprs(merge@);
    lemma_seen_up_to(exprs, merge_exprs(result@), states, seen, exprs.len() as int);
    assert(exprs.take(exprs.len() as int) =~= exprs);
    after_source
}

proof fn lemma_seen_up_to<X, W: ExprRewriter<X>>(
    exprs: Seq<X>,
    results: Seq<X>,
    states: Seq<W>,
    seen: spec_fn(W) -> Seq<X>,
    count: int,
)
    requires
        handed_over(exprs, results, states),
        forall|from: W, expr: X, to: W, changed: X| #[trigger]
            W::rewrites(from, expr, to, changed) ==> seen(to) == seen(from).push(expr),
        0 <= count <= exprs.len(),
    ensures
        seen(states[count]) == seen(states.first()) + exprs.take(count),
    decreases count,
{
    if count > 0 {
        lemma_seen_up_to(exprs, results, states, seen, count - 1);
        assert(W::rewrites(
            states[count - 1],
            exprs[count - 1],
            states[count],
            results[count - 1],
        ));
        assert(exprs.take(count) =~= exprs.take(count - 1).push(exprs[count - 1]));
        assert(seen(states[count]) =~= seen(states.first()) + exprs.take(count));
    } else {
        assert(seen(states[0]) =~= seen(states.first()) + exprs.take(0));
    }
}

/// The expressions of an action are its assigned or inserted values, place by place, and those of
/// a clause are its condition, if it has one, and then those of its action.
pub proof fn law_what_the_expressions_of_a_clause_are<X>(clause: BoundMergeClause<X>)
    ensures
        ({
            let exprs = clause_exprs(clause@);
            let first: int = if clause.condition is Some {
                1
            } else {
                0
            };
            &&& clause.condition matches Some(condition) ==> exprs[0] == condition
            &&& match clause.action {
                BoundMergeAction::Update { assignments } => {
                    &&& exprs.len() == first + assignments@.len()
                    &&& forall|j: int|
                        0 <= j < assignments@.len() ==> (#[trigger] assignments@[j]).expr
                            == exprs[first + j]
                },
                BoundMergeAction::Delete => exprs.len() == first,
                BoundMergeAction::Insert { values, .. } => {
                    &&& exprs.len() == first + values@.len()
                    &&& forall|j: int|
                        0 <= j < values@.len() ==> #[trigger] values@[j] == exprs[first + j]
                },
            }
        }),
{
}

} // verus!
