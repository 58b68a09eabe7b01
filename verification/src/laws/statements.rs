//! Laws of whole statements.
//!
//! A statement writes down its source, its `ON` condition and the expressions of its clauses. The
//! first answer is the target. Answer number `1` is the source, number `2` the `ON` condition, and
//! the expressions of the clauses follow in the order in which they are written.
use vstd::prelude::*;

use crate::ast::{Assignment, AssignmentValue, Ident, MergeAction, MergeClause, MergeStatement};
use crate::binder::{
    answers, conversation, lemma_statement_plan_requests, progress, reply_exprs, statement_scope,
    BindReply, MergeBinding, Progress, TargetRelation,
};
use crate::catalog::{BoundBaseTable, ColumnCatalog};
use crate::error::{decimal_digits, ErrorCodeView};
use crate::laws::columns::{
    borne, first_to_bear, law_an_unlisted_insert_counts_the_visible_columns,
    law_what_a_reference_stands_for, law_which_columns_an_insert_fills, listable,
};
use crate::laws::plans::{
    assignable, good_before, law_a_good_clause_asks_for_all_of_it,
    law_good_clauses_ask_for_all_of_them, law_planning_resolves_every_column,
    law_what_a_clause_asks_for, law_what_an_insert_asks_for, law_what_an_update_asks_for,
    law_what_clauses_ask_for, written_before, written_conditions, written_in_action,
};
use crate::merge::BoundMergeActionView;
use crate::plan::{
    action_plan, clause_plan, clauses_expr_count, clauses_plan, lemma_clauses_expr_count,
    planned_clauses, BindRequest, BoolClause,
};
use crate::resolve::TargetScope;

verus! {

/// Where a binding stands is settled by its statement and the answers to it.
pub proof fn law_a_binding_stands_where_its_answers_put_it<F, E, S, X>(
    binding: MergeBinding<F, E, S, X>,
)
    ensures
        binding.progress() == progress(binding.statement(), binding.replies()),
{
}

/// A request is answered by a reply of its kind, and a base table has to have a version.
pub proof fn law_what_answers_a_request<F, E, S, X>(
    reply: BindReply<S, X>,
    request: BindRequest<F, E>,
)
    ensures
        answers(reply, request) <==> match (request, reply) {
            (
                BindRequest::RelationByName { .. },
                BindReply::Target { relation: TargetRelation::BaseTable(table), .. },
            ) => table.table_catalog.version_id is Some,
            (
                BindRequest::RelationByName { .. },
                BindReply::Target { relation: TargetRelation::Other, .. },
            ) => true,
            (BindRequest::TableFactor { .. }, BindReply::Source { .. }) => true,
            (BindRequest::Expr { .. }, BindReply::Expr { .. }) => true,
            (BindRequest::BoolExpr { .. }, BindReply::Expr { .. }) => true,
            _ => false,
        },
{
}

/// In a conversation each answer came while a request was open that it answers.
pub proof fn law_each_answer_came_to_an_open_request<F, E, S, X>(
    statement: MergeStatement<F, E>,
    replies: Seq<BindReply<S, X>>,
    place: int,
)
    requires
        conversation(statement, replies),
        0 <= place < replies.len(),
    ensures
        progress(statement, replies.take(place)) is Asks,
        answers(replies[place], progress(statement, replies.take(place))->Asks_0),
{
    let reply = replies[place];
    assert(match progress(statement, replies.take(place)) {
        Progress::Asks(request) => answers(reply, request),
        _ => false,
    });
}

/// A conversation begins with no answer, and goes on with any answer to the open request.
pub proof fn law_any_answer_to_the_open_request_goes_on<F, E, S, X>(
    statement: MergeStatement<F, E>,
    replies: Seq<BindReply<S, X>>,
    reply: BindReply<S, X>,
)
    ensures
        conversation(statement, Seq::<BindReply<S, X>>::empty()),
        conversation(statement, replies) && progress(statement, replies) is Asks && answers(
            reply,
            progress(statement, replies)->Asks_0,
        ) ==> conversation(statement, replies.push(reply)),
{
    let more = replies.push(reply);
    if conversation(statement, replies) && progress(statement, replies) is Asks && answers(
        reply,
        progress(statement, replies)->Asks_0,
    ) {
        assert forall|place: int| #![trigger more[place]] 0 <= place < more.len() implies (
        match progress(statement, more.take(place)) {
            Progress::Asks(request) => answers(more[place], request),
            _ => false,
        }) by {
            if place < replies.len() {
                law_each_answer_came_to_an_open_request(statement, replies, place);
                assert(more.take(place) =~= replies.take(place));
            } else {
                assert(more.take(place) =~= replies);
            }
        }
    }
}

/// The target is asked for first: by its name, under its alias, as it is now, in its own database.
pub proof fn law_the_target_is_asked_for_first<F, E, S, X>(statement: MergeStatement<F, E>)
    ensures
        progress::<F, E, S, X>(statement, Seq::empty()) == Progress::<F, E, S, X>::Asks(
            BindRequest::RelationByName {
                name: statement.table_name,
                alias: statement.table_alias,
                as_of: None,
                allow_cross_db: false,
            },
        ),
{
}

/// A target that is not a base table is refused, whatever the statement.
pub proof fn law_the_target_is_a_base_table<F, E, S, X>(
    statement: MergeStatement<F, E>,
    replies: Seq<BindReply<S, X>>,
)
    requires
        replies.len() > 0,
        replies[0] matches BindReply::Target { relation, .. } && relation is Other,
    ensures
        progress(statement, replies) == Progress::<F, E, S, X>::Fails(
            ErrorCodeView::BindError("MERGE target must be a base table"@),
        ),
{
}

/// The first answer is a base table.
pub open spec fn opens_with<S, X>(replies: Seq<BindReply<S, X>>, target: BoundBaseTable) -> bool {
    &&& replies.len() > 0
    &&& replies[0] matches BindReply::Target { relation: TargetRelation::BaseTable(table), .. }
    &&& table == target
}

/// After the target the source is asked for, and then the `ON` condition, as a boolean of the `ON`
/// clause.
pub proof fn law_source_and_on_are_asked_for_next<F, E, S, X>(
    statement: MergeStatement<F, E>,
    target: BoundBaseTable,
    replies: Seq<BindReply<S, X>>,
)
    requires
        opens_with(replies, target),
    ensures
        replies.len() == 1 ==> progress(statement, replies) == Progress::<F, E, S, X>::Asks(
            BindRequest::TableFactor { source: statement.source },
        ),
        replies.len() == 2 ==> progress(statement, replies) == Progress::<F, E, S, X>::Asks(
            BindRequest::BoolExpr { expr: statement.on, clause: BoolClause::On },
        ),
{
}

/// A clause never asks for more than is written in it.
proof fn lemma_clause_asks_for_what_is_written<F, E>(scope: TargetScope, clause: MergeClause<E>)
    ensures
        clause_plan::<F, E>(scope, clause).requests.len() <= written_conditions(clause)
            + written_in_action(clause.action),
{
    law_what_a_clause_asks_for::<F, E>(scope, clause);
    match clause.action {
        MergeAction::Update { assignments } => {
            law_what_an_update_asks_for::<F, E>(scope, assignments);
        },
        MergeAction::Delete => {},
        MergeAction::Insert { columns, values } => {
            law_what_an_insert_asks_for::<F, E>(scope, columns, values);
        },
    }
}

/// More is written before a later clause.
proof fn lemma_written_before_grows<E>(clauses: Seq<MergeClause<E>>, index: int, later: int)
    requires
        0 <= index <= later,
    ensures
        written_before(clauses, index) <= written_before(clauses, later),
    decreases later,
{
    if index < later {
        lemma_written_before_grows(clauses, index, later - 1);
    }
}

/// The first clause that has an error.
proof fn lemma_first_bad_clause<F, E>(
    scope: TargetScope,
    clauses: Seq<MergeClause<E>>,
    index: int,
) -> (bad: int)
    requires
        0 <= index <= clauses.len(),
        !good_before::<F, E>(scope, clauses, index),
    ensures
        0 <= bad < index,
        good_before::<F, E>(scope, clauses, bad),
        clause_plan::<F, E>(scope, clauses[bad]).error is Some,
    decreases index,
{
    if good_before::<F, E>(scope, clauses, index - 1) {
        index - 1
    } else {
        lemma_first_bad_clause::<F, E>(scope, clauses, index - 1)
    }
}

/// A request for something written in a clause comes up only where the clauses before have no
/// error, and it is one of the requests of that clause.
proof fn lemma_request_of_clause<F, E>(
    scope: TargetScope,
    clauses: Seq<MergeClause<E>>,
    index: int,
    place: int,
)
    requires
        0 <= index < clauses.len(),
        0 <= place < written_conditions(clauses[index]) + written_in_action(clauses[index].action),
        written_before(clauses, index) + place < clauses_plan::<F, E>(scope, clauses).requests.len(),
    ensures
        good_before::<F, E>(scope, clauses, index),
        place < clause_plan::<F, E>(scope, clauses[index]).requests.len(),
        clauses_plan::<F, E>(scope, clauses).requests[written_before(clauses, index) + place]
            == clause_plan::<F, E>(scope, clauses[index]).requests[place],
{
    if !good_before::<F, E>(scope, clauses, index) {
        let bad = lemma_first_bad_clause::<F, E>(scope, clauses, index);
        law_what_clauses_ask_for::<F, E>(scope, clauses, bad);
        lemma_clause_asks_for_what_is_written::<F, E>(scope, clauses[bad]);
        lemma_written_before_grows(clauses, bad + 1, index);
        assert(false);
    }
    law_what_clauses_ask_for::<F, E>(scope, clauses, index);
    let one = clause_plan::<F, E>(scope, clauses[index]);
    if one.error is None {
        law_a_good_clause_asks_for_all_of_it::<F, E>(scope, clauses[index]);
    }
    assert(one.requests[place] == one.requests[place]);
}

/// While a statement asks, the open request is the one written at the place that the number of
/// answers gives. For a clause: its condition, as a boolean of the `WHEN` clause, then the values
/// of its assignments or insertions, one after another.
pub proof fn law_the_open_request_is_the_one_written_there<F, E, S, X>(
    statement: MergeStatement<F, E>,
    target: BoundBaseTable,
    replies: Seq<BindReply<S, X>>,
    index: int,
)
    requires
        opens_with(replies, target),
        progress(statement, replies) is Asks,
        0 <= index < statement.clauses@.len(),
    ensures
        ({
            let clause = statement.clauses@[index];
            let open = progress(statement, replies)->Asks_0;
            let first = 3 + written_before(statement.clauses@, index);
            let behind = first + written_conditions(clause);
            &&& clause.condition matches Some(condition) ==> replies.len() == first ==> open == (
            BindRequest::<F, E>::BoolExpr { expr: condition, clause: BoolClause::When })
            &&& match clause.action {
                MergeAction::Update { assignments } => forall|j: int|
                    #![trigger assignments@[j]]
                    0 <= j < assignments@.len() && replies.len() == behind + j ==> {
                        &&& assignments@[j].value matches AssignmentValue::Expr(expr)
                        &&& open == (BindRequest::<F, E>::Expr { expr })
                    },
                MergeAction::Delete => true,
                MergeAction::Insert { values, .. } => forall|j: int|
                    #![trigger values@[j]]
                    0 <= j < values@.len() && replies.len() == behind + j ==> open == (BindRequest::<
                        F,
                        E,
                    >::Expr { expr: values@[j] }),
            }
        }),
{
    let scope = statement_scope(statement, target);
    let clauses = statement.clauses@;
    let clause = clauses[index];
    let place = replies.len() - 3 - written_before(clauses, index);
    if 0 <= place < written_conditions(clause) + written_in_action(clause.action) {
        lemma_request_of_clause::<F, E>(scope, clauses, index, place);
        law_what_a_clause_asks_for::<F, E>(scope, clause);
        let inner = place - written_conditions(clause);
        match clause.action {
            MergeAction::Update { assignments } => {
                law_what_an_update_asks_for::<F, E>(scope, assignments);
                if inner >= 0 {
                    let action = action_plan::<F, E>(scope, clause.action);
                    assert(action.requests[inner] == clause_plan::<F, E>(
                        scope,
                        clause,
                    ).requests[place]);
                    assert(assignable(scope, assignments@[inner]));
                }
            },
            MergeAction::Delete => {},
            MergeAction::Insert { columns, values } => {
                law_what_an_insert_asks_for::<F, E>(scope, columns, values);
                if inner >= 0 {
                    let action = action_plan::<F, E>(scope, clause.action);
                    assert(action.requests[inner] == clause_plan::<F, E>(
                        scope,
                        clause,
                    ).requests[place]);
                }
            },
        }
    }
}

/// Nothing is asked for that is not written: the number of requests is that of the target, the
/// source, the `ON` condition and the expressions of the clauses, or less.
pub proof fn law_nothing_else_is_asked_for<F, E, S, X>(
    statement: MergeStatement<F, E>,
    target: BoundBaseTable,
    replies: Seq<BindReply<S, X>>,
)
    requires
        opens_with(replies, target),
        progress(statement, replies) is Asks,
    ensures
        replies.len() < 3 + written_before(statement.clauses@, statement.clauses@.len() as int),
{
    let scope = statement_scope(statement, target);
    let clauses = statement.clauses@;
    law_good_clauses_ask_for_all_of_them::<F, E>(scope, clauses);
    if !good_before::<F, E>(scope, clauses, clauses.len() as int) {
        let bad = lemma_first_bad_clause::<F, E>(scope, clauses, clauses.len() as int);
        law_what_clauses_ask_for::<F, E>(scope, clauses, bad);
        lemma_clause_asks_for_what_is_written::<F, E>(scope, clauses[bad]);
        lemma_written_before_grows(clauses, bad + 1, clauses.len() as int);
    }
}

/// The one name that may qualify the columns of the target: its alias, or the name of the table
/// where it has none.
pub open spec fn qualifying_name<F, E>(
    statement: MergeStatement<F, E>,
    target: BoundBaseTable,
) -> Seq<char> {
    match statement.table_alias {
        Some(alias) => alias.name.real_value@,
        None => target.table_catalog.name@,
    }
}

/// A reference to a column of the target, alone or qualified.
pub open spec fn names_a_column<F, E>(
    statement: MergeStatement<F, E>,
    target: BoundBaseTable,
    id: Seq<Ident>,
) -> bool {
    &&& id.len() == 1 || (id.len() == 2 && id[0].real_value@ == qualifying_name(statement, target))
    &&& borne(target.table_catalog.columns@, id.last().real_value@)
}

/// An assignment that the statement may make.
pub open spec fn acceptable_assignment<F, E>(
    statement: MergeStatement<F, E>,
    target: BoundBaseTable,
    assignment: Assignment<E>,
) -> bool {
    names_a_column(statement, target, assignment.id@) && assignment.value is Expr
}

/// How many columns an insertion fills: those that it lists, or those that are not hidden.
pub open spec fn filled_columns(target: BoundBaseTable, listed: Seq<Ident>) -> nat {
    if listed.len() > 0 {
        listed.len()
    } else {
        target.table_catalog.columns@.filter(|column: ColumnCatalog| !column.is_hidden).len()
    }
}

/// An insertion that the statement may make.
pub open spec fn acceptable_insertion<E>(
    target: BoundBaseTable,
    listed: Seq<Ident>,
    values: Seq<E>,
) -> bool {
    &&& listable(target.table_catalog.columns@, listed, listed.len() as int)
    &&& filled_columns(target, listed) == values.len()
}

/// A clause that the statement may have.
pub open spec fn acceptable<F, E>(
    statement: MergeStatement<F, E>,
    target: BoundBaseTable,
    clause: MergeClause<E>,
) -> bool {
    match clause.action {
        MergeAction::Update { assignments } => forall|j: int|
            0 <= j < assignments@.len() ==> acceptable_assignment(
                statement,
                target,
                #[trigger] assignments@[j],
            ),
        MergeAction::Delete => true,
        MergeAction::Insert { columns, values } => acceptable_insertion(target, columns@, values@),
    }
}

/// The columns of a table have indices from zero.
proof fn lemma_reference<F, E>(
    statement: MergeStatement<F, E>,
    target: BoundBaseTable,
    id: Seq<Ident>,
)
    ensures
        statement_scope(statement, target).reference(id) is Ok <==> names_a_column(
            statement,
            target,
            id,
        ),
        statement_scope(statement, target).reference(id) matches Ok(index) ==> first_to_bear(
            target.table_catalog.columns@,
            id.last().real_value@,
            index as int,
        ),
        statement_scope(statement, target).reference(id) matches Err(error) ==> error
            == reference_error(statement, target, id),
{
    let columns = target.table_catalog.columns;
    assert(columns.len() == columns@.len());
    let alias = match statement.table_alias {
        Some(alias) => Some(&alias),
        None => None,
    };
    law_what_a_reference_stands_for(&target, alias, target.table_catalog.name@, 0, id);
    if let Ok(index) = statement_scope(statement, target).reference(id) {
        assert(columns@[index as int].name@ == id.last().real_value@);
    }
}

/// Why a reference is refused.
pub open spec fn reference_error<F, E>(
    statement: MergeStatement<F, E>,
    target: BoundBaseTable,
    id: Seq<Ident>,
) -> ErrorCodeView {
    if id.len() != 1 && id.len() != 2 {
        ErrorCodeView::BindError("invalid MERGE target column reference"@)
    } else if id.len() == 2 && id[0].real_value@ != qualifying_name(statement, target) {
        ErrorCodeView::BindError(
            "MERGE target column qualifier must refer to the target table or alias"@,
        )
    } else {
        ErrorCodeView::ItemNotFound(
            "column \""@ + id.last().real_value@ + "\" of relation \""@ + target.table_catalog.name@
                + "\""@,
        )
    }
}

/// The columns that an insertion fills.
proof fn lemma_insertion<F, E>(
    statement: MergeStatement<F, E>,
    target: BoundBaseTable,
    listed: Seq<Ident>,
)
    ensures
        ({
            let columns = target.table_catalog.columns@;
            match statement_scope(statement, target).insert_columns(listed) {
                Ok(indices) => {
                    &&& listable(columns, listed, listed.len() as int)
                    &&& indices.len() == filled_columns(target, listed)
                    &&& fills(columns, listed, indices)
                },
                Err(error) => {
                    &&& !listable(columns, listed, listed.len() as int)
                    &&& listing_error(target, listed, error)
                },
            }
        }),
{
    let columns = target.table_catalog.columns;
    assert(columns.len() == columns@.len());
    let alias = match statement.table_alias {
        Some(alias) => Some(&alias),
        None => None,
    };
    let scope = statement_scope(statement, target);
    law_which_columns_an_insert_fills(&target, alias, target.table_catalog.name@, 0, listed);
    if listed.len() == 0 {
        law_an_unlisted_insert_counts_the_visible_columns(scope, scope.columns.len());
        assert(scope.columns.take(scope.columns.len() as int) =~= columns@);
        let indices = scope.insert_columns(listed)->Ok_0;
        assert(fills(columns@, listed, indices)) by {
            assert forall|i: int| 0 <= i < columns@.len() implies (indices.contains(i as usize)
                <==> !(#[trigger] columns@[i]).is_hidden) by {}
        }
    } else if let Ok(indices) = scope.insert_columns(listed) {
        assert(fills(columns@, listed, indices));
    } else {
        let error = scope.insert_columns(listed)->Err_0;
        let bad = choose|bad: int|
            #![trigger listed[bad]]
            {
                &&& 0 <= bad < listed.len()
                &&& listable(columns@, listed, bad)
                &&& !listable(columns@, listed, bad + 1)
                &&& error == if borne(columns@, listed[bad].real_value@) {
                    ErrorCodeView::BindError("column specified more than once in MERGE INSERT"@)
                } else {
                    ErrorCodeView::ItemNotFound(
                        "column \""@ + listed[bad].real_value@ + "\" of relation \""@
                            + target.table_catalog.name@ + "\""@,
                    )
                }
            };
        assert(!listable(columns@, listed, listed.len() as int));
        assert(listable(columns@, listed, bad) && !listable(columns@, listed, bad + 1));
    }
}

/// The indices are those of the listed columns or, without a list, of all that are not hidden, in
/// the order of the table.
pub open spec fn fills(
    columns: Seq<ColumnCatalog>,
    listed: Seq<Ident>,
    indices: Seq<usize>,
) -> bool {
    if listed.len() > 0 {
        &&& indices.len() == listed.len()
        &&& forall|i: int|
            #![trigger indices[i]]
            #![trigger listed[i]]
            0 <= i < listed.len() ==> first_to_bear(
                columns,
                listed[i].real_value@,
                indices[i] as int,
            )
    } else {
        &&& forall|i: int| 0 <= i < indices.len() ==> #[trigger] indices[i] < columns.len()
        &&& forall|i: int, j: int|
            0 <= i < j < indices.len() ==> #[trigger] indices[i] < #[trigger] indices[j]
        &&& forall|i: int|
            0 <= i < columns.len() ==> (indices.contains(i as usize) <==> !(
            #[trigger] columns[i]).is_hidden)
    }
}

/// Why a list of columns is refused: at the first that the target does not have, or that repeats
/// an earlier one.
pub open spec fn listing_error(
    target: BoundBaseTable,
    listed: Seq<Ident>,
    error: ErrorCodeView,
) -> bool {
    exists|bad: int|
        #![trigger listed[bad]]
        {
            &&& 0 <= bad < listed.len()
            &&& listable(target.table_catalog.columns@, listed, bad)
            &&& !listable(target.table_catalog.columns@, listed, bad + 1)
            &&& error == if borne(target.table_catalog.columns@, listed[bad].real_value@) {
                ErrorCodeView::BindError("column specified more than once in MERGE INSERT"@)
            } else {
                ErrorCodeView::ItemNotFound(
                    "column \""@ + listed[bad].real_value@ + "\" of relation \""@
                        + target.table_catalog.name@ + "\""@,
                )
            }
        }
}

/// A clause has no error just where it is acceptable.
proof fn lemma_acceptable<F, E>(
    statement: MergeStatement<F, E>,
    target: BoundBaseTable,
    clause: MergeClause<E>,
)
    ensures
        clause_plan::<F, E>(statement_scope(statement, target), clause).error is None
            <==> acceptable(statement, target, clause),
{
    let scope = statement_scope(statement, target);
    law_what_a_clause_asks_for::<F, E>(scope, clause);
    match clause.action {
        MergeAction::Update { assignments } => {
            law_what_an_update_asks_for::<F, E>(scope, assignments);
            assert forall|j: int| 0 <= j < assignments@.len() implies (assignable(
                scope,
                #[trigger] assignments@[j],
            ) <==> acceptable_assignment(statement, target, assignments@[j])) by {
                lemma_reference(statement, target, assignments@[j].id@);
            }
        },
        MergeAction::Delete => {},
        MergeAction::Insert { columns, values } => {
            law_what_an_insert_asks_for::<F, E>(scope, columns, values);
            lemma_insertion(statement, target, columns@);
        },
    }
}

/// The clauses before one of several are acceptable.
pub open spec fn acceptable_before<F, E>(
    statement: MergeStatement<F, E>,
    target: BoundBaseTable,
    index: int,
) -> bool {
    forall|i: int|
        0 <= i < index ==> acceptable(statement, target, #[trigger] statement.clauses@[i])
}

proof fn lemma_acceptable_before<F, E>(
    statement: MergeStatement<F, E>,
    target: BoundBaseTable,
    index: int,
)
    requires
        0 <= index <= statement.clauses@.len(),
    ensures
        good_before::<F, E>(statement_scope(statement, target), statement.clauses@, index)
            <==> acceptable_before(statement, target, index),
{
    let scope = statement_scope(statement, target);
    assert forall|i: int| 0 <= i < index implies (clause_plan::<F, E>(
        scope,
        #[trigger] statement.clauses@[i],
    ).error is None <==> acceptable(statement, target, statement.clauses@[i])) by {
        lemma_acceptable(statement, target, statement.clauses@[i]);
    }
}

/// Every statement whose clauses are all acceptable binds, once the target, the source, the `ON`
/// condition and every expression are there and not before. A statement with a clause that is not
/// acceptable never binds.
pub proof fn law_just_the_acceptable_statements_bind<F, E, S, X>(
    statement: MergeStatement<F, E>,
    target: BoundBaseTable,
    replies: Seq<BindReply<S, X>>,
)
    requires
        opens_with(replies, target),
    ensures
        ({
            let count = statement.clauses@.len() as int;
            let all = 3 + written_before(statement.clauses@, count);
            if acceptable_before(statement, target, count) {
                &&& replies.len() < all ==> progress(statement, replies) is Asks
                &&& replies.len() >= all ==> progress(statement, replies) is Binds
            } else {
                progress(statement, replies) !is Binds
            }
        }),
{
    let count = statement.clauses@.len() as int;
    lemma_acceptable_before(statement, target, count);
    law_good_clauses_ask_for_all_of_them::<F, E>(
        statement_scope(statement, target),
        statement.clauses@,
    );
}

/// The first assignment that is not acceptable ends a statement, when all that is written before
/// it has been answered and not earlier. The error says what is wrong with its column or, if
/// nothing is, that `DEFAULT` cannot be assigned.
pub proof fn law_a_bad_assignment_ends_binding<F, E, S, X>(
    statement: MergeStatement<F, E>,
    target: BoundBaseTable,
    replies: Seq<BindReply<S, X>>,
    index: int,
    place: int,
)
    requires
        opens_with(replies, target),
        0 <= index < statement.clauses@.len(),
        acceptable_before(statement, target, index),
        statement.clauses@[index].action is Update,
        0 <= place < statement.clauses@[index].action->assignments@.len(),
        forall|j: int|
            0 <= j < place ==> acceptable_assignment(
                statement,
                target,
                #[trigger] statement.clauses@[index].action->assignments@[j],
            ),
        !acceptable_assignment(
            statement,
            target,
            statement.clauses@[index].action->assignments@[place],
        ),
    ensures
        ({
            let clause = statement.clauses@[index];
            let id = clause.action->assignments@[place].id@;
            let before = 3 + written_before(statement.clauses@, index) + written_conditions(clause)
                + place;
            &&& replies.len() < before ==> progress(statement, replies) is Asks
            &&& replies.len() >= before ==> progress(statement, replies) == Progress::<
                F,
                E,
                S,
                X,
            >::Fails(
                if names_a_column(statement, target, id) {
                    ErrorCodeView::BindError("MERGE UPDATE SET DEFAULT is not supported yet"@)
                } else {
                    reference_error(statement, target, id)
                },
            )
        }),
{
    let scope = statement_scope(statement, target);
    let clauses = statement.clauses@;
    let clause = clauses[index];
    let assignments = clause.action->assignments;
    lemma_acceptable_before(statement, target, index);
    law_what_clauses_ask_for::<F, E>(scope, clauses, index);
    law_what_a_clause_asks_for::<F, E>(scope, clause);
    law_what_an_update_asks_for::<F, E>(scope, assignments);
    assert forall|j: int| 0 <= j < assignments@.len() implies (assignable(
        scope,
        #[trigger] assignments@[j],
    ) <==> acceptable_assignment(statement, target, assignments@[j])) by {
        lemma_reference(statement, target, assignments@[j].id@);
    }
    let asked = action_plan::<F, E>(scope, clause.action).requests.len() as int;
    assert(!assignable(scope, assignments@[place]));
    assert(asked <= place) by {
        if asked > place {
            assert(assignable(scope, assignments@[place]));
        }
    }
    assert(asked >= place) by {
        if asked < place {
            assert(assignable(scope, assignments@[asked]));
            assert(false);
        }
    }
    lemma_reference(statement, target, assignments@[place].id@);
}

/// The first insertion that is not acceptable ends a statement, when all that is written before
/// its values has been answered and not earlier. The error says what is wrong with its list of
/// columns or, if nothing is, how many columns and how many values there are.
pub proof fn law_a_bad_insertion_ends_binding<F, E, S, X>(
    statement: MergeStatement<F, E>,
    target: BoundBaseTable,
    replies: Seq<BindReply<S, X>>,
    index: int,
)
    requires
        opens_with(replies, target),
        0 <= index < statement.clauses@.len(),
        acceptable_before(statement, target, index),
        statement.clauses@[index].action is Insert,
        !acceptable(statement, target, statement.clauses@[index]),
    ensures
        ({
            let clause = statement.clauses@[index];
            let listed = clause.action->columns@;
            let values = clause.action->values@;
            let before = 3 + written_before(statement.clauses@, index) + written_conditions(clause);
            &&& replies.len() < before ==> progress(statement, replies) is Asks
            &&& replies.len() >= before ==> {
                &&& progress(statement, replies) matches Progress::Fails(error)
                &&& if listable(target.table_catalog.columns@, listed, listed.len() as int) {
                    error == ErrorCodeView::BindError(
                        "MERGE INSERT has "@ + decimal_digits(filled_columns(target, listed))
                            + " target columns but "@ + decimal_digits(values.len()) + " values"@,
                    )
                } else {
                    listing_error(target, listed, error)
                }
            }
        }),
{
    let scope = statement_scope(statement, target);
    let clauses = statement.clauses@;
    let clause = clauses[index];
    let columns = clause.action->columns;
    let values = clause.action->values;
    lemma_acceptable_before(statement, target, index);
    lemma_acceptable(statement, target, clause);
    law_what_clauses_ask_for::<F, E>(scope, clauses, index);
    law_what_a_clause_asks_for::<F, E>(scope, clause);
    law_what_an_insert_asks_for::<F, E>(scope, columns, values);
    lemma_insertion(statement, target, columns@);
}

/// An expression of a bound statement is the answer to a request: when `place` answers had come,
/// the request was open, and the next answer was the expression.
pub open spec fn came_of<F, E, S, X>(
    statement: MergeStatement<F, E>,
    replies: Seq<BindReply<S, X>>,
    place: int,
    request: BindRequest<F, E>,
    expr: X,
) -> bool {
    &&& 0 <= place < replies.len()
    &&& progress(statement, replies.take(place)) == Progress::<F, E, S, X>::Asks(request)
    &&& replies[place] == (BindReply::<S, X>::Expr { expr })
}

/// The target, the source and the `ON` condition of a bound statement are what their own requests
/// were answered with.
pub proof fn law_target_source_and_on_are_the_answers_to_theirs<F, E, S, X>(
    statement: MergeStatement<F, E>,
    replies: Seq<BindReply<S, X>>,
)
    requires
        conversation(statement, replies),
        progress(statement, replies) is Binds,
    ensures
        ({
            let merge = progress(statement, replies)->Binds_0;
            &&& opens_with(replies, merge.target)
            &&& progress(statement, replies.take(1)) == Progress::<F, E, S, X>::Asks(
                BindRequest::TableFactor { source: statement.source },
            )
            &&& replies[1] matches BindReply::Source { relation, .. } && relation == merge.source
            &&& came_of(
                statement,
                replies,
                2,
                BindRequest::BoolExpr { expr: statement.on, clause: BoolClause::On },
                merge.on,
            )
        }),
{
    let merge = progress(statement, replies)->Binds_0;
    lemma_statement_plan_requests(statement, merge.target);
    assert(replies.take(1)[0] == replies[0]);
    assert(replies.take(2)[0] == replies[0]);
    assert(replies[1] == replies[1]);
    assert(replies[2] == replies[2]);
}

/// Each answer behind the first is an answer to the request open at its place.
proof fn lemma_came_of<F, E, S, X>(
    statement: MergeStatement<F, E>,
    replies: Seq<BindReply<S, X>>,
    place: int,
)
    requires
        conversation(statement, replies),
        progress(statement, replies) is Binds,
        2 <= place < replies.len(),
    ensures
        opens_with(replies.take(place), replies[0]->Target_relation->BaseTable_0),
        progress(statement, replies.take(place)) is Asks,
        replies[place] == (BindReply::<S, X>::Expr { expr: replies[place]->expr }),
{
    let target = replies[0]->Target_relation->BaseTable_0;
    lemma_statement_plan_requests(statement, target);
    assert(replies.take(place)[0] == replies[0]);
    assert(answers(replies[place], progress(statement, replies.take(place))->Asks_0));
}

/// Where the expressions of a clause begin is the same for the planned clauses and the parsed ones.
proof fn lemma_planned_counts<F, E>(scope: TargetScope, clauses: Seq<MergeClause<E>>, index: int)
    requires
        0 <= index <= clauses.len(),
        good_before::<F, E>(scope, clauses, index),
    ensures
        clauses_expr_count(planned_clauses(scope, clauses).take(index)) == written_before(
            clauses,
            index,
        ),
    decreases index,
{
    let planned = planned_clauses(scope, clauses);
    if index > 0 {
        lemma_planned_counts::<F, E>(scope, clauses, index - 1);
        lemma_clauses_expr_count(planned, index - 1);
        assert(clause_plan::<F, E>(scope, clauses[index - 1]).error is None);
        law_planning_resolves_every_column::<F, E>(scope, clauses[index - 1]);
    } else {
        assert(planned.take(0) =~= Seq::empty());
    }
}

/// What a clause of a bound statement holds. It applies to the rows of the parsed clause. Its
/// condition, each assigned value and each inserted value is what the request for the expression
/// written at that place was answered with. Each assignment goes to the first column of the name
/// written there, and an insertion fills the columns listed or, without a list, the visible ones.
pub proof fn law_what_a_bound_clause_holds<F, E, S, X>(
    statement: MergeStatement<F, E>,
    replies: Seq<BindReply<S, X>>,
    index: int,
)
    requires
        conversation(statement, replies),
        progress(statement, replies) is Binds,
        0 <= index < statement.clauses@.len(),
    ensures
        ({
            let merge = progress(statement, replies)->Binds_0;
            let columns = merge.target.table_catalog.columns@;
            let parsed = statement.clauses@[index];
            let bound = merge.clauses[index];
            let first = 3 + written_before(statement.clauses@, index) as int;
            let behind = first + written_conditions(parsed);
            &&& merge.clauses.len() == statement.clauses@.len()
            &&& (bound.kind is Matched) == (parsed.kind is Matched)
            &&& (bound.kind is NotMatched) == (parsed.kind is NotMatched)
            &&& match (parsed.condition, bound.condition) {
                (Some(written), Some(condition)) => came_of(
                    statement,
                    replies,
                    first,
                    BindRequest::BoolExpr { expr: written, clause: BoolClause::When },
                    condition,
                ),
                (None, None) => true,
                _ => false,
            }
            &&& match (parsed.action, bound.action) {
                (
                    MergeAction::Update { assignments: written },
                    BoundMergeActionView::Update { assignments },
                ) => {
                    &&& assignments.len() == written@.len()
                    &&& forall|j: int|
                        #![trigger assignments[j]]
                        #![trigger written@[j]]
                        0 <= j < assignments.len() ==> {
                            &&& first_to_bear(
                                columns,
                                written@[j].id@.last().real_value@,
                                assignments[j].target_table_column_index as int,
                            )
                            &&& written@[j].value matches AssignmentValue::Expr(expr) && came_of(
                                statement,
                                replies,
                                behind + j,
                                BindRequest::Expr { expr },
                                assignments[j].expr,
                            )
                        }
                },
                (MergeAction::Delete, BoundMergeActionView::Delete) => true,
                (
                    MergeAction::Insert { columns: listed, values: written },
                    BoundMergeActionView::Insert { target_table_column_indices, values },
                ) => {
                    &&& fills(columns, listed@, target_table_column_indices)
                    &&& target_table_column_indices.len() == values.len()
                    &&& values.len() == written@.len()
                    &&& forall|j: int|
                        #![trigger values[j]]
                        #![trigger written@[j]]
                        0 <= j < values.len() ==> came_of(
                            statement,
                            replies,
                            behind + j,
                            BindRequest::Expr { expr: written@[j] },
                            values[j],
                        )
                },
                _ => false,
            }
        }),
{
    let merge = progress(statement, replies)->Binds_0;
    let target = merge.target;
    let scope = statement_scope(statement, target);
    let clauses = statement.clauses@;
    let count = clauses.len() as int;
    let parsed = clauses[index];
    let bound = merge.clauses[index];
    let planned = planned_clauses(scope, clauses);
    let exprs = reply_exprs(replies.skip(3));
    let base = written_before(clauses, index) as int;
    let conditions = written_conditions(parsed) as int;
    let inside = conditions + written_in_action(parsed.action);
    law_good_clauses_ask_for_all_of_them::<F, E>(scope, clauses);
    lemma_statement_plan_requests(statement, target);
    assert(clause_plan::<F, E>(scope, parsed).error is None);
    law_planning_resolves_every_column::<F, E>(scope, parsed);
    lemma_planned_counts::<F, E>(scope, clauses, index);
    lemma_written_before_grows(clauses, index + 1, count);
    assert(replies.len() >= 3 + written_before(clauses, count));
    assert forall|place: int| 0 <= place < inside implies #[trigger] exprs.skip(base)[place]
        == replies[3 + base + place]->expr by {}
    assert forall|place: int| 0 <= place < inside implies {
        &&& (#[trigger] replies[3 + base + place]) is Expr
        &&& progress(statement, replies.take(3 + base + place)) is Asks
    } by {
        lemma_came_of(statement, replies, 3 + base + place);
    }
    if parsed.condition is Some {
        lemma_came_of(statement, replies, 3 + base);
        law_the_open_request_is_the_one_written_there(
            statement,
            target,
            replies.take(3 + base),
            index,
        );
        assert(exprs.skip(base)[0] == replies[3 + base]->expr);
    }
    match parsed.action {
        MergeAction::Update { assignments: written } => {
            let assignments = bound.action->assignments;
            law_what_an_update_asks_for::<F, E>(scope, written);
            assert forall|j: int|
                #![trigger assignments[j]]
                #![trigger written@[j]]
                0 <= j < assignments.len() implies {
                &&& first_to_bear(
                    target.table_catalog.columns@,
                    written@[j].id@.last().real_value@,
                    assignments[j].target_table_column_index as int,
                )
                &&& written@[j].value matches AssignmentValue::Expr(expr) && came_of(
                    statement,
                    replies,
                    3 + base + conditions + j,
                    BindRequest::Expr { expr },
                    assignments[j].expr,
                )
            } by {
                let place = 3 + base + conditions + j;
                lemma_reference(statement, target, written@[j].id@);
                lemma_came_of(statement, replies, place);
                law_the_open_request_is_the_one_written_there(
                    statement,
                    target,
                    replies.take(place),
                    index,
                );
                assert(replies.take(place).len() == place);
                assert(written@[j] == written@[j]);
                assert(exprs.skip(base)[conditions + j] == replies[3 + base + (conditions
                    + j)]->expr);
            }
        },
        MergeAction::Delete => {},
        MergeAction::Insert { columns: listed, values: written } => {
            let values = bound.action->Insert_values;
            lemma_insertion(statement, target, listed@);
            assert forall|j: int|
                #![trigger values[j]]
                #![trigger written@[j]]
                0 <= j < values.len() implies came_of(
                statement,
                replies,
                3 + base + conditions + j,
                BindRequest::Expr { expr: written@[j] },
                values[j],
            ) by {
                let place = 3 + base + conditions + j;
                lemma_came_of(statement, replies, place);
                law_the_open_request_is_the_one_written_there(
                    statement,
                    target,
                    replies.take(place),
                    index,
                );
                assert(replies.take(place).len() == place);
                assert(written@[j] == written@[j]);
                assert(exprs.skip(base)[conditions + j] == replies[3 + base + (conditions
                    + j)]->expr);
            }
        },
    }
}

} // verus!
