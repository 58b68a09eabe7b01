//! Binding of a `MERGE` statement, request by request.
//!
//! Names, relations and expressions are bound elsewhere, in a context that each of them may
//! change. [`MergeBinding`] says what to bind next and takes what came of it, until the statement
//! is bound or an error ends it.
use std::collections::VecDeque;
use std::ops::Range;

use vstd::prelude::*;

#[allow(unused_imports)]
use crate::ast::MergeStatement;
use crate::ast::{MergeClause, ObjectName, TableAlias};
#[allow(unused_imports)]
use crate::catalog::ColumnOrder;
use crate::catalog::{BoundBaseTable, TableVersionId};
#[allow(unused_imports)]
use crate::error::{ErrorCode, ErrorCodeView};
#[allow(unused_imports)]
use crate::merge::{BoundMergeRowIdentityView, BoundMergeView};
use crate::merge::{BoundMerge, BoundMergeClause, BoundMergeRowIdentity, BoundMergeSourceIdentity};
use crate::plan::{bind_merge_clauses, plan_merge_clauses, BindRequest, BoolClause, PlannedClause};
#[allow(unused_imports)]
use crate::plan::{
    asks_for_expr, bound_clauses, clauses_expr_count, clauses_plan, lemma_clauses_plan_requests,
    planned_clauses, planned_views, Plan,
};
#[allow(unused_imports)]
use crate::resolve::{target_scope, TargetScope};

verus! {

/// What the name of the target turned out to be.
#[derive(Debug, Clone)]
pub enum TargetRelation {
    BaseTable(BoundBaseTable),
    Other,
}

/// What came of a request. The relations come with the number of columns in scope after them.
#[derive(Debug, Clone)]
pub enum BindReply<S, X> {
    Target { relation: TargetRelation, context_columns: usize },
    Source { relation: S, context_columns: usize },
    Expr { expr: X },
}

/// Why a statement could not be bound: an error of its own, or one that a request ended in.
#[derive(Debug, Clone)]
pub enum MergeError<R> {
    Code(ErrorCode),
    Request(R),
}

/// A reply answers a request of its kind. A target that is a base table has a version.
pub open spec fn answers<F, E, S, X>(reply: BindReply<S, X>, request: BindRequest<F, E>) -> bool {
    match request {
        BindRequest::RelationByName { .. } => match reply {
            BindReply::Target { relation: TargetRelation::BaseTable(target), .. } => {
                target.table_catalog.version_id is Some
            },
            BindReply::Target { .. } => true,
            _ => false,
        },
        BindRequest::TableFactor { .. } => reply is Source,
        BindRequest::Expr { .. } => reply is Expr,
        BindRequest::BoolExpr { .. } => reply is Expr,
    }
}

/// The request for the target: the current contents of a relation of the same database.
pub open spec fn target_request<F, E>(statement: MergeStatement<F, E>) -> BindRequest<F, E> {
    BindRequest::RelationByName {
        name: statement.table_name,
        alias: statement.table_alias,
        as_of: None,
        allow_cross_db: false,
    }
}

/// The scope in which the clauses of a statement name the columns of its target.
pub open spec fn statement_scope<F, E>(
    statement: MergeStatement<F, E>,
    target: BoundBaseTable,
) -> TargetScope {
    target_scope(
        &target,
        match statement.table_alias {
            Some(alias) => Some(&alias),
            None => None,
        },
        target.table_catalog.name@,
        0,
    )
}

/// What is asked for after the target: the source, the `ON` condition, then the clauses.
pub open spec fn statement_plan<F, E>(
    statement: MergeStatement<F, E>,
    target: BoundBaseTable,
) -> Plan<F, E> {
    Plan {
        requests: seq![
            BindRequest::TableFactor { source: statement.source },
            BindRequest::BoolExpr { expr: statement.on, clause: BoolClause::On },
        ],
        error: None,
    }.followed_by(clauses_plan(statement_scope(statement, target), statement.clauses@))
}

/// The expressions among replies.
pub open spec fn reply_exprs<S, X>(replies: Seq<BindReply<S, X>>) -> Seq<X> {
    replies.map_values(|reply: BindReply<S, X>| reply->expr)
}

/// How rows are told apart. The columns of the target come first in scope, those of the source
/// follow.
pub open spec fn bound_row_identity(
    target: BoundBaseTable,
    target_columns: usize,
    all_columns: usize,
) -> BoundMergeRowIdentityView {
    BoundMergeRowIdentityView {
        candidate_target_range: Range { start: 0, end: target_columns },
        candidate_source_range: Range { start: target_columns, end: all_columns },
        target_table_id: target.table_id,
        target_table_version_id: target.table_catalog.version_id->0,
        target_pk_column_indices: target.table_catalog.pk@.map_values(
            |column: ColumnOrder| column.column_index,
        ),
        source_identity: BoundMergeSourceIdentity {
            candidate_source_range: Range { start: target_columns, end: all_columns },
        },
    }
}

/// The bound statement, where every request was answered and no error came up: the replies are
/// the target, the source, the `ON` condition and the expressions of the clauses.
pub open spec fn bound_statement<F, E, S, X>(
    statement: MergeStatement<F, E>,
    replies: Seq<BindReply<S, X>>,
) -> BoundMergeView<S, X> {
    let target = replies[0]->Target_relation->BaseTable_0;
    BoundMergeView {
        target,
        source: replies[1]->Source_relation,
        on: replies[2]->expr,
        clauses: bound_clauses(
            planned_clauses(statement_scope(statement, target), statement.clauses@),
            reply_exprs(replies.skip(3)),
        ),
        row_identity: bound_row_identity(
            target,
            replies[0]->Target_context_columns,
            replies[1]->Source_context_columns,
        ),
    }
}

/// Where binding stands after some replies.
pub enum Progress<F, E, S, X> {
    Asks(BindRequest<F, E>),
    Fails(ErrorCodeView),
    Binds(BoundMergeView<S, X>),
}

/// Where the binding of a statement stands after all of its requests so far were answered.
pub open spec fn progress<F, E, S, X>(
    statement: MergeStatement<F, E>,
    replies: Seq<BindReply<S, X>>,
) -> Progress<F, E, S, X> {
    if replies.len() == 0 {
        Progress::Asks(target_request(statement))
    } else {
        match replies[0] {
            BindReply::Target { relation: TargetRelation::BaseTable(target), .. } => {
                let plan = statement_plan(statement, target);
                let asked = replies.len() - 1;
                if asked < plan.requests.len() {
                    Progress::Asks(plan.requests[asked])
                } else {
                    match plan.error {
                        Some(error) => Progress::Fails(error),
                        None => Progress::Binds(bound_statement(statement, replies)),
                    }
                }
            },
            _ => Progress::Fails(ErrorCodeView::BindError("MERGE target must be a base table"@)),
        }
    }
}

/// Every reply answers the request that was open when it came.
pub open spec fn conversation<F, E, S, X>(
    statement: MergeStatement<F, E>,
    replies: Seq<BindReply<S, X>>,
) -> bool {
    forall|count: int|
        #![trigger replies[count]]
        0 <= count < replies.len() ==> match progress(statement, replies.take(count)) {
            Progress::Asks(request) => answers(replies[count], request),
            _ => false,
        }
}

/// A conversation goes on with an answer to the open request.
proof fn lemma_conversation_goes_on<F, E, S, X>(
    statement: MergeStatement<F, E>,
    replies: Seq<BindReply<S, X>>,
    reply: BindReply<S, X>,
)
    requires
        conversation(statement, replies),
        progress(statement, replies) is Asks,
        answers(reply, progress(statement, replies)->Asks_0),
    ensures
        conversation(statement, replies.push(reply)),
{
    let more = replies.push(reply);
    assert forall|count: int| #![trigger more[count]] 0 <= count < more.len() implies match progress(
        statement,
        more.take(count),
    ) {
        Progress::Asks(request) => answers(more[count], request),
        _ => false,
    } by {
        if count < replies.len() {
            assert(more.take(count) =~= replies.take(count));
            assert(more[count] == replies[count]);
        } else {
            assert(more.take(count) =~= replies);
        }
    }
}

/// A statement that is being bound, and that waits for the answer to one request.
pub struct MergeBinding<F, E, S, X> {
    stage: Stage<F, E, S, X>,
    statement: Ghost<MergeStatement<F, E>>,
    replies: Ghost<Seq<BindReply<S, X>>>,
}

enum Stage<F, E, S, X> {
    /// The target is asked for.
    Target { request: BindRequest<F, E>, source: F, on: E, clauses: Vec<MergeClause<E>> },
    /// The target is known, and with it the plan.
    Planned {
        target: BoundBaseTable,
        target_columns: usize,
        requests: Vec<BindRequest<F, E>>,
        answered: usize,
        clauses: Result<Vec<PlannedClause>, ErrorCode>,
        source: Option<(S, usize)>,
        exprs: VecDeque<X>,
    },
}

/// What comes of a reply: the statement waits for another one, or its binding has ended.
pub enum MergeStep<F, E, S, X, R> {
    Ask(MergeBinding<F, E, S, X>),
    Done(Result<BoundMerge<S, X>, MergeError<R>>),
}

impl<F, E, S, X> MergeBinding<F, E, S, X> {
    /// The statement that is being bound.
    pub closed spec fn statement(self) -> MergeStatement<F, E> {
        self.statement@
    }

    /// The answers so far, first to last.
    pub closed spec fn replies(self) -> Seq<BindReply<S, X>> {
        self.replies@
    }

    /// Where the binding stands.
    pub open spec fn progress(self) -> Progress<F, E, S, X> {
        progress(self.statement(), self.replies())
    }

    #[verifier::type_invariant]
    spec fn well_formed(self) -> bool {
        &&& conversation(self.statement@, self.replies@)
        &&& self.stage_fits()
    }

    /// The stage holds what the statement and the replies come to.
    spec fn stage_fits(self) -> bool {
        match self.stage {
            Stage::Target { request, source, on, clauses } => {
                &&& self.replies@.len() == 0
                &&& request == target_request(self.statement@)
                &&& source == self.statement@.source
                &&& on == self.statement@.on
                &&& clauses == self.statement@.clauses
            },
            Stage::Planned {
                target,
                target_columns,
                requests,
                answered,
                clauses,
                source,
                exprs,
            } => {
                let plan = statement_plan(self.statement@, target);
                &&& self.replies@.len() == answered + 1
                &&& self.replies@[0] == (BindReply::<S, X>::Target {
                    relation: TargetRelation::BaseTable(target),
                    context_columns: target_columns,
                })
                &&& target.table_catalog.version_id is Some
                &&& requests@ == plan.requests
                &&& answered < requests@.len()
                &&& match clauses {
                    Ok(clauses) => plan.error is None && planned_views(clauses@) == planned_clauses(
                        statement_scope(self.statement@, target),
                        self.statement@.clauses@,
                    ),
                    Err(error) => plan.error == Some(error@),
                }
                &&& match source {
                    Some((source, context_columns)) => answered > 0 && self.replies@[1] == (
                    BindReply::<S, X>::Source { relation: source, context_columns }),
                    None => answered == 0 && exprs@.len() == 0,
                }
                &&& answered > 0 ==> exprs@ == reply_exprs(self.replies@.skip(2))
            },
        }
    }

    /// Starts to bind a statement.
    pub fn bind_merge(
        table_name: ObjectName,
        table_alias: Option<TableAlias>,
        source: F,
        on: E,
        clauses: Vec<MergeClause<E>>,
    ) -> (binding: Self)
        ensures
            binding.statement() == (MergeStatement {
                table_name,
                table_alias,
                source,
                on,
                clauses,
            }),
            binding.replies() == Seq::<BindReply<S, X>>::empty(),
    {
        let statement: Ghost<MergeStatement<F, E>> = Ghost(
            MergeStatement { table_name, table_alias, source, on, clauses },
        );
        MergeBinding {
            stage: Stage::Target {
                request: BindRequest::RelationByName {
                    name: table_name,
                    alias: table_alias,
                    as_of: None,
                    allow_cross_db: false,
                },
                source,
                on,
                clauses,
            },
            statement,
            replies: Ghost(Seq::empty()),
        }
    }

    /// The request that the statement waits for.
    pub fn request(&self) -> (request: &BindRequest<F, E>)
        ensures
            self.progress() == Progress::<F, E, S, X>::Asks(*request),
            progress(self.statement(), self.replies()) == Progress::<F, E, S, X>::Asks(*request),
            conversation(self.statement(), self.replies()),
    {
        proof {
            use_type_invariant(self);
        }
        match &self.stage {
            Stage::Target { request, .. } => request,
            Stage::Planned { requests, answered, .. } => &requests[*answered],
        }
    }

    /// Takes the answer to the request that the statement waits for.
    pub fn resume<R>(self, reply: Result<BindReply<S, X>, R>) -> (step: MergeStep<F, E, S, X, R>)
        requires
            reply matches Ok(reply) ==> answers(reply, self.progress()->Asks_0),
        ensures
            match reply {
                Err(error) => step == MergeStep::<F, E, S, X, R>::Done(
                    Err(MergeError::Request(error)),
                ),
                Ok(reply) => match progress(self.statement(), self.replies().push(reply)) {
                    Progress::Asks(_) => {
                        &&& step is Ask
                        &&& step->Ask_0.statement() == self.statement()
                        &&& step->Ask_0.replies() == self.replies().push(reply)
                    },
                    Progress::Fails(error) => {
                        &&& step matches MergeStep::Done(Err(MergeError::Code(code)))
                        &&& code@ == error
                    },
                    Progress::Binds(merge) => {
                        &&& step matches MergeStep::Done(Ok(bound))
                        &&& bound@ == merge
                    },
                },
            },
    {
        proof {
            use_type_invariant(&self);
        }
        let reply: BindReply<S, X> = match reply {
            Ok(reply) => reply,
            Err(error) => {
                return MergeStep::Done(Err(MergeError::Request(error)));
            },
        };
        let ghost all_replies = self.replies@.push(reply);
        proof {
            lemma_conversation_goes_on(self.statement@, self.replies@, reply);
        }
        let statement: Ghost<MergeStatement<F, E>> = self.statement;
        match self.stage {
            Stage::Target { request, source, on, clauses } => {
                let alias: Option<TableAlias> = match request {
                    BindRequest::RelationByName { alias, .. } => alias,
                    _ => None,
                };
                match reply {
                    BindReply::Target {
                        relation: TargetRelation::BaseTable(target),
                        context_columns,
                    } => {
                        let stage: Stage<F, E, S, X> = plan_rest(
                            target,
                            context_columns,
                            alias,
                            source,
                            on,
                            clauses,
                            statement,
                        );
                        MergeStep::Ask(
                            MergeBinding { stage, statement, replies: Ghost(all_replies) },
                        )
                    },
                    _ => MergeStep::Done(
                        Err(MergeError::Code(ErrorCode::bind("MERGE target must be a base table"))),
                    ),
                }
            },
            Stage::Planned {
                target,
                target_columns,
                requests,
                answered,
                clauses,
                mut source,
                mut exprs,
            } => {
                proof {
                    lemma_statement_plan_requests(statement@, target);
                    assert(answered > 0 ==> all_replies.skip(2) =~= self.replies@.skip(2).push(
                        reply,
                    ));
                    assert(answered == 0 ==> all_replies.skip(2) =~= Seq::empty());
                }
                match reply {
                    BindReply::Source { relation, context_columns } => {
                        source = Some((relation, context_columns));
                    },
                    BindReply::Expr { expr } => {
                        exprs.push_back(expr);
                    },
                    BindReply::Target { .. } => {},
                }
                assert(exprs@ =~= reply_exprs(all_replies.skip(2)));
                assert(requests.len() == requests@.len());
                let answered: usize = answered + 1;
                if answered < requests.len() {
                    return MergeStep::Ask(
                        MergeBinding {
                            stage: Stage::Planned {
                                target,
                                target_columns,
                                requests,
                                answered,
                                clauses,
                                source,
                                exprs,
                            },
                            statement,
                            replies: Ghost(all_replies),
                        },
                    );
                }
                assert(all_replies.len() == requests@.len() + 1);
                assert(exprs@.skip(1) =~= reply_exprs(all_replies.skip(3)));
                match (clauses, source) {
                    (Ok(clauses), Some((source, all_columns))) => {
                        MergeStep::Done(
                            Ok(
                                finish(
                                    target,
                                    target_columns,
                                    source,
                                    all_columns,
                                    clauses,
                                    exprs,
                                ),
                            ),
                        )
                    },
                    (Err(error), _) => MergeStep::Done(Err(MergeError::Code(error))),
                    (Ok(_), None) => unreached(),
                }
            },
        }
    }
}

/// After the target, the first request is for the source and the others are for expressions:
/// for the `ON` condition and, where no error comes up, for what the clauses wait for.
pub proof fn lemma_statement_plan_requests<F, E>(
    statement: MergeStatement<F, E>,
    target: BoundBaseTable,
)
    ensures
        ({
            let plan = statement_plan(statement, target);
            &&& plan.requests.len() >= 2
            &&& plan.requests[0] is TableFactor
            &&& forall|i: int|
                1 <= i < plan.requests.len() ==> asks_for_expr(#[trigger] plan.requests[i])
            &&& plan.error is None ==> plan.requests.len() == 2 + clauses_expr_count(
                planned_clauses(statement_scope(statement, target), statement.clauses@),
            )
        }),
{
    lemma_clauses_plan_requests::<F, E>(statement_scope(statement, target), statement.clauses@);
}

/// Plans what is left to do once the target is known.
fn plan_rest<F, E, S, X>(
    target: BoundBaseTable,
    target_columns: usize,
    alias: Option<TableAlias>,
    source: F,
    on: E,
    clauses: Vec<MergeClause<E>>,
    statement: Ghost<MergeStatement<F, E>>,
) -> (stage: Stage<F, E, S, X>)
    requires
        statement@.table_alias == alias,
        statement@.source == source,
        statement@.on == on,
        statement@.clauses == clauses,
    ensures
        ({
            let plan = statement_plan(statement@, target);
            &&& stage matches Stage::Planned {
                target: planned_target,
                target_columns: planned_columns,
                requests,
                answered,
                clauses: planned,
                source: planned_source,
                exprs,
            }
            &&& planned_target == target
            &&& planned_columns == target_columns
            &&& requests@ == plan.requests
            &&& answered == 0
            &&& match planned {
                Ok(planned) => plan.error is None && planned_views(planned@) == planned_clauses(
                    statement_scope(statement@, target),
                    clauses@,
                ),
                Err(error) => plan.error == Some(error@),
            }
            &&& planned_source is None
            &&& exprs@.len() == 0
        }),
{
    assert(target.table_catalog.columns.len() == target.table_catalog.columns@.len());
    let target_range: Range<usize> = 0..target_columns;
    let mut requests: Vec<BindRequest<F, E>> = Vec::new();
    requests.push(BindRequest::TableFactor { source });
    requests.push(BindRequest::BoolExpr { expr: on, clause: BoolClause::On });
    assert(requests@ =~= seq![
        BindRequest::TableFactor { source },
        BindRequest::BoolExpr { expr: on, clause: BoolClause::On },
    ]);
    let clauses: Result<Vec<PlannedClause>, ErrorCode> = plan_merge_clauses(
        clauses,
        &target,
        alias.as_ref(),
        target.table_catalog.name.as_str(),
        &target_range,
        &mut requests,
    );
    Stage::Planned {
        target,
        target_columns,
        requests,
        answered: 0,
        clauses,
        source: None,
        exprs: VecDeque::new(),
    }
}

/// Puts a bound statement together.
fn finish<S, X>(
    target: BoundBaseTable,
    target_columns: usize,
    source: S,
    all_columns: usize,
    clauses: Vec<PlannedClause>,
    exprs: VecDeque<X>,
) -> (merge: BoundMerge<S, X>)
    requires
        target.table_catalog.version_id is Some,
        exprs@.len() == 1 + clauses_expr_count(planned_views(clauses@)),
    ensures
        merge@ == (BoundMergeView {
            target,
            source,
            on: exprs@[0],
            clauses: bound_clauses(planned_views(clauses@), exprs@.skip(1)),
            row_identity: bound_row_identity(target, target_columns, all_columns),
        }),
{
    let mut exprs: VecDeque<X> = exprs;
    let on: X = exprs.pop_front().unwrap();
    let clauses: Vec<BoundMergeClause<X>> = bind_merge_clauses(clauses, &mut exprs);
    let mut target_pk_column_indices: Vec<usize> = Vec::new();
    for i in 0..target.table_catalog.pk.len()
        invariant
            target_pk_column_indices@ == bound_row_identity(
                target,
                target_columns,
                all_columns,
            ).target_pk_column_indices.take(i as int),
    {
        target_pk_column_indices.push(target.table_catalog.pk[i].column_index);
    }
    assert(target_pk_column_indices@ =~= bound_row_identity(
        target,
        target_columns,
        all_columns,
    ).target_pk_column_indices);
    let target_table_version_id: TableVersionId = target.table_catalog.version_id.expect(
        "table must be versioned",
    );
    let row_identity: BoundMergeRowIdentity = BoundMergeRowIdentity {
        candidate_target_range: 0..target_columns,
        candidate_source_range: target_columns..all_columns,
        target_table_id: target.table_id,
        target_table_version_id,
        target_pk_column_indices,
        source_identity: BoundMergeSourceIdentity {
            candidate_source_range: target_columns..all_columns,
        },
    };
    BoundMerge { target, source, on, clauses, row_identity }
}

} // verus!
