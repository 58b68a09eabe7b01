//! The bound `MERGE` statement.
//!
//! The parts that are only carried through are type parameters: `S` is the bound source relation,
//! `X` a bound expression.
use std::ops::Range;

use vstd::prelude::*;

use crate::catalog::{BoundBaseTable, TableId, TableVersionId};

verus! {

#[derive(Debug, Clone)]
pub struct BoundMerge<S, X> {
    pub target: BoundBaseTable,
    pub source: S,
    pub on: X,
    pub clauses: Vec<BoundMergeClause<X>>,
    pub row_identity: BoundMergeRowIdentity,
}

#[derive(Debug)]
pub struct BoundMergeRowIdentity {
    pub candidate_target_range: Range<usize>,
    pub candidate_source_range: Range<usize>,
    /// Authoritative identity contract for the target side.
    /// All column indices below are base-table column indices from `target.table_catalog`.
    pub target_table_id: TableId,
    pub target_table_version_id: TableVersionId,
    pub target_pk_column_indices: Vec<usize>,
    pub source_identity: BoundMergeSourceIdentity,
}

#[derive(Debug)]
pub struct BoundMergeSourceIdentity {
    pub candidate_source_range: Range<usize>,
}

impl Clone for BoundMergeSourceIdentity {
    fn clone(&self) -> (copy: Self)
        ensures
            copy == *self,
    {
        BoundMergeSourceIdentity {
            candidate_source_range: self.candidate_source_range.start
                ..self.candidate_source_range.end,
        }
    }
}

impl Clone for BoundMergeRowIdentity {
    fn clone(&self) -> (copy: Self)
        ensures
            copy@ == self@,
    {
        let target_pk_column_indices: Vec<usize> = self.target_pk_column_indices.clone();
        assert(target_pk_column_indices@ =~= self.target_pk_column_indices@);
        BoundMergeRowIdentity {
            candidate_target_range: self.candidate_target_range.start
                ..self.candidate_target_range.end,
            candidate_source_range: self.candidate_source_range.start
                ..self.candidate_source_range.end,
            target_table_id: self.target_table_id,
            target_table_version_id: self.target_table_version_id,
            target_pk_column_indices,
            source_identity: self.source_identity.clone(),
        }
    }
}

#[derive(Debug, Clone, Copy, PartialEq, Eq, Structural)]
pub enum BoundMergeClauseKind {
    Matched,
    NotMatched,
}

#[derive(Debug, Clone)]
pub struct BoundMergeClause<X> {
    pub kind: BoundMergeClauseKind,
    pub condition: Option<X>,
    pub action: BoundMergeAction<X>,
}

#[derive(Debug, Clone)]
pub enum BoundMergeAction<X> {
    Update { assignments: Vec<BoundMergeAssignment<X>> },
    Delete,
    Insert { target_table_column_indices: Vec<usize>, values: Vec<X> },
}

#[derive(Debug, Clone)]
pub struct BoundMergeAssignment<X> {
    /// Base-table column index in `target.table_catalog`.
    pub target_table_column_index: usize,
    pub expr: X,
}

/// A bound statement as a mathematical value.
pub struct BoundMergeView<S, X> {
    pub target: BoundBaseTable,
    pub source: S,
    pub on: X,
    pub clauses: Seq<BoundMergeClauseView<X>>,
    pub row_identity: BoundMergeRowIdentityView,
}

/// The row identity of a bound statement as a mathematical value.
pub struct BoundMergeRowIdentityView {
    pub candidate_target_range: Range<usize>,
    pub candidate_source_range: Range<usize>,
    pub target_table_id: TableId,
    pub target_table_version_id: TableVersionId,
    pub target_pk_column_indices: Seq<usize>,
    pub source_identity: BoundMergeSourceIdentity,
}

/// A bound clause as a mathematical value.
pub struct BoundMergeClauseView<X> {
    pub kind: BoundMergeClauseKind,
    pub condition: Option<X>,
    pub action: BoundMergeActionView<X>,
}

/// A bound action as a mathematical value.
pub enum BoundMergeActionView<X> {
    Update { assignments: Seq<BoundMergeAssignment<X>> },
    Delete,
    Insert { target_table_column_indices: Seq<usize>, values: Seq<X> },
}

impl<X> View for BoundMergeAction<X> {
    type V = BoundMergeActionView<X>;

    open spec fn view(&self) -> BoundMergeActionView<X> {
        match *self {
            BoundMergeAction::Update { assignments } => BoundMergeActionView::Update {
                assignments: assignments@,
            },
            BoundMergeAction::Delete => BoundMergeActionView::Delete,
            BoundMergeAction::Insert {
                target_table_column_indices,
                values,
            } => BoundMergeActionView::Insert {
                target_table_column_indices: target_table_column_indices@,
                values: values@,
            },
        }
    }
}

impl<X> View for BoundMergeClause<X> {
    type V = BoundMergeClauseView<X>;

    open spec fn view(&self) -> BoundMergeClauseView<X> {
        BoundMergeClauseView {
            kind: self.kind,
            condition: self.condition,
            action: self.action@,
        }
    }
}

impl View for BoundMergeRowIdentity {
    type V = BoundMergeRowIdentityView;

    open spec fn view(&self) -> BoundMergeRowIdentityView {
        BoundMergeRowIdentityView {
            candidate_target_range: self.candidate_target_range,
            candidate_source_range: self.candidate_source_range,
            target_table_id: self.target_table_id,
            target_table_version_id: self.target_table_version_id,
            target_pk_column_indices: self.target_pk_column_indices@,
            source_identity: self.source_identity,
        }
    }
}

/// The views of a list of clauses.
pub open spec fn clause_views<X>(clauses: Seq<BoundMergeClause<X>>) -> Seq<
    BoundMergeClauseView<X>,
> {
    clauses.map_values(|clause: BoundMergeClause<X>| clause@)
}

impl<S, X> View for BoundMerge<S, X> {
    type V = BoundMergeView<S, X>;

    open spec fn view(&self) -> BoundMergeView<S, X> {
        BoundMergeView {
            target: self.target,
            source: self.source,
            on: self.on,
            clauses: clause_views(self.clauses@),
            row_identity: self.row_identity@,
        }
    }
}

} // verus!
