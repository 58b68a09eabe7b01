//! The parsed `MERGE` statement: the form in which a statement reaches the binder.
//!
//! The parts that only the binder of expressions and relations looks into are type parameters:
//! `E` is a parsed expression, `F` the parsed `USING` relation.
use vstd::prelude::*;

verus! {

/// An identifier, by the name that it stands for once its quoting is accounted for.
#[derive(Debug, Clone)]
pub struct Ident {
    pub real_value: String,
}

impl View for Ident {
    type V = Seq<char>;

    open spec fn view(&self) -> Seq<char> {
        self.real_value@
    }
}

impl Ident {
    /// The name that the identifier stands for.
    pub fn real_value(&self) -> (name: String)
        ensures
            name@ == self@,
    {
        self.real_value.clone()
    }
}

/// A possibly qualified name of a relation, outermost part first.
#[derive(Debug, Clone)]
pub struct ObjectName {
    pub parts: Vec<Ident>,
}

/// The alias of a relation, with the aliases of its columns.
#[derive(Debug, Clone)]
pub struct TableAlias {
    pub name: Ident,
    pub columns: Vec<Ident>,
}

/// Which rows a clause applies to.
#[derive(Debug, Clone, Copy, PartialEq, Eq, Structural)]
pub enum MergeClauseKind {
    Matched,
    NotMatched,
}

/// The right-hand side of `SET column = ..`.
#[derive(Debug, Clone)]
pub enum AssignmentValue<E> {
    Expr(E),
    Default,
}

/// One `column = value` of `UPDATE SET`. The column may be qualified.
#[derive(Debug, Clone)]
pub struct Assignment<E> {
    pub id: Vec<Ident>,
    pub value: AssignmentValue<E>,
}

/// What a clause does with the rows it applies to.
#[derive(Debug, Clone)]
pub enum MergeAction<E> {
    Update { assignments: Vec<Assignment<E>> },
    Delete,
    Insert { columns: Vec<Ident>, values: Vec<E> },
}

/// One `WHEN [NOT] MATCHED [AND condition] THEN action`.
#[derive(Debug, Clone)]
pub struct MergeClause<E> {
    pub kind: MergeClauseKind,
    pub condition: Option<E>,
    pub action: MergeAction<E>,
}

/// `MERGE INTO table_name [AS table_alias] USING source ON on clauses`.
#[derive(Debug, Clone)]
pub struct MergeStatement<F, E> {
    pub table_name: ObjectName,
    pub table_alias: Option<TableAlias>,
    pub source: F,
    pub on: E,
    pub clauses: Vec<MergeClause<E>>,
}

} // verus!
