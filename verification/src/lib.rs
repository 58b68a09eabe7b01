//! Binding of the SQL `MERGE` statement.
//!
//! `MERGE INTO target USING source ON condition WHEN [NOT] MATCHED .. THEN ..` is bound in the
//! order in which it is written. The names of relations and the expressions are bound by whoever
//! keeps the catalog and the scope. This library decides what is to be bound next, resolves the
//! columns of the target that the clauses assign to, finds the errors of the statement, and puts
//! the bound statement together.
//!
//! - [`ast`] is the parsed statement, [`catalog`] what is known of the target table.
//! - [`resolve`] resolves the columns that `UPDATE SET` and `INSERT` name.
//! - [`plan`] turns clauses into requests, and answers into bound clauses.
//! - [`binder`] runs a statement, from its target to the bound [`merge`].
//! - [`rewrite`] rewrites the expressions of a bound statement in place.
//! - [`laws`] states what holds of all of this together.
pub mod ast;
pub mod binder;
pub mod catalog;
pub mod error;
pub mod laws;
pub mod merge;
pub mod plan;
pub mod resolve;
pub mod rewrite;
