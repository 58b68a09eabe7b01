//! Laws of the columns that a statement may name.
use vstd::prelude::*;

use crate::ast::{Ident, MergeStatement, TableAlias};
use crate::binder::statement_scope;
use crate::catalog::{BoundBaseTable, ColumnCatalog};
use crate::error::ErrorCodeView;
use crate::laws::{
    law_an_unlisted_insert_fills_the_visible_columns, law_first_column_of_a_name,
    law_listed_columns_are_known_and_distinct,
};
use crate::resolve::{target_scope, TargetScope};

verus! {

/// Some column bears a name.
pub open spec fn borne(columns: Seq<ColumnCatalog>, name: Seq<char>) -> bool {
    exists|i: int| 0 <= i < columns.len() && (#[trigger] columns[i]).name@ == name
}

/// A column bears a name, and no column before it does.
pub open spec fn first_to_bear(columns: Seq<ColumnCatalog>, name: Seq<char>, index: int) -> bool {
    &&& 0 <= index < columns.len()
    &&& columns[index].name@ == name
    &&& forall|i: int| 0 <= i < index ==> (#[trigger] columns[i]).name@ != name
}

/// Columns have indices just where the index of the last one is in machine range.
pub proof fn law_columns_have_indices(
    target: &BoundBaseTable,
    target_alias: Option<&TableAlias>,
    table_name: Seq<char>,
    start: usize,
)
    ensures
        target_scope(target, target_alias, table_name, start).fits() <==> start
            + target.table_catalog.columns@.len() <= usize::MAX + 1,
{
}

/// What a reference comes to. It names a column alone, or after the alias of the target, or after
/// the name of the target where it has no alias. It stands for the first column of that name, and
/// its index counts from the start of the target. Anything else is refused, each with its error.
pub proof fn law_what_a_reference_stands_for(
    target: &BoundBaseTable,
    target_alias: Option<&TableAlias>,
    table_name: Seq<char>,
    start: usize,
    id: Seq<Ident>,
)
    requires
        start + target.table_catalog.columns@.len() <= usize::MAX + 1,
    ensures
        ({
            let columns = target.table_catalog.columns@;
            let name = id.last().real_value@;
            let qualifies = match target_alias {
                Some(alias) => id[0].real_value@ == alias.name.real_value@,
                None => id[0].real_value@ == table_name,
            };
            match target_scope(target, target_alias, table_name, start).reference(id) {
                Ok(index) => {
                    &&& id.len() == 1 || (id.len() == 2 && qualifies)
                    &&& first_to_bear(columns, name, index - start)
                },
                Err(error) => if id.len() != 1 && id.len() != 2 {
                    error == ErrorCodeView::BindError("invalid MERGE target column reference"@)
                } else if id.len() == 2 && !qualifies {
                    error == ErrorCodeView::BindError(
                        "MERGE target column qualifier must refer to the target table or alias"@,
                    )
                } else {
                    &&& !borne(columns, name)
                    &&& error == ErrorCodeView::ItemNotFound(
                        "column \""@ + name + "\" of relation \""@ + table_name + "\""@,
                    )
                },
            }
        }),
{
    if id.len() > 0 {
        law_first_column_of_a_name(target.table_catalog.columns@, id.last()@);
    }
}

/// Where a statement gives its target an alias, the alias qualifies every column, and nothing
/// else qualifies any.
pub proof fn law_the_alias_qualifies<F, E>(
    statement: MergeStatement<F, E>,
    target: BoundBaseTable,
    qualifier: Ident,
    column: Ident,
)
    requires
        statement.table_alias is Some,
    ensures
        ({
            let alias = statement.table_alias->0.name.real_value@;
            let scope = statement_scope(statement, target);
            &&& qualifier.real_value@ == alias ==> scope.reference(seq![qualifier, column])
                == scope.reference(seq![column])
            &&& qualifier.real_value@ != alias ==> scope.reference(seq![qualifier, column]) == Err::<
                usize,
                ErrorCodeView,
            >(
                ErrorCodeView::BindError(
                    "MERGE target column qualifier must refer to the target table or alias"@,
                ),
            )
        }),
{
}

/// Where a statement gives its target no alias, the name of the table qualifies every column, and
/// nothing else qualifies any.
pub proof fn law_the_name_qualifies_without_an_alias<F, E>(
    statement: MergeStatement<F, E>,
    target: BoundBaseTable,
    qualifier: Ident,
    column: Ident,
)
    requires
        statement.table_alias is None,
    ensures
        ({
            let name = target.table_catalog.name@;
            let scope = statement_scope(statement, target);
            &&& qualifier.real_value@ == name ==> scope.reference(seq![qualifier, column])
                == scope.reference(seq![column])
            &&& qualifier.real_value@ != name ==> scope.reference(seq![qualifier, column]) == Err::<
                usize,
                ErrorCodeView,
            >(
                ErrorCodeView::BindError(
                    "MERGE target column qualifier must refer to the target table or alias"@,
                ),
            )
        }),
{
}

/// Listed columns are all borne and differ in name, up to a count.
pub open spec fn listable(
    columns: Seq<ColumnCatalog>,
    listed: Seq<Ident>,
    count: int,
) -> bool {
    &&& forall|i: int| 0 <= i < count ==> borne(columns, (#[trigger] listed[i]).real_value@)
    &&& forall|i: int, j: int|
        0 <= i < j < count ==> (#[trigger] listed[i]).real_value@ != (
        #[trigger] listed[j]).real_value@
}

/// Columns of different names have different indices, and the same name has one.
proof fn lemma_listed_is_listable(scope: TargetScope, listed: Seq<Ident>)
    requires
        scope.fits(),
    ensures
        scope.listed(listed) is Ok <==> listable(scope.columns, listed, listed.len() as int),
{
    law_listed_columns_are_known_and_distinct(scope, listed);
    assert forall|i: int| 0 <= i < listed.len() implies (scope.column((#[trigger] listed[i])@) is Ok
        <==> borne(scope.columns, listed[i].real_value@)) by {
        law_first_column_of_a_name(scope.columns, listed[i]@);
    }
    assert forall|i: int, j: int|
        0 <= i < j < listed.len() && scope.column(listed[i]@) is Ok && scope.column(
            listed[j]@,
        ) is Ok implies (scope.column((#[trigger] listed[i])@) == scope.column(
        (#[trigger] listed[j])@,
    ) <==> listed[i].real_value@ == listed[j].real_value@) by {
        law_first_column_of_a_name(scope.columns, listed[i]@);
        law_first_column_of_a_name(scope.columns, listed[j]@);
    }
    if listable(scope.columns, listed, listed.len() as int) {
        assert forall|i: int, j: int| 0 <= i < j < listed.len() implies scope.column(
            (#[trigger] listed[i])@,
        ) != scope.column((#[trigger] listed[j])@) by {}
    }
    if scope.listed(listed) is Ok {
        assert forall|i: int, j: int| 0 <= i < j < listed.len() implies (
        #[trigger] listed[i]).real_value@ != (#[trigger] listed[j]).real_value@ by {
            assert(scope.column(listed[i]@) != scope.column(listed[j]@));
        }
    }
}

/// The error of a list is that of its first column that cannot be listed.
proof fn lemma_listed_error(scope: TargetScope, listed: Seq<Ident>) -> (bad: int)
    requires
        scope.fits(),
        scope.listed(listed) is Err,
    ensures
        0 <= bad < listed.len(),
        listable(scope.columns, listed, bad),
        !listable(scope.columns, listed, bad + 1),
        scope.listed(listed)->Err_0 == if borne(scope.columns, listed[bad].real_value@) {
            ErrorCodeView::BindError("column specified more than once in MERGE INSERT"@)
        } else {
            ErrorCodeView::ItemNotFound(
                "column \""@ + listed[bad].real_value@ + "\" of relation \""@ + scope.table_name
                    + "\""@,
            )
        },
    decreases listed.len(),
{
    let before = listed.drop_last();
    assert forall|i: int| 0 <= i < before.len() implies #[trigger] listed[i] == before[i] by {}
    lemma_listed_is_listable(scope, listed);
    lemma_listed_is_listable(scope, before);
    if scope.listed(before) is Err {
        let bad = lemma_listed_error(scope, before);
        assert(listed[bad] == before[bad]);
        assert(listable(scope.columns, listed, bad)) by {
            assert forall|i: int| 0 <= i < bad implies #[trigger] listed[i] == before[i] by {}
        }
        assert(!listable(scope.columns, listed, bad + 1)) by {
            if listable(scope.columns, listed, bad + 1) {
                assert forall|i: int| 0 <= i < bad + 1 implies #[trigger] before[i] == listed[i] by {
                }
                assert(listable(scope.columns, before, bad + 1));
            }
        }
        bad
    } else {
        let bad = listed.len() - 1;
        law_first_column_of_a_name(scope.columns, listed[bad]@);
        assert(listable(scope.columns, listed, bad)) by {
            assert forall|i: int| 0 <= i < bad implies #[trigger] listed[i] == before[i] by {}
        }
        bad
    }
}

/// Which columns an `INSERT` fills. Those that it lists, in the order of the list, each borne by
/// the target and none repeated; the first that is not so is the error. Where it lists none, all
/// that are not hidden, in the order of the table.
pub proof fn law_which_columns_an_insert_fills(
    target: &BoundBaseTable,
    target_alias: Option<&TableAlias>,
    table_name: Seq<char>,
    start: usize,
    listed: Seq<Ident>,
)
    requires
        start + target.table_catalog.columns@.len() <= usize::MAX + 1,
    ensures
        ({
            let columns = target.table_catalog.columns@;
            match target_scope(target, target_alias, table_name, start).insert_columns(listed) {
                Ok(indices) => if listed.len() > 0 {
                    &&& indices.len() == listed.len()
                    &&& listable(columns, listed, listed.len() as int)
                    &&& forall|i: int|
                        #![trigger indices[i]]
                        #![trigger listed[i]]
                        0 <= i < listed.len() ==> first_to_bear(
                            columns,
                            listed[i].real_value@,
                            indices[i] - start,
                        )
                } else {
                    &&& forall|i: int|
                        0 <= i < indices.len() ==> start <= #[trigger] indices[i] < start
                            + columns.len()
                    &&& forall|i: int, j: int|
                        0 <= i < j < indices.len() ==> #[trigger] indices[i] < #[trigger] indices[j]
                    &&& forall|i: int|
                        0 <= i < columns.len() ==> (indices.contains((start + i) as usize) <==> !(
                        #[trigger] columns[i]).is_hidden)
                },
                Err(error) => exists|bad: int|
                    #![trigger listed[bad]]
                    {
                        &&& 0 <= bad < listed.len()
                        &&& listable(columns, listed, bad)
                        &&& !listable(columns, listed, bad + 1)
                        &&& error == if borne(columns, listed[bad].real_value@) {
                            ErrorCodeView::BindError(
                                "column specified more than once in MERGE INSERT"@,
                            )
                        } else {
                            ErrorCodeView::ItemNotFound(
                                "column \""@ + listed[bad].real_value@ + "\" of relation \""@
                                    + table_name + "\""@,
                            )
                        }
                    },
            }
        }),
{
    let scope = target_scope(target, target_alias, table_name, start);
    if listed.len() == 0 {
        law_an_unlisted_insert_fills_the_visible_columns(scope, scope.columns.len());
    } else {
        law_listed_columns_are_known_and_distinct(scope, listed);
        lemma_listed_is_listable(scope, listed);
        if let Ok(indices) = scope.insert_columns(listed) {
            assert forall|i: int|
                #![trigger indices[i]]
                #![trigger listed[i]]
                0 <= i < listed.len() implies first_to_bear(
                scope.columns,
                listed[i].real_value@,
                indices[i] - start,
            ) by {
                law_first_column_of_a_name(scope.columns, listed[i]@);
            }
        } else {
            let bad = lemma_listed_error(scope, listed);
            assert(listable(scope.columns, listed, bad));
        }
    }
}

/// An `INSERT` without a list fills as many columns as the table has that are not hidden.
pub proof fn law_an_unlisted_insert_counts_the_visible_columns(scope: TargetScope, count: nat)
    requires
        count <= scope.columns.len(),
    ensures
        scope.visible(count).len() == scope.columns.take(count as int).filter(
            |column: ColumnCatalog| !column.is_hidden,
        ).len(),
    decreases count,
{
    reveal(Seq::filter);
    if count > 0 {
        law_an_unlisted_insert_counts_the_visible_columns(scope, (count - 1) as nat);
        assert(scope.columns.take(count as int).drop_last() =~= scope.columns.take(count - 1));
    }
}

} // verus!
