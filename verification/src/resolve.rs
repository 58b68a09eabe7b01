//! Resolution of the columns that `UPDATE SET` and `INSERT` assign to.
//!
//! Such a column belongs to the target table, whatever the source provides. It may be qualified
//! by the alias of the target, or by its name where it has no alias.
use std::collections::HashSet;
use std::ops::Range;

use vstd::prelude::*;
use vstd::slice::slice_subrange;

use crate::ast::{Ident, TableAlias};
use crate::catalog::{BoundBaseTable, ColumnCatalog};
#[allow(unused_imports)]
use crate::error::{column_not_found_message, result_view, ErrorCode, ErrorCodeView};

verus! {

broadcast use vstd::std_specs::hash::group_hash_axioms;

/// What the names of assigned columns are resolved against.
pub struct TargetScope {
    /// The columns of the target table, hidden ones among them.
    pub columns: Seq<ColumnCatalog>,
    /// The name of the target table.
    pub table_name: Seq<char>,
    /// The one qualifier that stands for the target table.
    pub qualifier: Seq<char>,
    /// The index of the first column.
    pub start: usize,
}

/// The scope of a target table that is bound under an alias, or under its name without one.
pub open spec fn target_scope(
    target: &BoundBaseTable,
    target_alias: Option<&TableAlias>,
    target_table_name: Seq<char>,
    start: usize,
) -> TargetScope {
    TargetScope {
        columns: target.table_catalog.columns@,
        table_name: target_table_name,
        qualifier: match target_alias {
            Some(alias) => alias.name@,
            None => target_table_name,
        },
        start,
    }
}

/// The position of the first column of a given name.
pub open spec fn first_named(columns: Seq<ColumnCatalog>, name: Seq<char>) -> Option<int>
    decreases columns.len(),
{
    if columns.len() == 0 {
        None
    } else {
        match first_named(columns.drop_last(), name) {
            Some(position) => Some(position),
            None => if columns.last().name@ == name {
                Some(columns.len() - 1)
            } else {
                None
            },
        }
    }
}

impl TargetScope {
    /// Every column has an index in machine range.
    pub open spec fn fits(self) -> bool {
        self.start + self.columns.len() <= usize::MAX + 1
    }

    /// The index of the first column of a given name.
    pub open spec fn column(self, name: Seq<char>) -> Result<usize, ErrorCodeView> {
        match first_named(self.columns, name) {
            Some(position) => Ok((self.start + position) as usize),
            None => Err(
                ErrorCodeView::ItemNotFound(column_not_found_message(name, self.table_name)),
            ),
        }
    }

    /// The index of the column that a reference of one or two parts stands for.
    pub open spec fn reference(self, id: Seq<Ident>) -> Result<usize, ErrorCodeView> {
        if id.len() == 1 {
            self.column(id[0]@)
        } else if id.len() == 2 {
            if id[0]@ == self.qualifier {
                self.column(id[1]@)
            } else {
                Err(
                    ErrorCodeView::BindError(
                        "MERGE target column qualifier must refer to the target table or alias"@,
                    ),
                )
            }
        } else {
            Err(ErrorCodeView::BindError("invalid MERGE target column reference"@))
        }
    }

    /// The indices of the first `count` columns that are not hidden, in the order of the table.
    pub open spec fn visible(self, count: nat) -> Seq<usize>
        decreases count,
    {
        if count == 0 {
            Seq::empty()
        } else {
            let before = self.visible((count - 1) as nat);
            if self.columns[count - 1].is_hidden {
                before
            } else {
                before.push((self.start + (count - 1)) as usize)
            }
        }
    }

    /// The indices of listed columns, each resolved in turn. The first column that cannot be
    /// resolved, or that repeats an earlier one, is an error.
    pub open spec fn listed(self, columns: Seq<Ident>) -> Result<Seq<usize>, ErrorCodeView>
        decreases columns.len(),
    {
        if columns.len() == 0 {
            Ok(Seq::empty())
        } else {
            match self.listed(columns.drop_last()) {
                Err(error) => Err(error),
                Ok(before) => match self.column(columns.last()@) {
                    Err(error) => Err(error),
                    Ok(index) => if before.contains(index) {
                        Err(
                            ErrorCodeView::BindError(
                                "column specified more than once in MERGE INSERT"@,
                            ),
                        )
                    } else {
                        Ok(before.push(index))
                    },
                },
            }
        }
    }

    /// The indices of the columns that an `INSERT` fills: those it lists, or every visible column
    /// where it lists none.
    pub open spec fn insert_columns(self, columns: Seq<Ident>) -> Result<
        Seq<usize>,
        ErrorCodeView,
    > {
        if columns.len() == 0 {
            Ok(self.visible(self.columns.len()))
        } else {
            self.listed(columns)
        }
    }
}

/// An error in a prefix of the listed columns is the error of the whole list.
proof fn lemma_listed_error(scope: TargetScope, columns: Seq<Ident>, count: int)
    requires
        0 <= count <= columns.len(),
        scope.listed(columns.take(count)) is Err,
    ensures
        scope.listed(columns) == scope.listed(columns.take(count)),
    decreases columns.len() - count,
{
    if count == columns.len() {
        assert(columns.take(count) =~= columns);
    } else {
        assert(columns.take(count + 1).drop_last() =~= columns.take(count));
        lemma_listed_error(scope, columns, count + 1);
    }
}

/// The first column of a name in a prefix is the first in the whole.
proof fn lemma_first_named_in_prefix(columns: Seq<ColumnCatalog>, name: Seq<char>, count: int)
    requires
        0 <= count <= columns.len(),
        first_named(columns.take(count), name) is Some,
    ensures
        first_named(columns, name) == first_named(columns.take(count), name),
    decreases columns.len() - count,
{
    if count == columns.len() {
        assert(columns.take(count) =~= columns);
    } else {
        assert(columns.take(count + 1).drop_last() =~= columns.take(count));
        lemma_first_named_in_prefix(columns, name, count + 1);
    }
}

/// The index of the column that a reference of one or two parts stands for.
pub fn resolve_merge_target_index(
    target: &BoundBaseTable,
    target_alias: Option<&TableAlias>,
    target_table_name: &str,
    target_range: &Range<usize>,
    id: &[Ident],
) -> (index: Result<usize, ErrorCode>)
    requires
        target_scope(target, target_alias, target_table_name@, target_range.start).fits(),
    ensures
        result_view(index) == target_scope(
            target,
            target_alias,
            target_table_name@,
            target_range.start,
        ).reference(id@),
{
    let column_name: String = if id.len() == 1 {
        id[0].real_value()
    } else if id.len() == 2 {
        let qualifier: String = id[0].real_value();
        let expected_qualifier: String = match target_alias {
            Some(alias) => alias.name.real_value(),
            None => target_table_name.to_owned(),
        };
        if qualifier != expected_qualifier {
            return Err(
                ErrorCode::bind(
                    "MERGE target column qualifier must refer to the target table or alias",
                ),
            );
        }
        id[1].real_value()
    } else {
        return Err(ErrorCode::bind("invalid MERGE target column reference"));
    };
    let columns: &Vec<ColumnCatalog> = &target.table_catalog.columns;
    for position in 0..columns.len()
        invariant
            columns == target.table_catalog.columns,
            target_range.start + columns@.len() <= usize::MAX + 1,
            first_named(columns@.take(position as int), column_name@) is None,
            target_scope(target, target_alias, target_table_name@, target_range.start).reference(
                id@,
            ) == target_scope(
                target,
                target_alias,
                target_table_name@,
                target_range.start,
            ).column(column_name@),
    {
        proof {
            assert(columns@.take(position + 1).drop_last() =~= columns@.take(position as int));
        }
        if columns[position].name == column_name {
            proof {
                lemma_first_named_in_prefix(columns@, column_name@, position + 1);
            }
            return Ok(target_range.start + position);
        }
    }
    proof {
        assert(columns@.take(columns@.len() as int) =~= columns@);
    }
    Err(ErrorCode::column_not_found(&column_name, target_table_name))
}

/// The indices of the columns that an `INSERT` fills.
pub fn resolve_merge_insert_columns(
    target: &BoundBaseTable,
    target_alias: Option<&TableAlias>,
    target_table_name: &str,
    target_range: &Range<usize>,
    columns: Vec<Ident>,
) -> (indices: Result<Vec<usize>, ErrorCode>)
    requires
        target_scope(target, target_alias, target_table_name@, target_range.start).fits(),
    ensures
        result_view(indices) == target_scope(target, target_alias, target_table_name@, target_range.start).insert_columns(columns@),
{
    let ghost scope = target_scope(target, target_alias, target_table_name@, target_range.start);
    let mut indices: Vec<usize> = Vec::new();
    if columns.len() == 0 {
        for position in 0..target.table_catalog.columns.len()
            invariant
                scope.columns == target.table_catalog.columns@,
                scope.start == target_range.start,
                scope.fits(),
                indices@ == scope.visible(position as nat),
        {
            if !target.table_catalog.columns[position].is_hidden {
                indices.push(target_range.start + position);
            }
        }
        return Ok(indices);
    }
    let mut seen: HashSet<usize> = HashSet::new();
    for count in 0..columns.len()
        invariant
            scope == target_scope(target, target_alias, target_table_name@, target_range.start),
            scope.fits(),
            scope.listed(columns@.take(count as int)) == Ok::<Seq<usize>, ErrorCodeView>(indices@),
            forall|index: usize| seen@.contains(index) <==> indices@.contains(index),
    {
        proof {
            assert(columns@.take(count + 1).drop_last() =~= columns@.take(count as int));
            assert(columns@.take(count + 1).last() == columns@[count as int]);
        }
        let index: usize = match resolve_merge_target_index(
            target,
            target_alias,
            target_table_name,
            target_range,
            slice_subrange(columns.as_slice(), count, count + 1),
        ) {
            Ok(index) => index,
            Err(error) => {
                proof {
                    lemma_listed_error(scope, columns@, count + 1);
                }
                return Err(error);
            },
        };
        if !seen.insert(index) {
            proof {
                lemma_listed_error(scope, columns@, count + 1);
            }
            return Err(ErrorCode::bind("column specified more than once in MERGE INSERT"));
        }
        let ghost before = indices@;
        indices.push(index);
        proof {
            assert forall|other: usize| seen@.contains(other) implies indices@.contains(other) by {
                if other == index {
                    assert(indices@[before.len() as int] == index);
                } else {
                    let k = choose|k: int| 0 <= k < before.len() && before[k] == other;
                    assert(indices@[k] == other);
                }
            }
            assert forall|other: usize| indices@.contains(other) implies seen@.contains(other) by {
                let k = choose|k: int| 0 <= k < indices@.len() && indices@[k] == other;
                if k < before.len() {
                    assert(before[k] == other);
                }
            }
        }
    }
    proof {
        assert(columns@.take(columns@.len() as int) =~= columns@);
    }
    Ok(indices)
}

} // verus!
