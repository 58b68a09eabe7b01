//! Laws of names and messages.
use vstd::prelude::*;

use crate::ast::Ident;
use crate::error::{
    column_not_found_message, decimal_digits, insert_arity_message, result_view, ErrorCode,
    ErrorCodeView,
};
use crate::plan::BoolClause;

verus! {

/// An identifier is its real value.
pub proof fn law_an_identifier_is_its_real_value(ident: Ident)
    ensures
        ident@ == ident.real_value@,
{
}

/// An error is its kind and its text.
pub proof fn law_an_error_is_its_kind_and_text(message: String)
    ensures
        ErrorCode::BindError(message)@ == ErrorCodeView::BindError(message@),
        ErrorCode::ItemNotFound(message)@ == ErrorCodeView::ItemNotFound(message@),
{
}

/// A result is its value or its error.
pub proof fn law_a_result_is_its_value_or_error<T: View>(value: T, error: ErrorCode)
    ensures
        result_view(Ok::<T, ErrorCode>(value)) == Ok::<T::V, ErrorCodeView>(value@),
        result_view(Err::<T, ErrorCode>(error)) == Err::<T::V, ErrorCodeView>(error@),
{
}

/// Two errors of different kinds or different texts are different.
pub proof fn law_errors_tell_kind_and_text_apart(first: ErrorCode, second: ErrorCode)
    ensures
        first@ == second@ <==> match (first, second) {
            (ErrorCode::BindError(a), ErrorCode::BindError(b)) => a@ == b@,
            (ErrorCode::ItemNotFound(a), ErrorCode::ItemNotFound(b)) => a@ == b@,
            _ => false,
        },
{
}

/// The message for a missing column quotes the column, then the relation.
pub proof fn law_a_missing_column_is_quoted(column: Seq<char>, table: Seq<char>)
    ensures
        column_not_found_message(column, table) == "column \""@ + column + "\" of relation \""@
            + table + "\""@,
{
}

/// The message for an `INSERT` of the wrong size gives the number of columns, then of values.
pub proof fn law_an_arity_message_counts_columns_then_values(columns: nat, values: nat)
    ensures
        insert_arity_message(columns, values) == "MERGE INSERT has "@ + decimal_digits(columns)
            + " target columns but "@ + decimal_digits(values) + " values"@,
{
}

/// The parts of a statement that have to be boolean are named in messages.
pub proof fn law_boolean_parts_are_named()
    ensures
        BoolClause::On.spec_label() == "MERGE ON"@,
        BoolClause::When.spec_label() == "MERGE WHEN"@,
{
}

/// The number that a sequence of decimal digits stands for.
pub open spec fn decimal_value(digits: Seq<char>) -> int
    decreases digits.len(),
{
    if digits.len() == 0 {
        0
    } else {
        10 * decimal_value(digits.drop_last()) + (digits.last() as int - '0' as int)
    }
}

/// Decimal notation gives back the number that it was made from. It has digits only, at least
/// one, and no leading zero but for zero itself.
pub proof fn law_decimal_notation_gives_back_the_number(number: nat)
    ensures
        decimal_value(decimal_digits(number)) == number,
        decimal_digits(number).len() >= 1,
        forall|i: int|
            0 <= i < decimal_digits(number).len() ==> '0' as int <= #[trigger] decimal_digits(
                number,
            )[i] as int <= '9' as int,
        decimal_digits(number).len() > 1 ==> decimal_digits(number)[0] != '0',
        number > 0 ==> decimal_digits(number)[0] != '0',
    decreases number,
{
    reveal_with_fuel(decimal_value, 2);
    if number < 10 {
        assert(decimal_digits(number).drop_last() =~= Seq::empty());
    } else {
        law_decimal_notation_gives_back_the_number(number / 10);
        assert(decimal_digits(number).drop_last() =~= decimal_digits(number / 10));
    }
}

} // verus!
