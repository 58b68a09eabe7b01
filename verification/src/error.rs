//! The errors of binding a `MERGE`, and the text of each.
use vstd::prelude::*;

verus! {

/// An error that the statement itself is the cause of.
#[derive(Debug, Clone)]
pub enum ErrorCode {
    BindError(String),
    ItemNotFound(String),
}

/// An error as a mathematical value: its kind and its text.
pub enum ErrorCodeView {
    BindError(Seq<char>),
    ItemNotFound(Seq<char>),
}

impl View for ErrorCode {
    type V = ErrorCodeView;

    open spec fn view(&self) -> ErrorCodeView {
        match *self {
            ErrorCode::BindError(message) => ErrorCodeView::BindError(message@),
            ErrorCode::ItemNotFound(message) => ErrorCodeView::ItemNotFound(message@),
        }
    }
}

/// A result with its value and its error taken by their views.
pub open spec fn result_view<T: View>(result: Result<T, ErrorCode>) -> Result<T::V, ErrorCodeView> {
    match result {
        Ok(value) => Ok(value@),
        Err(error) => Err(error@),
    }
}

impl ErrorCode {
    /// A bind error with a fixed text.
    pub fn bind(message: &str) -> (error: ErrorCode)
        ensures
            error@ == ErrorCodeView::BindError(message@),
    {
        ErrorCode::BindError(message.to_owned())
    }

    /// The error for a column that the target table does not have.
    pub fn column_not_found(column: &String, table: &str) -> (error: ErrorCode)
        ensures
            error@ == ErrorCodeView::ItemNotFound(column_not_found_message(column@, table@)),
    {
        let message: String = "column \"".to_owned();
        let message: String = message.concat(column.as_str());
        let message: String = message.concat("\" of relation \"");
        let message: String = message.concat(table);
        ErrorCode::ItemNotFound(message.concat("\""))
    }

    /// The error for an `INSERT` whose columns and values differ in number.
    pub fn insert_arity(columns: usize, values: usize) -> (error: ErrorCode)
        ensures
            error@ == ErrorCodeView::BindError(insert_arity_message(columns as nat, values as nat)),
    {
        let message: String = "MERGE INSERT has ".to_owned();
        let message: String = message.concat(decimal(columns).as_str());
        let message: String = message.concat(" target columns but ");
        let message: String = message.concat(decimal(values).as_str());
        ErrorCode::BindError(message.concat(" values"))
    }

    /// The text of the error.
    pub fn message(&self) -> (message: &str)
        ensures
            message@ == (match self@ {
                ErrorCodeView::BindError(text) => text,
                ErrorCodeView::ItemNotFound(text) => text,
            }),
    {
        match self {
            ErrorCode::BindError(message) => message.as_str(),
            ErrorCode::ItemNotFound(message) => message.as_str(),
        }
    }
}

pub open spec fn column_not_found_message(column: Seq<char>, table: Seq<char>) -> Seq<char> {
    "column \""@ + column + "\" of relation \""@ + table + "\""@
}

pub open spec fn insert_arity_message(columns: nat, values: nat) -> Seq<char> {
    "MERGE INSERT has "@ + decimal_digits(columns) + " target columns but "@ + decimal_digits(
        values,
    ) + " values"@
}

/// The decimal digits of a number, most significant first, without leading zeros.
pub open spec fn decimal_digits(number: nat) -> Seq<char>
    decreases number,
{
    if number < 10 {
        seq![decimal_digit(number)]
    } else {
        decimal_digits(number / 10).push(decimal_digit(number % 10))
    }
}

/// The character that stands for a number below ten.
pub open spec fn decimal_digit(digit: nat) -> char {
    ('0' as int + digit) as char
}

/// The character that stands for a number below ten, as a string.
fn digit_text(digit: usize) -> (text: &'static str)
    requires
        digit < 10,
    ensures
        text@ == seq![decimal_digit(digit as nat)],
{
    proof {
        reveal_strlit("0");
        reveal_strlit("1");
        reveal_strlit("2");
        reveal_strlit("3");
        reveal_strlit("4");
        reveal_strlit("5");
        reveal_strlit("6");
        reveal_strlit("7");
        reveal_strlit("8");
        reveal_strlit("9");
    }
    match digit {
        0 => "0",
        1 => "1",
        2 => "2",
        3 => "3",
        4 => "4",
        5 => "5",
        6 => "6",
        7 => "7",
        8 => "8",
        _ => "9",
    }
}

/// A number in decimal notation.
fn decimal(number: usize) -> (text: String)
    ensures
        text@ == decimal_digits(number as nat),
    decreases number,
{
    if number < 10 {
        digit_text(number).to_owned()
    } else {
        let text: String = decimal(number / 10).concat(digit_text(number % 10));
        assert(text@ =~= decimal_digits(number as nat));
        text
    }
}

} // verus!
