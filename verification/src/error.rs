//! The ways in which a call fails, and the texts that report them.
use datafusion_common::DataFusionError;
use vstd::prelude::*;

verus! {

/// The error of a call.
#[derive(Debug)]
pub enum SubstrError {
    /// The first argument is no string column; carries the name of its type.
    UnsupportedType(String),
    /// A start or count column is no 64-bit integer column; carries the error of the cast.
    NotInt64(DataFusionError),
    /// The call has neither two nor three arguments; carries how many follow the first.
    ArgumentCount(usize),
    /// A row asks for a negative number of characters.
    NegativeLength { start: i64, count: i64 },
}

/// What a `SubstrError` stands for.
pub enum Failure {
    UnsupportedType(Seq<char>),
    NotInt64,
    ArgumentCount(int),
    NegativeLength { start: int, count: int },
}

impl View for SubstrError {
    type V = Failure;

    open spec fn view(&self) -> Failure {
        match self {
            SubstrError::UnsupportedType(name) => Failure::UnsupportedType(name@),
            SubstrError::NotInt64(_) => Failure::NotInt64,
            SubstrError::ArgumentCount(found) => Failure::ArgumentCount(*found as int),
            SubstrError::NegativeLength { start, count } => Failure::NegativeLength {
                start: *start as int,
                count: *count as int,
            },
        }
    }
}

/// The decimal digit for a number below ten.
pub open spec fn digit_char(digit: int) -> char {
    ('0' as int + digit) as char
}

/// The decimal notation of a natural number, without leading zeros.
pub open spec fn decimal(number: nat) -> Seq<char>
    decreases number,
{
    if number < 10 {
        seq![digit_char(number as int)]
    } else {
        decimal(number / 10).push(digit_char((number % 10) as int))
    }
}

/// The decimal notation of an integer.
pub open spec fn signed_decimal(number: int) -> Seq<char> {
    if number < 0 {
        seq!['-'] + decimal((-number) as nat)
    } else {
        decimal(number as nat)
    }
}

/// The text that reports a failure; none for a failed cast, whose own error reports it.
pub open spec fn failure_text(failure: Failure) -> Option<Seq<char>> {
    match failure {
        Failure::UnsupportedType(name) => Some(
            "Unsupported data type "@ + name
                + " for function substr,expected Utf8View, Utf8 or LargeUtf8."@,
        ),
        Failure::NotInt64 => None,
        Failure::ArgumentCount(found) => Some(
            "substr was called with "@ + signed_decimal(found)
                + " arguments. It requires 2 or 3."@,
        ),
        Failure::NegativeLength { start, count } => Some(
            "negative substring length not allowed: substr(<str>, "@ + signed_decimal(start)
                + ", "@ + signed_decimal(count) + ")"@,
        ),
    }
}

/// The decimal digit for a number below ten, as a string.
fn digit_str(digit: u128) -> (text: &'static str)
    requires
        digit < 10,
    ensures
        text@ == seq![digit_char(digit as int)],
{
    proof {
        reveal_strlit("0");
        reveal_strlit("1");
        reveal_strlit("2");
        reveal_strlit("3");
        reveal_strlit("4");
        reveal_strlit("5");
        reveal_strlit("6");
        reveal_strlit("7");
        reveal_strlit("8");
        reveal_strlit("9");
    }
    match digit {
        0 => "0",
        1 => "1",
        2 => "2",
        3 => "3",
        4 => "4",
        5 => "5",
        6 => "6",
        7 => "7",
        8 => "8",
        _ => "9",
    }
}

/// Appends the decimal notation of a natural number.
fn append_decimal(out: &mut String, number: u128)
    ensures
        final(out)@ == old(out)@ + decimal(number as nat),
    decreases number,
{
    if number >= 10 {
        append_decimal(out, number / 10);
    }
    out.append(digit_str(number % 10));
}

/// Appends the decimal notation of an integer.
fn append_signed(out: &mut String, number: i128)
    ensures
        final(out)@ == old(out)@ + signed_decimal(number as int),
{
    if number < 0 {
        proof {
            reveal_strlit("-");
        }
        out.append("-");
        let rest: i128 = -(number + 1);
        append_decimal(out, rest as u128 + 1);
    } else {
        append_decimal(out, number as u128);
    }
}

impl SubstrError {
    /// The text that reports the error; none for a failed cast, whose own error reports it.
    pub fn message(&self) -> (text: Option<String>)
        ensures
            text is Some <==> failure_text(self@) is Some,
            text matches Some(message) ==> Some(message@) == failure_text(self@),
    {
        let mut out: String = String::new();
        match self {
            SubstrError::UnsupportedType(name) => {
                out.append("Unsupported data type ");
                out.append(name.as_str());
                out.append(" for function substr,expected Utf8View, Utf8 or LargeUtf8.");
            },
            SubstrError::NotInt64(_) => {
                return None;
            },
            SubstrError::ArgumentCount(found) => {
                out.append("substr was called with ");
                append_signed(&mut out, *found as i128);
                out.append(" arguments. It requires 2 or 3.");
            },
            SubstrError::NegativeLength { start, count } => {
                out.append("negative substring length not allowed: substr(<str>, ");
                append_signed(&mut out, *start as i128);
                out.append(", ");
                append_signed(&mut out, *count as i128);
                out.append(")");
            },
        }
        Some(out)
    }
}

} // verus!
