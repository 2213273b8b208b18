//! The function on columns of any type.
use crate::column::{
    borrowed_rows, buffer_bytes, bytes_of, collect_large_utf8, collect_utf8, column_type,
    data_buffers, data_type, large_utf8_rows, utf8_rows, utf8_values, view_blocks, view_values,
    Column, DataType, TypeName,
};
use crate::error::{Failure, SubstrError};
use crate::strings::{string_result, string_substr};
use crate::views::{is_view_column, shareable, string_view_substr, view_defined, view_result};
use vstd::prelude::*;
use vstd::slice::slice_subrange;

verus! {

/// The name of a data type.
pub open spec fn type_text(name: TypeName) -> Seq<char> {
    match name {
        TypeName::Utf8 => "Utf8"@,
        TypeName::LargeUtf8 => "LargeUtf8"@,
        TypeName::Utf8View => "Utf8View"@,
        TypeName::Int64 => "Int64"@,
        TypeName::Other(text) => text,
    }
}

/// The arguments behind the first.
pub open spec fn further(args: Seq<Column>) -> Seq<Column> {
    args.subrange(1, args.len() as int)
}

/// Whether a call goes through without a panic: it has a first argument and, for
/// a `Utf8View` column, a second, and the blocks of that column can be shared.
pub open spec fn substr_defined(args: Seq<Column>) -> bool {
    &&& args.len() >= 1
    &&& column_type(args[0]) == TypeName::Utf8View ==> view_defined(args[0], further(args))
}

/// Whether a result is that of a call: a column of the type of the first
/// argument with the rows that the other arguments call for, or the failure.
pub open spec fn is_substr(args: Seq<Column>, result: Result<Column, SubstrError>) -> bool {
    match column_type(args[0]) {
        TypeName::Utf8 | TypeName::LargeUtf8 => match string_result(
            utf8_values(args[0]),
            further(args),
        ) {
            Ok(rows) => result matches Ok(column) && column_type(column) == column_type(args[0])
                && utf8_values(column) == rows,
            Err(failure) => result matches Err(error) && error@ == failure,
        },
        TypeName::Utf8View => match view_result(view_values(args[0]), further(args)) {
            Ok(rows) => result matches Ok(column) && is_view_column(
                column,
                rows,
                args[0],
                further(args),
            ),
            Err(failure) => result matches Err(error) && error@ == failure,
        },
        name => result matches Err(error) && error@ == Failure::UnsupportedType(type_text(name)),
    }
}

/// Extracts the substring of string starting at the start'th character, and extending for count
/// characters if that is specified. (Same as substring(string from start for count).)
///
/// substr('alphabet', 3) = 'phabet'
///
/// substr('alphabet', 3, 2) = 'ph'
///
/// Characters are Unicode code points. The first argument is the column of
/// strings, the second that of starts, and the third, if any, that of counts.
pub fn substr(args: &[Column]) -> (result: Result<Column, SubstrError>)
    requires
        substr_defined(args@),
    ensures
        is_substr(args@, result),
{
    let rest = slice_subrange(args, 1, args.len());
    match data_type(&args[0]) {
        DataType::Utf8 => {
            let rows = utf8_rows(&args[0]);
            match string_substr(&rows, rest) {
                Ok(parts) => Ok(collect_utf8(parts)),
                Err(error) => Err(error),
            }
        },
        DataType::LargeUtf8 => {
            let rows = large_utf8_rows(&args[0]);
            match string_substr(&rows, rest) {
                Ok(parts) => Ok(collect_large_utf8(parts)),
                Err(error) => Err(error),
            }
        },
        DataType::Utf8View => string_view_substr(&args[0], rest),
        DataType::Int64 => Err(SubstrError::UnsupportedType("Int64".to_owned())),
        DataType::Other(name) => Err(SubstrError::UnsupportedType(name)),
    }
}

/// Whether a builder takes the blocks of a `Utf8View` column.
fn blocks_in_bounds(column: &Column) -> (defined: bool)
    requires
        column_type(*column) == TypeName::Utf8View,
    ensures
        defined == shareable(view_blocks(*column)),
{
    let buffers = data_buffers(column);
    let ghost blocks = view_blocks(*column);
    assert(blocks.len() == buffers@.len());
    let limit: usize = u32::MAX as usize;
    if buffers.len() > limit {
        return false;
    }
    let mut i: usize = 0;
    while i < buffers.len()
        invariant
            i <= buffers.len(),
            limit == u32::MAX,
            blocks == bytes_of(buffers@),
            blocks == view_blocks(*column),
            blocks.len() <= u32::MAX,
            forall|j: int| 0 <= j < i ==> #[trigger] blocks[j].len() < u32::MAX,
        decreases buffers.len() - i,
    {
        assert(blocks[i as int] == buffer_bytes(buffers@[i as int]));
        if buffers[i].len() >= limit {
            return false;
        }
        i = i + 1;
    }
    true
}

/// The result of `substr`, or `None` where the call would panic: where there is
/// no first argument or, for a `Utf8View` column, no second, and where the data
/// blocks of such a column are too large or too many to share.
pub fn try_substr(args: &[Column]) -> (result: Option<Result<Column, SubstrError>>)
    ensures
        result is Some <==> substr_defined(args@),
        result matches Some(outcome) ==> is_substr(args@, outcome),
{
    if args.len() == 0 {
        return None;
    }
    if let DataType::Utf8View = data_type(&args[0]) {
        if args.len() == 1 || !blocks_in_bounds(&args[0]) {
            return None;
        }
    }
    Some(substr(args))
}

} // verus!
