//! Columns: arrow arrays, what they hold, and the calls that read and build them.
//!
//! Arrow's arrays are opaque to the verifier. What a column holds is given by
//! the names `column_type`, `utf8_values`, `int64_values`, `view_texts`,
//! `view_valid`, `view_words` and `view_buffers`; the functions marked
//! `external_body` say, over these names, what the calls into arrow return.
use arrow::array::{
    make_array, Array, ArrayIter, ArrayRef, AsArray, LargeStringArray, StringArray,
};
use arrow::buffer::Buffer;
use datafusion_common::cast::as_int64_array;
use datafusion_common::DataFusionError;
use vstd::prelude::*;
use vstd::utf8::*;

verus! {

/// The shared bytes of a string view array.
#[verifier::external_type_specification]
#[verifier::external_body]
pub struct ExBuffer(Buffer);

/// The error of a cast to an array of a type that the array does not have.
#[verifier::external_type_specification]
#[verifier::external_body]
pub struct ExDataFusionError(DataFusionError);

/// The data types that the function tells apart. `Other` carries the name that
/// arrow prints for any further type.
#[derive(Debug)]
pub enum DataType {
    Utf8,
    LargeUtf8,
    Utf8View,
    Int64,
    Other(String),
}

/// What a `DataType` stands for.
pub enum TypeName {
    Utf8,
    LargeUtf8,
    Utf8View,
    Int64,
    Other(Seq<char>),
}

impl View for DataType {
    type V = TypeName;

    open spec fn view(&self) -> TypeName {
        match self {
            DataType::Utf8 => TypeName::Utf8,
            DataType::LargeUtf8 => TypeName::LargeUtf8,
            DataType::Utf8View => TypeName::Utf8View,
            DataType::Int64 => TypeName::Int64,
            DataType::Other(name) => TypeName::Other(name@),
        }
    }
}

/// One argument or result of the function: an arrow array of any type.
#[verifier::external_body]
#[derive(Debug)]
pub struct Column(pub ArrayRef);

/// The data type of a column.
pub uninterp spec fn column_type(column: Column) -> TypeName;

/// The rows of a `Utf8` or `LargeUtf8` column; `None` stands for a null.
pub uninterp spec fn utf8_values(column: Column) -> Seq<Option<Seq<char>>>;

/// The rows of an `Int64` column; `None` stands for a null.
pub uninterp spec fn int64_values(column: Column) -> Seq<Option<i64>>;

/// The text that the view in each slot of a `Utf8View` column refers to, whether
/// or not the slot is marked null.
pub uninterp spec fn view_texts(column: Column) -> Seq<Seq<char>>;

/// For each slot of a `Utf8View` column, that it is not marked null.
pub uninterp spec fn view_valid(column: Column) -> Seq<bool>;

/// The view in each slot of a `Utf8View` column, as it lies in memory.
pub uninterp spec fn view_words(column: Column) -> Seq<u128>;

/// The buffers that hold the data blocks of a `Utf8View` column, in order. Equal
/// buffers are the same bytes in the same place.
pub uninterp spec fn view_buffers(column: Column) -> Seq<Buffer>;

/// The bytes of a buffer.
pub uninterp spec fn buffer_bytes(buffer: Buffer) -> Seq<u8>;

/// The bytes of each of some buffers.
pub open spec fn bytes_of(buffers: Seq<Buffer>) -> Seq<Seq<u8>> {
    buffers.map_values(|buffer: Buffer| buffer_bytes(buffer))
}

/// The data blocks of a `Utf8View` column, in order.
pub open spec fn view_blocks(column: Column) -> Seq<Seq<u8>> {
    bytes_of(view_buffers(column))
}

/// The rows of a `Utf8View` column; `None` stands for a null.
pub open spec fn view_values(column: Column) -> Seq<Option<Seq<char>>> {
    Seq::new(
        view_texts(column).len(),
        |i: int|
            if view_valid(column)[i] {
                Some(view_texts(column)[i])
            } else {
                None
            },
    )
}

/// The text of a row; the empty one for a null.
pub open spec fn row_text(row: Option<Seq<char>>) -> Seq<char> {
    match row {
        Some(text) => text,
        None => Seq::empty(),
    }
}

/// The longest text, in bytes, that a view holds in itself.
pub const INLINE_BYTES: u32 = 12;

/// The length in bytes of the text that a view refers to: its lowest 32 bits.
pub open spec fn word_length(word: u128) -> int {
    word as int % 0x1_0000_0000
}

/// The block of a text too long for the view itself: bits 64 to 95.
pub open spec fn word_block(word: u128) -> int {
    (word as int / 0x1_0000_0000_0000_0000) % 0x1_0000_0000
}

/// The place in its block of a text too long for the view itself: bits 96 to 127.
pub open spec fn word_offset(word: u128) -> int {
    word as int / 0x1_0000_0000_0000_0000_0000_0000
}

/// A view of `text`: it gives the length of the encoded text, and for one
/// longer than `INLINE_BYTES` the block and the place where its bytes lie.
pub open spec fn refers_to(word: u128, blocks: Seq<Seq<u8>>, text: Seq<char>) -> bool {
    let length = encode_utf8(text).len() as int;
    let block = word_block(word);
    let offset = word_offset(word);
    &&& word_length(word) == length
    &&& length > INLINE_BYTES ==> {
        &&& block < blocks.len()
        &&& offset + length <= blocks[block].len()
        &&& blocks[block].subrange(offset, offset + length) == encode_utf8(text)
    }
}

/// The number of bytes that encode the rows, nulls taking none.
pub open spec fn encoded_size(rows: Seq<Option<Seq<char>>>) -> int
    decreases rows.len(),
{
    if rows.len() == 0 {
        0
    } else {
        encoded_size(rows.drop_last()) + match rows.last() {
            Some(text) => encode_utf8(text).len() as int,
            None => 0,
        }
    }
}

/// What an optional borrowed string stands for.
pub open spec fn borrowed_row(row: Option<&str>) -> Option<Seq<char>> {
    match row {
        Some(text) => Some(text@),
        None => None,
    }
}

/// What optional borrowed strings stand for.
pub open spec fn borrowed_rows(rows: Seq<Option<&str>>) -> Seq<Option<Seq<char>>> {
    rows.map_values(|row: Option<&str>| borrowed_row(row))
}

/// What an optional owned string stands for.
pub open spec fn owned_row(row: Option<String>) -> Option<Seq<char>> {
    match row {
        Some(text) => Some(text@),
        None => None,
    }
}

/// What optional owned strings stand for.
pub open spec fn owned_rows(rows: Seq<Option<String>>) -> Seq<Option<Seq<char>>> {
    rows.map_values(|row: Option<String>| owned_row(row))
}

/// Calls `Array::data_type`. The result names the type of the array; for a type
/// without a variant here it carries what arrow's `Debug` prints for it.
#[verifier::external_body]
pub(crate) fn data_type(column: &Column) -> (name: DataType)
    ensures
        name@ == column_type(*column),
{
    match column.0.data_type() {
        arrow::datatypes::DataType::Utf8 => DataType::Utf8,
        arrow::datatypes::DataType::LargeUtf8 => DataType::LargeUtf8,
        arrow::datatypes::DataType::Utf8View => DataType::Utf8View,
        arrow::datatypes::DataType::Int64 => DataType::Int64,
        other => DataType::Other(format!("{other:?}")),
    }
}

/// Calls `datafusion_common::cast::as_int64_array` and iterates over the array
/// it returns. The cast succeeds exactly on `Int64` arrays; the iterator yields
/// the rows in order, nulls as `None`.
#[verifier::external_body]
pub(crate) fn int64_rows(column: &Column) -> (rows: Result<Vec<Option<i64>>, DataFusionError>)
    ensures
        rows is Ok <==> column_type(*column) == TypeName::Int64,
        rows matches Ok(values) ==> values@ == int64_values(*column),
{
    Ok(as_int64_array(&column.0)?.iter().collect())
}

/// Calls `AsArray::as_string` for 32-bit offsets and iterates with `ArrayIter`.
/// The rows come in order, nulls as `None`. The offsets of such an array are
/// ascending 32-bit integers, so its rows take at most `i32::MAX` bytes.
#[verifier::external_body]
pub(crate) fn utf8_rows(column: &Column) -> (rows: Vec<Option<&str>>)
    requires
        column_type(*column) == TypeName::Utf8,
    ensures
        borrowed_rows(rows@) == utf8_values(*column),
        encoded_size(borrowed_rows(rows@)) <= i32::MAX,
{
    ArrayIter::new(column.0.as_string::<i32>()).collect()
}

/// Calls `AsArray::as_string` for 64-bit offsets and iterates with `ArrayIter`.
/// The rows come in order, nulls as `None`. The offsets of such an array are
/// ascending 64-bit integers, so its rows take at most `i64::MAX` bytes.
#[verifier::external_body]
pub(crate) fn large_utf8_rows(column: &Column) -> (rows: Vec<Option<&str>>)
    requires
        column_type(*column) == TypeName::LargeUtf8,
    ensures
        borrowed_rows(rows@) == utf8_values(*column),
        encoded_size(borrowed_rows(rows@)) <= i64::MAX,
{
    ArrayIter::new(column.0.as_string::<i64>()).collect()
}

/// Collects rows into a `StringArray`, which appends them in order to a builder,
/// and calls `make_array`, which makes a reference to the array out of its data.
/// The builder panics where the offsets do not fit 32 bits; the size rules that out.
#[verifier::external_body]
pub(crate) fn collect_utf8(rows: Vec<Option<String>>) -> (column: Column)
    requires
        encoded_size(owned_rows(rows@)) <= i32::MAX,
    ensures
        column_type(column) == TypeName::Utf8,
        utf8_values(column) == owned_rows(rows@),
{
    Column(make_array(rows.into_iter().collect::<StringArray>().into_data()).into())
}

/// Collects rows into a `LargeStringArray`, which appends them in order to a builder,
/// and calls `make_array`, which makes a reference to the array out of its data.
/// The builder panics where the offsets do not fit 64 bits; the size rules that out.
#[verifier::external_body]
pub(crate) fn collect_large_utf8(rows: Vec<Option<String>>) -> (column: Column)
    requires
        encoded_size(owned_rows(rows@)) <= i64::MAX,
    ensures
        column_type(column) == TypeName::LargeUtf8,
        utf8_values(column) == owned_rows(rows@),
{
    Column(make_array(rows.into_iter().collect::<LargeStringArray>().into_data()).into())
}

/// Calls `GenericByteViewArray::views`: the view in each slot, null or not. Each
/// has arrow's layout for the text that `value` returns for the slot, as the
/// validation of such arrays demands of all views, those of nulls among them.
#[verifier::external_body]
pub(crate) fn views(column: &Column) -> (words: &[u128])
    requires
        column_type(*column) == TypeName::Utf8View,
    ensures
        words@ == view_words(*column),
        words@.len() == view_texts(*column).len(),
        forall|i: int|
            0 <= i < words@.len() ==> refers_to(
                #[trigger] words@[i],
                view_blocks(*column),
                view_texts(*column)[i],
            ),
{
    column.0.as_string_view().views()
}

/// Calls `GenericByteViewArray::data_buffers`: the buffers of the data blocks, in order.
#[verifier::external_body]
pub(crate) fn data_buffers(column: &Column) -> (buffers: &[Buffer])
    requires
        column_type(*column) == TypeName::Utf8View,
    ensures
        buffers@ == view_buffers(*column),
{
    column.0.as_string_view().data_buffers()
}

/// Calls `GenericByteViewArray::value`: the text of one slot, null or not. It
/// panics where the index is out of bounds.
#[verifier::external_body]
pub(crate) fn value(column: &Column, idx: usize) -> (text: &str)
    requires
        column_type(*column) == TypeName::Utf8View,
        idx < view_texts(*column).len(),
    ensures
        text@ == view_texts(*column)[idx as int],
{
    column.0.as_string_view().value(idx)
}

/// Calls `Array::is_valid`: whether one slot is not marked null. It panics where
/// the index is out of bounds.
#[verifier::external_body]
pub(crate) fn is_valid(column: &Column, idx: usize) -> (valid: bool)
    requires
        column_type(*column) == TypeName::Utf8View,
        idx < view_texts(*column).len(),
    ensures
        valid == view_valid(*column)[idx as int],
{
    column.0.is_valid(idx)
}

/// `Buffer::clone` shares the memory of the buffer: the clone is the same bytes
/// in the same place.
pub assume_specification[ <Buffer as Clone>::clone ](buffer: &Buffer) -> (shared: Buffer)
    ensures
        shared == *buffer,
;

/// `Buffer::len` is the number of bytes in the buffer.
pub assume_specification[ Buffer::len ](buffer: &Buffer) -> (length: usize)
    ensures
        length == buffer_bytes(*buffer).len(),
;

} // verus!
