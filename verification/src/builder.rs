//! The builder of string view columns.
//!
//! A builder holds rows and data blocks: a row longer than `INLINE_BYTES` lies
//! in a block. Blocks come either whole, to be shared, or from bytes that the
//! builder has copied and not yet closed off.
use crate::column::{
    buffer_bytes, bytes_of, column_type, row_text, view_buffers, view_texts, view_valid,
    view_words, word_block, word_length, word_offset, Column, TypeName, INLINE_BYTES,
};
use arrow::array::{ArrayBuilder, StringViewBuilder};
use arrow::buffer::Buffer;
use arrow::error::ArrowError;
use vstd::prelude::*;
use vstd::utf8::*;

verus! {

/// The error of a view that does not fit the builder's blocks.
#[verifier::external_type_specification]
#[verifier::external_body]
pub struct ExArrowError(ArrowError);

/// Arrow's builder of string view arrays.
#[verifier::external_body]
pub struct ViewBuilder {
    inner: StringViewBuilder,
}

/// The rows appended so far; `None` stands for a null.
pub uninterp spec fn builder_rows(builder: ViewBuilder) -> Seq<Option<Seq<char>>>;

/// The views of the rows appended so far, as they lie in memory.
pub uninterp spec fn builder_words(builder: ViewBuilder) -> Seq<u128>;

/// The buffers of the closed data blocks, in order.
pub uninterp spec fn builder_buffers(builder: ViewBuilder) -> Seq<Buffer>;

/// The copied bytes that no closed block holds yet.
pub uninterp spec fn builder_pending(builder: ViewBuilder) -> Seq<u8>;

/// The closed data blocks, in order.
pub open spec fn builder_blocks(builder: ViewBuilder) -> Seq<Seq<u8>> {
    bytes_of(builder_buffers(builder))
}

/// The bytes of a block that a view covers.
pub open spec fn covered(blocks: Seq<Seq<u8>>, block: u32, offset: u32, len: u32) -> Seq<u8> {
    blocks[block as int].subrange(offset as int, offset + len)
}

/// A view into the blocks that covers a text.
pub open spec fn covers_text(blocks: Seq<Seq<u8>>, block: u32, offset: u32, len: u32) -> bool {
    &&& block < blocks.len()
    &&& offset + len <= blocks[block as int].len()
    &&& valid_utf8(covered(blocks, block, offset, len))
}

/// Whether one view was appended to others.
pub open spec fn one_more(words: Seq<u128>, more: Seq<u128>) -> bool {
    more.len() == words.len() + 1 && more.drop_last() == words
}

/// Calls `StringViewBuilder::new`: no rows, no blocks, nothing copied.
#[verifier::external_body]
pub(crate) fn new_builder() -> (builder: ViewBuilder)
    ensures
        builder_rows(builder) == Seq::<Option<Seq<char>>>::empty(),
        builder_words(builder) == Seq::<u128>::empty(),
        builder_buffers(builder) == Seq::<Buffer>::empty(),
        builder_pending(builder) == Seq::<u8>::empty(),
{
    ViewBuilder { inner: StringViewBuilder::new() }
}

/// Calls `GenericByteViewBuilder::append_block`: the buffer becomes the next
/// block, and the result is its number. Copied bytes would be closed off as a
/// block first. It panics on a block of `u32::MAX` or more bytes, and where
/// there are `u32::MAX` blocks.
#[verifier::external_body]
pub(crate) fn append_block(builder: &mut ViewBuilder, buffer: Buffer) -> (block: u32)
    requires
        buffer_bytes(buffer).len() < u32::MAX,
        builder_buffers(*old(builder)).len() < u32::MAX,
        builder_pending(*old(builder)).len() == 0,
    ensures
        block == builder_buffers(*old(builder)).len(),
        builder_rows(*final(builder)) == builder_rows(*old(builder)),
        builder_words(*final(builder)) == builder_words(*old(builder)),
        builder_buffers(*final(builder)) == builder_buffers(*old(builder)).push(buffer),
        builder_pending(*final(builder)) == builder_pending(*old(builder)),
{
    builder.inner.append_block(buffer)
}

/// Calls `GenericByteViewBuilder::append_null`: one more row, a null, whose view
/// is zero.
#[verifier::external_body]
pub(crate) fn append_null(builder: &mut ViewBuilder)
    ensures
        builder_rows(*final(builder)) == builder_rows(*old(builder)).push(None),
        builder_words(*final(builder)) == builder_words(*old(builder)).push(0),
        builder_buffers(*final(builder)) == builder_buffers(*old(builder)),
        builder_pending(*final(builder)) == builder_pending(*old(builder)),
{
    builder.inner.append_null();
}

/// Calls `GenericByteViewBuilder::append_value` on a text that fits a view: one
/// more row, with that text. Its view gives the length of the encoded text.
/// Nothing is copied to a block.
#[verifier::external_body]
pub(crate) fn append_value(builder: &mut ViewBuilder, text: &str)
    requires
        encode_utf8(text@).len() <= INLINE_BYTES,
    ensures
        builder_rows(*final(builder)) == builder_rows(*old(builder)).push(Some(text@)),
        one_more(builder_words(*old(builder)), builder_words(*final(builder))),
        word_length(builder_words(*final(builder)).last()) == encode_utf8(text@).len(),
        builder_buffers(*final(builder)) == builder_buffers(*old(builder)),
        builder_pending(*final(builder)) == builder_pending(*old(builder)),
{
    builder.inner.append_value(text);
}

/// Calls `GenericByteViewBuilder::try_append_view`: one more row, with the text
/// that the given bytes of the given block encode. Its view gives their number
/// and, where they do not fit the view itself, the block and the place. It
/// fails, and appends nothing, where there is no such block, the bytes are out
/// of its bounds, or they encode no text.
#[verifier::external_body]
pub(crate) fn try_append_view(
    builder: &mut ViewBuilder,
    block: u32,
    offset: u32,
    len: u32,
) -> (appended: Result<(), ArrowError>)
    ensures
        appended is Ok <==> covers_text(builder_blocks(*old(builder)), block, offset, len),
        builder_rows(*final(builder)) == if appended is Ok {
            builder_rows(*old(builder)).push(
                Some(decode_utf8(covered(builder_blocks(*old(builder)), block, offset, len))),
            )
        } else {
            builder_rows(*old(builder))
        },
        appended is Err ==> builder_words(*final(builder)) == builder_words(*old(builder)),
        appended is Ok ==> {
            let word = builder_words(*final(builder)).last();
            &&& one_more(builder_words(*old(builder)), builder_words(*final(builder)))
            &&& word_length(word) == len
            &&& len > INLINE_BYTES ==> word_block(word) == block && word_offset(word) == offset
        },
        builder_buffers(*final(builder)) == builder_buffers(*old(builder)),
        builder_pending(*final(builder)) == builder_pending(*old(builder)),
{
    builder.inner.try_append_view(block, offset, len)
}

/// Calls `finish` of the builder as an `ArrayBuilder`, with no copied bytes
/// pending: a reference to the array of the rows, with the closed blocks. The
/// views are those appended; that of a null is a view of the empty text. The
/// builder is left empty.
#[verifier::external_body]
pub(crate) fn finish(builder: &mut ViewBuilder) -> (column: Column)
    requires
        builder_pending(*old(builder)).len() == 0,
    ensures
        column_type(column) == TypeName::Utf8View,
        view_texts(column) == builder_rows(*old(builder)).map_values(
            |row: Option<Seq<char>>| row_text(row),
        ),
        view_valid(column) == builder_rows(*old(builder)).map_values(
            |row: Option<Seq<char>>| row is Some,
        ),
        view_words(column) == builder_words(*old(builder)),
        view_buffers(column) == builder_buffers(*old(builder)),
        builder_rows(*final(builder)) == Seq::<Option<Seq<char>>>::empty(),
        builder_words(*final(builder)) == Seq::<u128>::empty(),
        builder_buffers(*final(builder)) == Seq::<Buffer>::empty(),
        builder_pending(*final(builder)) == Seq::<u8>::empty(),
{
    Column(ArrayBuilder::finish(&mut builder.inner).into())
}

} // verus!
