//! Substrings of the rows of a `Utf8View` column.
//!
//! A long substring is a view into the block that holds the text it is taken
//! from; its bytes are not copied.
use crate::builder::{
    append_block, append_null, append_value, builder_buffers, builder_pending, builder_rows,
    builder_words, covered, finish, new_builder, one_more, try_append_view, ViewBuilder,
};
use crate::column::{
    buffer_bytes, bytes_of, column_type, data_buffers, int64_rows, int64_values, is_valid,
    refers_to, row_text, value, view_blocks, view_buffers, view_texts, view_values, view_words,
    views, word_block, word_length, word_offset, Column, TypeName, INLINE_BYTES,
};
use crate::error::{Failure, SubstrError};
use crate::strings::{
    collect_rows, lemma_collect_step, lemma_collect_stops, string_tails, RowResult,
};
use crate::text::{
    asked_for, byte_offset, cut_chars, get_true_start_count, greatest, least,
    lemma_encode_subrange, locate, stop_index,
};
use vstd::prelude::*;
use vstd::utf8::*;

verus! {

/// The row for a text, a start and a count: that of a string column, but that a
/// negative count fails also where the text is null.
pub open spec fn view_span(
    text: Option<Seq<char>>,
    start: Option<i64>,
    count: Option<i64>,
) -> RowResult {
    match (start, count) {
        (Some(s), Some(c)) => if c < 0 {
            Err(Failure::NegativeLength { start: s as int, count: c as int })
        } else {
            match text {
                Some(t) => Ok(Some(asked_for(t, s, Some(c)))),
                None => Ok(None),
            }
        },
        _ => Ok(None),
    }
}

/// The rows of a call with a start and a count column.
pub open spec fn view_spans(
    texts: Seq<Option<Seq<char>>>,
    starts: Seq<Option<i64>>,
    counts: Seq<Option<i64>>,
) -> Seq<RowResult> {
    Seq::new(
        least(least(texts.len() as int, starts.len() as int), counts.len() as int) as nat,
        |i: int| view_span(texts[i], starts[i], counts[i]),
    )
}

/// What a call on these texts with these further arguments gives.
pub open spec fn view_result(texts: Seq<Option<Seq<char>>>, args: Seq<Column>) -> Result<
    Seq<Option<Seq<char>>>,
    Failure,
> {
    if column_type(args[0]) != TypeName::Int64 {
        Err(Failure::NotInt64)
    } else if args.len() == 1 {
        Ok(string_tails(texts, int64_values(args[0])))
    } else if args.len() == 2 {
        if column_type(args[1]) != TypeName::Int64 {
            Err(Failure::NotInt64)
        } else {
            collect_rows(view_spans(texts, int64_values(args[0]), int64_values(args[1])))
        }
    } else {
        Err(Failure::ArgumentCount(args.len() as int))
    }
}

/// Whether a builder takes blocks of these sizes and this number.
pub open spec fn shareable(blocks: Seq<Seq<u8>>) -> bool {
    &&& blocks.len() <= u32::MAX
    &&& forall|i: int| 0 <= i < blocks.len() ==> #[trigger] blocks[i].len() < u32::MAX
}

/// Whether a call goes through without a panic: its blocks can be shared, and
/// there is a start column.
pub open spec fn view_defined(column: Column, args: Seq<Column>) -> bool {
    shareable(view_blocks(column)) && args.len() >= 1
}

/// Whether a view lies where it should: that of a null is zero, and that of a
/// part too long for the view itself points into the block of the text it is
/// taken from, as far behind the beginning of the text as the part begins.
/// `from` is the index of the first character of the part.
pub open spec fn in_place(
    out: u128,
    row: Option<Seq<char>>,
    word: u128,
    text: Seq<char>,
    from: int,
) -> bool {
    match row {
        None => out == 0,
        Some(part) => {
            &&& word_length(out) == encode_utf8(part).len()
            &&& encode_utf8(part).len() > INLINE_BYTES ==> {
                &&& word_block(out) == word_block(word)
                &&& word_offset(out) == word_offset(word) + byte_offset(
                    text,
                    least(from, text.len() as int),
                )
            }
        },
    }
}

/// The index of the first character that row `i` of a call asks for, of those
/// that exist.
pub open spec fn first_index(args: Seq<Column>, i: int) -> int {
    match int64_values(args[0])[i] {
        Some(s) => greatest(s - 1, 0),
        None => 0,
    }
}

/// Whether the views of rows lie where those of a call on `column` should.
pub open spec fn all_in_place(
    words: Seq<u128>,
    rows: Seq<Option<Seq<char>>>,
    column: Column,
    args: Seq<Column>,
) -> bool {
    &&& words.len() == rows.len()
    &&& forall|i: int|
        0 <= i < rows.len() ==> in_place(
            #[trigger] words[i],
            rows[i],
            view_words(column)[i],
            view_texts(column)[i],
            first_index(args, i),
        )
}

/// One more view that lies where it should.
proof fn lemma_one_more_in_place(
    words: Seq<u128>,
    more: Seq<u128>,
    rows: Seq<Option<Seq<char>>>,
    row: Option<Seq<char>>,
    column: Column,
    args: Seq<Column>,
)
    requires
        all_in_place(words, rows, column, args),
        one_more(words, more),
        in_place(
            more.last(),
            row,
            view_words(column)[rows.len() as int],
            view_texts(column)[rows.len() as int],
            first_index(args, rows.len() as int),
        ),
    ensures
        all_in_place(more, rows.push(row), column, args),
{
    assert forall|i: int| 0 <= i < rows.push(row).len() implies in_place(
        #[trigger] more[i],
        rows.push(row)[i],
        view_words(column)[i],
        view_texts(column)[i],
        first_index(args, i),
    ) by {
        if i < rows.len() {
            assert(more[i] == words[i]);
        }
    }
}

/// The fields of a view, as its bits give them.
proof fn lemma_word_fields(word: u128)
    ensures
        word as u32 == word_length(word),
        (word >> 64) as u32 == word_block(word),
        (word >> 96) as u32 == word_offset(word),
{
    assert(word as u32 == word % 0x1_0000_0000) by (bit_vector);
    assert((word >> 64) as u32 == (word / 0x1_0000_0000_0000_0000) % 0x1_0000_0000) by (bit_vector);
    assert((word >> 96) as u32 == word / 0x1_0000_0000_0000_0000_0000_0000) by (bit_vector);
}

/// Appends what `start` and `count` ask of the text in slot `idx`, whose view is
/// `raw`.
fn append_part(
    builder: &mut ViewBuilder,
    column: &Column,
    idx: usize,
    raw: u128,
    start: i64,
    count: Option<i64>,
)
    requires
        column_type(*column) == TypeName::Utf8View,
        idx < view_texts(*column).len(),
        refers_to(raw, view_blocks(*column), view_texts(*column)[idx as int]),
        shareable(view_blocks(*column)),
        builder_buffers(*old(builder)) == view_buffers(*column),
        count matches Some(c) ==> c >= 0,
    ensures
        builder_rows(*final(builder)) == builder_rows(*old(builder)).push(
            Some(asked_for(view_texts(*column)[idx as int], start, count)),
        ),
        one_more(builder_words(*old(builder)), builder_words(*final(builder))),
        in_place(
            builder_words(*final(builder)).last(),
            builder_rows(*final(builder)).last(),
            raw,
            view_texts(*column)[idx as int],
            greatest(start - 1, 0),
        ),
        builder_buffers(*final(builder)) == builder_buffers(*old(builder)),
        builder_pending(*final(builder)) == builder_pending(*old(builder)),
{
    let text: &str = value(column, idx);
    let (skip, length) = locate(text, start, count);
    let ghost from = least(skip as int, text@.len() as int);
    let ghost to = stop_index(text@, skip as int, length as int);
    proof {
        lemma_word_fields(raw);
        lemma_encode_subrange(text@, from, to);
    }
    let bytes: u32 = raw as u32;
    if bytes > INLINE_BYTES {
        let buffer_index: u32 = (raw >> 64) as u32;
        let offset: u32 = (raw >> 96) as u32;
        let (st, ed) = get_true_start_count(text, skip, length);
        let ghost block = view_blocks(*column)[buffer_index as int];
        let appended = try_append_view(builder, buffer_index, offset + st as u32, (ed - st) as u32);
        proof {
            let part = covered(
                view_blocks(*column),
                buffer_index,
                (offset + st) as u32,
                (ed - st) as u32,
            );
            assert(part =~= block.subrange(offset as int, offset + bytes).subrange(
                st as int,
                ed as int,
            ));
            encode_utf8_valid_utf8(text@.subrange(from, to));
            encode_utf8_decode_utf8(text@.subrange(from, to));
            assert(appended is Ok);
        }
    } else {
        append_value(builder, cut_chars(text, skip, length));
    }
}

/// Whether `column` is the `Utf8View` column of these rows that a call on
/// `string_array` gives: it has the same buffers, and its views point into them.
pub open spec fn is_view_column(
    column: Column,
    rows: Seq<Option<Seq<char>>>,
    string_array: Column,
    args: Seq<Column>,
) -> bool {
    &&& column_type(column) == TypeName::Utf8View
    &&& view_values(column) == rows
    &&& view_texts(column) == rows.map_values(|row: Option<Seq<char>>| row_text(row))
    &&& view_buffers(column) == view_buffers(string_array)
    &&& all_in_place(view_words(column), rows, string_array, args)
}

/// The substrings of the texts of `string_array` that start where `args[0]` says
/// and, where there is an `args[1]`, have as many characters as it says.
///
/// The rows end with the shortest column. A row with a null among its inputs is
/// null. The call fails where a further argument is no 64-bit integer column,
/// where there is neither one nor two of them, and at the first row that asks
/// for a negative number of characters, be its text null or not. The result
/// shares the buffers of `string_array`, and the view of a long row points to
/// the bytes it is taken from.
pub fn string_view_substr(string_array: &Column, args: &[Column]) -> (result: Result<
    Column,
    SubstrError,
>)
    requires
        column_type(*string_array) == TypeName::Utf8View,
        view_defined(*string_array, args@),
    ensures
        match view_result(view_values(*string_array), args@) {
            Ok(rows) => result matches Ok(column) && is_view_column(
                column,
                rows,
                *string_array,
                args@,
            ),
            Err(failure) => result matches Err(error) && error@ == failure,
        },
{
    let ghost texts = view_values(*string_array);
    let ghost blocks = view_blocks(*string_array);
    let mut builder = new_builder();
    let buffers = data_buffers(string_array);
    let mut b: usize = 0;
    assert(buffers@.take(0) =~= Seq::empty());
    while b < buffers.len()
        invariant
            b <= buffers.len(),
            blocks == bytes_of(buffers@),
            shareable(blocks),
            builder_rows(builder) == Seq::<Option<Seq<char>>>::empty(),
            builder_words(builder) == Seq::<u128>::empty(),
            builder_buffers(builder) == buffers@.take(b as int),
            builder_pending(builder) == Seq::<u8>::empty(),
        decreases buffers.len() - b,
    {
        assert(blocks[b as int] == buffer_bytes(buffers@[b as int]));
        let _block: u32 = append_block(&mut builder, buffers[b].clone());
        b = b + 1;
        assert(buffers@.take(b as int) =~= buffers@.take(b - 1).push(buffers@[b - 1]));
    }
    assert(buffers@.take(b as int) =~= buffers@);

    let start_array = match int64_rows(&args[0]) {
        Ok(rows) => rows,
        Err(cause) => return Err(SubstrError::NotInt64(cause)),
    };
    let words = views(string_array);
    let mut idx: usize = 0;
    match args.len() {
        1 => {
            let ghost tails = string_tails(texts, start_array@);
            assert(tails.take(0) =~= Seq::empty());
            while idx < words.len() && idx < start_array.len()
                invariant
                    idx <= words.len(),
                    idx <= start_array.len(),
                    texts == view_values(*string_array),
                    blocks == view_blocks(*string_array),
                    column_type(*string_array) == TypeName::Utf8View,
                    words@ == view_words(*string_array),
                    words@.len() == texts.len(),
                    forall|i: int|
                        0 <= i < words@.len() ==> refers_to(
                            #[trigger] words@[i],
                            blocks,
                            view_texts(*string_array)[i],
                        ),
                    shareable(blocks),
                    tails == string_tails(texts, start_array@),
                    args@.len() == 1,
                    start_array@ == int64_values(args@[0]),
                    builder_rows(builder) == tails.take(idx as int),
                    all_in_place(
                        builder_words(builder),
                        builder_rows(builder),
                        *string_array,
                        args@,
                    ),
                    builder_buffers(builder) == view_buffers(*string_array),
                    builder_pending(builder) == Seq::<u8>::empty(),
                decreases words.len() - idx,
            {
                let raw: u128 = words[idx];
                let ghost before_words = builder_words(builder);
                let ghost before_rows = builder_rows(builder);
                assert(tails.take(idx + 1) =~= tails.take(idx as int).push(tails[idx as int]));
                match start_array[idx] {
                    Some(start) => {
                        if is_valid(string_array, idx) {
                            append_part(&mut builder, string_array, idx, raw, start, None);
                        } else {
                            append_null(&mut builder);
                        }
                    },
                    None => {
                        append_null(&mut builder);
                    },
                }
                proof {
                    assert(before_words.push(0).drop_last() =~= before_words);
                    lemma_one_more_in_place(
                        before_words,
                        builder_words(builder),
                        before_rows,
                        builder_rows(builder).last(),
                        *string_array,
                        args@,
                    );
                }
                idx = idx + 1;
            }
            assert(tails.take(idx as int) =~= tails);
        },
        2 => {
            let count_array = match int64_rows(&args[1]) {
                Ok(rows) => rows,
                Err(cause) => return Err(SubstrError::NotInt64(cause)),
            };
            let ghost spans = view_spans(texts, start_array@, count_array@);
            assert(spans.take(0) =~= Seq::empty());
            while idx < words.len() && idx < start_array.len() && idx < count_array.len()
                invariant
                    idx <= words.len(),
                    idx <= start_array.len(),
                    idx <= count_array.len(),
                    texts == view_values(*string_array),
                    blocks == view_blocks(*string_array),
                    column_type(*string_array) == TypeName::Utf8View,
                    words@ == view_words(*string_array),
                    words@.len() == texts.len(),
                    forall|i: int|
                        0 <= i < words@.len() ==> refers_to(
                            #[trigger] words@[i],
                            blocks,
                            view_texts(*string_array)[i],
                        ),
                    shareable(blocks),
                    spans == view_spans(texts, start_array@, count_array@),
                    view_result(texts, args@) == collect_rows(spans),
                    args@.len() == 2,
                    start_array@ == int64_values(args@[0]),
                    builder_rows(builder).len() == idx,
                    collect_rows(spans.take(idx as int)) == Ok::<_, Failure>(builder_rows(builder)),
                    all_in_place(
                        builder_words(builder),
                        builder_rows(builder),
                        *string_array,
                        args@,
                    ),
                    builder_buffers(builder) == view_buffers(*string_array),
                    builder_pending(builder) == Seq::<u8>::empty(),
                decreases words.len() - idx,
            {
                let raw: u128 = words[idx];
                let ghost before_words = builder_words(builder);
                let ghost before_rows = builder_rows(builder);
                proof {
                    lemma_collect_step(spans, idx as int);
                }
                match (start_array[idx], count_array[idx]) {
                    (Some(start), Some(count)) => {
                        if count < 0 {
                            proof {
                                lemma_collect_stops(spans, idx + 1);
                            }
                            return Err(SubstrError::NegativeLength { start, count });
                        }
                        if is_valid(string_array, idx) {
                            append_part(&mut builder, string_array, idx, raw, start, Some(count));
                        } else {
                            append_null(&mut builder);
                        }
                    },
                    _ => {
                        append_null(&mut builder);
                    },
                }
                proof {
                    assert(before_words.push(0).drop_last() =~= before_words);
                    lemma_one_more_in_place(
                        before_words,
                        builder_words(builder),
                        before_rows,
                        builder_rows(builder).last(),
                        *string_array,
                        args@,
                    );
                }
                idx = idx + 1;
            }
            assert(spans.take(idx as int) =~= spans);
        },
        other => {
            return Err(SubstrError::ArgumentCount(other));
        },
    }
    let ghost rows = builder_rows(builder);
    let column = finish(&mut builder);
    assert(view_values(column) =~= rows);
    Ok(column)
}

} // verus!
