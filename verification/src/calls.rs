//! What calls give, stated on the columns and values themselves.
//!
//! Each law says in full what a contract comes to: a row by the characters of its
//! text, a failure by its variant and what that carries, and a column by the
//! names of what it holds. None explains one definition by another.
use crate::column::{
    borrowed_rows, buffer_bytes, column_type, encoded_size, int64_values, owned_rows, utf8_values,
    view_blocks, view_buffers, view_texts, view_valid, view_values, view_words, Column, DataType,
    TypeName,
};
use crate::dispatch::{further, is_substr, substr_defined};
use crate::error::{decimal, failure_text, signed_decimal, Failure, SubstrError};
use crate::func::{accepted_shapes, result_type, Signature, SubstrFunc, Volatility};
use crate::laws::law_rows_or_first_failure;
use crate::strings::{string_result, string_span, string_spans, string_tail};
use crate::text::{byte_offset, least, lemma_encode_subrange, stop_index, window};
use crate::views::{is_view_column, view_defined, view_result, view_span, view_spans};
use vstd::prelude::*;
use vstd::utf8::*;

verus! {

/// The part of a text from a start on: all of it for a start of one or less,
/// else all but the characters before the start'th. A text or a start that is
/// null gives a null.
pub proof fn law_row_from_a_start(text: Option<Seq<char>>, start: Option<i64>)
    ensures
        match (text, start) {
            (Some(t), Some(s)) => string_tail(text, start) matches Some(part) && {
                &&& s <= 1 ==> part == t
                &&& 1 <= s <= t.len() ==> part == t.subrange(s - 1, t.len() as int)
                &&& s > t.len() ==> part.len() == 0
            },
            _ => string_tail(text, start) is None,
        },
{
    if let (Some(t), Some(s)) = (text, start) {
        assert(s <= 1 ==> window(t, s - 1, t.len() as int) =~= t);
    }
}

/// The part of a text from a start on, with a count: the characters at the
/// positions from the start on, as many positions as the count says, of those
/// that lie in the text. A null gives a null, but that on view columns a negative
/// count fails beside a null text as well.
pub proof fn law_row_from_a_start_and_count(
    text: Option<Seq<char>>,
    start: Option<i64>,
    count: Option<i64>,
)
    ensures
        match (text, start, count) {
            (Some(t), Some(s), Some(c)) => {
                let behind = s - 1 + c;
                &&& view_span(text, start, count) == string_span(text, start, count)
                &&& c < 0 ==> string_span(text, start, count) == Err::<Option<Seq<char>>, Failure>(
                    Failure::NegativeLength { start: s as int, count: c as int },
                )
                &&& c >= 0 ==> (string_span(text, start, count) matches Ok(Some(part)) && {
                    &&& s > t.len() || behind <= 0 ==> part.len() == 0
                    &&& 1 <= s <= t.len() && behind <= t.len() ==> part == t.subrange(s - 1, behind)
                    &&& 1 <= s <= t.len() && behind > t.len() ==> part == t.subrange(
                        s - 1,
                        t.len() as int,
                    )
                    &&& s < 1 && 0 < behind <= t.len() ==> part == t.subrange(0, behind)
                    &&& s < 1 && behind > t.len() ==> part == t
                })
            },
            (None, Some(s), Some(c)) => {
                &&& string_span(text, start, count) == Ok::<Option<Seq<char>>, Failure>(None)
                &&& c >= 0 ==> view_span(text, start, count) == Ok::<Option<Seq<char>>, Failure>(
                    None,
                )
                &&& c < 0 ==> view_span(text, start, count) == Err::<Option<Seq<char>>, Failure>(
                    Failure::NegativeLength { start: s as int, count: c as int },
                )
            },
            _ => {
                &&& string_span(text, start, count) == Ok::<Option<Seq<char>>, Failure>(None)
                &&& view_span(text, start, count) == Ok::<Option<Seq<char>>, Failure>(None)
            },
        },
{
    if let (Some(t), Some(s), Some(c)) = (text, start, count) {
        let part = window(t, s - 1, s - 1 + c);
        assert(s < 1 && s - 1 + c > t.len() ==> part =~= t);
    }
}

/// With a start column, texts give one row each, as far as the columns go: the
/// text from the start on. Texts of a view column give the same as others.
pub proof fn law_rows_from_a_start(texts: Seq<Option<Seq<char>>>, args: Seq<Column>, i: int)
    requires
        args.len() == 1,
        column_type(args[0]) == TypeName::Int64,
    ensures
        view_result(texts, args) == string_result(texts, args),
        string_result(texts, args) matches Ok(rows) && {
            let starts = int64_values(args[0]);
            &&& rows.len() <= texts.len()
            &&& rows.len() <= starts.len()
            &&& rows.len() == texts.len() || rows.len() == starts.len()
            &&& 0 <= i < rows.len() ==> match (texts[i], starts[i]) {
                (Some(t), Some(s)) => rows[i] matches Some(part) && {
                    &&& s <= 1 ==> part == t
                    &&& 1 <= s <= t.len() ==> part == t.subrange(s - 1, t.len() as int)
                    &&& s > t.len() ==> part.len() == 0
                },
                _ => rows[i] is None,
            }
        },
{
    law_row_from_a_start(texts[i], int64_values(args[0])[i]);
}

/// With a start and a count column, texts give one row each, as far as the
/// columns go, unless a row without a null has a negative count; then the first
/// such row is the failure.
pub proof fn law_rows_from_a_start_and_count(
    texts: Seq<Option<Seq<char>>>,
    args: Seq<Column>,
    i: int,
)
    requires
        args.len() == 2,
        column_type(args[0]) == TypeName::Int64,
        column_type(args[1]) == TypeName::Int64,
    ensures
        ({
            let starts = int64_values(args[0]);
            let counts = int64_values(args[1]);
            match string_result(texts, args) {
                Ok(rows) => {
                    &&& rows.len() <= texts.len()
                    &&& rows.len() <= starts.len()
                    &&& rows.len() <= counts.len()
                    &&& rows.len() == texts.len() || rows.len() == starts.len() || rows.len()
                        == counts.len()
                    &&& 0 <= i < rows.len() ==> match (texts[i], starts[i], counts[i]) {
                        (Some(t), Some(s), Some(c)) => c >= 0 && rows[i] is Some && {
                            let part = rows[i]->0;
                            let behind = s - 1 + c;
                            &&& s > t.len() || behind <= 0 ==> part.len() == 0
                            &&& 1 <= s <= t.len() && behind <= t.len() ==> part == t.subrange(
                                s - 1,
                                behind,
                            )
                            &&& 1 <= s <= t.len() && behind > t.len() ==> part == t.subrange(
                                s - 1,
                                t.len() as int,
                            )
                            &&& s < 1 && 0 < behind <= t.len() ==> part == t.subrange(0, behind)
                            &&& s < 1 && behind > t.len() ==> part == t
                        },
                        _ => rows[i] is None,
                    }
                },
                Err(failure) => exists|k: int|
                    {
                        &&& 0 <= k < texts.len()
                        &&& k < starts.len()
                        &&& k < counts.len()
                        &&& (#[trigger] texts[k]) is Some
                        &&& starts[k] is Some
                        &&& counts[k] is Some
                        &&& counts[k]->0 < 0
                        &&& failure == (Failure::NegativeLength {
                            start: starts[k]->0 as int,
                            count: counts[k]->0 as int,
                        })
                        &&& forall|j: int|
                            0 <= j < k && (#[trigger] texts[j]) is Some && starts[j] is Some
                                && counts[j] is Some ==> counts[j]->0 >= 0
                    },
            }
        }),
{
    let starts = int64_values(args[0]);
    let counts = int64_values(args[1]);
    let spans = string_spans(texts, starts, counts);
    law_rows_or_first_failure(spans);
    law_row_from_a_start_and_count(texts[i], starts[i], counts[i]);
    match string_result(texts, args) {
        Ok(rows) => {
            if 0 <= i < rows.len() {
                assert(spans[i] == Ok::<_, Failure>(rows[i]));
            }
        },
        Err(failure) => {
            let k = choose|k: int|
                {
                    &&& 0 <= k < spans.len()
                    &&& #[trigger] spans[k] == Err::<Option<Seq<char>>, Failure>(failure)
                    &&& forall|j: int| 0 <= j < k ==> #[trigger] spans[j] is Ok
                };
            assert(texts[k] is Some);
            assert forall|j: int|
                0 <= j < k && (#[trigger] texts[j]) is Some && starts[j] is Some
                    && counts[j] is Some implies counts[j]->0 >= 0 by {
                assert(spans[j] is Ok);
            }
        },
    }
}

/// With a start and a count column, the texts of a view column give one row
/// each, as far as the columns go, unless a row with a start has a negative
/// count; then the first such row is the failure.
pub proof fn law_view_rows_from_a_start_and_count(
    texts: Seq<Option<Seq<char>>>,
    args: Seq<Column>,
    i: int,
)
    requires
        args.len() == 2,
        column_type(args[0]) == TypeName::Int64,
        column_type(args[1]) == TypeName::Int64,
    ensures
        ({
            let starts = int64_values(args[0]);
            let counts = int64_values(args[1]);
            match view_result(texts, args) {
                Ok(rows) => {
                    &&& rows.len() <= texts.len()
                    &&& rows.len() <= starts.len()
                    &&& rows.len() <= counts.len()
                    &&& rows.len() == texts.len() || rows.len() == starts.len() || rows.len()
                        == counts.len()
                    &&& 0 <= i < rows.len() && starts[i] is Some && counts[i] is Some ==> counts[i]->0
                        >= 0
                    &&& 0 <= i < rows.len() ==> match (texts[i], starts[i], counts[i]) {
                        (Some(t), Some(s), Some(c)) => rows[i] is Some && {
                            let part = rows[i]->0;
                            let behind = s - 1 + c;
                            &&& s > t.len() || behind <= 0 ==> part.len() == 0
                            &&& 1 <= s <= t.len() && behind <= t.len() ==> part == t.subrange(
                                s - 1,
                                behind,
                            )
                            &&& 1 <= s <= t.len() && behind > t.len() ==> part == t.subrange(
                                s - 1,
                                t.len() as int,
                            )
                            &&& s < 1 && 0 < behind <= t.len() ==> part == t.subrange(0, behind)
                            &&& s < 1 && behind > t.len() ==> part == t
                        },
                        _ => rows[i] is None,
                    }
                },
                Err(failure) => exists|k: int|
                    {
                        &&& 0 <= k < texts.len()
                        &&& k < starts.len()
                        &&& k < counts.len()
                        &&& (#[trigger] starts[k]) is Some
                        &&& counts[k] is Some
                        &&& counts[k]->0 < 0
                        &&& failure == (Failure::NegativeLength {
                            start: starts[k]->0 as int,
                            count: counts[k]->0 as int,
                        })
                        &&& forall|j: int|
                            0 <= j < k && (#[trigger] starts[j]) is Some && counts[j] is Some
                                ==> counts[j]->0 >= 0
                    },
            }
        }),
{
    let starts = int64_values(args[0]);
    let counts = int64_values(args[1]);
    let spans = view_spans(texts, starts, counts);
    law_rows_or_first_failure(spans);
    law_row_from_a_start_and_count(texts[i], starts[i], counts[i]);
    match view_result(texts, args) {
        Ok(rows) => {
            if 0 <= i < rows.len() {
                assert(spans[i] == Ok::<_, Failure>(rows[i]));
            }
        },
        Err(failure) => {
            let k = choose|k: int|
                {
                    &&& 0 <= k < spans.len()
                    &&& #[trigger] spans[k] == Err::<Option<Seq<char>>, Failure>(failure)
                    &&& forall|j: int| 0 <= j < k ==> #[trigger] spans[j] is Ok
                };
            assert(starts[k] is Some);
            assert forall|j: int|
                0 <= j < k && (#[trigger] starts[j]) is Some && counts[j] is Some implies counts[j]->0
                >= 0 by {
                assert(spans[j] is Ok);
            }
        },
    }
}

/// Further arguments of the wrong number or type fail, whatever the texts. Beside
/// other string columns their number is looked at first; beside a view column
/// the type of the first is.
pub proof fn law_wrong_further_arguments(texts: Seq<Option<Seq<char>>>, args: Seq<Column>)
    ensures
        args.len() == 0 || args.len() > 2 ==> string_result(texts, args) == Err::<
            Seq<Option<Seq<char>>>,
            Failure,
        >(Failure::ArgumentCount(args.len() as int)),
        args.len() == 1 && column_type(args[0]) != TypeName::Int64 ==> string_result(texts, args)
            == Err::<Seq<Option<Seq<char>>>, Failure>(Failure::NotInt64),
        args.len() == 2 && (column_type(args[0]) != TypeName::Int64 || column_type(args[1])
            != TypeName::Int64) ==> string_result(texts, args) == Err::<
            Seq<Option<Seq<char>>>,
            Failure,
        >(Failure::NotInt64),
        args.len() >= 1 && column_type(args[0]) != TypeName::Int64 ==> view_result(texts, args)
            == Err::<Seq<Option<Seq<char>>>, Failure>(Failure::NotInt64),
        args.len() == 2 && column_type(args[1]) != TypeName::Int64 ==> view_result(texts, args)
            == Err::<Seq<Option<Seq<char>>>, Failure>(Failure::NotInt64),
        args.len() > 2 && column_type(args[0]) == TypeName::Int64 ==> view_result(texts, args)
            == Err::<Seq<Option<Seq<char>>>, Failure>(Failure::ArgumentCount(args.len() as int)),
{
}

/// `substr(string, start)` on a `Utf8` or `LargeUtf8` column never fails. It gives
/// a column of the same type, with a row for each as far as the columns go: the
/// text from the start'th character to its end.
pub proof fn law_string_call_from_a_start(
    args: Seq<Column>,
    result: Result<Column, SubstrError>,
    i: int,
)
    requires
        args.len() == 2,
        column_type(args[0]) == TypeName::Utf8 || column_type(args[0]) == TypeName::LargeUtf8,
        column_type(args[1]) == TypeName::Int64,
        is_substr(args, result),
    ensures
        result is Ok,
        ({
            let texts = utf8_values(args[0]);
            let starts = int64_values(args[1]);
            let rows = utf8_values(result->Ok_0);
            &&& column_type(result->Ok_0) == column_type(args[0])
            &&& rows.len() <= texts.len()
            &&& rows.len() <= starts.len()
            &&& rows.len() == texts.len() || rows.len() == starts.len()
            &&& 0 <= i < rows.len() ==> match (texts[i], starts[i]) {
                (Some(t), Some(s)) => rows[i] matches Some(part) && {
                    &&& s <= 1 ==> part == t
                    &&& 1 <= s <= t.len() ==> part == t.subrange(s - 1, t.len() as int)
                    &&& s > t.len() ==> part.len() == 0
                },
                _ => rows[i] is None,
            }
        }),
{
    assert(further(args)[0] == args[1]);
    law_rows_from_a_start(utf8_values(args[0]), further(args), i);
}

/// `substr(string, start, count)` on a `Utf8` or `LargeUtf8` column gives a column
/// of the same type, with a row for each as far as the columns go: the
/// characters at the `count` positions from the start'th on that lie in the
/// text. It fails exactly where a row without a null has a negative count, and
/// reports the start and the count of the first such row.
pub proof fn law_string_call_from_a_start_and_count(
    args: Seq<Column>,
    result: Result<Column, SubstrError>,
    i: int,
)
    requires
        args.len() == 3,
        column_type(args[0]) == TypeName::Utf8 || column_type(args[0]) == TypeName::LargeUtf8,
        column_type(args[1]) == TypeName::Int64,
        column_type(args[2]) == TypeName::Int64,
        is_substr(args, result),
    ensures
        ({
            let texts = utf8_values(args[0]);
            let starts = int64_values(args[1]);
            let counts = int64_values(args[2]);
            match result {
                Ok(column) => {
                    let rows = utf8_values(column);
                    &&& column_type(column) == column_type(args[0])
                    &&& rows.len() <= texts.len()
                    &&& rows.len() <= starts.len()
                    &&& rows.len() <= counts.len()
                    &&& rows.len() == texts.len() || rows.len() == starts.len() || rows.len()
                        == counts.len()
                    &&& 0 <= i < rows.len() ==> match (texts[i], starts[i], counts[i]) {
                        (Some(t), Some(s), Some(c)) => c >= 0 && rows[i] is Some && {
                            let part = rows[i]->0;
                            let behind = s - 1 + c;
                            &&& s > t.len() || behind <= 0 ==> part.len() == 0
                            &&& 1 <= s <= t.len() && behind <= t.len() ==> part == t.subrange(
                                s - 1,
                                behind,
                            )
                            &&& 1 <= s <= t.len() && behind > t.len() ==> part == t.subrange(
                                s - 1,
                                t.len() as int,
                            )
                            &&& s < 1 && 0 < behind <= t.len() ==> part == t.subrange(0, behind)
                            &&& s < 1 && behind > t.len() ==> part == t
                        },
                        _ => rows[i] is None,
                    }
                },
                Err(error) => error is NegativeLength && exists|k: int|
                    {
                        &&& 0 <= k < texts.len()
                        &&& k < starts.len()
                        &&& k < counts.len()
                        &&& (#[trigger] texts[k]) is Some
                        &&& starts[k] == Some(error->NegativeLength_start)
                        &&& counts[k] == Some(error->NegativeLength_count)
                        &&& error->NegativeLength_count < 0
                        &&& forall|j: int|
                            0 <= j < k && (#[trigger] texts[j]) is Some && starts[j] is Some
                                && counts[j] is Some ==> counts[j]->0 >= 0
                    },
            }
        }),
{
    assert(further(args)[0] == args[1]);
    assert(further(args)[1] == args[2]);
    law_rows_from_a_start_and_count(utf8_values(args[0]), further(args), i);
}

/// A column that a call on a view column gives holds its rows, shares all
/// buffers of the view column in their order, and has no others. The view of a
/// null is zero; another gives the length of the row in bytes and, for one of
/// more than twelve bytes, lies in the block of the text it is taken from, behind
/// the bytes of the characters before its start.
pub proof fn law_view_column(
    column: Column,
    rows: Seq<Option<Seq<char>>>,
    string_array: Column,
    args: Seq<Column>,
    i: int,
)
    requires
        is_view_column(column, rows, string_array, args),
    ensures
        column_type(column) == TypeName::Utf8View,
        view_buffers(column) == view_buffers(string_array),
        view_texts(column).len() == rows.len(),
        view_words(column).len() == rows.len(),
        0 <= i < rows.len() ==> match rows[i] {
            None => {
                &&& !view_valid(column)[i]
                &&& view_texts(column)[i].len() == 0
                &&& view_words(column)[i] == 0
            },
            Some(part) => {
                let word = view_words(column)[i] as int;
                let source = view_words(string_array)[i] as int;
                let text = view_texts(string_array)[i];
                let bytes = encode_utf8(part).len() as int;
                &&& view_valid(column)[i]
                &&& view_texts(column)[i] == part
                &&& word % 0x1_0000_0000 == bytes
                &&& bytes > 12 && int64_values(args[0])[i] is Some ==> {
                    let start = int64_values(args[0])[i]->0;
                    let shift = word / 0x1_0000_0000_0000_0000_0000_0000 - source
                        / 0x1_0000_0000_0000_0000_0000_0000;
                    &&& (word / 0x1_0000_0000_0000_0000) % 0x1_0000_0000 == (source
                        / 0x1_0000_0000_0000_0000) % 0x1_0000_0000
                    &&& start <= 1 ==> shift == 0
                    &&& 1 <= start <= text.len() ==> shift == encode_utf8(
                        text.subrange(0, start - 1),
                    ).len()
                }
            },
        },
{
    if 0 <= i < rows.len() {
        assert(view_values(column)[i] == rows[i]);
        let text = view_texts(string_array)[i];
        if let (Some(part), Some(start)) = (rows[i], int64_values(args[0])[i]) {
            assert(text.take(0) =~= Seq::empty());
            assert(1 <= start <= text.len() ==> text.take(start - 1) =~= text.subrange(
                0,
                start - 1,
            ));
        }
    }
}

/// `substr(string, start)` on a `Utf8View` column never fails. It gives a
/// `Utf8View` column on the same buffers, with a row for each as far as the
/// columns go: the text from the start'th character to its end where the text
/// and the start are not null.
pub proof fn law_view_call_from_a_start(
    args: Seq<Column>,
    result: Result<Column, SubstrError>,
    i: int,
)
    requires
        args.len() == 2,
        column_type(args[0]) == TypeName::Utf8View,
        column_type(args[1]) == TypeName::Int64,
        is_substr(args, result),
    ensures
        result is Ok,
        ({
            let texts = view_texts(args[0]);
            let starts = int64_values(args[1]);
            let column = result->Ok_0;
            let n = view_texts(column).len();
            &&& column_type(column) == TypeName::Utf8View
            &&& view_buffers(column) == view_buffers(args[0])
            &&& n <= texts.len()
            &&& n <= starts.len()
            &&& n == texts.len() || n == starts.len()
            &&& view_words(column).len() == n
            &&& 0 <= i < n ==> view_valid(column)[i] == (view_valid(args[0])[i] && starts[i] is Some)
            &&& 0 <= i < n && !view_valid(column)[i] ==> view_texts(column)[i].len() == 0
                && view_words(column)[i] == 0
            &&& 0 <= i < n && view_valid(column)[i] ==> view_words(column)[i] as int
                % 0x1_0000_0000 == encode_utf8(view_texts(column)[i]).len()
            &&& 0 <= i < n && view_valid(column)[i] ==> {
                let t = texts[i];
                let s = starts[i]->0;
                let part = view_texts(column)[i];
                &&& s <= 1 ==> part == t
                &&& 1 <= s <= t.len() ==> part == t.subrange(s - 1, t.len() as int)
                &&& s > t.len() ==> part.len() == 0
            }
            &&& 0 <= i < n && view_valid(column)[i] && encode_utf8(view_texts(column)[i]).len() > 12
                ==> {
                let t = texts[i];
                let s = starts[i]->0;
                let word = view_words(column)[i] as int;
                let source = view_words(args[0])[i] as int;
                let shift = word / 0x1_0000_0000_0000_0000_0000_0000 - source
                    / 0x1_0000_0000_0000_0000_0000_0000;
                &&& (word / 0x1_0000_0000_0000_0000) % 0x1_0000_0000 == (source
                    / 0x1_0000_0000_0000_0000) % 0x1_0000_0000
                &&& s <= 1 ==> shift == 0
                &&& 1 <= s <= t.len() ==> shift == encode_utf8(t.subrange(0, s - 1)).len()
            }
        }),
{
    let rest = further(args);
    assert(rest[0] == args[1]);
    law_rows_from_a_start(view_values(args[0]), rest, i);
    if let (Ok(rows), Ok(column)) = (view_result(view_values(args[0]), rest), result) {
        law_view_column(column, rows, args[0], rest, i);
    }
}

/// `substr(string, start, count)` on a `Utf8View` column gives a `Utf8View` column
/// on the same buffers, with a row for each as far as the columns go: the
/// characters at the `count` positions from the start'th on that lie in the
/// text, where nothing is null. It fails exactly where a row with a start has a
/// negative count, and reports the start and the count of the first such row.
pub proof fn law_view_call_from_a_start_and_count(
    args: Seq<Column>,
    result: Result<Column, SubstrError>,
    i: int,
)
    requires
        args.len() == 3,
        column_type(args[0]) == TypeName::Utf8View,
        column_type(args[1]) == TypeName::Int64,
        column_type(args[2]) == TypeName::Int64,
        is_substr(args, result),
    ensures
        ({
            let texts = view_texts(args[0]);
            let starts = int64_values(args[1]);
            let counts = int64_values(args[2]);
            match result {
                Ok(column) => {
                    let n = view_texts(column).len();
                    &&& column_type(column) == TypeName::Utf8View
                    &&& view_buffers(column) == view_buffers(args[0])
                    &&& n <= texts.len()
                    &&& n <= starts.len()
                    &&& n <= counts.len()
                    &&& n == texts.len() || n == starts.len() || n == counts.len()
                    &&& view_words(column).len() == n
                    &&& 0 <= i < n && starts[i] is Some && counts[i] is Some ==> counts[i]->0 >= 0
                    &&& 0 <= i < n ==> view_valid(column)[i] == (view_valid(args[0])[i]
                        && starts[i] is Some && counts[i] is Some)
                    &&& 0 <= i < n && !view_valid(column)[i] ==> view_texts(column)[i].len() == 0
                        && view_words(column)[i] == 0
                    &&& 0 <= i < n && view_valid(column)[i] ==> view_words(column)[i] as int
                        % 0x1_0000_0000 == encode_utf8(view_texts(column)[i]).len()
                    &&& 0 <= i < n && view_valid(column)[i] ==> {
                        let t = texts[i];
                        let s = starts[i]->0;
                        let behind = s - 1 + counts[i]->0;
                        let part = view_texts(column)[i];
                        &&& s > t.len() || behind <= 0 ==> part.len() == 0
                        &&& 1 <= s <= t.len() && behind <= t.len() ==> part == t.subrange(
                            s - 1,
                            behind,
                        )
                        &&& 1 <= s <= t.len() && behind > t.len() ==> part == t.subrange(
                            s - 1,
                            t.len() as int,
                        )
                        &&& s < 1 && 0 < behind <= t.len() ==> part == t.subrange(0, behind)
                        &&& s < 1 && behind > t.len() ==> part == t
                    }
                    &&& 0 <= i < n && view_valid(column)[i] && encode_utf8(
                        view_texts(column)[i],
                    ).len() > 12 ==> {
                        let t = texts[i];
                        let s = starts[i]->0;
                        let word = view_words(column)[i] as int;
                        let source = view_words(args[0])[i] as int;
                        let shift = word / 0x1_0000_0000_0000_0000_0000_0000 - source
                            / 0x1_0000_0000_0000_0000_0000_0000;
                        &&& (word / 0x1_0000_0000_0000_0000) % 0x1_0000_0000 == (source
                            / 0x1_0000_0000_0000_0000) % 0x1_0000_0000
                        &&& s <= 1 ==> shift == 0
                        &&& 1 <= s <= t.len() ==> shift == encode_utf8(t.subrange(0, s - 1)).len()
                    }
                },
                Err(error) => error is NegativeLength && exists|k: int|
                    {
                        &&& 0 <= k < texts.len()
                        &&& k < starts.len()
                        &&& k < counts.len()
                        &&& #[trigger] starts[k] == Some(error->NegativeLength_start)
                        &&& counts[k] == Some(error->NegativeLength_count)
                        &&& error->NegativeLength_count < 0
                        &&& forall|j: int|
                            0 <= j < k && (#[trigger] starts[j]) is Some && counts[j] is Some
                                ==> counts[j]->0 >= 0
                    },
            }
        }),
{
    let rest = further(args);
    assert(rest[0] == args[1]);
    assert(rest[1] == args[2]);
    law_view_rows_from_a_start_and_count(view_values(args[0]), rest, i);
    if let (Ok(rows), Ok(column)) = (view_result(view_values(args[0]), rest), result) {
        law_view_column(column, rows, args[0], rest, i);
    }
}

/// A call with a first argument that is no string column fails, and names its
/// type. One on a string column fails for the number of its arguments, which it
/// reports without the first, and for a start or count column that holds no
/// 64-bit integers.
pub proof fn law_call_with_wrong_arguments(args: Seq<Column>, result: Result<Column, SubstrError>)
    requires
        args.len() >= 1,
        is_substr(args, result),
    ensures
        match column_type(args[0]) {
            TypeName::Utf8 | TypeName::LargeUtf8 => {
                &&& args.len() == 1 || args.len() > 3 ==> (result matches Err(
                    SubstrError::ArgumentCount(found),
                ) && found == args.len() - 1)
                &&& args.len() == 2 && column_type(args[1]) != TypeName::Int64
                    ==> (result matches Err(SubstrError::NotInt64(_)))
                &&& args.len() == 3 && (column_type(args[1]) != TypeName::Int64 || column_type(
                    args[2],
                ) != TypeName::Int64) ==> (result matches Err(SubstrError::NotInt64(_)))
            },
            TypeName::Utf8View => {
                &&& args.len() >= 2 && column_type(args[1]) != TypeName::Int64
                    ==> (result matches Err(SubstrError::NotInt64(_)))
                &&& args.len() == 3 && column_type(args[2]) != TypeName::Int64
                    ==> (result matches Err(SubstrError::NotInt64(_)))
                &&& args.len() > 3 && column_type(args[1]) == TypeName::Int64
                    ==> (result matches Err(SubstrError::ArgumentCount(found)) && found
                    == args.len() - 1)
            },
            TypeName::Int64 => result matches Err(SubstrError::UnsupportedType(name)) && name@
                == "Int64"@,
            TypeName::Other(text) => result matches Err(SubstrError::UnsupportedType(name))
                && name@ == text,
        },
{
    let rest = further(args);
    if args.len() >= 2 {
        assert(rest[0] == args[1]);
    }
    if args.len() >= 3 {
        assert(rest[1] == args[2]);
    }
    law_wrong_further_arguments(utf8_values(args[0]), rest);
    law_wrong_further_arguments(view_values(args[0]), rest);
}

/// Which calls are defined: every one with a first argument that is no
/// `Utf8View` column, whatever its rows; and one on a `Utf8View` column exactly
/// where it has a further argument and arrow takes the buffers, of which there
/// are at most `u32::MAX`, each of fewer than `u32::MAX` bytes.
pub proof fn law_defined_calls(args: Seq<Column>)
    ensures
        args.len() == 0 ==> !substr_defined(args),
        args.len() >= 1 && column_type(args[0]) != TypeName::Utf8View ==> substr_defined(args),
        args.len() >= 1 && column_type(args[0]) == TypeName::Utf8View ==> (substr_defined(args)
            <==> {
            let buffers = view_buffers(args[0]);
            &&& args.len() >= 2
            &&& buffers.len() <= 0xFFFF_FFFF
            &&& forall|b: int|
                0 <= b < buffers.len() ==> buffer_bytes(#[trigger] buffers[b]).len() < 0xFFFF_FFFF
        }),
{
    if args.len() >= 1 && column_type(args[0]) == TypeName::Utf8View {
        law_defined_view_calls(args[0], further(args));
    }
}

/// Which calls of `string_view_substr` are defined: exactly those with a further
/// argument, on a column whose buffers arrow takes.
pub proof fn law_defined_view_calls(column: Column, args: Seq<Column>)
    ensures
        view_defined(column, args) <==> {
            let buffers = view_buffers(column);
            &&& args.len() >= 1
            &&& buffers.len() <= 0xFFFF_FFFF
            &&& forall|b: int|
                0 <= b < buffers.len() ==> buffer_bytes(#[trigger] buffers[b]).len() < 0xFFFF_FFFF
        },
{
    let buffers = view_buffers(column);
    let blocks = view_blocks(column);
    assert(blocks.len() == buffers.len());
    assert forall|b: int| 0 <= b < buffers.len() implies #[trigger] blocks[b] == buffer_bytes(
        buffers[b],
    ) by {}
    if view_defined(column, args) {
        assert forall|b: int| 0 <= b < buffers.len() implies buffer_bytes(
            #[trigger] buffers[b],
        ).len() < 0xFFFF_FFFF by {
            assert(blocks[b].len() < 0xFFFF_FFFF);
        }
    }
}

/// A call with arguments of types that the signature lists is defined wherever
/// arrow takes the buffers of its first column.
pub proof fn law_accepted_calls_are_defined(args: Seq<Column>, shape: int)
    requires
        0 <= shape < accepted_shapes().len(),
        accepted_shapes()[shape].len() == args.len(),
        forall|a: int|
            0 <= a < args.len() ==> column_type(#[trigger] args[a]) == accepted_shapes()[shape][a],
        view_buffers(args[0]).len() <= 0xFFFF_FFFF,
        forall|b: int|
            0 <= b < view_buffers(args[0]).len() ==> buffer_bytes(
                #[trigger] view_buffers(args[0])[b],
            ).len() < 0xFFFF_FFFF,
    ensures
        substr_defined(args),
{
    law_defined_calls(args);
}

/// A type of the result is announced exactly for a first argument that is a
/// string, and is the type of that argument; for any other the failure names it.
pub proof fn law_announced_type(first: DataType)
    ensures
        match first {
            DataType::Utf8 => result_type(first@) == Ok::<TypeName, Failure>(TypeName::Utf8),
            DataType::LargeUtf8 => result_type(first@) == Ok::<TypeName, Failure>(
                TypeName::LargeUtf8,
            ),
            DataType::Utf8View => result_type(first@) == Ok::<TypeName, Failure>(
                TypeName::Utf8View,
            ),
            DataType::Int64 => result_type(first@) == Err::<TypeName, Failure>(
                Failure::UnsupportedType("Int64"@),
            ),
            DataType::Other(name) => result_type(first@) == Err::<TypeName, Failure>(
                Failure::UnsupportedType(name@),
            ),
        },
        forall|name: TypeName| (#[trigger] result_type(name)) is Ok <==> name == TypeName::Utf8
            || name == TypeName::LargeUtf8 || name == TypeName::Utf8View,
{
}

/// What is announced is what a call does: where a type is announced, every
/// column that a call gives has it; where none is, every call fails, and
/// announcing fails for the same reason.
pub proof fn law_announced_type_of_calls(args: Seq<Column>, result: Result<Column, SubstrError>)
    requires
        args.len() >= 1,
        is_substr(args, result),
    ensures
        result matches Ok(column) ==> result_type(column_type(args[0])) == Ok::<TypeName, Failure>(
            column_type(column),
        ),
        result_type(column_type(args[0])) is Err <==> (result matches Err(
            SubstrError::UnsupportedType(_),
        )),
        result matches Err(SubstrError::UnsupportedType(name)) ==> result_type(
            column_type(args[0]),
        ) == Err::<TypeName, Failure>(Failure::UnsupportedType(name@)),
{
    lemma_failure_kinds(args);
}

/// No failure of a call on a string column is about the type of that column.
proof fn lemma_failure_kinds(args: Seq<Column>)
    ensures
        string_result(utf8_values(args[0]), further(args)) matches Err(failure) ==> !(
        failure is UnsupportedType),
        view_result(view_values(args[0]), further(args)) matches Err(failure) ==> !(
        failure is UnsupportedType),
{
    let rest = further(args);
    let starts = int64_values(rest[0]);
    let counts = int64_values(rest[1]);
    law_rows_or_first_failure(string_spans(utf8_values(args[0]), starts, counts));
    law_rows_or_first_failure(view_spans(view_values(args[0]), starts, counts));
}

/// The argument types that the signature lists are exactly a string of any kind
/// with a start, and a string of any kind with a start and a count, each once.
pub proof fn law_listed_types(types: Seq<TypeName>)
    ensures
        accepted_shapes().contains(types) <==> {
            &&& types.len() == 2 || types.len() == 3
            &&& types[0] == TypeName::Utf8 || types[0] == TypeName::LargeUtf8 || types[0]
                == TypeName::Utf8View
            &&& types[1] == TypeName::Int64
            &&& types.len() == 3 ==> types[2] == TypeName::Int64
        },
        accepted_shapes().len() == 6,
        accepted_shapes().no_duplicates(),
{
    let shapes = accepted_shapes();
    if types.len() == 2 && types[1] == TypeName::Int64 {
        if types[0] == TypeName::Utf8 {
            assert(shapes[0] =~= types);
        } else if types[0] == TypeName::LargeUtf8 {
            assert(shapes[1] =~= types);
        } else if types[0] == TypeName::Utf8View {
            assert(shapes[4] =~= types);
        }
    }
    if types.len() == 3 && types[1] == TypeName::Int64 && types[2] == TypeName::Int64 {
        if types[0] == TypeName::Utf8 {
            assert(shapes[2] =~= types);
        } else if types[0] == TypeName::LargeUtf8 {
            assert(shapes[3] =~= types);
        } else if types[0] == TypeName::Utf8View {
            assert(shapes[5] =~= types);
        }
    }
    assert forall|a: int, b: int| 0 <= a < shapes.len() && 0 <= b < shapes.len() && a
        != b implies shapes[a] != shapes[b] by {
        assert(shapes[a].len() != shapes[b].len() || shapes[a][0] != shapes[b][0]);
    }
}

/// The function that `new` and `default` make lists these types, has one other
/// name, `substring`, and gives the same result for the same arguments.
pub proof fn law_description(func: SubstrFunc)
    requires
        func.is_substr_func(),
    ensures
        func.shapes() == accepted_shapes(),
        func.volatility() == Volatility::Immutable,
        func.other_names() == seq!["substring"@],
{
}

/// The types that a signature lists are those of its lists, one for one.
pub proof fn law_signature_types(signature: Signature, list: int, at: int)
    ensures
        signature.shapes().len() == signature.one_of@.len(),
        0 <= list < signature.one_of@.len() ==> {
            &&& signature.shapes()[list].len() == signature.one_of@[list]@.len()
            &&& 0 <= at < signature.one_of@[list]@.len() ==> signature.shapes()[list][at]
                == signature.one_of@[list]@[at]@
        },
{
}

/// A data type stands for the type of its name, and each type has one data type.
pub proof fn law_type_names(data_type: DataType)
    ensures
        match data_type {
            DataType::Utf8 => data_type@ == TypeName::Utf8,
            DataType::LargeUtf8 => data_type@ == TypeName::LargeUtf8,
            DataType::Utf8View => data_type@ == TypeName::Utf8View,
            DataType::Int64 => data_type@ == TypeName::Int64,
            DataType::Other(name) => data_type@ == TypeName::Other(name@),
        },
{
}

/// Rows of strings stand for the characters of the strings, nulls for nulls.
pub proof fn law_rows_stand_for_strings(
    borrowed: Seq<Option<&str>>,
    owned: Seq<Option<String>>,
    i: int,
)
    ensures
        borrowed_rows(borrowed).len() == borrowed.len(),
        owned_rows(owned).len() == owned.len(),
        0 <= i < borrowed.len() ==> match borrowed[i] {
            Some(text) => borrowed_rows(borrowed)[i] == Some(text@),
            None => borrowed_rows(borrowed)[i] is None,
        },
        0 <= i < owned.len() ==> match owned[i] {
            Some(text) => owned_rows(owned)[i] == Some(text@),
            None => owned_rows(owned)[i] is None,
        },
{
}

/// Rows take the bytes of their texts: none for no rows, and with one more row
/// as many more as its text has, or none more for a null.
pub proof fn law_encoded_size(rows: Seq<Option<Seq<char>>>, row: Option<Seq<char>>)
    ensures
        rows.len() == 0 ==> encoded_size(rows) == 0,
        encoded_size(rows.push(row)) - encoded_size(rows) == match row {
            Some(text) => encode_utf8(text).len() as int,
            None => 0,
        },
{
    assert(rows.push(row).drop_last() =~= rows);
}

/// The rows of a view column: the text of the slot where it is not marked null,
/// and a null where it is.
pub proof fn law_view_values(column: Column, i: int)
    ensures
        view_values(column).len() == view_texts(column).len(),
        0 <= i < view_texts(column).len() ==> view_values(column)[i] == if view_valid(column)[i] {
            Some(view_texts(column)[i])
        } else {
            None
        },
{
}

/// An error stands for what it carries, and its text says so: the type that is
/// not supported, the number of further arguments, or the start and the count
/// as they were given. A failed cast has a text of its own.
pub proof fn law_error_texts(error: SubstrError)
    ensures
        match error {
            SubstrError::UnsupportedType(name) => {
                &&& error@ == Failure::UnsupportedType(name@)
                &&& failure_text(error@) == Some(
                    "Unsupported data type "@ + name@
                        + " for function substr,expected Utf8View, Utf8 or LargeUtf8."@,
                )
            },
            SubstrError::NotInt64(_) => {
                &&& error@ == Failure::NotInt64
                &&& failure_text(error@) is None
            },
            SubstrError::ArgumentCount(found) => {
                &&& error@ == Failure::ArgumentCount(found as int)
                &&& failure_text(error@) == Some(
                    "substr was called with "@ + signed_decimal(found as int)
                        + " arguments. It requires 2 or 3."@,
                )
            },
            SubstrError::NegativeLength { start, count } => {
                &&& error@ == (Failure::NegativeLength { start: start as int, count: count as int })
                &&& failure_text(error@) == Some(
                    "negative substring length not allowed: substr(<str>, "@ + signed_decimal(
                        start as int,
                    ) + ", "@ + signed_decimal(count as int) + ")"@,
                )
            },
        },
{
}

/// Numbers are written in decimal: a number below ten is one digit, one more
/// digit behind a number makes it tenfold and adds the digit, and a negative
/// number is its opposite behind a minus sign.
pub proof fn law_decimal(number: int, digit: int)
    requires
        0 <= digit < 10,
    ensures
        signed_decimal(digit).len() == 1,
        signed_decimal(digit)[0] as u32 == 48 + digit,
        number > 0 ==> signed_decimal(10 * number + digit) == signed_decimal(number)
            + signed_decimal(digit),
        number < 0 ==> signed_decimal(number) == seq!['-'] + signed_decimal(-number),
{
    if number > 0 {
        let whole = (10 * number + digit) as nat;
        assert(whole / 10 == number && whole % 10 == digit);
        assert(decimal(whole) =~= decimal(number as nat) + decimal(digit as nat));
    }
}

/// What `get_true_start_count` and `cut_chars` say of a text: before the first
/// bound lie the bytes of the first `start` characters, or all; between the two
/// those of the next `count` characters, or all that follow where there are not
/// so many or the count is negative.
pub proof fn law_bounds(text: Seq<char>, start: int, count: int)
    requires
        0 <= start,
    ensures
        ({
            let n = text.len() as int;
            let first = least(start, n);
            let stop = stop_index(text, start, count);
            let st = byte_offset(text, first);
            let ed = byte_offset(text, stop);
            let part = text.subrange(first, stop);
            &&& start <= n ==> st == encode_utf8(text.subrange(0, start)).len()
            &&& start > n ==> st == encode_utf8(text).len() && ed == encode_utf8(text).len()
            &&& ed - st == encode_utf8(part).len()
            &&& encode_utf8(text).subrange(st, ed) == encode_utf8(part)
            &&& start > n ==> part.len() == 0
            &&& start <= n && (count < 0 || start + count > n) ==> part == text.subrange(start, n)
            &&& start <= n && 0 <= count && start + count <= n ==> part == text.subrange(
                start,
                start + count,
            )
        }),
{
    let n = text.len() as int;
    lemma_encode_subrange(text, least(start, n), stop_index(text, start, count));
    assert(text.take(n) =~= text);
    assert(start <= n ==> text.take(start) =~= text.subrange(0, start));
}

} // verus!
