//! What holds of the function as a whole.
use crate::column::{column_type, int64_values, utf8_values, view_values, Column, TypeName};
use crate::dispatch::{further, is_substr};
use crate::error::{Failure, SubstrError};
use crate::func::{accepted_shapes, result_type};
use crate::strings::{
    collect_rows, string_result, string_span, string_spans, string_tail, RowResult,
};
use crate::text::{
    asked_for, byte_offset, greatest, least, lemma_encode_subrange, stop_index, window,
};
use crate::views::{view_result, view_span, view_spans};
use vstd::prelude::*;
use vstd::utf8::*;

verus! {

/// With a start, the result is the text from the start'th character on: the
/// whole text for a start of one or less, and nothing for one behind the end.
pub proof fn law_tail(text: Seq<char>, start: i64)
    ensures
        start <= 1 ==> string_tail(Some(text), Some(start)) == Some(text),
        1 <= start <= text.len() ==> string_tail(Some(text), Some(start)) == Some(
            text.subrange(start - 1, text.len() as int),
        ),
        start > text.len() ==> string_tail(Some(text), Some(start)) == Some(Seq::<char>::empty()),
{
    let part = window(text, start - 1, text.len() as int);
    assert(start <= 1 ==> part =~= text);
    assert(start > text.len() ==> part =~= Seq::empty());
}

/// With a start and a count, the result is the characters at the `count`
/// positions from the start'th on, of those that exist: it has a character for
/// each such position of the text, and they are those of the text. Positions
/// before the first character count as well, and hold nothing.
pub proof fn law_span(text: Seq<char>, start: i64, count: i64)
    requires
        0 <= count,
    ensures
        ({
            let first = greatest(start - 1, 0);
            let end = least(start - 1 + count, text.len() as int);
            let part = asked_for(text, start, Some(count));
            &&& string_span(Some(text), Some(start), Some(count)) == Ok::<_, Failure>(Some(part))
            &&& view_span(Some(text), Some(start), Some(count)) == Ok::<_, Failure>(Some(part))
            &&& part.len() == greatest(end - first, 0)
            &&& forall|j: int| 0 <= j < part.len() ==> #[trigger] part[j] == text[first + j]
        }),
{
}

/// A count that reaches the end of the text takes all from the start on, however
/// large it is.
pub proof fn law_count_to_the_end(text: Seq<char>, start: i64, count: i64)
    requires
        0 <= count,
        start - 1 + count >= text.len(),
    ensures
        string_span(Some(text), Some(start), Some(count)) == Ok::<_, Failure>(
            string_tail(Some(text), Some(start)),
        ),
        view_span(Some(text), Some(start), Some(count)) == Ok::<_, Failure>(
            string_tail(Some(text), Some(start)),
        ),
{
    assert(window(text, start - 1, start - 1 + count) =~= window(
        text,
        start - 1,
        text.len() as int,
    ));
}

/// A null among the inputs of a row gives a null; on view columns, where a null
/// text does not keep a negative count from failing, unless the row fails.
pub proof fn law_null_gives_null(
    text: Option<Seq<char>>,
    start: Option<i64>,
    count: Option<i64>,
)
    ensures
        text is None || start is None ==> string_tail(text, start) is None,
        text is None || start is None || count is None ==> string_span(text, start, count) == Ok::<
            Option<Seq<char>>,
            Failure,
        >(None),
        start is None || count is None ==> view_span(text, start, count) == Ok::<
            Option<Seq<char>>,
            Failure,
        >(None),
        text is None && view_span(text, start, count) is Ok ==> view_span(text, start, count)
            == Ok::<Option<Seq<char>>, Failure>(None),
{
}

/// A row fails exactly where nothing in it is null and its count is negative; on
/// view columns its text may be null. The failure names the start and the count
/// as they were given.
pub proof fn law_negative_count_fails(
    text: Option<Seq<char>>,
    start: Option<i64>,
    count: Option<i64>,
)
    ensures
        string_span(text, start, count) is Err <==> text is Some && start is Some && (
        count matches Some(c) && c < 0),
        view_span(text, start, count) is Err <==> start is Some && (count matches Some(c) && c
            < 0),
        string_span(text, start, count) matches Err(failure) ==> failure
            == (Failure::NegativeLength { start: start->0 as int, count: count->0 as int }),
        view_span(text, start, count) matches Err(failure) ==> failure == (
        Failure::NegativeLength { start: start->0 as int, count: count->0 as int }),
{
}

/// A call gives one row for each, in order, if no row fails; else it fails as
/// the first row does that fails.
pub proof fn law_rows_or_first_failure(rows: Seq<RowResult>)
    ensures
        match collect_rows(rows) {
            Ok(done) => {
                &&& done.len() == rows.len()
                &&& forall|i: int|
                    0 <= i < rows.len() ==> #[trigger] rows[i] == Ok::<_, Failure>(done[i])
            },
            Err(failure) => exists|k: int|
                {
                    &&& 0 <= k < rows.len()
                    &&& #[trigger] rows[k] == Err::<Option<Seq<char>>, Failure>(failure)
                    &&& forall|i: int| 0 <= i < k ==> #[trigger] rows[i] is Ok
                },
        },
    decreases rows.len(),
{
    if rows.len() > 0 {
        let front = rows.drop_last();
        let last = rows.len() - 1;
        law_rows_or_first_failure(front);
        match collect_rows(front) {
            Ok(done) => {
                assert forall|i: int| 0 <= i < last implies #[trigger] rows[i] == Ok::<_, Failure>(
                    done[i],
                ) by {
                    assert(front[i] == rows[i]);
                }
                if rows[last] is Err {
                    assert(rows[last] == Err::<Option<Seq<char>>, Failure>(rows[last]->Err_0));
                }
            },
            Err(failure) => {
                let k = choose|k: int|
                    {
                        &&& 0 <= k < front.len()
                        &&& #[trigger] front[k] == Err::<Option<Seq<char>>, Failure>(failure)
                        &&& forall|i: int| 0 <= i < k ==> #[trigger] front[i] is Ok
                    };
                assert(rows[k] == Err::<Option<Seq<char>>, Failure>(failure));
                assert forall|i: int| 0 <= i < k implies #[trigger] rows[i] is Ok by {
                    assert(front[i] is Ok);
                }
            },
        }
    }
}

/// The first `k` characters and the text from the next one on make up the text.
pub proof fn law_split(text: Seq<char>, k: i64)
    requires
        0 <= k < i64::MAX,
    ensures
        string_span(Some(text), Some(1i64), Some(k)) matches Ok(Some(head)) && string_tail(
            Some(text),
            Some((k + 1) as i64),
        ) matches Some(tail) && head + tail == text,
        view_span(Some(text), Some(1i64), Some(k)) == string_span(Some(text), Some(1i64), Some(k)),
{
    assert(window(text, 0, k as int) + window(text, k as int, text.len() as int) =~= text);
}

/// Taking the text from `a` on, and from that the text from `b` on, is taking
/// the text from `a + b - 1` on.
pub proof fn law_tail_of_tail(text: Seq<char>, a: i64, b: i64)
    requires
        1 <= a,
        1 <= b,
        a + b - 1 <= i64::MAX,
    ensures
        string_tail(string_tail(Some(text), Some(a)), Some(b)) == string_tail(
            Some(text),
            Some((a + b - 1) as i64),
        ),
{
    let rest = window(text, a - 1, text.len() as int);
    assert(window(rest, b - 1, rest.len() as int) =~= window(
        text,
        a + b - 2,
        text.len() as int,
    ));
}

/// Whether `part` is a run of characters of `text`.
pub open spec fn is_run_of(part: Seq<char>, text: Seq<char>) -> bool {
    exists|from: int|
        0 <= from && from + part.len() <= text.len() && part == #[trigger] text.subrange(
            from,
            from + part.len(),
        )
}

/// A window is a run, and no longer than its bounds are apart.
proof fn lemma_window_is_run(text: Seq<char>, from: int, len: int)
    requires
        0 <= len,
    ensures
        is_run_of(window(text, from, from + len), text),
        window(text, from, from + len).len() <= len,
{
    let part = window(text, from, from + len);
    let first = least(greatest(from, 0), text.len() as int);
    assert(part =~= text.subrange(first, first + part.len()));
}

/// The result is a run of characters of the text, and has no more of them than
/// the count says.
pub proof fn law_part_of_text(text: Seq<char>, start: i64, count: i64)
    ensures
        string_tail(Some(text), Some(start)) matches Some(part) && is_run_of(part, text),
        string_span(Some(text), Some(start), Some(count)) matches Ok(Some(part)) ==> is_run_of(
            part,
            text,
        ) && part.len() <= count,
        view_span(Some(text), Some(start), Some(count)) matches Ok(Some(part)) ==> is_run_of(
            part,
            text,
        ) && part.len() <= count,
{
    let rest = window(text, start - 1, text.len() as int);
    let first = least(greatest(start - 1, 0), text.len() as int);
    assert(rest =~= text.subrange(first, first + rest.len()));
    if count >= 0 {
        lemma_window_is_run(text, start - 1, count as int);
    }
}

/// The byte indices that `get_true_start_count` returns never cut a character:
/// the bytes between them encode exactly the characters asked for.
pub proof fn law_bounds_keep_characters(text: Seq<char>, start: int, count: int)
    requires
        0 <= start,
    ensures
        ({
            let from = least(start, text.len() as int);
            let to = stop_index(text, start, count);
            let bytes = encode_utf8(text).subrange(byte_offset(text, from), byte_offset(text, to));
            &&& valid_utf8(bytes)
            &&& decode_utf8(bytes) == text.subrange(from, to)
        }),
{
    let from = least(start, text.len() as int);
    let to = stop_index(text, start, count);
    lemma_encode_subrange(text, from, to);
    encode_utf8_valid_utf8(text.subrange(from, to));
    encode_utf8_decode_utf8(text.subrange(from, to));
}

/// The types of columns.
pub open spec fn column_types(args: Seq<Column>) -> Seq<TypeName> {
    args.map_values(|column: Column| column_type(column))
}

/// A column that a call gives has the type that `return_type` says; where that
/// says there is none, the call fails in the same way.
pub proof fn law_result_type(args: Seq<Column>, result: Result<Column, SubstrError>)
    requires
        args.len() >= 1,
        is_substr(args, result),
    ensures
        match result_type(column_type(args[0])) {
            Ok(name) => result matches Ok(column) ==> column_type(column) == name,
            Err(failure) => result matches Err(error) && error@ == failure,
        },
{
}

/// The rows of a string column of any kind.
pub open spec fn rows_of(column: Column) -> Seq<Option<Seq<char>>> {
    if column_type(column) == TypeName::Utf8View {
        view_values(column)
    } else {
        utf8_values(column)
    }
}

/// Whether a column holds strings.
pub open spec fn is_string_column(column: Column) -> bool {
    column_type(column) == TypeName::Utf8 || column_type(column) == TypeName::LargeUtf8
        || column_type(column) == TypeName::Utf8View
}

/// The number of rows of the shortest column of a call with a start and,
/// optionally, a count column.
pub open spec fn row_count(args: Seq<Column>) -> int {
    let rows = least(rows_of(args[0]).len() as int, int64_values(args[1]).len() as int);
    if args.len() == 3 {
        least(rows, int64_values(args[2]).len() as int)
    } else {
        rows
    }
}

/// Whether row `i` of a call with counts has a start and a negative count.
pub open spec fn negative_at(args: Seq<Column>, i: int) -> bool {
    int64_values(args[1])[i] is Some && (int64_values(args[2])[i] matches Some(c) && c < 0)
}

/// Whether row `i` of a call with counts makes it fail: it asks for a negative
/// number of characters, of a text that is not null or stands in a view column.
pub open spec fn fails_at(args: Seq<Column>, i: int) -> bool {
    negative_at(args, i) && (column_type(args[0]) == TypeName::Utf8View || rows_of(
        args[0],
    )[i] is Some)
}

/// What the rows of a call with counts give, before they are collected.
spec fn rows_with_counts(args: Seq<Column>) -> Seq<RowResult> {
    let starts = int64_values(args[1]);
    let counts = int64_values(args[2]);
    if column_type(args[0]) == TypeName::Utf8View {
        view_spans(rows_of(args[0]), starts, counts)
    } else {
        string_spans(rows_of(args[0]), starts, counts)
    }
}

/// With arguments of types that the signature lists, a call fails exactly where
/// one of its rows makes it fail, and then for a negative count; without counts
/// it never does.
pub proof fn law_accepted_types(
    args: Seq<Column>,
    shape: int,
    result: Result<Column, SubstrError>,
)
    requires
        0 <= shape < accepted_shapes().len(),
        column_types(args) == accepted_shapes()[shape],
        is_substr(args, result),
    ensures
        args.len() == 2 ==> result is Ok,
        args.len() == 3 ==> (result is Err <==> exists|i: int|
            0 <= i < row_count(args) && #[trigger] fails_at(args, i)),
        result matches Err(error) ==> error@ is NegativeLength,
{
    let types = column_types(args);
    assert(types.len() == args.len());
    assert(column_type(args[0]) == types[0]);
    assert(column_type(args[1]) == types[1]);
    assert(further(args)[0] == args[1]);
    if args.len() == 3 {
        assert(column_type(args[2]) == types[2]);
        assert(further(args)[1] == args[2]);
        let spans = rows_with_counts(args);
        law_rows_or_first_failure(spans);
        assert forall|i: int| 0 <= i < row_count(args) implies (#[trigger] fails_at(args, i)
            <==> spans[i] is Err) by {}
        if let Err(failure) = collect_rows(spans) {
            let k = choose|k: int|
                0 <= k < spans.len() && #[trigger] spans[k] == Err::<Option<Seq<char>>, Failure>(
                    failure,
                );
            assert(fails_at(args, k));
        }
    }
}

/// A call gives as many rows as its shortest column has.
pub proof fn law_row_count(args: Seq<Column>, column: Column)
    requires
        args.len() == 2 || args.len() == 3,
        is_substr(args, Ok(column)),
    ensures
        rows_of(column).len() == row_count(args),
{
    assert(further(args)[0] == args[1]);
    if args.len() == 3 {
        assert(further(args)[1] == args[2]);
        law_rows_or_first_failure(rows_with_counts(args));
    }
}

/// The count of row `i` of a call, where the call has counts.
pub open spec fn count_of(args: Seq<Column>, i: int) -> Option<i64> {
    if args.len() == 3 {
        int64_values(args[2])[i]
    } else {
        None
    }
}

/// Each row of the column that `substr` gives, for a string column of any kind,
/// holds the characters asked for where its text, its start and its count are
/// not null, and is null else.
pub proof fn law_call(args: Seq<Column>, column: Column, i: int)
    requires
        args.len() == 2 || args.len() == 3,
        is_substr(args, Ok(column)),
        0 <= i < rows_of(column).len(),
    ensures
        rows_of(column)[i] == match (rows_of(args[0])[i], int64_values(args[1])[i]) {
            (Some(text), Some(start)) => if args.len() == 3 && count_of(args, i) is None {
                None
            } else {
                Some(asked_for(text, start, count_of(args, i)))
            },
            _ => None,
        },
{
    let rest = further(args);
    assert(rest[0] == args[1]);
    if args.len() == 3 {
        assert(rest[1] == args[2]);
        let spans = rows_with_counts(args);
        law_rows_or_first_failure(spans);
        assert(spans[i] == Ok::<_, Failure>(rows_of(column)[i]));
    }
}

/// Whether a call comes to the same on a view column as on another of the same
/// rows: where it has too many arguments, the second is a start column; where it
/// has counts, a negative one beside a null text stands behind a row that fails
/// in either kind of column.
pub open spec fn comes_to_the_same(args: Seq<Column>) -> bool {
    &&& args.len() > 3 ==> column_type(args[1]) == TypeName::Int64
    &&& args.len() == 3 && column_type(args[1]) == TypeName::Int64 && column_type(args[2])
        == TypeName::Int64 ==> forall|i: int|
        0 <= i < row_count(args) && #[trigger] negative_at(args, i) && rows_of(
            args[0],
        )[i] is None ==> exists|k: int|
            0 <= k < i && #[trigger] negative_at(args, k) && rows_of(args[0])[k]
                is Some
}

/// The rows of a string and of a view column give the same.
proof fn lemma_results_agree(args: Seq<Column>)
    requires
        args.len() >= 2,
        comes_to_the_same(args),
    ensures
        string_result(rows_of(args[0]), further(args)) == view_result(
            rows_of(args[0]),
            further(args),
        ),
{
    assert(further(args)[0] == args[1]);
    if args.len() == 3 {
        assert(further(args)[1] == args[2]);
    }
    if args.len() == 3 && column_type(args[1]) == TypeName::Int64 && column_type(args[2])
        == TypeName::Int64 {
        let rows = rows_of(args[0]);
        let starts = int64_values(args[1]);
        let counts = int64_values(args[2]);
        let a = string_spans(rows, starts, counts);
        let b = view_spans(rows, starts, counts);
        law_rows_or_first_failure(a);
        law_rows_or_first_failure(b);
        assert forall|i: int| 0 <= i < a.len() && (#[trigger] a[i]) != b[i] implies exists|k: int|
            0 <= k < i && #[trigger] a[k] is Err by {
            assert(negative_at(args, i));
            let k = choose|k: int|
                0 <= k < i && #[trigger] negative_at(args, k) && rows[k] is Some;
            assert(a[k] is Err);
        }
        match collect_rows(a) {
            Ok(done) => {
                assert(a =~= b);
            },
            Err(failure) => {
                let k = choose|k: int|
                    {
                        &&& 0 <= k < a.len()
                        &&& #[trigger] a[k] == Err::<Option<Seq<char>>, Failure>(failure)
                        &&& forall|i: int| 0 <= i < k ==> #[trigger] a[i] is Ok
                    };
                assert forall|i: int| 0 <= i <= k implies #[trigger] a[i] == b[i] by {}
                assert(b[k] is Err);
                assert(collect_rows(b) is Err);
                let other = collect_rows(b)->Err_0;
                let m = choose|m: int|
                    {
                        &&& 0 <= m < b.len()
                        &&& #[trigger] b[m] == Err::<Option<Seq<char>>, Failure>(other)
                        &&& forall|i: int| 0 <= i < m ==> #[trigger] b[i] is Ok
                    };
                assert(m < k ==> a[m] == b[m]);
            },
        }
    }
}

/// The result does not depend on the kind of the string column: columns of the
/// same rows give the same rows or fail in the same way. Between a view column
/// and another this is so unless the call has too many arguments, the second of
/// them no start column, or comes to a negative count beside a null text.
pub proof fn law_columns_agree(
    left: Seq<Column>,
    right: Seq<Column>,
    first: Result<Column, SubstrError>,
    second: Result<Column, SubstrError>,
)
    requires
        left.len() >= 2,
        right.len() >= 2,
        is_string_column(left[0]),
        is_string_column(right[0]),
        rows_of(left[0]) == rows_of(right[0]),
        further(left) == further(right),
        is_substr(left, first),
        is_substr(right, second),
        (column_type(left[0]) == TypeName::Utf8View) != (column_type(right[0])
            == TypeName::Utf8View) ==> comes_to_the_same(left),
    ensures
        match (first, second) {
            (Ok(a), Ok(b)) => rows_of(a) == rows_of(b),
            (Err(a), Err(b)) => a@ == b@,
            _ => false,
        },
{
    if (column_type(left[0]) == TypeName::Utf8View) != (column_type(right[0])
        == TypeName::Utf8View) {
        lemma_results_agree(left);
    }
}

} // verus!
