//! Substrings of the rows of a `Utf8` or `LargeUtf8` column.
use crate::column::{
    borrowed_row, borrowed_rows, column_type, encoded_size, int64_rows, int64_values, owned_row,
    owned_rows, Column, TypeName,
};
use crate::error::{Failure, SubstrError};
use crate::text::{
    asked_for, cut_chars, greatest, least, lemma_encode_subrange, locate,
};
use vstd::prelude::*;
use vstd::utf8::*;

verus! {

/// A row, or the failure of the call that the row causes.
pub type RowResult = Result<Option<Seq<char>>, Failure>;

/// The rows if none fails, else the failure of the first row that does.
pub open spec fn collect_rows(rows: Seq<RowResult>) -> Result<Seq<Option<Seq<char>>>, Failure>
    decreases rows.len(),
{
    if rows.len() == 0 {
        Ok(Seq::empty())
    } else {
        match (collect_rows(rows.drop_last()), rows.last()) {
            (Err(failure), _) => Err(failure),
            (Ok(done), Ok(row)) => Ok(done.push(row)),
            (Ok(_), Err(failure)) => Err(failure),
        }
    }
}

/// The row for a text and a start: the text from character `start` on, counted
/// from one. A start of one or less gives the whole text, and a null among the
/// two gives a null. This is so in string columns of every kind.
pub open spec fn string_tail(text: Option<Seq<char>>, start: Option<i64>) -> Option<Seq<char>> {
    match (text, start) {
        (Some(t), Some(s)) => Some(asked_for(t, s, None)),
        _ => None,
    }
}

/// The row for a text, a start and a count: the characters at the `count`
/// positions from `start` on, of those that exist. A null among the three gives
/// a null; a negative count fails.
pub open spec fn string_span(
    text: Option<Seq<char>>,
    start: Option<i64>,
    count: Option<i64>,
) -> RowResult {
    match (text, start, count) {
        (Some(t), Some(s), Some(c)) => if c < 0 {
            Err(Failure::NegativeLength { start: s as int, count: c as int })
        } else {
            Ok(Some(asked_for(t, s, Some(c))))
        },
        _ => Ok(None),
    }
}

/// The rows of a call with a start column.
pub open spec fn string_tails(
    texts: Seq<Option<Seq<char>>>,
    starts: Seq<Option<i64>>,
) -> Seq<Option<Seq<char>>> {
    Seq::new(
        least(texts.len() as int, starts.len() as int) as nat,
        |i: int| string_tail(texts[i], starts[i]),
    )
}

/// The rows of a call with a start and a count column.
pub open spec fn string_spans(
    texts: Seq<Option<Seq<char>>>,
    starts: Seq<Option<i64>>,
    counts: Seq<Option<i64>>,
) -> Seq<RowResult> {
    Seq::new(
        least(least(texts.len() as int, starts.len() as int), counts.len() as int) as nat,
        |i: int| string_span(texts[i], starts[i], counts[i]),
    )
}

/// What a call on these texts with these further arguments gives.
pub open spec fn string_result(texts: Seq<Option<Seq<char>>>, args: Seq<Column>) -> Result<
    Seq<Option<Seq<char>>>,
    Failure,
> {
    if args.len() == 1 {
        if column_type(args[0]) != TypeName::Int64 {
            Err(Failure::NotInt64)
        } else {
            Ok(string_tails(texts, int64_values(args[0])))
        }
    } else if args.len() == 2 {
        if column_type(args[0]) != TypeName::Int64 || column_type(args[1]) != TypeName::Int64 {
            Err(Failure::NotInt64)
        } else {
            collect_rows(string_spans(texts, int64_values(args[0]), int64_values(args[1])))
        }
    } else {
        Err(Failure::ArgumentCount(args.len() as int))
    }
}

/// A part of a text takes no more bytes than the text.
proof fn lemma_part_size(text: Seq<char>, start: i64, count: Option<i64>)
    ensures
        encode_utf8(asked_for(text, start, count)).len() <= encode_utf8(text).len(),
{
    let from = start - 1;
    let to = match count {
        Some(c) => start - 1 + c,
        None => text.len() as int,
    };
    let lo = least(greatest(from, 0), text.len() as int);
    let hi = least(greatest(to, lo), text.len() as int);
    lemma_encode_subrange(text, lo, hi);
}

/// The first rows take no more bytes than all.
proof fn lemma_prefix_size(rows: Seq<Option<Seq<char>>>, n: int)
    requires
        0 <= n <= rows.len(),
    ensures
        encoded_size(rows.take(n)) <= encoded_size(rows),
    decreases rows.len(),
{
    if n < rows.len() {
        lemma_prefix_size(rows.drop_last(), n);
        assert(rows.drop_last().take(n) == rows.take(n));
    } else {
        assert(rows.take(n) == rows);
    }
}

/// One more row keeps the total within bounds where the row is within its own.
proof fn lemma_row_size(
    texts: Seq<Option<Seq<char>>>,
    i: int,
    done: Seq<Option<Seq<char>>>,
    row: Option<Seq<char>>,
)
    requires
        0 <= i < texts.len(),
        encoded_size(done) <= encoded_size(texts.take(i)),
    ensures
        (match row {
            None => true,
            Some(part) => texts[i] is Some && encode_utf8(part).len() <= encode_utf8(
                texts[i]->0,
            ).len(),
        }) ==> encoded_size(done.push(row)) <= encoded_size(texts.take(i + 1)),
{
    assert(texts.take(i + 1).drop_last() == texts.take(i));
    assert(done.push(row).drop_last() == done);
}

/// A row takes no more bytes than the text it comes from.
proof fn lemma_span_size(text: Option<Seq<char>>, start: Option<i64>, count: Option<i64>)
    ensures
        string_span(text, start, count) matches Ok(Some(part)) ==> text is Some && encode_utf8(
            part,
        ).len() <= encode_utf8(text->0).len(),
{
    if let (Some(t), Some(s), Some(c)) = (text, start, count) {
        lemma_part_size(t, s, Some(c));
    }
}

/// What one more row adds to the rows collected.
pub(crate) proof fn lemma_collect_step(rows: Seq<RowResult>, i: int)
    requires
        0 <= i < rows.len(),
    ensures
        collect_rows(rows.take(i + 1)) == match (collect_rows(rows.take(i)), rows[i]) {
            (Err(failure), _) => Err(failure),
            (Ok(done), Ok(row)) => Ok(done.push(row)),
            (Ok(_), Err(failure)) => Err(failure),
        },
{
    assert(rows.take(i + 1).drop_last() == rows.take(i));
}

/// Rows behind a failure do not matter.
pub(crate) proof fn lemma_collect_stops(rows: Seq<RowResult>, n: int)
    requires
        0 <= n <= rows.len(),
        collect_rows(rows.take(n)) is Err,
    ensures
        collect_rows(rows) == collect_rows(rows.take(n)),
    decreases rows.len(),
{
    if n < rows.len() {
        assert(rows.drop_last().take(n) == rows.take(n));
        lemma_collect_stops(rows.drop_last(), n);
    } else {
        assert(rows.take(n) == rows);
    }
}

/// The row for a text and a start.
pub fn tail_row(text: Option<&str>, start: Option<i64>) -> (row: Option<String>)
    ensures
        owned_row(row) == string_tail(borrowed_row(text), start),
{
    match (text, start) {
        (Some(string), Some(start)) => {
            let (skip, length) = locate(string, start, None);
            Some(cut_chars(string, skip, length).to_owned())
        },
        _ => None,
    }
}

/// The row for a text, a start and a count.
pub fn span_row(text: Option<&str>, start: Option<i64>, count: Option<i64>) -> (row: Result<
    Option<String>,
    SubstrError,
>)
    ensures
        match row {
            Ok(part) => string_span(borrowed_row(text), start, count) == Ok::<_, Failure>(
                owned_row(part),
            ),
            Err(error) => string_span(borrowed_row(text), start, count) == Err::<
                Option<Seq<char>>,
                Failure,
            >(error@),
        },
{
    match (text, start, count) {
        (Some(string), Some(start), Some(count)) => {
            if count < 0 {
                Err(SubstrError::NegativeLength { start, count })
            } else {
                let (skip, length) = locate(string, start, Some(count));
                Ok(Some(cut_chars(string, skip, length).to_owned()))
            }
        },
        _ => Ok(None),
    }
}

/// The substrings of texts that start where `args[0]` says and, where there is
/// an `args[1]`, have as many characters as it says.
///
/// The rows end with the shortest column. A row with a null among its inputs is
/// null. The call fails where there is neither one nor two further arguments,
/// where one of them is no 64-bit integer column, and at the first row that asks
/// for a negative number of characters.
pub fn string_substr(texts: &Vec<Option<&str>>, args: &[Column]) -> (result: Result<
    Vec<Option<String>>,
    SubstrError,
>)
    ensures
        match result {
            Ok(rows) => string_result(borrowed_rows(texts@), args@) == Ok::<_, Failure>(
                owned_rows(rows@),
            ),
            Err(error) => string_result(borrowed_rows(texts@), args@) == Err::<
                Seq<Option<Seq<char>>>,
                Failure,
            >(error@),
        },
        result matches Ok(rows) ==> encoded_size(owned_rows(rows@)) <= encoded_size(
            borrowed_rows(texts@),
        ),
{
    let ghost all = borrowed_rows(texts@);
    let mut out: Vec<Option<String>> = Vec::new();
    let mut i: usize = 0;
    match args.len() {
        1 => {
            let start_array = match int64_rows(&args[0]) {
                Ok(rows) => rows,
                Err(cause) => return Err(SubstrError::NotInt64(cause)),
            };
            while i < texts.len() && i < start_array.len()
                invariant
                    all == borrowed_rows(texts@),
                    i <= texts.len(),
                    i <= start_array.len(),
                    owned_rows(out@) == string_tails(all, start_array@).take(i as int),
                    encoded_size(owned_rows(out@)) <= encoded_size(all.take(i as int)),
                decreases texts.len() - i,
            {
                assert(all[i as int] == borrowed_row(texts[i as int]));
                let ghost done = owned_rows(out@);
                let row = tail_row(texts[i], start_array[i]);
                proof {
                    lemma_row_size(all, i as int, done, owned_row(row));
                    if let (Some(t), Some(s)) = (all[i as int], start_array[i as int]) {
                        lemma_part_size(t, s, None);
                    }
                }
                out.push(row);
                i = i + 1;
                assert(owned_rows(out@) =~= done.push(owned_row(row)));
                assert(string_tails(all, start_array@).take(i as int) =~= done.push(
                    string_tails(all, start_array@)[i - 1],
                ));
            }
            proof {
                assert(string_tails(all, start_array@).take(i as int) =~= string_tails(
                    all,
                    start_array@,
                ));
                lemma_prefix_size(all, i as int);
            }
            Ok(out)
        },
        2 => {
            let start_array = match int64_rows(&args[0]) {
                Ok(rows) => rows,
                Err(cause) => return Err(SubstrError::NotInt64(cause)),
            };
            let count_array = match int64_rows(&args[1]) {
                Ok(rows) => rows,
                Err(cause) => return Err(SubstrError::NotInt64(cause)),
            };
            let ghost spans = string_spans(all, start_array@, count_array@);
            assert(spans.take(0) =~= Seq::empty());
            assert(owned_rows(out@) =~= Seq::empty());
            while i < texts.len() && i < start_array.len() && i < count_array.len()
                invariant
                    all == borrowed_rows(texts@),
                    spans == string_spans(all, start_array@, count_array@),
                    string_result(all, args@) == collect_rows(spans),
                    i <= texts.len(),
                    i <= start_array.len(),
                    i <= count_array.len(),
                    collect_rows(spans.take(i as int)) == Ok::<_, Failure>(owned_rows(out@)),
                    encoded_size(owned_rows(out@)) <= encoded_size(all.take(i as int)),
                decreases texts.len() - i,
            {
                assert(all[i as int] == borrowed_row(texts[i as int]));
                let ghost done = owned_rows(out@);
                proof {
                    lemma_collect_step(spans, i as int);
                }
                match span_row(texts[i], start_array[i], count_array[i]) {
                    Ok(row) => {
                        proof {
                            lemma_row_size(all, i as int, done, owned_row(row));
                            lemma_span_size(
                                all[i as int],
                                start_array[i as int],
                                count_array[i as int],
                            );
                        }
                        out.push(row);
                        assert(owned_rows(out@) =~= done.push(owned_row(row)));
                    },
                    Err(error) => {
                        proof {
                            lemma_collect_stops(spans, i + 1);
                        }
                        return Err(error);
                    },
                }
                i = i + 1;
            }
            proof {
                assert(spans.take(i as int) =~= spans);
                lemma_prefix_size(all, i as int);
            }
            Ok(out)
        },
        other => Err(SubstrError::ArgumentCount(other)),
    }
}

} // verus!
