# substr

The SQL function `substr(string, start [, count])` on arrow columns, verified
with Verus.

The function cuts strings at character positions, counted from one, for the
three kinds of string columns that arrow has: `Utf8`, `LargeUtf8` and
`Utf8View`. With arguments of the accepted types the result depends on the
strings, not on the kind of column, but for one case: a negative count beside a
null string is an error on a `Utf8View` column and gives a null on the others. Long substrings of a `Utf8View` column are
views into the blocks of the column they come from, which the result shares.

- `src/text.rs` relates character positions to byte indices and cuts one string.
- `src/strings.rs` and `src/views.rs` do so for the rows of the two kinds of columns.
- `src/dispatch.rs` has `substr`, and `try_substr` for arguments that have not been checked.
- `src/func.rs` describes the function: name, alias, accepted types, type of the result.
- `src/error.rs` has the errors and their texts.
- `src/column.rs` and `src/builder.rs` hold the calls into arrow and DataFusion. Their
  contracts are not proved; each says what it claims of the function it calls.
- `src/laws.rs` states and proves what holds of the function as a whole.
- `app/` registers the function with DataFusion.
