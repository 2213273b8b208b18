use arrow::array::{
    Array, ArrayRef, AsArray, Int32Array, Int64Array, LargeStringArray, NullArray, StringArray,
    StringViewArray, StringViewBuilder,
};
use arrow::buffer::NullBuffer;
use std::sync::Arc;
use substr::text::cut_chars;
use substr::{
    get_true_start_count, substr as call_substr, try_substr, Column, DataType, SubstrError,
    SubstrFunc, Volatility,
};

fn ints(values: Vec<Option<i64>>) -> Column {
    Column(Arc::new(Int64Array::from(values)))
}

fn strings(values: Vec<Option<&str>>) -> Column {
    Column(Arc::new(StringArray::from(values)))
}

fn views(values: Vec<Option<&str>>) -> Column {
    Column(Arc::new(StringViewArray::from(values)))
}

fn rows(column: &Column) -> Vec<Option<&str>> {
    match column.0.data_type() {
        arrow::datatypes::DataType::Utf8 => column.0.as_string::<i32>().iter().collect(),
        arrow::datatypes::DataType::LargeUtf8 => column.0.as_string::<i64>().iter().collect(),
        _ => column.0.as_string_view().iter().collect(),
    }
}

fn failure(args: &[Column]) -> SubstrError {
    match try_substr(args) {
        Some(Err(error)) => error,
        _ => panic!("the call does not fail"),
    }
}

#[test]
fn bounds_in_bytes() {
    assert_eq!(get_true_start_count("alphabet", 2, 3), (2, 5));
    assert_eq!(get_true_start_count("alphabet", 2, -1), (2, 8));
    assert_eq!(get_true_start_count("alphabet", 2, 20), (2, 8));
    assert_eq!(get_true_start_count("alphabet", 8, 0), (8, 8));
    assert_eq!(get_true_start_count("alphabet", 30, -1), (8, 8));
    assert_eq!(get_true_start_count("alphabet", 0, 0), (0, 0));
    assert_eq!(get_true_start_count("", 0, -1), (0, 0));
    assert_eq!(get_true_start_count("joséésoj", 3, 1), (3, 5));
    assert_eq!(get_true_start_count("joséésoj", 4, -1), (5, 10));
    assert_eq!(get_true_start_count("joséésoj", 4, -7), (5, 10));
    assert_eq!(get_true_start_count("aé漢😀b", 2, 2), (3, 10));
    assert_eq!(get_true_start_count("alphabet", usize::MAX, i64::MAX), (8, 8));
}

#[test]
fn bounds_never_cut_a_character() {
    let text = "aé漢😀b";
    for start in 0..8usize {
        for count in -2..8i64 {
            let (st, ed) = get_true_start_count(text, start, count);
            assert_eq!(&text[st..ed], cut_chars(text, start, count));
        }
    }
    assert_eq!(cut_chars(text, 1, 2), "é漢");
    assert_eq!(cut_chars(text, 3, -1), "😀b");
}

#[test]
fn rows_in_order() {
    let texts = vec![Some("alphabet"), None, Some("joséésoj"), Some("x"), Some("y")];
    let starts = vec![Some(3), Some(1), Some(5), None, Some(1)];
    let counts = vec![Some(2), Some(2), Some(20), Some(1), Some(0)];
    let tails = vec![Some("phabet"), None, Some("ésoj"), None, Some("y")];
    let spans = vec![Some("ph"), None, Some("ésoj"), None, Some("")];
    for column in [
        strings(texts.clone()),
        Column(Arc::new(LargeStringArray::from(texts.clone()))),
        views(texts.clone()),
    ] {
        let args = [column, ints(starts.clone())];
        assert_eq!(rows(&try_substr(&args).unwrap().unwrap()), tails);
        let [column, start_column] = args;
        let args = [column, start_column, ints(counts.clone())];
        assert_eq!(rows(&try_substr(&args).unwrap().unwrap()), spans);
    }
}

#[test]
fn rows_end_with_the_shortest_column() {
    let three = vec![Some("abc"), Some("def"), Some("ghi")];
    for column in [strings(three.clone()), views(three.clone())] {
        let args = [column, ints(vec![Some(2), Some(3)])];
        assert_eq!(rows(&try_substr(&args).unwrap().unwrap()), vec![Some("bc"), Some("f")]);
        let [column, starts] = args;
        let args = [column, starts, ints(vec![Some(1)])];
        assert_eq!(rows(&try_substr(&args).unwrap().unwrap()), vec![Some("b")]);
        let [column, _, _] = args;
        let args = [column, ints(vec![])];
        assert_eq!(try_substr(&args).unwrap().unwrap().0.len(), 0);
    }
}

#[test]
fn long_views_share_their_blocks() {
    let mut builder = StringViewBuilder::new().with_fixed_block_size(32);
    builder.append_value("the first text, longer than a view");
    builder.append_value("the second text, longer than a view");
    builder.append_value("short");
    builder.append_null();
    builder.append_value("the third text, longer than a view");
    let array = builder.finish();
    assert!(array.data_buffers().len() > 1);
    let blocks = array.data_buffers().to_vec();
    let words = array.views().to_vec();
    let column: ArrayRef = Arc::new(array);
    let starts: Vec<Option<i64>> = vec![Some(5), Some(5), Some(2), Some(1), Some(30)];
    let args = [Column(column), ints(starts)];
    let result = try_substr(&args).unwrap().unwrap();
    assert_eq!(
        rows(&result),
        vec![
            Some("first text, longer than a view"),
            Some("second text, longer than a view"),
            Some("hort"),
            None,
            Some(" view"),
        ]
    );
    let shared = result.0.as_string_view().data_buffers();
    assert_eq!(shared.len(), blocks.len());
    for (block, other) in blocks.iter().zip(shared) {
        assert!(block.ptr_eq(other));
    }
    let moved = result.0.as_string_view().views();
    for i in 0..2 {
        assert_eq!((moved[i] >> 64) as u32, (words[i] >> 64) as u32);
        assert_eq!(moved[i] >> 96, (words[i] >> 96) + 4);
        assert_eq!(moved[i] as u32, words[i] as u32 - 4);
    }
    assert_eq!(moved[3], 0);
    result.0.to_data().validate_full().unwrap();
}

#[test]
fn texts_behind_nulls_are_not_read() {
    let plain = StringViewArray::from(vec!["alphabet", "this is longer than 12B", "x"]);
    let (words, blocks, _) = plain.into_parts();
    let marked =
        StringViewArray::new(words, blocks, Some(NullBuffer::from(vec![false, false, true])));
    let args = [Column(Arc::new(marked)), ints(vec![Some(3), Some(6), Some(1)])];
    let result = try_substr(&args).unwrap().unwrap();
    assert_eq!(rows(&result), vec![None, None, Some("x")]);
    let [column, starts] = args;
    let args = [column, starts, ints(vec![Some(1), Some(20), Some(1)])];
    let result = try_substr(&args).unwrap().unwrap();
    assert_eq!(rows(&result), vec![None, None, Some("x")]);
}

#[test]
fn sliced_columns() {
    let texts = StringViewArray::from(vec!["zero", "one", "this is longer than 12B", "three"]);
    let args = [Column(Arc::new(texts.slice(1, 2))), ints(vec![Some(2), Some(6)])];
    let result = try_substr(&args).unwrap().unwrap();
    assert_eq!(rows(&result), vec![Some("ne"), Some("is longer than 12B")]);
    let texts = StringArray::from(vec!["zero", "one", "two", "three"]);
    let args = [Column(Arc::new(texts.slice(1, 2))), ints(vec![Some(2), Some(3)])];
    let result = try_substr(&args).unwrap().unwrap();
    assert_eq!(rows(&result), vec![Some("ne"), Some("o")]);
}

#[test]
fn first_negative_count_fails_the_call() {
    let texts = vec![Some("abc"), None, Some("def"), Some("ghi")];
    let starts = vec![Some(1), Some(1), Some(7), Some(2)];
    let counts = vec![Some(1), Some(-3), Some(-1), Some(-2)];
    let args = [strings(texts.clone()), ints(starts.clone()), ints(counts.clone())];
    let error = failure(&args);
    assert!(matches!(error, SubstrError::NegativeLength { start: 7, count: -1 }));
    assert_eq!(
        error.message().unwrap(),
        "negative substring length not allowed: substr(<str>, 7, -1)"
    );
    // In a view column a negative count fails beside a null text as well.
    let args = [views(texts), ints(starts), ints(counts)];
    let error = failure(&args);
    assert!(matches!(error, SubstrError::NegativeLength { start: 1, count: -3 }));
    assert_eq!(
        error.message().unwrap(),
        "negative substring length not allowed: substr(<str>, 1, -3)"
    );
}

#[test]
fn negative_count_at_an_extreme_start() {
    let args = [
        strings(vec![Some("abc")]),
        ints(vec![Some(i64::MIN)]),
        ints(vec![Some(i64::MIN)]),
    ];
    assert_eq!(
        failure(&args).message().unwrap(),
        "negative substring length not allowed: substr(<str>, -9223372036854775808, \
         -9223372036854775808)"
    );
    let args = [views(vec![Some("abc")]), ints(vec![Some(0)]), ints(vec![Some(-1)])];
    assert_eq!(
        failure(&args).message().unwrap(),
        "negative substring length not allowed: substr(<str>, 0, -1)"
    );
    let args = [views(vec![Some("alphabet")]), ints(vec![Some(1)]), ints(vec![Some(-1)])];
    assert_eq!(
        failure(&args).message().unwrap(),
        "negative substring length not allowed: substr(<str>, 1, -1)"
    );
}

#[test]
fn columns_that_are_no_strings() {
    let args = [Column(Arc::new(Int32Array::from(vec![1]))), ints(vec![Some(1)])];
    assert_eq!(
        failure(&args).message().unwrap(),
        "Unsupported data type Int32 for function substr,expected Utf8View, Utf8 or LargeUtf8."
    );
    let args = [ints(vec![Some(1)])];
    assert_eq!(
        failure(&args).message().unwrap(),
        "Unsupported data type Int64 for function substr,expected Utf8View, Utf8 or LargeUtf8."
    );
    let args = [Column(Arc::new(NullArray::new(1)))];
    assert!(matches!(failure(&args), SubstrError::UnsupportedType(name) if name == "Null"));
}

#[test]
fn columns_that_are_no_integers() {
    let wrong = || Column(Arc::new(Int32Array::from(vec![1])));
    for column in [strings(vec![Some("abc")]), views(vec![Some("abc")])] {
        let args = [column, wrong()];
        let error = failure(&args);
        assert!(matches!(error, SubstrError::NotInt64(_)));
        assert!(error.message().is_none());
        let [column, _] = args;
        let args = [column, ints(vec![Some(1)]), wrong()];
        assert!(matches!(failure(&args), SubstrError::NotInt64(_)));
        let [column, _, _] = args;
        let args = [column, wrong(), ints(vec![Some(1)])];
        assert!(matches!(failure(&args), SubstrError::NotInt64(_)));
    }
}

#[test]
fn wrong_numbers_of_arguments() {
    let one = || ints(vec![Some(1)]);
    let error = failure(&[strings(vec![Some("abc")])]);
    assert_eq!(
        error.message().unwrap(),
        "substr was called with 0 arguments. It requires 2 or 3."
    );
    for column in [strings(vec![Some("abc")]), views(vec![Some("abc")])] {
        let error = failure(&[column, one(), one(), one()]);
        assert!(matches!(error, SubstrError::ArgumentCount(3)));
        assert_eq!(
            error.message().unwrap(),
            "substr was called with 3 arguments. It requires 2 or 3."
        );
    }
    // A view column looks at the type of the starts first, a string column at the number.
    let wrong = || Column(Arc::new(Int32Array::from(vec![1])));
    let error = failure(&[strings(vec![Some("abc")]), wrong(), one(), one()]);
    assert!(matches!(error, SubstrError::ArgumentCount(3)));
    let error = failure(&[views(vec![Some("abc")]), wrong(), one(), one()]);
    assert!(matches!(error, SubstrError::NotInt64(_)));
}

#[test]
fn calls_that_are_not_defined() {
    assert!(try_substr(&[]).is_none());
    assert!(try_substr(&[views(vec![Some("abc")])]).is_none());
    assert!(try_substr(&[strings(vec![Some("abc")])]).is_some());
}

#[test]
fn failures_agree_before_a_null_text() {
    let texts = vec![Some("abc"), None];
    let starts = vec![Some(2), Some(1)];
    let counts = vec![Some(-1), Some(-3)];
    for column in [strings(texts.clone()), views(texts.clone())] {
        let error = failure(&[column, ints(starts.clone()), ints(counts.clone())]);
        assert!(matches!(error, SubstrError::NegativeLength { start: 2, count: -1 }));
    }
}

#[test]
fn direct_call() {
    let args = [strings(vec![Some("alphabet")]), ints(vec![Some(3)]), ints(vec![Some(2)])];
    assert_eq!(rows(&call_substr(&args).unwrap()), vec![Some("ph")]);
}

#[test]
fn description_of_the_function() {
    let func = SubstrFunc::default();
    assert_eq!(func.name(), "substr");
    assert_eq!(func.aliases(), &vec!["substring".to_string()]);
    assert_eq!(func.signature().volatility, Volatility::Immutable);
    assert_eq!(
        format!("{:?}", func.signature().one_of),
        "[[Utf8, Int64], [LargeUtf8, Int64], [Utf8, Int64, Int64], [LargeUtf8, Int64, Int64], \
         [Utf8View, Int64], [Utf8View, Int64, Int64]]"
    );
}

#[test]
fn type_of_the_result() {
    let func = SubstrFunc::new();
    assert!(matches!(func.return_type(&[DataType::Utf8View]), Ok(DataType::Utf8View)));
    assert!(matches!(func.return_type(&[DataType::Utf8]), Ok(DataType::Utf8)));
    assert!(matches!(func.return_type(&[DataType::LargeUtf8]), Ok(DataType::LargeUtf8)));
    let error = func.return_type(&[DataType::Int64]).unwrap_err();
    assert!(matches!(error, SubstrError::UnsupportedType(name) if name == "Int64"));
    let error = func.return_type(&[DataType::Other("Boolean".to_string())]).unwrap_err();
    assert!(matches!(error, SubstrError::UnsupportedType(name) if name == "Boolean"));
}
