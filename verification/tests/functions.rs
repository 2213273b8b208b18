use arrow::array::{
    Array, ArrayRef, AsArray, Int64Array, LargeStringArray, StringArray, StringViewArray,
};
use std::sync::Arc;
use substr::{try_substr, Column, DataType, SubstrError, SubstrFunc};

fn view(text: Option<&str>) -> ArrayRef {
    Arc::new(StringViewArray::from(vec![text]))
}

fn utf8(text: Option<&str>) -> ArrayRef {
    Arc::new(StringArray::from(vec![text]))
}

fn large(text: Option<&str>) -> ArrayRef {
    Arc::new(LargeStringArray::from(vec![text]))
}

fn number(value: Option<i64>) -> ArrayRef {
    Arc::new(Int64Array::from(vec![value]))
}

fn types_of(args: &[ArrayRef]) -> Vec<DataType> {
    let mut types = Vec::new();
    for arg in args {
        types.push(match arg.data_type() {
            arrow::datatypes::DataType::Utf8 => DataType::Utf8,
            arrow::datatypes::DataType::LargeUtf8 => DataType::LargeUtf8,
            arrow::datatypes::DataType::Utf8View => DataType::Utf8View,
            arrow::datatypes::DataType::Int64 => DataType::Int64,
            other => DataType::Other(format!("{other:?}")),
        });
    }
    types
}

fn call(args: &[ArrayRef]) -> Result<ArrayRef, SubstrError> {
    let columns: Vec<Column> = args.iter().map(|arg| Column(arg.clone())).collect();
    match try_substr(&columns) {
        Some(Ok(column)) => Ok(column.0),
        Some(Err(error)) => Err(error),
        None => panic!("the call is not defined"),
    }
}

fn first_row(array: &ArrayRef) -> Option<String> {
    assert_eq!(array.len(), 1);
    if array.is_null(0) {
        return None;
    }
    Some(match array.data_type() {
        arrow::datatypes::DataType::Utf8 => array.as_string::<i32>().value(0).to_string(),
        arrow::datatypes::DataType::LargeUtf8 => array.as_string::<i64>().value(0).to_string(),
        _ => array.as_string_view().value(0).to_string(),
    })
}

/// The call on these arguments gives this one row, of the type that is announced.
fn gives(args: &[ArrayRef], expected: Option<&str>) {
    let func = SubstrFunc::new();
    let types = types_of(args);
    let announced = func.return_type(&types).unwrap();
    let result = call(args).unwrap();
    assert_eq!(result.data_type(), args[0].data_type());
    assert_eq!(format!("{announced:?}"), format!("{:?}", result.data_type()));
    assert_eq!(first_row(&result), expected.map(|text| text.to_string()));
}

#[test]
fn test_functions() {
    gives(&[view(None), number(Some(1))], None);
    gives(&[view(Some("alphabet")), number(Some(0))], Some("alphabet"));
    gives(
        &[view(Some("this és longer than 12B")), number(Some(5)), number(Some(2))],
        Some(" é"),
    );
    gives(
        &[view(Some("this is longer than 12B")), number(Some(5))],
        Some(" is longer than 12B"),
    );
    gives(&[view(Some("joséésoj")), number(Some(5))], Some("ésoj"));
    gives(&[view(Some("alphabet")), number(Some(3)), number(Some(2))], Some("ph"));
    gives(&[view(Some("alphabet")), number(Some(3)), number(Some(20))], Some("phabet"));
    gives(&[utf8(Some("alphabet")), number(Some(0))], Some("alphabet"));
    gives(&[utf8(Some("joséésoj")), number(Some(5))], Some("ésoj"));
    gives(&[utf8(Some("joséésoj")), number(Some(-5))], Some("joséésoj"));
    gives(&[utf8(Some("alphabet")), number(Some(1))], Some("alphabet"));
    gives(&[utf8(Some("alphabet")), number(Some(2))], Some("lphabet"));
    gives(&[utf8(Some("alphabet")), number(Some(3))], Some("phabet"));
    gives(&[utf8(Some("alphabet")), number(Some(-3))], Some("alphabet"));
    gives(&[utf8(Some("alphabet")), number(Some(30))], Some(""));
    gives(&[utf8(Some("alphabet")), number(None)], None);
    gives(&[utf8(Some("alphabet")), number(Some(3)), number(Some(2))], Some("ph"));
    gives(&[utf8(Some("alphabet")), number(Some(3)), number(Some(20))], Some("phabet"));
    gives(&[utf8(Some("alphabet")), number(Some(0)), number(Some(5))], Some("alph"));
    // starting from 5 (10 + -5)
    gives(&[utf8(Some("alphabet")), number(Some(-5)), number(Some(10))], Some("alph"));
    // starting from -1 (4 + -5)
    gives(&[utf8(Some("alphabet")), number(Some(-5)), number(Some(4))], Some(""));
    // starting from 0 (5 + -5)
    gives(&[utf8(Some("alphabet")), number(Some(-5)), number(Some(5))], Some(""));
    gives(&[utf8(Some("alphabet")), number(None), number(Some(20))], None);
    gives(&[utf8(Some("alphabet")), number(Some(3)), number(None)], None);
    let error = call(&[utf8(Some("alphabet")), number(Some(1)), number(Some(-1))]).unwrap_err();
    assert_eq!(
        error.message().unwrap(),
        "negative substring length not allowed: substr(<str>, 1, -1)"
    );
    gives(&[utf8(Some("joséésoj")), number(Some(5)), number(Some(2))], Some("és"));
}

#[test]
fn documented_examples() {
    for text in [utf8(Some("alphabet")), large(Some("alphabet")), view(Some("alphabet"))] {
        gives(&[text.clone(), number(Some(3))], Some("phabet"));
        gives(&[text.clone(), number(Some(3)), number(Some(2))], Some("ph"));
    }
}

#[test]
fn large_strings_behave_as_strings() {
    gives(&[large(Some("joséésoj")), number(Some(-5)), number(Some(10))], Some("josé"));
    gives(&[large(Some("")), number(Some(1)), number(Some(1))], Some(""));
    gives(&[large(None), number(Some(1))], None);
    gives(&[large(Some("alphabet")), number(Some(i64::MAX))], Some(""));
    gives(&[large(Some("alphabet")), number(Some(2)), number(Some(i64::MAX))], Some("lphabet"));
}

#[test]
fn nulls_give_null() {
    for text in [utf8(Some("alphabet")), view(Some("alphabet")), view(Some("a long alphabet"))] {
        gives(&[text.clone(), number(None)], None);
        gives(&[text.clone(), number(None), number(Some(1))], None);
        gives(&[text.clone(), number(Some(1)), number(None)], None);
    }
    gives(&[utf8(None), number(Some(1)), number(Some(1))], None);
    gives(&[view(None), number(Some(1)), number(Some(1))], None);
    // A null hides a negative count in its row.
    gives(&[utf8(None), number(Some(1)), number(Some(-1))], None);
    gives(&[view(Some("alphabet")), number(None), number(Some(-1))], None);
    gives(&[view(None), number(Some(i64::MIN))], None);
}

#[test]
fn empty_texts_give_empty_texts() {
    for text in [utf8(Some("")), large(Some("")), view(Some(""))] {
        for start in [i64::MIN, -1, 0, 1, 2, i64::MAX] {
            gives(&[text.clone(), number(Some(start))], Some(""));
            gives(&[text.clone(), number(Some(start)), number(Some(0))], Some(""));
            gives(&[text.clone(), number(Some(start)), number(Some(i64::MAX))], Some(""));
        }
    }
}

#[test]
fn starts_before_the_text() {
    let long = "this is longer than 12B";
    for kind in [utf8, large, view] {
        gives(&[kind(Some("alphabet")), number(Some(-5))], Some("alphabet"));
        gives(&[kind(Some(long)), number(Some(-5))], Some(long));
        gives(&[kind(Some(long)), number(Some(i64::MIN))], Some(long));
        gives(&[kind(Some("alphabet")), number(Some(0)), number(Some(5))], Some("alph"));
        gives(&[kind(Some("alphabet")), number(Some(0)), number(Some(1))], Some(""));
        gives(&[kind(Some("alphabet")), number(Some(0)), number(Some(i64::MAX))], Some("alphabet"));
        gives(&[kind(Some(long)), number(Some(-2)), number(Some(9))], Some("this i"));
        gives(&[kind(Some(long)), number(Some(-2)), number(Some(20))], Some("this is longer th"));
        gives(&[kind(Some("alphabet")), number(Some(i64::MIN)), number(Some(5))], Some(""));
        gives(&[kind(Some("alphabet")), number(Some(i64::MIN)), number(Some(i64::MAX))], Some(""));
        gives(
            &[kind(Some("alphabet")), number(Some(-i64::MAX + 4)), number(Some(i64::MAX))],
            Some("alp"),
        );
    }
}

#[test]
fn starts_behind_the_text() {
    gives(&[view(Some("alphabet")), number(Some(9))], Some(""));
    gives(&[view(Some("this is longer than 12B")), number(Some(24))], Some(""));
    gives(&[view(Some("this is longer than 12B")), number(Some(23))], Some("B"));
    gives(&[view(Some("alphabet")), number(Some(9)), number(Some(1))], Some(""));
    gives(&[utf8(Some("alphabet")), number(Some(9)), number(Some(1))], Some(""));
    gives(&[utf8(Some("alphabet")), number(Some(i64::MAX))], Some(""));
}

#[test]
fn counts_of_zero_and_of_many_bits() {
    for kind in [utf8, large, view] {
        gives(&[kind(Some("alphabet")), number(Some(2)), number(Some(0))], Some(""));
        for count in [4294967295, 4294967296, 4294967299, i64::MAX] {
            gives(&[kind(Some("alphabet")), number(Some(2)), number(Some(count))], Some("lphabet"));
            gives(&[kind(Some("alphabet")), number(Some(3)), number(Some(count))], Some("phabet"));
        }
        gives(&[kind(Some("alphabet")), number(Some(4294967298))], Some(""));
        gives(&[kind(Some("alphabet")), number(Some(4294967298)), number(Some(3))], Some(""));
    }
}

#[test]
fn characters_of_every_width() {
    let text = "aé漢😀b";
    for column in [utf8(Some(text)), large(Some(text)), view(Some(text))] {
        gives(&[column.clone(), number(Some(2)), number(Some(1))], Some("é"));
        gives(&[column.clone(), number(Some(3)), number(Some(2))], Some("漢😀"));
        gives(&[column.clone(), number(Some(4))], Some("😀b"));
        gives(&[column.clone(), number(Some(5))], Some("b"));
    }
    let long = "aé漢😀baé漢😀b";
    gives(&[view(Some(long)), number(Some(7)), number(Some(3))], Some("é漢😀"));
    gives(&[view(Some(long)), number(Some(2))], Some("é漢😀baé漢😀b"));
}

#[test]
fn parts_make_up_the_text() {
    let text = "this és longer than 12B";
    for k in 0..30i64 {
        for column in [utf8(Some(text)), large(Some(text)), view(Some(text))] {
            let head = call(&[column.clone(), number(Some(1)), number(Some(k))]).unwrap();
            let tail = call(&[column.clone(), number(Some(k + 1))]).unwrap();
            let joined = first_row(&head).unwrap() + &first_row(&tail).unwrap();
            assert_eq!(joined, text);
        }
    }
}

#[test]
fn tail_of_tail() {
    let text = "this és longer than 12B";
    for a in 1..20i64 {
        for b in 1..20i64 {
            for column in [utf8(Some(text)), view(Some(text))] {
                let once = call(&[column.clone(), number(Some(a))]).unwrap();
                let twice = call(&[once, number(Some(b))]).unwrap();
                let direct = call(&[column.clone(), number(Some(a + b - 1))]).unwrap();
                assert_eq!(first_row(&twice), first_row(&direct));
            }
        }
    }
}

#[test]
fn columns_of_all_kinds_agree() {
    for text in ["", "x", "alphabet", "joséésoj", "this és longer than 12B"] {
        for start in -6..26i64 {
            let from_utf8 = call(&[utf8(Some(text)), number(Some(start))]).unwrap();
            let from_view = call(&[view(Some(text)), number(Some(start))]).unwrap();
            assert_eq!(first_row(&from_utf8), first_row(&from_view));
            for count in 0..26i64 {
                let args = [number(Some(start)), number(Some(count))];
                let from_utf8 =
                    call(&[utf8(Some(text)), args[0].clone(), args[1].clone()]).unwrap();
                let from_view =
                    call(&[view(Some(text)), args[0].clone(), args[1].clone()]).unwrap();
                assert_eq!(first_row(&from_utf8), first_row(&from_view));
                let part = first_row(&from_view).unwrap();
                assert!(part.chars().count() as i64 <= count);
                assert!(text.contains(&part));
            }
        }
    }
}

#[test]
fn accepted_types_do_not_fail() {
    let func = SubstrFunc::new();
    for types in func.signature().one_of.iter() {
        let mut args = vec![match types[0] {
            DataType::Utf8 => utf8(Some("alphabet")),
            DataType::LargeUtf8 => large(Some("alphabet")),
            _ => view(Some("alphabet")),
        }];
        while args.len() < types.len() {
            args.push(number(Some(3)));
        }
        assert_eq!(format!("{:?}", types_of(&args)), format!("{types:?}"));
        let expected = if types.len() == 2 { "phabet" } else { "pha" };
        gives(&args, Some(expected));
    }
}
