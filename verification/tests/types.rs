use csv_sniffer::field_type::{classify, infer_column, infer_column_of, infer_types, infer_value};
use csv_sniffer::Type;

fn column(values: &[&str]) -> Vec<Vec<u8>> {
    values.iter().map(|v| v.as_bytes().to_vec()).collect()
}

fn row(values: &[&str]) -> Vec<Vec<u8>> {
    column(values)
}

#[test]
fn boolean_tokens_in_any_case() {
    for token in ["true", "false", "yes", "no", "1", "0", "TRUE", "False", "yEs", "NO"] {
        assert_eq!(classify(token.as_bytes()), Type::Boolean, "{}", token);
    }
    for other in ["t", "f", "y", "n", "on", "off", "truee", " true", "2", "00", "01"] {
        assert_ne!(classify(other.as_bytes()), Type::Boolean, "{}", other);
    }
}

#[test]
fn integers_have_an_optional_sign_and_digits() {
    for value in ["2", "42", "-7", "+15", "007", "00", "12345678901234567890123"] {
        assert_eq!(classify(value.as_bytes()), Type::Integer, "{}", value);
    }
    for value in ["-", "+", "--1", "1-", "1 ", " 1", "1_000", "0x10"] {
        assert_eq!(classify(value.as_bytes()), Type::Text, "{}", value);
    }
}

#[test]
fn floats_have_a_fraction_or_an_exponent() {
    for value in ["3.5", "-0.25", "+10.0", "1e5", "1E5", "2e-3", "7.5e+10", "0.0", "6.02E23"] {
        assert_eq!(classify(value.as_bytes()), Type::Float, "{}", value);
    }
    for value in [".5", "5.", "1.e3", "1e", "1e+", "e5", "1.2.3", "1e5.0", "1.5f", "-.5", "NaN", "inf", "1,5"]
    {
        assert_eq!(classify(value.as_bytes()), Type::Text, "{}", value);
    }
}

#[test]
fn empty_value_alone_is_text() {
    assert_eq!(classify(b""), Type::Text);
    assert_eq!(infer_value(b""), Type::Text);
    assert_eq!(infer_value(b"12"), Type::Integer);
    assert_eq!(infer_value(b"yes"), Type::Boolean);
}

#[test]
fn types_are_ordered_by_generality() {
    assert!(Type::Boolean < Type::Integer);
    assert!(Type::Integer < Type::Float);
    assert!(Type::Float < Type::Text);
    assert_eq!(Type::Boolean.generality(), 0);
    assert_eq!(Type::Integer.generality(), 1);
    assert_eq!(Type::Float.generality(), 2);
    assert_eq!(Type::Text.generality(), 3);
}

#[test]
fn join_is_the_greater_type() {
    let all = [Type::Boolean, Type::Integer, Type::Float, Type::Text];
    for a in all {
        assert_eq!(a.join(a), a);
        assert_eq!(a.join(Type::Text), Type::Text);
        assert_eq!(a.join(Type::Boolean), a);
        for b in all {
            assert_eq!(a.join(b), b.join(a));
            assert_eq!(a.join(b), if a >= b { a } else { b });
            for c in all {
                assert_eq!(a.join(b).join(c), a.join(b.join(c)));
            }
        }
    }
    assert_eq!(Type::Integer.join(Type::Float), Type::Float);
}

#[test]
fn column_type_grows_with_its_values() {
    assert_eq!(infer_column(&column(&["1", "2", "3"])), Type::Integer);
    assert_eq!(infer_column(&column(&["1", "2", "3", "3.5"])), Type::Float);
    assert_eq!(infer_column(&column(&["1", "2", "3", "3.5", "four"])), Type::Text);
}

#[test]
fn column_type_ignores_the_order_of_values() {
    assert_eq!(infer_column(&column(&["3.5", "1"])), Type::Float);
    assert_eq!(infer_column(&column(&["1", "3.5"])), Type::Float);
    assert_eq!(infer_column(&column(&["1", "3.5", "1", "3.5"])), Type::Float);
    assert_eq!(infer_column(&column(&["x", "1"])), infer_column(&column(&["1", "x"])));
}

#[test]
fn empty_values_are_neutral() {
    assert_eq!(infer_column(&column(&["", "", ""])), Type::Text);
    assert_eq!(infer_column(&column(&[])), Type::Text);
    assert_eq!(infer_column(&column(&["", "42", "", "42", ""])), Type::Integer);
    assert_eq!(infer_column(&column(&["", "1", "0", ""])), Type::Boolean);
}

#[test]
fn column_of_booleans_only_is_boolean() {
    assert_eq!(infer_column(&column(&["1", "0", "1"])), Type::Boolean);
    assert_eq!(infer_column(&column(&["yes", "no"])), Type::Boolean);
    assert_eq!(infer_column(&column(&["yes", "2"])), Type::Integer);
}

#[test]
fn types_of_a_table() {
    let rows = vec![
        row(&["skipped", "row", "here"]),
        row(&["a", "1", "1.5"]),
        row(&["b", "2"]),
        row(&["", "3", "2", "extra"]),
    ];
    assert_eq!(infer_types(&rows, 1, 3), vec![Type::Text, Type::Integer, Type::Float]);
    assert_eq!(infer_types(&rows, 2, 3), vec![Type::Text, Type::Integer, Type::Integer]);
    assert_eq!(infer_types(&rows, 3, 4), vec![Type::Text, Type::Integer, Type::Integer, Type::Text]);
    assert_eq!(infer_types(&rows, 4, 2), vec![Type::Text, Type::Text]);
    assert_eq!(infer_types(&rows, 0, 0), Vec::<Type>::new());
    assert_eq!(infer_types(&rows, 9, 2), vec![Type::Text, Type::Text]);
    assert_eq!(infer_column_of(&rows, 1, 1), Type::Integer);
    assert_eq!(infer_column_of(&rows, 1, 3), Type::Text);
    assert_eq!(infer_column_of(&rows, 9, 0), Type::Text);
}
