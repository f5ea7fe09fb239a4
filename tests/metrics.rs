use sql_metrics::{Matrix, Metric, MetricError, Row, Timespec, ToMillis};

fn now() -> Timespec {
    let t = time::get_time();
    Timespec { sec: t.sec, nsec: t.nsec }
}

fn row_of(pairs: &[(&str, &str)]) -> Row {
    let mut row = Row::new();
    for (k, v) in pairs {
        row.insert(k.to_string(), v.to_string());
    }
    row
}

fn columns(names: &[&str]) -> Vec<String> {
    names.iter().map(|n| n.to_string()).collect()
}

#[test]
fn empty_matrix_is_converted_to_empty_set_of_metrics() {
    let matrix = Matrix {
        column_names: vec![String::from("SOME"), String::from("THING"), String::from("WEIRD")],
        rows: Vec::new(),
    };

    let metrics = matrix.to_metrics("ANY.{SOME}.OTHER.{THING}", &now()).unwrap();
    assert_eq!(metrics, vec![]);
}

#[test]
fn matrix_with_one_row_and_no_fragment_column_is_converted_to_a_metric_singleton() {
    let mut row_hash_map = Row::new();
    row_hash_map.insert(String::from("SOME"), String::from("42"));
    let matrix = Matrix {
        column_names: vec![String::from("SOME")],
        rows: vec![row_hash_map],
    };

    let time = now();

    let metrics = matrix.to_metrics("ANY", &time).unwrap();
    assert_eq!(metrics, vec![Metric::new("ANY.SOME", 42, &time)]);
}

#[test]
fn placeholder_in_key_template_are_resolved() {
    let mut row_hash_map = Row::new();
    row_hash_map.insert(String::from("SOME"), String::from("SOME_1"));
    row_hash_map.insert(String::from("THING"), String::from("THING_2"));
    row_hash_map.insert(String::from("WEIRD"), String::from("43"));
    let matrix = Matrix {
        column_names: vec![String::from("SOME"), String::from("THING"), String::from("WEIRD")],
        rows: vec![row_hash_map],
    };

    let time = now();

    let metrics = matrix.to_metrics("ANY.{SOME}.OTHER.{THING}", &time);
    assert_eq!(metrics, Ok(vec![Metric::new("ANY.SOME_1.OTHER.THING_2.WEIRD", 43, &time)]));
}

#[test]
fn empty_matrix_gives_no_metric_for_a_pattern_without_placeholders() {
    let matrix = Matrix { column_names: columns(&["A", "B"]), rows: Vec::new() };
    assert_eq!(matrix.to_metrics("plain", &now()), Ok(vec![]));
}

#[test]
fn metrics_come_row_by_row_then_column_by_column() {
    let matrix = Matrix {
        column_names: columns(&["X", "HOST", "Y"]),
        rows: vec![
            row_of(&[("X", "1"), ("HOST", "a"), ("Y", "-2")]),
            row_of(&[("X", "+3"), ("HOST", "b"), ("Y", "4")]),
        ],
    };
    let time = Timespec { sec: 100, nsec: 7_000_000 };
    let metrics = matrix.to_metrics("db.{HOST}", &time).unwrap();
    assert_eq!(
        metrics,
        vec![
            Metric { name: "db.a.X".to_string(), value: 1, timestamp: 107 },
            Metric { name: "db.a.Y".to_string(), value: -2, timestamp: 107 },
            Metric { name: "db.b.X".to_string(), value: 3, timestamp: 107 },
            Metric { name: "db.b.Y".to_string(), value: 4, timestamp: 107 },
        ]
    );
}

#[test]
fn non_numeric_value_fails_extraction() {
    let matrix = Matrix {
        column_names: columns(&["K", "V"]),
        rows: vec![row_of(&[("K", "k1"), ("V", "12")]), row_of(&[("K", "k2"), ("V", "abc")])],
    };
    let result = matrix.to_metrics("m.{K}", &now());
    assert_eq!(result, Err(MetricError::NonNumericValue("V".to_string(), "abc".to_string())));
    assert_eq!(
        result.unwrap_err().message(),
        "Value column V contains a non-numeric value abc".to_string()
    );
}

#[test]
fn values_outside_i64_or_with_spaces_are_non_numeric() {
    for text in ["9223372036854775808", " 1", "1 ", "", "-", "+", "1.5", "0x10"] {
        let matrix = Matrix { column_names: columns(&["V"]), rows: vec![row_of(&[("V", text)])] };
        assert_eq!(
            matrix.to_metrics("m", &now()),
            Err(MetricError::NonNumericValue("V".to_string(), text.to_string()))
        );
    }
}

#[test]
fn extreme_i64_values_are_read() {
    let matrix = Matrix {
        column_names: columns(&["LO", "HI"]),
        rows: vec![row_of(&[("LO", "-9223372036854775808"), ("HI", "9223372036854775807")])],
    };
    let metrics = matrix.to_metrics("m", &Timespec { sec: 0, nsec: 0 }).unwrap();
    assert_eq!(metrics[0].value, i64::MIN);
    assert_eq!(metrics[1].value, i64::MAX);
}

#[test]
fn key_columns_missing_from_the_result_are_all_reported() {
    let matrix = Matrix { column_names: columns(&["B", "V"]), rows: Vec::new() };
    let result = matrix.to_metrics("{A}.{B}.{C}", &now());
    assert_eq!(result, Err(MetricError::MissingKeyColumns(columns(&["A", "C"]))));
    assert_eq!(
        result.unwrap_err().message(),
        "Metric template uses missing columns: A, C".to_string()
    );
}

#[test]
fn a_pattern_using_every_column_leaves_no_value_column() {
    let matrix = Matrix { column_names: columns(&["A", "B"]), rows: Vec::new() };
    let result = matrix.to_metrics("{A}.{B}", &now());
    assert_eq!(result, Err(MetricError::NoValueColumns));
    assert_eq!(MetricError::NoValueColumns.message(), "No value column to produce metric".to_string());
}

#[test]
fn millis_add_whole_milliseconds_to_seconds_and_wrap_at_32_bits() {
    assert_eq!(Timespec { sec: 10, nsec: 999_999_999 }.to_millis(), 1009);
    assert_eq!(Timespec { sec: 4_294_967_296 + 5, nsec: 2_000_000 }.to_millis(), 7);
    assert_eq!(Timespec { sec: -1, nsec: 0 }.to_millis(), u32::MAX);
    assert_eq!(Metric::new("n", 1, &Timespec { sec: 3, nsec: 4_000_000 }).timestamp, 7);
}

#[test]
fn a_row_lacking_a_key_column_fails_with_the_first_missing_placeholder() {
    let matrix = Matrix {
        column_names: columns(&["A", "B", "V"]),
        rows: vec![
            row_of(&[("A", "a"), ("B", "b"), ("V", "1")]),
            row_of(&[("V", "2")]),
        ],
    };
    let result = matrix.to_metrics("{B}.{A}", &now());
    assert_eq!(result, Err(MetricError::MissingPlaceholder("B".to_string())));
}
