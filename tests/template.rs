use sql_metrics::{MetricError, Row, Template};

fn str_map(pairs: &[(&str, &str)]) -> Row {
    let mut row = Row::new();
    for (k, v) in pairs {
        row.insert(k.to_string(), v.to_string());
    }
    row
}

#[test]
fn template_can_be_instantiated() {
    Template::new("");
}

#[test]
fn template_without_placeholders_gives_empty_vec() {
    let template = Template::new("some.thing");
    assert_eq!(template.placeholders.len(), 0);
}

#[test]
fn template_gives_correct_placeholders() {
    let template = Template::new("some.thing");
    assert_eq!(template.placeholders.len(), 0);
}

#[test]
fn template_without_placeholders_evaluates_to_initial_template_string() {
    let template = Template::new("some.thing");
    let evaluation_result = template.evaluate(&str_map(&[]));
    assert_eq!(evaluation_result, Ok("some.thing".to_string()));
}

#[test]
fn template_fails_to_evaluate_if_a_placeholder_key_is_missing() {
    let template = Template::new("part.{tok1}.part_{tok2}");
    let evaluation_result = template.evaluate(&str_map(&[("tok1", "val1")]));
    assert_eq!(
        evaluation_result.clone().map_err(|e| e.message()),
        Err("Missing placeholder key: tok2".to_string())
    );
    assert_eq!(evaluation_result, Err(MetricError::MissingPlaceholder("tok2".to_string())));
}

#[test]
fn template_nominal_usage_works() {
    let template = Template::new("part.{tok1}.part_{tok2}");
    let evaluation_result = template.evaluate(&str_map(&[("tok1", "val1"), ("tok2", "val2")]));
    assert_eq!(evaluation_result, Ok("part.val1.part_val2".to_string()));
}

#[test]
fn placeholders_are_listed_in_order_with_repetitions() {
    let template = Template::new("{b}.x.{a}.{b}");
    assert_eq!(template.placeholders, vec!["b".to_string(), "a".to_string(), "b".to_string()]);
    let again = Template::new("{b}.x.{a}.{b}");
    assert_eq!(template.placeholders, again.placeholders);
}

#[test]
fn repeated_placeholder_gets_the_same_value_each_time() {
    let template = Template::new("{b}.x.{a}.{b}");
    let evaluated = template.evaluate(&str_map(&[("a", "1"), ("b", "2"), ("c", "3")]));
    assert_eq!(evaluated, Ok("2.x.1.2".to_string()));
}

#[test]
fn empty_braces_and_unclosed_braces_are_literal_text() {
    let template = Template::new("a{}b{c");
    assert_eq!(template.placeholders.len(), 0);
    assert_eq!(template.evaluate(&str_map(&[])), Ok("a{}b{c".to_string()));
}

#[test]
fn an_open_brace_inside_a_token_belongs_to_the_name() {
    let template = Template::new("x{a{b}y");
    assert_eq!(template.placeholders, vec!["a{b".to_string()]);
    assert_eq!(template.evaluate(&str_map(&[("a{b", "V")])), Ok("xVy".to_string()));
}

#[test]
fn first_missing_placeholder_in_stored_order_is_reported() {
    let template = Template::new("{z}.{a}");
    let evaluated = template.evaluate(&str_map(&[]));
    assert_eq!(evaluated, Err(MetricError::MissingPlaceholder("z".to_string())));
}

#[test]
fn non_ascii_text_is_kept() {
    let template = Template::new("é.{ü}.ß");
    assert_eq!(template.placeholders, vec!["ü".to_string()]);
    assert_eq!(template.evaluate(&str_map(&[("ü", "ñ")])), Ok("é.ñ.ß".to_string()));
}

#[test]
fn row_insert_replaces_earlier_value() {
    let mut row = Row::new();
    row.insert("k".to_string(), "1".to_string());
    row.insert("k".to_string(), "2".to_string());
    assert_eq!(row.get(&"k".to_string()), Some(&"2".to_string()));
    assert!(row.contains_key(&"k".to_string()));
    assert!(!row.contains_key(&"j".to_string()));
    assert_eq!(row.get(&"j".to_string()), None);
}
