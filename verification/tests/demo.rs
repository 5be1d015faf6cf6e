use durable_workflow::activity;
use durable_workflow::demo::{
    parse_ints, Parent, ParentParams, Parse, ParseParams, SumActivity, SumChild, SumChildParams,
    SumChildResult, SumParams, SumResult,
};
use durable_workflow::workflow::Error;

#[test]
fn parses_space_separated_integers() {
    assert_eq!(parse_ints("1 2 3"), Ok(vec![1, 2, 3]));
}

#[test]
fn empty_input_is_empty_list() {
    assert_eq!(parse_ints(""), Ok(vec![]));
    assert_eq!(parse_ints("   "), Ok(vec![]));
}

#[test]
fn parses_negative_integers() {
    assert_eq!(parse_ints("-5 10"), Ok(vec![-5, 10]));
}

#[test]
fn bad_token_is_an_error_naming_the_token() {
    let err = parse_ints("1 two 3").unwrap_err();
    assert!(err.contains("two"), "got: {err}");
}

#[test]
fn bad_token_is_quoted_in_the_error() {
    assert_eq!(
        parse_ints("1 tw\u{f6} x"),
        Err("could not parse 'tw\u{f6}' as an integer".to_string())
    );
    assert_eq!(parse_ints("x"), Err("could not parse 'x' as an integer".to_string()));
}

#[test]
fn integers_take_a_sign_and_keep_to_their_range() {
    assert_eq!(
        parse_ints("+7 007 -9223372036854775808 9223372036854775807"),
        Ok(vec![7, 7, i64::MIN, i64::MAX])
    );
    assert!(parse_ints("9223372036854775808").is_err());
    assert!(parse_ints("-9223372036854775809").is_err());
    assert!(parse_ints("99999999999999999999999999999999999999999999999999").is_err());
    assert!(parse_ints("-").is_err());
    assert!(parse_ints("+-1").is_err());
    assert!(parse_ints("1_000").is_err());
}

#[test]
fn any_white_space_separates() {
    assert_eq!(
        parse_ints("\t1\u{2003}2\r\n3\u{a0}4\u{3000}"),
        Ok(vec![1, 2, 3, 4])
    );
}

#[test]
fn splits_and_parses_like_the_standard_library() {
    for text in ["", " a 1", "12\u{85}-3 +", "5\u{200b}6", "\u{b}8\u{c}9", "1 2 x 3 y"] {
        let expected: Result<Vec<i64>, String> = text
            .split_whitespace()
            .map(|t| {
                t.parse::<i64>()
                    .map_err(|_| format!("could not parse '{t}' as an integer"))
            })
            .collect();
        assert_eq!(parse_ints(text), expected, "text: {text:?}");
    }
}

#[test]
fn sum_activity_totals_values() {
    let out = SumActivity.run(SumParams { values: vec![1, 2, 3] }).unwrap();
    assert_eq!(out, SumResult { total: 6 });
}

#[test]
fn sum_activity_empty_is_zero() {
    let out = SumActivity.run(SumParams { values: vec![] }).unwrap();
    assert_eq!(out, SumResult { total: 0 });
}

#[test]
fn sum_that_leaves_the_range_is_none() {
    assert_eq!(SumActivity.run(SumParams { values: vec![i64::MAX, 1, -1] }), None);
    assert_eq!(
        SumActivity.run(SumParams { values: vec![i64::MAX, -1, 1] }),
        Some(SumResult { total: i64::MAX })
    );
}

#[test]
fn parse_failure_fails_the_workflow_with_its_message() {
    let call = Parent::begin(ParentParams { text: "1 two 3".into() });
    let error = Parse.run(ParseParams { text: call.text }).unwrap_err();
    assert!(error.non_retryable);
    let failure = Parent::parsed(Err(error)).unwrap_err();
    assert_eq!(failure.message, "could not parse 'two' as an integer");
}

#[test]
fn parent_sums_through_its_child() {
    let call = Parent::begin(ParentParams { text: "-5 10".into() });
    let parsed = Parse.run(call).unwrap();
    let child = Parent::parsed(Ok(parsed)).unwrap();
    let sum = SumActivity.run(SumChild::begin(child)).unwrap();
    let given = SumChild::summed(Ok(sum)).unwrap();
    assert_eq!(Parent::summed(Ok(given)).unwrap().total, 5);
}

#[test]
fn failures_pass_through_the_workflows() {
    let failed = SumChild::summed(Err(activity::Error::retryable("down"))).unwrap_err();
    assert_eq!(failed.message, "down");
    assert_eq!(Parent::summed(Err(Error::new("gone"))).unwrap_err().message, "gone");
    assert_eq!(Parent::summed(Ok(SumChildResult { total: 3 })).unwrap().total, 3);
    assert_eq!(SumChild::begin(SumChildParams { values: vec![4] }).values, vec![4]);
}
