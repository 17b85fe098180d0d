use gcd_service::error::ApiError;
use gcd_service::form::parse_form;
use gcd_service::form::ParsedForm;
use gcd_service::handler::get_form;
use gcd_service::handler::handle_gcd;
use gcd_service::numbers::parse_u64;
use gcd_service::numbers::validate_numbers;
use gcd_service::response::error_response;

#[test]
fn two_coprime_numbers() {
    let r = handle_gcd("n=14&n=15");
    assert_eq!(r.status, 200);
    assert_eq!(r.body, "The greatest common divisor of the numbers [14, 15] is 1");
}

#[test]
fn two_equal_numbers() {
    let r = handle_gcd("n=50&n=50");
    assert_eq!(r.status, 200);
    assert_eq!(r.body, "The greatest common divisor of the numbers [50, 50] is 50");
}

#[test]
fn two_numbers_with_common_divisor() {
    let r = handle_gcd("n=24&n=81");
    assert_eq!(r.status, 200);
    assert_eq!(r.body, "The greatest common divisor of the numbers [24, 81] is 3");
}

#[test]
fn single_number() {
    let r = handle_gcd("n=7");
    assert_eq!(r.status, 200);
    assert_eq!(r.body, "The greatest common divisor of the numbers [7] is 7");
}

#[test]
fn missing_parameter() {
    let r = handle_gcd("m=3");
    assert_eq!(r.status, 400);
    assert_eq!(r.body, "form data has no 'n' parameter");
}

#[test]
fn empty_body_is_missing_parameter() {
    let r = handle_gcd("");
    assert_eq!(r.status, 400);
    assert_eq!(r.body, "form data has no 'n' parameter");
}

#[test]
fn invalid_number_is_echoed() {
    let r = handle_gcd("n=abc");
    assert_eq!(r.status, 400);
    assert_eq!(r.body, "Value for 'n' is not a number: abc");
}

#[test]
fn validation_stops_at_first_invalid_value() {
    let r = handle_gcd("n=5&n=abc&n=10");
    assert_eq!(r.status, 400);
    assert_eq!(r.body, "Value for 'n' is not a number: abc");
}

#[test]
fn empty_value_is_invalid() {
    let r = handle_gcd("n=");
    assert_eq!(r.status, 400);
    assert_eq!(r.body, "Value for 'n' is not a number: ");
}

#[test]
fn empty_value_list_is_its_own_error() {
    let form = ParsedForm { entries: vec![(String::from("n"), vec![])] };
    let r = validate_numbers(&form, "n");
    assert_eq!(r, Err(ApiError::EmptyList));
    let resp = error_response(&ApiError::EmptyList);
    assert_eq!(resp.status, 400);
    assert_eq!(resp.body, "no numbers were supplied for 'n'");
}

#[test]
fn percent_escapes_decode() {
    let r = handle_gcd("n=%31%34&n=%37");
    assert_eq!(r.status, 200);
    assert_eq!(r.body, "The greatest common divisor of the numbers [14, 7] is 7");
}

#[test]
fn malformed_percent_escape_fails_decode() {
    let r = handle_gcd("n=%3x");
    assert_eq!(r.status, 400);
    assert_eq!(r.body, "could not decode the form data");
}

#[test]
fn truncated_percent_escape_fails_decode() {
    let r = handle_gcd("n=7&x=%2");
    assert_eq!(r.status, 400);
    assert_eq!(r.body, "could not decode the form data");
}

#[test]
fn plus_decodes_to_space_and_is_not_a_digit() {
    let r = handle_gcd("n=1+2");
    assert_eq!(r.status, 400);
    assert_eq!(r.body, "Value for 'n' is not a number: 1 2");
}

#[test]
fn empty_segments_are_skipped() {
    let r = handle_gcd("&n=6&&n=9&");
    assert_eq!(r.status, 200);
    assert_eq!(r.body, "The greatest common divisor of the numbers [6, 9] is 3");
}

#[test]
fn values_keep_their_order_per_name() {
    let form = parse_form("a=1&n=2&a=3&b=x%26y").unwrap();
    let a = form.get("a").unwrap();
    assert_eq!(a, &vec![String::from("1"), String::from("3")]);
    let b = form.get("b").unwrap();
    assert_eq!(b, &vec![String::from("x&y")]);
    assert!(form.get("c").is_none());
}

#[test]
fn key_without_equals_has_empty_value() {
    let form = parse_form("flag&n=4").unwrap();
    let flag = form.get("flag").unwrap();
    assert_eq!(flag, &vec![String::from("")]);
}

#[test]
fn parse_u64_accepts_plain_digits_only() {
    assert_eq!(parse_u64("0"), Some(0));
    assert_eq!(parse_u64("007"), Some(7));
    assert_eq!(parse_u64("18446744073709551615"), Some(u64::MAX));
    assert_eq!(parse_u64("18446744073709551616"), None);
    assert_eq!(parse_u64(""), None);
    assert_eq!(parse_u64("+5"), None);
    assert_eq!(parse_u64("-5"), None);
    assert_eq!(parse_u64(" 5"), None);
    assert_eq!(parse_u64("5 "), None);
    assert_eq!(parse_u64("5a"), None);
}

#[test]
fn missing_parameter_error_value() {
    let form = parse_form("a=1").unwrap();
    let r = validate_numbers(&form, "n");
    assert_eq!(r, Err(ApiError::MissingParameter));
}

#[test]
fn invalid_number_error_carries_raw_value() {
    let form = parse_form("n=12xy").unwrap();
    let r = validate_numbers(&form, "n");
    assert_eq!(r, Err(ApiError::InvalidNumber(String::from("12xy"))));
}

#[test]
fn valid_values_parse_in_order() {
    let form = parse_form("n=3&n=12&n=9").unwrap();
    let r = validate_numbers(&form, "n");
    assert_eq!(r, Ok(vec![3, 12, 9]));
}

#[test]
fn decode_failure_error_value() {
    assert!(matches!(parse_form("n=%zz"), Err(ApiError::DecodeError)));
}

#[test]
fn form_page_is_served() {
    let r = get_form();
    assert_eq!(r.status, 200);
    assert!(r.body.contains("<title>GCD Calculator</title>"));
    assert!(r.body.contains("<form action=\"/gcd\" method=\"post\">"));
}
