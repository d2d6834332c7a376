use prequal::protocol::{evaluate_probe_response, parse_u64_digits};

#[test]
fn parse_plain_number() {
    assert_eq!(parse_u64_digits(b"0"), Some(0));
    assert_eq!(parse_u64_digits(b"123"), Some(123));
    assert_eq!(parse_u64_digits(b"007"), Some(7));
}

#[test]
fn parse_rejects_empty() {
    assert_eq!(parse_u64_digits(b""), None);
}

#[test]
fn parse_rejects_non_digits() {
    assert_eq!(parse_u64_digits(b"12a"), None);
    assert_eq!(parse_u64_digits(b"-5"), None);
    assert_eq!(parse_u64_digits(b" 5"), None);
    assert_eq!(parse_u64_digits(b"5 "), None);
}

#[test]
fn parse_handles_u64_boundary() {
    assert_eq!(parse_u64_digits(b"18446744073709551615"), Some(u64::MAX));
    assert_eq!(parse_u64_digits(b"18446744073709551616"), None);
    assert_eq!(parse_u64_digits(b"99999999999999999999999"), None);
}

#[test]
fn valid_response_yields_sample_values() {
    let r = evaluate_probe_response(200, Some(b"17"), Some(b"250"));
    assert_eq!(r, Some((17, 250)));
}

#[test]
fn non_200_status_is_rejected() {
    assert_eq!(evaluate_probe_response(500, Some(b"17"), Some(b"250")), None);
    assert_eq!(evaluate_probe_response(204, Some(b"17"), Some(b"250")), None);
}

#[test]
fn missing_header_is_rejected() {
    assert_eq!(evaluate_probe_response(200, None, Some(b"250")), None);
    assert_eq!(evaluate_probe_response(200, Some(b"17"), None), None);
}

#[test]
fn unparseable_header_is_rejected() {
    assert_eq!(evaluate_probe_response(200, Some(b"x"), Some(b"250")), None);
    assert_eq!(evaluate_probe_response(200, Some(b"17"), Some(b"")), None);
}
