use protomux::identifier::IdentifyResult;
use protomux::strings::raw_string_matches;

#[test]
fn should_test_negative() {
    assert_eq!(
        raw_string_matches(b"HTTP GET /", b"SSH-"),
        IdentifyResult::Negative
    );
}

#[test]
fn should_test_positive() {
    assert_eq!(
        raw_string_matches(b"HTTP GET /", b"HTTP "),
        IdentifyResult::Positive
    );
}

#[test]
fn should_need_more_data() {
    assert_eq!(
        raw_string_matches(b"HTT", b"HTTP "),
        IdentifyResult::NeedMoreData
    );
}

#[test]
fn empty_input_needs_more_data() {
    assert_eq!(raw_string_matches(b"", b"SSH-"), IdentifyResult::NeedMoreData);
}

#[test]
fn rejection_stays_for_longer_prefixes() {
    assert_eq!(raw_string_matches(b"SX", b"SSH-"), IdentifyResult::Negative);
    assert_eq!(raw_string_matches(b"SXH-2.0", b"SSH-"), IdentifyResult::Negative);
}
