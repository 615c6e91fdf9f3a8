use gacha_url::validate::{check_url, is_success, retcode};
use gacha_url::web_url::Url;

fn candidate() -> Url {
    Url::parse("https://h.example/api/getGachaLog?x=1&authkey=k&lang=en&end_id=").unwrap()
}

#[test]
fn retcode_of_a_reply() {
    assert_eq!(retcode(br#"{"retcode":0,"message":"OK","data":{"list":[]}}"#), Some(0));
    assert_eq!(retcode(br#"{"data":null,"message":"authkey timeout","retcode":-101}"#), Some(-101));
    assert_eq!(retcode(br#" { "retcode" : 1 } "#), Some(1));
    assert_eq!(retcode(br#"{"retcode":9223372036854775807}"#), Some(i64::MAX));
    assert_eq!(retcode(br#"{"retcode":-9223372036854775808}"#), Some(i64::MIN));
}

#[test]
fn retcode_that_is_no_integer() {
    assert_eq!(retcode(br#"{"retcode":0.0}"#), None);
    assert_eq!(retcode(br#"{"retcode":"0"}"#), None);
    assert_eq!(retcode(br#"{"retcode":null}"#), None);
    assert_eq!(retcode(br#"{"retcode":[0]}"#), None);
    assert_eq!(retcode(br#"{"retcode":true}"#), None);
    assert_eq!(retcode(br#"{"retcode":9223372036854775808}"#), None);
}

#[test]
fn retcode_that_is_not_there() {
    assert_eq!(retcode(br#"{}"#), None);
    assert_eq!(retcode(br#"{"Retcode":0}"#), None);
    assert_eq!(retcode(br#"{"data":{"retcode":0}}"#), None);
    assert_eq!(retcode(br#"[0]"#), None);
    assert_eq!(retcode(br#"0"#), None);
    assert_eq!(retcode(br#"null"#), None);
}

#[test]
fn retcode_of_what_is_no_json() {
    assert_eq!(retcode(b""), None);
    assert_eq!(retcode(b"<html>503</html>"), None);
    assert_eq!(retcode(br#"{"retcode":0"#), None);
    assert_eq!(retcode(br#"{"retcode":0} trailing"#), None);
    assert_eq!(retcode(b"retcode"), None);
}

#[test]
fn retcode_of_what_is_no_text() {
    assert_eq!(retcode(b"{\"retcode\":0,\"m\":\"\xff\"}"), None);
    assert_eq!(retcode(b"\xff{\"retcode\":0}"), None);
    assert_eq!(retcode(b"{\"retcode\":0,\"m\":\"\xe4\xb8\xad\"}"), Some(0));
}

#[test]
fn only_zero_is_success() {
    assert!(is_success(Some(0)));
    assert!(!is_success(Some(1)));
    assert!(!is_success(Some(-1)));
    assert!(!is_success(Some(i64::MIN)));
    assert!(!is_success(None));
}

#[test]
fn a_valid_candidate_is_filtered() {
    let valid = check_url(candidate(), Some(br#"{"retcode":0}"#)).unwrap();
    assert_eq!(valid.as_str(), "https://h.example/api/getGachaLog?authkey=k&lang=en");
}

#[test]
fn a_candidate_is_passed_over() {
    assert_eq!(check_url(candidate(), Some(br#"{"retcode":-101}"#)), None);
    assert_eq!(check_url(candidate(), Some(br#"{"retcode":0.0}"#)), None);
    assert_eq!(check_url(candidate(), Some(b"oops")), None);
    assert_eq!(check_url(candidate(), Some(b"")), None);
    assert_eq!(check_url(candidate(), Some(b"{\"retcode\":0}\xff")), None);
    assert_eq!(check_url(candidate(), None), None);
}
