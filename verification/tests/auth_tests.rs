use letssurf::auth::{base64_text, basic_credentials, needs_credentials};
use letssurf::help::parse_argv;
use letssurf::params::ParamMap;

fn settings(v: &[&str]) -> letssurf::help::Settings {
    let a: Vec<String> = v.iter().map(|s| s.to_string()).collect();
    parse_argv(a.len(), a, ParamMap::new()).unwrap().1
}

#[test]
fn base64_of_short_inputs() {
    assert_eq!(base64_text(b""), "");
    assert_eq!(base64_text(b"f"), "Zg==");
    assert_eq!(base64_text(b"fo"), "Zm8=");
    assert_eq!(base64_text(b"foo"), "Zm9v");
    assert_eq!(base64_text(b"foobar"), "Zm9vYmFy");
    assert_eq!(base64_text(&[0xfb, 0xff]), "+/8=");
}

#[test]
fn basic_credentials_of_a_user() {
    assert_eq!(
        basic_credentials(&"Aladdin".to_string(), &"open sesame".to_string()),
        "Basic QWxhZGRpbjpvcGVuIHNlc2FtZQ=="
    );
    assert_eq!(basic_credentials(&"".to_string(), &"".to_string()), "Basic Og==");
}

#[test]
fn credentials_are_asked_only_with_a() {
    let with_a = settings(&["p", "-a", "example.com"]);
    let without = settings(&["p", "example.com"]);
    assert!(needs_credentials(&"401 Unauthorized".to_string(), &with_a));
    assert!(!needs_credentials(&"401 Unauthorized".to_string(), &without));
    assert!(!needs_credentials(&"200 OK".to_string(), &with_a));
    assert!(!needs_credentials(&"403 Forbidden".to_string(), &with_a));
}
