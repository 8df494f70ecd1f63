use letssurf::urlparts::{get_tls_url_parts, get_url_parts};

#[test]
fn url_without_port_is_written_back() {
    let u = get_url_parts(&"http://example.com/a/b.html".to_string()).unwrap();
    assert_eq!(u.get_scheme(), "http");
    assert_eq!(u.to_url(), "http://example.com/a/b.html");
}

#[test]
fn explicit_port_is_kept() {
    let u = get_url_parts(&"http://example.com:8080/x".to_string()).unwrap();
    assert_eq!(u.to_url(), "http://example.com:8080/x");
}

#[test]
fn default_port_is_dropped_and_path_completed() {
    let u = get_url_parts(&"http://example.com:80".to_string()).unwrap();
    assert_eq!(u.to_url(), "http://example.com/");
}

#[test]
fn tls_parts_raise_http_to_https() {
    let u = get_tls_url_parts(&"http://example.com/p".to_string()).unwrap();
    assert_eq!(u.get_scheme(), "https");
    assert_eq!(u.to_url(), "https://example.com/p");
    let f = get_tls_url_parts(&"ftp://example.com:21/p".to_string()).unwrap();
    assert_eq!(f.to_url(), "ftp://example.com/p");
}

#[test]
fn tls_parts_keep_other_ports() {
    let u = get_tls_url_parts(&"http://example.com:8080/".to_string()).unwrap();
    assert_eq!(u.to_url(), "https://example.com:8080/");
}

#[test]
fn url_without_host_is_refused() {
    let e = get_url_parts(&"mailto:someone@example.com".to_string()).unwrap_err();
    assert_eq!(e, "UrlHost error");
    let e = get_tls_url_parts(&"mailto:someone@example.com".to_string()).unwrap_err();
    assert_eq!(e, "UrlHost error");
}

#[test]
fn unparsable_url_is_refused() {
    let e = get_url_parts(&"no scheme here".to_string()).unwrap_err();
    assert_eq!(e, "UrlParse error relative URL without a base");
    let e = get_url_parts(&"http://".to_string()).unwrap_err();
    assert_eq!(e, "UrlParse error empty host");
}

#[test]
fn both_readings_refuse_with_the_same_message() {
    for bad in ["no scheme here", "http://", "http://exa mple.com/", "http://[::1/"] {
        let plain = get_url_parts(&bad.to_string()).unwrap_err();
        let tls = get_tls_url_parts(&bad.to_string()).unwrap_err();
        assert_eq!(plain, tls);
        assert!(plain.starts_with("UrlParse error "));
    }
}
