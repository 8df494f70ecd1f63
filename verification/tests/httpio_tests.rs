use letssurf::httpio::{
    after_plain, body_surf, compare_contents, current_path, data_file_name, data_file_path,
    fetch_gate, indent_text, is_success, latin1_text, stop_reason, surf_route, tls_chunk,
    ChunkOutcome, FetchGate, LinkAction, LinkStep, PlainNext, StopReason, SurfRoute, VisitedList,
};
use letssurf::params::ParamMap;
use letssurf::urlparts::get_url_parts;

fn exts(v: &[&str]) -> Vec<String> {
    v.iter().map(|s| s.to_string()).collect()
}

fn target(step: &LinkStep) -> Option<String> {
    match &step.action {
        LinkAction::Surf(u) | LinkAction::Fetch(u) => Some(u.to_url()),
        _ => None,
    }
}

#[test]
fn current_path_drops_page_names() {
    assert_eq!(current_path("http://example.com/a/b.html".to_string()), "http://example.com/a/");
    assert_eq!(current_path("http://example.com/a/b.shtm".to_string()), "http://example.com/a/");
    assert_eq!(current_path("http://example.com/a/".to_string()), "http://example.com/a/");
    assert_eq!(current_path("http://example.com/a/b.jpg".to_string()), "http://example.com/a/b.jpg");
    assert_eq!(current_path("index.htm".to_string()), "index.htm");
}

#[test]
fn current_path_twice_is_current_path_once() {
    let once = current_path("http://example.com/x/y.html".to_string());
    assert_eq!(current_path(once.clone()), once);
}

#[test]
fn relative_links_are_put_after_the_directory() {
    let body = "<a href=\"./sub/page.html\">x</a> <img src=pic.jpg>".to_string();
    let plan = body_surf(&"http://example.com/dir/".to_string(), &body, &exts(&["html", "shtml", "jpg"]), false);
    assert_eq!(plan.len(), 2);
    assert!(matches!(plan[0].action, LinkAction::Surf(_)));
    assert_eq!(target(&plan[0]).unwrap(), "http://example.com/dir/sub/page.html");
    assert!(matches!(plan[1].action, LinkAction::Skip));
    assert_eq!(plan[0].trace, vec![("http://example.com/dir/".to_string(), "./sub/page.html".to_string())]);
}

#[test]
fn data_links_are_fetched_when_saving() {
    let body = "<img src=pic.jpg> <img src=/img/logo.jpg>".to_string();
    let plan = body_surf(&"http://example.com/dir".to_string(), &body, &exts(&["html", "shtml", "jpg"]), true);
    assert_eq!(plan.len(), 2);
    assert!(matches!(plan[0].action, LinkAction::Fetch(_)));
    assert_eq!(target(&plan[0]).unwrap(), "http://example.com/dir/pic.jpg");
    assert_eq!(target(&plan[1]).unwrap(), "http://example.com/img/logo.jpg");
}

#[test]
fn parent_links_climb_the_directory() {
    let body = "href=../x.html".to_string();
    let plan = body_surf(&"http://example.com/a/b/".to_string(), &body, &exts(&["html"]), false);
    assert_eq!(plan.len(), 1);
    assert_eq!(target(&plan[0]).unwrap(), "http://example.com/a/x.html");
    assert_eq!(
        plan[0].trace,
        vec![
            ("http://example.com/a/b/".to_string(), "../x.html".to_string()),
            ("http://example.com/a".to_string(), "x.html".to_string()),
        ]
    );
}

#[test]
fn parent_links_stop_at_the_site() {
    let body = "href=../../x.html".to_string();
    let plan = body_surf(&"http://example.com/".to_string(), &body, &exts(&["html"]), false);
    assert_eq!(target(&plan[0]).unwrap(), "http://example.com/x.html");
}

#[test]
fn links_without_equal_sign_are_not_links() {
    let plan = body_surf(&"http://example.com/".to_string(), &"see page.html now".to_string(), &exts(&["html"]), true);
    assert!(plan.is_empty());
}

#[test]
fn empty_link_panics() {
    let plan = body_surf(&"http://example.com/".to_string(), &"a.x= b=c.html".to_string(), &exts(&["x=", "html"]), false);
    assert_eq!(plan.len(), 1);
    assert!(matches!(plan[0].action, LinkAction::Panic));
    assert!(plan[0].trace.is_empty());
}

#[test]
fn link_beginning_with_a_wide_character_panics() {
    let plan = body_surf(&"http://example.com/".to_string(), &"href=\u{e9}t\u{e9}.html".to_string(), &exts(&["html"]), false);
    assert!(matches!(plan[0].action, LinkAction::Panic));
}

#[test]
fn climbing_from_the_root_overflows() {
    let plan = body_surf(&"/".to_string(), &"href=../x.html".to_string(), &exts(&["html"]), false);
    assert!(matches!(plan[0].action, LinkAction::Panic));
    assert_eq!(plan[0].trace.len(), 1);
}

#[test]
fn climbing_past_a_double_slash_never_ends() {
    let plan = body_surf(&"http://h/a//".to_string(), &"href=../x.html href=y.html".to_string(), &exts(&["html"]), false);
    assert_eq!(plan.len(), 1);
    assert!(matches!(plan[0].action, LinkAction::Hang));
}

#[test]
fn site_links_need_a_site_name() {
    let plan = body_surf(&"dir/".to_string(), &"href=/x.html href=y.html".to_string(), &exts(&["html"]), false);
    assert_eq!(plan.len(), 1);
    assert!(matches!(plan[0].action, LinkAction::NoSiteName));
}

#[test]
fn links_without_host_give_up_the_page() {
    let plan = body_surf(
        &"http://h/".to_string(),
        &"href=httpx:/a.html href=b.html".to_string(),
        &exts(&["html"]),
        false,
    );
    assert_eq!(plan.len(), 1);
    match &plan[0].action {
        LinkAction::BadUrl(m) => assert_eq!(m, "UrlHost error"),
        _ => panic!("expected a URL error"),
    }
}

#[test]
fn visited_urls_are_remembered() {
    let mut v = VisitedList::new();
    assert!(!v.is_visited("http://a/".to_string()));
    assert!(v.is_visited("http://a/".to_string()));
    assert!(!v.is_visited("http://b/".to_string()));
    assert!(v.is_visited("http://a/".to_string()));
}

#[test]
fn indentation_is_blanks() {
    assert_eq!(indent_text(0), "");
    assert_eq!(indent_text(3), "   ");
    assert_eq!(indent_text(130).len(), 130);
}

#[test]
fn bytes_are_read_one_character_each() {
    assert_eq!(latin1_text(&[0x41, 0xe9, 0x20]), "A\u{e9} ");
    assert_eq!(latin1_text(&[]), "");
}

#[test]
fn utf8_chunks_are_appended() {
    let p = ParamMap::new();
    let mut buf = "ab".to_string();
    assert_eq!(tls_chunk(&mut buf, "c\u{e9}".as_bytes(), &p), ChunkOutcome::Appended);
    assert_eq!(buf, "abc\u{e9}");
}

#[test]
fn broken_utf8_chunks_follow_the_switches() {
    let mut p = ParamMap::new();
    let mut buf = "ab".to_string();
    assert_eq!(tls_chunk(&mut buf, &[0xff, 0x41], &p), ChunkOutcome::Refetch);
    assert_eq!(buf, "ab");
    p.set_stop_utf8();
    assert_eq!(tls_chunk(&mut buf, &[0xc3], &p), ChunkOutcome::StopUtf8 { dump: false });
    p.set_stop_utf8dump();
    assert_eq!(tls_chunk(&mut buf, &[0xc3], &p), ChunkOutcome::StopUtf8 { dump: true });
    assert_eq!(buf, "ab");
}

#[test]
fn data_files_are_named_after_the_url() {
    assert_eq!(data_file_name(&"http://h/d/pic.jpg".to_string()), Some("pic.jpg".to_string()));
    assert_eq!(data_file_name(&"http://h/d/".to_string()), Some(String::new()));
    assert_eq!(data_file_name(&"nothing".to_string()), None);
    assert_eq!(data_file_path(&".".to_string(), &"pic.jpg".to_string()), "./pic.jpg");
}

#[test]
fn contents_are_compared_byte_by_byte() {
    assert_eq!(compare_contents(3, b"abc", b"abc"), (true, 3));
    assert_eq!(compare_contents(3, b"abc", b"abd"), (false, 2));
    assert_eq!(compare_contents(0, b"", b""), (true, 0));
    assert_eq!(compare_contents(1, b"aa", b"aa"), (false, 2));
}

#[test]
fn answers_and_stops() {
    assert!(is_success(&"200 OK".to_string()));
    assert!(!is_success(&"404 Not Found".to_string()));
    assert_eq!(stop_reason(&"997".to_string(), true, true, true), Some(StopReason::Utf8));
    assert_eq!(stop_reason(&"997".to_string(), false, true, true), None);
    assert_eq!(stop_reason(&"998".to_string(), false, true, false), Some(StopReason::Builder));
    assert_eq!(stop_reason(&"404 Not Found".to_string(), false, false, true), Some(StopReason::NotFound));
    assert_eq!(stop_reason(&"200 OK".to_string(), true, true, true), None);
}

#[test]
fn moved_pages_are_fetched_again_securely() {
    match after_plain(&"http://example.com:8080/a".to_string(), &"301 Moved Permanently".to_string()) {
        PlainNext::Secure(u) => assert_eq!(u, "https://example.com:8080/a"),
        _ => panic!("expected a secure fetch"),
    }
    assert!(matches!(after_plain(&"http://example.com/".to_string(), &"200 OK".to_string()), PlainNext::Done));
    assert!(matches!(after_plain(&"nothing".to_string(), &"301".to_string()), PlainNext::Failed(_)));
}

#[test]
fn surf_routes_follow_the_scheme() {
    let u = get_url_parts(&"https://example.com/x".to_string()).unwrap();
    assert!(matches!(surf_route(&u), SurfRoute::Secure(s) if s == "https://example.com/x"));
    let u = get_url_parts(&"http://example.com/x".to_string()).unwrap();
    assert!(matches!(surf_route(&u), SurfRoute::Plain(s) if s == "http://example.com/x"));
    let u = get_url_parts(&"ftp://example.com/x".to_string()).unwrap();
    assert!(matches!(surf_route(&u), SurfRoute::Neither));
}

#[test]
fn fetch_gate_checks_keywords_then_visits() {
    let mut p = ParamMap::new();
    p.push_ignor("ads".to_string());
    let mut v = VisitedList::new();
    let ad = "http://ads.example/".to_string();
    let page = "http://example.com/".to_string();
    assert_eq!(fetch_gate(&mut p, &mut v, &ad), FetchGate::Ignored);
    assert_eq!(fetch_gate(&mut p, &mut v, &ad), FetchGate::Ignored);
    assert_eq!(fetch_gate(&mut p, &mut v, &page), FetchGate::Fetch);
    assert_eq!(fetch_gate(&mut p, &mut v, &page), FetchGate::Visited);
    assert!(!v.is_visited(ad));
}
