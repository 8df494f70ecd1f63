use letssurf::help::{
    get_data_dir, get_indent, get_strturl, is_content_display_enable, parse_argv,
    program_name_of, ArgError, SetOnce, UsageReason,
};
use letssurf::params::ParamMap;

fn args(v: &[&str]) -> Vec<String> {
    v.iter().map(|s| s.to_string()).collect()
}

fn parse(v: &[&str]) -> Result<(ParamMap, letssurf::help::Settings), ArgError> {
    let a = args(v);
    parse_argv(a.len(), a, ParamMap::new())
}

fn usage_reason(v: &[&str]) -> UsageReason {
    match parse(v) {
        Err(ArgError::Usage(r)) => r,
        other => panic!("expected a usage error, got {:?}", other.err()),
    }
}

#[test]
fn too_few_arguments() {
    assert_eq!(usage_reason(&["letssurf"]), UsageReason::TooFewArgs);
}

#[test]
fn help_is_asked_for() {
    assert_eq!(usage_reason(&["letssurf", "-h"]), UsageReason::Help);
    assert_eq!(usage_reason(&["letssurf", "example.com", "--help"]), UsageReason::Help);
}

#[test]
fn program_path_without_file_name() {
    assert!(matches!(parse(&["..", "example.com"]), Err(ArgError::NoProgramName)));
}

#[test]
fn start_url_and_extensions() {
    let (mut p, st) = parse(&["/usr/local/bin/letssurf", "example.com/top/", "jpg", ".png"]).unwrap();
    assert_eq!(st.program_name(), "letssurf");
    assert_eq!(get_strturl(&st).to_url(), "http://example.com/top/");
    assert_eq!(st.ext_ids(), &args(&["html", "shtml", "jpg", "png"]));
    assert_eq!(st.nest_level(), 4);
    assert_eq!(get_indent(&st), 2);
    assert!(!is_content_display_enable(&st));
    assert_eq!(get_data_dir(&st), ".");
    assert!(!p.is_data_save());
    assert_eq!(p.get_data_filename(), "");
}

#[test]
fn scheme_is_completed() {
    let st = parse(&["p", "//example.com/a"]).unwrap().1;
    assert_eq!(get_strturl(&st).to_url(), "http://example.com/a");
    let st = parse(&["p", "://example.com/b"]).unwrap().1;
    assert_eq!(get_strturl(&st).to_url(), "http://example.com/b");
    let st = parse(&["p", "https://example.com/c"]).unwrap().1;
    assert_eq!(get_strturl(&st).to_url(), "https://example.com/c");
}

#[test]
fn first_start_url_wins() {
    let st = parse(&["p", "first.example.com", "gif", "-d", "second.example.com", "x.png"]).unwrap().1;
    assert_eq!(get_strturl(&st).to_url(), "http://first.example.com/");
    assert_eq!(st.ext_ids(), &args(&["html", "shtml", "gif", "xpng"]));
    let st = parse(&["p", "first.example.com", "second.example.com"]).unwrap().1;
    assert_eq!(st.ext_ids(), &args(&["html", "shtml", "secondexamplecom"]));
}

#[test]
fn no_start_url() {
    let st = parse(&["p", "-d"]).unwrap().1;
    assert!(!st.has_strturl());
    assert!(is_content_display_enable(&st));
}

#[test]
fn bad_start_url() {
    match parse(&["p", "http://"]) {
        Err(ArgError::BadUrl(m)) => assert_eq!(m, "UrlParse error empty host"),
        other => panic!("expected a URL error, got {:?}", other.err()),
    }
}

#[test]
fn nest_level_option() {
    let st = parse(&["p", "-r", "3", "example.com"]).unwrap().1;
    assert_eq!(st.nest_level(), 3);
    let st = parse(&["p", "-r", "-7"]).unwrap().1;
    assert_eq!(st.nest_level(), -7);
    assert_eq!(usage_reason(&["p", "-r"]), UsageReason::NoNestLevel);
    assert_eq!(usage_reason(&["p", "-r", "four"]), UsageReason::BadNestLevel);
    assert_eq!(usage_reason(&["p", "-r", "99999999999"]), UsageReason::BadNestLevel);
}

#[test]
fn storage_option() {
    let (p, st) = parse(&["p", "-storage", "/tmp/data", "example.com"]).unwrap();
    assert!(p.is_data_save());
    assert_eq!(get_data_dir(&st), "/tmp/data");
    assert_eq!(usage_reason(&["p", "-storage"]), UsageReason::NoStorageDir);
    assert!(matches!(
        parse(&["p", "-storage", "a", "-storage", "b"]),
        Err(ArgError::SetTwice(SetOnce::StorageDir))
    ));
}

#[test]
fn stop_option() {
    let p = parse(&["p", "-stop", "utf8dump", "builder", "-d"]).unwrap().0;
    assert!(p.is_stop_utf8() && p.is_stop_utf8dump() && p.is_stop_builder());
    let p = parse(&["p", "-stop", "utf8"]).unwrap().0;
    assert!(p.is_stop_utf8() && !p.is_stop_utf8dump());
    assert_eq!(usage_reason(&["p", "-stop"]), UsageReason::NoStopAttr);
    assert_eq!(usage_reason(&["p", "-stop", "utf16"]), UsageReason::BadStopAttr);
}

#[test]
fn log_option() {
    let p = parse(&["p", "-log", "pathparse"]).unwrap().0;
    assert!(p.is_log_pathparse());
    assert_eq!(usage_reason(&["p", "-log"]), UsageReason::NoLogAttr);
    assert_eq!(usage_reason(&["p", "-log", "all"]), UsageReason::BadLogAttr);
}

#[test]
fn ignor_option() {
    let (mut p, st) = parse(&["p", "-ignor", "ads", "track", "-a", "example.com"]).unwrap();
    assert!(p.is_ignor("http://ads.example.com/".to_string()));
    assert!(p.is_ignor("http://example.com/track".to_string()));
    assert!(!p.is_ignor("http://example.com/".to_string()));
    assert!(st.has_strturl());
    assert_eq!(usage_reason(&["p", "-ignor"]), UsageReason::NoIgnoreKeyword);
}

#[test]
fn set_once_options_given_twice() {
    assert!(matches!(parse(&["p", "-d", "-d"]), Err(ArgError::SetTwice(SetOnce::ShowContent))));
    assert!(matches!(parse(&["p", "-a", "-a"]), Err(ArgError::SetTwice(SetOnce::RespondAuth))));
}

#[test]
fn unknown_option() {
    assert_eq!(usage_reason(&["p", "-x"]), UsageReason::UnknownOption);
}

#[test]
fn arguments_past_argc_are_not_read() {
    let a = args(&["p", "example.com", "-x"]);
    let st = parse_argv(2, a, ParamMap::new()).unwrap().1;
    assert!(st.has_strturl());
}

#[test]
fn switches_given_beforehand_are_kept() {
    let mut p = ParamMap::new();
    p.set_stop_builder();
    p.push_ignor("ads".to_string());
    p.put_data_filename("keep".to_string());
    let a = args(&["p", "-ignor", "track", "-storage", "d"]);
    let (mut q, st) = parse_argv(a.len(), a, p).unwrap();
    assert!(q.is_stop_builder());
    assert!(q.is_data_save());
    assert_eq!(q.get_data_filename(), "keep");
    assert!(q.is_ignor("http://ads/".to_string()));
    assert!(q.is_ignor("http://track/".to_string()));
    assert_eq!(get_indent(&st), 2);
}

#[test]
fn links_are_followed_to_the_nest_level() {
    let st = parse(&["p", "example.com"]).unwrap().1;
    assert_eq!(st.next_level(0), Some(1));
    assert_eq!(st.next_level(3), Some(4));
    assert_eq!(st.next_level(4), None);
    let st = parse(&["p", "-r", "0", "example.com"]).unwrap().1;
    assert_eq!(st.next_level(0), None);
    let st = parse(&["p", "-r", "2", "example.com"]).unwrap().1;
    assert_eq!(st.next_level(1), Some(2));
    assert_eq!(st.next_level(2), None);
}

#[test]
fn display_follows_the_d_option() {
    let st = parse(&["p", "example.com", "jpg"]).unwrap().1;
    assert!(!is_content_display_enable(&st));
    let st = parse(&["p", "-d", "example.com"]).unwrap().1;
    assert!(is_content_display_enable(&st));
    let st = parse(&["p", "example.com", "jpg", "-d"]).unwrap().1;
    assert!(is_content_display_enable(&st));
    let st = parse(&["p", "example.com", "-ignor", "ads", "-d"]).unwrap().1;
    assert!(is_content_display_enable(&st));
    let st = parse(&["p", "example.com", "-storage", "-d"]).unwrap().1;
    assert!(!is_content_display_enable(&st));
    assert_eq!(get_data_dir(&st), "-d");
}

#[test]
fn auth_option_is_read() {
    let st = parse(&["p", "example.com"]).unwrap().1;
    assert!(!st.responds_to_auth());
    let st = parse(&["p", "-a", "example.com"]).unwrap().1;
    assert!(st.responds_to_auth());
}

#[test]
fn program_names_follow_the_last_component() {
    assert_eq!(program_name_of(&"./prog".to_string()), Some("prog".to_string()));
    assert_eq!(program_name_of(&"a/./".to_string()), Some("a".to_string()));
    assert_eq!(program_name_of(&"foo.txt/.".to_string()), Some("foo.txt".to_string()));
    assert_eq!(program_name_of(&"/usr//bin/tool/".to_string()), Some("tool".to_string()));
    assert_eq!(program_name_of(&"..".to_string()), None);
    assert_eq!(program_name_of(&"/".to_string()), None);
    assert_eq!(program_name_of(&".".to_string()), None);
    assert_eq!(program_name_of(&"".to_string()), None);
}
