use letssurf::params::ParamMap;

#[test]
fn fresh_switches_are_off() {
    let mut p = ParamMap::new();
    assert!(!p.is_stop_utf8());
    assert!(!p.is_stop_utf8dump());
    assert!(!p.is_stop_builder());
    assert!(!p.is_log_pathparse());
    assert!(!p.is_data_save());
    assert_eq!(p.get_data_filename(), "");
    assert!(!p.is_ignor("http://example.com/".to_string()));
}

#[test]
fn stop_utf8dump_sets_both_switches() {
    let mut p = ParamMap::new();
    p.set_stop_utf8dump();
    assert!(p.is_stop_utf8());
    assert!(p.is_stop_utf8dump());
    assert!(!p.is_stop_builder());
}

#[test]
fn each_setter_sets_its_switch_only() {
    let mut p = ParamMap::new();
    p.set_stop_utf8();
    assert!(p.is_stop_utf8() && !p.is_stop_utf8dump());
    p.set_stop_builder();
    assert!(p.is_stop_builder());
    p.set_log_pathparse();
    assert!(p.is_log_pathparse());
    assert!(!p.is_data_save());
    p.set_data_save();
    assert!(p.is_data_save());
}

#[test]
fn data_filename_is_read_back() {
    let mut p = ParamMap::new();
    p.put_data_filename("pic.jpg".to_string());
    assert_eq!(p.get_data_filename(), "pic.jpg");
    assert_eq!(p.get_data_filename(), "pic.jpg");
}

#[test]
fn copy_keeps_every_switch() {
    let mut p = ParamMap::new();
    p.set_stop_builder();
    p.set_data_save();
    p.put_data_filename("f".to_string());
    p.push_ignor("ads".to_string());
    let mut q = p.copy();
    assert!(q.is_stop_builder());
    assert!(q.is_data_save());
    assert!(!q.is_stop_utf8());
    assert_eq!(q.get_data_filename(), "f");
    assert!(q.is_ignor("http://ads.example.com/".to_string()));
}

#[test]
fn ignored_urls_hold_a_keyword() {
    let mut p = ParamMap::new();
    p.push_ignor("banner".to_string());
    p.push_ignor("track".to_string());
    assert!(p.is_ignor("http://example.com/banner/a.html".to_string()));
    assert!(p.is_ignor("http://tracker.example.com/".to_string()));
    assert!(!p.is_ignor("http://example.com/index.html".to_string()));
}

#[test]
fn empty_keyword_ignores_everything() {
    let mut p = ParamMap::new();
    p.push_ignor(String::new());
    assert!(p.is_ignor(String::new()));
    assert!(p.is_ignor("http://example.com/".to_string()));
}

#[test]
fn setting_a_switch_twice_changes_nothing_more() {
    let mut p = ParamMap::new();
    p.set_stop_utf8dump();
    p.set_stop_utf8dump();
    p.set_data_save();
    p.set_data_save();
    assert!(p.is_stop_utf8() && p.is_stop_utf8dump() && p.is_data_save());
    assert!(!p.is_stop_builder() && !p.is_log_pathparse());
}

#[test]
fn dump_switch_implies_utf8_switch() {
    let mut p = ParamMap::new();
    p.set_stop_utf8dump();
    p.set_stop_builder();
    p.push_ignor("ads".to_string());
    let mut q = p.copy();
    assert!(q.is_stop_utf8dump());
    assert!(q.is_stop_utf8());
}

#[test]
fn file_name_survives_later_calls() {
    let mut p = ParamMap::new();
    p.put_data_filename("a.png".to_string());
    p.set_data_save();
    p.push_ignor("x".to_string());
    let _ = p.is_ignor("http://x.example/".to_string());
    let mut q = p.copy();
    assert_eq!(q.get_data_filename(), "a.png");
    assert_eq!(p.get_data_filename(), "a.png");
}
