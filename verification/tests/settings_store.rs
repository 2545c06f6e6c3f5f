use hyprconf::settings::HyprlandConfig;

fn store(content: &str) -> HyprlandConfig {
    let mut cfg = HyprlandConfig::new();
    cfg.parse_file_content(content);
    cfg
}

#[test]
fn parse_flattens_sections_into_settings() {
    let cfg = store("general {\n  gaps_in = 5\n  gaps_out = 10\n}\nmonitor = DP-1\n");
    assert_eq!(cfg.get_setting("general.gaps_in").unwrap(), "5");
    assert_eq!(cfg.get_setting("general.gaps_out").unwrap(), "10");
    assert_eq!(cfg.get_setting("monitor").unwrap(), "DP-1");
    assert!(cfg.get_setting("absent").is_none());
}

#[test]
fn later_occurrence_overwrites_earlier() {
    let cfg = store("a = 1\na = 2\n");
    assert_eq!(cfg.get_setting("a").unwrap(), "2");
    assert_eq!(cfg.get_all_settings().len(), 1);
}

#[test]
fn pending_change_shadows_parsed_value() {
    let mut cfg = store("general {\n  border = 2\n}\n");
    assert_eq!(cfg.get_setting("general.border").unwrap(), "2");
    assert!(!cfg.has_pending_changes());
    cfg.update_setting_in_memory("general.border", "4");
    assert!(cfg.has_pending_changes());
    assert_eq!(cfg.get_setting("general.border").unwrap(), "4");
    assert_eq!(cfg.get_all_settings()[0].value, "2");
}

#[test]
fn bool_settings_accept_truthy_words() {
    let cfg = store(
        "a = true\nb = 1\nc = yes\nd = on\ne = TRUE\nf = Yes \ng = false\nh = 0\ni = banana\n",
    );
    assert!(cfg.get_bool_setting("a"));
    assert!(cfg.get_bool_setting("b"));
    assert!(cfg.get_bool_setting("c"));
    assert!(cfg.get_bool_setting("d"));
    assert!(cfg.get_bool_setting("e"));
    assert!(cfg.get_bool_setting("f"));
    assert!(!cfg.get_bool_setting("g"));
    assert!(!cfg.get_bool_setting("h"));
    assert!(!cfg.get_bool_setting("i"));
    assert!(!cfg.get_bool_setting("missing"));
}

#[test]
fn category_settings_use_short_names_and_pending_overlay() {
    let mut cfg = store("general {\n  gaps_in = 5\n}\ndecoration {\n  rounding = 8\n}\n");
    cfg.update_setting_in_memory("general.gaps_in", "7");
    let general = cfg.get_category_settings("general");
    assert_eq!(general.len(), 1);
    assert_eq!(general[0].key, "gaps_in");
    assert_eq!(general[0].value, "7");
    let decoration = cfg.get_category_settings("decoration");
    assert_eq!(decoration.len(), 1);
    assert_eq!(decoration[0].key, "rounding");
    assert_eq!(decoration[0].value, "8");
}

#[test]
fn category_files_remembered() {
    let mut cfg = HyprlandConfig::new();
    cfg.register_category_file("general", "/home/u/.config/hypr/general.conf");
    assert_eq!(
        cfg.category_file("general").unwrap(),
        "/home/u/.config/hypr/general.conf"
    );
    assert!(cfg.category_file("other").is_none());
}

#[test]
fn parsing_more_files_accumulates() {
    let mut cfg = HyprlandConfig::new();
    cfg.parse_file_content("a = 1\n");
    cfg.parse_file_content("b = 2\na = 3\n");
    assert_eq!(cfg.get_setting("a").unwrap(), "3");
    assert_eq!(cfg.get_setting("b").unwrap(), "2");
}
