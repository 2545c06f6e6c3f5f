use hyprconf::keybinds::ConfigParser;
use hyprconf::snapshot::SnapshotFile;

fn file(path: &str, content: &str) -> SnapshotFile {
    SnapshotFile { path: String::from(path), content: String::from(content) }
}

#[test]
fn binds_parsed_with_expanded_modifiers() {
    let mut parser = ConfigParser::new();
    let files = vec![file(
        "/home/u/.config/hypr/hyprland.conf",
        "$mod = SUPER\nbind = $mod SHIFT, Q, killactive\n",
    )];
    let binds = parser.parse_keybinds(&files);
    assert_eq!(binds.len(), 1);
    assert_eq!(binds[0].key, "Q");
    assert_eq!(
        binds[0].modifiers,
        vec![String::from("SUPER"), String::from("SHIFT")]
    );
    assert_eq!(binds[0].action, "killactive");
    assert!(binds[0].description.is_none());
}

#[test]
fn bind_without_action_gets_empty_action() {
    let mut parser = ConfigParser::new();
    let files = vec![file("/c.conf", "bind = SUPER, F\n")];
    let binds = parser.parse_keybinds(&files);
    assert_eq!(binds.len(), 1);
    assert_eq!(binds[0].key, "F");
    assert_eq!(binds[0].modifiers, vec![String::from("SUPER")]);
    assert_eq!(binds[0].action, "");
}

#[test]
fn same_file_taken_in_once() {
    let mut parser = ConfigParser::new();
    let files = vec![
        file("/c.conf", "bind = SUPER, Q, exec, term\n"),
        file("/c.conf", "bind = SUPER, Q, exec, term\n"),
    ];
    let binds = parser.parse_keybinds(&files);
    assert_eq!(binds.len(), 1);
}

#[test]
fn variables_from_earlier_files_reach_later_binds() {
    let mut parser = ConfigParser::new();
    let files = vec![
        file("/vars.conf", "$mod = SUPER\n"),
        file("/binds.conf", "bind = $mod, T, exec, term\n"),
    ];
    let binds = parser.parse_keybinds(&files);
    assert_eq!(binds.len(), 1);
    assert_eq!(binds[0].modifiers, vec![String::from("SUPER")]);
}

#[test]
fn variables_later_in_a_file_reach_its_earlier_binds() {
    let mut parser = ConfigParser::new();
    let files = vec![file("/c.conf", "bind = $m, X, exec, app\n$m = ALT\n")];
    let binds = parser.parse_keybinds(&files);
    assert_eq!(binds.len(), 1);
    assert_eq!(binds[0].modifiers, vec![String::from("ALT")]);
}

#[test]
fn non_bind_assignments_ignored() {
    let mut parser = ConfigParser::new();
    let files = vec![file("/c.conf", "bindm = SUPER, mouse\nmonitor = DP-1\n")];
    let binds = parser.parse_keybinds(&files);
    assert_eq!(binds.len(), 0);
}

#[test]
fn malformed_bind_values_skipped() {
    let mut parser = ConfigParser::new();
    let files = vec![file("/c.conf", "bind = NOCOMMA\nbind = ,Q, exec\n")];
    let binds = parser.parse_keybinds(&files);
    assert_eq!(binds.len(), 0);
}

#[test]
fn expand_variables_reads_only() {
    let mut parser = ConfigParser::new();
    let files = vec![file("/c.conf", "$mod = SUPER\n")];
    parser.parse_keybinds(&files);
    assert_eq!(parser.expand_variables("$mod+Q"), "SUPER+Q");
    assert_eq!(parser.expand_variables("$mod+Q"), "SUPER+Q");
    assert_eq!(parser.variables.len(), 1);
    assert_eq!(parser.variables[0].value, "SUPER");
}
