use hyprconf::expand::expand;
use hyprconf::model::VarDef;
use hyprconf::snapshot::SnapshotFile;
use hyprconf::walker::resolve_snapshot;

fn table(pairs: &[(&str, &str)]) -> Vec<VarDef> {
    pairs
        .iter()
        .map(|(n, v)| VarDef { name: String::from(*n), value: String::from(*v) })
        .collect()
}

#[test]
fn whole_token_substitution() {
    let vars = table(&[("mod", "SUPER")]);
    assert_eq!(expand("$mod, Q, exec, term", &vars), "SUPER, Q, exec, term");
}

#[test]
fn longer_name_is_not_a_prefix_match() {
    let vars = table(&[("mod", "SUPER")]);
    assert_eq!(expand("$mods", &vars), "$mods");
}

#[test]
fn unknown_variable_stays_literal() {
    let vars = table(&[("mod", "SUPER")]);
    assert_eq!(expand("$other stays", &vars), "$other stays");
}

#[test]
fn adjacent_tokens_both_replaced() {
    let vars = table(&[("a", "x"), ("b", "y")]);
    assert_eq!(expand("$a$b", &vars), "xy");
}

#[test]
fn later_definition_shadows_earlier() {
    let vars = table(&[("m", "first"), ("m", "second")]);
    assert_eq!(expand("$m", &vars), "second");
}

#[test]
fn replacement_text_is_not_rescanned() {
    let vars = table(&[("a", "$b"), ("b", "boom")]);
    assert_eq!(expand("$a", &vars), "$b");
}

#[test]
fn bare_dollar_kept() {
    let vars = table(&[("a", "x")]);
    assert_eq!(expand("cost: 5$", &vars), "cost: 5$");
}

#[test]
fn expansion_is_non_destructive() {
    let files = vec![
        SnapshotFile {
            path: String::from("/home/u/.config/hypr/hyprland.conf"),
            content: String::from("$mod = SUPER\nbind = $mod, Q, exec, term\n"),
        },
    ];
    let view = resolve_snapshot(&files, "/home/u/.config/hypr", "/home/u");
    assert_eq!(view.entries.len(), 1);
    let before_value = view.entries[0].value.clone();
    let before_line = view.entries[0].original_line.clone();
    for _ in 0..3 {
        let expanded = expand(&view.entries[0].value, &view.variables);
        assert_eq!(expanded, "SUPER, Q, exec, term");
    }
    assert_eq!(view.entries[0].value, before_value);
    assert_eq!(view.entries[0].value, "$mod, Q, exec, term");
    assert_eq!(view.entries[0].original_line, before_line);
    assert_eq!(view.entries[0].original_line, "bind = $mod, Q, exec, term");
}
