use hyprconf::classify::{classify_str, Line};
use hyprconf::model::ConfigurationView;
use hyprconf::index::index_file_content;

fn indexed(content: &str) -> ConfigurationView {
    let mut view = ConfigurationView::new();
    index_file_content(&mut view, "main.conf", content);
    view
}

#[test]
fn section_flattening() {
    let view = indexed("general {\n    gaps_in = 5\n}\n");
    assert_eq!(view.entries.len(), 1);
    assert_eq!(view.entries[0].qualified_name, "general.gaps_in");
    assert_eq!(view.entries[0].value, "5");
    assert_eq!(view.entries[0].line_number, 2);
    assert_eq!(view.entries[0].original_line, "    gaps_in = 5");
    assert_eq!(view.entries[0].source_file, "main.conf");
}

#[test]
fn bare_key_outside_section() {
    let view = indexed("monitor = DP-1\n");
    assert_eq!(view.entries.len(), 1);
    assert_eq!(view.entries[0].qualified_name, "monitor");
    assert_eq!(view.entries[0].value, "DP-1");
    assert_eq!(view.entries[0].line_number, 1);
}

#[test]
fn section_close_returns_to_top_level() {
    let view = indexed("general {\n  a = 1\n}\nb = 2\n");
    assert_eq!(view.entries.len(), 2);
    assert_eq!(view.entries[0].qualified_name, "general.a");
    assert_eq!(view.entries[1].qualified_name, "b");
}

#[test]
fn comments_and_blanks_skipped() {
    let view = indexed("# comment\n\n   \n# a = 1\n");
    assert_eq!(view.entries.len(), 0);
    assert_eq!(view.sources.len(), 0);
    assert_eq!(view.variables.len(), 0);
}

#[test]
fn unrecognized_lines_pass_through() {
    let view = indexed("general { gaps_in = 5 }\n::: not config :::\n");
    assert_eq!(view.entries.len(), 0);
}

#[test]
fn variable_definition_feeds_table_not_entries() {
    let view = indexed("$mod = SUPER\n");
    assert_eq!(view.entries.len(), 0);
    assert_eq!(view.variables.len(), 1);
    assert_eq!(view.variables[0].name, "mod");
    assert_eq!(view.variables[0].value, "SUPER");
}

#[test]
fn source_directive_recorded_not_parsed_further() {
    let view = indexed("source = ~/extra.conf\n");
    assert_eq!(view.entries.len(), 0);
    assert_eq!(view.sources.len(), 1);
    assert_eq!(view.sources[0].raw_path, "~/extra.conf");
    assert_eq!(view.sources[0].declaring_file, "main.conf");
    assert!(view.sources[0].resolved_path.is_none());
}

#[test]
fn classify_blank_and_comment() {
    assert!(matches!(classify_str(""), Line::Blank));
    assert!(matches!(classify_str("   "), Line::Blank));
    assert!(matches!(classify_str("# hello"), Line::Blank));
}

#[test]
fn classify_source_directive() {
    match classify_str("  source = ~/x.conf  ") {
        Line::Source { raw_path } => assert_eq!(raw_path, "~/x.conf"),
        _ => panic!("expected a source directive"),
    }
}

#[test]
fn classify_section_markers() {
    match classify_str("general {") {
        Line::SectionOpen { name } => assert_eq!(name, "general"),
        _ => panic!("expected a section opener"),
    }
    assert!(matches!(classify_str("}"), Line::SectionClose));
}

#[test]
fn classify_variable_and_assignment() {
    match classify_str("$mod = SUPER") {
        Line::Variable { name, value } => {
            assert_eq!(name, "mod");
            assert_eq!(value, "SUPER");
        },
        _ => panic!("expected a variable definition"),
    }
    match classify_str("bind = SUPER, Q, exec, term") {
        Line::Assignment { key, value } => {
            assert_eq!(key, "bind");
            assert_eq!(value, "SUPER, Q, exec, term");
        },
        _ => panic!("expected an assignment"),
    }
}

#[test]
fn classify_rejects_empty_value() {
    assert!(matches!(classify_str("a ="), Line::Unrecognized));
    assert!(matches!(classify_str("a =    "), Line::Unrecognized));
}

#[test]
fn value_keeps_internal_whitespace() {
    let view = indexed("exec = foo   bar  \n");
    assert_eq!(view.entries[0].value, "foo   bar");
}

#[test]
fn empty_content_yields_nothing() {
    let view = indexed("");
    assert_eq!(view.entries.len(), 0);
    assert_eq!(view.sources.len(), 0);
    assert_eq!(view.variables.len(), 0);
}

#[test]
fn final_line_without_newline_still_counted() {
    let view = indexed("a = 1\nb = 2");
    assert_eq!(view.entries.len(), 2);
    assert_eq!(view.entries[1].line_number, 2);
}

#[test]
fn carriage_returns_trimmed_from_values_kept_in_provenance() {
    let view = indexed("a = 1\r\n");
    assert_eq!(view.entries.len(), 1);
    assert_eq!(view.entries[0].value, "1");
    assert_eq!(view.entries[0].original_line, "a = 1\r");
}
