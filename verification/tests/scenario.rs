use hyprconf::expand::expand;
use hyprconf::rewrite::{apply_edits, edit_for_entry, record_applied_edit};
use hyprconf::snapshot::SnapshotFile;
use hyprconf::walker::resolve_snapshot;

#[test]
fn full_resolve_expand_edit_round() {
    let root_content = "general {\n    gaps_in = 5\n}\nsource = ~/sub.conf\n";
    let files = vec![
        SnapshotFile {
            path: String::from("/home/u/.config/hypr/hyprland.conf"),
            content: String::from(root_content),
        },
        SnapshotFile {
            path: String::from("/home/u/sub.conf"),
            content: String::from("$mod = SUPER\nbind = $mod, Q, exec, term\n"),
        },
    ];
    let view = resolve_snapshot(&files, "/home/u/.config/hypr", "/home/u");

    assert_eq!(view.entries.len(), 2);
    assert_eq!(view.entries[0].qualified_name, "general.gaps_in");
    assert_eq!(view.entries[0].value, "5");
    assert_eq!(view.entries[0].source_file, "hyprland.conf");
    assert_eq!(view.entries[0].line_number, 2);
    assert_eq!(view.entries[1].qualified_name, "bind");
    assert_eq!(view.entries[1].value, "$mod, Q, exec, term");
    assert_eq!(view.entries[1].source_file, "/home/u/sub.conf");
    assert_eq!(view.entries[1].line_number, 2);

    assert_eq!(view.variables.len(), 1);
    assert_eq!(view.variables[0].name, "mod");
    assert_eq!(view.variables[0].value, "SUPER");

    let expanded = expand(&view.entries[1].value, &view.variables);
    assert_eq!(expanded, "SUPER, Q, exec, term");

    let edit = edit_for_entry(&view.entries[0], "10");
    assert_eq!(edit.file, "hyprland.conf");
    assert_eq!(edit.line_number, 2);
    assert_eq!(edit.new_line, "    gaps_in = 10");
    assert_eq!(edit.expected_original_line, "    gaps_in = 5");

    let current = vec![SnapshotFile {
        path: String::from("hyprland.conf"),
        content: String::from(root_content),
    }];
    let outcomes = apply_edits(&current, &vec![edit]);
    assert_eq!(outcomes.len(), 1);
    let written = outcomes[0].result.as_ref().unwrap();
    assert_eq!(written, "general {\n    gaps_in = 10\n}\nsource = ~/sub.conf\n");
}

#[test]
fn view_kept_consistent_after_a_save() {
    let files = vec![SnapshotFile {
        path: String::from("/home/u/.config/hypr/hyprland.conf"),
        content: String::from("general {\n    gaps_in = 5\n}\n"),
    }];
    let mut view = resolve_snapshot(&files, "/home/u/.config/hypr", "/home/u");
    let edit = edit_for_entry(&view.entries[0], "10");
    record_applied_edit(&mut view, &edit);
    assert_eq!(view.entries.len(), 1);
    assert_eq!(view.entries[0].qualified_name, "general.gaps_in");
    assert_eq!(view.entries[0].value, "10");
    assert_eq!(view.entries[0].original_line, "    gaps_in = 10");
    assert_eq!(view.entries[0].line_number, 2);
}
