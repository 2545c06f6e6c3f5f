use hyprconf::snapshot::SnapshotFile;
use hyprconf::walker::resolve_snapshot;

fn file(path: &str, content: &str) -> SnapshotFile {
    SnapshotFile { path: String::from(path), content: String::from(content) }
}

const BASE: &str = "/home/u/.config/hypr";
const HOME: &str = "/home/u";

#[test]
fn idempotent_parse() {
    let files = vec![
        file(
            "/home/u/.config/hypr/hyprland.conf",
            "general {\n    gaps_in = 5\n}\nsource = ~/sub.conf\n",
        ),
        file("/home/u/sub.conf", "$mod = SUPER\nbind = $mod, Q, exec, term\n"),
    ];
    let first = resolve_snapshot(&files, BASE, HOME);
    let second = resolve_snapshot(&files, BASE, HOME);
    assert_eq!(first.entries, second.entries);
    assert_eq!(first.sources, second.sources);
    assert_eq!(first.variables, second.variables);
    assert_eq!(first.processed, second.processed);
}

#[test]
fn cycle_terminates_and_each_file_once() {
    let files = vec![
        file(
            "/home/u/.config/hypr/hyprland.conf",
            "source = ~/sub.conf\nk1 = v1\n",
        ),
        file(
            "/home/u/sub.conf",
            "source = /home/u/.config/hypr/hyprland.conf\nk2 = v2\n",
        ),
    ];
    let view = resolve_snapshot(&files, BASE, HOME);
    assert_eq!(
        view.processed,
        vec![
            String::from("/home/u/.config/hypr/hyprland.conf"),
            String::from("/home/u/sub.conf"),
        ]
    );
    assert_eq!(view.entries.len(), 2);
    assert_eq!(view.entries[0].qualified_name, "k1");
    assert_eq!(view.entries[1].qualified_name, "k2");
}

#[test]
fn self_sourcing_root_parsed_once() {
    let files = vec![file(
        "/home/u/.config/hypr/hyprland.conf",
        "source = /home/u/.config/hypr/hyprland.conf\na = 1\n",
    )];
    let view = resolve_snapshot(&files, BASE, HOME);
    assert_eq!(view.processed.len(), 1);
    assert_eq!(view.entries.len(), 1);
}

#[test]
fn unresolved_source_recorded_without_recursion() {
    let files = vec![file(
        "/home/u/.config/hypr/hyprland.conf",
        "source = ~/missing.conf\na = 1\n",
    )];
    let view = resolve_snapshot(&files, BASE, HOME);
    assert_eq!(view.sources.len(), 1);
    assert_eq!(view.sources[0].raw_path, "~/missing.conf");
    assert!(view.sources[0].resolved_path.is_none());
    assert_eq!(view.processed.len(), 1);
    assert_eq!(view.entries.len(), 1);
}

#[test]
fn missing_root_gives_empty_view() {
    let files = vec![file("/home/u/other.conf", "a = 1\n")];
    let view = resolve_snapshot(&files, BASE, HOME);
    assert_eq!(view.entries.len(), 0);
    assert_eq!(view.sources.len(), 0);
    assert_eq!(view.variables.len(), 0);
    assert_eq!(view.processed.len(), 0);
}

#[test]
fn root_found_one_subdirectory_down() {
    let files = vec![file(
        "/home/u/.config/hypr/conf/hyprland.conf",
        "a = 1\n",
    )];
    let view = resolve_snapshot(&files, BASE, HOME);
    assert_eq!(view.processed.len(), 1);
    assert_eq!(view.entries.len(), 1);
    assert_eq!(view.entries[0].source_file, "conf/hyprland.conf");
}

#[test]
fn entry_files_are_relative_to_base_when_below_it() {
    let files = vec![
        file(
            "/home/u/.config/hypr/hyprland.conf",
            "source = sub/extra.conf\n",
        ),
        file("/home/u/.config/hypr/sub/extra.conf", "x = 1\n"),
    ];
    let view = resolve_snapshot(&files, BASE, HOME);
    assert_eq!(view.entries.len(), 1);
    assert_eq!(view.entries[0].source_file, "sub/extra.conf");
    assert_eq!(
        view.sources[0].resolved_path,
        Some(String::from("/home/u/.config/hypr/sub/extra.conf"))
    );
}

#[test]
fn absolute_source_honored() {
    let files = vec![
        file("/home/u/.config/hypr/hyprland.conf", "source = /etc/shared.conf\n"),
        file("/etc/shared.conf", "shared = yes\n"),
    ];
    let view = resolve_snapshot(&files, BASE, HOME);
    assert_eq!(view.entries.len(), 1);
    assert_eq!(view.entries[0].source_file, "/etc/shared.conf");
}

#[test]
fn variables_shadow_across_files() {
    let files = vec![
        file(
            "/home/u/.config/hypr/hyprland.conf",
            "$mod = ALT\nsource = ~/sub.conf\n",
        ),
        file("/home/u/sub.conf", "$mod = SUPER\n"),
    ];
    let view = resolve_snapshot(&files, BASE, HOME);
    assert_eq!(view.variables.len(), 2);
    let expanded = hyprconf::expand::expand("$mod", &view.variables);
    assert_eq!(expanded, "SUPER");
}
