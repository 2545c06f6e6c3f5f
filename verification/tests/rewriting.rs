use hyprconf::rewrite::{
    apply_edits, apply_edits_to_content, lines_correspond_str, Edit, RewriteError,
};
use hyprconf::snapshot::SnapshotFile;

fn edit(file: &str, line_number: usize, new_line: &str, expected: &str) -> Edit {
    Edit {
        file: String::from(file),
        line_number,
        new_line: String::from(new_line),
        expected_original_line: String::from(expected),
    }
}

fn file(path: &str, content: &str) -> SnapshotFile {
    SnapshotFile { path: String::from(path), content: String::from(content) }
}

#[test]
fn unchanged_line_rewrites_exactly_one_line() {
    let content = "general {\n    gaps_in = 5\n}\nsource = ~/sub.conf\n";
    let edits = vec![edit("main.conf", 2, "    gaps_in = 10", "    gaps_in = 5")];
    let out = apply_edits_to_content(content, &edits).unwrap();
    assert_eq!(out, "general {\n    gaps_in = 10\n}\nsource = ~/sub.conf\n");
}

#[test]
fn incidental_whitespace_is_tolerated() {
    let content = "  gaps_in = 5\n";
    let edits = vec![edit("main.conf", 1, "  gaps_in = 10", "    gaps_in = 5   ")];
    let out = apply_edits_to_content(content, &edits).unwrap();
    assert_eq!(out, "  gaps_in = 10\n");
}

#[test]
fn changed_value_with_same_key_is_tolerated() {
    let content = "gaps_in = 7\n";
    let edits = vec![edit("main.conf", 1, "gaps_in = 10", "gaps_in = 5")];
    let out = apply_edits_to_content(content, &edits).unwrap();
    assert_eq!(out, "gaps_in = 10\n");
}

#[test]
fn provenance_mismatch_fails_and_keeps_file() {
    let content = "gaps_out = 3\n";
    let edits = vec![edit("main.conf", 1, "gaps_in = 10", "gaps_in = 5")];
    match apply_edits_to_content(content, &edits) {
        Err(RewriteError::Mismatch { file, line_number, expected, actual }) => {
            assert_eq!(file, "main.conf");
            assert_eq!(line_number, 1);
            assert_eq!(expected, "gaps_in = 5");
            assert_eq!(actual, "gaps_out = 3");
        },
        other => panic!("expected a mismatch, got {:?}", other),
    }
}

#[test]
fn out_of_range_edit_reports_line_count() {
    let content = "a = 1\nb = 2";
    let edits = vec![edit("main.conf", 9, "c = 3", "c = 0")];
    match apply_edits_to_content(content, &edits) {
        Err(RewriteError::OutOfRange { file, line_number, line_count }) => {
            assert_eq!(file, "main.conf");
            assert_eq!(line_number, 9);
            assert_eq!(line_count, 2);
        },
        other => panic!("expected out of range, got {:?}", other),
    }
}

#[test]
fn zero_line_number_is_out_of_range() {
    let content = "a = 1\n";
    let edits = vec![edit("main.conf", 0, "b = 2", "a = 1")];
    assert!(matches!(
        apply_edits_to_content(content, &edits),
        Err(RewriteError::OutOfRange { .. })
    ));
}

#[test]
fn one_bad_edit_rejects_the_whole_file_batch() {
    let content = "a = 1\nb = 2\n";
    let edits = vec![
        edit("main.conf", 1, "a = 9", "a = 1"),
        edit("main.conf", 2, "c = 9", "c = 2"),
    ];
    assert!(matches!(
        apply_edits_to_content(content, &edits),
        Err(RewriteError::Mismatch { line_number: 2, .. })
    ));
}

#[test]
fn files_fail_and_succeed_independently() {
    let files = vec![file("good.conf", "a = 1\n"), file("bad.conf", "z = 9\n")];
    let edits = vec![
        edit("good.conf", 1, "a = 2", "a = 1"),
        edit("bad.conf", 1, "b = 2", "b = 1"),
    ];
    let outcomes = apply_edits(&files, &edits);
    assert_eq!(outcomes.len(), 2);
    assert_eq!(outcomes[0].file, "good.conf");
    assert_eq!(outcomes[0].result, Ok(String::from("a = 2\n")));
    assert_eq!(outcomes[1].file, "bad.conf");
    assert!(matches!(outcomes[1].result, Err(RewriteError::Mismatch { .. })));
}

#[test]
fn missing_file_reported_per_file() {
    let files = vec![file("present.conf", "a = 1\n")];
    let edits = vec![edit("absent.conf", 1, "a = 2", "a = 1")];
    let outcomes = apply_edits(&files, &edits);
    assert_eq!(outcomes.len(), 1);
    match &outcomes[0].result {
        Err(RewriteError::FileUnavailable { file }) => assert_eq!(file, "absent.conf"),
        other => panic!("expected an unavailable file, got {:?}", other),
    }
}

#[test]
fn edits_grouped_by_file_in_first_occurrence_order() {
    let files = vec![file("a.conf", "x = 1\ny = 2\n"), file("b.conf", "z = 3\n")];
    let edits = vec![
        edit("b.conf", 1, "z = 30", "z = 3"),
        edit("a.conf", 1, "x = 10", "x = 1"),
        edit("a.conf", 2, "y = 20", "y = 2"),
    ];
    let outcomes = apply_edits(&files, &edits);
    assert_eq!(outcomes.len(), 2);
    assert_eq!(outcomes[0].file, "b.conf");
    assert_eq!(outcomes[1].file, "a.conf");
    assert_eq!(outcomes[1].result, Ok(String::from("x = 10\ny = 20\n")));
}

#[test]
fn error_messages_name_the_failure() {
    let content = "a = 1\nb = 2";
    let oor = apply_edits_to_content(content, &vec![edit("main.conf", 9, "c = 3", "c = 0")])
        .unwrap_err();
    assert_eq!(
        oor.message(),
        "invalid line number 9 in main.conf (file has 2 lines)"
    );
    let mismatch = apply_edits_to_content(content, &vec![edit("main.conf", 1, "z = 9", "z = 1")])
        .unwrap_err();
    assert_eq!(
        mismatch.message(),
        "line mismatch in main.conf at line 1: expected 'z = 1', found 'a = 1'"
    );
    let missing = &apply_edits(&vec![], &vec![edit("gone.conf", 1, "a = 1", "a = 1")])[0];
    match &missing.result {
        Err(e) => assert_eq!(e.message(), "failed to read gone.conf"),
        Ok(_) => panic!("expected an error"),
    }
}

#[test]
fn lines_correspond_heuristic() {
    assert!(lines_correspond_str("  a = 1 ", "a = 1"));
    assert!(lines_correspond_str("a = 1", "a = 2"));
    assert!(lines_correspond_str("a = 1", "  a   = 9"));
    assert!(!lines_correspond_str("alpha = 1", "beta = 1"));
}
