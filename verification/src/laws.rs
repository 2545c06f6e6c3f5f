//! Guarantees that relate whole resolution passes, stated and proved
//! once over the walker's specification.

use vstd::prelude::*;
use crate::index::{IndexModel, index_prefix};
use crate::lines::split_lines;
use crate::model::ConfigurationModel;
use crate::resolver::{resolve_in, root_candidate};
use crate::snapshot::{FileModel, fs_content};
use crate::walker::{
    display_name, empty_model, process_file_model, spec_resolve, walk_from, walk_budget,
};
use crate::model::SourceRefModel;

verus! {

/// No path occurs twice in the list.
pub open spec fn distinct_seqs(s: Seq<Seq<char>>) -> bool {
    forall|i: int, j: int| 0 <= i < j < s.len() ==> s[i] != s[j]
}

proof fn lemma_process_distinct(
    cm: ConfigurationModel,
    c: Seq<char>,
    d: Seq<char>,
    t: Seq<char>,
)
    requires
        distinct_seqs(cm.processed),
    ensures
        distinct_seqs(process_file_model(cm, c, d, t).processed),
{
    if !cm.processed.contains(c) {
        let p = cm.processed.push(c);
        assert forall|i: int, j: int| 0 <= i < j < p.len() implies p[i] != p[j] by {
            if j == cm.processed.len() {
                if p[i] == c {
                    assert(cm.processed[i] == c);
                    assert(cm.processed.contains(c));
                }
            }
        }
    }
}

proof fn lemma_walk_distinct(
    fs: Seq<FileModel>,
    base: Seq<char>,
    home: Seq<char>,
    cm: ConfigurationModel,
    i: int,
    fuel: nat,
)
    requires
        distinct_seqs(cm.processed),
    ensures
        distinct_seqs(walk_from(fs, base, home, cm, i, fuel).processed),
    decreases fuel,
{
    if fuel == 0 || i < 0 || i >= cm.sources.len() {
    } else {
        let raw = cm.sources[i].raw_path;
        match resolve_in(fs, raw, base, home) {
            None => {
                lemma_walk_distinct(fs, base, home, cm, i + 1, (fuel - 1) as nat);
            },
            Some(path) => {
                let cm1 = ConfigurationModel {
                    sources: cm.sources.update(
                        i,
                        SourceRefModel { resolved_path: Some(path), ..cm.sources[i] },
                    ),
                    ..cm
                };
                let cm2 = process_file_model(
                    cm1,
                    path,
                    display_name(path, base),
                    fs_content(fs, path)->Some_0,
                );
                lemma_process_distinct(
                    cm1,
                    path,
                    display_name(path, base),
                    fs_content(fs, path)->Some_0,
                );
                lemma_walk_distinct(fs, base, home, cm2, i + 1, (fuel - 1) as nat);
            },
        }
    }
}

/// Resolution terminates on every snapshot, cycles included, and each
/// physical file appears in the processed list exactly once: a root that
/// sources a file which sources the root back is parsed once each way.
/// (Termination itself is carried by `resolve_snapshot`, whose loop
/// proves a decrease; this law pins the no-duplication half.)
pub proof fn lemma_each_file_once(fs: Seq<FileModel>, base: Seq<char>, home: Seq<char>)
    ensures
        distinct_seqs(spec_resolve(fs, base, home).processed),
{
    match root_candidate(fs, base) {
        None => {},
        Some(root) => {
            let cm0 = process_file_model(
                empty_model(),
                root,
                display_name(root, base),
                fs_content(fs, root)->Some_0,
            );
            lemma_process_distinct(
                empty_model(),
                root,
                display_name(root, base),
                fs_content(fs, root)->Some_0,
            );
            lemma_walk_distinct(fs, base, home, cm0, 0, walk_budget(fs));
        },
    }
}

/// The entry at `k` names a processed file: its recorded file is the
/// display name of one of `processed`.
pub open spec fn entry_has_origin(
    entries: Seq<crate::model::EntryModel>,
    processed: Seq<Seq<char>>,
    base: Seq<char>,
    k: int,
) -> bool {
    exists|j: int|
        0 <= j < processed.len() && display_name(#[trigger] processed[j], base)
            == entries[k].source_file
}

/// Every entry names the file it was read from: its recorded file is the
/// display name of some processed file.
pub open spec fn entries_from_processed(cm: ConfigurationModel, base: Seq<char>) -> bool {
    forall|k: int|
        0 <= k < cm.entries.len() ==> entry_has_origin(cm.entries, cm.processed, base, k)
}

/// Indexing only appends entries, and every appended entry carries the
/// file it was indexed under.
proof fn lemma_index_entries(st: IndexModel, file: Seq<char>, lines: Seq<Seq<char>>, n: int)
    requires
        n >= 0,
    ensures
        index_prefix(st, file, lines, n).entries.len() >= st.entries.len(),
        forall|k: int|
            0 <= k < st.entries.len() ==> index_prefix(st, file, lines, n).entries[k]
                == st.entries[k],
        forall|k: int|
            st.entries.len() <= k < index_prefix(st, file, lines, n).entries.len() ==> index_prefix(
                st,
                file,
                lines,
                n,
            ).entries[k].source_file == file,
    decreases n,
{
    if n > 0 {
        lemma_index_entries(st, file, lines, n - 1);
    }
}

proof fn lemma_process_entries(
    cm: ConfigurationModel,
    c: Seq<char>,
    d: Seq<char>,
    t: Seq<char>,
    base: Seq<char>,
)
    requires
        entries_from_processed(cm, base),
        d == display_name(c, base),
    ensures
        entries_from_processed(process_file_model(cm, c, d, t), base),
{
    if !cm.processed.contains(c) {
        let cm2 = process_file_model(cm, c, d, t);
        let st0 = IndexModel {
            section: Seq::empty(),
            entries: cm.entries,
            sources: cm.sources,
            variables: cm.variables,
        };
        lemma_index_entries(st0, d, split_lines(t), split_lines(t).len() as int);
        assert forall|k: int| 0 <= k < cm2.entries.len() implies entry_has_origin(
            cm2.entries,
            cm2.processed,
            base,
            k,
        ) by {
            if k < cm.entries.len() {
                assert(cm2.entries[k] == cm.entries[k]);
                assert(entry_has_origin(cm.entries, cm.processed, base, k));
                let j = choose|j: int|
                    0 <= j < cm.processed.len() && display_name(#[trigger] cm.processed[j], base)
                        == cm.entries[k].source_file;
                assert(cm2.processed[j] == cm.processed[j]);
                assert(display_name(cm2.processed[j], base) == cm2.entries[k].source_file);
            } else {
                let j = cm.processed.len() as int;
                assert(cm2.processed[j] == c);
                assert(cm2.entries[k].source_file == d);
                assert(display_name(cm2.processed[j], base) == cm2.entries[k].source_file);
            }
        }
        assert(entries_from_processed(cm2, base));
    }
}

proof fn lemma_walk_entries(
    fs: Seq<FileModel>,
    base: Seq<char>,
    home: Seq<char>,
    cm: ConfigurationModel,
    i: int,
    fuel: nat,
)
    requires
        entries_from_processed(cm, base),
    ensures
        entries_from_processed(walk_from(fs, base, home, cm, i, fuel), base),
    decreases fuel,
{
    if fuel == 0 || i < 0 || i >= cm.sources.len() {
    } else {
        let raw = cm.sources[i].raw_path;
        match resolve_in(fs, raw, base, home) {
            None => {
                lemma_walk_entries(fs, base, home, cm, i + 1, (fuel - 1) as nat);
            },
            Some(path) => {
                let cm1 = ConfigurationModel {
                    sources: cm.sources.update(
                        i,
                        SourceRefModel { resolved_path: Some(path), ..cm.sources[i] },
                    ),
                    ..cm
                };
                let cm2 = process_file_model(
                    cm1,
                    path,
                    display_name(path, base),
                    fs_content(fs, path)->Some_0,
                );
                assert(cm1.entries == cm.entries);
                assert(cm1.processed == cm.processed);
                assert(entries_from_processed(cm1, base)) by {
                    assert forall|k: int| 0 <= k < cm1.entries.len() implies entry_has_origin(
                        cm1.entries,
                        cm1.processed,
                        base,
                        k,
                    ) by {
                        assert(entry_has_origin(cm.entries, cm.processed, base, k));
                    }
                }
                lemma_process_entries(
                    cm1,
                    path,
                    display_name(path, base),
                    fs_content(fs, path)->Some_0,
                    base,
                );
                lemma_walk_entries(fs, base, home, cm2, i + 1, (fuel - 1) as nat);
            },
        }
    }
}

/// Every entry of a resolution pass came from a file the walker actually
/// took in: its recorded file is the display name of a processed file.
pub proof fn lemma_entries_come_from_walked_files(
    fs: Seq<FileModel>,
    base: Seq<char>,
    home: Seq<char>,
)
    ensures
        entries_from_processed(spec_resolve(fs, base, home), base),
{
    match root_candidate(fs, base) {
        None => {},
        Some(root) => {
            let cm0 = process_file_model(
                empty_model(),
                root,
                display_name(root, base),
                fs_content(fs, root)->Some_0,
            );
            lemma_process_entries(
                empty_model(),
                root,
                display_name(root, base),
                fs_content(fs, root)->Some_0,
                base,
            );
            lemma_walk_entries(fs, base, home, cm0, 0, walk_budget(fs));
        },
    }
}

/// Resolving the same unchanged snapshot twice yields identical views:
/// the same entries with the same qualified names, values, files and
/// line numbers in the same order, and the same sources, variables and
/// processed files. `resolve_snapshot` pins its result to
/// `spec_resolve`, a function of the snapshot alone, so two passes
/// cannot differ.
pub proof fn lemma_resolve_idempotent(
    fs: Seq<FileModel>,
    base: Seq<char>,
    home: Seq<char>,
    first: ConfigurationModel,
    second: ConfigurationModel,
)
    requires
        first == spec_resolve(fs, base, home),
        second == spec_resolve(fs, base, home),
    ensures
        first.entries == second.entries,
        first.sources == second.sources,
        first.variables == second.variables,
        first.processed == second.processed,
{
}

} // verus!
