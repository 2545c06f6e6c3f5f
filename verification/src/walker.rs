//! The source graph walker: starting from the root file, discovers every
//! file reachable through `source` directives, parses each physical file
//! exactly once (cycles included), and produces the configuration view.
//!
//! The walk runs over a snapshot of the reachable files as plain values;
//! termination rests on the processed set only growing with paths drawn
//! from the snapshot.

use vstd::prelude::*;
use vstd::string::*;
use crate::index::{IndexModel, index_content, index_prefix, index_file_content};
use crate::lines::split_lines;
use crate::model::{ConfigurationModel, ConfigurationView, SourceRef, SourceRefModel};
use crate::resolver::{
    resolve_in, root_candidate, subdir_main, resolve_snapshot_path, find_root,
};
use crate::snapshot::{FileModel, fs_content, fs_has, snapshot_content, SnapshotFile};
use crate::text::{has_prefix, has_prefix_str, str_eq};

verus! {

/// A view with nothing in it: what resolution of an empty or rootless
/// directory yields.
pub open spec fn empty_model() -> ConfigurationModel {
    ConfigurationModel {
        entries: Seq::empty(),
        sources: Seq::empty(),
        variables: Seq::empty(),
        processed: Seq::empty(),
    }
}

/// The name an entry's file is recorded under: the canonical path with
/// the base directory prefix stripped when it lies below it.
pub open spec fn display_name(canonical: Seq<char>, base: Seq<char>) -> Seq<char> {
    if base.len() > 0 && has_prefix(canonical, base + seq!['/']) {
        canonical.skip(base.len() as int + 1)
    } else {
        canonical
    }
}

/// The recorded name of `canonical`, as `display_name` describes.
pub fn display_name_str(canonical: &str, base: &str) -> (r: String)
    ensures
        r@ == display_name(canonical@, base@),
{
    let nb = base.unicode_len();
    let n = canonical.unicode_len();
    if nb > 0 {
        let mut pref = String::from_str(base);
        pref.append("/");
        proof {
            reveal_strlit("/");
            assert(pref@ =~= base@ + seq!['/']);
        }
        if has_prefix_str(canonical, pref.as_str()) {
            let rest = canonical.substring_char(nb + 1, n);
            proof {
                assert(rest@ =~= canonical@.skip(base@.len() as int + 1));
            }
            return String::from_str(rest);
        }
    }
    String::from_str(canonical)
}

/// Some earlier element equals `s`.
pub fn contains_string(v: &Vec<String>, s: &str) -> (r: bool)
    ensures
        r == v.deep_view().contains(s@),
{
    let ghost dv = v.deep_view();
    let mut i: usize = 0;
    while i < v.len()
        invariant
            0 <= i <= v.len(),
            dv == v.deep_view(),
            forall|k: int| 0 <= k < i ==> dv[k] != s@,
        decreases v.len() - i,
    {
        if str_eq(v[i].as_str(), s) {
            proof {
                assert(dv[i as int] == s@);
            }
            return true;
        }
        i = i + 1;
    }
    proof {
        assert forall|k: int| 0 <= k < dv.len() implies dv[k] != s@ by {}
        if dv.contains(s@) {
            let k = choose|k: int| 0 <= k < dv.len() && dv[k] == s@;
            assert(false);
        }
    }
    false
}

/// The view after one file's text has been taken in: nothing changes when
/// its canonical identity was already processed; otherwise the identity
/// is recorded and the text is indexed under `display` from top level.
pub open spec fn process_file_model(
    cm: ConfigurationModel,
    canonical: Seq<char>,
    display: Seq<char>,
    content: Seq<char>,
) -> ConfigurationModel {
    if cm.processed.contains(canonical) {
        cm
    } else {
        let st0 = IndexModel {
            section: Seq::empty(),
            entries: cm.entries,
            sources: cm.sources,
            variables: cm.variables,
        };
        let st1 = index_content(st0, display, content);
        ConfigurationModel {
            entries: st1.entries,
            sources: st1.sources,
            variables: st1.variables,
            processed: cm.processed.push(canonical),
        }
    }
}

/// Parses one file into the view unless its canonical identity was
/// already processed; the check comes first, so a file sourced many times
/// or cyclically is taken in exactly once.
pub fn process_file(view: &mut ConfigurationView, canonical: &str, display: &str, content: &str)
    -> (fresh: bool)
    ensures
        final(view)@ == process_file_model(old(view)@, canonical@, display@, content@),
        fresh == !old(view)@.processed.contains(canonical@),
{
    if contains_string(&view.processed, canonical) {
        return false;
    }
    view.processed.push(String::from_str(canonical));
    proof {
        assert(view@.processed =~= old(view)@.processed.push(canonical@));
    }
    index_file_content(view, display, content);
    true
}

/// How many source directives indexing can add: at most one per line.
proof fn lemma_index_sources_len(st: IndexModel, file: Seq<char>, lines: Seq<Seq<char>>, n: int)
    requires
        n >= 0,
    ensures
        index_prefix(st, file, lines, n).sources.len() <= st.sources.len() + n,
        index_prefix(st, file, lines, n).sources.len() >= st.sources.len(),
    decreases n,
{
    if n > 0 {
        lemma_index_sources_len(st, file, lines, n - 1);
    }
}

proof fn lemma_push_contains<A>(s: Seq<A>, x: A, y: A)
    ensures
        s.push(x).contains(y) <==> (s.contains(y) || x == y),
{
    if s.contains(y) {
        let i = choose|i: int| 0 <= i < s.len() && s[i] == y;
        assert(s.push(x)[i] == y);
    }
    if x == y {
        assert(s.push(x)[s.len() as int] == y);
    }
    if s.push(x).contains(y) && !s.contains(y) && x != y {
        let i = choose|i: int| 0 <= i < s.push(x).len() && s.push(x)[i] == y;
        if i < s.len() {
            assert(s[i] == y);
        }
    }
}

/// Lines still to be contributed by files not yet processed.
pub open spec fn walk_capacity(fs: Seq<FileModel>, processed: Seq<Seq<char>>) -> nat
    decreases fs.len(),
{
    if fs.len() == 0 {
        0
    } else {
        (if processed.contains(fs.first().path) {
            0
        } else {
            split_lines(fs.first().content).len()
        }) + walk_capacity(fs.drop_first(), processed)
    }
}

proof fn lemma_capacity_mono(fs: Seq<FileModel>, processed: Seq<Seq<char>>, x: Seq<char>)
    ensures
        walk_capacity(fs, processed.push(x)) <= walk_capacity(fs, processed),
    decreases fs.len(),
{
    if fs.len() > 0 {
        lemma_push_contains(processed, x, fs.first().path);
        lemma_capacity_mono(fs.drop_first(), processed, x);
    }
}

/// Processing a present, fresh file pays for all the lines it can add.
proof fn lemma_capacity_process(fs: Seq<FileModel>, processed: Seq<Seq<char>>, p: Seq<char>)
    requires
        fs_has(fs, p),
        !processed.contains(p),
    ensures
        walk_capacity(fs, processed.push(p)) + split_lines(fs_content(fs, p)->Some_0).len()
            <= walk_capacity(fs, processed),
    decreases fs.len(),
{
    if fs.len() > 0 {
        lemma_push_contains(processed, p, fs.first().path);
        if fs.first().path == p {
            lemma_capacity_mono(fs.drop_first(), processed, p);
        } else {
            lemma_capacity_process(fs.drop_first(), processed, p);
        }
    }
}

/// The walk over the pending source list from index `i` on: resolve the
/// reference, record where it landed, and parse the file found there
/// unless its identity was already processed. The fuel only bounds the
/// recursion; with enough of it the walk drains the list.
pub open spec fn walk_from(
    fs: Seq<FileModel>,
    base: Seq<char>,
    home: Seq<char>,
    cm: ConfigurationModel,
    i: int,
    fuel: nat,
) -> ConfigurationModel
    decreases fuel,
{
    if fuel == 0 || i < 0 || i >= cm.sources.len() {
        cm
    } else {
        let raw = cm.sources[i].raw_path;
        match resolve_in(fs, raw, base, home) {
            None => walk_from(fs, base, home, cm, i + 1, (fuel - 1) as nat),
            Some(path) => {
                let cm1 = ConfigurationModel {
                    sources: cm.sources.update(
                        i,
                        SourceRefModel { resolved_path: Some(path), ..cm.sources[i] },
                    ),
                    ..cm
                };
                let cm2 = process_file_model(
                    cm1,
                    path,
                    display_name(path, base),
                    fs_content(fs, path)->Some_0,
                );
                walk_from(fs, base, home, cm2, i + 1, (fuel - 1) as nat)
            },
        }
    }
}

/// Fuel that lets the walk drain the source list however the graph looks.
pub open spec fn walk_budget(fs: Seq<FileModel>) -> nat {
    walk_capacity(fs, Seq::empty())
}

/// What resolving a snapshot yields: nothing when no root file is found,
/// else the root parsed and the source list walked to its end.
pub open spec fn spec_resolve(
    fs: Seq<FileModel>,
    base: Seq<char>,
    home: Seq<char>,
) -> ConfigurationModel {
    match root_candidate(fs, base) {
        None => empty_model(),
        Some(root) => {
            let cm0 = process_file_model(
                empty_model(),
                root,
                display_name(root, base),
                fs_content(fs, root)->Some_0,
            );
            walk_from(fs, base, home, cm0, 0, walk_budget(fs))
        },
    }
}

/// A path found by the subdirectory scan is a file of the snapshot.
proof fn lemma_subdir_main_has(fs: Seq<FileModel>, base: Seq<char>)
    ensures
        subdir_main(fs, base) is Some ==> fs_has(fs, subdir_main(fs, base)->Some_0),
    decreases fs.len(),
{
    if fs.len() > 0 {
        lemma_subdir_main_has(fs.drop_first(), base);
    }
}

/// Resolves the whole configuration from a snapshot of its files: finds
/// the root, parses it, then walks every discovered source reference,
/// parsing each reachable file exactly once. The result is a function of
/// the snapshot alone, so an unchanged directory resolves to the same
/// view every time.
pub fn resolve_snapshot(files: &Vec<SnapshotFile>, base_dir: &str, home: &str) -> (view:
    ConfigurationView)
    ensures
        view@ == spec_resolve(files.deep_view(), base_dir@, home@),
{
    let ghost fs = files.deep_view();
    let mut view = ConfigurationView::new();
    proof {
        assert(view@.entries =~= empty_model().entries);
        assert(view@.sources =~= empty_model().sources);
        assert(view@.variables =~= empty_model().variables);
        assert(view@.processed =~= empty_model().processed);
    }
    let root = match find_root(files, base_dir) {
        None => {
            return view;
        },
        Some(r) => r,
    };
    let content = match snapshot_content(files, root.as_str()) {
        Some(c) => c,
        None => {
            proof {
                lemma_subdir_main_has(fs, base_dir@);
                assert(false);
            }
            return view;
        },
    };
    let display = display_name_str(root.as_str(), base_dir);
    process_file(&mut view, root.as_str(), display.as_str(), content.as_str());
    let ghost cm0 = view@;
    let ghost budget = walk_budget(fs);
    proof {
        lemma_capacity_process(fs, Seq::empty(), root@);
        lemma_index_sources_len(
            IndexModel {
                section: Seq::empty(),
                entries: Seq::empty(),
                sources: Seq::empty(),
                variables: Seq::empty(),
            },
            display@,
            split_lines(content@),
            split_lines(content@).len() as int,
        );
    }
    let mut i: usize = 0;
    while i < view.sources.len()
        invariant
            0 <= i <= view.sources.len(),
            fs == files.deep_view(),
            walk_from(fs, base_dir@, home@, cm0, 0, budget) == walk_from(
                fs,
                base_dir@,
                home@,
                view@,
                i as int,
                (budget - i) as nat,
            ),
            view@.sources.len() + walk_capacity(fs, view@.processed) <= budget,
            i <= budget,
            spec_resolve(fs, base_dir@, home@) == walk_from(fs, base_dir@, home@, cm0, 0, budget),
        decreases budget - i,
    {
        let ghost st_before = view@;
        let ghost fuel = (budget - i) as nat;
        let raw = view.sources[i].raw_path.clone();
        let resolved = resolve_snapshot_path(files, raw.as_str(), base_dir, home);
        match resolved {
            None => {},
            Some(path) => {
                let declaring = view.sources[i].declaring_file.clone();
                let sref = SourceRef {
                    raw_path: raw,
                    declaring_file: declaring,
                    resolved_path: Some(path.clone()),
                };
                view.sources[i] = sref;
                let ghost cm1 = ConfigurationModel {
                    sources: st_before.sources.update(
                        i as int,
                        SourceRefModel {
                            resolved_path: Some(path@),
                            ..st_before.sources[i as int]
                        },
                    ),
                    ..st_before
                };
                proof {
                    assert(view@.sources =~= cm1.sources);
                    assert(view@ == cm1);
                }
                let content = match snapshot_content(files, path.as_str()) {
                    Some(c) => c,
                    None => {
                        proof {
                            assert(false);
                        }
                        return view;
                    },
                };
                let display = display_name_str(path.as_str(), base_dir);
                let ghost mid_processed = view@.processed;
                let fresh = process_file(&mut view, path.as_str(), display.as_str(), content.as_str());
                proof {
                    if fresh {
                        lemma_capacity_process(fs, mid_processed, path@);
                        let st0 = IndexModel {
                            section: Seq::empty(),
                            entries: cm1.entries,
                            sources: cm1.sources,
                            variables: cm1.variables,
                        };
                        lemma_index_sources_len(
                            st0,
                            display@,
                            split_lines(content@),
                            split_lines(content@).len() as int,
                        );
                    }
                }
            },
        }
        proof {
            assert(walk_from(fs, base_dir@, home@, st_before, i as int, fuel) == walk_from(
                fs,
                base_dir@,
                home@,
                view@,
                i + 1,
                (fuel - 1) as nat,
            ));
        }
        i = i + 1;
    }
    proof {
        assert(walk_from(fs, base_dir@, home@, view@, i as int, (budget - i) as nat) == view@);
    }
    view
}

} // verus!
