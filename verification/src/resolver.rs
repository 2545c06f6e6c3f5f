//! The path resolver: turns a raw `source = <path>` string plus the base
//! directory into a concrete file path, trying home-directory, absolute
//! and base-relative forms in that order; the first existing match wins.
//! Unresolved sources are an expected condition, not an error.

use vstd::prelude::*;
use vstd::string::*;
use crate::snapshot::{FileModel, fs_has, snapshot_content, SnapshotFile};
use crate::text::has_prefix;

verus! {

/// `p` joined onto `base`: `p` itself when absolute, else `base`, a `/`
/// separator where `base` does not already end in one, then `p`.
pub open spec fn join_path(base: Seq<char>, p: Seq<char>) -> Seq<char> {
    if p.len() > 0 && p[0] == '/' {
        p
    } else if base.len() > 0 && base.last() == '/' {
        base + p
    } else {
        base + seq!['/'] + p
    }
}

/// `raw` with a leading `~` replaced by the home directory.
pub open spec fn home_expanded(raw: Seq<char>, home: Seq<char>) -> Seq<char> {
    home + raw.skip(1)
}

/// Where a raw source path resolves against the files present: the
/// home-expanded form when `raw` starts with `~` and that file exists,
/// else `raw` itself if it exists, else `raw` joined onto the base
/// directory if that exists, else nowhere.
pub open spec fn resolve_in(
    fs: Seq<FileModel>,
    raw: Seq<char>,
    base: Seq<char>,
    home: Seq<char>,
) -> Option<Seq<char>> {
    if raw.len() > 0 && raw[0] == '~' && fs_has(fs, home_expanded(raw, home)) {
        Some(home_expanded(raw, home))
    } else if fs_has(fs, raw) {
        Some(raw)
    } else if fs_has(fs, join_path(base, raw)) {
        Some(join_path(base, raw))
    } else {
        None
    }
}

/// `p` joined onto `base`, as `join_path` describes.
pub fn join_path_str(base: &str, p: &str) -> (r: String)
    ensures
        r@ == join_path(base@, p@),
{
    let np = p.unicode_len();
    if np > 0 && p.get_char(0) == '/' {
        return String::from_str(p);
    }
    let nb = base.unicode_len();
    let mut r = String::from_str(base);
    if !(nb > 0 && base.get_char(nb - 1) == '/') {
        r.append("/");
        proof {
            reveal_strlit("/");
            assert(r@ =~= base@ + seq!['/']);
        }
    }
    r.append(p);
    proof {
        if nb > 0 && base@.last() == '/' {
            assert(r@ =~= base@ + p@);
        } else {
            assert(r@ =~= base@ + seq!['/'] + p@);
        }
    }
    r
}

/// `raw` with a leading `~` replaced by the home directory.
pub fn home_expanded_str(raw: &str, home: &str) -> (r: String)
    requires
        raw@.len() >= 1,
    ensures
        r@ == home_expanded(raw@, home@),
{
    let n = raw.unicode_len();
    let mut r = String::from_str(home);
    r.append(raw.substring_char(1, n));
    r
}

/// The candidate paths the resolver tries for `raw`, in order: the
/// home-expanded form when `raw` starts with `~`, then `raw` itself,
/// then `raw` joined onto the base directory.
pub fn source_candidates(raw: &str, base_dir: &str, home: &str) -> (r: Vec<String>)
    ensures
        raw@.len() > 0 && raw@[0] == '~' ==> r.deep_view() =~= seq![
            home_expanded(raw@, home@),
            raw@,
            join_path(base_dir@, raw@),
        ],
        !(raw@.len() > 0 && raw@[0] == '~') ==> r.deep_view() =~= seq![
            raw@,
            join_path(base_dir@, raw@),
        ],
{
    let mut r: Vec<String> = Vec::new();
    let n = raw.unicode_len();
    if n > 0 && raw.get_char(0) == '~' {
        r.push(home_expanded_str(raw, home));
    }
    r.push(String::from_str(raw));
    r.push(join_path_str(base_dir, raw));
    r
}

/// Resolves a raw source path against the files present, exactly as
/// `resolve_in` describes.
pub fn resolve_snapshot_path(
    files: &Vec<SnapshotFile>,
    raw: &str,
    base_dir: &str,
    home: &str,
) -> (r: Option<String>)
    ensures
        match r {
            Some(p) => resolve_in(files.deep_view(), raw@, base_dir@, home@) == Some(p@),
            None => resolve_in(files.deep_view(), raw@, base_dir@, home@) is None,
        },
{
    let n = raw.unicode_len();
    if n > 0 && raw.get_char(0) == '~' {
        let cand = home_expanded_str(raw, home);
        if snapshot_content(files, cand.as_str()).is_some() {
            return Some(cand);
        }
    }
    if snapshot_content(files, raw).is_some() {
        return Some(String::from_str(raw));
    }
    let joined = join_path_str(base_dir, raw);
    if snapshot_content(files, joined.as_str()).is_some() {
        return Some(joined);
    }
    None
}

/// The conventional name of the main configuration file.
pub open spec fn main_file_name() -> Seq<char> {
    seq!['h', 'y', 'p', 'r', 'l', 'a', 'n', 'd', '.', 'c', 'o', 'n', 'f']
}

/// `p` names the main file one directory level below `base`: after the
/// base prefix and a separator comes one non-empty path segment without
/// `/`, then `/` and the conventional file name.
pub open spec fn is_subdir_main(p: Seq<char>, base: Seq<char>) -> bool {
    let prefix = join_path(base, Seq::empty());
    has_prefix(p, prefix) && {
        let rest = p.skip(prefix.len() as int);
        let sl = crate::text::char_pos(rest, '/');
        0 < sl && sl < rest.len() && rest.skip(sl as int + 1) == main_file_name() && rest.skip(
            sl as int,
        ).first() == '/'
    }
}

/// The root file of the configuration: the conventionally named main
/// file directly in `base` when present, else the first file in snapshot
/// order that holds it one subdirectory below `base`.
pub open spec fn root_candidate(fs: Seq<FileModel>, base: Seq<char>) -> Option<Seq<char>> {
    let main = join_path(base, main_file_name());
    if fs_has(fs, main) {
        Some(main)
    } else {
        subdir_main(fs, base)
    }
}

pub open spec fn subdir_main(fs: Seq<FileModel>, base: Seq<char>) -> Option<Seq<char>>
    decreases fs.len(),
{
    if fs.len() == 0 {
        None
    } else if is_subdir_main(fs.first().path, base) {
        Some(fs.first().path)
    } else {
        subdir_main(fs.drop_first(), base)
    }
}

fn is_subdir_main_str(p: &str, base: &str) -> (r: bool)
    ensures
        r == is_subdir_main(p@, base@),
{
    let empty = String::new();
    let prefix = join_path_str(base, empty.as_str());
    proof {
        assert(empty@ =~= Seq::<char>::empty());
    }
    if !crate::text::has_prefix_str(p, prefix.as_str()) {
        return false;
    }
    let n = p.unicode_len();
    let pl = prefix.unicode_len();
    let rest = p.substring_char(pl, n);
    proof {
        assert(rest@ =~= p@.skip(prefix@.len() as int));
    }
    let rl = rest.unicode_len();
    let sl = crate::text::char_pos_str(rest, '/');
    if 0 < sl && sl < rl {
        let tail = rest.substring_char(sl + 1, rl);
        proof {
            assert(tail@ =~= rest@.skip(sl as int + 1));
            reveal_strlit("hyprland.conf");
            assert("hyprland.conf"@ =~= main_file_name());
            crate::text::lemma_char_pos(rest@, '/');
            assert(rest@.skip(sl as int).first() == rest@[sl as int]);
        }
        crate::text::str_eq(tail, "hyprland.conf")
    } else {
        false
    }
}

/// The root file of the configuration in the snapshot, as
/// `root_candidate` describes.
pub fn find_root(files: &Vec<SnapshotFile>, base_dir: &str) -> (r: Option<String>)
    ensures
        match r {
            Some(p) => root_candidate(files.deep_view(), base_dir@) == Some(p@),
            None => root_candidate(files.deep_view(), base_dir@) is None,
        },
{
    proof {
        reveal_strlit("hyprland.conf");
        assert("hyprland.conf"@ =~= main_file_name());
    }
    let main = join_path_str(base_dir, "hyprland.conf");
    if snapshot_content(files, main.as_str()).is_some() {
        return Some(main);
    }
    let ghost fdv = files.deep_view();
    let mut i: usize = 0;
    proof {
        assert(fdv.skip(0) =~= fdv);
    }
    while i < files.len()
        invariant
            0 <= i <= files.len(),
            fdv == files.deep_view(),
            subdir_main(fdv, base_dir@) == subdir_main(fdv.skip(i as int), base_dir@),
            root_candidate(fdv, base_dir@) == subdir_main(fdv, base_dir@),
        decreases files.len() - i,
    {
        proof {
            assert(fdv.skip(i as int).first() == fdv[i as int]);
            assert(fdv.skip(i as int).drop_first() =~= fdv.skip(i + 1));
        }
        if is_subdir_main_str(files[i].path.as_str(), base_dir) {
            return Some(files[i].path.clone());
        }
        i = i + 1;
    }
    proof {
        assert(fdv.skip(files.len() as int) =~= Seq::<FileModel>::empty());
    }
    None
}

} // verus!
