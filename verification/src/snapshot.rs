//! An in-memory picture of the files reachable during one resolution
//! pass: canonical path and full text of each. The walker works against
//! this picture; callers that read a real directory hand its files over
//! as plain values.

use vstd::prelude::*;
use vstd::string::*;
use crate::text::str_eq;

verus! {

/// One file: canonical path and full text.
#[derive(Clone, Debug, PartialEq, Eq)]
pub struct SnapshotFile {
    pub path: String,
    pub content: String,
}

pub ghost struct FileModel {
    pub path: Seq<char>,
    pub content: Seq<char>,
}

impl View for SnapshotFile {
    type V = FileModel;

    open spec fn view(&self) -> FileModel {
        FileModel { path: self.path@, content: self.content@ }
    }
}

impl DeepView for SnapshotFile {
    type V = FileModel;

    open spec fn deep_view(&self) -> FileModel {
        self@
    }
}

/// The text of the first file with the given path, or `None`.
pub open spec fn fs_content(fs: Seq<FileModel>, path: Seq<char>) -> Option<Seq<char>>
    decreases fs.len(),
{
    if fs.len() == 0 {
        None
    } else if fs.first().path == path {
        Some(fs.first().content)
    } else {
        fs_content(fs.drop_first(), path)
    }
}

/// A file with the given path is present.
pub open spec fn fs_has(fs: Seq<FileModel>, path: Seq<char>) -> bool {
    fs_content(fs, path) is Some
}

/// The text of the first file with the given path, or `None`.
pub fn snapshot_content<'a>(files: &'a Vec<SnapshotFile>, path: &str) -> (r: Option<&'a String>)
    ensures
        match r {
            Some(c) => fs_content(files.deep_view(), path@) == Some(c@),
            None => fs_content(files.deep_view(), path@) is None,
        },
{
    let ghost fdv = files.deep_view();
    let mut i: usize = 0;
    proof {
        assert(fdv.skip(0) =~= fdv);
    }
    while i < files.len()
        invariant
            0 <= i <= files.len(),
            fdv == files.deep_view(),
            fs_content(fdv, path@) == fs_content(fdv.skip(i as int), path@),
        decreases files.len() - i,
    {
        proof {
            assert(fdv.skip(i as int).first() == fdv[i as int]);
            assert(fdv.skip(i as int).drop_first() =~= fdv.skip(i + 1));
        }
        if str_eq(files[i].path.as_str(), path) {
            return Some(&files[i].content);
        }
        i = i + 1;
    }
    proof {
        assert(fdv.skip(files.len() as int) =~= Seq::<FileModel>::empty());
    }
    None
}

} // verus!
