//! The rewrite engine: applies a batch of line edits to a file's text
//! only after every target line still matches the provenance captured at
//! parse time, tolerating incidental whitespace changes. A file either
//! accepts its whole batch or is left untouched.

use vstd::prelude::*;
use vstd::string::*;
use crate::lines::{split_lines, join_lines, split_str_lines, join_str_lines};
use crate::snapshot::{FileModel, fs_content, snapshot_content, SnapshotFile};
use crate::text::{
    trimmed, trim_str, char_pos, char_pos_str, contains_seq, contains_str, str_eq,
};
use crate::walker::contains_string;

verus! {

/// One proposed edit: target file and line, the new literal line text,
/// and the line text captured at parse time for the provenance check.
#[derive(Clone, Debug, PartialEq, Eq)]
pub struct Edit {
    pub file: String,
    /// 1-based, as parse time recorded it.
    pub line_number: usize,
    pub new_line: String,
    pub expected_original_line: String,
}

pub ghost struct EditModel {
    pub file: Seq<char>,
    pub line_number: int,
    pub new_line: Seq<char>,
    pub expected_original_line: Seq<char>,
}

impl View for Edit {
    type V = EditModel;

    open spec fn view(&self) -> EditModel {
        EditModel {
            file: self.file@,
            line_number: self.line_number as int,
            new_line: self.new_line@,
            expected_original_line: self.expected_original_line@,
        }
    }
}

impl DeepView for Edit {
    type V = EditModel;

    open spec fn deep_view(&self) -> EditModel {
        self@
    }
}

/// Why a file's batch was rejected; the file is then left untouched.
#[derive(Clone, Debug, PartialEq, Eq)]
pub enum RewriteError {
    /// The edit names a line beyond the file's current line count.
    OutOfRange { file: String, line_number: usize, line_count: usize },
    /// The target line no longer corresponds to the captured original.
    Mismatch { file: String, line_number: usize, expected: String, actual: String },
    /// The target file could not be read.
    FileUnavailable { file: String },
}

pub ghost enum RewriteErrorModel {
    OutOfRange { file: Seq<char>, line_number: int, line_count: int },
    Mismatch { file: Seq<char>, line_number: int, expected: Seq<char>, actual: Seq<char> },
    FileUnavailable { file: Seq<char> },
}

impl View for RewriteError {
    type V = RewriteErrorModel;

    open spec fn view(&self) -> RewriteErrorModel {
        match self {
            RewriteError::OutOfRange { file, line_number, line_count } => {
                RewriteErrorModel::OutOfRange {
                    file: file@,
                    line_number: *line_number as int,
                    line_count: *line_count as int,
                }
            },
            RewriteError::Mismatch { file, line_number, expected, actual } => {
                RewriteErrorModel::Mismatch {
                    file: file@,
                    line_number: *line_number as int,
                    expected: expected@,
                    actual: actual@,
                }
            },
            RewriteError::FileUnavailable { file } => {
                RewriteErrorModel::FileUnavailable { file: file@ }
            },
        }
    }
}

/// The words a rewrite error reports: which edit failed and why, with
/// the expected and found text where they differ.
pub open spec fn error_message(e: RewriteErrorModel) -> Seq<char> {
    match e {
        RewriteErrorModel::OutOfRange { file, line_number, line_count } => {
            "invalid line number "@ + crate::text::dec_str(line_number as nat) + " in "@ + file
                + " (file has "@ + crate::text::dec_str(line_count as nat) + " lines)"@
        },
        RewriteErrorModel::Mismatch { file, line_number, expected, actual } => {
            "line mismatch in "@ + file + " at line "@ + crate::text::dec_str(line_number as nat)
                + ": expected '"@ + expected + "', found '"@ + actual + "'"@
        },
        RewriteErrorModel::FileUnavailable { file } => "failed to read "@ + file,
    }
}

impl RewriteError {
    /// A description a caller can surface, as `error_message` gives it.
    pub fn message(&self) -> (r: String)
        ensures
            r@ == error_message(self@),
    {
        match self {
            RewriteError::OutOfRange { file, line_number, line_count } => {
                let mut m = String::from_str("invalid line number ");
                crate::text::append_decimal(&mut m, *line_number);
                m.append(" in ");
                m.append(file.as_str());
                m.append(" (file has ");
                crate::text::append_decimal(&mut m, *line_count);
                m.append(" lines)");
                m
            },
            RewriteError::Mismatch { file, line_number, expected, actual } => {
                let mut m = String::from_str("line mismatch in ");
                m.append(file.as_str());
                m.append(" at line ");
                crate::text::append_decimal(&mut m, *line_number);
                m.append(": expected '");
                m.append(expected.as_str());
                m.append("', found '");
                m.append(actual.as_str());
                m.append("'");
                m
            },
            RewriteError::FileUnavailable { file } => {
                let mut m = String::from_str("failed to read ");
                m.append(file.as_str());
                m
            },
        }
    }
}

/// The text before the first `=` of the trimmed line, itself trimmed; the
/// whole trimmed line when it has no `=`.
pub open spec fn key_part(line: Seq<char>) -> Seq<char> {
    let t = trimmed(line);
    let p = char_pos(t, '=');
    if p < t.len() {
        trimmed(t.take(p as int))
    } else {
        t
    }
}

/// The captured line and the line now on disk still mean the same
/// assignment: equal after trimming, or equal key parts, or either
/// trimmed line contains the other's key part. The containment arms
/// absorb a changed value side; they can over-match very short keys.
pub open spec fn lines_correspond(expected: Seq<char>, actual: Seq<char>) -> bool {
    ||| trimmed(expected) == trimmed(actual)
    ||| key_part(expected) == key_part(actual)
    ||| contains_seq(trimmed(actual), key_part(expected))
    ||| contains_seq(trimmed(expected), key_part(actual))
}

/// The key part of a line, as `key_part` describes.
pub fn key_part_str<'a>(line: &'a str) -> (r: &'a str)
    ensures
        r@ == key_part(line@),
{
    let t = trim_str(line);
    let n = t.unicode_len();
    let p = char_pos_str(t, '=');
    if p < n {
        let head = t.substring_char(0, p);
        proof {
            assert(head@ =~= t@.take(p as int));
        }
        trim_str(head)
    } else {
        t
    }
}

/// Whether two lines still mean the same assignment, exactly as
/// `lines_correspond` describes.
pub fn lines_correspond_str(expected: &str, actual: &str) -> (r: bool)
    ensures
        r == lines_correspond(expected@, actual@),
{
    let te = trim_str(expected);
    let ta = trim_str(actual);
    if str_eq(te, ta) {
        return true;
    }
    let ke = key_part_str(expected);
    let ka = key_part_str(actual);
    if str_eq(ke, ka) {
        return true;
    }
    if contains_str(ta, ke) {
        return true;
    }
    contains_str(te, ka)
}

/// The edit's target exists and still corresponds to what parse time saw.
pub open spec fn edit_ok(lines: Seq<Seq<char>>, e: EditModel) -> bool {
    1 <= e.line_number <= lines.len() && lines_correspond(
        e.expected_original_line,
        lines[e.line_number - 1],
    )
}

/// Every edit of the batch validates against the same current lines.
pub open spec fn edits_valid(lines: Seq<Seq<char>>, edits: Seq<EditModel>) -> bool {
    forall|k: int| 0 <= k < edits.len() ==> edit_ok(lines, #[trigger] edits[k])
}

/// Index of the first edit that does not validate; `edits.len()` when the
/// whole batch does.
pub open spec fn first_bad(lines: Seq<Seq<char>>, edits: Seq<EditModel>) -> nat
    decreases edits.len(),
{
    if edits.len() == 0 {
        0
    } else if !edit_ok(lines, edits.first()) {
        0
    } else {
        1 + first_bad(lines, edits.drop_first())
    }
}

pub proof fn lemma_first_bad(lines: Seq<Seq<char>>, edits: Seq<EditModel>)
    ensures
        first_bad(lines, edits) <= edits.len(),
        first_bad(lines, edits) < edits.len() ==> !edit_ok(
            lines,
            edits[first_bad(lines, edits) as int],
        ),
        forall|k: int| 0 <= k < first_bad(lines, edits) ==> edit_ok(lines, #[trigger] edits[k]),
        (first_bad(lines, edits) == edits.len()) == edits_valid(lines, edits),
    decreases edits.len(),
{
    if edits.len() == 0 {
    } else if !edit_ok(lines, edits.first()) {
    } else {
        lemma_first_bad(lines, edits.drop_first());
        let fb = first_bad(lines, edits);
        assert forall|k: int| 0 <= k < fb implies edit_ok(lines, #[trigger] edits[k]) by {
            if k > 0 {
                assert(edits.drop_first()[k - 1] == edits[k]);
            }
        }
        if fb < edits.len() {
            assert(edits.drop_first()[fb - 1] == edits[fb as int]);
        }
        if fb == edits.len() {
            assert forall|k: int| 0 <= k < edits.len() implies edit_ok(
                lines,
                #[trigger] edits[k],
            ) by {}
        } else {
            assert(!edits_valid(lines, edits));
        }
    }
}

/// The error reported for an edit that does not validate.
pub open spec fn error_for(lines: Seq<Seq<char>>, e: EditModel) -> RewriteErrorModel {
    if !(1 <= e.line_number <= lines.len()) {
        RewriteErrorModel::OutOfRange {
            file: e.file,
            line_number: e.line_number,
            line_count: lines.len() as int,
        }
    } else {
        RewriteErrorModel::Mismatch {
            file: e.file,
            line_number: e.line_number,
            expected: e.expected_original_line,
            actual: lines[e.line_number - 1],
        }
    }
}

/// The lines after every edit of the batch has replaced its target line,
/// in batch order.
pub open spec fn apply_edits_lines(lines: Seq<Seq<char>>, edits: Seq<EditModel>) -> Seq<Seq<char>>
    decreases edits.len(),
{
    if edits.len() == 0 {
        lines
    } else {
        apply_edits_lines(
            lines.update(edits.first().line_number - 1, edits.first().new_line),
            edits.drop_first(),
        )
    }
}

/// In-range edits keep the line count.
pub proof fn lemma_apply_len(lines: Seq<Seq<char>>, edits: Seq<EditModel>)
    requires
        forall|k: int| 0 <= k < edits.len() ==> 1 <= (#[trigger] edits[k]).line_number
            <= lines.len(),
    ensures
        apply_edits_lines(lines, edits).len() == lines.len(),
    decreases edits.len(),
{
    if edits.len() > 0 {
        let lines1 = lines.update(edits.first().line_number - 1, edits.first().new_line);
        assert forall|k: int| 0 <= k < edits.drop_first().len() implies 1 <= (#[trigger] edits.drop_first()[k]).line_number <= lines1.len() by {
            assert(edits.drop_first()[k] == edits[k + 1]);
        }
        lemma_apply_len(lines1, edits.drop_first());
    }
}

/// A line no edit targets comes out byte-identical.
pub proof fn lemma_apply_untargeted(lines: Seq<Seq<char>>, edits: Seq<EditModel>, k: int)
    requires
        0 <= k < lines.len(),
        forall|j: int| 0 <= j < edits.len() ==> (#[trigger] edits[j]).line_number - 1 != k,
        forall|j: int| 0 <= j < edits.len() ==> 1 <= (#[trigger] edits[j]).line_number
            <= lines.len(),
    ensures
        apply_edits_lines(lines, edits).len() == lines.len(),
        apply_edits_lines(lines, edits)[k] == lines[k],
    decreases edits.len(),
{
    lemma_apply_len(lines, edits);
    if edits.len() > 0 {
        let lines1 = lines.update(edits.first().line_number - 1, edits.first().new_line);
        assert forall|j: int| 0 <= j < edits.drop_first().len() implies (#[trigger] edits.drop_first()[j]).line_number - 1 != k && 1 <= edits.drop_first()[j].line_number
            <= lines1.len() by {
            assert(edits.drop_first()[j] == edits[j + 1]);
        }
        lemma_apply_untargeted(lines1, edits.drop_first(), k);
        assert(lines1[k] == lines[k]);
    }
}

/// Validates the whole batch against the current lines, and only when
/// every edit corresponds replaces the targeted lines; on any failure the
/// lines are left untouched and the first failing edit is reported, an
/// out-of-range line and a provenance mismatch each by its own error.
pub fn apply_edits_to_lines(lines: &mut Vec<String>, edits: &Vec<Edit>) -> (r: Result<
    (),
    RewriteError,
>)
    ensures
        r is Ok <==> edits_valid(old(lines).deep_view(), edits.deep_view()),
        r is Ok ==> final(lines).deep_view() == apply_edits_lines(
            old(lines).deep_view(),
            edits.deep_view(),
        ),
        r is Err ==> final(lines).deep_view() == old(lines).deep_view() && ({
            let fb = first_bad(old(lines).deep_view(), edits.deep_view());
            fb < edits.deep_view().len() && r->Err_0@ == error_for(
                old(lines).deep_view(),
                edits.deep_view()[fb as int],
            )
        }),
{
    let ghost lv = lines.deep_view();
    let ghost ev = edits.deep_view();
    proof {
        lemma_first_bad(lv, ev);
    }
    let mut k: usize = 0;
    while k < edits.len()
        invariant
            0 <= k <= edits.len(),
            lv == lines.deep_view(),
            ev == edits.deep_view(),
            forall|j: int| 0 <= j < k ==> edit_ok(lv, #[trigger] ev[j]),
        decreases edits.len() - k,
    {
        let e = &edits[k];
        let ln = e.line_number;
        if ln < 1 || ln > lines.len() {
            proof {
                lemma_first_bad(lv, ev);
                assert(!edit_ok(lv, ev[k as int]));
                assert(first_bad(lv, ev) == k);
            }
            return Result::Err(
                RewriteError::OutOfRange {
                    file: e.file.clone(),
                    line_number: ln,
                    line_count: lines.len(),
                },
            );
        }
        if !lines_correspond_str(e.expected_original_line.as_str(), lines[ln - 1].as_str()) {
            proof {
                lemma_first_bad(lv, ev);
                assert(!edit_ok(lv, ev[k as int]));
                assert(first_bad(lv, ev) == k);
            }
            return Result::Err(
                RewriteError::Mismatch {
                    file: e.file.clone(),
                    line_number: ln,
                    expected: e.expected_original_line.clone(),
                    actual: lines[ln - 1].clone(),
                },
            );
        }
        k = k + 1;
    }
    proof {
        lemma_first_bad(lv, ev);
        assert(edits_valid(lv, ev));
        assert(ev.skip(0) =~= ev);
    }
    let mut k: usize = 0;
    while k < edits.len()
        invariant
            0 <= k <= edits.len(),
            ev == edits.deep_view(),
            edits_valid(lv, ev),
            apply_edits_lines(lv, ev) == apply_edits_lines(lines.deep_view(), ev.skip(k as int)),
            lines.deep_view().len() == lv.len(),
        decreases edits.len() - k,
    {
        let ghost lcur = lines.deep_view();
        proof {
            assert(edit_ok(lv, ev[k as int]));
            assert(ev.skip(k as int).first() == ev[k as int]);
            assert(ev.skip(k as int).drop_first() =~= ev.skip(k + 1));
        }
        let e = &edits[k];
        let new_line = e.new_line.clone();
        let target = e.line_number - 1;
        lines[target] = new_line;
        proof {
            assert(lines.deep_view() =~= lcur.update(
                ev[k as int].line_number - 1,
                ev[k as int].new_line,
            ));
        }
        k = k + 1;
    }
    proof {
        assert(ev.skip(edits.len() as int) =~= Seq::<EditModel>::empty());
    }
    Result::Ok(())
}

/// Applies a batch of edits to one file's text: the text is split into
/// lines, the batch validated as a whole, and on success every targeted
/// line replaced and the lines joined back; on failure the first failing
/// edit is reported and no text is produced.
pub fn apply_edits_to_content(content: &str, edits: &Vec<Edit>) -> (r: Result<
    String,
    RewriteError,
>)
    ensures
        r is Ok <==> edits_valid(split_lines(content@), edits.deep_view()),
        r is Ok ==> r->Ok_0@ == join_lines(
            apply_edits_lines(split_lines(content@), edits.deep_view()),
        ),
        r is Err ==> ({
            let ls = split_lines(content@);
            let fb = first_bad(ls, edits.deep_view());
            fb < edits.deep_view().len() && r->Err_0@ == error_for(
                ls,
                edits.deep_view()[fb as int],
            )
        }),
{
    let mut ls = split_str_lines(content);
    match apply_edits_to_lines(&mut ls, edits) {
        Result::Ok(()) => Result::Ok(join_str_lines(&ls)),
        Result::Err(e) => Result::Err(e),
    }
}

/// The outcome of one file's batch: the new full text to write, or the
/// error that rejected the batch.
#[derive(Debug, PartialEq, Eq)]
pub struct FileOutcome {
    pub file: String,
    pub result: Result<String, RewriteError>,
}

pub ghost struct FileOutcomeModel {
    pub file: Seq<char>,
    pub result: Result<Seq<char>, RewriteErrorModel>,
}

impl View for FileOutcome {
    type V = FileOutcomeModel;

    open spec fn view(&self) -> FileOutcomeModel {
        FileOutcomeModel {
            file: self.file@,
            result: match self.result {
                Result::Ok(ref s) => Result::Ok(s@),
                Result::Err(ref e) => Result::Err(e@),
            },
        }
    }
}

impl DeepView for FileOutcome {
    type V = FileOutcomeModel;

    open spec fn deep_view(&self) -> FileOutcomeModel {
        self@
    }
}

/// The files the batch touches, in first-occurrence order.
pub open spec fn file_list(edits: Seq<EditModel>) -> Seq<Seq<char>>
    decreases edits.len(),
{
    if edits.len() == 0 {
        Seq::empty()
    } else {
        let rest = file_list(edits.drop_last());
        if rest.contains(edits.last().file) {
            rest
        } else {
            rest.push(edits.last().file)
        }
    }
}

/// The edits aimed at `f`, in batch order.
pub open spec fn edits_for(edits: Seq<EditModel>, f: Seq<char>) -> Seq<EditModel>
    decreases edits.len(),
{
    if edits.len() == 0 {
        Seq::empty()
    } else {
        let rest = edits_for(edits.drop_last(), f);
        if edits.last().file == f {
            rest.push(edits.last())
        } else {
            rest
        }
    }
}

/// What one file's batch comes to: its current text found and every edit
/// validated gives the new text; a missing file or a failed validation
/// gives that file's error.
pub open spec fn outcome_for(
    fs: Seq<FileModel>,
    f: Seq<char>,
    edits: Seq<EditModel>,
) -> Result<Seq<char>, RewriteErrorModel> {
    match fs_content(fs, f) {
        None => Result::Err(RewriteErrorModel::FileUnavailable { file: f }),
        Some(c) => {
            let ls = split_lines(c);
            let es = edits_for(edits, f);
            if edits_valid(ls, es) {
                Result::Ok(join_lines(apply_edits_lines(ls, es)))
            } else {
                Result::Err(error_for(ls, es[first_bad(ls, es) as int]))
            }
        },
    }
}

/// The outcome list over the given files, in order.
pub open spec fn outcomes(
    fs: Seq<FileModel>,
    edits: Seq<EditModel>,
    files: Seq<Seq<char>>,
) -> Seq<FileOutcomeModel>
    decreases files.len(),
{
    if files.len() == 0 {
        Seq::empty()
    } else {
        outcomes(fs, edits, files.drop_last()).push(
            FileOutcomeModel {
                file: files.last(),
                result: outcome_for(fs, files.last(), edits),
            },
        )
    }
}

/// The leading whitespace of a line.
pub open spec fn leading_ws(s: Seq<char>) -> Seq<char> {
    s.take(s.len() - crate::text::trim_front(s).len())
}

/// Index of the last `.`, or `-1` when none occurs.
pub open spec fn last_dot(s: Seq<char>) -> int
    decreases s.len(),
{
    if s.len() == 0 {
        -1
    } else if s.last() == '.' {
        s.len() - 1
    } else {
        last_dot(s.drop_last())
    }
}

pub proof fn lemma_last_dot(s: Seq<char>)
    ensures
        -1 <= last_dot(s) < s.len(),
        last_dot(s) >= 0 ==> s[last_dot(s)] == '.',
        forall|k: int| last_dot(s) < k < s.len() ==> s[k] != '.',
    decreases s.len(),
{
    if s.len() == 0 {
    } else if s.last() == '.' {
    } else {
        lemma_last_dot(s.drop_last());
        assert forall|k: int| last_dot(s) < k < s.len() implies s[k] != '.' by {
            if k < s.len() - 1 {
                assert(s.drop_last()[k] == s[k]);
            }
        }
        if last_dot(s) >= 0 {
            assert(s.drop_last()[last_dot(s)] == s[last_dot(s)]);
        }
    }
}

/// The key after the last `.`, or the whole name when it has none.
pub open spec fn local_name(q: Seq<char>) -> Seq<char> {
    q.skip(last_dot(q) + 1)
}

/// The edit that sets an entry to a new value in place: targeted by the
/// entry's provenance, its new line keeps the original indentation and
/// writes the entry's own key (the part after the last dot) and the new
/// value around ` = `.
pub fn edit_for_entry(entry: &crate::model::ConfigEntry, new_value: &str) -> (r: Edit)
    ensures
        r@.file == entry@.source_file,
        r@.line_number == entry@.line_number,
        r@.expected_original_line == entry@.original_line,
        r@.new_line == leading_ws(entry@.original_line) + local_name(entry@.qualified_name)
            + " = "@ + new_value@,
{
    let orig = entry.original_line.as_str();
    let ws_end = crate::text::first_non_space(orig, 0);
    proof {
        crate::text::lemma_trim_front_skip(orig@, 0, ws_end as int);
        assert(orig@.skip(0) =~= orig@);
        assert(orig@.take(ws_end as int) =~= leading_ws(orig@));
    }
    let mut line = String::from_str(orig.substring_char(0, ws_end));
    let q = entry.qualified_name.as_str();
    let qn = q.unicode_len();
    let mut d = qn;
    while d > 0 && q.get_char(d - 1) != '.'
        invariant
            0 <= d <= qn,
            qn == q@.len(),
            forall|k: int| d <= k < qn ==> q@[k] != '.',
        decreases d,
    {
        d = d - 1;
    }
    proof {
        lemma_last_dot(q@);
        if d > 0 {
            assert(q@[d - 1] == '.');
            assert(last_dot(q@) == d - 1);
        } else {
            assert(last_dot(q@) == -1);
        }
        assert(q@.subrange(d as int, qn as int) =~= local_name(q@));
    }
    line.append(q.substring_char(d, qn));
    line.append(" = ");
    line.append(new_value);
    Edit {
        file: entry.source_file.clone(),
        line_number: entry.line_number,
        new_line: line,
        expected_original_line: entry.original_line.clone(),
    }
}

/// The entry's own view of a line that replaced its original: the value
/// is the trimmed text after the first `=`, and the line itself becomes
/// the new provenance; a line without `=` changes nothing.
pub open spec fn entry_saved(
    e: crate::model::EntryModel,
    edit: EditModel,
) -> crate::model::EntryModel {
    let p = char_pos(edit.new_line, '=');
    if p < edit.new_line.len() {
        crate::model::EntryModel {
            value: trimmed(edit.new_line.skip(p as int + 1)),
            original_line: edit.new_line,
            ..e
        }
    } else {
        e
    }
}

/// The entry an edit targets: same recorded file and line number.
pub open spec fn edit_matches(e: crate::model::EntryModel, edit: EditModel) -> bool {
    e.source_file == edit.file && e.line_number == edit.line_number
}

/// Index of the first entry the edit targets; `entries.len()` when none.
pub open spec fn match_pos(entries: Seq<crate::model::EntryModel>, edit: EditModel) -> nat
    decreases entries.len(),
{
    if entries.len() == 0 {
        0
    } else if edit_matches(entries.first(), edit) {
        0
    } else {
        1 + match_pos(entries.drop_first(), edit)
    }
}

pub proof fn lemma_match_pos(entries: Seq<crate::model::EntryModel>, edit: EditModel)
    ensures
        match_pos(entries, edit) <= entries.len(),
        match_pos(entries, edit) < entries.len() ==> edit_matches(
            entries[match_pos(entries, edit) as int],
            edit,
        ),
        forall|k: int| 0 <= k < match_pos(entries, edit) ==> !edit_matches(
            #[trigger] entries[k],
            edit,
        ),
    decreases entries.len(),
{
    if entries.len() == 0 {
    } else if edit_matches(entries.first(), edit) {
    } else {
        lemma_match_pos(entries.drop_first(), edit);
        let m = match_pos(entries, edit);
        assert forall|k: int| 0 <= k < m implies !edit_matches(#[trigger] entries[k], edit) by {
            if k > 0 {
                assert(entries.drop_first()[k - 1] == entries[k]);
            }
        }
        if m < entries.len() {
            assert(entries.drop_first()[m - 1] == entries[m as int]);
        }
    }
}

/// After a file accepted an edit, brings the view in line with the disk
/// without a re-parse: the first entry whose provenance the edit targeted
/// takes the written line's value as its own and the written line as its
/// new original; nothing else moves.
pub fn record_applied_edit(view: &mut crate::model::ConfigurationView, edit: &Edit)
    ensures
        ({
            let m = match_pos(old(view)@.entries, edit@);
            if m < old(view)@.entries.len() {
                final(view)@.entries == old(view)@.entries.update(
                    m as int,
                    entry_saved(old(view)@.entries[m as int], edit@),
                )
            } else {
                final(view)@.entries == old(view)@.entries
            }
        }),
        final(view)@.sources == old(view)@.sources,
        final(view)@.variables == old(view)@.variables,
        final(view)@.processed == old(view)@.processed,
{
    let ghost ev = view@.entries;
    proof {
        lemma_match_pos(ev, edit@);
    }
    let mut i: usize = 0;
    while i < view.entries.len()
        invariant
            0 <= i <= view.entries.len(),
            ev == view@.entries,
            ev == old(view)@.entries,
            view@.sources == old(view)@.sources,
            view@.variables == old(view)@.variables,
            view@.processed == old(view)@.processed,
            forall|k: int| 0 <= k < i ==> !edit_matches(#[trigger] ev[k], edit@),
        decreases view.entries.len() - i,
    {
        if str_eq(view.entries[i].source_file.as_str(), edit.file.as_str())
            && view.entries[i].line_number == edit.line_number {
            proof {
                assert(edit_matches(ev[i as int], edit@));
                lemma_match_pos(ev, edit@);
                assert(match_pos(ev, edit@) == i);
            }
            let line = edit.new_line.as_str();
            let n = line.unicode_len();
            let p = char_pos_str(line, '=');
            proof {
                crate::text::lemma_char_pos(line@, '=');
            }
            if p < n {
                let after = line.substring_char(p + 1, n);
                proof {
                    assert(after@ =~= line@.skip(p as int + 1));
                }
                let value = String::from_str(trim_str(after));
                let e = &view.entries[i];
                let updated = crate::model::ConfigEntry {
                    qualified_name: e.qualified_name.clone(),
                    value,
                    source_file: e.source_file.clone(),
                    line_number: e.line_number,
                    original_line: edit.new_line.clone(),
                };
                view.entries[i] = updated;
                proof {
                    assert(view@.entries =~= ev.update(
                        i as int,
                        entry_saved(ev[i as int], edit@),
                    ));
                }
            } else {
                proof {
                    assert(view@.entries =~= ev.update(i as int, entry_saved(ev[i as int], edit@)));
                }
            }
            return ;
        }
        i = i + 1;
    }
    proof {
        lemma_match_pos(ev, edit@);
        assert(match_pos(ev, edit@) == ev.len());
    }
}

/// Applies a batch of edits against a snapshot of the current files:
/// edits are grouped by target file, each file's group validated against
/// that file's current text, and each file reported on its own, so one
/// rejected file never blocks another. No text is produced for a
/// rejected file.
pub fn apply_edits(files: &Vec<SnapshotFile>, edits: &Vec<Edit>) -> (r: Vec<FileOutcome>)
    ensures
        r.deep_view() == outcomes(
            files.deep_view(),
            edits.deep_view(),
            file_list(edits.deep_view()),
        ),
{
    let ghost fs = files.deep_view();
    let ghost ev = edits.deep_view();
    let mut flist: Vec<String> = Vec::new();
    let mut i: usize = 0;
    proof {
        assert(ev.take(0) =~= Seq::<EditModel>::empty());
    }
    while i < edits.len()
        invariant
            0 <= i <= edits.len(),
            ev == edits.deep_view(),
            flist.deep_view() == file_list(ev.take(i as int)),
        decreases edits.len() - i,
    {
        proof {
            assert(ev.take(i + 1).drop_last() =~= ev.take(i as int));
            assert(ev.take(i + 1).last() == ev[i as int]);
        }
        if !contains_string(&flist, edits[i].file.as_str()) {
            flist.push(edits[i].file.clone());
            proof {
                assert(flist.deep_view() =~= file_list(ev.take(i as int)).push(ev[i as int].file));
            }
        }
        i = i + 1;
    }
    proof {
        assert(ev.take(edits.len() as int) =~= ev);
    }
    let ghost fl = flist.deep_view();
    let mut out: Vec<FileOutcome> = Vec::new();
    let mut fi: usize = 0;
    proof {
        assert(fl.take(0) =~= Seq::<Seq<char>>::empty());
    }
    while fi < flist.len()
        invariant
            0 <= fi <= flist.len(),
            ev == edits.deep_view(),
            fs == files.deep_view(),
            fl == flist.deep_view(),
            out.deep_view() == outcomes(fs, ev, fl.take(fi as int)),
        decreases flist.len() - fi,
    {
        let f = &flist[fi];
        let mut group: Vec<Edit> = Vec::new();
        let mut j: usize = 0;
        proof {
            assert(ev.take(0) =~= Seq::<EditModel>::empty());
        }
        while j < edits.len()
            invariant
                0 <= j <= edits.len(),
                ev == edits.deep_view(),
                f@ == fl[fi as int],
                group.deep_view() == edits_for(ev.take(j as int), f@),
            decreases edits.len() - j,
        {
            proof {
                assert(ev.take(j + 1).drop_last() =~= ev.take(j as int));
                assert(ev.take(j + 1).last() == ev[j as int]);
            }
            let e = &edits[j];
            if str_eq(e.file.as_str(), f.as_str()) {
                let copy = Edit {
                    file: e.file.clone(),
                    line_number: e.line_number,
                    new_line: e.new_line.clone(),
                    expected_original_line: e.expected_original_line.clone(),
                };
                group.push(copy);
                proof {
                    assert(group.deep_view() =~= edits_for(ev.take(j as int), f@).push(
                        ev[j as int],
                    ));
                }
            }
            j = j + 1;
        }
        proof {
            assert(ev.take(edits.len() as int) =~= ev);
        }
        let outcome = match snapshot_content(files, f.as_str()) {
            None => FileOutcome {
                file: f.clone(),
                result: Result::Err(RewriteError::FileUnavailable { file: f.clone() }),
            },
            Some(c) => {
                let res = apply_edits_to_content(c.as_str(), &group);
                FileOutcome { file: f.clone(), result: res }
            },
        };
        out.push(outcome);
        proof {
            assert(fl.take(fi + 1).drop_last() =~= fl.take(fi as int));
            assert(fl.take(fi + 1).last() == fl[fi as int]);
            assert(out.deep_view() =~= outcomes(fs, ev, fl.take(fi as int)).push(
                FileOutcomeModel { file: fl[fi as int], result: outcome_for(fs, fl[fi as int], ev) },
            ));
        }
        fi = fi + 1;
    }
    proof {
        assert(fl.take(flist.len() as int) =~= fl);
    }
    out
}

} // verus!
