//! The line indexer: walks one file's text line by line, flattening
//! section-scoped assignments into `section.key` entries with exact
//! provenance, collecting source directives and variable definitions.

use vstd::prelude::*;
use vstd::string::*;
use crate::classify::{classify_line, classify_str, Line, LineClass};
use crate::lines::{split_lines, split_str_lines};
use crate::model::{
    ConfigEntry, ConfigurationView, EntryModel, SourceRef, SourceRefModel, VarDef, VarModel,
    qualify,
};

verus! {

/// Indexer state while one file is walked: the current section (empty at
/// top level) and everything gathered so far.
pub ghost struct IndexModel {
    pub section: Seq<char>,
    pub entries: Seq<EntryModel>,
    pub sources: Seq<SourceRefModel>,
    pub variables: Seq<VarModel>,
}

/// The state after one more line of `file`, numbered `lineno`.
pub open spec fn index_line_step(
    st: IndexModel,
    file: Seq<char>,
    lineno: int,
    line: Seq<char>,
) -> IndexModel {
    match classify_line(line) {
        LineClass::Blank => st,
        LineClass::Source { raw_path } => IndexModel {
            sources: st.sources.push(
                SourceRefModel { raw_path, declaring_file: file, resolved_path: None },
            ),
            ..st
        },
        LineClass::SectionOpen { name } => IndexModel { section: name, ..st },
        LineClass::SectionClose => IndexModel { section: Seq::empty(), ..st },
        LineClass::Variable { name, value } => IndexModel {
            variables: st.variables.push(VarModel { name, value }),
            ..st
        },
        LineClass::Assignment { key, value } => IndexModel {
            entries: st.entries.push(
                EntryModel {
                    qualified_name: qualify(st.section, key),
                    value,
                    source_file: file,
                    line_number: lineno,
                    original_line: line,
                },
            ),
            ..st
        },
        LineClass::Unrecognized => st,
    }
}

/// The state after the first `n` lines of `file`.
pub open spec fn index_prefix(
    st: IndexModel,
    file: Seq<char>,
    lines: Seq<Seq<char>>,
    n: int,
) -> IndexModel
    decreases n,
{
    if n <= 0 {
        st
    } else {
        index_line_step(index_prefix(st, file, lines, n - 1), file, n, lines[n - 1])
    }
}

/// The state after the whole text of `file`, starting at top level.
pub open spec fn index_content(st: IndexModel, file: Seq<char>, content: Seq<char>) -> IndexModel {
    index_prefix(st, file, split_lines(content), split_lines(content).len() as int)
}

/// Indexes one file's text into the view: every assignment becomes an
/// entry with provenance `(file, line number, original line)`, source
/// directives and variable definitions are collected in document order,
/// and the processed-file list is left alone.
pub fn index_file_content(view: &mut ConfigurationView, file: &str, content: &str)
    ensures
        ({
            let st0 = IndexModel {
                section: Seq::empty(),
                entries: old(view)@.entries,
                sources: old(view)@.sources,
                variables: old(view)@.variables,
            };
            let st1 = index_content(st0, file@, content@);
            final(view)@.entries == st1.entries && final(view)@.sources == st1.sources
                && final(view)@.variables == st1.variables
        }),
        final(view)@.processed == old(view)@.processed,
{
    let ghost st0 = IndexModel {
        section: Seq::empty(),
        entries: view@.entries,
        sources: view@.sources,
        variables: view@.variables,
    };
    let ghost p0 = view@.processed;
    let lines = split_str_lines(content);
    let mut section = String::new();
    let mut i: usize = 0;
    while i < lines.len()
        invariant
            0 <= i <= lines.len(),
            lines.deep_view() == split_lines(content@),
            ({
                let st = index_prefix(st0, file@, lines.deep_view(), i as int);
                st.section == section@ && st.entries == view@.entries && st.sources
                    == view@.sources && st.variables == view@.variables
            }),
            view@.processed == p0,
        decreases lines.len() - i,
    {
        let ghost st_before = index_prefix(st0, file@, lines.deep_view(), i as int);
        let line_text = &lines[i];
        proof {
            assert(line_text@ == lines.deep_view()[i as int]);
        }
        let parsed = classify_str(line_text.as_str());
        match parsed {
            Line::Blank => {},
            Line::Unrecognized => {},
            Line::Source { raw_path } => {
                let sref = SourceRef {
                    raw_path,
                    declaring_file: String::from_str(file),
                    resolved_path: None,
                };
                view.sources.push(sref);
                proof {
                    assert(view@.sources =~= st_before.sources.push(
                        SourceRefModel {
                            raw_path: classify_line(lines.deep_view()[i as int])->Source_raw_path,
                            declaring_file: file@,
                            resolved_path: None,
                        },
                    ));
                }
            },
            Line::SectionOpen { name } => {
                section = name;
            },
            Line::SectionClose => {
                section = String::new();
            },
            Line::Variable { name, value } => {
                view.variables.push(VarDef { name, value });
                proof {
                    assert(view@.variables =~= st_before.variables.push(
                        VarModel {
                            name: classify_line(lines.deep_view()[i as int])->Variable_name,
                            value: classify_line(lines.deep_view()[i as int])->Variable_value,
                        },
                    ));
                }
            },
            Line::Assignment { key, value } => {
                let qualified_name: String = if section.unicode_len() == 0 {
                    key
                } else {
                    let mut q = section.clone();
                    q.append(".");
                    q.append(key.as_str());
                    proof {
                        reveal_strlit(".");
                        assert(q@ =~= section@ + seq!['.'] + key@);
                    }
                    q
                };
                let entry = ConfigEntry {
                    qualified_name,
                    value,
                    source_file: String::from_str(file),
                    line_number: i + 1,
                    original_line: line_text.clone(),
                };
                view.entries.push(entry);
                proof {
                    let cls = classify_line(lines.deep_view()[i as int]);
                    assert(view@.entries =~= st_before.entries.push(
                        EntryModel {
                            qualified_name: qualify(st_before.section, cls->Assignment_key),
                            value: cls->Assignment_value,
                            source_file: file@,
                            line_number: i + 1,
                            original_line: lines.deep_view()[i as int],
                        },
                    ));
                }
            },
        }
        proof {
            assert(index_prefix(st0, file@, lines.deep_view(), i + 1) == index_line_step(
                st_before,
                file@,
                i + 1,
                lines.deep_view()[i as int],
            ));
        }
        i = i + 1;
    }
    proof {
        assert(lines.deep_view().len() == split_lines(content@).len());
    }
}

} // verus!
