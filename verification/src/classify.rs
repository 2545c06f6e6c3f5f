//! Per-line classification of configuration text.
//!
//! Each line, after trimming, is exactly one of: blank or comment, a
//! `source = <path>` directive, a one-level section opener `name {`, the
//! section closer `}`, a variable definition `$name = value`, a plain
//! assignment `key = value`, or unrecognized text that the engine passes
//! through untouched.

use vstd::prelude::*;
use vstd::string::*;
use crate::text::{
    trimmed, trim_front, trim_str, first_non_space, lemma_trim_front_skip, is_ident_char,
    ident_len, ident_run_str, has_prefix, has_prefix_str,
};

verus! {

/// The classification of one line, at the specification level.
pub ghost enum LineClass {
    Blank,
    Source { raw_path: Seq<char> },
    SectionOpen { name: Seq<char> },
    SectionClose,
    Variable { name: Seq<char>, value: Seq<char> },
    Assignment { key: Seq<char>, value: Seq<char> },
    Unrecognized,
}

/// The classification of one line, carrying the recognized pieces.
pub enum Line {
    Blank,
    Source { raw_path: String },
    SectionOpen { name: String },
    SectionClose,
    Variable { name: String, value: String },
    Assignment { key: String, value: String },
    Unrecognized,
}

impl View for Line {
    type V = LineClass;

    open spec fn view(&self) -> LineClass {
        match self {
            Line::Blank => LineClass::Blank,
            Line::Source { raw_path } => LineClass::Source { raw_path: raw_path@ },
            Line::SectionOpen { name } => LineClass::SectionOpen { name: name@ },
            Line::SectionClose => LineClass::SectionClose,
            Line::Variable { name, value } => LineClass::Variable {
                name: name@,
                value: value@,
            },
            Line::Assignment { key, value } => LineClass::Assignment {
                key: key@,
                value: value@,
            },
            Line::Unrecognized => LineClass::Unrecognized,
        }
    }
}

/// The keyword that introduces a source directive.
pub open spec fn source_word() -> Seq<char> {
    seq!['s', 'o', 'u', 'r', 'c', 'e']
}

/// Every character is an identifier character.
pub open spec fn all_ident(s: Seq<char>) -> bool {
    forall|k: int| 0 <= k < s.len() ==> is_ident_char(s[k])
}

/// The trimmed text after an `=` sign that follows position `from` in `t`
/// (whitespace before the `=` allowed); `None` when there is no `=` there
/// or nothing but whitespace follows it.
pub open spec fn value_after(t: Seq<char>, from: int) -> Option<Seq<char>> {
    let r = trim_front(t.skip(from));
    if r.len() > 0 && r[0] == '=' && trimmed(r.drop_first()).len() > 0 {
        Some(trimmed(r.drop_first()))
    } else {
        None
    }
}

/// What one raw line means, decided on its trimmed form, first matching
/// rule winning: blank or comment, source directive, section opener,
/// section closer, variable definition, assignment, unrecognized.
pub open spec fn classify_line(line: Seq<char>) -> LineClass {
    let t = trimmed(line);
    if t.len() == 0 || t[0] == '#' {
        LineClass::Blank
    } else if has_prefix(t, source_word()) && value_after(t, 6) is Some {
        LineClass::Source { raw_path: value_after(t, 6)->Some_0 }
    } else if t.last() == '{' && trimmed(t.drop_last()).len() > 0 && all_ident(
        trimmed(t.drop_last()),
    ) {
        LineClass::SectionOpen { name: trimmed(t.drop_last()) }
    } else if t.len() == 1 && t[0] == '}' {
        LineClass::SectionClose
    } else if t[0] == '$' && ident_len(t.skip(1)) > 0 && value_after(
        t,
        1 + ident_len(t.skip(1)) as int,
    ) is Some {
        LineClass::Variable {
            name: t.subrange(1, 1 + ident_len(t.skip(1)) as int),
            value: value_after(t, 1 + ident_len(t.skip(1)) as int)->Some_0,
        }
    } else if ident_len(t) > 0 && value_after(t, ident_len(t) as int) is Some {
        LineClass::Assignment {
            key: t.subrange(0, ident_len(t) as int),
            value: value_after(t, ident_len(t) as int)->Some_0,
        }
    } else {
        LineClass::Unrecognized
    }
}

/// The trimmed text after an `=` at or past `from`, as `value_after`
/// describes it.
fn value_after_str(t: &str, from: usize) -> (r: Option<String>)
    requires
        from <= t@.len(),
    ensures
        match r {
            Some(v) => value_after(t@, from as int) == Some(v@),
            None => value_after(t@, from as int) is None,
        },
{
    let n = t.unicode_len();
    let i = first_non_space(t, from);
    proof {
        lemma_trim_front_skip(t@, from as int, i as int);
    }
    if i < n {
        let c = t.get_char(i);
        if c == '=' {
            let rest = t.substring_char(i + 1, n);
            let v = trim_str(rest);
            proof {
                assert(t@.skip(i as int).drop_first() =~= t@.subrange(i + 1, n as int));
            }
            if v.unicode_len() > 0 {
                return Some(String::from_str(v));
            } else {
                return None;
            }
        }
    }
    None
}

fn all_ident_str(s: &str) -> (r: bool)
    ensures
        r == all_ident(s@),
{
    let n = s.unicode_len();
    let l = ident_run_str(s, 0);
    proof {
        assert(s@.skip(0) =~= s@);
        crate::text::lemma_ident_len(s@);
    }
    l == n
}

/// Classifies one raw line exactly as `classify_line` does.
pub fn classify_str(line: &str) -> (r: Line)
    ensures
        r@ == classify_line(line@),
{
    let t = trim_str(line);
    let n = t.unicode_len();
    if n == 0 || t.get_char(0) == '#' {
        return Line::Blank;
    }
    proof {
        reveal_strlit("source");
        assert("source"@ =~= source_word());
    }
    if has_prefix_str(t, "source") {
        if let Some(v) = value_after_str(t, 6) {
            return Line::Source { raw_path: v };
        }
    }
    if t.get_char(n - 1) == '{' {
        let head = t.substring_char(0, n - 1);
        proof {
            assert(t@.drop_last() =~= t@.subrange(0, n - 1));
        }
        let name = trim_str(head);
        if name.unicode_len() > 0 && all_ident_str(name) {
            return Line::SectionOpen { name: String::from_str(name) };
        }
    }
    if n == 1 && t.get_char(0) == '}' {
        return Line::SectionClose;
    }
    if t.get_char(0) == '$' {
        let l = ident_run_str(t, 1);
        if l > 0 {
            if let Some(v) = value_after_str(t, 1 + l) {
                let name = t.substring_char(1, 1 + l);
                return Line::Variable { name: String::from_str(name), value: v };
            }
        }
    }
    let l = ident_run_str(t, 0);
    proof {
        assert(t@.skip(0) =~= t@);
    }
    if l > 0 {
        if let Some(v) = value_after_str(t, l) {
            let key = t.substring_char(0, l);
            return Line::Assignment { key: String::from_str(key), value: v };
        }
    }
    Line::Unrecognized
}

} // verus!
