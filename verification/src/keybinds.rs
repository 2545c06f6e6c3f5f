//! Keybind extraction over the configuration grammar: `bind = MODS, KEY,
//! ACTION` assignments become structured keybinds, with `$name` tokens in
//! the modifier list expanded through the variable table.

use vstd::prelude::*;
use vstd::string::*;
use crate::classify::{classify_line, classify_str, Line, LineClass};
use crate::expand::{expand, expand_spec};
use crate::lines::{split_lines, split_str_lines};
use crate::model::{VarDef, VarModel};
use crate::snapshot::{FileModel, SnapshotFile};
use crate::text::{
    char_pos, char_pos_str, split_ws, split_ws_str, str_eq, trimmed, trim_str,
};
use crate::walker::contains_string;

verus! {

/// One keybind: the key, its modifiers, and the bound action.
#[derive(Debug, PartialEq, Eq)]
pub struct Keybind {
    pub key: String,
    pub modifiers: Vec<String>,
    pub action: String,
    pub description: Option<String>,
}

pub ghost struct KeybindModel {
    pub key: Seq<char>,
    pub modifiers: Seq<Seq<char>>,
    pub action: Seq<char>,
    pub description: Option<Seq<char>>,
}

impl View for Keybind {
    type V = KeybindModel;

    open spec fn view(&self) -> KeybindModel {
        KeybindModel {
            key: self.key@,
            modifiers: self.modifiers.deep_view(),
            action: self.action@,
            description: match self.description {
                Some(ref d) => Some(d@),
                None => None,
            },
        }
    }
}

impl DeepView for Keybind {
    type V = KeybindModel;

    open spec fn deep_view(&self) -> KeybindModel {
        self@
    }
}

/// The assignment key that introduces a keybind.
pub open spec fn bind_word() -> Seq<char> {
    seq!['b', 'i', 'n', 'd']
}

/// What a `bind` assignment's value means: text before the first comma
/// gives the modifiers (expanded through the table, then split on
/// whitespace), text up to the next comma or the end gives the key, and
/// what follows that comma gives the action. A value without a first
/// comma, or with nothing between the commas, is no keybind.
pub open spec fn parse_bind_value(value: Seq<char>, vars: Seq<VarModel>) -> Option<KeybindModel> {
    let p1 = char_pos(value, ',');
    if 1 <= p1 && p1 < value.len() {
        let rest = value.skip(p1 as int + 1);
        let p2 = char_pos(rest, ',');
        if 1 <= p2 {
            Some(
                KeybindModel {
                    key: trimmed(rest.take(p2 as int)),
                    modifiers: split_ws(expand_spec(vars, trimmed(value.take(p1 as int)))),
                    action: if p2 < rest.len() {
                        trimmed(rest.skip(p2 as int + 1))
                    } else {
                        Seq::empty()
                    },
                    description: None,
                },
            )
        } else {
            None
        }
    } else {
        None
    }
}

/// The keybind a line yields: only a recognized assignment to `bind`
/// whose value parses as a keybind.
pub open spec fn line_bind(line: Seq<char>, vars: Seq<VarModel>) -> Option<KeybindModel> {
    match classify_line(line) {
        LineClass::Assignment { key, value } => {
            if key == bind_word() {
                parse_bind_value(value, vars)
            } else {
                None
            }
        },
        _ => None,
    }
}

/// The variable definitions of the first `n` lines, in order, appended
/// to `vars`.
pub open spec fn vars_prefix(vars: Seq<VarModel>, lines: Seq<Seq<char>>, n: int) -> Seq<VarModel>
    decreases n,
{
    if n <= 0 {
        vars
    } else {
        let prev = vars_prefix(vars, lines, n - 1);
        match classify_line(lines[n - 1]) {
            LineClass::Variable { name, value } => prev.push(VarModel { name, value }),
            _ => prev,
        }
    }
}

/// The keybinds of the first `n` lines, in order, appended to `binds`,
/// all read against the same variable table.
pub open spec fn binds_prefix(
    binds: Seq<KeybindModel>,
    lines: Seq<Seq<char>>,
    n: int,
    vars: Seq<VarModel>,
) -> Seq<KeybindModel>
    decreases n,
{
    if n <= 0 {
        binds
    } else {
        let prev = binds_prefix(binds, lines, n - 1, vars);
        match line_bind(lines[n - 1], vars) {
            Some(kb) => prev.push(kb),
            None => prev,
        }
    }
}

/// Parser state over a list of files.
pub ghost struct ParserModel {
    pub processed: Seq<Seq<char>>,
    pub variables: Seq<VarModel>,
    pub binds: Seq<KeybindModel>,
}

/// One file folded in: a path seen before changes nothing; otherwise its
/// variable definitions join the table first, and then its bind lines
/// are read against the grown table.
pub open spec fn parse_file_step(st: ParserModel, f: FileModel) -> ParserModel {
    if st.processed.contains(f.path) {
        st
    } else {
        let lines = split_lines(f.content);
        let vars1 = vars_prefix(st.variables, lines, lines.len() as int);
        ParserModel {
            processed: st.processed.push(f.path),
            variables: vars1,
            binds: binds_prefix(st.binds, lines, lines.len() as int, vars1),
        }
    }
}

pub open spec fn parse_files_prefix(st: ParserModel, files: Seq<FileModel>, n: int) -> ParserModel
    decreases n,
{
    if n <= 0 {
        st
    } else {
        parse_file_step(parse_files_prefix(st, files, n - 1), files[n - 1])
    }
}

/// Parses Hyprland-style keybinds out of configuration files.
pub struct ConfigParser {
    pub processed_files: Vec<String>,
    pub variables: Vec<VarDef>,
}

pub ghost struct ConfigParserModel {
    pub processed: Seq<Seq<char>>,
    pub variables: Seq<VarModel>,
}

impl View for ConfigParser {
    type V = ConfigParserModel;

    open spec fn view(&self) -> ConfigParserModel {
        ConfigParserModel {
            processed: self.processed_files.deep_view(),
            variables: self.variables.deep_view(),
        }
    }
}

impl ConfigParser {
    /// A parser with nothing processed and an empty variable table.
    pub fn new() -> (r: ConfigParser)
        ensures
            r@.processed.len() == 0,
            r@.variables.len() == 0,
    {
        ConfigParser { processed_files: Vec::new(), variables: Vec::new() }
    }

    /// Parses the keybinds of the given files, in order, each physical
    /// path taken in once: every file's `$name` definitions join the
    /// table before its bind lines are read, so definitions from files
    /// given earlier reach later files. Callers hand the files over in
    /// the order the source graph walk discovered them.
    pub fn parse_keybinds(&mut self, files: &Vec<SnapshotFile>) -> (r: Vec<Keybind>)
        ensures
            ({
                let st0 = ParserModel {
                    processed: old(self)@.processed,
                    variables: old(self)@.variables,
                    binds: Seq::empty(),
                };
                let st1 = parse_files_prefix(st0, files.deep_view(), files.deep_view().len() as int);
                final(self)@.processed == st1.processed && final(self)@.variables == st1.variables
                    && r.deep_view() == st1.binds
            }),
    {
        let ghost st0 = ParserModel {
            processed: self@.processed,
            variables: self@.variables,
            binds: Seq::empty(),
        };
        let ghost fdv = files.deep_view();
        let mut binds: Vec<Keybind> = Vec::new();
        let mut fi: usize = 0;
        proof {
            assert(binds.deep_view() =~= Seq::<KeybindModel>::empty());
        }
        while fi < files.len()
            invariant
                0 <= fi <= files.len(),
                fdv == files.deep_view(),
                ({
                    let st = parse_files_prefix(st0, fdv, fi as int);
                    st.processed == self@.processed && st.variables == self@.variables
                        && st.binds == binds.deep_view()
                }),
            decreases files.len() - fi,
        {
            let ghost st_before = parse_files_prefix(st0, fdv, fi as int);
            let f = &files[fi];
            proof {
                assert(f@ == fdv[fi as int]);
            }
            if !contains_string(&self.processed_files, f.path.as_str()) {
                self.processed_files.push(f.path.clone());
                proof {
                    assert(self@.processed =~= st_before.processed.push(fdv[fi as int].path));
                }
                let lines = split_str_lines(f.content.as_str());
                let ghost lv = lines.deep_view();
                let mut li: usize = 0;
                while li < lines.len()
                    invariant
                        0 <= li <= lines.len(),
                        lv == lines.deep_view(),
                        self@.processed == st_before.processed.push(fdv[fi as int].path),
                        self@.variables == vars_prefix(st_before.variables, lv, li as int),
                    decreases lines.len() - li,
                {
                    let line_text = &lines[li];
                    proof {
                        assert(line_text@ == lv[li as int]);
                    }
                    match classify_str(line_text.as_str()) {
                        Line::Variable { name, value } => {
                            self.variables.push(VarDef { name, value });
                            proof {
                                assert(self@.variables =~= vars_prefix(
                                    st_before.variables,
                                    lv,
                                    li as int,
                                ).push(
                                    VarModel {
                                        name: classify_line(lv[li as int])->Variable_name,
                                        value: classify_line(lv[li as int])->Variable_value,
                                    },
                                ));
                            }
                        },
                        _ => {},
                    }
                    li = li + 1;
                }
                let ghost vars1 = self@.variables;
                let mut li: usize = 0;
                while li < lines.len()
                    invariant
                        0 <= li <= lines.len(),
                        lv == lines.deep_view(),
                        self@.processed == st_before.processed.push(fdv[fi as int].path),
                        vars1 == self@.variables,
                        binds.deep_view() == binds_prefix(st_before.binds, lv, li as int, vars1),
                    decreases lines.len() - li,
                {
                    let line_text = &lines[li];
                    proof {
                        assert(line_text@ == lv[li as int]);
                    }
                    match classify_str(line_text.as_str()) {
                        Line::Assignment { key, value } => {
                            proof {
                                reveal_strlit("bind");
                                assert("bind"@ =~= bind_word());
                            }
                            if str_eq(key.as_str(), "bind") {
                                match self.parse_bind(value.as_str()) {
                                    Some(kb) => {
                                        binds.push(kb);
                                        proof {
                                            assert(binds.deep_view() =~= binds_prefix(
                                                st_before.binds,
                                                lv,
                                                li as int,
                                                vars1,
                                            ).push(
                                                line_bind(lv[li as int], vars1)->Some_0,
                                            ));
                                        }
                                    },
                                    None => {},
                                }
                            }
                        },
                        _ => {},
                    }
                    li = li + 1;
                }
            }
            fi = fi + 1;
        }
        binds
    }

    /// The keybind a `bind` assignment's value yields, as
    /// `parse_bind_value` describes, against the current table.
    pub fn parse_bind(&self, value: &str) -> (r: Option<Keybind>)
        ensures
            match r {
                Some(kb) => parse_bind_value(value@, self@.variables) == Some(kb@),
                None => parse_bind_value(value@, self@.variables) is None,
            },
    {
        let n = value.unicode_len();
        let p1 = char_pos_str(value, ',');
        if !(1 <= p1 && p1 < n) {
            return None;
        }
        let rest = value.substring_char(p1 + 1, n);
        proof {
            assert(rest@ =~= value@.skip(p1 as int + 1));
        }
        let rn = rest.unicode_len();
        let p2 = char_pos_str(rest, ',');
        proof {
            crate::text::lemma_char_pos(rest@, ',');
        }
        if p2 < 1 {
            return None;
        }
        let key_raw = rest.substring_char(0, p2);
        proof {
            assert(key_raw@ =~= rest@.take(p2 as int));
        }
        let key = String::from_str(trim_str(key_raw));
        let mods_raw = value.substring_char(0, p1);
        proof {
            assert(mods_raw@ =~= value@.take(p1 as int));
        }
        let expanded = expand(trim_str(mods_raw), &self.variables);
        let modifiers = split_ws_str(expanded.as_str());
        let action: String = if p2 < rn {
            let a = rest.substring_char(p2 + 1, rn);
            proof {
                assert(a@ =~= rest@.skip(p2 as int + 1));
            }
            String::from_str(trim_str(a))
        } else {
            String::new()
        };
        Some(Keybind { key, modifiers, action, description: None })
    }

    /// `input` with every whole `$name` token the table defines replaced
    /// by its value; the table itself is read only.
    pub fn expand_variables(&self, input: &str) -> (r: String)
        ensures
            r@ == expand_spec(self@.variables, input@),
    {
        expand(input, &self.variables)
    }
}

} // verus!
