//! A flat, queryable settings store over the indexer's grammar: parsed
//! assignments keyed by `section.key`, a category-to-file table, and
//! pending in-memory changes that shadow parsed values until saved.

use vstd::prelude::*;
use vstd::string::*;
use crate::classify::{classify_line, classify_str, Line, LineClass};
use crate::lines::{split_lines, split_str_lines};
use crate::model::qualify;
use crate::text::{
    has_prefix, has_prefix_str, trimmed, trim_str, seq_eq_ci, str_eq_ci, str_eq,
};

verus! {

/// One key-to-text association.
#[derive(Debug, PartialEq, Eq)]
pub struct StrPair {
    pub key: String,
    pub value: String,
}

pub ghost struct PairModel {
    pub key: Seq<char>,
    pub value: Seq<char>,
}

impl View for StrPair {
    type V = PairModel;

    open spec fn view(&self) -> PairModel {
        PairModel { key: self.key@, value: self.value@ }
    }
}

impl DeepView for StrPair {
    type V = PairModel;

    open spec fn deep_view(&self) -> PairModel {
        self@
    }
}

/// The value associated with the first pair keyed `k`, or `None`.
pub open spec fn assoc_lookup(s: Seq<PairModel>, k: Seq<char>) -> Option<Seq<char>>
    decreases s.len(),
{
    if s.len() == 0 {
        None
    } else if s.first().key == k {
        Some(s.first().value)
    } else {
        assoc_lookup(s.drop_first(), k)
    }
}

/// The list with the first pair keyed `k` replaced by `(k, v)`, or with
/// `(k, v)` appended when no pair carries `k`.
pub open spec fn assoc_insert(s: Seq<PairModel>, k: Seq<char>, v: Seq<char>) -> Seq<PairModel>
    decreases s.len(),
{
    if s.len() == 0 {
        seq![PairModel { key: k, value: v }]
    } else if s.first().key == k {
        seq![PairModel { key: k, value: v }] + s.drop_first()
    } else {
        seq![s.first()] + assoc_insert(s.drop_first(), k, v)
    }
}

proof fn lemma_assoc_insert_found(s: Seq<PairModel>, k: Seq<char>, v: Seq<char>, i: int)
    requires
        0 <= i < s.len(),
        s[i].key == k,
        forall|j: int| 0 <= j < i ==> s[j].key != k,
    ensures
        assoc_insert(s, k, v) == s.update(i, PairModel { key: k, value: v }),
    decreases i,
{
    if i == 0 {
        assert(seq![PairModel { key: k, value: v }] + s.drop_first() =~= s.update(
            0,
            PairModel { key: k, value: v },
        ));
    } else {
        assert(s.drop_first()[i - 1] == s[i]);
        assert(forall|j: int| 0 <= j < i - 1 ==> s.drop_first()[j] == s[j + 1]);
        lemma_assoc_insert_found(s.drop_first(), k, v, i - 1);
        assert(seq![s.first()] + s.drop_first().update(i - 1, PairModel { key: k, value: v })
            =~= s.update(i, PairModel { key: k, value: v }));
    }
}

proof fn lemma_assoc_insert_absent(s: Seq<PairModel>, k: Seq<char>, v: Seq<char>)
    requires
        forall|j: int| 0 <= j < s.len() ==> s[j].key != k,
    ensures
        assoc_insert(s, k, v) == s.push(PairModel { key: k, value: v }),
    decreases s.len(),
{
    if s.len() == 0 {
        assert(seq![PairModel { key: k, value: v }] =~= s.push(PairModel { key: k, value: v }));
    } else {
        assert(forall|j: int| 0 <= j < s.drop_first().len() ==> s.drop_first()[j] == s[j + 1]);
        lemma_assoc_insert_absent(s.drop_first(), k, v);
        assert(seq![s.first()] + s.drop_first().push(PairModel { key: k, value: v }) =~= s.push(
            PairModel { key: k, value: v },
        ));
    }
}

/// Looking a key up after an insert finds the inserted value; every
/// other key is untouched.
pub proof fn lemma_assoc_lookup_insert(
    s: Seq<PairModel>,
    k: Seq<char>,
    v: Seq<char>,
    n: Seq<char>,
)
    ensures
        assoc_lookup(assoc_insert(s, k, v), n) == if n == k {
            Some(v)
        } else {
            assoc_lookup(s, n)
        },
    decreases s.len(),
{
    assert(assoc_lookup(Seq::<PairModel>::empty(), n) is None);
    if s.len() == 0 {
        let r = seq![PairModel { key: k, value: v }];
        assert(r.first() == PairModel { key: k, value: v });
        assert(r.drop_first() =~= Seq::<PairModel>::empty());
        assert(assoc_lookup(r, n) == if n == k { Some(v) } else { assoc_lookup(s, n) });
    } else if s.first().key == k {
        let r = seq![PairModel { key: k, value: v }] + s.drop_first();
        assert(r.first() == PairModel { key: k, value: v });
        assert(r.drop_first() =~= s.drop_first());
    } else {
        lemma_assoc_lookup_insert(s.drop_first(), k, v, n);
        let r = seq![s.first()] + assoc_insert(s.drop_first(), k, v);
        assert(r.first() == s.first());
        assert(r.drop_first() =~= assoc_insert(s.drop_first(), k, v));
    }
}

/// The value of the first pair keyed `k`, as `assoc_lookup` describes.
pub fn pairs_lookup<'a>(v: &'a Vec<StrPair>, k: &str) -> (r: Option<&'a String>)
    ensures
        match r {
            Some(s) => assoc_lookup(v.deep_view(), k@) == Some(s@),
            None => assoc_lookup(v.deep_view(), k@) is None,
        },
{
    let ghost dv = v.deep_view();
    let mut i: usize = 0;
    proof {
        assert(dv.skip(0) =~= dv);
    }
    while i < v.len()
        invariant
            0 <= i <= v.len(),
            dv == v.deep_view(),
            assoc_lookup(dv, k@) == assoc_lookup(dv.skip(i as int), k@),
        decreases v.len() - i,
    {
        proof {
            assert(dv.skip(i as int).first() == dv[i as int]);
            assert(dv.skip(i as int).drop_first() =~= dv.skip(i + 1));
        }
        if str_eq(v[i].key.as_str(), k) {
            return Some(&v[i].value);
        }
        i = i + 1;
    }
    proof {
        assert(dv.skip(v.len() as int) =~= Seq::<PairModel>::empty());
    }
    None
}

/// Replaces the first pair keyed `k`, or appends one, as `assoc_insert`
/// describes.
/// The position of the first pair keyed `k`, when one exists.
fn find_key_index(v: &Vec<StrPair>, k: &str) -> (r: Option<usize>)
    ensures
        match r {
            Some(i) => i < v.deep_view().len() && v.deep_view()[i as int].key == k@ && forall|
                j: int,
            | 0 <= j < i ==> v.deep_view()[j].key != k@,
            None => forall|j: int| 0 <= j < v.deep_view().len() ==> v.deep_view()[j].key != k@,
        },
{
    let mut i: usize = 0;
    while i < v.len()
        invariant
            0 <= i <= v.len(),
            forall|j: int| 0 <= j < i ==> v.deep_view()[j].key != k@,
        decreases v.len() - i,
    {
        if str_eq(v[i].key.as_str(), k) {
            proof {
                assert(v.deep_view()[i as int].key == k@);
            }
            return Some(i);
        }
        i = i + 1;
    }
    None
}

pub fn pairs_insert(v: &mut Vec<StrPair>, k: &str, val: &str)
    ensures
        final(v).deep_view() == assoc_insert(old(v).deep_view(), k@, val@),
{
    let ghost dv = v.deep_view();
    let pair = StrPair { key: String::from_str(k), value: String::from_str(val) };
    match find_key_index(v, k) {
        Some(i) => {
            v[i] = pair;
            proof {
                lemma_assoc_insert_found(dv, k@, val@, i as int);
                assert(v.deep_view() =~= dv.update(i as int, PairModel { key: k@, value: val@ }));
            }
        },
        None => {
            v.push(pair);
            proof {
                lemma_assoc_insert_absent(dv, k@, val@);
                assert(v.deep_view() =~= dv.push(PairModel { key: k@, value: val@ }));
            }
        },
    }
}

/// Settings-store state while a file's text is folded in: the current
/// section and the settings map so far.
pub ghost struct SettingsState {
    pub section: Seq<char>,
    pub map: Seq<PairModel>,
}

/// The state after one more line: section openers and closers move the
/// section, an assignment inserts its flattened name, everything else
/// (comments, sources, variable definitions, unrecognized text) passes
/// through.
pub open spec fn settings_line_step(st: SettingsState, line: Seq<char>) -> SettingsState {
    match classify_line(line) {
        LineClass::SectionOpen { name } => SettingsState { section: name, ..st },
        LineClass::SectionClose => SettingsState { section: Seq::empty(), ..st },
        LineClass::Assignment { key, value } => SettingsState {
            map: assoc_insert(st.map, qualify(st.section, key), value),
            ..st
        },
        _ => st,
    }
}

pub open spec fn settings_prefix(st: SettingsState, lines: Seq<Seq<char>>, n: int) -> SettingsState
    decreases n,
{
    if n <= 0 {
        st
    } else {
        settings_line_step(settings_prefix(st, lines, n - 1), lines[n - 1])
    }
}

/// The settings map after a whole file's text, starting at top level.
pub open spec fn settings_content(map: Seq<PairModel>, content: Seq<char>) -> Seq<PairModel> {
    settings_prefix(
        SettingsState { section: Seq::empty(), map },
        split_lines(content),
        split_lines(content).len() as int,
    ).map
}

/// A value is truthy when, after trimming, it reads `true`, `1`, `yes`
/// or `on` in any letter case.
pub open spec fn truthy(v: Seq<char>) -> bool {
    ||| seq_eq_ci(trimmed(v), seq!['t', 'r', 'u', 'e'])
    ||| seq_eq_ci(trimmed(v), seq!['1'])
    ||| seq_eq_ci(trimmed(v), seq!['y', 'e', 's'])
    ||| seq_eq_ci(trimmed(v), seq!['o', 'n'])
}

/// The flat, queryable settings store.
pub struct HyprlandConfig {
    pub parsed_settings: Vec<StrPair>,
    pub category_files: Vec<StrPair>,
    pub pending_changes: Vec<StrPair>,
}

pub ghost struct HyprlandConfigModel {
    pub parsed: Seq<PairModel>,
    pub categories: Seq<PairModel>,
    pub pending: Seq<PairModel>,
}

impl View for HyprlandConfig {
    type V = HyprlandConfigModel;

    open spec fn view(&self) -> HyprlandConfigModel {
        HyprlandConfigModel {
            parsed: self.parsed_settings.deep_view(),
            categories: self.category_files.deep_view(),
            pending: self.pending_changes.deep_view(),
        }
    }
}

/// What `get_setting` answers: a pending change first, else the parsed
/// value.
pub open spec fn setting_lookup(cfg: HyprlandConfigModel, name: Seq<char>) -> Option<Seq<char>> {
    match assoc_lookup(cfg.pending, name) {
        Some(v) => Some(v),
        None => assoc_lookup(cfg.parsed, name),
    }
}

impl HyprlandConfig {
    /// A store with nothing parsed and nothing pending.
    pub fn new() -> (r: HyprlandConfig)
        ensures
            r@.parsed.len() == 0,
            r@.categories.len() == 0,
            r@.pending.len() == 0,
    {
        HyprlandConfig {
            parsed_settings: Vec::new(),
            category_files: Vec::new(),
            pending_changes: Vec::new(),
        }
    }

    /// Folds one file's text into the parsed settings: each assignment's
    /// flattened `section.key` name takes the assigned value, later
    /// occurrences overwriting earlier ones; categories and pending
    /// changes are untouched.
    pub fn parse_file_content(&mut self, content: &str)
        ensures
            final(self)@.parsed == settings_content(old(self)@.parsed, content@),
            final(self)@.categories == old(self)@.categories,
            final(self)@.pending == old(self)@.pending,
    {
        let ghost st0 = SettingsState { section: Seq::empty(), map: self@.parsed };
        let ghost cats0 = self@.categories;
        let ghost pend0 = self@.pending;
        let lines = split_str_lines(content);
        let mut section = String::new();
        let mut i: usize = 0;
        while i < lines.len()
            invariant
                0 <= i <= lines.len(),
                lines.deep_view() == split_lines(content@),
                ({
                    let st = settings_prefix(st0, lines.deep_view(), i as int);
                    st.section == section@ && st.map == self@.parsed
                }),
                self@.categories == cats0,
                self@.pending == pend0,
            decreases lines.len() - i,
        {
            let ghost st_before = settings_prefix(st0, lines.deep_view(), i as int);
            let line_text = &lines[i];
            proof {
                assert(line_text@ == lines.deep_view()[i as int]);
            }
            let parsed = classify_str(line_text.as_str());
            match parsed {
                Line::SectionOpen { name } => {
                    section = name;
                },
                Line::SectionClose => {
                    section = String::new();
                },
                Line::Assignment { key, value } => {
                    let qualified: String = if section.unicode_len() == 0 {
                        key
                    } else {
                        let mut q = section.clone();
                        q.append(".");
                        q.append(key.as_str());
                        proof {
                            reveal_strlit(".");
                            assert(q@ =~= section@ + seq!['.'] + key@);
                        }
                        q
                    };
                    pairs_insert(&mut self.parsed_settings, qualified.as_str(), value.as_str());
                },
                _ => {},
            }
            i = i + 1;
        }
    }

    /// The value the store answers for `name`: a pending change first,
    /// else the parsed value, else nothing.
    pub fn get_setting(&self, name: &str) -> (r: Option<&String>)
        ensures
            match r {
                Some(v) => setting_lookup(self@, name@) == Some(v@),
                None => setting_lookup(self@, name@) is None,
            },
    {
        match pairs_lookup(&self.pending_changes, name) {
            Some(v) => Some(v),
            None => pairs_lookup(&self.parsed_settings, name),
        }
    }

    /// Whether the setting reads as a truthy word (`true`, `1`, `yes`,
    /// `on`, any letter case); an unset setting reads false.
    pub fn get_bool_setting(&self, name: &str) -> (r: bool)
        ensures
            r == match setting_lookup(self@, name@) {
                Some(v) => truthy(v),
                None => false,
            },
    {
        match self.get_setting(name) {
            None => false,
            Some(v) => {
                let t = trim_str(v.as_str());
                proof {
                    reveal_strlit("true");
                    reveal_strlit("1");
                    reveal_strlit("yes");
                    reveal_strlit("on");
                    assert("true"@ =~= seq!['t', 'r', 'u', 'e']);
                    assert("1"@ =~= seq!['1']);
                    assert("yes"@ =~= seq!['y', 'e', 's']);
                    assert("on"@ =~= seq!['o', 'n']);
                }
                if str_eq_ci(t, "true") {
                    true
                } else if str_eq_ci(t, "1") {
                    true
                } else if str_eq_ci(t, "yes") {
                    true
                } else {
                    str_eq_ci(t, "on")
                }
            },
        }
    }

    /// Records a change in memory only: `get_setting` answers it at once,
    /// every other name is untouched, and nothing is written anywhere.
    pub fn update_setting_in_memory(&mut self, name: &str, value: &str)
        ensures
            final(self)@.pending == assoc_insert(old(self)@.pending, name@, value@),
            final(self)@.parsed == old(self)@.parsed,
            final(self)@.categories == old(self)@.categories,
            forall|n: Seq<char>| setting_lookup(final(self)@, n) == if n == name@ {
                Some(value@)
            } else {
                setting_lookup(old(self)@, n)
            },
    {
        pairs_insert(&mut self.pending_changes, name, value);
        proof {
            assert forall|n: Seq<char>|
                setting_lookup(self@, n) == (if n == name@ {
                    Some(value@)
                } else {
                    setting_lookup(old(self)@, n)
                }) by {
                lemma_assoc_lookup_insert(old(self)@.pending, name@, value@, n);
            }
        }
    }

    /// Whether any change is waiting to be written out.
    pub fn has_pending_changes(&self) -> (r: bool)
        ensures
            r == (self@.pending.len() != 0),
    {
        self.pending_changes.len() != 0
    }

    /// Every parsed setting, in insertion order.
    pub fn get_all_settings(&self) -> (r: &Vec<StrPair>)
        ensures
            r.deep_view() == self@.parsed,
    {
        &self.parsed_settings
    }

    /// The changes recorded in memory, in insertion order.
    pub fn pending_settings(&self) -> (r: &Vec<StrPair>)
        ensures
            r.deep_view() == self@.pending,
    {
        &self.pending_changes
    }

    /// Remembers which file a category's settings came from.
    pub fn register_category_file(&mut self, category: &str, path: &str)
        ensures
            final(self)@.categories == assoc_insert(old(self)@.categories, category@, path@),
            final(self)@.parsed == old(self)@.parsed,
            final(self)@.pending == old(self)@.pending,
    {
        pairs_insert(&mut self.category_files, category, path);
    }

    /// The file a category's settings came from, when one was recorded.
    pub fn category_file(&self, category: &str) -> (r: Option<&String>)
        ensures
            match r {
                Some(p) => assoc_lookup(self@.categories, category@) == Some(p@),
                None => assoc_lookup(self@.categories, category@) is None,
            },
    {
        pairs_lookup(&self.category_files, category)
    }

    /// The settings of one category, keyed by their short names, parsed
    /// values first and pending changes shadowing them.
    pub fn get_category_settings(&self, category: &str) -> (r: Vec<StrPair>)
        ensures
            r.deep_view() == category_fold(
                category_fold(Seq::empty(), self@.parsed, category@, self@.parsed.len() as int),
                self@.pending,
                category@,
                self@.pending.len() as int,
            ),
    {
        let mut prefix = String::from_str(category);
        prefix.append(".");
        proof {
            reveal_strlit(".");
            assert(prefix@ =~= category@ + seq!['.']);
        }
        let mut r: Vec<StrPair> = Vec::new();
        proof {
            assert(r.deep_view() =~= Seq::<PairModel>::empty());
        }
        category_pass(&mut r, &self.parsed_settings, prefix.as_str(), category);
        category_pass(&mut r, &self.pending_changes, prefix.as_str(), category);
        r
    }
}

/// Accumulates into `acc` the pairs of the first `n` entries whose key
/// starts with `cat` and a dot, under their short names.
pub open spec fn category_fold(
    acc: Seq<PairModel>,
    pairs: Seq<PairModel>,
    cat: Seq<char>,
    n: int,
) -> Seq<PairModel>
    decreases n,
{
    if n <= 0 {
        acc
    } else {
        let prev = category_fold(acc, pairs, cat, n - 1);
        let p = pairs[n - 1];
        if has_prefix(p.key, cat + seq!['.']) {
            assoc_insert(prev, p.key.skip(cat.len() as int + 1), p.value)
        } else {
            prev
        }
    }
}

fn category_pass(r: &mut Vec<StrPair>, pairs: &Vec<StrPair>, prefix: &str, category: &str)
    requires
        prefix@ == category@ + seq!['.'],
    ensures
        final(r).deep_view() == category_fold(
            old(r).deep_view(),
            pairs.deep_view(),
            category@,
            pairs.deep_view().len() as int,
        ),
{
    let ghost acc0 = r.deep_view();
    let ghost pv = pairs.deep_view();
    let mut i: usize = 0;
    while i < pairs.len()
        invariant
            0 <= i <= pairs.len(),
            pv == pairs.deep_view(),
            prefix@ == category@ + seq!['.'],
            r.deep_view() == category_fold(acc0, pv, category@, i as int),
        decreases pairs.len() - i,
    {
        let p = &pairs[i];
        if has_prefix_str(p.key.as_str(), prefix) {
            let n = p.key.as_str().unicode_len();
            let short = p.key.as_str().substring_char(prefix.unicode_len(), n);
            proof {
                assert(short@ =~= pv[i as int].key.skip(category@.len() as int + 1));
            }
            pairs_insert(r, short, p.value.as_str());
        }
        i = i + 1;
    }
}

} // verus!
