//! The data model of a resolved configuration: entries with provenance,
//! source references, the variable table, and the view that one
//! resolution pass produces.

use vstd::prelude::*;

verus! {

/// One resolved assignment with exact provenance.
#[derive(Clone, Debug, PartialEq, Eq)]
pub struct ConfigEntry {
    /// `section.key`, or the bare key outside any section.
    pub qualified_name: String,
    /// Right-hand side, trimmed of surrounding whitespace.
    pub value: String,
    /// Path of the entry's file, as the walker recorded it.
    pub source_file: String,
    /// 1-based line position within `source_file` at parse time.
    pub line_number: usize,
    /// The exact, unmodified line text, for provenance-checked rewriting.
    pub original_line: String,
}

/// The mathematical shape of one entry.
pub ghost struct EntryModel {
    pub qualified_name: Seq<char>,
    pub value: Seq<char>,
    pub source_file: Seq<char>,
    pub line_number: int,
    pub original_line: Seq<char>,
}

impl View for ConfigEntry {
    type V = EntryModel;

    open spec fn view(&self) -> EntryModel {
        EntryModel {
            qualified_name: self.qualified_name@,
            value: self.value@,
            source_file: self.source_file@,
            line_number: self.line_number as int,
            original_line: self.original_line@,
        }
    }
}

impl DeepView for ConfigEntry {
    type V = EntryModel;

    open spec fn deep_view(&self) -> EntryModel {
        self@
    }
}

/// One discovered `source = <path>` directive.
#[derive(Clone, Debug, PartialEq, Eq)]
pub struct SourceRef {
    /// The path exactly as written after the `=`.
    pub raw_path: String,
    /// The file whose text holds the directive.
    pub declaring_file: String,
    /// The existing file the path resolved to, or `None` when unresolved.
    pub resolved_path: Option<String>,
}

pub ghost struct SourceRefModel {
    pub raw_path: Seq<char>,
    pub declaring_file: Seq<char>,
    pub resolved_path: Option<Seq<char>>,
}

impl View for SourceRef {
    type V = SourceRefModel;

    open spec fn view(&self) -> SourceRefModel {
        SourceRefModel {
            raw_path: self.raw_path@,
            declaring_file: self.declaring_file@,
            resolved_path: match self.resolved_path {
                Some(ref p) => Some(p@),
                None => None,
            },
        }
    }
}

impl DeepView for SourceRef {
    type V = SourceRefModel;

    open spec fn deep_view(&self) -> SourceRefModel {
        self@
    }
}

/// One `$name = value` definition.
#[derive(Clone, Debug, PartialEq, Eq)]
pub struct VarDef {
    /// The name after the `$`.
    pub name: String,
    pub value: String,
}

pub ghost struct VarModel {
    pub name: Seq<char>,
    pub value: Seq<char>,
}

impl View for VarDef {
    type V = VarModel;

    open spec fn view(&self) -> VarModel {
        VarModel { name: self.name@, value: self.value@ }
    }
}

impl DeepView for VarDef {
    type V = VarModel;

    open spec fn deep_view(&self) -> VarModel {
        self@
    }
}

/// The value of the last definition of `name`, later definitions anywhere
/// in the graph shadowing earlier ones.
pub open spec fn var_lookup(vars: Seq<VarModel>, name: Seq<char>) -> Option<Seq<char>>
    decreases vars.len(),
{
    if vars.len() == 0 {
        None
    } else if vars.last().name == name {
        Some(vars.last().value)
    } else {
        var_lookup(vars.drop_last(), name)
    }
}

/// `section.key`, or the bare key when outside any section.
pub open spec fn qualify(section: Seq<char>, key: Seq<char>) -> Seq<char> {
    if section.len() == 0 {
        key
    } else {
        section + seq!['.'] + key
    }
}

/// The complete, queryable result of one resolution pass.
#[derive(Clone, Debug, PartialEq, Eq)]
pub struct ConfigurationView {
    /// Every assignment, in document order over the walked files.
    pub entries: Vec<ConfigEntry>,
    /// Every source directive seen, resolved or not.
    pub sources: Vec<SourceRef>,
    /// Every variable definition, in document order.
    pub variables: Vec<VarDef>,
    /// Canonical identities of the files parsed, in the order parsed.
    pub processed: Vec<String>,
}

pub ghost struct ConfigurationModel {
    pub entries: Seq<EntryModel>,
    pub sources: Seq<SourceRefModel>,
    pub variables: Seq<VarModel>,
    pub processed: Seq<Seq<char>>,
}

impl View for ConfigurationView {
    type V = ConfigurationModel;

    open spec fn view(&self) -> ConfigurationModel {
        ConfigurationModel {
            entries: self.entries.deep_view(),
            sources: self.sources.deep_view(),
            variables: self.variables.deep_view(),
            processed: self.processed.deep_view(),
        }
    }
}

impl ConfigurationView {
    /// A view with nothing parsed yet.
    pub fn new() -> (r: ConfigurationView)
        ensures
            r@.entries.len() == 0,
            r@.sources.len() == 0,
            r@.variables.len() == 0,
            r@.processed.len() == 0,
    {
        ConfigurationView {
            entries: Vec::new(),
            sources: Vec::new(),
            variables: Vec::new(),
            processed: Vec::new(),
        }
    }
}

} // verus!
