//! What a compilation gives back.

use crate::compilation_job::clone_strings;
use crate::declaration::{Declaration, DeclarationView};
use crate::diagnostic::{Diagnostic, DiagnosticView};
use crate::string_map::StringMap;
use vstd::prelude::*;

verus! {

/// What the table of strings knows about a line.
#[derive(Debug, PartialEq, Eq)]
pub struct StringInfo {
    /// The text that the user sees.
    pub text: String,
    /// The title of the node that holds the line.
    pub node_name: String,
    /// The line of the source on which the line stands, counted from 1.
    pub line_number: usize,
    /// The file that holds the line.
    pub file_name: String,
    /// The tags on the line.
    pub metadata: Vec<String>,
}

/// The mathematical value of a [`StringInfo`].
pub struct StringInfoView {
    pub text: Seq<char>,
    pub node_name: Seq<char>,
    pub line_number: usize,
    pub file_name: Seq<char>,
    pub metadata: Seq<Seq<char>>,
}

impl DeepView for StringInfo {
    type V = StringInfoView;

    open spec fn deep_view(&self) -> StringInfoView {
        StringInfoView {
            text: self.text@,
            node_name: self.node_name@,
            line_number: self.line_number,
            file_name: self.file_name@,
            metadata: self.metadata.deep_view(),
        }
    }
}

impl Clone for StringInfo {
    fn clone(&self) -> (copy: StringInfo)
        ensures
            copy.deep_view() == self.deep_view(),
    {
        StringInfo {
            text: self.text.clone(),
            node_name: self.node_name.clone(),
            line_number: self.line_number,
            file_name: self.file_name.clone(),
            metadata: clone_strings(&self.metadata),
        }
    }
}

/// The outcome of a compilation.
#[derive(Debug)]
pub struct CompilationResult {
    /// What there is to report, in the order in which it was found.
    pub diagnostics: Vec<Diagnostic>,
    /// The variables: those that the source declares, then those that the
    /// compiler has made up.
    pub declarations: Vec<Declaration>,
    /// The lines of dialogue by their identifiers.
    pub string_table: StringMap<StringInfo>,
    /// The tags of each file by the file's name.
    pub file_tags: StringMap<Vec<String>>,
}

/// The mathematical value of a [`CompilationResult`].
pub struct CompilationResultView {
    pub diagnostics: Seq<DiagnosticView>,
    pub declarations: Seq<DeclarationView>,
    pub string_table: Map<Seq<char>, StringInfoView>,
    /// The identifiers in the table of strings, in the order in which the
    /// table lists them.
    pub line_ids: Seq<Seq<char>>,
    pub file_tags: Map<Seq<char>, Seq<Seq<char>>>,
    /// The names of the files that have tags on record, in the order in which
    /// the record lists them.
    pub file_names: Seq<Seq<char>>,
}

impl CompilationResultView {
    /// The outcome that holds nothing.
    pub open spec fn empty() -> CompilationResultView {
        CompilationResultView {
            diagnostics: Seq::empty(),
            declarations: Seq::empty(),
            string_table: Map::empty(),
            line_ids: Seq::empty(),
            file_tags: Map::empty(),
            file_names: Seq::empty(),
        }
    }
}

impl DeepView for CompilationResult {
    type V = CompilationResultView;

    open spec fn deep_view(&self) -> CompilationResultView {
        CompilationResultView {
            diagnostics: self.diagnostics.deep_view(),
            declarations: self.declarations.deep_view(),
            string_table: self.string_table.deep_view(),
            line_ids: self.string_table.keys(),
            file_tags: self.file_tags.deep_view(),
            file_names: self.file_tags.keys(),
        }
    }
}

impl Default for CompilationResult {
    fn default() -> (result: CompilationResult)
        ensures
            result.deep_view() == CompilationResultView::empty(),
    {
        let result = CompilationResult {
            diagnostics: Vec::new(),
            declarations: Vec::new(),
            string_table: StringMap::new(),
            file_tags: StringMap::new(),
        };
        assert(result.diagnostics.deep_view() =~= Seq::empty());
        assert(result.declarations.deep_view() =~= Seq::empty());
        assert(result.string_table.deep_view() =~= Map::empty());
        assert(result.file_tags.deep_view() =~= Map::empty());
        result
    }
}

} // verus!
