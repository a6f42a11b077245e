//! What a compilation works on: the files of a job, each with what the
//! grammar's parser and the walkers of its tree have found in it.

use crate::declaration::{Declaration, DeclarationView};
use crate::diagnostic::{Diagnostic, DiagnosticView};
use crate::library::Library;
use vstd::prelude::*;

verus! {

/// A line of dialogue as it stands in the tree of a file.
#[derive(Debug, PartialEq, Eq)]
pub struct LineStatement {
    /// The stable identifier of the line.
    pub line_id: String,
    /// The text that the user sees.
    pub text: String,
    /// The title of the node that holds the line.
    pub node_name: String,
    /// The line of the source on which the statement starts, counted from 1.
    pub line_number: usize,
    /// The tags on the line, but for the one that gives the identifier.
    pub hashtags: Vec<String>,
    /// Whether a group of options follows the line directly.
    pub precedes_options: bool,
}

/// The mathematical value of a [`LineStatement`].
pub struct LineStatementView {
    pub line_id: Seq<char>,
    pub text: Seq<char>,
    pub node_name: Seq<char>,
    pub line_number: usize,
    pub hashtags: Seq<Seq<char>>,
    pub precedes_options: bool,
}

impl DeepView for LineStatement {
    type V = LineStatementView;

    open spec fn deep_view(&self) -> LineStatementView {
        LineStatementView {
            line_id: self.line_id@,
            text: self.text@,
            node_name: self.node_name@,
            line_number: self.line_number,
            hashtags: self.hashtags.deep_view(),
            precedes_options: self.precedes_options,
        }
    }
}

/// A copy of a list of strings.
pub fn clone_strings(strings: &Vec<String>) -> (copy: Vec<String>)
    ensures
        copy.deep_view() == strings.deep_view(),
{
    strings.clone()
}

/// A copy of a list of diagnostics.
pub fn clone_diagnostics(diagnostics: &Vec<Diagnostic>) -> (copy: Vec<Diagnostic>)
    ensures
        copy.deep_view() == diagnostics.deep_view(),
{
    diagnostics.clone()
}

/// A copy of a list of declarations.
pub fn clone_declarations(declarations: &Vec<Declaration>) -> (copy: Vec<Declaration>)
    ensures
        copy.deep_view() == declarations.deep_view(),
{
    declarations.clone()
}

impl Clone for LineStatement {
    fn clone(&self) -> (copy: LineStatement)
        ensures
            copy.deep_view() == self.deep_view(),
    {
        LineStatement {
            line_id: self.line_id.clone(),
            text: self.text.clone(),
            node_name: self.node_name.clone(),
            line_number: self.line_number,
            hashtags: clone_strings(&self.hashtags),
            precedes_options: self.precedes_options,
        }
    }
}

/// What the tree of one file holds, as far as a compilation reads it.
#[derive(Debug, PartialEq, Eq)]
pub struct ParseTree {
    /// What the lexer and the parser reported while they built the tree.
    pub diagnostics: Vec<Diagnostic>,
    /// The lines of dialogue, in the order of the source.
    pub lines: Vec<LineStatement>,
    /// The declaration statements, in the order of the source.
    pub declarations: Vec<Declaration>,
    /// What there is to report about the declaration statements.
    pub declaration_diagnostics: Vec<Diagnostic>,
    /// The tags of the file as a whole.
    pub file_tags: Vec<String>,
    /// The titles of the nodes for which the file asks that visits be counted.
    pub tracking_nodes: Vec<String>,
    /// The titles of the nodes that the file marks as not to be tracked.
    pub ignoring_nodes: Vec<String>,
}

/// The mathematical value of a [`ParseTree`].
pub struct ParseTreeView {
    pub diagnostics: Seq<DiagnosticView>,
    pub lines: Seq<LineStatementView>,
    pub declarations: Seq<DeclarationView>,
    pub declaration_diagnostics: Seq<DiagnosticView>,
    pub file_tags: Seq<Seq<char>>,
    pub tracking_nodes: Seq<Seq<char>>,
    pub ignoring_nodes: Seq<Seq<char>>,
}

impl DeepView for ParseTree {
    type V = ParseTreeView;

    open spec fn deep_view(&self) -> ParseTreeView {
        ParseTreeView {
            diagnostics: self.diagnostics.deep_view(),
            lines: self.lines.deep_view(),
            declarations: self.declarations.deep_view(),
            declaration_diagnostics: self.declaration_diagnostics.deep_view(),
            file_tags: self.file_tags.deep_view(),
            tracking_nodes: self.tracking_nodes.deep_view(),
            ignoring_nodes: self.ignoring_nodes.deep_view(),
        }
    }
}

/// A file of a job.
#[derive(Debug, PartialEq, Eq)]
pub struct File {
    pub file_name: String,
    /// The complete text of the file.
    pub source: String,
    /// What the grammar's parser has made of the text.
    pub tree: ParseTree,
}

/// The mathematical value of a [`File`].
pub struct FileView {
    pub file_name: Seq<char>,
    pub source: Seq<char>,
    pub tree: ParseTreeView,
}

impl DeepView for File {
    type V = FileView;

    open spec fn deep_view(&self) -> FileView {
        FileView { file_name: self.file_name@, source: self.source@, tree: self.tree.deep_view() }
    }
}

/// How far a compilation is to go.
#[derive(Clone, Copy, Debug, PartialEq, Eq, Structural)]
pub enum CompilationType {
    /// Everything.
    FullCompilation,
    /// No further than the declarations.
    DeclarationsOnly,
    /// No further than the table of strings.
    StringsOnly,
}

/// What there is to compile.
#[derive(Debug)]
pub struct CompilationJob {
    /// The files, in the order in which they are to be read.
    pub files: Vec<File>,
    /// The functions that the scripts may call.
    pub library: Option<Library>,
    pub compilation_type: CompilationType,
    /// Declarations of variables that are known from elsewhere.
    pub variable_declarations: Vec<Declaration>,
}

/// The mathematical value of a [`CompilationJob`].
pub struct CompilationJobView {
    pub files: Seq<FileView>,
    pub library: Option<Map<Seq<char>, usize>>,
    pub compilation_type: CompilationType,
    pub variable_declarations: Seq<DeclarationView>,
}

impl DeepView for CompilationJob {
    type V = CompilationJobView;

    open spec fn deep_view(&self) -> CompilationJobView {
        CompilationJobView {
            files: self.files.deep_view(),
            library: match self.library {
                Some(library) => Some(library@),
                None => None,
            },
            compilation_type: self.compilation_type,
            variable_declarations: self.variable_declarations.deep_view(),
        }
    }
}

} // verus!
