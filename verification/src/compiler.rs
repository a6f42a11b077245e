//! The passes of a compilation, and the compilation as a whole.
//!
//! A compilation runs four passes over the files of a job, in a fixed order,
//! and threads one state through them:
//! 1. [`register_strings`] enters the lines of every file into the table of
//!    strings,
//! 2. [`get_declarations`] gathers the declarations and the tags of every file,
//! 3. [`find_tracking_nodes`] works out for which nodes visits are counted,
//! 4. [`add_tracking_declarations`] declares a counter for each such node.
//!
//! Whatever goes wrong is reported in the diagnostics; a compilation always
//! runs to its end.

use crate::compilation_job::{
    clone_declarations, clone_diagnostics, clone_strings, CompilationJob, CompilationJobView,
    File, FileView, LineStatement, LineStatementView, ParseTree, ParseTreeView,
};
use crate::declaration::{Declaration, DeclarationOrigin, DeclarationView, Type};
use crate::diagnostic::{Diagnostic, DiagnosticSeverity, DiagnosticView};
use crate::library::{visited_variable_name, Library};
use crate::output::{CompilationResult, CompilationResultView, StringInfo, StringInfoView};
use crate::yarn_value::{YarnValue, YarnValueView, ZERO};
use vstd::prelude::*;
use vstd::string::StringExecFns;

verus! {

/// The tree of a file as the passes keep it.
#[derive(Debug, PartialEq, Eq)]
pub struct FileParseResult {
    /// The name of the file.
    pub name: String,
    /// The tree of the file, with the tags that the first pass has put on its
    /// lines.
    pub tree: ParseTree,
}

/// The mathematical value of a [`FileParseResult`].
pub struct FileParseResultView {
    pub name: Seq<char>,
    pub tree: ParseTreeView,
}

impl DeepView for FileParseResult {
    type V = FileParseResultView;

    open spec fn deep_view(&self) -> FileParseResultView {
        FileParseResultView { name: self.name@, tree: self.tree.deep_view() }
    }
}

/// What the passes hand on to each other.
pub struct CompilationIntermediate<'input> {
    pub job: &'input CompilationJob,
    pub result: CompilationResult,
    pub known_variable_declarations: Vec<Declaration>,
    pub derived_variable_declarations: Vec<Declaration>,
    pub parsed_files: Vec<FileParseResult>,
    /// The titles of the nodes for which visits are counted, each once.
    pub tracking_nodes: Vec<String>,
}

/// The mathematical value of a [`CompilationIntermediate`].
pub struct CompilationIntermediateView {
    pub job: CompilationJobView,
    pub result: CompilationResultView,
    pub known_variable_declarations: Seq<DeclarationView>,
    pub derived_variable_declarations: Seq<DeclarationView>,
    pub parsed_files: Seq<FileParseResultView>,
    pub tracking_nodes: Seq<Seq<char>>,
}

impl<'input> DeepView for CompilationIntermediate<'input> {
    type V = CompilationIntermediateView;

    open spec fn deep_view(&self) -> CompilationIntermediateView {
        CompilationIntermediateView {
            job: self.job.deep_view(),
            result: self.result.deep_view(),
            known_variable_declarations: self.known_variable_declarations.deep_view(),
            derived_variable_declarations: self.derived_variable_declarations.deep_view(),
            parsed_files: self.parsed_files.deep_view(),
            tracking_nodes: self.tracking_nodes.deep_view(),
        }
    }
}

// ---------------------------------------------------------------------------
// The first pass
// ---------------------------------------------------------------------------

/// The tag that marks the last line before a group of options.
pub open spec fn last_line_tag() -> Seq<char> {
    "lastline"@
}

/// A line with the tag that the first pass puts on it: a line that a group of
/// options follows directly is marked as the last line before them.
pub open spec fn tagged_line(line: LineStatementView) -> LineStatementView {
    if line.precedes_options {
        LineStatementView { hashtags: line.hashtags.push(last_line_tag()), ..line }
    } else {
        line
    }
}

/// A tree whose lines are all tagged.
pub open spec fn tagged_tree(tree: ParseTreeView) -> ParseTreeView {
    ParseTreeView { lines: tree.lines.map_values(|line: LineStatementView| tagged_line(line)), ..tree }
}

/// What the first pass keeps of a file.
pub open spec fn parsed_file(file: FileView) -> FileParseResultView {
    FileParseResultView { name: file.file_name, tree: tagged_tree(file.tree) }
}

/// What the table of strings holds about a line of the given file.
pub open spec fn string_info(file_name: Seq<char>, line: LineStatementView) -> StringInfoView {
    StringInfoView {
        text: line.text,
        node_name: line.node_name,
        line_number: line.line_number,
        file_name,
        metadata: line.hashtags,
    }
}

/// The report of a line whose identifier the table of strings holds already.
pub open spec fn duplicate_line_id(file_name: Seq<char>, line: LineStatementView) -> DiagnosticView {
    DiagnosticView {
        file_name: Some(file_name),
        range: None,
        message: "Duplicate line ID "@ + line.line_id,
        context: None,
        severity: DiagnosticSeverity::Error,
        start_line: line.line_number,
    }
}

/// The outcome once a line is entered: a line whose identifier is new goes
/// into the table; any other is reported and the table stays as it is.
pub open spec fn register_line(
    result: CompilationResultView,
    file_name: Seq<char>,
    line: LineStatementView,
) -> CompilationResultView {
    if result.string_table.contains_key(line.line_id) {
        CompilationResultView {
            diagnostics: result.diagnostics.push(duplicate_line_id(file_name, line)),
            ..result
        }
    } else {
        CompilationResultView {
            string_table: result.string_table.insert(line.line_id, string_info(file_name, line)),
            line_ids: result.line_ids.push(line.line_id),
            ..result
        }
    }
}

/// The outcome once the given lines are entered, one after the other.
pub open spec fn register_lines(
    result: CompilationResultView,
    file_name: Seq<char>,
    lines: Seq<LineStatementView>,
) -> CompilationResultView
    decreases lines.len(),
{
    if lines.len() == 0 {
        result
    } else {
        register_line(register_lines(result, file_name, lines.drop_last()), file_name, lines.last())
    }
}

/// The outcome once a file has gone through the first pass: what was reported
/// while its tree was built comes first, then its tagged lines are entered.
pub open spec fn register_file(result: CompilationResultView, file: FileView) -> CompilationResultView {
    register_lines(
        CompilationResultView { diagnostics: result.diagnostics + file.tree.diagnostics, ..result },
        file.file_name,
        tagged_tree(file.tree).lines,
    )
}

/// The outcome once the given files have gone through the first pass, one
/// after the other.
pub open spec fn register_files(
    result: CompilationResultView,
    files: Seq<FileView>,
) -> CompilationResultView
    decreases files.len(),
{
    if files.len() == 0 {
        result
    } else {
        register_file(register_files(result, files.drop_last()), files.last())
    }
}

/// What the first pass keeps of the given files, in the same order.
pub open spec fn parsed_files(files: Seq<FileView>) -> Seq<FileParseResultView> {
    files.map_values(|file: FileView| parsed_file(file))
}

/// The state after the first pass.
pub open spec fn strings_registered(
    state: CompilationIntermediateView,
) -> CompilationIntermediateView {
    CompilationIntermediateView {
        result: register_files(state.result, state.job.files),
        parsed_files: state.parsed_files + parsed_files(state.job.files),
        ..state
    }
}

// ---------------------------------------------------------------------------
// The second pass
// ---------------------------------------------------------------------------

/// The outcome once the declarations of a file are gathered.
pub open spec fn declare_file(
    result: CompilationResultView,
    file: FileParseResultView,
) -> CompilationResultView {
    CompilationResultView {
        diagnostics: result.diagnostics + file.tree.declaration_diagnostics,
        declarations: result.declarations + file.tree.declarations,
        file_tags: result.file_tags.insert(file.name, file.tree.file_tags),
        file_names: if result.file_tags.contains_key(file.name) {
            result.file_names
        } else {
            result.file_names.push(file.name)
        },
        ..result
    }
}

/// The outcome once the declarations of the given files are gathered, one
/// file after the other.
pub open spec fn declare_files(
    result: CompilationResultView,
    files: Seq<FileParseResultView>,
) -> CompilationResultView
    decreases files.len(),
{
    if files.len() == 0 {
        result
    } else {
        declare_file(declare_files(result, files.drop_last()), files.last())
    }
}

/// The state after the second pass.
pub open spec fn declarations_gathered(
    state: CompilationIntermediateView,
) -> CompilationIntermediateView {
    CompilationIntermediateView {
        result: declare_files(state.result, state.parsed_files),
        ..state
    }
}

// ---------------------------------------------------------------------------
// The third pass
// ---------------------------------------------------------------------------

/// The titles for which the given files ask that visits be counted, file
/// after file.
pub open spec fn requested_nodes(files: Seq<FileParseResultView>) -> Seq<Seq<char>>
    decreases files.len(),
{
    if files.len() == 0 {
        Seq::empty()
    } else {
        requested_nodes(files.drop_last()) + files.last().tree.tracking_nodes
    }
}

/// The titles that the given files mark as not to be tracked, file after
/// file.
pub open spec fn opted_out_nodes(files: Seq<FileParseResultView>) -> Seq<Seq<char>>
    decreases files.len(),
{
    if files.len() == 0 {
        Seq::empty()
    } else {
        opted_out_nodes(files.drop_last()) + files.last().tree.ignoring_nodes
    }
}

/// The titles with each kept where it stands first, and those in `unwanted`
/// left out.
pub open spec fn first_occurrences_outside(
    titles: Seq<Seq<char>>,
    unwanted: Seq<Seq<char>>,
) -> Seq<Seq<char>>
    decreases titles.len(),
{
    if titles.len() == 0 {
        Seq::empty()
    } else {
        let before = first_occurrences_outside(titles.drop_last(), unwanted);
        if before.contains(titles.last()) || unwanted.contains(titles.last()) {
            before
        } else {
            before.push(titles.last())
        }
    }
}

/// The nodes for which visits are counted: those that some file asks for and
/// no file opts out of, each once, in the order in which they are first asked
/// for.
pub open spec fn tracked_nodes(files: Seq<FileParseResultView>) -> Seq<Seq<char>> {
    first_occurrences_outside(requested_nodes(files), opted_out_nodes(files))
}

/// The state after the third pass.
pub open spec fn tracking_nodes_found(
    state: CompilationIntermediateView,
) -> CompilationIntermediateView {
    CompilationIntermediateView { tracking_nodes: tracked_nodes(state.parsed_files), ..state }
}

// ---------------------------------------------------------------------------
// The fourth pass
// ---------------------------------------------------------------------------

/// The declaration of the variable that counts the visits to a node: a
/// number that starts at zero.
pub open spec fn tracking_declaration(node: Seq<char>) -> DeclarationView {
    DeclarationView {
        name: visited_variable_name(node),
        default_value: Some(YarnValueView::Number(ZERO)),
        description: Some("The generated variable for tracking visits of node "@ + node),
        value_type: Some(Type::Number),
        origin: DeclarationOrigin::Derived,
    }
}

/// The declarations for the given nodes, in the same order.
pub open spec fn tracking_declarations(nodes: Seq<Seq<char>>) -> Seq<DeclarationView> {
    nodes.map_values(|node: Seq<char>| tracking_declaration(node))
}

/// The state after the fourth pass.
pub open spec fn tracking_declarations_added(
    state: CompilationIntermediateView,
) -> CompilationIntermediateView {
    CompilationIntermediateView {
        known_variable_declarations: state.known_variable_declarations + tracking_declarations(
            state.tracking_nodes,
        ),
        derived_variable_declarations: state.derived_variable_declarations
            + tracking_declarations(state.tracking_nodes),
        ..state
    }
}

// ---------------------------------------------------------------------------
// The compilation
// ---------------------------------------------------------------------------

/// The state in which a compilation of the job starts.
pub open spec fn initial_state(job: CompilationJobView) -> CompilationIntermediateView {
    CompilationIntermediateView {
        job,
        result: CompilationResultView::empty(),
        known_variable_declarations: Seq::empty(),
        derived_variable_declarations: Seq::empty(),
        parsed_files: Seq::empty(),
        tracking_nodes: Seq::empty(),
    }
}

/// The state after all four passes.
pub open spec fn compiled_state(job: CompilationJobView) -> CompilationIntermediateView {
    tracking_declarations_added(
        tracking_nodes_found(declarations_gathered(strings_registered(initial_state(job)))),
    )
}

/// The outcome of compiling the job: what the passes have gathered, with the
/// declarations that the compiler has made up behind those of the source.
pub open spec fn compiled(job: CompilationJobView) -> CompilationResultView {
    let state = compiled_state(job);
    CompilationResultView {
        declarations: state.result.declarations + state.derived_variable_declarations,
        ..state.result
    }
}

// ---------------------------------------------------------------------------
// What holds of every compilation
// ---------------------------------------------------------------------------

/// A sequence with one more element holds what it held before, and that
/// element.
pub proof fn lemma_contains_after_push<T>(items: Seq<T>, item: T)
    ensures
        forall|wanted: T| items.push(item).contains(wanted) <==> items.contains(wanted) || wanted == item,
{
    assert forall|wanted: T| items.push(item).contains(wanted) <==> items.contains(wanted) || wanted
        == item by {
        if items.push(item).contains(wanted) {
            let i = choose|i: int| 0 <= i < items.len() + 1 && #[trigger] items.push(item)[i] == wanted;
            if i < items.len() {
                assert(items[i] == wanted);
            }
        }
        if items.contains(wanted) {
            let i = choose|i: int| 0 <= i < items.len() && #[trigger] items[i] == wanted;
            assert(items.push(item)[i] == wanted);
        }
        if wanted == item {
            assert(items.push(item)[items.len() as int] == wanted);
        }
    }
}

/// A sequence without repeats stays without repeats when an element that it
/// does not hold is added.
pub proof fn lemma_no_duplicates_after_push<T>(items: Seq<T>, item: T)
    requires
        items.no_duplicates(),
        !items.contains(item),
    ensures
        items.push(item).no_duplicates(),
{
    assert forall|i: int, j: int|
        0 <= i < items.len() + 1 && 0 <= j < items.len() + 1 && i != j implies items.push(item)[i]
        != items.push(item)[j] by {
        if i < items.len() {
            assert(items.contains(items[i]));
        }
        if j < items.len() {
            assert(items.contains(items[j]));
        }
    }
}

/// Two sequences in a row hold what either holds.
pub proof fn lemma_contains_after_add<T>(first: Seq<T>, second: Seq<T>)
    ensures
        forall|wanted: T| (first + second).contains(wanted) <==> first.contains(wanted) || second.contains(wanted),
{
    assert forall|wanted: T| (first + second).contains(wanted) <==> first.contains(wanted)
        || second.contains(wanted) by {
        if (first + second).contains(wanted) {
            let i = choose|i: int| 0 <= i < first.len() + second.len() && #[trigger] (first + second)[i] == wanted;
            if i < first.len() {
                assert(first[i] == wanted);
            } else {
                assert(second[i - first.len()] == wanted);
            }
        }
        if first.contains(wanted) {
            let i = choose|i: int| 0 <= i < first.len() && #[trigger] first[i] == wanted;
            assert((first + second)[i] == wanted);
        }
        if second.contains(wanted) {
            let i = choose|i: int| 0 <= i < second.len() && #[trigger] second[i] == wanted;
            assert((first + second)[first.len() + i] == wanted);
        }
    }
}

/// What is kept of a list of titles holds no title twice, and holds exactly
/// the titles of the list that are not unwanted.
pub proof fn lemma_first_occurrences_outside(titles: Seq<Seq<char>>, unwanted: Seq<Seq<char>>)
    ensures
        first_occurrences_outside(titles, unwanted).no_duplicates(),
        forall|title: Seq<char>|
            first_occurrences_outside(titles, unwanted).contains(title) <==> titles.contains(title)
                && !unwanted.contains(title),
    decreases titles.len(),
{
    if titles.len() > 0 {
        let rest = titles.drop_last();
        let before = first_occurrences_outside(rest, unwanted);
        lemma_first_occurrences_outside(rest, unwanted);
        lemma_contains_after_push(before, titles.last());
        lemma_contains_after_push(rest, titles.last());
        assert(rest.push(titles.last()) =~= titles);
        assert forall|title: Seq<char>|
            first_occurrences_outside(titles, unwanted).contains(title) <==> titles.contains(title)
                && !unwanted.contains(title) by {
            assert(titles.contains(title) <==> rest.contains(title) || title == titles.last());
            assert(before.contains(title) <==> rest.contains(title) && !unwanted.contains(title));
            assert(before.push(titles.last()).contains(title) <==> before.contains(title) || title
                == titles.last());
        }
    } else {
        assert forall|title: Seq<char>| !titles.contains(title) by {}
        assert forall|title: Seq<char>| !first_occurrences_outside(titles, unwanted).contains(title) by {}
    }
}

/// A title is asked for exactly if some file asks for it, and opted out of
/// exactly if some file opts out of it.
pub proof fn lemma_requests_come_from_files(files: Seq<FileParseResultView>, node: Seq<char>)
    ensures
        requested_nodes(files).contains(node) <==> exists|i: int|
            0 <= i < files.len() && (#[trigger] files[i]).tree.tracking_nodes.contains(node),
        opted_out_nodes(files).contains(node) <==> exists|i: int|
            0 <= i < files.len() && (#[trigger] files[i]).tree.ignoring_nodes.contains(node),
    decreases files.len(),
{
    if files.len() > 0 {
        let rest = files.drop_last();
        lemma_requests_come_from_files(rest, node);
        lemma_contains_after_add(requested_nodes(rest), files.last().tree.tracking_nodes);
        lemma_contains_after_add(opted_out_nodes(rest), files.last().tree.ignoring_nodes);
        if exists|i: int| 0 <= i < rest.len() && (#[trigger] rest[i]).tree.tracking_nodes.contains(node) {
            let i = choose|i: int| 0 <= i < rest.len() && (#[trigger] rest[i]).tree.tracking_nodes.contains(node);
            assert(files[i].tree.tracking_nodes.contains(node));
        }
        if exists|i: int| 0 <= i < rest.len() && (#[trigger] rest[i]).tree.ignoring_nodes.contains(node) {
            let i = choose|i: int| 0 <= i < rest.len() && (#[trigger] rest[i]).tree.ignoring_nodes.contains(node);
            assert(files[i].tree.ignoring_nodes.contains(node));
        }
        if files.last().tree.tracking_nodes.contains(node) {
            assert(files[files.len() - 1].tree.tracking_nodes.contains(node));
        }
        if files.last().tree.ignoring_nodes.contains(node) {
            assert(files[files.len() - 1].tree.ignoring_nodes.contains(node));
        }
        if exists|i: int| 0 <= i < files.len() && (#[trigger] files[i]).tree.tracking_nodes.contains(node) {
            let i = choose|i: int| 0 <= i < files.len() && (#[trigger] files[i]).tree.tracking_nodes.contains(node);
            if i < rest.len() {
                assert(rest[i].tree.tracking_nodes.contains(node));
            }
        }
        if exists|i: int| 0 <= i < files.len() && (#[trigger] files[i]).tree.ignoring_nodes.contains(node) {
            let i = choose|i: int| 0 <= i < files.len() && (#[trigger] files[i]).tree.ignoring_nodes.contains(node);
            if i < rest.len() {
                assert(rest[i].tree.ignoring_nodes.contains(node));
            }
        }
    } else {
        assert(!requested_nodes(files).contains(node));
        assert(!opted_out_nodes(files).contains(node));
    }
}

/// The nodes for which visits are counted are those that are asked for, less
/// those that are opted out of: as sets, the one is the difference of the
/// other two. No node is among them twice.
pub proof fn lemma_tracked_nodes_are_a_difference(files: Seq<FileParseResultView>)
    ensures
        tracked_nodes(files).no_duplicates(),
        tracked_nodes(files).to_set() == requested_nodes(files).to_set().difference(
            opted_out_nodes(files).to_set(),
        ),
{
    lemma_first_occurrences_outside(requested_nodes(files), opted_out_nodes(files));
    assert(tracked_nodes(files).to_set() =~= requested_nodes(files).to_set().difference(
        opted_out_nodes(files).to_set(),
    ));
}

/// The order of the files makes no difference to the nodes for which visits
/// are counted: two lists that hold the same files give the same set of
/// nodes.
pub proof fn lemma_tracked_nodes_ignore_file_order(
    first: Seq<FileParseResultView>,
    second: Seq<FileParseResultView>,
)
    requires
        forall|file: FileParseResultView| first.contains(file) <==> second.contains(file),
    ensures
        tracked_nodes(first).to_set() == tracked_nodes(second).to_set(),
{
    lemma_first_occurrences_outside(requested_nodes(first), opted_out_nodes(first));
    lemma_first_occurrences_outside(requested_nodes(second), opted_out_nodes(second));
    assert forall|node: Seq<char>|
        (requested_nodes(first).contains(node) <==> requested_nodes(second).contains(node)) && (
        opted_out_nodes(first).contains(node) <==> opted_out_nodes(second).contains(node)) by {
        lemma_requests_come_from_files(first, node);
        lemma_requests_come_from_files(second, node);
        lemma_same_files_same_requests(first, second, node);
        lemma_same_files_same_requests(second, first, node);
    }
    assert forall|node: Seq<char>|
        tracked_nodes(first).contains(node) <==> tracked_nodes(second).contains(node) by {
        assert(requested_nodes(first).contains(node) <==> requested_nodes(second).contains(node));
        assert(opted_out_nodes(first).contains(node) <==> opted_out_nodes(second).contains(node));
    }
    assert(tracked_nodes(first).to_set() =~= tracked_nodes(second).to_set());
}

/// What some file of one list asks for or opts out of, some file of any list
/// with the same files does too.
proof fn lemma_same_files_same_requests(
    first: Seq<FileParseResultView>,
    second: Seq<FileParseResultView>,
    node: Seq<char>,
)
    requires
        forall|file: FileParseResultView| first.contains(file) <==> second.contains(file),
    ensures
        (exists|i: int| 0 <= i < first.len() && (#[trigger] first[i]).tree.tracking_nodes.contains(node))
            ==> (exists|i: int|
            0 <= i < second.len() && (#[trigger] second[i]).tree.tracking_nodes.contains(node)),
        (exists|i: int| 0 <= i < first.len() && (#[trigger] first[i]).tree.ignoring_nodes.contains(node))
            ==> (exists|i: int|
            0 <= i < second.len() && (#[trigger] second[i]).tree.ignoring_nodes.contains(node)),
{
    if exists|i: int| 0 <= i < first.len() && (#[trigger] first[i]).tree.tracking_nodes.contains(node) {
        let i = choose|i: int| 0 <= i < first.len() && (#[trigger] first[i]).tree.tracking_nodes.contains(node);
        assert(first.contains(first[i]));
        let j = choose|j: int| 0 <= j < second.len() && second[j] == first[i];
        assert(second[j].tree.tracking_nodes.contains(node));
    }
    if exists|i: int| 0 <= i < first.len() && (#[trigger] first[i]).tree.ignoring_nodes.contains(node) {
        let i = choose|i: int| 0 <= i < first.len() && (#[trigger] first[i]).tree.ignoring_nodes.contains(node);
        assert(first.contains(first[i]));
        let j = choose|j: int| 0 <= j < second.len() && second[j] == first[i];
        assert(second[j].tree.ignoring_nodes.contains(node));
    }
}

impl CompilationResultView {
    /// Whether the table of strings and the tags of the files are listed as
    /// they are held: every key once.
    pub open spec fn lists_its_keys(self) -> bool {
        &&& self.line_ids.no_duplicates()
        &&& forall|id: Seq<char>| self.string_table.contains_key(id) <==> self.line_ids.contains(id)
        &&& self.file_names.no_duplicates()
        &&& forall|name: Seq<char>| self.file_tags.contains_key(name) <==> self.file_names.contains(name)
    }
}

/// Entering lines keeps the table of strings listed as it is held.
pub proof fn lemma_registering_lists_each_line_once(
    result: CompilationResultView,
    file_name: Seq<char>,
    lines: Seq<LineStatementView>,
)
    requires
        result.lists_its_keys(),
    ensures
        register_lines(result, file_name, lines).lists_its_keys(),
    decreases lines.len(),
{
    if lines.len() > 0 {
        let before = register_lines(result, file_name, lines.drop_last());
        lemma_registering_lists_each_line_once(result, file_name, lines.drop_last());
        lemma_contains_after_push(before.line_ids, lines.last().line_id);
        let after = register_lines(result, file_name, lines);
        if !before.string_table.contains_key(lines.last().line_id) {
            lemma_no_duplicates_after_push(before.line_ids, lines.last().line_id);
        }
        assert forall|id: Seq<char>| after.string_table.contains_key(id) <==> after.line_ids.contains(
            id,
        ) by {
            assert(before.string_table.contains_key(id) <==> before.line_ids.contains(id));
        }
    }
}

/// The first pass keeps the table of strings listed as it is held.
pub proof fn lemma_first_pass_lists_each_line_once(
    result: CompilationResultView,
    files: Seq<FileView>,
)
    requires
        result.lists_its_keys(),
    ensures
        register_files(result, files).lists_its_keys(),
    decreases files.len(),
{
    if files.len() > 0 {
        let before = register_files(result, files.drop_last());
        lemma_first_pass_lists_each_line_once(result, files.drop_last());
        let file = files.last();
        lemma_registering_lists_each_line_once(
            CompilationResultView { diagnostics: before.diagnostics + file.tree.diagnostics, ..before },
            file.file_name,
            tagged_tree(file.tree).lines,
        );
    }
}

/// The second pass keeps the tags of the files listed as they are held.
pub proof fn lemma_second_pass_lists_each_file_once(
    result: CompilationResultView,
    files: Seq<FileParseResultView>,
)
    requires
        result.lists_its_keys(),
    ensures
        declare_files(result, files).lists_its_keys(),
    decreases files.len(),
{
    if files.len() > 0 {
        let before = declare_files(result, files.drop_last());
        lemma_second_pass_lists_each_file_once(result, files.drop_last());
        lemma_contains_after_push(before.file_names, files.last().name);
        let after = declare_files(result, files);
        if !before.file_tags.contains_key(files.last().name) {
            lemma_no_duplicates_after_push(before.file_names, files.last().name);
        }
        assert forall|name: Seq<char>| after.file_tags.contains_key(name) <==> after.file_names.contains(
            name,
        ) by {
            assert(before.file_tags.contains_key(name) <==> before.file_names.contains(name));
        }
    }
}

/// The outcome of a compilation lists every line of its table of strings
/// once, and every file with tags once: no identifier and no file name is
/// held twice.
pub proof fn lemma_compiled_lists_its_keys(job: CompilationJobView)
    ensures
        compiled(job).lists_its_keys(),
{
    let start = initial_state(job);
    assert(start.result.lists_its_keys());
    lemma_first_pass_lists_each_line_once(start.result, job.files);
    lemma_second_pass_lists_each_file_once(
        strings_registered(start).result,
        strings_registered(start).parsed_files,
    );
}

/// The first pass only adds: what was reported stays reported, in its
/// order, and a line that the table of strings holds stays as it is. So of
/// several lines with one identifier the first is the one that the table
/// holds.
pub proof fn lemma_first_pass_only_adds(result: CompilationResultView, files: Seq<FileView>)
    ensures
        result.diagnostics.is_prefix_of(register_files(result, files).diagnostics),
        result.string_table.submap_of(register_files(result, files).string_table),
        result.line_ids.is_prefix_of(register_files(result, files).line_ids),
        register_files(result, files).declarations == result.declarations,
        register_files(result, files).file_tags == result.file_tags,
    decreases files.len(),
{
    if files.len() > 0 {
        let before = register_files(result, files.drop_last());
        lemma_first_pass_only_adds(result, files.drop_last());
        let file = files.last();
        let reported = CompilationResultView {
            diagnostics: before.diagnostics + file.tree.diagnostics,
            ..before
        };
        lemma_registering_only_adds(reported, file.file_name, tagged_tree(file.tree).lines);
        let after = register_files(result, files);
        assert forall|id: Seq<char>| #[trigger]
            result.string_table.dom().contains(id) implies after.string_table.dom().contains(id)
            && result.string_table[id] == after.string_table[id] by {
            assert(before.string_table.dom().contains(id));
            assert(reported.string_table.dom().contains(id));
        }
    }
}

/// Entering lines only adds to what is reported and to the table of strings.
pub proof fn lemma_registering_only_adds(
    result: CompilationResultView,
    file_name: Seq<char>,
    lines: Seq<LineStatementView>,
)
    ensures
        result.diagnostics.is_prefix_of(register_lines(result, file_name, lines).diagnostics),
        result.string_table.submap_of(register_lines(result, file_name, lines).string_table),
        result.line_ids.is_prefix_of(register_lines(result, file_name, lines).line_ids),
        register_lines(result, file_name, lines).declarations == result.declarations,
        register_lines(result, file_name, lines).file_tags == result.file_tags,
        register_lines(result, file_name, lines).file_names == result.file_names,
    decreases lines.len(),
{
    if lines.len() > 0 {
        lemma_registering_only_adds(result, file_name, lines.drop_last());
    }
}

/// The second pass only adds to what is reported and to the declarations,
/// and leaves the table of strings as it is.
pub proof fn lemma_second_pass_only_adds(
    result: CompilationResultView,
    files: Seq<FileParseResultView>,
)
    ensures
        result.diagnostics.is_prefix_of(declare_files(result, files).diagnostics),
        result.declarations.is_prefix_of(declare_files(result, files).declarations),
        declare_files(result, files).string_table == result.string_table,
        declare_files(result, files).line_ids == result.line_ids,
    decreases files.len(),
{
    if files.len() > 0 {
        lemma_second_pass_only_adds(result, files.drop_last());
    }
}

/// The trees that a compilation keeps are those of the job's files, tagged,
/// in the order of the job.
pub proof fn lemma_parsed_files_of_a_job(job: CompilationJobView)
    ensures
        compiled_state(job).parsed_files == parsed_files(job.files),
        compiled_state(job).tracking_nodes == tracked_nodes(compiled_state(job).parsed_files),
        compiled_state(job).derived_variable_declarations == tracking_declarations(
            compiled_state(job).tracking_nodes,
        ),
        compiled_state(job).known_variable_declarations == tracking_declarations(
            compiled_state(job).tracking_nodes,
        ),
{
    let files = parsed_files(job.files);
    assert(Seq::<FileParseResultView>::empty() + files =~= files);
    let declarations = tracking_declarations(compiled_state(job).tracking_nodes);
    assert(Seq::<DeclarationView>::empty() + declarations =~= declarations);
}

/// A job without files compiles to an outcome that holds nothing: no
/// diagnostics, no declarations, no strings, no tags.
pub proof fn lemma_empty_job_compiles_to_nothing(job: CompilationJobView)
    requires
        job.files.len() == 0,
    ensures
        compiled(job) == CompilationResultView::empty(),
{
    lemma_parsed_files_of_a_job(job);
    let state = compiled_state(job);
    assert(state.parsed_files =~= Seq::empty());
    assert(state.tracking_nodes =~= Seq::empty());
    assert(state.derived_variable_declarations =~= Seq::empty());
    assert(compiled(job).declarations =~= Seq::empty());
}

/// For every node for which visits are counted the compiler makes up exactly
/// one declaration: a number that starts at zero, under the name that the
/// node's title gives. No two of these declarations have the same name, and
/// they come last in the outcome, behind what the second pass has gathered.
pub proof fn lemma_one_declaration_per_tracked_node(job: CompilationJobView)
    ensures
        ({
            let state = compiled_state(job);
            let derived = state.derived_variable_declarations;
            &&& derived.len() == state.tracking_nodes.len()
            &&& state.tracking_nodes.no_duplicates()
            &&& forall|i: int|
                0 <= i < derived.len() ==> #[trigger] derived[i] == tracking_declaration(
                    state.tracking_nodes[i],
                )
            &&& forall|i: int, j: int|
                0 <= i < j < derived.len() ==> (#[trigger] derived[i]).name != (
                #[trigger] derived[j]).name
            &&& compiled(job).declarations == state.result.declarations + derived
        }),
{
    lemma_parsed_files_of_a_job(job);
    let state = compiled_state(job);
    let derived = state.derived_variable_declarations;
    lemma_tracked_nodes_are_a_difference(state.parsed_files);
    assert forall|i: int, j: int| 0 <= i < j < derived.len() implies (#[trigger] derived[i]).name != (
    #[trigger] derived[j]).name by {
        crate::library::lemma_visited_variable_names_differ(
            state.tracking_nodes[i],
            state.tracking_nodes[j],
        );
    }
}

/// A node that some file of the job opts out of gets no declaration from the
/// compiler, whether or not a file asks for it and wherever the files stand
/// in the job.
pub proof fn lemma_opted_out_node_gets_no_declaration(
    job: CompilationJobView,
    index: int,
    node: Seq<char>,
)
    requires
        0 <= index < job.files.len(),
        job.files[index].tree.ignoring_nodes.contains(node),
    ensures
        !compiled_state(job).tracking_nodes.contains(node),
        forall|i: int|
            0 <= i < compiled_state(job).derived_variable_declarations.len() ==> (
            #[trigger] compiled_state(job).derived_variable_declarations[i]).name
                != visited_variable_name(node),
{
    lemma_parsed_files_of_a_job(job);
    let state = compiled_state(job);
    let files = state.parsed_files;
    lemma_first_occurrences_outside(requested_nodes(files), opted_out_nodes(files));
    lemma_requests_come_from_files(files, node);
    assert(files[index].tree.ignoring_nodes.contains(node));
    assert(!state.tracking_nodes.contains(node));
    assert forall|i: int| 0 <= i < state.derived_variable_declarations.len() implies (
    #[trigger] state.derived_variable_declarations[i]).name != visited_variable_name(node) by {
        crate::library::lemma_visited_variable_names_differ(state.tracking_nodes[i], node);
        assert(state.tracking_nodes.contains(state.tracking_nodes[i]));
    }
}

/// Two jobs that hold the same files, in whatever order, have visits counted
/// for the same nodes, and the compiler makes up the same declarations for
/// both.
pub proof fn lemma_tracking_ignores_file_order(first: CompilationJobView, second: CompilationJobView)
    requires
        forall|file: FileView| first.files.contains(file) <==> second.files.contains(file),
    ensures
        compiled_state(first).tracking_nodes.to_set() == compiled_state(second).tracking_nodes.to_set(),
        compiled_state(first).derived_variable_declarations.to_set() == compiled_state(
            second,
        ).derived_variable_declarations.to_set(),
{
    lemma_parsed_files_of_a_job(first);
    lemma_parsed_files_of_a_job(second);
    let first_files = compiled_state(first).parsed_files;
    let second_files = compiled_state(second).parsed_files;
    lemma_kept_trees_of_same_files(first.files, second.files);
    lemma_kept_trees_of_same_files(second.files, first.files);
    lemma_tracked_nodes_ignore_file_order(first_files, second_files);
    let first_nodes = compiled_state(first).tracking_nodes;
    let second_nodes = compiled_state(second).tracking_nodes;
    assert forall|node: Seq<char>| first_nodes.contains(node) <==> second_nodes.contains(node) by {
        assert(first_nodes.to_set().contains(node) <==> second_nodes.to_set().contains(node));
    }
    lemma_declarations_of_same_nodes(first_nodes, second_nodes);
    lemma_declarations_of_same_nodes(second_nodes, first_nodes);
    assert(tracking_declarations(first_nodes).to_set() =~= tracking_declarations(
        second_nodes,
    ).to_set());
}

/// The trees kept of one list of files are among those kept of any list that
/// holds the same files.
proof fn lemma_kept_trees_of_same_files(first: Seq<FileView>, second: Seq<FileView>)
    requires
        forall|file: FileView| first.contains(file) ==> second.contains(file),
    ensures
        forall|file: FileParseResultView|
            parsed_files(first).contains(file) ==> parsed_files(second).contains(file),
{
    let first_kept = parsed_files(first);
    let second_kept = parsed_files(second);
    assert forall|file: FileParseResultView| first_kept.contains(file) implies second_kept.contains(
        file,
    ) by {
        let i = choose|i: int| 0 <= i < first_kept.len() && first_kept[i] == file;
        assert(first.contains(first[i]));
        let j = choose|j: int| 0 <= j < second.len() && second[j] == first[i];
        assert(second_kept[j] == file);
    }
}

/// The declarations for one list of nodes are among those for any list that
/// holds the same nodes.
proof fn lemma_declarations_of_same_nodes(first: Seq<Seq<char>>, second: Seq<Seq<char>>)
    requires
        forall|node: Seq<char>| first.contains(node) ==> second.contains(node),
    ensures
        forall|declaration: DeclarationView|
            tracking_declarations(first).contains(declaration) ==> tracking_declarations(
                second,
            ).contains(declaration),
{
    assert forall|declaration: DeclarationView|
        tracking_declarations(first).contains(declaration) implies tracking_declarations(
        second,
    ).contains(declaration) by {
        let i = choose|i: int|
            0 <= i < first.len() && tracking_declarations(first)[i] == declaration;
        assert(first.contains(first[i]));
        let j = choose|j: int| 0 <= j < second.len() && second[j] == first[i];
        assert(tracking_declarations(second)[j] == declaration);
    }
}

/// Compiling is a function of the job: two jobs with the same value give the
/// same diagnostics in the same order, the same declarations and the same
/// table of strings.
pub proof fn lemma_compilation_is_deterministic(first: CompilationJob, second: CompilationJob)
    requires
        first.deep_view() == second.deep_view(),
    ensures
        compiled(first.deep_view()) == compiled(second.deep_view()),
        compiled(first.deep_view()).diagnostics == compiled(second.deep_view()).diagnostics,
        compiled(first.deep_view()).declarations == compiled(second.deep_view()).declarations,
        compiled(first.deep_view()).string_table == compiled(second.deep_view()).string_table,
{
}

// ---------------------------------------------------------------------------
// The passes
// ---------------------------------------------------------------------------

/// A copy of a tree.
fn clone_tree(tree: &ParseTree) -> (copy: ParseTree)
    ensures
        copy.deep_view() == tree.deep_view(),
{
    let lines = tree.lines.clone();
    assert(lines.deep_view() =~= tree.lines.deep_view());
    ParseTree {
        diagnostics: clone_diagnostics(&tree.diagnostics),
        lines,
        declarations: clone_declarations(&tree.declarations),
        declaration_diagnostics: clone_diagnostics(&tree.declaration_diagnostics),
        file_tags: clone_strings(&tree.file_tags),
        tracking_nodes: clone_strings(&tree.tracking_nodes),
        ignoring_nodes: clone_strings(&tree.ignoring_nodes),
    }
}

/// Takes the tree of a file and reports what was found while it was built.
fn parse_syntax_tree(file: &File, diagnostics: &mut Vec<Diagnostic>) -> (parsed: FileParseResult)
    ensures
        parsed.deep_view() == (FileParseResultView {
            name: file.file_name@,
            tree: file.tree.deep_view(),
        }),
        final(diagnostics).deep_view() == old(diagnostics).deep_view()
            + file.tree.diagnostics.deep_view(),
{
    let mut found = clone_diagnostics(&file.tree.diagnostics);
    diagnostics.append(&mut found);
    assert(diagnostics.deep_view() =~= old(diagnostics).deep_view()
        + file.tree.diagnostics.deep_view());
    FileParseResult { name: file.file_name.clone(), tree: clone_tree(&file.tree) }
}

/// Marks every line that a group of options follows directly as the last
/// line before them.
fn tag_last_lines_before_options(tree: ParseTree) -> (tagged: ParseTree)
    ensures
        tagged.deep_view() == tagged_tree(tree.deep_view()),
{
    let ParseTree {
        diagnostics,
        lines,
        declarations,
        declaration_diagnostics,
        file_tags,
        tracking_nodes,
        ignoring_nodes,
    } = tree;
    let mut tagged_lines: Vec<LineStatement> = Vec::new();
    let mut i: usize = 0;
    while i < lines.len()
        invariant
            i <= lines@.len(),
            tagged_lines.deep_view() == lines.deep_view().take(i as int).map_values(
                |line: LineStatementView| tagged_line(line),
            ),
        decreases lines@.len() - i,
    {
        let mut line = lines[i].clone();
        if line.precedes_options {
            let ghost before = line.hashtags.deep_view();
            line.hashtags.push("lastline".to_owned());
            assert(line.hashtags.deep_view() =~= before.push(last_line_tag()));
        }
        assert(line.deep_view() == tagged_line(lines.deep_view()[i as int]));
        let ghost before = tagged_lines.deep_view();
        let ghost tagged = line.deep_view();
        tagged_lines.push(line);
        i += 1;
        assert(tagged_lines.deep_view() =~= before.push(tagged));
        assert(lines.deep_view().take(i as int) =~= lines.deep_view().take(i - 1).push(
            lines.deep_view()[i - 1],
        ));
        assert(tagged_lines.deep_view() =~= lines.deep_view().take(i as int).map_values(
            |line: LineStatementView| tagged_line(line),
        ));
    }
    assert(lines.deep_view().take(lines@.len() as int) =~= lines.deep_view());
    ParseTree {
        diagnostics,
        lines: tagged_lines,
        declarations,
        declaration_diagnostics,
        file_tags,
        tracking_nodes,
        ignoring_nodes,
    }
}

/// Enters the lines of a tree into the table of strings, in their order.
fn generate_string_table(result: &mut CompilationResult, file: &FileParseResult)
    ensures
        final(result).deep_view() == register_lines(
            old(result).deep_view(),
            file.name@,
            file.tree.lines.deep_view(),
        ),
{
    let ghost lines = file.tree.lines.deep_view();
    let mut i: usize = 0;
    while i < file.tree.lines.len()
        invariant
            i <= file.tree.lines@.len(),
            lines == file.tree.lines.deep_view(),
            result.deep_view() == register_lines(
                old(result).deep_view(),
                file.name@,
                lines.take(i as int),
            ),
        decreases file.tree.lines@.len() - i,
    {
        let line = &file.tree.lines[i];
        let ghost before = result.deep_view();
        assert(lines.take(i + 1).drop_last() =~= lines.take(i as int));
        assert(lines.take(i + 1).last() == line.deep_view());
        if result.string_table.contains_key(&line.line_id) {
            let diagnostic = Diagnostic::from_message(
                "Duplicate line ID ".to_owned().concat(line.line_id.as_str()),
            ).with_file_name(file.name.clone()).with_start_line(line.line_number);
            assert(diagnostic@ == duplicate_line_id(file.name@, line.deep_view()));
            result.diagnostics.push(diagnostic);
            assert(result.diagnostics.deep_view() =~= before.diagnostics.push(
                duplicate_line_id(file.name@, line.deep_view()),
            ));
        } else {
            let info = StringInfo {
                text: line.text.clone(),
                node_name: line.node_name.clone(),
                line_number: line.line_number,
                file_name: file.name.clone(),
                metadata: clone_strings(&line.hashtags),
            };
            assert(info.deep_view() == string_info(file.name@, line.deep_view()));
            result.string_table.insert(line.line_id.clone(), info);
            assert(result.string_table.deep_view() =~= before.string_table.insert(
                line.line_id@,
                string_info(file.name@, line.deep_view()),
            ));
        }
        i += 1;
    }
    assert(lines.take(lines.len() as int) =~= lines);
}

/// The first pass: takes the tree of every file, tags its lines and enters
/// them into the table of strings. A line whose identifier the table holds
/// already is reported and left out. The trees are kept for the passes that
/// follow.
pub fn register_strings(state: CompilationIntermediate) -> (next: CompilationIntermediate)
    ensures
        next.deep_view() == strings_registered(state.deep_view()),
{
    let mut state = state;
    let ghost start = state.deep_view();
    let job = state.job;
    let mut i: usize = 0;
    while i < job.files.len()
        invariant
            i <= job.files@.len(),
            job == state.job,
            state.deep_view() == (CompilationIntermediateView {
                result: register_files(start.result, job.files.deep_view().take(i as int)),
                parsed_files: start.parsed_files + parsed_files(
                    job.files.deep_view().take(i as int),
                ),
                ..start
            }),
        decreases job.files@.len() - i,
    {
        let file = &job.files[i];
        let ghost files = job.files.deep_view();
        assert(files.take(i + 1).drop_last() =~= files.take(i as int));
        assert(files.take(i + 1).last() == file.deep_view());
        let ghost kept = state.parsed_files.deep_view();

        let parse_result = parse_syntax_tree(file, &mut state.result.diagnostics);
        let parse_result = FileParseResult {
            name: parse_result.name,
            tree: tag_last_lines_before_options(parse_result.tree),
        };
        generate_string_table(&mut state.result, &parse_result);
        state.parsed_files.push(parse_result);

        assert(state.parsed_files.deep_view() =~= kept.push(parsed_file(file.deep_view())));
        assert(state.parsed_files.deep_view() =~= start.parsed_files + parsed_files(
            files.take(i + 1),
        ));
        i += 1;
    }
    assert(job.files.deep_view().take(job.files@.len() as int) =~= job.files.deep_view());
    state
}

/// The second pass: gathers from every tree that the first pass has kept
/// what there is to report about its declarations, the declarations
/// themselves, and the tags of the file under the file's name.
pub fn get_declarations(state: CompilationIntermediate) -> (next: CompilationIntermediate)
    ensures
        next.deep_view() == declarations_gathered(state.deep_view()),
{
    let mut state = state;
    let ghost start = state.deep_view();
    let ghost files = state.parsed_files.deep_view();
    let mut i: usize = 0;
    while i < state.parsed_files.len()
        invariant
            i <= state.parsed_files@.len(),
            files == state.parsed_files.deep_view(),
            state.deep_view() == (CompilationIntermediateView {
                result: declare_files(start.result, files.take(i as int)),
                ..start
            }),
        decreases state.parsed_files@.len() - i,
    {
        let file = &state.parsed_files[i];
        let ghost before = state.result.deep_view();
        assert(files.take(i + 1).drop_last() =~= files.take(i as int));
        assert(files.take(i + 1).last() == file.deep_view());

        let mut diagnostics = clone_diagnostics(&file.tree.declaration_diagnostics);
        let mut declarations = clone_declarations(&file.tree.declarations);
        let name = file.name.clone();
        let file_tags = clone_strings(&file.tree.file_tags);
        state.result.diagnostics.append(&mut diagnostics);
        state.result.declarations.append(&mut declarations);
        state.result.file_tags.insert(name, file_tags);

        assert(state.result.diagnostics.deep_view() =~= before.diagnostics
            + files[i as int].tree.declaration_diagnostics);
        assert(state.result.declarations.deep_view() =~= before.declarations
            + files[i as int].tree.declarations);
        assert(state.result.file_tags.deep_view() =~= before.file_tags.insert(
            files[i as int].name,
            files[i as int].tree.file_tags,
        ));
        i += 1;
    }
    assert(files.take(files.len() as int) =~= files);
    state
}

/// Whether the list holds the string.
fn contains_string(list: &Vec<String>, wanted: &String) -> (found: bool)
    ensures
        found == list.deep_view().contains(wanted@),
{
    let mut i: usize = 0;
    while i < list.len()
        invariant
            i <= list@.len(),
            forall|j: int| 0 <= j < i ==> list.deep_view()[j] != wanted@,
        decreases list@.len() - i,
    {
        if list[i] == *wanted {
            assert(list.deep_view()[i as int] == wanted@);
            return true;
        }
        i += 1;
    }
    false
}

/// The third pass: works out for which nodes visits are counted. These are
/// the nodes that some file asks for, but for those that some file opts out
/// of; in which file either stands makes no difference.
pub fn find_tracking_nodes(state: CompilationIntermediate) -> (next: CompilationIntermediate)
    ensures
        next.deep_view() == tracking_nodes_found(state.deep_view()),
{
    let mut state = state;
    let ghost files = state.parsed_files.deep_view();
    let mut tracking_nodes: Vec<String> = Vec::new();
    let mut ignore_nodes: Vec<String> = Vec::new();
    let mut i: usize = 0;
    while i < state.parsed_files.len()
        invariant
            i <= state.parsed_files@.len(),
            files == state.parsed_files.deep_view(),
            tracking_nodes.deep_view() == requested_nodes(files.take(i as int)),
            ignore_nodes.deep_view() == opted_out_nodes(files.take(i as int)),
        decreases state.parsed_files@.len() - i,
    {
        let file = &state.parsed_files[i];
        let ghost requested = tracking_nodes.deep_view();
        let ghost opted_out = ignore_nodes.deep_view();
        assert(files.take(i + 1).drop_last() =~= files.take(i as int));
        assert(files.take(i + 1).last() == file.deep_view());
        let mut asked = clone_strings(&file.tree.tracking_nodes);
        let mut refused = clone_strings(&file.tree.ignoring_nodes);
        tracking_nodes.append(&mut asked);
        ignore_nodes.append(&mut refused);
        assert(tracking_nodes.deep_view() =~= requested + files[i as int].tree.tracking_nodes);
        assert(ignore_nodes.deep_view() =~= opted_out + files[i as int].tree.ignoring_nodes);
        i += 1;
    }
    assert(files.take(files.len() as int) =~= files);

    let mut counted: Vec<String> = Vec::new();
    let ghost requested = tracking_nodes.deep_view();
    let mut j: usize = 0;
    while j < tracking_nodes.len()
        invariant
            j <= tracking_nodes@.len(),
            requested == tracking_nodes.deep_view(),
            counted.deep_view() == first_occurrences_outside(
                requested.take(j as int),
                ignore_nodes.deep_view(),
            ),
        decreases tracking_nodes@.len() - j,
    {
        let node = &tracking_nodes[j];
        let ghost before = counted.deep_view();
        assert(requested.take(j + 1).drop_last() =~= requested.take(j as int));
        assert(requested.take(j + 1).last() == node@);
        if !contains_string(&counted, node) && !contains_string(&ignore_nodes, node) {
            counted.push(node.clone());
            assert(counted.deep_view() =~= before.push(node@));
        }
        j += 1;
    }
    assert(requested.take(requested.len() as int) =~= requested);
    state.tracking_nodes = counted;
    state
}

/// The fourth pass: declares, for every node for which visits are counted,
/// the variable that counts them, and adds it to the known and to the derived
/// declarations.
pub fn add_tracking_declarations(state: CompilationIntermediate) -> (next: CompilationIntermediate)
    ensures
        next.deep_view() == tracking_declarations_added(state.deep_view()),
{
    let mut state = state;
    let ghost start = state.deep_view();
    let ghost nodes = state.tracking_nodes.deep_view();
    let mut declarations: Vec<Declaration> = Vec::new();
    let mut i: usize = 0;
    while i < state.tracking_nodes.len()
        invariant
            i <= state.tracking_nodes@.len(),
            nodes == state.tracking_nodes.deep_view(),
            state.deep_view() == start,
            declarations.deep_view() == tracking_declarations(
                nodes.take(i as int),
            ),
        decreases state.tracking_nodes@.len() - i,
    {
        let node = &state.tracking_nodes[i];
        let ghost before = declarations.deep_view();
        let declaration = Declaration::from_default_value(YarnValue::Number(ZERO)).with_name(
            Library::generate_unique_visited_variable_for_node(node.as_str()),
        ).with_type(Type::Number).with_description(
            "The generated variable for tracking visits of node ".to_owned().concat(
                node.as_str(),
            ),
        ).with_origin(DeclarationOrigin::Derived);
        assert(declaration@ == tracking_declaration(node@));
        assert(node@ == nodes[i as int]);
        declarations.push(declaration);
        i += 1;
        assert(declarations.deep_view() =~= before.push(
            tracking_declaration(nodes[i - 1]),
        ));
        assert(nodes.take(i as int) =~= nodes.take(i - 1).push(nodes[i - 1]));
        assert(declarations.deep_view() =~= tracking_declarations(
            nodes.take(i as int),
        ));
    }
    assert(nodes.take(nodes.len() as int) =~= nodes);

    let mut known = clone_declarations(&declarations);
    state.known_variable_declarations.append(&mut known);
    state.derived_variable_declarations.append(&mut declarations);
    assert(state.known_variable_declarations.deep_view()
        =~= start.known_variable_declarations + tracking_declarations(nodes));
    assert(state.derived_variable_declarations.deep_view()
        =~= start.derived_variable_declarations + tracking_declarations(nodes));
    state
}

impl<'input> CompilationIntermediate<'input> {
    /// The state in which a compilation of the job starts: nothing is
    /// gathered yet.
    pub fn from_job(compilation_job: &'input CompilationJob) -> (state: Self)
        ensures
            state.deep_view() == initial_state(compilation_job.deep_view()),
    {
        let state = CompilationIntermediate {
            job: compilation_job,
            result: CompilationResult::default(),
            known_variable_declarations: Vec::new(),
            derived_variable_declarations: Vec::new(),
            parsed_files: Vec::new(),
            tracking_nodes: Vec::new(),
        };
        assert(state.known_variable_declarations.deep_view() =~= Seq::empty());
        assert(state.derived_variable_declarations.deep_view() =~= Seq::empty());
        assert(state.parsed_files.deep_view() =~= Seq::empty());
        assert(state.tracking_nodes.deep_view() =~= Seq::empty());
        state
    }
}

/// Compiles what the job holds.
///
/// The four passes run in their order over all files, whatever they report;
/// the outcome holds what they have gathered, and among the declarations,
/// behind those of the source, the counters that the compiler has made up.
pub fn compile(compilation_job: CompilationJob) -> (result: CompilationResult)
    ensures
        result.deep_view() == compiled(compilation_job.deep_view()),
{
    let initial = CompilationIntermediate::from_job(&compilation_job);
    let state = register_strings(initial);
    let state = get_declarations(state);
    let state = find_tracking_nodes(state);
    let state = add_tracking_declarations(state);

    let CompilationIntermediate { result, derived_variable_declarations, .. } = state;
    let ghost gathered = result.deep_view();
    let ghost derived = derived_variable_declarations.deep_view();
    let mut result = result;
    let mut derived_variable_declarations = derived_variable_declarations;
    result.declarations.append(&mut derived_variable_declarations);
    assert(result.declarations.deep_view() =~= gathered.declarations + derived);
    result
}

} // verus!
