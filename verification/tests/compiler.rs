use yarn_slinger::compilation_job::{
    CompilationJob, CompilationType, File, LineStatement, ParseTree,
};
use yarn_slinger::compiler::{
    add_tracking_declarations, compile, find_tracking_nodes, get_declarations, register_strings,
    CompilationIntermediate,
};
use yarn_slinger::declaration::{Declaration, DeclarationOrigin, Type};
use yarn_slinger::diagnostic::{Diagnostic, DiagnosticSeverity};
use yarn_slinger::library::Library;
use yarn_slinger::yarn_value::YarnValue;

fn empty_tree() -> ParseTree {
    ParseTree {
        diagnostics: vec![],
        lines: vec![],
        declarations: vec![],
        declaration_diagnostics: vec![],
        file_tags: vec![],
        tracking_nodes: vec![],
        ignoring_nodes: vec![],
    }
}

fn line(id: &str, text: &str, node: &str, line_number: usize) -> LineStatement {
    LineStatement {
        line_id: id.to_string(),
        text: text.to_string(),
        node_name: node.to_string(),
        line_number,
        hashtags: vec![],
        precedes_options: false,
    }
}

fn file(name: &str, tree: ParseTree) -> File {
    File { file_name: name.to_string(), source: String::new(), tree }
}

fn job(files: Vec<File>) -> CompilationJob {
    CompilationJob {
        files,
        library: None,
        compilation_type: CompilationType::FullCompilation,
        variable_declarations: vec![],
    }
}

#[test]
fn can_call_compile_empty_without_crash() {
    compile(CompilationJob {
        files: vec![],
        library: None,
        compilation_type: CompilationType::FullCompilation,
        variable_declarations: vec![],
    });
}

#[test]
fn can_call_compile_file_without_crash() {
    let file = File {
        file_name: "test.yarn".to_string(),
        source: "title: test
---
foo
bar
a {1 + 3} cool expression
==="
        .to_string(),
        tree: ParseTree {
            lines: vec![
                line("line:test.yarn-test-0", "foo", "test", 3),
                line("line:test.yarn-test-1", "bar", "test", 4),
                line("line:test.yarn-test-2", "a {0} cool expression", "test", 5),
            ],
            ..empty_tree()
        },
    };
    compile(CompilationJob {
        files: vec![file],
        library: None,
        compilation_type: CompilationType::FullCompilation,
        variable_declarations: vec![],
    });
}

#[test]
fn can_compile_space_demo() {
    let sally = || {
        file(
            "Sally.yarn",
            ParseTree {
                lines: vec![line("line:794945", "Player: Hey, Sally.", "Sally", 9)],
                tracking_nodes: vec!["Sally".to_string()],
                ..empty_tree()
            },
        )
    };
    let ship = file(
        "Ship.yarn",
        ParseTree {
            lines: vec![line("line:5d7a7c", "Ship: Hey, friend.", "Ship", 5)],
            ..empty_tree()
        },
    );
    let library = Library::new().with_function("assert".to_string(), 1);
    let compilation_job_sally = CompilationJob { library: Some(library), ..job(vec![sally()]) };
    let compilation_job_sally_and_ship = job(vec![sally(), ship]);

    let result_sally = compile(compilation_job_sally);
    let result_sally_and_ship = compile(compilation_job_sally_and_ship);
    assert!(result_sally.diagnostics.is_empty());
    assert_eq!(result_sally.string_table.len(), 1);
    assert!(result_sally_and_ship.diagnostics.is_empty());
    assert_eq!(result_sally_and_ship.string_table.len(), 2);
}

#[test]
fn empty_job_compiles_to_an_empty_result() {
    let result = compile(job(vec![]));
    assert!(result.diagnostics.is_empty());
    assert!(result.declarations.is_empty());
    assert_eq!(result.string_table.len(), 0);
    assert_eq!(result.file_tags.len(), 0);
}

#[test]
fn tracked_start_node_yields_exactly_one_declaration() {
    let start = file(
        "start.yarn",
        ParseTree { tracking_nodes: vec!["Start".to_string()], ..empty_tree() },
    );
    let result = compile(job(vec![start]));
    assert_eq!(result.declarations.len(), 1);
    let declaration = &result.declarations[0];
    assert_eq!(declaration.name, "$Yarn.Internal.Visiting.Start");
    assert_eq!(declaration.value_type, Some(Type::Number));
    assert_eq!(declaration.default_value, Some(YarnValue::Number(0.0f32.to_bits())));
    assert_eq!(
        declaration.description,
        Some("The generated variable for tracking visits of node Start".to_string())
    );
    assert_eq!(declaration.origin, DeclarationOrigin::Derived);
}

#[test]
fn node_requested_twice_is_declared_once() {
    let first = file(
        "a.yarn",
        ParseTree {
            tracking_nodes: vec!["Start".to_string(), "Start".to_string(), "End".to_string()],
            ..empty_tree()
        },
    );
    let second =
        file("b.yarn", ParseTree { tracking_nodes: vec!["Start".to_string()], ..empty_tree() });
    let result = compile(job(vec![first, second]));
    let names: Vec<&str> = result.declarations.iter().map(|d| d.name.as_str()).collect();
    assert_eq!(names, vec!["$Yarn.Internal.Visiting.Start", "$Yarn.Internal.Visiting.End"]);
}

fn requesting_x() -> File {
    file(
        "a.yarn",
        ParseTree { tracking_nodes: vec!["X".to_string(), "Y".to_string()], ..empty_tree() },
    )
}

fn opting_out_of_x() -> File {
    file("b.yarn", ParseTree { ignoring_nodes: vec!["X".to_string()], ..empty_tree() })
}

#[test]
fn opt_out_defeats_request_in_either_file_order() {
    let a_then_b = compile(job(vec![requesting_x(), opting_out_of_x()]));
    let b_then_a = compile(job(vec![opting_out_of_x(), requesting_x()]));
    for result in [&a_then_b, &b_then_a] {
        assert_eq!(result.declarations.len(), 1);
        assert_eq!(result.declarations[0].name, "$Yarn.Internal.Visiting.Y");
        assert!(result.declarations.iter().all(|d| d.name != "$Yarn.Internal.Visiting.X"));
    }
    assert_eq!(a_then_b.declarations, b_then_a.declarations);
}

fn busy_job() -> CompilationJob {
    let warning = Diagnostic::from_message("Indentation contains tabs and spaces".to_string())
        .with_severity(DiagnosticSeverity::Warning)
        .with_start_line(4);
    let declared = Declaration::from_default_value(YarnValue::Boolean(true))
        .with_name("$met".to_string())
        .with_type(Type::Boolean);
    let first = file(
        "a.yarn",
        ParseTree {
            diagnostics: vec![warning],
            lines: vec![
                LineStatement { precedes_options: true, ..line("line:1", "Hello", "Start", 3) },
                LineStatement {
                    hashtags: vec!["happy".to_string()],
                    ..line("line:2", "Bye", "Start", 7)
                },
            ],
            declarations: vec![declared],
            declaration_diagnostics: vec![Diagnostic::from_message("odd default".to_string())],
            file_tags: vec!["draft".to_string()],
            tracking_nodes: vec!["Start".to_string()],
            ignoring_nodes: vec![],
        },
    );
    let second = file(
        "b.yarn",
        ParseTree {
            lines: vec![line("line:1", "Again", "Other", 2), line("line:3", "More", "Other", 3)],
            file_tags: vec!["final".to_string(), "short".to_string()],
            ..empty_tree()
        },
    );
    job(vec![first, second])
}

#[test]
fn passes_gather_everything_in_order() {
    let result = compile(busy_job());

    let messages: Vec<&str> = result.diagnostics.iter().map(|d| d.message.as_str()).collect();
    assert_eq!(
        messages,
        vec!["Indentation contains tabs and spaces", "Duplicate line ID line:1", "odd default"]
    );
    let duplicate = &result.diagnostics[1];
    assert_eq!(duplicate.severity, DiagnosticSeverity::Error);
    assert_eq!(duplicate.file_name, Some("b.yarn".to_string()));
    assert_eq!(duplicate.start_line, 2);
    assert_eq!(duplicate.range, None);
    assert_eq!(duplicate.context, None);

    assert_eq!(result.string_table.len(), 3);
    let hello = result.string_table.get(&"line:1".to_string()).unwrap();
    assert_eq!(hello.text, "Hello");
    assert_eq!(hello.file_name, "a.yarn");
    assert_eq!(hello.node_name, "Start");
    assert_eq!(hello.line_number, 3);
    assert_eq!(hello.metadata, vec!["lastline".to_string()]);
    let bye = result.string_table.get(&"line:2".to_string()).unwrap();
    assert_eq!(bye.metadata, vec!["happy".to_string()]);
    let more = result.string_table.get(&"line:3".to_string()).unwrap();
    assert_eq!(more.text, "More");
    assert_eq!(more.file_name, "b.yarn");
    assert!(result.string_table.get(&"line:4".to_string()).is_none());

    let names: Vec<&str> = result.declarations.iter().map(|d| d.name.as_str()).collect();
    assert_eq!(names, vec!["$met", "$Yarn.Internal.Visiting.Start"]);
    assert_eq!(result.declarations[0].origin, DeclarationOrigin::Explicit);

    assert_eq!(result.file_tags.len(), 2);
    assert_eq!(result.file_tags.get(&"a.yarn".to_string()), Some(&vec!["draft".to_string()]));
    assert_eq!(
        result.file_tags.get(&"b.yarn".to_string()),
        Some(&vec!["final".to_string(), "short".to_string()])
    );
}

#[test]
fn compiling_twice_gives_the_same_result() {
    let first = compile(busy_job());
    let second = compile(busy_job());
    assert_eq!(first.diagnostics, second.diagnostics);
    assert_eq!(first.declarations, second.declarations);
    assert_eq!(first.string_table.entries(), second.string_table.entries());
    assert_eq!(first.file_tags.entries(), second.file_tags.entries());
}

#[test]
fn passes_can_be_run_one_by_one() {
    let job = busy_job();
    let state = CompilationIntermediate::from_job(&job);
    assert!(state.parsed_files.is_empty());
    let state = register_strings(state);
    assert_eq!(state.parsed_files.len(), 2);
    assert_eq!(state.parsed_files[0].name, "a.yarn");
    assert_eq!(state.parsed_files[0].tree.lines[0].hashtags, vec!["lastline".to_string()]);
    assert_eq!(state.result.diagnostics.len(), 2);
    assert!(state.result.declarations.is_empty());
    let state = get_declarations(state);
    assert_eq!(state.result.diagnostics.len(), 3);
    assert_eq!(state.result.declarations.len(), 1);
    assert!(state.tracking_nodes.is_empty());
    let state = find_tracking_nodes(state);
    assert_eq!(state.tracking_nodes, vec!["Start".to_string()]);
    assert!(state.derived_variable_declarations.is_empty());
    let state = add_tracking_declarations(state);
    assert_eq!(state.derived_variable_declarations.len(), 1);
    assert_eq!(state.known_variable_declarations, state.derived_variable_declarations);
    assert_eq!(state.result.declarations.len(), 1);
}

#[test]
fn later_tags_replace_those_of_a_file_of_the_same_name() {
    let first = file("a.yarn", ParseTree { file_tags: vec!["old".to_string()], ..empty_tree() });
    let second = file("a.yarn", ParseTree { file_tags: vec!["new".to_string()], ..empty_tree() });
    let result = compile(job(vec![first, second]));
    assert_eq!(result.file_tags.len(), 1);
    assert_eq!(result.file_tags.get(&"a.yarn".to_string()), Some(&vec!["new".to_string()]));
}
