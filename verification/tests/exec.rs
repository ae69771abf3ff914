use shell_core::command::{ParsedCommand, Redirect};
use shell_core::exec::{
    finishing, get_pipeline_commands, parse_executable_path, plan_pipeline, write_builtin_output,
    write_command_output, write_failure_message, write_output, ExecutableInfo, Finish,
    OutputAction, StageKind, StagePlan,
};

#[test]
fn test_parse_executable_path_simple_command() {
    let result = parse_executable_path("ls");
    assert_eq!(result, ExecutableInfo { name: "ls".to_string(), directory: ".".to_string() });
}

#[test]
fn test_parse_executable_path_relative_path() {
    let result = parse_executable_path("./bin/my_program");
    assert_eq!(result, ExecutableInfo { name: "my_program".to_string(), directory: ".".to_string() });
}

#[test]
fn test_parse_executable_path_absolute_path() {
    let result = parse_executable_path("/usr/bin/python3.9");
    assert_eq!(result, ExecutableInfo { name: "python3.9".to_string(), directory: ".".to_string() });
}

#[test]
fn test_parse_executable_path_root_executable() {
    let result = parse_executable_path("/program");
    assert_eq!(result, ExecutableInfo { name: "program".to_string(), directory: ".".to_string() });
}

#[test]
fn test_parse_executable_path_current_dir_executable() {
    let result = parse_executable_path("./program");
    assert_eq!(result, ExecutableInfo { name: "program".to_string(), directory: ".".to_string() });
}

#[test]
fn test_parse_executable_path_edge_cases() {
    let result = parse_executable_path("");
    assert_eq!(result, ExecutableInfo { name: "".to_string(), directory: ".".to_string() });
    let result = parse_executable_path(".");
    assert_eq!(result, ExecutableInfo { name: ".".to_string(), directory: ".".to_string() });
    let result = parse_executable_path("/bin//ls");
    assert_eq!(result, ExecutableInfo { name: "ls".to_string(), directory: ".".to_string() });
}

#[test]
fn test_parse_executable_path_special_characters() {
    let result = parse_executable_path("/bin/my-special_program.v2");
    assert_eq!(result, ExecutableInfo { name: "my-special_program.v2".to_string(), directory: ".".to_string() });
}

#[test]
fn test_parse_and_build_workflow() {
    let exec_info = parse_executable_path("/bin/ls");
    assert_eq!(exec_info.name, "ls");
    assert_eq!(exec_info.directory, ".");
}

fn stage(command: &str, args: &[&str], stdout: Option<(&str, bool)>, stderr: Option<(&str, bool)>, next: Option<ParsedCommand>) -> ParsedCommand {
    ParsedCommand {
        command: command.to_string(),
        args: args.iter().map(|a| a.to_string()).collect(),
        stdout_redirect: stdout.map(|(f, a)| Redirect { filename: f.to_string(), should_append: a }),
        stderr_redirect: stderr.map(|(f, a)| Redirect { filename: f.to_string(), should_append: a }),
        piped_command: next.map(Box::new),
    }
}

fn plan(kind: StageKind, program: &str, args: &[&str], stdin_from_previous: bool, stdout_to_next: bool, capture_output: bool) -> StagePlan {
    StagePlan {
        kind,
        program: program.to_string(),
        args: args.iter().map(|a| a.to_string()).collect(),
        stdin_from_previous,
        stdout_to_next,
        capture_output,
    }
}

#[test]
fn test_pipeline_simple_echo_to_cat() {
    let second = stage("/bin/cat", &[], Some(("/tmp/out.txt", false)), None, None);
    let first = stage("echo", &["hello world"], None, None, Some(second));
    assert_eq!(
        plan_pipeline(&first),
        vec![
            plan(StageKind::Builtin, "echo", &["hello world"], false, true, false),
            plan(StageKind::External, "cat", &[], true, false, true),
        ]
    );
}

#[test]
fn test_pipeline_external_to_builtin_echo() {
    let second = stage("echo", &["final output"], Some(("/tmp/out.txt", false)), None, None);
    let first = stage("/bin/cat", &["/tmp/in.txt"], None, None, Some(second));
    assert_eq!(
        plan_pipeline(&first),
        vec![
            plan(StageKind::External, "cat", &["/tmp/in.txt"], false, true, false),
            plan(StageKind::Builtin, "echo", &["final output"], false, false, false),
        ]
    );
}

#[test]
fn single_program_is_captured_only_with_a_redirect() {
    assert_eq!(plan_pipeline(&stage("/bin/ls", &["-l"], None, None, None)), vec![plan(StageKind::External, "ls", &["-l"], false, false, false)]);
    assert_eq!(plan_pipeline(&stage("/bin/ls", &[], None, Some(("e", true)), None)), vec![plan(StageKind::External, "ls", &[], false, false, true)]);
    assert_eq!(plan_pipeline(&stage("/bin/ls", &[], Some(("o", false)), None, None)), vec![plan(StageKind::External, "ls", &[], false, false, true)]);
}

#[test]
fn redirect_of_a_middle_stage_is_not_honoured() {
    let third = stage("/usr/bin/wc", &["-l"], None, None, None);
    let second = stage("/bin/grep", &["x"], Some(("mid.txt", false)), Some(("mid.err", false)), Some(third));
    let first = stage("/bin/cat", &["f"], None, None, Some(second));
    assert_eq!(
        plan_pipeline(&first),
        vec![
            plan(StageKind::External, "cat", &["f"], false, true, false),
            plan(StageKind::External, "grep", &["x"], true, true, false),
            plan(StageKind::External, "wc", &["-l"], true, false, false),
        ]
    );
}

#[test]
fn stages_come_out_in_order() {
    let third = stage("c", &[], None, None, None);
    let second = stage("b", &[], None, None, Some(third));
    let first = stage("a", &[], None, None, Some(second));
    let stages = get_pipeline_commands(&first);
    let names: Vec<&str> = stages.iter().map(|s| s.command.as_str()).collect();
    assert_eq!(names, vec!["a", "b", "c"]);
    assert_eq!(get_pipeline_commands(&stage("only", &[], None, None, None)).len(), 1);
}

#[test]
fn test_stdout_redirect_to_file() {
    let cmd = stage("echo", &["hello world"], Some(("/tmp/test_stdout.txt", false)), None, None);
    assert_eq!(
        write_builtin_output(&cmd, b"hello world\n"),
        vec![OutputAction::WriteFile { filename: "/tmp/test_stdout.txt".to_string(), should_append: false, content: b"hello world\n".to_vec() }]
    );
}

#[test]
fn test_stdout_redirect_append_mode() {
    let cmd = stage("echo", &["appended content"], Some(("/tmp/test_stdout_append.txt", true)), None, None);
    assert_eq!(
        write_builtin_output(&cmd, b"appended content\n"),
        vec![OutputAction::WriteFile { filename: "/tmp/test_stdout_append.txt".to_string(), should_append: true, content: b"appended content\n".to_vec() }]
    );
}

#[test]
fn test_stderr_redirect_empty_stderr() {
    let cmd = stage("echo", &["hello"], None, Some(("/tmp/test_empty_stderr.txt", false)), None);
    assert_eq!(
        write_builtin_output(&cmd, b"hello\n"),
        vec![
            OutputAction::Print(b"hello\n".to_vec()),
            OutputAction::WriteFile { filename: "/tmp/test_empty_stderr.txt".to_string(), should_append: false, content: Vec::new() },
        ]
    );
}

#[test]
fn test_stderr_redirect_with_stdout_redirect() {
    let cmd = stage("ls", &["/nonexistent", "/tmp"], Some(("/tmp/test_stdout.txt", false)), Some(("/tmp/test_stderr.txt", false)), None);
    assert_eq!(
        write_command_output(&cmd, b"/tmp:\n", b"ls: cannot access\n"),
        vec![
            OutputAction::WriteFile { filename: "/tmp/test_stdout.txt".to_string(), should_append: false, content: b"/tmp:\n".to_vec() },
            OutputAction::WriteFile { filename: "/tmp/test_stderr.txt".to_string(), should_append: false, content: b"ls: cannot access\n".to_vec() },
        ]
    );
}

#[test]
fn test_stderr_redirect_to_file() {
    let cmd = stage("ls", &["/nonexistent"], None, Some(("/tmp/test_stderr.txt", false)), None);
    assert_eq!(
        write_command_output(&cmd, b"", b"ls: cannot access\n"),
        vec![
            OutputAction::Print(Vec::new()),
            OutputAction::WriteFile { filename: "/tmp/test_stderr.txt".to_string(), should_append: false, content: b"ls: cannot access\n".to_vec() },
        ]
    );
}

#[test]
fn output_without_redirect_is_printed_once() {
    let cmd = stage("echo", &[], None, None, None);
    assert_eq!(write_builtin_output(&cmd, b"x\n"), vec![OutputAction::Print(b"x\n".to_vec())]);
    assert_eq!(write_output(&None, b"abc"), OutputAction::Print(b"abc".to_vec()));
}

#[test]
fn write_failure_names_the_file() {
    assert_eq!(write_failure_message("/no/dir/out", "No such file or directory (os error 2)"), "Failed to write output to file '/no/dir/out': No such file or directory (os error 2)");
}

#[test]
fn parsed_pipeline_is_planned_stage_by_stage() {
    let mut cmd = ParsedCommand::parse_command("echo \"hello world\" | cat > /tmp/out.txt").unwrap().unwrap();
    cmd.piped_command.as_mut().unwrap().command = "/bin/cat".to_string();
    let plans = plan_pipeline(&cmd);
    assert_eq!(plans.len(), 2);
    assert_eq!(plans[0], plan(StageKind::Builtin, "echo", &["hello world"], false, true, false));
    assert_eq!(plans[1], plan(StageKind::External, "cat", &[], true, false, true));
    let last = get_pipeline_commands(&cmd)[1];
    assert_eq!(
        write_command_output(last, b"hello world\n", b""),
        vec![
            OutputAction::WriteFile { filename: "/tmp/out.txt".to_string(), should_append: false, content: b"hello world\n".to_vec() },
            OutputAction::Print(Vec::new()),
        ]
    );
}

#[test]
fn file_name_is_the_last_component_of_the_path() {
    assert_eq!(parse_executable_path("dir/").name, "dir");
    assert_eq!(parse_executable_path("/").name, "/");
    assert_eq!(parse_executable_path("a/..").name, "a/..");
    assert_eq!(parse_executable_path("a/b/.").name, "b");
}

fn to_file(filename: &str, should_append: bool, content: &[u8]) -> OutputAction {
    OutputAction::WriteFile { filename: filename.to_string(), should_append, content: content.to_vec() }
}

/// The plan of `first | second` where the second stage is a program that
/// writes to `file`, and what happens to the bytes it writes.
fn builtin_into_program(first: ParsedCommand, program: &str, args: &[&str], file: &str, append: bool, written: &[u8]) {
    let resolved = format!("/usr/bin/{}", program);
    let second = stage(&resolved, args, Some((file, append)), None, None);
    let first_name = first.command.clone();
    let first_args: Vec<String> = first.args.clone();
    let first_args: Vec<&str> = first_args.iter().map(|a| a.as_str()).collect();
    let chain = ParsedCommand { piped_command: Some(Box::new(second)), ..first };
    let plans = plan_pipeline(&chain);
    assert_eq!(plans[0], plan(StageKind::Builtin, &first_name, &first_args, false, true, false));
    assert_eq!(plans[1], plan(StageKind::External, program, args, true, false, true));
    let last = get_pipeline_commands(&chain)[1];
    assert_eq!(write_command_output(last, written, b""), vec![to_file(file, append, written), OutputAction::Print(Vec::new())]);
}

#[test]
fn test_pipeline_with_grep() {
    builtin_into_program(stage("echo", &["-e", "foo\nbar\nbaz"], None, None, None), "grep", &["ba"], "/tmp/test_pipe_grep.txt", false, b"bar\nbaz\n");
}

#[test]
fn test_pipeline_head_with_args() {
    builtin_into_program(stage("echo", &["-e", "line1\nline2\nline3"], None, None, None), "head", &["-n", "2"], "/tmp/test_pipe_head.txt", false, b"line1\nline2\n");
}

#[test]
fn test_pipeline_with_wc() {
    builtin_into_program(stage("echo", &["hello world"], None, None, None), "wc", &["-w"], "/tmp/test_pipe_wc.txt", false, b"2\n");
}

#[test]
fn test_pipeline_append_mode() {
    builtin_into_program(stage("echo", &["appended"], None, None, None), "cat", &[], "/tmp/test_pipe_append.txt", true, b"appended\n");
}

#[test]
fn test_pipeline_builtin_echo_to_wc() {
    builtin_into_program(stage("echo", &["abc"], None, None, None), "wc", &["-w"], "/tmp/test_builtin_echo_wc.txt", false, b"1\n");
}

#[test]
fn test_pipeline_builtin_pwd_to_cat() {
    builtin_into_program(stage("pwd", &[], None, None, None), "cat", &[], "/tmp/test_builtin_pwd_cat.txt", false, b"/work\n");
}

#[test]
fn test_pipeline_stderr_redirect_on_second_command() {
    let second = stage("/bin/grep", &["nonexistent_pattern_xyz"], Some(("/tmp/out.txt", false)), Some(("/tmp/err.txt", false)), None);
    let first = stage("echo", &["test"], None, None, Some(second));
    let plans = plan_pipeline(&first);
    assert_eq!(plans[1], plan(StageKind::External, "grep", &["nonexistent_pattern_xyz"], true, false, true));
    let last = get_pipeline_commands(&first)[1];
    assert_eq!(write_command_output(last, b"", b""), vec![to_file("/tmp/out.txt", false, b""), to_file("/tmp/err.txt", false, b"")]);
}

#[test]
fn test_pipeline_tail_with_head_limited_input() {
    let second = stage("/usr/bin/head", &["-n", "5"], Some(("/tmp/out.txt", false)), None, None);
    let first = stage("/usr/bin/tail", &["/tmp/in.txt"], None, None, Some(second));
    assert_eq!(
        plan_pipeline(&first),
        vec![
            plan(StageKind::External, "tail", &["/tmp/in.txt"], false, true, false),
            plan(StageKind::External, "head", &["-n", "5"], true, false, true),
        ]
    );
}

#[test]
fn test_external_cat_to_builtin_echo() {
    let second = stage("echo", &["done"], Some(("/tmp/test_cat_echo_output.txt", false)), None, None);
    let first = stage("/bin/cat", &["/tmp/test_cat_echo_input.txt"], None, None, Some(second));
    let plans = plan_pipeline(&first);
    assert_eq!(plans[0], plan(StageKind::External, "cat", &["/tmp/test_cat_echo_input.txt"], false, true, false));
    assert_eq!(plans[1], plan(StageKind::Builtin, "echo", &["done"], false, false, false));
    let last = get_pipeline_commands(&first)[1];
    assert_eq!(write_builtin_output(last, b"done\n"), vec![to_file("/tmp/test_cat_echo_output.txt", false, b"done\n")]);
}

#[test]
fn test_stdout_redirect_empty_stdout() {
    let cmd = stage("/bin/ls", &["/nonexistent"], Some(("/tmp/test_empty_stdout.txt", false)), None, None);
    assert_eq!(plan_pipeline(&cmd), vec![plan(StageKind::External, "ls", &["/nonexistent"], false, false, true)]);
    assert_eq!(
        write_command_output(&cmd, b"", b"ls: cannot access '/nonexistent'\n"),
        vec![to_file("/tmp/test_empty_stdout.txt", false, b""), OutputAction::Print(b"ls: cannot access '/nonexistent'\n".to_vec())]
    );
}

#[test]
fn test_stderr_redirect_append_mode() {
    let cmd = stage("/bin/ls", &["/nonexistent_directory"], None, Some(("/tmp/test_stderr_append.txt", true)), None);
    assert_eq!(plan_pipeline(&cmd), vec![plan(StageKind::External, "ls", &["/nonexistent_directory"], false, false, true)]);
    assert_eq!(
        write_command_output(&cmd, b"", b"ls: cannot access\n"),
        vec![OutputAction::Print(Vec::new()), to_file("/tmp/test_stderr_append.txt", true, b"ls: cannot access\n")]
    );
}

#[test]
fn every_program_is_waited_for_and_only_the_last_is_written() {
    use_finishing(
        &[StageKind::External, StageKind::Builtin, StageKind::External],
        vec![Finish::Collect(2), Finish::Wait(0), Finish::Write(2)],
    );
    use_finishing(&[StageKind::External, StageKind::External, StageKind::Builtin], vec![Finish::Wait(0), Finish::Wait(1)]);
    use_finishing(&[StageKind::Builtin], vec![]);
    use_finishing(&[StageKind::External], vec![Finish::Collect(0), Finish::Write(0)]);
    use_finishing(&[], vec![]);
    use_finishing(
        &[StageKind::External, StageKind::External, StageKind::External],
        vec![Finish::Collect(2), Finish::Wait(0), Finish::Wait(1), Finish::Write(2)],
    );
}

fn use_finishing(kinds: &[StageKind], expected: Vec<Finish>) {
    let plans: Vec<StagePlan> = kinds.iter().map(|kind| plan(*kind, "p", &[], false, false, false)).collect();
    assert_eq!(finishing(&plans), expected);
}
