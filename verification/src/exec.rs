//! How a chain of commands is run: what each stage reads and writes, what is
//! waited for, and where the output of the last stage goes.

use crate::builtin::{is_builtin, is_builtin_name};
use crate::command::{chain_of, redirect_view, ParsedCommand, Redirect, RedirectView, StageView};
use crate::path::{file_name_of, path_file_name};
use vstd::prelude::*;
use vstd::slice::slice_to_vec;
use vstd::string::StringExecFns;

verus! {

/// The name under which a program is started, and the directory to start it
/// in.
#[derive(Debug, PartialEq)]
pub struct ExecutableInfo {
    pub name: String,
    pub directory: String,
}

/// The name under which the program at `executable` is started: the file
/// name of the path, or the whole text where the path ends in none.
pub open spec fn executable_name(executable: Seq<char>) -> Seq<char> {
    match path_file_name(executable) {
        Some(name) => name,
        None => executable,
    }
}

/// Tells the file name of the path of a program; it is always started in
/// the directory `.`.
pub fn parse_executable_path(executable: &str) -> (r: ExecutableInfo)
    ensures
        r.name@ == executable_name(executable@),
        r.directory@ == "."@,
{
    let name = match file_name_of(executable) {
        Some(name) => name,
        None => String::from_str(executable),
    };
    ExecutableInfo { name, directory: String::from_str(".") }
}

/// One thing to do with the bytes that the last stage of a chain has
/// written.
#[derive(Debug, PartialEq)]
pub enum OutputAction {
    /// Show the bytes on the terminal.
    Print(Vec<u8>),
    /// Open or create the file, empty it unless `should_append`, and write
    /// the bytes at its end.
    WriteFile { filename: String, should_append: bool, content: Vec<u8> },
}

/// An output action as a mathematical value.
pub enum OutputActionView {
    Print(Seq<u8>),
    WriteFile { filename: Seq<char>, should_append: bool, content: Seq<u8> },
}

impl View for OutputAction {
    type V = OutputActionView;

    open spec fn view(&self) -> OutputActionView {
        match self {
            OutputAction::Print(bytes) => OutputActionView::Print(bytes@),
            OutputAction::WriteFile { filename, should_append, content } => {
                OutputActionView::WriteFile {
                    filename: filename@,
                    should_append: *should_append,
                    content: content@,
                }
            },
        }
    }
}

/// Where the bytes of a stream go: to the file of its redirection, or to
/// the terminal without one.
pub open spec fn output_of(redirect: Option<RedirectView>, content: Seq<u8>) -> OutputActionView {
    match redirect {
        Some(target) => OutputActionView::WriteFile {
            filename: target.filename,
            should_append: target.should_append,
            content,
        },
        None => OutputActionView::Print(content),
    }
}

/// Where the bytes of a stream go.
pub fn write_output(redirect: &Option<Redirect>, content: &[u8]) -> (r: OutputAction)
    ensures
        r@ == output_of(redirect_view(*redirect), content@),
{
    match redirect {
        Some(target) => OutputAction::WriteFile {
            filename: target.filename.clone(),
            should_append: target.should_append,
            content: slice_to_vec(content),
        },
        None => OutputAction::Print(slice_to_vec(content)),
    }
}

/// What to do with the output of a builtin that is the last stage: its bytes
/// go where standard output goes; a redirection of standard error gets no
/// bytes, but its file is opened all the same.
pub open spec fn builtin_outputs(stage: StageView, stdout: Seq<u8>) -> Seq<OutputActionView> {
    match stage.stderr_redirect {
        Some(target) => seq![
            output_of(stage.stdout_redirect, stdout),
            output_of(Some(target), Seq::empty()),
        ],
        None => seq![output_of(stage.stdout_redirect, stdout)],
    }
}

/// What to do with the output of a program that is the last stage: each of
/// its two streams goes where its redirection says.
pub open spec fn command_outputs(stage: StageView, stdout: Seq<u8>, stderr: Seq<u8>) -> Seq<
    OutputActionView,
> {
    seq![output_of(stage.stdout_redirect, stdout), output_of(stage.stderr_redirect, stderr)]
}

/// A list of output actions as mathematical values.
pub open spec fn action_views(actions: Seq<OutputAction>) -> Seq<OutputActionView> {
    actions.map_values(|a: OutputAction| a@)
}

/// What to do with the bytes `stdout` that the builtin `parsed_command`,
/// the last stage of its chain, has written.
pub fn write_builtin_output(parsed_command: &ParsedCommand, stdout: &[u8]) -> (r: Vec<OutputAction>)
    ensures
        action_views(r@) == builtin_outputs(parsed_command.head(), stdout@),
{
    let mut actions: Vec<OutputAction> = Vec::new();
    actions.push(write_output(&parsed_command.stdout_redirect, stdout));
    if parsed_command.stderr_redirect.is_some() {
        let nothing: Vec<u8> = Vec::new();
        actions.push(write_output(&parsed_command.stderr_redirect, nothing.as_slice()));
    }
    actions
}

/// What to do with the bytes that the program `parsed_command`, the last
/// stage of its chain, has written to its two streams.
pub fn write_command_output(parsed_command: &ParsedCommand, stdout: &[u8], stderr: &[u8]) -> (r:
    Vec<OutputAction>)
    ensures
        action_views(r@) == command_outputs(parsed_command.head(), stdout@, stderr@),
{
    let mut actions: Vec<OutputAction> = Vec::new();
    actions.push(write_output(&parsed_command.stdout_redirect, stdout));
    actions.push(write_output(&parsed_command.stderr_redirect, stderr));
    actions
}

/// The text of the error for a file that could not be written.
pub fn write_failure_message(filename: &str, reason: &str) -> (r: String)
    ensures
        r@ == "Failed to write output to file '"@ + filename@ + "': "@ + reason@,
{
    let mut message = String::from_str("Failed to write output to file '");
    message.append(filename);
    message.append("': ");
    message.append(reason);
    message
}

/// The stages of the chain that starts at `command`, first stage first.
pub fn get_pipeline_commands(command: &ParsedCommand) -> (r: Vec<&ParsedCommand>)
    ensures
        r@.len() == command@.len(),
        forall|i: int| 0 <= i < r@.len() ==> (#[trigger] r@[i]).head() == command@[i],
{
    let mut commands: Vec<&ParsedCommand> = Vec::new();
    let mut current: &ParsedCommand = command;
    let mut done = false;
    while !done
        invariant
            !done ==> commands@.len() + current@.len() == command@.len(),
            !done ==> forall|k: int|
                0 <= k < current@.len() ==> #[trigger] current@[k] == command@[commands@.len() + k],
            done ==> commands@.len() == command@.len(),
            forall|i: int|
                0 <= i < commands@.len() ==> (#[trigger] commands@[i]).head() == command@[i],
        decreases (if done {
            0nat
        } else {
            current@.len() + 1
        }),
    {
        proof {
            reveal_with_fuel(chain_of, 2);
        }
        let ghost before = current@;
        assert(current.head() == before[0]);
        commands.push(current);
        match &current.piped_command {
            Some(next) => {
                assert forall|k: int| 0 <= k < next@.len() implies #[trigger] next@[k]
                    == command@[commands@.len() + k] by {
                    assert(next@[k] == before[k + 1]);
                }
                current = &**next;
            },
            None => {
                done = true;
            },
        }
    }
    commands
}

/// How a stage is run.
#[derive(Clone, Copy, Debug, PartialEq, Eq, Structural)]
pub enum StageKind {
    /// By the shell itself, without a process.
    Builtin,
    /// As a process of its own.
    External,
}

/// How one stage of a chain is to be run.
#[derive(Debug, PartialEq)]
pub struct StagePlan {
    pub kind: StageKind,
    /// The name of the builtin, or the name under which the program is
    /// started.
    pub program: String,
    pub args: Vec<String>,
    /// The standard input is what the stage before has written; otherwise
    /// it is the shell's own. A builtin reads no input.
    pub stdin_from_previous: bool,
    /// What the stage writes to standard output is handed to the next stage
    /// and shown nowhere.
    pub stdout_to_next: bool,
    /// Both output streams of the program are gathered, to be written where
    /// the redirections say; otherwise they go straight to the terminal.
    pub capture_output: bool,
}

/// A stage's plan as a mathematical value.
pub struct StagePlanView {
    pub kind: StageKind,
    pub program: Seq<char>,
    pub args: Seq<Seq<char>>,
    pub stdin_from_previous: bool,
    pub stdout_to_next: bool,
    pub capture_output: bool,
}

impl View for StagePlan {
    type V = StagePlanView;

    open spec fn view(&self) -> StagePlanView {
        StagePlanView {
            kind: self.kind,
            program: self.program@,
            args: self.args.deep_view(),
            stdin_from_previous: self.stdin_from_previous,
            stdout_to_next: self.stdout_to_next,
            capture_output: self.capture_output,
        }
    }
}

/// How stage `i` of the chain `stages` is run. Every stage but the last
/// hands its output to the next one, whatever its redirections say. A
/// program reads what the stage before it has written, the first stage the
/// shell's own input. The output of a program that is the last stage is
/// gathered only where one of its streams is redirected.
pub open spec fn planned(stages: Seq<StageView>, i: int) -> StagePlanView {
    let stage = stages[i];
    let last = i == stages.len() - 1;
    if is_builtin_name(stage.command) {
        StagePlanView {
            kind: StageKind::Builtin,
            program: stage.command,
            args: stage.args,
            stdin_from_previous: false,
            stdout_to_next: !last,
            capture_output: false,
        }
    } else {
        StagePlanView {
            kind: StageKind::External,
            program: executable_name(stage.command),
            args: stage.args,
            stdin_from_previous: i > 0,
            stdout_to_next: !last,
            capture_output: last && (stage.stdout_redirect is Some || stage.stderr_redirect
                is Some),
        }
    }
}

/// A copy of a list of strings.
fn copy_strings(list: &Vec<String>) -> (r: Vec<String>)
    ensures
        r.deep_view() == list.deep_view(),
{
    let mut r: Vec<String> = Vec::new();
    let mut i: usize = 0;
    while i < list.len()
        invariant
            i <= list.len(),
            r.deep_view() == list.deep_view().take(i as int),
        decreases list.len() - i,
    {
        r.push(list[i].clone());
        assert(list.deep_view().take(i + 1) =~= list.deep_view().take(i as int).push(
            list[i as int]@,
        ));
        i = i + 1;
    }
    r
}

/// How each of the stages `commands` is run, in their order.
pub fn plan_stages(commands: &Vec<&ParsedCommand>) -> (r: Vec<StagePlan>)
    ensures
        r@.len() == commands@.len(),
        forall|i: int|
            0 <= i < r@.len() ==> (#[trigger] r@[i])@ == planned(
                commands@.map_values(|c: &ParsedCommand| c.head()),
                i,
            ),
{
    let ghost stages = commands@.map_values(|c: &ParsedCommand| c.head());
    let mut plans: Vec<StagePlan> = Vec::new();
    let mut i: usize = 0;
    while i < commands.len()
        invariant
            i <= commands.len(),
            stages == commands@.map_values(|c: &ParsedCommand| c.head()),
            plans@.len() == i,
            forall|k: int| 0 <= k < i ==> (#[trigger] plans@[k])@ == planned(stages, k),
        decreases commands.len() - i,
    {
        let cmd = commands[i];
        let is_last_command = i >= commands.len() - 1;
        let plan = if is_builtin(cmd.command.as_str()) {
            StagePlan {
                kind: StageKind::Builtin,
                program: cmd.command.clone(),
                args: copy_strings(&cmd.args),
                stdin_from_previous: false,
                stdout_to_next: !is_last_command,
                capture_output: false,
            }
        } else {
            StagePlan {
                kind: StageKind::External,
                program: parse_executable_path(cmd.command.as_str()).name,
                args: copy_strings(&cmd.args),
                stdin_from_previous: i > 0,
                stdout_to_next: !is_last_command,
                capture_output: is_last_command && (cmd.stdout_redirect.is_some()
                    || cmd.stderr_redirect.is_some()),
            }
        };
        plans.push(plan);
        i = i + 1;
    }
    plans
}

/// How each stage of the chain that starts at `parsed_command` is run.
pub fn plan_pipeline(parsed_command: &ParsedCommand) -> (r: Vec<StagePlan>)
    ensures
        r@.len() == parsed_command@.len(),
        forall|i: int| 0 <= i < r@.len() ==> (#[trigger] r@[i])@ == planned(parsed_command@, i),
{
    let commands = get_pipeline_commands(parsed_command);
    let plans = plan_stages(&commands);
    plans
}

/// One thing to do once every stage of a chain is started.
#[derive(Clone, Copy, Debug, PartialEq, Eq, Structural)]
pub enum Finish {
    /// Read all that the program of this stage writes, until it ends.
    Collect(usize),
    /// Wait until the program of this stage ends.
    Wait(usize),
    /// Write what was read from the program of this stage where its
    /// redirections say.
    Write(usize),
}

/// The waits for the programs among the first `upto` stages, in their order.
pub open spec fn waits_for(plans: Seq<StagePlanView>, upto: int) -> Seq<Finish>
    decreases upto,
{
    if upto <= 0 || upto > plans.len() || upto > usize::MAX {
        Seq::empty()
    } else if plans[upto - 1].kind is External {
        waits_for(plans, upto - 1).push(Finish::Wait((upto - 1) as usize))
    } else {
        waits_for(plans, upto - 1)
    }
}

/// What is left to do once every stage is started. Every program is waited
/// for, whether its output is used or not. Where the last stage is a
/// program, its output is read first, so that it cannot block on a full
/// pipe while the others are waited for, and written last. The output of no
/// other stage is written anywhere.
pub open spec fn finishing_of(plans: Seq<StagePlanView>) -> Seq<Finish> {
    let last = plans.len() - 1;
    if plans.len() > 0 && plans.len() <= usize::MAX && plans[last].kind is External {
        seq![Finish::Collect(last as usize)] + waits_for(plans, last) + seq![
            Finish::Write(last as usize),
        ]
    } else {
        waits_for(plans, plans.len() as int)
    }
}

/// The plans as mathematical values.
pub open spec fn plan_views(plans: Seq<StagePlan>) -> Seq<StagePlanView> {
    plans.map_values(|p: StagePlan| p@)
}

/// What is left to do once every stage of `plans` is started.
pub fn finishing(plans: &Vec<StagePlan>) -> (r: Vec<Finish>)
    ensures
        r@ == finishing_of(plan_views(plans@)),
{
    let ghost views = plan_views(plans@);
    let len = plans.len();
    let mut steps: Vec<Finish> = Vec::new();
    let collected = len > 0 && match plans[len - 1].kind {
        StageKind::External => true,
        StageKind::Builtin => false,
    };
    let upto: usize = if collected {
        steps.push(Finish::Collect(len - 1));
        len - 1
    } else {
        len
    };
    let ghost head = steps@;
    let mut i: usize = 0;
    while i < upto
        invariant
            i <= upto <= plans.len(),
            views == plan_views(plans@),
            steps@ == head + waits_for(views, i as int),
        decreases upto - i,
    {
        match plans[i].kind {
            StageKind::External => {
                steps.push(Finish::Wait(i));
            },
            StageKind::Builtin => {},
        }
        i = i + 1;
    }
    if collected {
        steps.push(Finish::Write(len - 1));
    }
    steps
}

} // verus!
