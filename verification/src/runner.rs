//! How a script is run: what is to be done next, and what has been put out so far.

use crate::api::script_dir;
use crate::imports::extract_imports;
use vstd::prelude::*;
use vstd::string::*;

verus! {

use crate::api;
use crate::imports;

broadcast use vstd::string::group_string_axioms;

/// A program and its arguments.
#[derive(Debug)]
pub struct CommandLine {
    pub program: String,
    pub args: Vec<String>,
}

/// A program and its arguments, as a value of mathematics.
pub ghost struct CommandView {
    pub program: Seq<char>,
    pub args: Seq<Seq<char>>,
}

impl View for CommandLine {
    type V = CommandView;

    open spec fn view(&self) -> CommandView {
        CommandView { program: self.program@, args: imports::texts(self.args@) }
    }
}

/// What a run is waiting for.
#[derive(Clone, Copy, Debug, PartialEq, Eq, Structural)]
pub enum RunPhase {
    /// That the directory of the task is there.
    MakingDir,
    /// That the script has been written to its file.
    WritingScript,
    /// Whether a module is installed.
    Probing,
    /// That an attempt to install a module is over.
    Installing,
    /// Whether the interpreter of the virtual environment is there.
    Locating,
    /// That the interpreter has started.
    Spawning,
    /// A line from the standard output.
    ReadingOut,
    /// That a line from the standard output has been passed on.
    PublishingOut,
    /// A line from the standard error.
    ReadingErr,
    /// That a line from the standard error has been passed on.
    PublishingErr,
    /// That the interpreter has ended.
    Waiting,
    /// Nothing.
    Done,
}

/// What has happened.
#[derive(Debug)]
pub enum RunEvent {
    DirReady,
    DirFailed(String),
    Written,
    WriteFailed(String),
    /// Whether the module is installed.
    Probed(bool),
    /// The attempt to install the module is over, with or without success.
    Installed,
    /// Whether the interpreter of the virtual environment is there.
    Located(bool),
    Spawned,
    SpawnFailed(String),
    /// A line, without its end.
    Line(String),
    /// There are no more lines, or none that can be read.
    StreamEnd,
    Published,
    /// The interpreter has ended, with or without success.
    Exited(bool),
    WaitFailed(String),
}

/// What has happened, as a value of mathematics.
pub ghost enum EventView {
    DirReady,
    DirFailed(Seq<char>),
    Written,
    WriteFailed(Seq<char>),
    Probed(bool),
    Installed,
    Located(bool),
    Spawned,
    SpawnFailed(Seq<char>),
    Line(Seq<char>),
    StreamEnd,
    Published,
    Exited(bool),
    WaitFailed(Seq<char>),
}

impl View for RunEvent {
    type V = EventView;

    open spec fn view(&self) -> EventView {
        match self {
            RunEvent::DirReady => EventView::DirReady,
            RunEvent::DirFailed(error) => EventView::DirFailed(error@),
            RunEvent::Written => EventView::Written,
            RunEvent::WriteFailed(error) => EventView::WriteFailed(error@),
            RunEvent::Probed(installed) => EventView::Probed(*installed),
            RunEvent::Installed => EventView::Installed,
            RunEvent::Located(there) => EventView::Located(*there),
            RunEvent::Spawned => EventView::Spawned,
            RunEvent::SpawnFailed(error) => EventView::SpawnFailed(error@),
            RunEvent::Line(line) => EventView::Line(line@),
            RunEvent::StreamEnd => EventView::StreamEnd,
            RunEvent::Published => EventView::Published,
            RunEvent::Exited(success) => EventView::Exited(*success),
            RunEvent::WaitFailed(error) => EventView::WaitFailed(error@),
        }
    }
}

/// What is to be done.
#[derive(Debug)]
pub enum RunAction {
    /// Make this directory, unless it is there.
    MakeDir(String),
    /// Write the script to a file.
    WriteScript { path: String, content: String },
    /// Run this to see whether a module is installed: it is where the program succeeds.
    Probe(CommandLine),
    /// Run this to install a module.
    Install(CommandLine),
    /// Look whether this file is there.
    Locate(String),
    /// Start this program and keep hold of its output.
    Spawn(CommandLine),
    /// Read a line from the standard output.
    ReadOut,
    /// Read a line from the standard error.
    ReadErr,
    /// Pass a line on to those who listen, and add it to what the task has put out.
    Publish(String),
    /// Wait for the program to end.
    Wait,
    /// The run is over and has put out this.
    Finish(String),
}

/// What is to be done, as a value of mathematics.
pub ghost enum ActionView {
    MakeDir(Seq<char>),
    WriteScript { path: Seq<char>, content: Seq<char> },
    Probe(CommandView),
    Install(CommandView),
    Locate(Seq<char>),
    Spawn(CommandView),
    ReadOut,
    ReadErr,
    Publish(Seq<char>),
    Wait,
    Finish(Seq<char>),
}

impl View for RunAction {
    type V = ActionView;

    open spec fn view(&self) -> ActionView {
        match self {
            RunAction::MakeDir(path) => ActionView::MakeDir(path@),
            RunAction::WriteScript { path, content } => ActionView::WriteScript {
                path: path@,
                content: content@,
            },
            RunAction::Probe(command) => ActionView::Probe(command@),
            RunAction::Install(command) => ActionView::Install(command@),
            RunAction::Locate(path) => ActionView::Locate(path@),
            RunAction::Spawn(command) => ActionView::Spawn(command@),
            RunAction::ReadOut => ActionView::ReadOut,
            RunAction::ReadErr => ActionView::ReadErr,
            RunAction::Publish(line) => ActionView::Publish(line@),
            RunAction::Wait => ActionView::Wait,
            RunAction::Finish(output) => ActionView::Finish(output@),
        }
    }
}

/// The file of a task's script.
pub open spec fn script_file(id: Seq<char>) -> Seq<char> {
    api::dir_of(id) + "/"@ + id + ".py"@
}

/// The file of a task's script.
pub fn script_path(id: &str) -> (r: String)
    ensures
        r@ == script_file(id@),
{
    let mut r = script_dir(id);
    r.append("/");
    r.append(id);
    r.append(".py");
    r
}

/// The command that succeeds where `module` is installed.
pub open spec fn probing(module: Seq<char>) -> CommandView {
    CommandView { program: "venv/bin/python"@, args: seq!["-c"@, "import "@ + module] }
}

/// The command that succeeds where `module` is installed.
pub fn probe_command(module: &str) -> (r: CommandLine)
    ensures
        r@ == probing(module@),
{
    let mut code = "import ".to_owned();
    code.append(module);
    let mut args: Vec<String> = Vec::new();
    args.push("-c".to_owned());
    args.push(code);
    let r = CommandLine { program: "venv/bin/python".to_owned(), args };
    assert(r@.args =~= probing(module@).args);
    r
}

/// The command that installs `module`.
pub open spec fn installing(module: Seq<char>) -> CommandView {
    CommandView { program: "venv/bin/python"@, args: seq!["-m"@, "pip"@, "install"@, module] }
}

/// The command that installs `module`.
pub fn install_command(module: &str) -> (r: CommandLine)
    ensures
        r@ == installing(module@),
{
    let mut args: Vec<String> = Vec::new();
    args.push("-m".to_owned());
    args.push("pip".to_owned());
    args.push("install".to_owned());
    args.push(module.to_owned());
    let r = CommandLine { program: "venv/bin/python".to_owned(), args };
    assert(r@.args =~= installing(module@).args);
    r
}

/// The command that runs the script of a task, by the interpreter of the virtual environment
/// where that is there.
pub open spec fn spawning(id: Seq<char>, in_venv: bool) -> CommandView {
    CommandView {
        program: if in_venv {
            "venv/bin/python3"@
        } else {
            "python3"@
        },
        args: seq!["-u"@, script_file(id)],
    }
}

/// The command that runs the script of a task.
pub fn spawn_command(id: &str, in_venv: bool) -> (r: CommandLine)
    ensures
        r@ == spawning(id@, in_venv),
{
    let program = if in_venv {
        "venv/bin/python3".to_owned()
    } else {
        "python3".to_owned()
    };
    let mut args: Vec<String> = Vec::new();
    args.push("-u".to_owned());
    args.push(script_path(id));
    let r = CommandLine { program, args };
    assert(r@.args =~= spawning(id@, in_venv).args);
    r
}

/// A run of a script under way.
#[derive(Debug)]
pub struct ScriptRun {
    task_id: String,
    content: String,
    modules: Vec<String>,
    next: usize,
    output: String,
    phase: RunPhase,
}

/// A run of a script under way, as a value of mathematics.
pub ghost struct RunView {
    pub task_id: Seq<char>,
    pub content: Seq<char>,
    /// The modules that have not been dealt with, the current one first.
    pub modules: Seq<Seq<char>>,
    /// The lines that have been read, each with its end.
    pub output: Seq<char>,
    pub phase: RunPhase,
}

impl View for ScriptRun {
    type V = RunView;

    closed spec fn view(&self) -> RunView {
        RunView {
            task_id: self.task_id@,
            content: self.content@,
            modules: imports::texts(self.modules@).skip(self.next as int),
            output: self.output@,
            phase: self.phase,
        }
    }
}

/// A run that has been asked for.
pub open spec fn run_begun(task_id: Seq<char>, content: Seq<char>) -> RunView {
    RunView {
        task_id,
        content,
        modules: Seq::empty(),
        output: Seq::empty(),
        phase: RunPhase::MakingDir,
    }
}

/// Whether `event` is one that a run in `phase` waits for.
pub open spec fn is_awaited(phase: RunPhase, event: EventView) -> bool {
    match event {
        EventView::DirReady | EventView::DirFailed(_) => phase == RunPhase::MakingDir,
        EventView::Written | EventView::WriteFailed(_) => phase == RunPhase::WritingScript,
        EventView::Probed(_) => phase == RunPhase::Probing,
        EventView::Installed => phase == RunPhase::Installing,
        EventView::Located(_) => phase == RunPhase::Locating,
        EventView::Spawned | EventView::SpawnFailed(_) => phase == RunPhase::Spawning,
        EventView::Line(_) | EventView::StreamEnd => phase == RunPhase::ReadingOut || phase
            == RunPhase::ReadingErr,
        EventView::Published => phase == RunPhase::PublishingOut || phase
            == RunPhase::PublishingErr,
        EventView::Exited(_) | EventView::WaitFailed(_) => phase == RunPhase::Waiting,
    }
}

/// The run that goes on to its first module, or to the interpreter where no module is left.
pub open spec fn to_next_module(run: RunView) -> (RunView, ActionView) {
    if run.modules.len() > 0 {
        (
            RunView { phase: RunPhase::Probing, ..run },
            ActionView::Probe(probing(run.modules.first())),
        )
    } else {
        (
            RunView { phase: RunPhase::Locating, ..run },
            ActionView::Locate("venv/bin/python3"@),
        )
    }
}

/// The run that is over.
pub open spec fn run_over(run: RunView, output: Seq<char>) -> (RunView, ActionView) {
    (RunView { phase: RunPhase::Done, ..run }, ActionView::Finish(output))
}

/// What becomes of a run, and what is to be done next, once `event` has happened.
pub open spec fn run_next(run: RunView, event: EventView) -> (RunView, ActionView) {
    match event {
        EventView::DirReady => (
            RunView { phase: RunPhase::WritingScript, ..run },
            ActionView::WriteScript { path: script_file(run.task_id), content: run.content },
        ),
        EventView::DirFailed(error) => run_over(
            run,
            "ERROR: Failed to create script directory: "@ + error,
        ),
        EventView::Written => to_next_module(
            RunView { modules: imports::imports_of(run.content), ..run },
        ),
        EventView::WriteFailed(error) => run_over(
            run,
            "ERROR: Failed to write script file: "@ + error,
        ),
        EventView::Probed(installed) => if installed {
            to_next_module(RunView { modules: run.modules.drop_first(), ..run })
        } else {
            (
                RunView { phase: RunPhase::Installing, ..run },
                ActionView::Install(installing(run.modules.first())),
            )
        },
        EventView::Installed => to_next_module(
            RunView { modules: run.modules.drop_first(), ..run },
        ),
        EventView::Located(there) => (
            RunView { phase: RunPhase::Spawning, ..run },
            ActionView::Spawn(spawning(run.task_id, there)),
        ),
        EventView::Spawned => (
            RunView { phase: RunPhase::ReadingOut, ..run },
            ActionView::ReadOut,
        ),
        EventView::SpawnFailed(error) => run_over(run, "EXECUTION FAILED: "@ + error),
        EventView::Line(line) => (
            RunView {
                output: run.output + line.push('\n'),
                phase: if run.phase == RunPhase::ReadingOut {
                    RunPhase::PublishingOut
                } else {
                    RunPhase::PublishingErr
                },
                ..run
            },
            ActionView::Publish(line),
        ),
        EventView::StreamEnd => if run.phase == RunPhase::ReadingOut {
            (RunView { phase: RunPhase::ReadingErr, ..run }, ActionView::ReadErr)
        } else {
            (RunView { phase: RunPhase::Waiting, ..run }, ActionView::Wait)
        },
        EventView::Published => if run.phase == RunPhase::PublishingOut {
            (RunView { phase: RunPhase::ReadingOut, ..run }, ActionView::ReadOut)
        } else {
            (RunView { phase: RunPhase::ReadingErr, ..run }, ActionView::ReadErr)
        },
        EventView::Exited(success) => if success {
            run_over(run, run.output)
        } else {
            run_over(run, "ERROR: "@ + run.output)
        },
        EventView::WaitFailed(error) => run_over(
            run,
            "ERROR: Failed to wait for python process: "@ + error,
        ),
    }
}

/// `tail` behind `head`.
fn join(head: &str, tail: &str) -> (r: String)
    ensures
        r@ == head@ + tail@,
{
    let mut r = head.to_owned();
    r.append(tail);
    r
}

impl ScriptRun {
    /// What every run keeps: there is a module to deal with while one is dealt with.
    pub closed spec fn wf(&self) -> bool {
        &&& self.next <= self.modules@.len()
        &&& self.phase == RunPhase::Probing || self.phase == RunPhase::Installing ==> self.next
            < self.modules@.len()
    }

    /// Asks for a run of the script `content` of the task `task_id`.
    pub fn begin(task_id: &str, content: &str) -> (r: (ScriptRun, RunAction))
        ensures
            r.0.wf(),
            r.0@ == run_begun(task_id@, content@),
            r.1@ == ActionView::MakeDir(api::dir_of(task_id@)),
    {
        let run = ScriptRun {
            task_id: task_id.to_owned(),
            content: content.to_owned(),
            modules: Vec::new(),
            next: 0,
            output: String::new(),
            phase: RunPhase::MakingDir,
        };
        assert(run@.modules =~= Seq::empty());
        (run, RunAction::MakeDir(script_dir(task_id)))
    }

    /// Whether the run waits for `event`.
    pub fn awaits(&self, event: &RunEvent) -> (r: bool)
        ensures
            r == is_awaited(self@.phase, event@),
    {
        match event {
            RunEvent::DirReady | RunEvent::DirFailed(_) => self.phase == RunPhase::MakingDir,
            RunEvent::Written | RunEvent::WriteFailed(_) => self.phase == RunPhase::WritingScript,
            RunEvent::Probed(_) => self.phase == RunPhase::Probing,
            RunEvent::Installed => self.phase == RunPhase::Installing,
            RunEvent::Located(_) => self.phase == RunPhase::Locating,
            RunEvent::Spawned | RunEvent::SpawnFailed(_) => self.phase == RunPhase::Spawning,
            RunEvent::Line(_) | RunEvent::StreamEnd => self.phase == RunPhase::ReadingOut
                || self.phase == RunPhase::ReadingErr,
            RunEvent::Published => self.phase == RunPhase::PublishingOut || self.phase
                == RunPhase::PublishingErr,
            RunEvent::Exited(_) | RunEvent::WaitFailed(_) => self.phase == RunPhase::Waiting,
        }
    }

    fn turn_to_module(&mut self) -> (r: RunAction)
        requires
            old(self).next <= old(self).modules@.len(),
        ensures
            final(self).wf(),
            (final(self)@, r@) == to_next_module(old(self)@),
    {
        if self.next < self.modules.len() {
            self.phase = RunPhase::Probing;
            RunAction::Probe(probe_command(self.modules[self.next].as_str()))
        } else {
            self.phase = RunPhase::Locating;
            RunAction::Locate("venv/bin/python3".to_owned())
        }
    }

    fn leave_module(&mut self) -> (r: RunAction)
        requires
            old(self).next < old(self).modules@.len(),
        ensures
            final(self).wf(),
            (final(self)@, r@) == to_next_module(
                (RunView { modules: old(self)@.modules.drop_first(), ..old(self)@ }),
            ),
    {
        let ghost all = imports::texts(self.modules@);
        assert(all.skip(self.next as int).drop_first() =~= all.skip(self.next + 1));
        assert(self.next < self.modules.len());
        self.next = self.next + 1;
        self.turn_to_module()
    }

    fn end(&mut self, output: String) -> (r: RunAction)
        requires
            old(self).wf(),
        ensures
            final(self).wf(),
            (final(self)@, r@) == run_over(old(self)@, output@),
    {
        self.phase = RunPhase::Done;
        RunAction::Finish(output)
    }

    /// Takes note of `event` and tells what is to be done next.
    pub fn step(&mut self, event: RunEvent) -> (r: RunAction)
        requires
            old(self).wf(),
            is_awaited(old(self)@.phase, event@),
        ensures
            final(self).wf(),
            (final(self)@, r@) == run_next(old(self)@, event@),
    {
        match event {
            RunEvent::DirReady => {
                self.phase = RunPhase::WritingScript;
                RunAction::WriteScript {
                    path: script_path(self.task_id.as_str()),
                    content: self.content.clone(),
                }
            },
            RunEvent::DirFailed(error) => {
                let output = join("ERROR: Failed to create script directory: ", error.as_str());
                self.end(output)
            },
            RunEvent::Written => {
                self.modules = extract_imports(self.content.as_str());
                self.next = 0;
                assert(imports::texts(self.modules@).skip(0) =~= imports::texts(self.modules@));
                self.turn_to_module()
            },
            RunEvent::WriteFailed(error) => {
                let output = join("ERROR: Failed to write script file: ", error.as_str());
                self.end(output)
            },
            RunEvent::Probed(installed) => {
                if installed {
                    self.leave_module()
                } else {
                    self.phase = RunPhase::Installing;
                    RunAction::Install(install_command(self.modules[self.next].as_str()))
                }
            },
            RunEvent::Installed => self.leave_module(),
            RunEvent::Located(there) => {
                self.phase = RunPhase::Spawning;
                RunAction::Spawn(spawn_command(self.task_id.as_str(), there))
            },
            RunEvent::Spawned => {
                self.phase = RunPhase::ReadingOut;
                RunAction::ReadOut
            },
            RunEvent::SpawnFailed(error) => {
                let output = join("EXECUTION FAILED: ", error.as_str());
                self.end(output)
            },
            RunEvent::Line(line) => {
                self.output.append(line.as_str());
                self.output.append("\n");
                proof {
                    reveal_strlit("\n");
                    assert("\n"@ =~= seq!['\n']);
                    assert(self.output@ =~= old(self).output@ + line@.push('\n'));
                }
                self.phase = if self.phase == RunPhase::ReadingOut {
                    RunPhase::PublishingOut
                } else {
                    RunPhase::PublishingErr
                };
                RunAction::Publish(line)
            },
            RunEvent::StreamEnd => {
                if self.phase == RunPhase::ReadingOut {
                    self.phase = RunPhase::ReadingErr;
                    RunAction::ReadErr
                } else {
                    self.phase = RunPhase::Waiting;
                    RunAction::Wait
                }
            },
            RunEvent::Published => {
                if self.phase == RunPhase::PublishingOut {
                    self.phase = RunPhase::ReadingOut;
                    RunAction::ReadOut
                } else {
                    self.phase = RunPhase::ReadingErr;
                    RunAction::ReadErr
                }
            },
            RunEvent::Exited(success) => {
                let output = if success {
                    self.output.clone()
                } else {
                    join("ERROR: ", self.output.as_str())
                };
                self.end(output)
            },
            RunEvent::WaitFailed(error) => {
                let output = join("ERROR: Failed to wait for python process: ", error.as_str());
                self.end(output)
            },
        }
    }
}

} // verus!
