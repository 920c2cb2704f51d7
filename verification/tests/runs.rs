use pyscman::runner::{
    install_command, probe_command, script_path, spawn_command, CommandLine, RunAction, RunEvent,
    ScriptRun,
};
use pyscman::task::{CreateTaskRequest, ScheduleType, ScriptTask, TaskStatus};

fn words(command: &CommandLine) -> Vec<String> {
    let mut all = vec![command.program.clone()];
    all.extend(command.args.iter().cloned());
    all
}

/// Takes the run to where the interpreter is looked for, with every module installed.
fn located(content: &str) -> ScriptRun {
    let (mut run, _) = ScriptRun::begin("t", content);
    run.step(RunEvent::DirReady);
    let mut action = run.step(RunEvent::Written);
    while matches!(action, RunAction::Probe(_)) {
        action = run.step(RunEvent::Probed(true));
    }
    assert!(matches!(action, RunAction::Locate(path) if path == "venv/bin/python3"));
    run
}

fn reading() -> ScriptRun {
    let mut run = located("");
    run.step(RunEvent::Located(false));
    assert!(matches!(run.step(RunEvent::Spawned), RunAction::ReadOut));
    run
}

fn finish(action: RunAction) -> String {
    match action {
        RunAction::Finish(output) => output,
        other => panic!("{:?}", other),
    }
}

#[test]
fn commands_are_put_together() {
    assert_eq!(words(&probe_command("os")), vec!["venv/bin/python", "-c", "import os"]);
    assert_eq!(words(&install_command("six")), vec!["venv/bin/python", "-m", "pip", "install", "six"]);
    assert_eq!(words(&spawn_command("t", true)), vec!["venv/bin/python3", "-u", "data/scripts/t/t.py"]);
    assert_eq!(words(&spawn_command("t", false)), vec!["python3", "-u", "data/scripts/t/t.py"]);
    assert_eq!(script_path("x"), "data/scripts/x/x.py");
}

#[test]
fn the_script_is_written_first() {
    let (mut run, action) = ScriptRun::begin("t", "import a");
    assert!(matches!(action, RunAction::MakeDir(path) if path == "data/scripts/t"));
    match run.step(RunEvent::DirReady) {
        RunAction::WriteScript { path, content } => {
            assert_eq!(path, "data/scripts/t/t.py");
            assert_eq!(content, "import a");
        },
        other => panic!("{:?}", other),
    }
}

#[test]
fn missing_modules_are_installed_one_by_one() {
    let (mut run, _) = ScriptRun::begin("t", "import b, a\nfrom c import d");
    run.step(RunEvent::DirReady);
    let mut asked: Vec<String> = Vec::new();
    let mut action = run.step(RunEvent::Written);
    loop {
        action = match action {
            RunAction::Probe(command) => {
                asked.push(command.args[1].clone());
                let there = command.args[1] != "import b";
                run.step(RunEvent::Probed(there))
            },
            RunAction::Install(command) => {
                asked.push(format!("get {}", command.args[3]));
                run.step(RunEvent::Installed)
            },
            RunAction::Locate(_) => break,
            other => panic!("{:?}", other),
        };
    }
    assert_eq!(asked, vec!["import a", "import b", "get b", "import c"]);
}

#[test]
fn output_and_errors_are_put_together() {
    let mut run = reading();
    assert!(matches!(run.step(RunEvent::Line("one".to_string())), RunAction::Publish(l) if l == "one"));
    assert!(matches!(run.step(RunEvent::Published), RunAction::ReadOut));
    assert!(matches!(run.step(RunEvent::StreamEnd), RunAction::ReadErr));
    assert!(matches!(run.step(RunEvent::Line("two".to_string())), RunAction::Publish(l) if l == "two"));
    assert!(matches!(run.step(RunEvent::Published), RunAction::ReadErr));
    assert!(matches!(run.step(RunEvent::StreamEnd), RunAction::Wait));
    assert_eq!(finish(run.step(RunEvent::Exited(true))), "one\ntwo\n");
}

#[test]
fn a_failing_script_is_marked() {
    let mut run = reading();
    run.step(RunEvent::Line("x".to_string()));
    run.step(RunEvent::Published);
    run.step(RunEvent::StreamEnd);
    run.step(RunEvent::StreamEnd);
    let output = finish(run.step(RunEvent::Exited(false)));
    assert_eq!(output, "ERROR: x\n");
    let mut task = ScriptTask::create(
        "t".to_string(),
        CreateTaskRequest {
            name: String::new(),
            description: String::new(),
            script_content: String::new(),
            schedule: ScheduleType::Once,
        },
    );
    task.finish(output);
    assert_eq!(task.status, TaskStatus::Failed);
}

#[test]
fn each_failure_has_its_words() {
    let (mut run, _) = ScriptRun::begin("t", "");
    let output = finish(run.step(RunEvent::DirFailed("no".to_string())));
    assert_eq!(output, "ERROR: Failed to create script directory: no");

    let (mut run, _) = ScriptRun::begin("t", "");
    run.step(RunEvent::DirReady);
    let output = finish(run.step(RunEvent::WriteFailed("no".to_string())));
    assert_eq!(output, "ERROR: Failed to write script file: no");

    let mut run = located("");
    match run.step(RunEvent::Located(true)) {
        RunAction::Spawn(command) => assert_eq!(command.program, "venv/bin/python3"),
        other => panic!("{:?}", other),
    }
    let output = finish(run.step(RunEvent::SpawnFailed("no".to_string())));
    assert_eq!(output, "EXECUTION FAILED: no");

    let mut run = reading();
    run.step(RunEvent::StreamEnd);
    run.step(RunEvent::StreamEnd);
    let output = finish(run.step(RunEvent::WaitFailed("no".to_string())));
    assert_eq!(output, "ERROR: Failed to wait for python process: no");
}

#[test]
fn a_run_waits_for_what_it_asked() {
    let (mut run, _) = ScriptRun::begin("t", "import a");
    assert!(run.awaits(&RunEvent::DirReady));
    assert!(run.awaits(&RunEvent::DirFailed(String::new())));
    assert!(!run.awaits(&RunEvent::Written));
    run.step(RunEvent::DirReady);
    assert!(run.awaits(&RunEvent::Written));
    assert!(!run.awaits(&RunEvent::DirReady));
    run.step(RunEvent::Written);
    assert!(run.awaits(&RunEvent::Probed(true)));
    assert!(!run.awaits(&RunEvent::Installed));
    run.step(RunEvent::Probed(false));
    assert!(run.awaits(&RunEvent::Installed));
    run.step(RunEvent::Installed);
    assert!(run.awaits(&RunEvent::Located(true)));
    run.step(RunEvent::Located(true));
    assert!(run.awaits(&RunEvent::SpawnFailed(String::new())));
    run.step(RunEvent::Spawned);
    assert!(run.awaits(&RunEvent::StreamEnd));
    assert!(!run.awaits(&RunEvent::Published));
    run.step(RunEvent::Line(String::new()));
    assert!(run.awaits(&RunEvent::Published));
    assert!(!run.awaits(&RunEvent::StreamEnd));
    run.step(RunEvent::Published);
    run.step(RunEvent::StreamEnd);
    run.step(RunEvent::StreamEnd);
    assert!(run.awaits(&RunEvent::Exited(true)));
    run.step(RunEvent::Exited(true));
    assert!(!run.awaits(&RunEvent::Exited(true)));
}

#[test]
fn each_line_is_passed_on_once_and_in_order() {
    let mut run = reading();
    let mut passed_on = Vec::new();
    let mut kept = String::new();
    for (stream, lines) in [["a", "", "a"], ["ERROR", "b\u{e9}", "a"]].iter().enumerate() {
        for line in lines {
            match run.step(RunEvent::Line(line.to_string())) {
                RunAction::Publish(line) => passed_on.push(line),
                other => panic!("{:?}", other),
            }
            kept.push_str(line);
            kept.push('\n');
            let next = run.step(RunEvent::Published);
            if stream == 0 {
                assert!(matches!(next, RunAction::ReadOut));
            } else {
                assert!(matches!(next, RunAction::ReadErr));
            }
        }
        run.step(RunEvent::StreamEnd);
    }
    assert_eq!(passed_on, vec!["a", "", "a", "ERROR", "b\u{e9}", "a"]);
    assert_eq!(finish(run.step(RunEvent::Exited(true))), kept);
}
