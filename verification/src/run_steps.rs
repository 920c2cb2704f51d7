//! What a run asks for at each of its steps, in terms of what has happened so far.

use crate::runner::{CommandLine, RunAction, RunEvent, RunPhase};
use vstd::prelude::*;

verus! {

use crate::api;
use crate::imports;
use crate::run_laws;
use crate::runner;
use crate::runner::{ActionView, CommandView, EventView, RunView};

/// How many modules have been dealt with in `events`: found to be installed, or tried to install.
pub open spec fn modules_done(events: Seq<EventView>) -> nat
    decreases events.len(),
{
    if events.len() == 0 {
        0
    } else {
        modules_done(events.drop_last()) + if events.last() == EventView::Probed(true)
            || events.last() == EventView::Installed {
            1nat
        } else {
            0
        }
    }
}

/// How many streams have come to their end in `events`.
pub open spec fn streams_ended(events: Seq<EventView>) -> nat
    decreases events.len(),
{
    if events.len() == 0 {
        0
    } else {
        streams_ended(events.drop_last()) + if events.last() == EventView::StreamEnd {
            1nat
        } else {
            0
        }
    }
}

/// The file of the script of the task `id`.
pub open spec fn file_of(id: Seq<char>) -> Seq<char> {
    "data/scripts/"@ + id + "/"@ + id + ".py"@
}

/// A program with its arguments.
pub open spec fn command(program: Seq<char>, args: Seq<Seq<char>>) -> CommandView {
    CommandView { program, args }
}

/// What is asked for when `done` of the modules have been dealt with: the next one is probed, or
/// the interpreter is looked for where none is left.
pub open spec fn next_module(modules: Seq<Seq<char>>, done: nat) -> ActionView {
    if done < modules.len() {
        ActionView::Probe(
            command("venv/bin/python"@, seq!["-c"@, "import "@ + modules[done as int]]),
        )
    } else {
        ActionView::Locate("venv/bin/python3"@)
    }
}

/// What is to be asked for in a run of `content` for the task `id` once `event` has happened,
/// where `events` have happened before.
pub open spec fn answer(
    id: Seq<char>,
    content: Seq<char>,
    events: Seq<EventView>,
    event: EventView,
) -> ActionView {
    let modules = imports::imports_of(content);
    let done = modules_done(events);
    let put_out = run_laws::lines_text(run_laws::lines_in(events));
    match event {
        EventView::DirReady => ActionView::WriteScript { path: file_of(id), content },
        EventView::Written => next_module(modules, 0),
        EventView::Probed(true) => next_module(modules, done + 1),
        EventView::Probed(false) => ActionView::Install(
            command(
                "venv/bin/python"@,
                seq!["-m"@, "pip"@, "install"@, modules[done as int]],
            ),
        ),
        EventView::Installed => next_module(modules, done + 1),
        EventView::Located(true) => ActionView::Spawn(
            command("venv/bin/python3"@, seq!["-u"@, file_of(id)]),
        ),
        EventView::Located(false) => ActionView::Spawn(
            command("python3"@, seq!["-u"@, file_of(id)]),
        ),
        EventView::Spawned => ActionView::ReadOut,
        EventView::Line(line) => ActionView::Publish(line),
        EventView::Published => if streams_ended(events) == 0 {
            ActionView::ReadOut
        } else {
            ActionView::ReadErr
        },
        EventView::StreamEnd => if streams_ended(events) == 0 {
            ActionView::ReadErr
        } else {
            ActionView::Wait
        },
        EventView::Exited(true) => ActionView::Finish(put_out),
        EventView::Exited(false) => ActionView::Finish("ERROR: "@ + put_out),
        EventView::DirFailed(error) => ActionView::Finish(
            "ERROR: Failed to create script directory: "@ + error,
        ),
        EventView::WriteFailed(error) => ActionView::Finish(
            "ERROR: Failed to write script file: "@ + error,
        ),
        EventView::SpawnFailed(error) => ActionView::Finish("EXECUTION FAILED: "@ + error),
        EventView::WaitFailed(error) => ActionView::Finish(
            "ERROR: Failed to wait for python process: "@ + error,
        ),
    }
}

/// What holds of a run after `events`.
spec fn stands(id: Seq<char>, content: Seq<char>, events: Seq<EventView>, run: RunView) -> bool {
    let modules = imports::imports_of(content);
    let done = modules_done(events);
    &&& run.task_id == id
    &&& run.content == content
    &&& run.output == run_laws::lines_text(run_laws::lines_in(events))
    &&& run.phase == RunPhase::MakingDir || run.phase == RunPhase::WritingScript ==> done == 0
    &&& run.phase == RunPhase::Probing || run.phase == RunPhase::Installing ==> done
        < modules.len() && run.modules == modules.skip(done as int)
    &&& run.phase == RunPhase::ReadingErr || run.phase == RunPhase::PublishingErr
        ==> streams_ended(events) == 1
    &&& run.phase == RunPhase::Waiting ==> streams_ended(events) == 2
    &&& !(run.phase == RunPhase::ReadingErr || run.phase == RunPhase::PublishingErr || run.phase
        == RunPhase::Waiting || run.phase == RunPhase::Done) ==> streams_ended(events) == 0
}

proof fn lemma_file_of(id: Seq<char>)
    ensures
        runner::script_file(id) == file_of(id),
        api::dir_of(id) == "data/scripts/"@ + id,
{
    crate::task_laws::places_have_their_names(id);
}

proof fn lemma_to_next_module(run: RunView, modules: Seq<Seq<char>>, done: nat)
    requires
        done <= modules.len(),
        run.modules == modules.skip(done as int),
    ensures
        runner::to_next_module(run).1 == next_module(modules, done),
        runner::to_next_module(run).0 == (RunView {
            phase: if done < modules.len() {
                RunPhase::Probing
            } else {
                RunPhase::Locating
            },
            ..run
        }),
{
    if done < modules.len() {
        assert(run.modules.first() == modules[done as int]);
    }
}

proof fn lemma_step(
    id: Seq<char>,
    content: Seq<char>,
    events: Seq<EventView>,
    run: RunView,
    event: EventView,
)
    requires
        stands(id, content, events, run),
        runner::is_awaited(run.phase, event),
    ensures
        runner::run_next(run, event).1 == answer(id, content, events, event),
        stands(id, content, events.push(event), runner::run_next(run, event).0),
{
    let modules = imports::imports_of(content);
    let done = modules_done(events);
    let more = events.push(event);
    assert(more.drop_last() =~= events);
    lemma_file_of(id);
    match event {
        EventView::Written => {
            let ready = RunView { modules, ..run };
            assert(modules.skip(0) =~= modules);
            lemma_to_next_module(ready, modules, 0);
        },
        EventView::Probed(true) | EventView::Installed => {
            let less = RunView { modules: run.modules.drop_first(), ..run };
            assert(modules.skip(done as int).drop_first() =~= modules.skip(done as int + 1));
            lemma_to_next_module(less, modules, done + 1);
        },
        EventView::Probed(false) => {
            assert(run.modules.first() == modules[done as int]);
        },
        EventView::Line(line) => {
            assert(run_laws::lines_in(more) == run_laws::lines_in(events).push(line));
            assert(run_laws::lines_in(more).drop_last() =~= run_laws::lines_in(events));
        },
        _ => {},
    }
}

proof fn lemma_stands(id: Seq<char>, content: Seq<char>, events: Seq<EventView>)
    requires
        run_laws::awaited(runner::run_begun(id, content), events),
    ensures
        stands(id, content, events, run_laws::after(runner::run_begun(id, content), events)),
    decreases events.len(),
{
    let run = runner::run_begun(id, content);
    reveal(run_laws::after);
    reveal(run_laws::awaited);
    if events.len() > 0 {
        let short = events.drop_last();
        lemma_stands(id, content, short);
        lemma_step(id, content, short, run_laws::after(run, short), events.last());
        assert(short.push(events.last()) =~= events);
    }
}

/// At each step a run asks for what follows from what has happened so far: the script is written
/// as it was given, to the file that the interpreter is then started on; the modules that it
/// imports are probed one by one, and installed where they are missing; each line is passed on;
/// and in the end the run has put out the lines that were read, or the words for what went wrong.
pub proof fn each_step_follows_from_what_has_happened(
    id: Seq<char>,
    content: Seq<char>,
    events: Seq<EventView>,
    i: int,
)
    requires
        run_laws::awaited(runner::run_begun(id, content), events),
        0 <= i < events.len(),
    ensures
        run_laws::actions(runner::run_begun(id, content), events).len() == events.len(),
        run_laws::actions(runner::run_begun(id, content), events)[i] == answer(
            id,
            content,
            events.take(i),
            events[i],
        ),
    decreases events.len(),
{
    let run = runner::run_begun(id, content);
    let short = events.drop_last();
    lemma_actions(run, events);
    assert(run_laws::awaited(run, short) && runner::is_awaited(
        run_laws::after(run, short).phase,
        events.last(),
    )) by {
        reveal(run_laws::awaited);
    }
    if i < events.len() - 1 {
        each_step_follows_from_what_has_happened(id, content, short, i);
        assert(short.take(i) =~= events.take(i));
    } else {
        lemma_stands(id, content, short);
        lemma_step(id, content, short, run_laws::after(run, short), events.last());
        assert(events.take(i) =~= short);
    }
}

proof fn lemma_actions(run: RunView, events: Seq<EventView>)
    requires
        events.len() > 0,
    ensures
        run_laws::actions(run, events).len() == events.len(),
        run_laws::actions(run, events) == run_laws::actions(run, events.drop_last()).push(
            runner::run_next(run_laws::after(run, events.drop_last()), events.last()).1,
        ),
    decreases events.len(),
{
    reveal(run_laws::actions);
    if events.len() > 1 {
        lemma_actions(run, events.drop_last());
    } else {
        assert(run_laws::actions(run, events.drop_last()) =~= Seq::empty());
    }
}

/// Whatever happens, each request to write the script carries the content that the run was begun
/// with, character for character, and goes to the file of the task; and each program that is
/// started to run it is given that very file, behind `-u`, and nothing else.
pub proof fn the_script_that_is_run_is_the_one_that_was_given(
    id: Seq<char>,
    content: Seq<char>,
    events: Seq<EventView>,
)
    ensures
        forall|i: int|
            0 <= i < run_laws::actions(runner::run_begun(id, content), events).len() ==> (
            #[trigger] run_laws::actions(
                runner::run_begun(id, content),
                events,
            )[i] matches ActionView::WriteScript { path, content: written } ==> written == content
                && path == "data/scripts/"@ + id + "/"@ + id + ".py"@),
        forall|i: int|
            0 <= i < run_laws::actions(runner::run_begun(id, content), events).len() ==> (
            #[trigger] run_laws::actions(
                runner::run_begun(id, content),
                events,
            )[i] matches ActionView::Spawn(started) ==> started.args.len() == 2 && started.args[0]
                == "-u"@ && started.args.last() == "data/scripts/"@ + id + "/"@ + id + ".py"@),
        run_laws::after(runner::run_begun(id, content), events).task_id == id,
        run_laws::after(runner::run_begun(id, content), events).content == content,
    decreases events.len(),
{
    let run = runner::run_begun(id, content);
    lemma_file_of(id);
    if events.len() == 0 {
        reveal(run_laws::actions);
        reveal(run_laws::after);
    } else {
        let short = events.drop_last();
        the_script_that_is_run_is_the_one_that_was_given(id, content, short);
        lemma_actions(run, events);
        assert(run_laws::after(run, events) == runner::run_next(
            run_laws::after(run, short),
            events.last(),
        ).0) by {
            reveal(run_laws::after);
        }
        let all = run_laws::actions(run, events);
        let earlier = run_laws::actions(run, short);
        assert forall|i: int| 0 <= i < all.len() implies (
        #[trigger] all[i] matches ActionView::WriteScript { path, content: written } ==> written
            == content && path == "data/scripts/"@ + id + "/"@ + id + ".py"@) by {
            if i < earlier.len() {
                assert(all[i] == earlier[i]);
            }
        }
        assert forall|i: int| 0 <= i < all.len() implies (
        #[trigger] all[i] matches ActionView::Spawn(started) ==> started.args.len() == 2
            && started.args[0] == "-u"@ && started.args.last() == "data/scripts/"@ + id + "/"@ + id
            + ".py"@) by {
            if i < earlier.len() {
                assert(all[i] == earlier[i]);
            }
        }
    }
}

/// Whether `event` is an answer to the request `action`.
pub open spec fn answers(action: ActionView, event: EventView) -> bool {
    match action {
        ActionView::MakeDir(_) => event is DirReady || event is DirFailed,
        ActionView::WriteScript { .. } => event is Written || event is WriteFailed,
        ActionView::Probe(_) => event is Probed,
        ActionView::Install(_) => event is Installed,
        ActionView::Locate(_) => event is Located,
        ActionView::Spawn(_) => event is Spawned || event is SpawnFailed,
        ActionView::ReadOut => event is Line || event is StreamEnd,
        ActionView::ReadErr => event is Line || event is StreamEnd,
        ActionView::Publish(_) => event is Published,
        ActionView::Wait => event is Exited || event is WaitFailed,
        ActionView::Finish(_) => false,
    }
}

/// A run waits for the answers to what it has asked for last, and for nothing else; once it is
/// over it waits for nothing.
pub proof fn a_run_waits_for_the_answer_to_its_request(
    run: RunView,
    event: EventView,
    then: EventView,
    id: Seq<char>,
    content: Seq<char>,
)
    requires
        runner::is_awaited(run.phase, event),
    ensures
        runner::is_awaited(runner::run_next(run, event).0.phase, then) <==> answers(
            runner::run_next(run, event).1,
            then,
        ),
        runner::is_awaited(runner::run_begun(id, content).phase, then) <==> then is DirReady
            || then is DirFailed,
{
}

/// The commands that a run asks for, and the files that it speaks of.
pub proof fn commands_have_their_words(id: Seq<char>, module: Seq<char>, in_venv: bool)
    ensures
        runner::probing(module).program == "venv/bin/python"@,
        runner::probing(module).args == seq!["-c"@, "import "@ + module],
        runner::installing(module).program == "venv/bin/python"@,
        runner::installing(module).args == seq!["-m"@, "pip"@, "install"@, module],
        runner::spawning(id, in_venv).program == if in_venv {
            "venv/bin/python3"@
        } else {
            "python3"@
        },
        runner::spawning(id, in_venv).args == seq!["-u"@, file_of(id)],
        runner::script_file(id) == file_of(id),
{
    lemma_file_of(id);
}

/// What is said of a command, an event and an action is said of its own parts.
pub proof fn commands_events_and_actions_are_their_parts(
    line: CommandLine,
    event: RunEvent,
    action: RunAction,
)
    ensures
        line@.program == line.program@,
        line@.args.len() == line.args@.len(),
        forall|i: int| 0 <= i < line.args@.len() ==> #[trigger] line@.args[i] == line.args@[i]@,
        event is DirReady <==> event@ is DirReady,
        event is Written <==> event@ is Written,
        event is Installed <==> event@ is Installed,
        event is Spawned <==> event@ is Spawned,
        event is StreamEnd <==> event@ is StreamEnd,
        event is Published <==> event@ is Published,
        event matches RunEvent::DirFailed(error) ==> event@ == EventView::DirFailed(error@),
        event matches RunEvent::WriteFailed(error) ==> event@ == EventView::WriteFailed(error@),
        event matches RunEvent::SpawnFailed(error) ==> event@ == EventView::SpawnFailed(error@),
        event matches RunEvent::WaitFailed(error) ==> event@ == EventView::WaitFailed(error@),
        event matches RunEvent::Probed(installed) ==> event@ == EventView::Probed(installed),
        event matches RunEvent::Located(there) ==> event@ == EventView::Located(there),
        event matches RunEvent::Exited(success) ==> event@ == EventView::Exited(success),
        event matches RunEvent::Line(line) ==> event@ == EventView::Line(line@),
        action is ReadOut <==> action@ is ReadOut,
        action is ReadErr <==> action@ is ReadErr,
        action is Wait <==> action@ is Wait,
        action matches RunAction::MakeDir(path) ==> action@ == ActionView::MakeDir(path@),
        action matches RunAction::WriteScript { path, content } ==> action@ == (
        ActionView::WriteScript { path: path@, content: content@ }),
        action matches RunAction::Probe(command) ==> action@ == ActionView::Probe(command@),
        action matches RunAction::Install(command) ==> action@ == ActionView::Install(command@),
        action matches RunAction::Locate(path) ==> action@ == ActionView::Locate(path@),
        action matches RunAction::Spawn(command) ==> action@ == ActionView::Spawn(command@),
        action matches RunAction::Publish(line) ==> action@ == ActionView::Publish(line@),
        action matches RunAction::Finish(output) ==> action@ == ActionView::Finish(output@),
{
}

} // verus!
