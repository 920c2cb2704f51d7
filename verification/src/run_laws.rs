//! What holds of a run of a script from its beginning to its end.

use crate::runner::RunPhase;
use crate::task::TaskStatus;
use vstd::prelude::*;

verus! {

use crate::imports;
use crate::runner;
use crate::runner::{ActionView, EventView, RunView};
use crate::task;
use crate::task::TaskView;
use crate::text;

/// The run after `events` have happened one by one.
#[verifier::opaque]
pub open spec fn after(run: RunView, events: Seq<EventView>) -> RunView
    decreases events.len(),
{
    if events.len() == 0 {
        run
    } else {
        runner::run_next(after(run, events.drop_last()), events.last()).0
    }
}

/// What the run asks to be done as `events` happen one by one.
#[verifier::opaque]
pub open spec fn actions(run: RunView, events: Seq<EventView>) -> Seq<ActionView>
    decreases events.len(),
{
    if events.len() == 0 {
        Seq::empty()
    } else {
        actions(run, events.drop_last()).push(
            runner::run_next(after(run, events.drop_last()), events.last()).1,
        )
    }
}

/// Whether the run waits for each of `events` when it happens.
#[verifier::opaque]
pub open spec fn awaited(run: RunView, events: Seq<EventView>) -> bool
    decreases events.len(),
{
    events.len() > 0 ==> awaited(run, events.drop_last()) && runner::is_awaited(
        after(run, events.drop_last()).phase,
        events.last(),
    )
}

/// The events of `lines` being read and passed on.
pub open spec fn lines_read(lines: Seq<Seq<char>>) -> Seq<EventView>
    decreases lines.len(),
{
    if lines.len() == 0 {
        Seq::empty()
    } else {
        lines_read(lines.drop_last()).push(EventView::Line(lines.last())).push(
            EventView::Published,
        )
    }
}

/// `lines`, each with its end.
pub open spec fn lines_text(lines: Seq<Seq<char>>) -> Seq<char>
    decreases lines.len(),
{
    if lines.len() == 0 {
        Seq::empty()
    } else {
        lines_text(lines.drop_last()) + lines.last().push('\n')
    }
}

/// The events of modules being dealt with, each installed already or not.
pub open spec fn modules_dealt_with(installed: Seq<bool>) -> Seq<EventView>
    decreases installed.len(),
{
    if installed.len() == 0 {
        Seq::empty()
    } else if installed[0] {
        seq![EventView::Probed(true)] + modules_dealt_with(installed.drop_first())
    } else {
        seq![EventView::Probed(false), EventView::Installed] + modules_dealt_with(
            installed.drop_first(),
        )
    }
}

/// What is asked for to deal with `modules`, the first of which is being probed: each is probed,
/// those that are not installed are installed, and then the interpreter is looked for.
pub open spec fn module_actions(modules: Seq<Seq<char>>, installed: Seq<bool>) -> Seq<ActionView>
    decreases modules.len(),
{
    if modules.len() == 0 {
        Seq::empty()
    } else {
        let rest = modules.drop_first();
        let next = if rest.len() > 0 {
            ActionView::Probe(runner::probing(rest.first()))
        } else {
            ActionView::Locate("venv/bin/python3"@)
        };
        (if installed[0] {
            seq![next]
        } else {
            seq![ActionView::Install(runner::installing(modules.first())), next]
        }) + module_actions(rest, installed.drop_first())
    }
}

proof fn lemma_none(run: RunView)
    ensures
        after(run, Seq::empty()) == run,
        actions(run, Seq::empty()) == Seq::<ActionView>::empty(),
        awaited(run, Seq::empty()),
{
    reveal(after);
    reveal(actions);
    reveal(awaited);
}

proof fn lemma_one(run: RunView, event: EventView)
    ensures
        after(run, seq![event]) == runner::run_next(run, event).0,
        actions(run, seq![event]) == seq![runner::run_next(run, event).1],
        awaited(run, seq![event]) == runner::is_awaited(run.phase, event),
{
    reveal(after);
    reveal(actions);
    reveal(awaited);
    lemma_none(run);
    assert(seq![event].drop_last() =~= Seq::empty());
    assert(actions(run, seq![event]) =~= seq![runner::run_next(run, event).1]);
}

proof fn lemma_concat(run: RunView, a: Seq<EventView>, b: Seq<EventView>)
    ensures
        after(run, a + b) == after(after(run, a), b),
        actions(run, a + b) == actions(run, a) + actions(after(run, a), b),
        awaited(run, a + b) == (awaited(run, a) && awaited(after(run, a), b)),
    decreases b.len(),
{
    reveal(after);
    reveal(actions);
    reveal(awaited);
    if b.len() == 0 {
        assert(a + b =~= a);
        assert(actions(run, a) + actions(after(run, a), b) =~= actions(run, a));
    } else {
        lemma_concat(run, a, b.drop_last());
        assert((a + b).drop_last() =~= a + b.drop_last());
        assert((a + b).last() == b.last());
        assert(actions(run, a + b) =~= actions(run, a) + actions(after(run, a), b));
    }
}

proof fn lemma_lines(run: RunView, lines: Seq<Seq<char>>)
    requires
        run.phase == RunPhase::ReadingOut || run.phase == RunPhase::ReadingErr,
    ensures
        after(run, lines_read(lines)) == (RunView {
            output: run.output + lines_text(lines),
            ..run
        }),
        awaited(run, lines_read(lines)),
    decreases lines.len(),
{
    if lines.len() == 0 {
        lemma_none(run);
        assert(run.output + lines_text(lines) =~= run.output);
    } else {
        let short = lines.drop_last();
        lemma_lines(run, short);
        let then = after(run, lines_read(short));
        let line = EventView::Line(lines.last());
        lemma_two(then, line, EventView::Published);
        lemma_concat(run, lines_read(short), seq![line, EventView::Published]);
        assert(lines_read(lines) =~= lines_read(short) + seq![line, EventView::Published]);
        assert((run.output + lines_text(short)) + lines.last().push('\n') =~= run.output
            + lines_text(lines));
    }
}

/// Each module that a script imports is probed, in their order, and those that are not installed
/// are installed, each before the next is probed; then the interpreter is looked for.
pub proof fn every_module_is_dealt_with(run: RunView, installed: Seq<bool>)
    requires
        installed.len() == run.modules.len(),
        run.phase == if run.modules.len() > 0 {
            RunPhase::Probing
        } else {
            RunPhase::Locating
        },
    ensures
        awaited(run, modules_dealt_with(installed)),
        after(run, modules_dealt_with(installed)) == (RunView {
            modules: Seq::empty(),
            phase: RunPhase::Locating,
            ..run
        }),
        actions(run, modules_dealt_with(installed)) == module_actions(run.modules, installed),
    decreases run.modules.len(),
{
    if installed.len() == 0 {
        lemma_none(run);
        assert(run.modules =~= Seq::empty());
    } else {
        let rest = modules_dealt_with(installed.drop_first());
        let first = if installed[0] {
            seq![EventView::Probed(true)]
        } else {
            seq![EventView::Probed(false), EventView::Installed]
        };
        let then = after(run, first);
        if installed[0] {
            lemma_one(run, EventView::Probed(true));
        } else {
            lemma_one(run, EventView::Probed(false));
            let middle = after(run, seq![EventView::Probed(false)]);
            lemma_one(middle, EventView::Installed);
            lemma_concat(run, seq![EventView::Probed(false)], seq![EventView::Installed]);
            assert(seq![EventView::Probed(false)] + seq![EventView::Installed] =~= first);
            assert(actions(run, first) =~= seq![
                runner::run_next(run, EventView::Probed(false)).1,
                runner::run_next(middle, EventView::Installed).1,
            ]);
        }
        every_module_is_dealt_with(then, installed.drop_first());
        lemma_concat(run, first, rest);
    }
}

/// What a run has put out in the end are the lines of the standard output and, behind them, those
/// of the standard error, each with its end; before them stands `ERROR: ` where the interpreter
/// ended without success.
pub open spec fn whole_output(
    outs: Seq<Seq<char>>,
    errs: Seq<Seq<char>>,
    success: bool,
) -> Seq<char> {
    if success {
        lines_text(outs) + lines_text(errs)
    } else {
        "ERROR: "@ + (lines_text(outs) + lines_text(errs))
    }
}

/// The events of a run in which nothing fails but, it may be, the script itself.
pub open spec fn whole_run(
    installed: Seq<bool>,
    in_venv: bool,
    outs: Seq<Seq<char>>,
    errs: Seq<Seq<char>>,
    success: bool,
) -> Seq<EventView> {
    seq![EventView::DirReady, EventView::Written] + modules_dealt_with(installed) + seq![
        EventView::Located(in_venv),
        EventView::Spawned,
    ] + lines_read(outs) + seq![EventView::StreamEnd] + lines_read(errs) + seq![
        EventView::StreamEnd,
        EventView::Exited(success),
    ]
}

/// A run that goes through ends with what its script has put out.
pub proof fn a_run_ends_with_what_was_put_out(
    task_id: Seq<char>,
    content: Seq<char>,
    installed: Seq<bool>,
    in_venv: bool,
    outs: Seq<Seq<char>>,
    errs: Seq<Seq<char>>,
    success: bool,
)
    requires
        installed.len() == imports::imports_of(content).len(),
    ensures
        ({
            let run = runner::run_begun(task_id, content);
            let events = whole_run(installed, in_venv, outs, errs, success);
            &&& awaited(run, events)
            &&& after(run, events).phase == RunPhase::Done
            &&& actions(run, events).len() > 0
            &&& actions(run, events).last() == ActionView::Finish(
                whole_output(outs, errs, success),
            )
        }),
{
    let run = runner::run_begun(task_id, content);
    let start = whole_start(installed, in_venv);
    let rest = whole_rest(outs, errs, success);
    lemma_start(task_id, content, installed, in_venv);
    let reading = after(run, start);
    lemma_rest(reading, outs, errs, success);
    lemma_concat(run, start, rest);
    assert(whole_run(installed, in_venv, outs, errs, success) =~= start + rest);
}

spec fn whole_start(installed: Seq<bool>, in_venv: bool) -> Seq<EventView> {
    seq![EventView::DirReady, EventView::Written] + modules_dealt_with(installed) + seq![
        EventView::Located(in_venv),
        EventView::Spawned,
    ]
}

spec fn whole_rest(outs: Seq<Seq<char>>, errs: Seq<Seq<char>>, success: bool) -> Seq<EventView> {
    lines_read(outs) + seq![EventView::StreamEnd] + (lines_read(errs) + seq![
        EventView::StreamEnd,
        EventView::Exited(success),
    ])
}

proof fn lemma_start(
    task_id: Seq<char>,
    content: Seq<char>,
    installed: Seq<bool>,
    in_venv: bool,
)
    requires
        installed.len() == imports::imports_of(content).len(),
    ensures
        ({
            let run = runner::run_begun(task_id, content);
            let events = whole_start(installed, in_venv);
            &&& awaited(run, events)
            &&& after(run, events).phase == RunPhase::ReadingOut
            &&& after(run, events).output == Seq::<char>::empty()
        }),
{
    let run = runner::run_begun(task_id, content);
    let s1 = seq![EventView::DirReady, EventView::Written];
    let s2 = modules_dealt_with(installed);
    let s3 = seq![EventView::Located(in_venv), EventView::Spawned];
    lemma_two(run, EventView::DirReady, EventView::Written);
    let r1 = after(run, s1);
    every_module_is_dealt_with(r1, installed);
    let r2 = after(r1, s2);
    lemma_two(r2, EventView::Located(in_venv), EventView::Spawned);
    lemma_concat(run, s1, s2);
    lemma_concat(run, s1 + s2, s3);
}

proof fn lemma_rest(run: RunView, outs: Seq<Seq<char>>, errs: Seq<Seq<char>>, success: bool)
    requires
        run.phase == RunPhase::ReadingOut,
        run.output == Seq::<char>::empty(),
    ensures
        ({
            let events = whole_rest(outs, errs, success);
            &&& awaited(run, events)
            &&& after(run, events).phase == RunPhase::Done
            &&& actions(run, events).len() > 0
            &&& actions(run, events).last() == ActionView::Finish(
                whole_output(outs, errs, success),
            )
        }),
{
    let s1 = lines_read(outs);
    let s2 = seq![EventView::StreamEnd];
    let s3 = lines_read(errs);
    let s4 = seq![EventView::StreamEnd, EventView::Exited(success)];
    lemma_lines(run, outs);
    let r1 = after(run, s1);
    lemma_one(r1, EventView::StreamEnd);
    let r2 = after(r1, s2);
    lemma_lines(r2, errs);
    let r3 = after(r2, s3);
    lemma_two(r3, EventView::StreamEnd, EventView::Exited(success));
    lemma_concat(run, s1, s2);
    lemma_concat(r2, s3, s4);
    lemma_concat(run, s1 + s2, s3 + s4);
    assert(r3.output =~= lines_text(outs) + lines_text(errs));
}

proof fn lemma_two(run: RunView, a: EventView, b: EventView)
    ensures
        ({
            let (middle, first) = runner::run_next(run, a);
            let (end, second) = runner::run_next(middle, b);
            &&& after(run, seq![a, b]) == end
            &&& actions(run, seq![a, b]) == seq![first, second]
            &&& awaited(run, seq![a, b]) == (runner::is_awaited(run.phase, a)
                && runner::is_awaited(middle.phase, b))
        }),
{
    lemma_one(run, a);
    let (middle, first) = runner::run_next(run, a);
    lemma_one(middle, b);
    lemma_concat(run, seq![a], seq![b]);
    assert(seq![a] + seq![b] =~= seq![a, b]);
    assert(actions(run, seq![a, b]) =~= seq![first, runner::run_next(middle, b).1]);
}

/// A run whose script ends without success, that cannot be written down or whose end is missed
/// counts as failed.
pub proof fn a_run_that_goes_wrong_has_failed(
    outs: Seq<Seq<char>>,
    errs: Seq<Seq<char>>,
    error: Seq<char>,
    run: RunView,
)
    ensures
        task::verdict(whole_output(outs, errs, false)) == TaskStatus::Failed,
        runner::run_next(run, EventView::DirFailed(error)).1 matches ActionView::Finish(output)
            && task::verdict(output) == TaskStatus::Failed,
        runner::run_next(run, EventView::WriteFailed(error)).1 matches ActionView::Finish(output)
            && task::verdict(output) == TaskStatus::Failed,
        runner::run_next(run, EventView::WaitFailed(error)).1 matches ActionView::Finish(output)
            && task::verdict(output) == TaskStatus::Failed,
{
    reveal_strlit("ERROR");
    reveal_strlit("ERROR: ");
    reveal_strlit("ERROR: Failed to create script directory: ");
    reveal_strlit("ERROR: Failed to write script file: ");
    reveal_strlit("ERROR: Failed to wait for python process: ");
    lemma_starts_with_error("ERROR: "@, lines_text(outs) + lines_text(errs));
    lemma_starts_with_error("ERROR: Failed to create script directory: "@, error);
    lemma_starts_with_error("ERROR: Failed to write script file: "@, error);
    lemma_starts_with_error("ERROR: Failed to wait for python process: "@, error);
}

proof fn lemma_starts_with_error(head: Seq<char>, tail: Seq<char>)
    requires
        "ERROR"@.is_prefix_of(head),
    ensures
        text::contains_text(head + tail, "ERROR"@),
{
    let whole = head + tail;
    assert(whole.skip(0).take("ERROR"@.len() as int) =~= head.subrange(
        0,
        "ERROR"@.len() as int,
    ));
    assert(whole.skip(0).take("ERROR"@.len() as int) == "ERROR"@);
}

/// A run whose interpreter cannot be started is judged by the words of the error alone.
pub proof fn a_run_that_cannot_start_is_judged_by_its_error(error: Seq<char>, run: RunView)
    ensures
        runner::run_next(run, EventView::SpawnFailed(error)).1 matches ActionView::Finish(output)
            && task::verdict(output) == task::verdict(error),
{
    reveal_strlit("ERROR");
    reveal_strlit("EXECUTION FAILED: ");
    let head = "EXECUTION FAILED: "@;
    let word = "ERROR"@;
    let whole = head + error;
    if text::contains_text(whole, word) {
        let i = choose|i: int|
            0 <= i <= whole.len() - word.len() && #[trigger] whole.skip(i).take(word.len() as int)
                == word;
        let found = whole.skip(i).take(word.len() as int);
        assert(found[0] == whole[i] && found[1] == whole[i + 1]);
        assert(word[0] == 'E' && word[1] == 'R');
        assert(i >= head.len()) by {
            if i < head.len() {
                assert(whole[i] == head[i]);
                if i + 1 < head.len() {
                    assert(whole[i + 1] == head[i + 1]);
                }
            }
        }
        let j = i - head.len();
        assert(error.skip(j).take(word.len() as int) =~= found);
        assert(text::contains_text(error, word));
    }
    if text::contains_text(error, word) {
        let j = choose|j: int|
            0 <= j <= error.len() - word.len() && #[trigger] error.skip(j).take(word.len() as int)
                == word;
        let i = j + head.len();
        assert(whole.skip(i).take(word.len() as int) =~= error.skip(j).take(word.len() as int));
        assert(text::contains_text(whole, word));
    }
}

/// The task after `lines` have been put out one by one.
pub open spec fn with_lines(task: TaskView, lines: Seq<Seq<char>>) -> TaskView
    decreases lines.len(),
{
    if lines.len() == 0 {
        task
    } else {
        task::with_line(with_lines(task, lines.drop_last()), lines.last())
    }
}

/// What a task shows while it runs are the lines that were read so far, behind what it showed
/// when the run began. All else of it stays as it was.
pub proof fn a_running_task_shows_what_was_read(task: TaskView, lines: Seq<Seq<char>>)
    requires
        lines.len() > 0,
    ensures
        with_lines(task, lines) == (TaskView {
            output: Some(
                (match task.output {
                    Some(text) => text,
                    None => Seq::empty(),
                }) + lines_text(lines),
            ),
            ..task
        }),
    decreases lines.len(),
{
    let shown = match task.output {
        Some(text) => text,
        None => Seq::empty(),
    };
    let short = lines.drop_last();
    if short.len() > 0 {
        a_running_task_shows_what_was_read(task, short);
    } else {
        assert(with_lines(task, short) == task);
    }
    assert(shown + lines_text(short) + lines.last().push('\n') =~= shown + lines_text(lines));
}

/// The lines that `actions` ask to be passed on, in their order.
pub open spec fn published(actions: Seq<ActionView>) -> Seq<Seq<char>>
    decreases actions.len(),
{
    if actions.len() == 0 {
        Seq::empty()
    } else {
        let before = published(actions.drop_last());
        match actions.last() {
            ActionView::Publish(line) => before.push(line),
            _ => before,
        }
    }
}

/// The lines that are read in `events`, in their order.
pub open spec fn lines_in(events: Seq<EventView>) -> Seq<Seq<char>>
    decreases events.len(),
{
    if events.len() == 0 {
        Seq::empty()
    } else {
        let before = lines_in(events.drop_last());
        match events.last() {
            EventView::Line(line) => before.push(line),
            _ => before,
        }
    }
}

/// Each line that is read is passed on once, in the order in which the lines are read, which is
/// also their order in what the run has put out.
pub proof fn each_line_is_passed_on_once(run: RunView, events: Seq<EventView>)
    ensures
        published(actions(run, events)) == lines_in(events),
        after(run, events).output == run.output + lines_text(lines_in(events)),
    decreases events.len(),
{
    reveal(after);
    reveal(actions);
    if events.len() == 0 {
        assert(run.output + lines_text(lines_in(events)) =~= run.output);
    } else {
        let short = events.drop_last();
        each_line_is_passed_on_once(run, short);
        assert(actions(run, events).drop_last() =~= actions(run, short));
        if let EventView::Line(line) = events.last() {
            assert(lines_in(events).drop_last() =~= lines_in(short));
            assert((run.output + lines_text(lines_in(short))) + line.push('\n') =~= run.output
                + lines_text(lines_in(events)));
        }
    }
}

/// In a run that goes through, those who listen are passed the lines of the standard output and
/// then those of the standard error, each once and in order.
pub proof fn a_run_passes_its_lines_on(
    task_id: Seq<char>,
    content: Seq<char>,
    installed: Seq<bool>,
    in_venv: bool,
    outs: Seq<Seq<char>>,
    errs: Seq<Seq<char>>,
    success: bool,
)
    ensures
        published(
            actions(
                runner::run_begun(task_id, content),
                whole_run(installed, in_venv, outs, errs, success),
            ),
        ) == outs + errs,
{
    let events = whole_run(installed, in_venv, outs, errs, success);
    each_line_is_passed_on_once(runner::run_begun(task_id, content), events);
    let first = seq![EventView::DirReady, EventView::Written];
    let second = modules_dealt_with(installed);
    let third = seq![EventView::Located(in_venv), EventView::Spawned];
    let fifth = seq![EventView::StreamEnd];
    let seventh = seq![EventView::StreamEnd, EventView::Exited(success)];
    lemma_no_lines(first);
    lemma_no_lines(third);
    lemma_no_lines(fifth);
    lemma_no_lines(seventh);
    lemma_modules_hold_no_lines(installed);
    lemma_no_lines(second);
    lemma_lines_of_lines(outs);
    lemma_lines_of_lines(errs);
    lemma_lines_in_concat(first, second);
    lemma_lines_in_concat(first + second, third);
    lemma_lines_in_concat(first + second + third, lines_read(outs));
    lemma_lines_in_concat(first + second + third + lines_read(outs), fifth);
    lemma_lines_in_concat(first + second + third + lines_read(outs) + fifth, lines_read(errs));
    lemma_lines_in_concat(
        first + second + third + lines_read(outs) + fifth + lines_read(errs),
        seventh,
    );
    assert(lines_in(events) =~= outs + errs);
}

proof fn lemma_lines_in_concat(a: Seq<EventView>, b: Seq<EventView>)
    ensures
        lines_in(a + b) == lines_in(a) + lines_in(b),
    decreases b.len(),
{
    if b.len() == 0 {
        assert(a + b =~= a);
        assert(lines_in(a) + lines_in(b) =~= lines_in(a));
    } else {
        lemma_lines_in_concat(a, b.drop_last());
        assert((a + b).drop_last() =~= a + b.drop_last());
        assert(lines_in(a + b) =~= lines_in(a) + lines_in(b));
    }
}

proof fn lemma_no_lines(events: Seq<EventView>)
    requires
        forall|i: int| 0 <= i < events.len() ==> !(#[trigger] events[i] is Line),
    ensures
        lines_in(events) == Seq::<Seq<char>>::empty(),
    decreases events.len(),
{
    if events.len() > 0 {
        lemma_no_lines(events.drop_last());
        assert(!(events[events.len() - 1] is Line));
    }
}

proof fn lemma_modules_hold_no_lines(installed: Seq<bool>)
    ensures
        forall|i: int|
            0 <= i < modules_dealt_with(installed).len() ==> !(
            #[trigger] modules_dealt_with(installed)[i] is Line),
    decreases installed.len(),
{
    if installed.len() > 0 {
        lemma_modules_hold_no_lines(installed.drop_first());
    }
}

proof fn lemma_lines_of_lines(lines: Seq<Seq<char>>)
    ensures
        lines_in(lines_read(lines)) == lines,
    decreases lines.len(),
{
    if lines.len() == 0 {
        assert(lines_in(lines_read(lines)) =~= lines);
    } else {
        let short = lines_read(lines.drop_last());
        lemma_lines_of_lines(lines.drop_last());
        let read = short.push(EventView::Line(lines.last()));
        assert(read.push(EventView::Published).drop_last() =~= read);
        assert(read.drop_last() =~= short);
        assert(lines_in(read) == lines.drop_last().push(lines.last()));
        assert(lines_in(lines_read(lines)) =~= lines);
    }
}

} // verus!
