//! What each request, each run and each look of the clock comes to, part by part.

use crate::api::{Outcome, Reply, ReplyBody, ReplyStatus, RunOutcome};
use crate::moment::Moment;
use crate::task::{CreateTaskRequest, ScheduleType, ScriptTask, TaskStatus, UpdateTaskRequest};
use vstd::prelude::*;

verus! {

use crate::api;
use crate::api::BodyView;
use crate::scheduler;
use crate::startup;
use crate::store;
use crate::task;
use crate::task::TaskView;
use crate::text;

/// What is said of a task is said of its own parts.
pub proof fn a_task_is_its_parts(task: ScriptTask)
    ensures
        task@.id == task.id@,
        task@.name == task.name@,
        task@.description == task.description@,
        task@.script_content == task.script_content@,
        task@.schedule == task.schedule,
        task@.last_run == task.last_run,
        task@.status == task.status,
        task@.enabled == task.enabled,
        task@.output is Some <==> task.output is Some,
        task.output matches Some(output) ==> task@.output == Some(output@),
{
}

/// A task is made of what was asked for, under its identifier; it waits, has not run, has put
/// nothing out, and the clock may run it.
pub proof fn a_new_task_is_what_was_asked_for(id: Seq<char>, req: CreateTaskRequest)
    ensures
        ({
            let new = task::created(id, req);
            &&& new.id == id
            &&& new.name == req.name@
            &&& new.description == req.description@
            &&& new.script_content == req.script_content@
            &&& new.schedule == req.schedule
            &&& new.last_run is None
            &&& new.status == TaskStatus::Pending
            &&& new.output is None
            &&& new.enabled
        }),
{
}

/// Each part that an update gives is the task's part from then on, whichever others it gives, and
/// each part that it does not give is as it was. Nothing else changes.
pub proof fn an_update_sets_each_part_on_its_own(task: TaskView, req: UpdateTaskRequest)
    ensures
        req.name matches Some(name) ==> task::updated(task, req).name == name@,
        req.name is None ==> task::updated(task, req).name == task.name,
        req.description matches Some(description) ==> task::updated(task, req).description
            == description@,
        req.description is None ==> task::updated(task, req).description == task.description,
        req.script_content matches Some(content) ==> task::updated(task, req).script_content
            == content@,
        req.script_content is None ==> task::updated(task, req).script_content
            == task.script_content,
        req.schedule matches Some(schedule) ==> task::updated(task, req).schedule == schedule,
        req.schedule is None ==> task::updated(task, req).schedule == task.schedule,
        task::updated(task, req).id == task.id,
        task::updated(task, req).last_run == task.last_run,
        task::updated(task, req).status == task.status,
        task::updated(task, req).output == task.output,
        task::updated(task, req).enabled == task.enabled,
{
}

/// Two updates, one after the other, come to the parts of the second and, where it gives none, to
/// those of the first.
pub proof fn a_later_update_counts(
    task: TaskView,
    first: UpdateTaskRequest,
    second: UpdateTaskRequest,
)
    ensures
        ({
            let both = task::updated(task::updated(task, first), second);
            &&& second.name is None ==> both.name == task::updated(task, first).name
            &&& second.name matches Some(name) ==> both.name == name@
            &&& second.description is None ==> both.description == task::updated(
                task,
                first,
            ).description
            &&& second.description matches Some(description) ==> both.description == description@
            &&& second.script_content is None ==> both.script_content == task::updated(
                task,
                first,
            ).script_content
            &&& second.script_content matches Some(content) ==> both.script_content == content@
            &&& second.schedule is None ==> both.schedule == task::updated(task, first).schedule
            &&& second.schedule matches Some(schedule) ==> both.schedule == schedule
        }),
{
}

/// A run that begins is noted with the moment of its start. What the task put out before stays at
/// a request and goes where the clock begins the run. Nothing else changes.
pub proof fn a_run_that_begins_is_noted(task: TaskView, start: Moment)
    ensures
        ({
            let asked = task::begun(task, start);
            &&& asked.status == TaskStatus::Running
            &&& asked.last_run == Some(start)
            &&& asked.output == task.output
            &&& asked.id == task.id
            &&& asked.name == task.name
            &&& asked.description == task.description
            &&& asked.script_content == task.script_content
            &&& asked.schedule == task.schedule
            &&& asked.enabled == task.enabled
        }),
        ({
            let timed = task::begun_afresh(task, start);
            &&& timed.status == TaskStatus::Running
            &&& timed.last_run == Some(start)
            &&& timed.output is None
            &&& timed.id == task.id
            &&& timed.name == task.name
            &&& timed.description == task.description
            &&& timed.script_content == task.script_content
            &&& timed.schedule == task.schedule
            &&& timed.enabled == task.enabled
        }),
{
}

/// A line that a run puts out comes behind what the task has put out so far, with the end of a
/// line behind it. Nothing else changes.
pub proof fn a_line_is_added_at_the_end(task: TaskView, line: Seq<char>)
    ensures
        ({
            let then = task::with_line(task, line);
            &&& task.output matches Some(text) ==> then.output == Some(text + line + seq!['\n'])
            &&& task.output is None ==> then.output == Some(line + seq!['\n'])
            &&& then.id == task.id
            &&& then.name == task.name
            &&& then.description == task.description
            &&& then.script_content == task.script_content
            &&& then.schedule == task.schedule
            &&& then.last_run == task.last_run
            &&& then.status == task.status
            &&& then.enabled == task.enabled
        }),
{
    if let Some(text) = task.output {
        assert(text + line.push('\n') =~= text + line + seq!['\n']);
    } else {
        assert(Seq::empty() + line.push('\n') =~= line + seq!['\n']);
    }
}

/// A run that has ended has failed just where what it put out is some text, the word `ERROR` and
/// some text behind it; else it is complete. What it put out is kept. Nothing else changes.
pub proof fn a_run_has_failed_where_it_says_so(task: TaskView, output: Seq<char>)
    ensures
        ({
            let then = task::finished(task, output);
            &&& then.status == TaskStatus::Failed <==> exists|before: Seq<char>, behind: Seq<char>|
                output == #[trigger] (before + "ERROR"@ + behind)
            &&& then.status != TaskStatus::Failed ==> then.status == TaskStatus::Completed
            &&& then.output == Some(output)
            &&& then.id == task.id
            &&& then.name == task.name
            &&& then.description == task.description
            &&& then.script_content == task.script_content
            &&& then.schedule == task.schedule
            &&& then.last_run == task.last_run
            &&& then.enabled == task.enabled
        }),
{
    let word = "ERROR"@;
    if text::contains_text(output, word) {
        let i = choose|i: int|
            0 <= i <= output.len() - word.len() && #[trigger] output.skip(i).take(
                word.len() as int,
            ) == word;
        let before = output.take(i);
        let behind = output.skip(i + word.len());
        assert(output =~= before + output.skip(i).take(word.len() as int) + behind);
        assert(output == before + word + behind);
    }
    assert forall|before: Seq<char>, behind: Seq<char>|
        output == #[trigger] (before + word + behind) implies text::contains_text(output, word) by {
        assert(output.skip(before.len() as int).take(word.len() as int) =~= word);
    }
}

/// When the program starts, a task that is said to be running waits again, and any other is as it
/// was. Nothing but the status changes.
pub proof fn only_a_lost_run_is_forgotten(task: TaskView)
    ensures
        ({
            let then = task::recovered(task);
            &&& task.status == TaskStatus::Running ==> then.status == TaskStatus::Pending
            &&& task.status != TaskStatus::Running ==> then.status == task.status
            &&& then.id == task.id
            &&& then.name == task.name
            &&& then.description == task.description
            &&& then.script_content == task.script_content
            &&& then.schedule == task.schedule
            &&& then.last_run == task.last_run
            &&& then.output == task.output
            &&& then.enabled == task.enabled
        }),
{
}

/// Of what was kept under a key the last is taken up, as it was but for a lost run.
pub proof fn the_last_kept_task_is_taken_up(kept: Seq<(Seq<char>, TaskView)>, i: int)
    requires
        0 <= i < kept.len(),
        forall|j: int| i < j < kept.len() ==> (#[trigger] kept[j]).0 != kept[i].0,
    ensures
        startup::restored(kept).contains_key(kept[i].0),
        kept[i].1.status != TaskStatus::Running ==> startup::restored(kept)[kept[i].0]
            == kept[i].1,
        kept[i].1.status == TaskStatus::Running ==> startup::restored(kept)[kept[i].0] == (
        TaskView { status: TaskStatus::Pending, ..kept[i].1 }),
    decreases kept.len(),
{
    let last = kept.len() - 1;
    if i < last {
        let short = kept.drop_last();
        assert(kept[last].0 != kept[i].0);
        assert forall|j: int| i < j < short.len() implies (#[trigger] short[j]).0 != short[i].0 by {
            assert(kept[j].0 != kept[i].0);
        }
        the_last_kept_task_is_taken_up(short, i);
    }
}

/// Nothing is taken up that was not kept.
pub proof fn nothing_is_taken_up_but_what_was_kept(
    kept: Seq<(Seq<char>, TaskView)>,
    key: Seq<char>,
)
    requires
        startup::restored(kept).contains_key(key),
    ensures
        exists|i: int| 0 <= i < kept.len() && (#[trigger] kept[i]).0 == key,
    decreases kept.len(),
{
    if kept.len() > 0 {
        let last = kept.len() - 1;
        if kept[last].0 != key {
            nothing_is_taken_up_but_what_was_kept(kept.drop_last(), key);
            let i = choose|i: int|
                0 <= i < kept.drop_last().len() && (#[trigger] kept.drop_last()[i]).0 == key;
            assert(kept[i].0 == key);
        }
    }
}

/// A task that is to run once is due as long as it has not run.
pub proof fn a_single_run_is_due_until_it_was(task: TaskView, tick: Moment, check: Moment)
    requires
        task.schedule is Once,
    ensures
        scheduler::is_due(task, tick, check) <==> task.last_run is None,
{
}

/// A task with an interval is due where it has not run, and else where as many seconds have gone
/// by since its last run began.
pub proof fn an_interval_is_due_when_it_is_over(
    task: TaskView,
    secs: u64,
    tick: Moment,
    check: Moment,
)
    requires
        task.schedule == ScheduleType::Interval(secs),
    ensures
        task.last_run is None ==> scheduler::is_due(task, tick, check),
        task.last_run matches Some(last) ==> (scheduler::is_due(task, tick, check)
            <==> check.nanos_after(last) >= 1_000_000_000 * secs),
{
}

/// A task by clock and calendar that is due has each of its given parts equal to what the local
/// clock and calendar show, and they show something else than at its last run. Where that is so,
/// it is due.
pub proof fn a_task_by_the_calendar_is_due_when_its_parts_are_shown(
    task: TaskView,
    minute: Option<u32>,
    hour: Option<u32>,
    day: Option<u32>,
    month: Option<u32>,
    weekday: Option<u32>,
    tick: Moment,
    check: Moment,
)
    requires
        task.schedule == (ScheduleType::Cron { minute, hour, day, month, weekday }),
    ensures
        scheduler::is_due(task, tick, check) ==> {
            &&& minute matches Some(wanted) ==> wanted == tick.local_slot().minute
            &&& hour matches Some(wanted) ==> wanted == tick.local_slot().hour
            &&& day matches Some(wanted) ==> wanted == tick.local_slot().day
            &&& month matches Some(wanted) ==> wanted == tick.local_slot().month
            &&& weekday matches Some(wanted) ==> wanted == tick.local_slot().weekday
            &&& task.last_run matches Some(last) ==> {
                ||| last.local_slot().minute != tick.local_slot().minute
                ||| last.local_slot().hour != tick.local_slot().hour
                ||| last.local_slot().day != tick.local_slot().day
                ||| last.local_slot().month != tick.local_slot().month
                ||| last.local_slot().weekday != tick.local_slot().weekday
            }
        },
        (minute is None || minute->0 == tick.local_slot().minute) && (hour is None || hour->0
            == tick.local_slot().hour) && (day is None || day->0 == tick.local_slot().day) && (month
            is None || month->0 == tick.local_slot().month) && (weekday is None || weekday->0
            == tick.local_slot().weekday) && (task.last_run matches Some(last) ==> {
            ||| last.local_slot().minute != tick.local_slot().minute
            ||| last.local_slot().hour != tick.local_slot().hour
            ||| last.local_slot().day != tick.local_slot().day
            ||| last.local_slot().month != tick.local_slot().month
            ||| last.local_slot().weekday != tick.local_slot().weekday
        }) ==> scheduler::is_due(task, tick, check),
{
}

/// A task whose schedule asks for one part less is due whenever it was.
pub proof fn a_looser_schedule_is_due_no_less(
    task: TaskView,
    minute: Option<u32>,
    hour: Option<u32>,
    day: Option<u32>,
    month: Option<u32>,
    weekday: Option<u32>,
    tick: Moment,
    check: Moment,
)
    requires
        task.schedule == (ScheduleType::Cron { minute, hour, day, month, weekday }),
        scheduler::is_due(task, tick, check),
    ensures
        scheduler::is_due(
            (TaskView {
                schedule: ScheduleType::Cron { minute: None, hour, day, month, weekday },
                ..task
            }),
            tick,
            check,
        ),
        scheduler::is_due(
            (TaskView {
                schedule: ScheduleType::Cron { minute, hour: None, day, month, weekday },
                ..task
            }),
            tick,
            check,
        ),
        scheduler::is_due(
            (TaskView {
                schedule: ScheduleType::Cron { minute, hour, day: None, month, weekday },
                ..task
            }),
            tick,
            check,
        ),
        scheduler::is_due(
            (TaskView {
                schedule: ScheduleType::Cron { minute, hour, day, month: None, weekday },
                ..task
            }),
            tick,
            check,
        ),
        scheduler::is_due(
            (TaskView {
                schedule: ScheduleType::Cron { minute, hour, day, month, weekday: None },
                ..task
            }),
            tick,
            check,
        ),
{
}

/// Nothing but the schedule and the last run of a task decides whether it is due, and the clock
/// begins a run just where the task is due, enabled and not running. Such a run starts at the
/// second of the two readings, and the task has put nothing out. Any other task is left as it is.
pub proof fn the_clock_begins_what_is_due_and_enabled(
    task: TaskView,
    other: TaskView,
    tick: Moment,
    reading: (Moment, Moment),
)
    ensures
        other.schedule == task.schedule && other.last_run == task.last_run ==> scheduler::is_due(
            other,
            tick,
            reading.0,
        ) == scheduler::is_due(task, tick, reading.0),
        scheduler::is_begun(task, tick, reading.0) <==> task.enabled && task.status
            != TaskStatus::Running && scheduler::is_due(task, tick, reading.0),
        ({
            let then = scheduler::considered(task, tick, reading);
            if task.enabled && task.status != TaskStatus::Running && scheduler::is_due(
                task,
                tick,
                reading.0,
            ) {
                &&& then.status == TaskStatus::Running
                &&& then.last_run == Some(reading.1)
                &&& then.output is None
                &&& then.id == task.id
                &&& then.name == task.name
                &&& then.description == task.description
                &&& then.script_content == task.script_content
                &&& then.schedule == task.schedule
                &&& then.enabled == task.enabled
            } else {
                then == task
            }
        }),
{
}

/// One look of the clock comes to each task once: each is begun or left as its own parts say at
/// the readings taken for it. Each run that is to be made is of a task that was begun, under its
/// key and with all of its parts, and there is one for each of them.
pub proof fn one_look_does_right_by_each_task(
    before: Map<Seq<char>, TaskView>,
    after: Map<Seq<char>, TaskView>,
    jobs: Seq<(Seq<char>, TaskView)>,
    tick: Moment,
    walk: Seq<(Seq<char>, TaskView)>,
    readings: Seq<(Moment, Moment)>,
    w: int,
)
    requires
        scheduler::pass_done(before, after, jobs, tick, walk, readings),
        0 <= w < walk.len(),
    ensures
        readings.len() == walk.len(),
        after.dom() == before.dom(),
        before.contains_key(walk[w].0),
        before[walk[w].0] == walk[w].1,
        ({
            let (key, given) = walk[w];
            let then = after[key];
            if given.enabled && given.status != TaskStatus::Running && scheduler::is_due(
                given,
                tick,
                readings[w].0,
            ) {
                &&& then.status == TaskStatus::Running
                &&& then.last_run == Some(readings[w].1)
                &&& then.output is None
                &&& then.script_content == given.script_content
                &&& then.id == given.id
                &&& then.name == given.name
                &&& then.description == given.description
                &&& then.schedule == given.schedule
                &&& then.enabled
                &&& exists|i: int| 0 <= i < jobs.len() && #[trigger] jobs[i] == (key, then)
            } else {
                &&& then == given
                &&& forall|i: int| 0 <= i < jobs.len() ==> (#[trigger] jobs[i]).0 != key
            }
        }),
        forall|i: int, j: int|
            0 <= i < j < jobs.len() ==> (#[trigger] jobs[i]).0 != (#[trigger] jobs[j]).0,
{
    crate::laws::the_clock_begins_each_run_once(before, after, jobs, tick, walk, readings);
    let (key, given) = walk[w];
    assert(before.contains_pair(key, given));
    assert(crate::laws::is_among(jobs, walk[w].0) <==> scheduler::is_begun(
        walk[w].1,
        tick,
        readings[w].0,
    ));
    assert(after[walk[w].0] == scheduler::considered(walk[w].1, tick, readings[w]));
    if scheduler::is_begun(given, tick, readings[w].0) {
        let i = choose|i: int| 0 <= i < jobs.len() && (#[trigger] jobs[i]).0 == key;
        assert(jobs[i] == (key, after[key]));
    }
}

/// Each moment that is read during one look of the clock is one that a clock can show: it is not
/// before 1970 and not within a leap second.
pub proof fn readings_are_shown_by_a_clock(readings: Seq<(Moment, Moment)>, i: int)
    requires
        scheduler::are_readings(readings),
        0 <= i < readings.len(),
    ensures
        readings[i].0.spec_secs() >= 0,
        readings[i].0.spec_nanos() < 1_000_000_000,
        readings[i].1.spec_secs() >= 0,
        readings[i].1.spec_nanos() < 1_000_000_000,
{
    assert(readings[i].0.is_reading() && readings[i].1.is_reading());
}

/// A walk over the tasks comes to each of them once: it has as many steps as there are tasks, each
/// step is a key with the task under it, and no two are of the same key.
pub proof fn a_walk_comes_to_each_task_once(
    walk: Seq<(Seq<char>, TaskView)>,
    tasks: Map<Seq<char>, TaskView>,
)
    requires
        store::is_walk(walk, tasks),
    ensures
        tasks.dom().finite(),
        walk.len() == tasks.len(),
        forall|i: int|
            0 <= i < walk.len() ==> tasks.contains_key((#[trigger] walk[i]).0)
                && tasks[walk[i].0] == walk[i].1,
        forall|i: int, j: int|
            0 <= i < walk.len() && 0 <= j < walk.len() && (#[trigger] walk[i]).0 == (
            #[trigger] walk[j]).0 ==> i == j,
        forall|key: Seq<char>| #[trigger]
            tasks.contains_key(key) ==> exists|i: int|
                0 <= i < walk.len() && #[trigger] walk[i] == (key, tasks[key]),
{
    let keys = walk.map_values(|pair: (Seq<char>, TaskView)| pair.0);
    assert forall|key: Seq<char>| #[trigger] tasks.contains_key(key) implies exists|i: int|
        0 <= i < walk.len() && #[trigger] walk[i] == (key, tasks[key]) by {
        let i = choose|i: int| 0 <= i < walk.len() && (#[trigger] walk[i]).0 == key;
        assert(tasks.contains_pair(walk[i].0, walk[i].1));
        assert(walk[i] == (key, tasks[key]));
    }
    assert forall|key: Seq<char>| keys.to_set().contains(key) == #[trigger] tasks.dom().contains(
        key,
    ) by {
        if keys.contains(key) {
            let i = choose|i: int| 0 <= i < keys.len() && keys[i] == key;
            assert(tasks.contains_pair(walk[i].0, walk[i].1));
        }
        if tasks.contains_key(key) {
            let i = choose|i: int| 0 <= i < walk.len() && (#[trigger] walk[i]).0 == key;
            assert(keys[i] == key);
        }
    }
    assert(keys.to_set() =~= tasks.dom());
    assert(keys.no_duplicates()) by {
        assert forall|i: int, j: int| 0 <= i < keys.len() && 0 <= j < keys.len() && i
            != j implies keys[i] != keys[j] by {
            assert(walk[i].0 != walk[j].0);
        }
    }
    keys.unique_seq_to_set();
}

/// Whether `task` stands under some key.
pub open spec fn is_one_of(task: TaskView, tasks: Map<Seq<char>, TaskView>) -> bool {
    exists|key: Seq<char>| #[trigger] tasks.contains_key(key) && tasks[key] == task
}

/// All tasks are listed: as many as there are, each task among them, and nothing else.
pub proof fn all_tasks_are_listed(listed: Seq<TaskView>, tasks: Map<Seq<char>, TaskView>)
    requires
        api::lists_tasks(listed, tasks),
    ensures
        tasks.dom().finite(),
        listed.len() == tasks.len(),
        forall|key: Seq<char>| #[trigger]
            tasks.contains_key(key) ==> exists|i: int|
                0 <= i < listed.len() && #[trigger] listed[i] == tasks[key],
        forall|i: int| 0 <= i < listed.len() ==> is_one_of(#[trigger] listed[i], tasks),
{
    let walk = choose|walk: Seq<(Seq<char>, TaskView)>| #[trigger]
        store::is_walk(walk, tasks) && listed == api::second_parts(walk);
    a_walk_comes_to_each_task_once(walk, tasks);
    assert forall|key: Seq<char>| #[trigger] tasks.contains_key(key) implies exists|i: int|
        0 <= i < listed.len() && #[trigger] listed[i] == tasks[key] by {
        let i = choose|i: int| 0 <= i < walk.len() && #[trigger] walk[i] == (key, tasks[key]);
        assert(listed[i] == tasks[key]);
    }
    assert forall|i: int| 0 <= i < listed.len() implies is_one_of(#[trigger] listed[i], tasks) by {
        assert(tasks.contains_key(walk[i].0));
    }
}

/// A reply carries the status, and the text, the identifier, the task or the tasks put into it.
pub proof fn a_reply_is_its_parts(reply: Reply, status: ReplyStatus, text: Seq<char>)
    ensures
        reply@.status == reply.status,
        reply.body matches ReplyBody::Text(text) ==> reply@.body == BodyView::Text(text@),
        reply.body matches ReplyBody::Id(id) ==> reply@.body == BodyView::Id(id@),
        reply.body matches ReplyBody::Task(task) ==> reply@.body == BodyView::Task(task@),
        reply.body matches ReplyBody::Tasks(tasks) ==> {
            &&& reply@.body matches BodyView::Tasks(views)
            &&& views.len() == tasks@.len()
            &&& forall|i: int| 0 <= i < views.len() ==> #[trigger] views[i] == tasks@[i]@
        },
        api::plain(status, text).status == status,
        api::plain(status, text).body == BodyView::Text(text),
{
}

/// The statuses have the codes that HTTP gives to them: what went well is in the two hundreds,
/// what was asked wrongly in the four hundreds, what went wrong here in the five hundreds.
pub proof fn statuses_are_those_of_http(status: ReplyStatus)
    ensures
        status == ReplyStatus::Okay <==> status.spec_code() == 200,
        status == ReplyStatus::Created <==> status.spec_code() == 201,
        status == ReplyStatus::Accepted <==> status.spec_code() == 202,
        status == ReplyStatus::BadRequest <==> status.spec_code() == 400,
        status == ReplyStatus::NotFound <==> status.spec_code() == 404,
        status == ReplyStatus::Conflict <==> status.spec_code() == 409,
        status == ReplyStatus::InternalServerError <==> status.spec_code() == 500,
{
}

/// A task that is there is answered by the task itself, any other by the words that it was not
/// found. A task that was made is answered by its identifier.
pub proof fn requests_to_look_are_answered(tasks: Map<Seq<char>, TaskView>, id: Seq<char>)
    ensures
        tasks.contains_key(id) ==> api::lookup(tasks, id).status.spec_code() == 200
            && api::lookup(tasks, id).body == BodyView::Task(tasks[id]),
        !tasks.contains_key(id) ==> api::lookup(tasks, id).status.spec_code() == 404
            && api::lookup(tasks, id).body == BodyView::Text("Task not found"@),
        api::not_found().status.spec_code() == 404,
        api::not_found().body == BodyView::Text("Task not found"@),
        api::creation(id).status.spec_code() == 201,
        api::creation(id).body == BodyView::Id(id),
{
}

/// A request to change a task that is there is answered by the changed task, which stands under
/// its key from then on and is saved; every other task is as it was. Where there is no such task,
/// nothing changes, nothing is saved, and the answer is that it was not found.
pub proof fn requests_to_change_are_answered(
    before: Map<Seq<char>, TaskView>,
    after: Map<Seq<char>, TaskView>,
    id: Seq<char>,
    changed: TaskView,
    r: Outcome,
)
    requires
        api::change_done(before, after, id, changed, r),
    ensures
        after.dom() == before.dom(),
        forall|key: Seq<char>| #[trigger]
            after.contains_key(key) && key != id ==> after[key] == before[key],
        before.contains_key(id) ==> after[id] == changed && r.save && r.reply@.status.spec_code()
            == 200 && r.reply@.body == BodyView::Task(changed),
        !before.contains_key(id) ==> !r.save && r.reply@.status.spec_code() == 404
            && r.reply@.body == BodyView::Text("Task not found"@),
{
    assert(after.dom() =~= before.dom());
}

/// A request to run a task that is there and not running is accepted: the task runs from `now` on,
/// as it was in all else, and the run to be made is of it, under its key. One that is running is
/// left alone, and so is everything where there is no such task. No other task changes.
pub proof fn requests_to_run_are_answered(
    before: Map<Seq<char>, TaskView>,
    after: Map<Seq<char>, TaskView>,
    id: Seq<char>,
    now: Moment,
    r: RunOutcome,
)
    requires
        api::run_done(before, after, id, now, r),
    ensures
        after.dom() == before.dom(),
        forall|key: Seq<char>| #[trigger]
            after.contains_key(key) && key != id ==> after[key] == before[key],
        !before.contains_key(id) ==> after == before && r.job is None
            && r.reply@.status.spec_code() == 404 && r.reply@.body == BodyView::Text(
            "Task not found"@,
        ),
        before.contains_key(id) && before[id].status == TaskStatus::Running ==> after == before
            && r.job is None && r.reply@.status.spec_code() == 409 && r.reply@.body
            == BodyView::Text("Task is already running"@),
        before.contains_key(id) && before[id].status != TaskStatus::Running ==> {
            &&& after[id].status == TaskStatus::Running
            &&& after[id].last_run == Some(now)
            &&& after[id].output == before[id].output
            &&& after[id].script_content == before[id].script_content
            &&& after[id].id == before[id].id
            &&& after[id].name == before[id].name
            &&& after[id].description == before[id].description
            &&& after[id].schedule == before[id].schedule
            &&& after[id].enabled == before[id].enabled
            &&& r.job matches Some(job) && job.key@ == id && job.task@ == after[id]
            &&& r.reply@.status.spec_code() == 202
            &&& r.reply@.body == BodyView::Text("Task is running"@)
        },
{
    assert(after.dom() =~= before.dom());
}

/// What a run tells of a task that is there changes that task alone, and of one that is gone
/// nothing.
pub proof fn what_a_run_tells_reaches_its_task_alone(
    tasks: Map<Seq<char>, TaskView>,
    id: Seq<char>,
    changed: TaskView,
)
    ensures
        ({
            let after = api::changed_if_present(tasks, id, changed);
            &&& after.dom() == tasks.dom()
            &&& tasks.contains_key(id) ==> after[id] == changed
            &&& forall|key: Seq<char>| #[trigger]
                after.contains_key(key) && key != id ==> after[key] == tasks[key]
        }),
{
    assert(api::changed_if_present(tasks, id, changed).dom() =~= tasks.dom());
}

/// Where the tasks and their files are kept.
pub proof fn places_have_their_names(id: Seq<char>)
    ensures
        task::TASKS_FILE@ == "data/tasks.json"@,
        task::SCRIPTS_DIR@ == "data/scripts"@,
        api::dir_of(id) == "data/scripts/"@ + id,
{
    reveal_strlit("data/scripts/");
    reveal_strlit("data/scripts");
    reveal_strlit("/");
    assert("data/scripts/"@ =~= "data/scripts"@ + "/"@);
}

} // verus!
