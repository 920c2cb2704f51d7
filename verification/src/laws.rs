//! What holds of the tasks as a whole, whatever is asked and whenever the clock is looked at.

use crate::api::{Outcome, ReplyStatus, RunOutcome};
use crate::moment::Moment;
use crate::task::{CreateTaskRequest, ScheduleType, TaskStatus, UpdateTaskRequest};
use vstd::prelude::*;

verus! {

use crate::api;
use crate::clients;
use crate::message;
use crate::json;
use crate::scheduler;
use crate::startup;
use crate::store;
use crate::task;
use crate::task::TaskView;
use crate::text;
use crate::upload;

/// A task that has been made is found as it was asked for, and every other request to look at a
/// task is answered as before.
pub proof fn a_created_task_is_found(
    tasks: Map<Seq<char>, TaskView>,
    id: Seq<char>,
    req: CreateTaskRequest,
    other: Seq<char>,
)
    ensures
        api::lookup(tasks.insert(id, task::created(id, req)), id) == api::found(
            task::created(id, req),
        ),
        other != id ==> api::lookup(tasks.insert(id, task::created(id, req)), other)
            == api::lookup(tasks, other),
{
}

/// A task that has been removed is not found, and every other request to look at a task is
/// answered as before.
pub proof fn a_removed_task_is_not_found(
    tasks: Map<Seq<char>, TaskView>,
    id: Seq<char>,
    other: Seq<char>,
)
    ensures
        api::lookup(tasks.remove(id), id) == api::not_found(),
        other != id ==> api::lookup(tasks.remove(id), other) == api::lookup(tasks, other),
{
}

/// A change is found by the next look at the task and leaves every other task as it was; where
/// there is no such task, it leaves all as it was and nothing is saved.
pub proof fn a_change_reaches_its_task_alone(
    before: Map<Seq<char>, TaskView>,
    after: Map<Seq<char>, TaskView>,
    id: Seq<char>,
    changed: TaskView,
    r: Outcome,
    other: Seq<char>,
)
    requires
        api::change_done(before, after, id, changed, r),
    ensures
        api::lookup(after, id) == r.reply@,
        other != id ==> api::lookup(after, other) == api::lookup(before, other),
        r.reply@.status == ReplyStatus::NotFound ==> after == before && !r.save,
        r.reply@.status == ReplyStatus::NotFound <==> !before.contains_key(id),
{
}

/// An update touches nothing but the name, the description, the script and the schedule. One
/// that gives none of them changes nothing, and one that is made twice does what it does once.
pub proof fn an_update_changes_what_it_gives(task: TaskView, req: UpdateTaskRequest)
    ensures
        task::updated(task, req).id == task.id,
        task::updated(task, req).last_run == task.last_run,
        task::updated(task, req).status == task.status,
        task::updated(task, req).output == task.output,
        task::updated(task, req).enabled == task.enabled,
        task::updated(task::updated(task, req), req) == task::updated(task, req),
        req.name is None && req.description is None && req.script_content is None
            && req.schedule is None ==> task::updated(task, req) == task,
{
}

/// A request to run a task that is refused changes nothing and starts nothing. It is refused
/// just where there is no such task or a run of it is under way.
pub proof fn a_refused_run_changes_nothing(
    before: Map<Seq<char>, TaskView>,
    after: Map<Seq<char>, TaskView>,
    id: Seq<char>,
    now: Moment,
    r: RunOutcome,
)
    requires
        api::run_done(before, after, id, now, r),
    ensures
        r.reply@.status != ReplyStatus::Accepted ==> after == before && r.job is None,
        r.reply@.status == ReplyStatus::NotFound <==> !before.contains_key(id),
        r.reply@.status == ReplyStatus::Conflict <==> before.contains_key(id) && before[id].status
            == TaskStatus::Running,
        r.reply@.status == ReplyStatus::Accepted ==> after[id].status == TaskStatus::Running,
{
}

/// What a run has come to is told by what it put out alone: the run has failed just where that
/// holds the word `ERROR`, and it is kept word for word.
pub proof fn a_run_is_judged_by_its_output(task: TaskView, output: Seq<char>)
    ensures
        task::finished(task, output).status == TaskStatus::Failed <==> text::contains_text(
            output,
            "ERROR"@,
        ),
        task::finished(task, output).status == TaskStatus::Failed || task::finished(
            task,
            output,
        ).status == TaskStatus::Completed,
        task::finished(task, output).output == Some(output),
        task::finished(task, output).last_run == task.last_run,
{
}

/// The clock never touches a task that is not enabled.
pub proof fn a_disabled_task_is_left_alone(
    task: TaskView,
    tick: Moment,
    reading: (Moment, Moment),
)
    requires
        !task.enabled,
    ensures
        scheduler::considered(task, tick, reading) == task,
{
}

/// A schedule that asks for what no clock and no calendar shows is never due.
pub proof fn what_is_never_shown_never_comes(task: TaskView, tick: Moment, check: Moment)
    requires
        task.schedule matches ScheduleType::Cron { minute, hour, day, month, weekday } && {
            ||| minute matches Some(wanted) && wanted > 59
            ||| hour matches Some(wanted) && wanted > 23
            ||| day matches Some(wanted) && !(1 <= wanted <= 31)
            ||| month matches Some(wanted) && !(1 <= wanted <= 12)
            ||| weekday matches Some(wanted) && wanted > 6
        },
    ensures
        !scheduler::is_due(task, tick, check),
{
    crate::moment::clocks_and_calendars_have_bounds(tick);
}

/// A task with an interval is begun again when the interval has gone by, not before, and stays
/// due from then on. (Of a last run within a leap second the last does not hold.)
pub proof fn an_interval_passes_between_runs(
    task: TaskView,
    secs: u64,
    start: Moment,
    tick: Moment,
    check: Moment,
    later: Moment,
)
    requires
        task.schedule == ScheduleType::Interval(secs),
        start.spec_nanos() < 1_000_000_000,
        check.is_reading(),
        later.is_reading(),
        check.spec_secs() * 1_000_000_000 + check.spec_nanos() <= later.spec_secs() * 1_000_000_000
            + later.spec_nanos(),
    ensures
        scheduler::is_due(task::begun_afresh(task, start), tick, check) <==> check.nanos_after(
            start,
        ) >= secs * 1_000_000_000,
        scheduler::is_due(task::begun_afresh(task, start), tick, check) ==> scheduler::is_due(
            task::begun_afresh(task, start),
            tick,
            later,
        ),
{
}

/// A task that has never run is begun by the clock at once, if its schedule is to run once or by
/// an interval, and is begun by a schedule by clock and calendar in the first minute admitted.
pub proof fn a_new_task_waits_for_its_schedule_alone(
    id: Seq<char>,
    req: CreateTaskRequest,
    tick: Moment,
    check: Moment,
)
    ensures
        scheduler::is_begun(task::created(id, req), tick, check) == match req.schedule {
            ScheduleType::Once | ScheduleType::Interval(_) => true,
            ScheduleType::Cron { minute, hour, day, month, weekday } => scheduler::cron_admits(
                minute,
                hour,
                day,
                month,
                weekday,
                tick.local_slot(),
            ),
        },
{
}

/// Whether one of the runs is of the task `key`.
pub open spec fn is_among(jobs: Seq<(Seq<char>, TaskView)>, key: Seq<char>) -> bool {
    exists|i: int| 0 <= i < jobs.len() && (#[trigger] jobs[i]).0 == key
}

/// Of the runs that one look of the clock begins no two are of the same task; each is of a task
/// that was enabled and had no run under way, and that is running now. A run of a task begins just
/// where the task asks for one at what the clock shows when it comes to it. A task without such a
/// run is as it was, and no task comes or goes.
pub proof fn the_clock_begins_each_run_once(
    before: Map<Seq<char>, TaskView>,
    after: Map<Seq<char>, TaskView>,
    jobs: Seq<(Seq<char>, TaskView)>,
    tick: Moment,
    walk: Seq<(Seq<char>, TaskView)>,
    readings: Seq<(Moment, Moment)>,
)
    requires
        scheduler::pass_done(before, after, jobs, tick, walk, readings),
    ensures
        forall|i: int, j: int|
            0 <= i < j < jobs.len() ==> (#[trigger] jobs[i]).0 != (#[trigger] jobs[j]).0,
        forall|i: int|
            0 <= i < jobs.len() ==> {
                let (key, begun) = #[trigger] jobs[i];
                &&& before.contains_key(key)
                &&& before[key].enabled
                &&& before[key].status != TaskStatus::Running
                &&& after[key] == begun
                &&& begun.status == TaskStatus::Running
                &&& begun.output is None
            },
        forall|key: Seq<char>| #[trigger]
            before.contains_key(key) && (forall|i: int|
                0 <= i < jobs.len() ==> (#[trigger] jobs[i]).0 != key) ==> after[key]
                == before[key],
        forall|w: int|
            0 <= w < walk.len() ==> (is_among(jobs, (#[trigger] walk[w]).0)
                <==> scheduler::is_begun(walk[w].1, tick, readings[w].0)),
        after.dom() == before.dom(),
{
    lemma_jobs(walk, tick, readings);
    assert forall|w: int| 0 <= w < walk.len() implies (is_among(jobs, (#[trigger] walk[w]).0)
        <==> scheduler::is_begun(walk[w].1, tick, readings[w].0)) by {
        if is_among(jobs, walk[w].0) {
            let i = choose|i: int| 0 <= i < jobs.len() && (#[trigger] jobs[i]).0 == walk[w].0;
            let v = choose|v: int|
                0 <= v < walk.len() && #[trigger] walk[v].0 == jobs[i].0 && scheduler::is_begun(
                    walk[v].1,
                    tick,
                    readings[v].0,
                ) && jobs[i].1 == scheduler::considered(walk[v].1, tick, readings[v]);
            assert(v == w);
        }
    }
    assert forall|i: int| 0 <= i < jobs.len() implies {
        let (key, begun) = #[trigger] jobs[i];
        &&& before.contains_key(key)
        &&& before[key].enabled
        &&& before[key].status != TaskStatus::Running
        &&& after[key] == begun
        &&& begun.status == TaskStatus::Running
        &&& begun.output is None
    } by {
        let w = choose|w: int|
            0 <= w < walk.len() && #[trigger] walk[w].0 == jobs[i].0 && scheduler::is_begun(
                walk[w].1,
                tick,
                readings[w].0,
            ) && jobs[i].1 == scheduler::considered(walk[w].1, tick, readings[w]);
        assert(before.contains_pair(walk[w].0, walk[w].1));
    }
    assert forall|key: Seq<char>| #[trigger]
        before.contains_key(key) && (forall|i: int|
            0 <= i < jobs.len() ==> (#[trigger] jobs[i]).0 != key) implies after[key]
        == before[key] by {
        let w = choose|w: int| 0 <= w < walk.len() && (#[trigger] walk[w]).0 == key;
        assert(before.contains_pair(walk[w].0, walk[w].1));
        assert(!scheduler::is_begun(walk[w].1, tick, readings[w].0));
    }
}

/// Where the clock shows `now` throughout one look, a run of a task begins just where the task is
/// enabled, has no run under way and is due at `now`. Such a task is running since the moment read
/// when its run began; every other is as it was and has no run. No task comes or goes.
pub proof fn one_look_begins_what_is_due(
    before: Map<Seq<char>, TaskView>,
    after: Map<Seq<char>, TaskView>,
    jobs: Seq<(Seq<char>, TaskView)>,
    tick: Moment,
    now: Moment,
    walk: Seq<(Seq<char>, TaskView)>,
    readings: Seq<(Moment, Moment)>,
)
    requires
        scheduler::pass_done(before, after, jobs, tick, walk, readings),
        forall|i: int| 0 <= i < readings.len() ==> (#[trigger] readings[i]).0 == now,
    ensures
        forall|key: Seq<char>| #[trigger]
            before.contains_key(key) ==> {
                &&& is_among(jobs, key) <==> before[key].enabled && before[key].status
                    != TaskStatus::Running && scheduler::is_due(before[key], tick, now)
                &&& is_among(jobs, key) ==> exists|start: Moment|
                    after[key] == #[trigger] task::begun_afresh(before[key], start)
                &&& !is_among(jobs, key) ==> after[key] == before[key]
            },
        forall|key: Seq<char>| #[trigger] is_among(jobs, key) ==> before.contains_key(key),
        after.dom() == before.dom(),
{
    the_clock_begins_each_run_once(before, after, jobs, tick, walk, readings);
    assert forall|key: Seq<char>| #[trigger] before.contains_key(key) implies {
        &&& is_among(jobs, key) <==> before[key].enabled && before[key].status
            != TaskStatus::Running && scheduler::is_due(before[key], tick, now)
        &&& is_among(jobs, key) ==> exists|start: Moment|
            after[key] == #[trigger] task::begun_afresh(before[key], start)
        &&& !is_among(jobs, key) ==> after[key] == before[key]
    } by {
        let w = choose|w: int| 0 <= w < walk.len() && (#[trigger] walk[w]).0 == key;
        assert(before.contains_pair(walk[w].0, walk[w].1));
        assert(readings[w].0 == now);
        assert(is_among(jobs, walk[w].0) <==> scheduler::is_begun(walk[w].1, tick, readings[w].0));
        assert(after[walk[w].0] == scheduler::considered(walk[w].1, tick, readings[w]));
    }
}

proof fn lemma_jobs(
    walk: Seq<(Seq<char>, TaskView)>,
    tick: Moment,
    readings: Seq<(Moment, Moment)>,
)
    requires
        readings.len() == walk.len(),
        forall|i: int, j: int|
            0 <= i < j < walk.len() ==> (#[trigger] walk[i]).0 != (#[trigger] walk[j]).0,
    ensures
        forall|i: int, j: int|
            0 <= i < j < scheduler::jobs_begun(walk, tick, readings).len() ==> (
            #[trigger] scheduler::jobs_begun(walk, tick, readings)[i]).0 != (
            #[trigger] scheduler::jobs_begun(walk, tick, readings)[j]).0,
        forall|i: int|
            0 <= i < scheduler::jobs_begun(walk, tick, readings).len() ==> exists|w: int|
                0 <= w < walk.len() && #[trigger] walk[w].0 == (#[trigger] scheduler::jobs_begun(
                    walk,
                    tick,
                    readings,
                )[i]).0 && scheduler::is_begun(walk[w].1, tick, readings[w].0)
                    && scheduler::jobs_begun(walk, tick, readings)[i].1 == scheduler::considered(
                    walk[w].1,
                    tick,
                    readings[w],
                ),
        forall|w: int|
            0 <= w < walk.len() && scheduler::is_begun((#[trigger] walk[w]).1, tick, readings[w].0)
                ==> exists|i: int|
                0 <= i < scheduler::jobs_begun(walk, tick, readings).len() && (
                #[trigger] scheduler::jobs_begun(walk, tick, readings)[i]).0 == walk[w].0,
    decreases walk.len(),
{
    if walk.len() > 0 {
        let last = walk.len() - 1;
        let short = walk.drop_last();
        let fewer = readings.drop_last();
        assert forall|i: int, j: int| 0 <= i < j < short.len() implies (#[trigger] short[i]).0 != (
        #[trigger] short[j]).0 by {
            assert(short[i] == walk[i] && short[j] == walk[j]);
        }
        lemma_jobs(short, tick, fewer);
        let earlier = scheduler::jobs_begun(short, tick, fewer);
        let jobs = scheduler::jobs_begun(walk, tick, readings);
        assert(walk[last] == walk.last());
        assert forall|i: int| 0 <= i < jobs.len() implies exists|w: int|
            0 <= w < walk.len() && #[trigger] walk[w].0 == (#[trigger] jobs[i]).0
                && scheduler::is_begun(walk[w].1, tick, readings[w].0) && jobs[i].1
                == scheduler::considered(walk[w].1, tick, readings[w]) by {
            if i < earlier.len() {
                assert(jobs[i] == earlier[i]);
                let w = choose|w: int|
                    0 <= w < short.len() && #[trigger] short[w].0 == earlier[i].0
                        && scheduler::is_begun(short[w].1, tick, fewer[w].0) && earlier[i].1
                        == scheduler::considered(short[w].1, tick, fewer[w]);
                assert(walk[w].0 == jobs[i].0);
                assert(readings[w] == fewer[w]);
            } else {
                assert(walk[last].0 == jobs[i].0);
            }
        }
        assert forall|i: int, j: int| 0 <= i < j < jobs.len() implies (#[trigger] jobs[i]).0 != (
        #[trigger] jobs[j]).0 by {
            assert(jobs[i] == earlier[i]);
            if j < earlier.len() {
                assert(jobs[j] == earlier[j]);
            } else {
                let w = choose|w: int|
                    0 <= w < short.len() && #[trigger] short[w].0 == earlier[i].0
                        && scheduler::is_begun(short[w].1, tick, fewer[w].0) && earlier[i].1
                        == scheduler::considered(short[w].1, tick, fewer[w]);
                assert(walk[w].0 != walk[last].0);
            }
        }
        assert forall|w: int|
            0 <= w < walk.len() && scheduler::is_begun(
                (#[trigger] walk[w]).1,
                tick,
                readings[w].0,
            ) implies exists|i: int| 0 <= i < jobs.len() && (#[trigger] jobs[i]).0 == walk[w].0 by {
            if w < last {
                assert(short[w] == walk[w] && fewer[w] == readings[w]);
                let i = choose|i: int|
                    0 <= i < earlier.len() && (#[trigger] earlier[i]).0 == short[w].0;
                assert(jobs[i].0 == walk[w].0);
            } else {
                assert(jobs[jobs.len() - 1].0 == walk[w].0);
            }
        }
    }
}

/// When the program starts no task is running.
pub proof fn no_task_runs_at_the_start(kept: Seq<(Seq<char>, TaskView)>)
    ensures
        forall|key: Seq<char>| #[trigger]
            startup::restored(kept).contains_key(key) ==> startup::restored(kept)[key].status
                != TaskStatus::Running,
    decreases kept.len(),
{
    if kept.len() > 0 {
        no_task_runs_at_the_start(kept.drop_last());
    }
}

/// The tasks that were kept are taken up as they were, but that a run that was under way is
/// forgotten.
pub proof fn kept_tasks_are_taken_up(
    kept: Seq<(Seq<char>, TaskView)>,
    tasks: Map<Seq<char>, TaskView>,
)
    requires
        store::is_walk(kept, tasks),
    ensures
        startup::restored(kept) == tasks.map_values(|task: TaskView| task::recovered(task)),
{
    lemma_restored(kept);
    let expected = tasks.map_values(|task: TaskView| task::recovered(task));
    assert forall|key: Seq<char>|
        {
            &&& #[trigger] startup::restored(kept).dom().contains(key) == expected.dom().contains(
                key,
            )
            &&& expected.dom().contains(key) ==> startup::restored(kept)[key] == expected[key]
        } by {
        if tasks.contains_key(key) {
            let i = choose|i: int| 0 <= i < kept.len() && (#[trigger] kept[i]).0 == key;
            assert(tasks.contains_pair(kept[i].0, kept[i].1));
        }
        if startup::restored(kept).contains_key(key) {
            let i = choose|i: int| 0 <= i < kept.len() && (#[trigger] kept[i]).0 == key;
            assert(tasks.contains_pair(kept[i].0, kept[i].1));
        }
    }
    assert(startup::restored(kept) =~= expected);
}

proof fn lemma_restored(kept: Seq<(Seq<char>, TaskView)>)
    requires
        forall|i: int, j: int|
            0 <= i < j < kept.len() ==> (#[trigger] kept[i]).0 != (#[trigger] kept[j]).0,
    ensures
        forall|i: int|
            0 <= i < kept.len() ==> startup::restored(kept).contains_pair(
                (#[trigger] kept[i]).0,
                task::recovered(kept[i].1),
            ),
        forall|key: Seq<char>| #[trigger]
            startup::restored(kept).contains_key(key) ==> exists|i: int|
                0 <= i < kept.len() && (#[trigger] kept[i]).0 == key,
    decreases kept.len(),
{
    if kept.len() > 0 {
        let short = kept.drop_last();
        let last = kept.len() - 1;
        assert forall|i: int, j: int| 0 <= i < j < short.len() implies (#[trigger] short[i]).0 != (
        #[trigger] short[j]).0 by {
            assert(short[i] == kept[i] && short[j] == kept[j]);
        }
        lemma_restored(short);
        assert(kept[last] == kept.last());
        assert forall|i: int| 0 <= i < kept.len() implies startup::restored(kept).contains_pair(
            (#[trigger] kept[i]).0,
            task::recovered(kept[i].1),
        ) by {
            if i < last {
                assert(short[i] == kept[i]);
                assert(startup::restored(short).contains_pair(
                    short[i].0,
                    task::recovered(short[i].1),
                ));
                assert(kept[i].0 != kept[last].0);
            }
        }
        assert forall|key: Seq<char>| #[trigger]
            startup::restored(kept).contains_key(key) implies exists|i: int|
            0 <= i < kept.len() && (#[trigger] kept[i]).0 == key by {
            if key == kept[last].0 {
                assert(kept[last].0 == key);
            } else {
                assert(startup::restored(short).contains_key(key));
                let i = choose|i: int| 0 <= i < short.len() && (#[trigger] short[i]).0 == key;
                assert(kept[i].0 == key);
            }
        }
    }
}

/// A client that has been taken in and let go of again leaves those who listen as they were.
pub proof fn a_client_leaves_no_trace<S>(
    before: Seq<(usize, S)>,
    number: usize,
    sender: S,
)
    requires
        !clients::has_number(before, number),
    ensures
        clients::without(before.push((number, sender)), number) == before,
{
    reveal(Seq::filter);
    clients::lemma_without_none(before, number);
    assert(before.push((number, sender)).drop_last() =~= before);
}

/// A client that is let go of is heard of no more, and every other stays.
pub proof fn a_client_is_let_go_of_alone<S>(
    before: Seq<(usize, S)>,
    number: usize,
    client: (usize, S),
)
    ensures
        !clients::has_number(clients::without(before, number), number),
        client.0 != number && before.contains(client) ==> clients::without(
            before,
            number,
        ).contains(client),
{
    broadcast use vstd::seq_lib::group_filter_ensures;

    let kept = |other: (usize, S)| other.0 != number;
    if clients::has_number(clients::without(before, number), number) {
        let i = choose|i: int|
            0 <= i < clients::without(before, number).len() && (#[trigger] clients::without(
                before,
                number,
            )[i]).0 == number;
        assert(kept(before.filter(kept)[i]));
    }
    if client.0 != number && before.contains(client) {
        let i = choose|i: int| 0 <= i < before.len() && before[i] == client;
        assert(kept(before[i]));
    }
}

/// The message that a task has put out a line says so, and carries the task and the line.
pub proof fn a_line_is_passed_on(task_id: Seq<char>, line: Seq<char>)
    ensures
        message::output_members(task_id, line)["type"@] == json::json_string("output"@),
        message::output_members(task_id, line)["task_id"@] == json::json_string(task_id),
        message::output_members(task_id, line)["line"@] == json::json_string(line),
        message::output_members(task_id, line).dom() == set!["type"@, "task_id"@, "line"@],
        json::json_object(message::output_members(task_id, line)) == "{\"line\":"@
            + json::json_string(line) + ",\"task_id\":"@ + json::json_string(task_id)
            + ",\"type\":\"output\"}"@,
{
    reveal_strlit("type");
    reveal_strlit("task_id");
    reveal_strlit("line");
    assert("type"@.len() == 4 && "task_id"@.len() == 7 && "line"@.len() == 4);
    assert("type"@[0] != "line"@[0]);
    let members = message::output_members(task_id, line);
    assert(members.dom() =~= set!["type"@, "task_id"@, "line"@]);
    lemma_output_text(members, seq!["line"@, "task_id"@, "type"@]);
}

proof fn lemma_output_keys(members: Map<Seq<char>, Seq<char>>, keys: Seq<Seq<char>>)
    requires
        keys == seq!["line"@, "task_id"@, "type"@],
        members.dom() == set!["type"@, "task_id"@, "line"@],
    ensures
        text::ascending(keys),
        keys.to_set() == members.dom(),
        forall|i: int| 0 <= i < keys.len() ==> json::is_plain(#[trigger] keys[i]),
{
    reveal_strlit("line");
    reveal_strlit("task_id");
    reveal_strlit("type");
    assert(text::ascending(keys)) by {
        reveal_with_fuel(text::text_before, 3);
    }
    assert forall|key: Seq<char>| keys.to_set().contains(key) == #[trigger] members.dom().contains(
        key,
    ) by {
        assert(keys[0] == "line"@ && keys[1] == "task_id"@ && keys[2] == "type"@);
    }
    assert(keys.to_set() =~= members.dom());
}

proof fn lemma_output_text(members: Map<Seq<char>, Seq<char>>, keys: Seq<Seq<char>>)
    requires
        keys == seq!["line"@, "task_id"@, "type"@],
        members.dom() == set!["type"@, "task_id"@, "line"@],
        members["type"@] == json::json_string("output"@),
    ensures
        json::json_object(members) == "{\"line\":"@ + members["line"@] + ",\"task_id\":"@
            + members["task_id"@] + ",\"type\":\"output\"}"@,
{
    lemma_output_keys(members, keys);
    json::keys_in_order_settle_the_text(members, keys);
    json::the_first_member_opens_the_text(members, keys);
    assert("{\"line\":"@ =~= seq!['{', '"'] + "line"@ + seq!['"', ':']) by {
        reveal_strlit("{\"line\":");
        reveal_strlit("line");
    }
    json::another_member_follows(members, keys, 2);
    assert(",\"task_id\":"@ =~= seq![',', '"'] + "task_id"@ + seq!['"', ':']) by {
        reveal_strlit(",\"task_id\":");
        reveal_strlit("task_id");
    }
    json::another_member_follows(members, keys, 3);
    assert(keys.take(3) =~= keys);
    let before = seq!['{'] + json::members_text(members, keys.take(2));
    let last = seq![',', '"'] + "type"@ + seq!['"', ':'];
    assert(",\"type\":\"output\"}"@ =~= last + json::json_string("output"@) + seq!['}']) by {
        reveal_strlit(",\"type\":\"output\"}");
        reveal_strlit("type");
        reveal_strlit("output");
        json::plain_text_is_not_escaped("output"@);
    }
    let whole = seq!['{'] + json::members_text(members, keys);
    assert(json::json_object(members) =~= whole + seq!['}']);
    assert(json::json_object(members) =~= before + (last + json::json_string("output"@) + seq![
        '}',
    ]));
}

/// The message that tells how a task stands says so, and carries the task, its status, its last
/// run, its schedule and what it has put out.
pub proof fn the_standing_of_a_task_is_told(task: TaskView, last_run: Option<Seq<char>>)
    ensures
        ({
            let members = message::status_members(task, last_run);
            &&& members["type"@] == json::json_string("status"@)
            &&& members["task_id"@] == json::json_string(task.id)
            &&& members["status"@] == json::json_string(message::status_name(task.status))
            &&& members["last_run"@] == json::string_or_null(last_run)
            &&& members["schedule"@] == message::schedule_text(task.schedule)
            &&& members["output"@] == json::string_or_null(task.output)
            &&& members.dom() == set![
                "type"@,
                "task_id"@,
                "status"@,
                "last_run"@,
                "schedule"@,
                "output"@,
            ]
        }),
        json::json_object(message::status_members(task, last_run)) == "{\"last_run\":"@
            + json::string_or_null(last_run) + ",\"output\":"@ + json::string_or_null(task.output)
            + ",\"schedule\":"@ + message::schedule_text(task.schedule) + ",\"status\":"@
            + json::json_string(message::status_name(task.status)) + ",\"task_id\":"@
            + json::json_string(task.id) + ",\"type\":\"status\"}"@,
{
    reveal_strlit("type");
    reveal_strlit("task_id");
    reveal_strlit("status");
    reveal_strlit("last_run");
    reveal_strlit("schedule");
    reveal_strlit("output");
    assert("type"@.len() == 4 && "task_id"@.len() == 7 && "status"@.len() == 6);
    assert("last_run"@.len() == 8 && "schedule"@.len() == 8 && "output"@.len() == 6);
    assert("status"@[0] != "output"@[0]);
    assert("last_run"@[0] != "schedule"@[0]);
    let members = message::status_members(task, last_run);
    assert(members.dom() =~= set![
        "type"@,
        "task_id"@,
        "status"@,
        "last_run"@,
        "schedule"@,
        "output"@,
    ]);
    lemma_status_text(
        members,
        seq!["last_run"@, "output"@, "schedule"@, "status"@, "task_id"@, "type"@],
    );
}

proof fn lemma_status_keys(members: Map<Seq<char>, Seq<char>>, keys: Seq<Seq<char>>)
    requires
        keys == seq!["last_run"@, "output"@, "schedule"@, "status"@, "task_id"@, "type"@],
        members.dom() == set![
            "type"@,
            "task_id"@,
            "status"@,
            "last_run"@,
            "schedule"@,
            "output"@,
        ],
    ensures
        text::ascending(keys),
        keys.to_set() == members.dom(),
        forall|i: int| 0 <= i < keys.len() ==> json::is_plain(#[trigger] keys[i]),
{
    reveal_strlit("last_run");
    reveal_strlit("output");
    reveal_strlit("schedule");
    reveal_strlit("status");
    reveal_strlit("task_id");
    reveal_strlit("type");
    assert(text::ascending(keys)) by {
        reveal_with_fuel(text::text_before, 3);
    }
    assert forall|key: Seq<char>| keys.to_set().contains(key) == #[trigger] members.dom().contains(
        key,
    ) by {
        assert(keys[0] == "last_run"@ && keys[1] == "output"@ && keys[2] == "schedule"@);
        assert(keys[3] == "status"@ && keys[4] == "task_id"@ && keys[5] == "type"@);
    }
    assert(keys.to_set() =~= members.dom());
}

proof fn lemma_status_text(members: Map<Seq<char>, Seq<char>>, keys: Seq<Seq<char>>)
    requires
        keys == seq!["last_run"@, "output"@, "schedule"@, "status"@, "task_id"@, "type"@],
        members.dom() == set![
            "type"@,
            "task_id"@,
            "status"@,
            "last_run"@,
            "schedule"@,
            "output"@,
        ],
        members["type"@] == json::json_string("status"@),
    ensures
        json::json_object(members) == "{\"last_run\":"@ + members["last_run"@] + ",\"output\":"@
            + members["output"@] + ",\"schedule\":"@
            + members["schedule"@] + ",\"status\":"@
            + members["status"@] + ",\"task_id\":"@
            + members["task_id"@] + ",\"type\":\"status\"}"@,
{
    lemma_status_keys(members, keys);
    json::keys_in_order_settle_the_text(members, keys);
    json::the_first_member_opens_the_text(members, keys);
    assert("{\"last_run\":"@ =~= seq!['{', '"'] + "last_run"@ + seq!['"', ':']) by {
        reveal_strlit("{\"last_run\":");
        reveal_strlit("last_run");
    }
    json::another_member_follows(members, keys, 2);
    assert(",\"output\":"@ =~= seq![',', '"'] + "output"@ + seq!['"', ':']) by {
        reveal_strlit(",\"output\":");
        reveal_strlit("output");
    }
    json::another_member_follows(members, keys, 3);
    assert(",\"schedule\":"@ =~= seq![',', '"'] + "schedule"@ + seq!['"', ':']) by {
        reveal_strlit(",\"schedule\":");
        reveal_strlit("schedule");
    }
    json::another_member_follows(members, keys, 4);
    assert(",\"status\":"@ =~= seq![',', '"'] + "status"@ + seq!['"', ':']) by {
        reveal_strlit(",\"status\":");
        reveal_strlit("status");
    }
    json::another_member_follows(members, keys, 5);
    assert(",\"task_id\":"@ =~= seq![',', '"'] + "task_id"@ + seq!['"', ':']) by {
        reveal_strlit(",\"task_id\":");
        reveal_strlit("task_id");
    }
    json::another_member_follows(members, keys, 6);
    assert(keys.take(6) =~= keys);
    let before = seq!['{'] + json::members_text(members, keys.take(5));
    let last = seq![',', '"'] + "type"@ + seq!['"', ':'];
    assert(",\"type\":\"status\"}"@ =~= last + json::json_string("status"@) + seq!['}']) by {
        reveal_strlit(",\"type\":\"status\"}");
        reveal_strlit("type");
        reveal_strlit("status");
        json::plain_text_is_not_escaped("status"@);
    }
    let whole = seq!['{'] + json::members_text(members, keys);
    assert(json::json_object(members) =~= whole + seq!['}']);
    assert(json::json_object(members) =~= before + (last + json::json_string("status"@) + seq![
        '}',
    ]));
}

/// The directory of a task under a random identifier lies directly in that of all scripts: the
/// identifier could be the name of a file and is not made of dots.
pub proof fn a_random_id_names_a_directory(id: Seq<char>)
    requires
        api::is_random_id(id),
    ensures
        upload::is_file_name(id),
        upload::lies_in(api::dir_of(id), crate::task::SCRIPTS_DIR@),
        !upload::is_dots(id),
{
    assert forall|i: int| 0 <= i < id.len() implies upload::is_legal(#[trigger] id[i]) by {}
    reveal_strlit(".");
    reveal_strlit("..");
    assert("."@.len() == 1 && ".."@.len() == 2);
    assert(upload::is_file_name(id) && id != "."@ && id != ".."@);
    assert(id[14] == '4');
}

/// What is sent under any name is put directly into the directory of its task, whichever rules the
/// names of files follow.
pub proof fn an_upload_stays_in_its_directory(
    task_dir: Seq<char>,
    name: Seq<char>,
    windows: bool,
)
    ensures
        upload::lies_in(upload::upload_file_path(task_dir, name, windows), task_dir),
{
    upload::a_sanitized_name_is_a_file_name(name, windows);
}

} // verus!
