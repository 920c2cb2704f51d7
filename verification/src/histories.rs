//! What holds of a task over any history of what is done to it.

use crate::api::{Outcome, RunOutcome};
use crate::moment::Moment;
use crate::task::{ScheduleType, TaskStatus, UpdateTaskRequest};
use vstd::prelude::*;

verus! {

use crate::api;
use crate::laws;
use crate::moment::SlotView;
use crate::scheduler;
use crate::task;
use crate::task::TaskView;

/// Something that is done to a task.
pub ghost enum Deed {
    /// It is changed at a request.
    Update(UpdateTaskRequest),
    /// It is switched on or off for the clock.
    Switch(bool),
    /// It is to be run, at a request that comes at this moment.
    RunAsked(Moment),
    /// The clock comes to it, at this tick, and reads these moments.
    Look(Moment, (Moment, Moment)),
    /// A run has put out this line.
    Line(Seq<char>),
    /// A run has ended and has put out this.
    End(Seq<char>),
    /// The program ends and is started again.
    Restart,
}

/// What becomes of a task by a deed.
pub open spec fn after_deed(task: TaskView, deed: Deed) -> TaskView {
    match deed {
        Deed::Update(req) => task::updated(task, req),
        Deed::Switch(enabled) => TaskView { enabled, ..task },
        Deed::RunAsked(now) => if task.status == TaskStatus::Running {
            task
        } else {
            task::begun(task, now)
        },
        Deed::Look(tick, reading) => scheduler::considered(task, tick, reading),
        Deed::Line(line) => task::with_line(task, line),
        Deed::End(output) => task::finished(task, output),
        Deed::Restart => task::recovered(task),
    }
}

/// Whether a deed begins a run of a task.
pub open spec fn begins(task: TaskView, deed: Deed) -> bool {
    match deed {
        Deed::RunAsked(_) => task.status != TaskStatus::Running,
        Deed::Look(tick, reading) => scheduler::is_begun(task, tick, reading.0),
        _ => false,
    }
}

/// What becomes of a task by deeds one after the other.
pub open spec fn after_deeds(task: TaskView, deeds: Seq<Deed>) -> TaskView
    decreases deeds.len(),
{
    if deeds.len() == 0 {
        task
    } else {
        after_deed(after_deeds(task, deeds.drop_last()), deeds.last())
    }
}

/// How many runs of a task begin.
pub open spec fn runs_begun(task: TaskView, deeds: Seq<Deed>) -> nat
    decreases deeds.len(),
{
    if deeds.len() == 0 {
        0
    } else {
        runs_begun(task, deeds.drop_last()) + if begins(
            after_deeds(task, deeds.drop_last()),
            deeds.last(),
        ) {
            1nat
        } else {
            0
        }
    }
}

/// How many runs of a task end, each time that the program ends counted among them.
pub open spec fn runs_ended(deeds: Seq<Deed>) -> nat
    decreases deeds.len(),
{
    if deeds.len() == 0 {
        0
    } else {
        runs_ended(deeds.drop_last()) + if deeds.last() is End || deeds.last() is Restart {
            1nat
        } else {
            0
        }
    }
}

/// How many runs of a task are under way: one more with each that begins, one less with each that
/// ends, and none where the program starts.
pub open spec fn runs_under_way(task: TaskView, deeds: Seq<Deed>) -> int
    decreases deeds.len(),
{
    if deeds.len() == 0 {
        0
    } else {
        let before = runs_under_way(task, deeds.drop_last());
        if begins(after_deeds(task, deeds.drop_last()), deeds.last()) {
            before + 1
        } else if deeds.last() is End {
            before - 1
        } else if deeds.last() is Restart {
            0
        } else {
            before
        }
    }
}

/// Whether no run ends but one that is under way.
pub open spec fn is_orderly(task: TaskView, deeds: Seq<Deed>) -> bool
    decreases deeds.len(),
{
    deeds.len() > 0 ==> {
        &&& is_orderly(task, deeds.drop_last())
        &&& deeds.last() is End ==> runs_under_way(task, deeds.drop_last()) > 0
    }
}

/// How many runs of a task the clock begins while the task is to run once.
pub open spec fn single_runs(task: TaskView, deeds: Seq<Deed>) -> nat
    decreases deeds.len(),
{
    if deeds.len() == 0 {
        0
    } else {
        let before = after_deeds(task, deeds.drop_last());
        single_runs(task, deeds.drop_last()) + if deeds.last() is Look && before.schedule
            == ScheduleType::Once && begins(before, deeds.last()) {
            1nat
        } else {
            0
        }
    }
}

/// How many runs of a task the clock begins while the task goes by clock and calendar.
pub open spec fn calendar_runs(task: TaskView, deeds: Seq<Deed>) -> nat
    decreases deeds.len(),
{
    if deeds.len() == 0 {
        0
    } else {
        let before = after_deeds(task, deeds.drop_last());
        calendar_runs(task, deeds.drop_last()) + if deeds.last() is Look && before.schedule is Cron
            && begins(before, deeds.last()) {
            1nat
        } else {
            0
        }
    }
}

/// Whether clock and calendar show `slot` whenever a run can begin.
pub open spec fn is_within(deeds: Seq<Deed>, slot: SlotView) -> bool {
    forall|i: int|
        0 <= i < deeds.len() ==> match #[trigger] deeds[i] {
            Deed::RunAsked(now) => now.local_slot() == slot,
            Deed::Look(tick, reading) => tick.local_slot() == slot && reading.1.local_slot()
                == slot,
            _ => true,
        }
}

/// The moment at which the last run of a task began.
pub open spec fn last_start(task: TaskView, deeds: Seq<Deed>) -> Option<Moment>
    decreases deeds.len(),
{
    if deeds.len() == 0 {
        task.last_run
    } else if begins(after_deeds(task, deeds.drop_last()), deeds.last()) {
        match deeds.last() {
            Deed::RunAsked(now) => Some(now),
            Deed::Look(_, reading) => Some(reading.1),
            _ => None,
        }
    } else {
        last_start(task, deeds.drop_last())
    }
}

/// A task tells when its last run began, whatever is done to it, and never forgets it.
pub proof fn a_run_is_remembered(task: TaskView, deeds: Seq<Deed>)
    ensures
        after_deeds(task, deeds).last_run == last_start(task, deeds),
        task.last_run is Some || runs_begun(task, deeds) > 0 <==> after_deeds(
            task,
            deeds,
        ).last_run is Some,
    decreases deeds.len(),
{
    if deeds.len() > 0 {
        a_run_is_remembered(task, deeds.drop_last());
    }
}

/// Whatever is done to a task, the clock begins at most one run of it while it is to run once,
/// and none where it has run before, be it by the clock or at a request.
pub proof fn a_task_of_one_run_runs_once(task: TaskView, deeds: Seq<Deed>)
    ensures
        single_runs(task, deeds) <= 1,
        task.last_run is Some ==> single_runs(task, deeds) == 0,
        after_deeds(task, deeds).last_run is None ==> single_runs(task, deeds) == 0,
    decreases deeds.len(),
{
    if deeds.len() > 0 {
        a_task_of_one_run_runs_once(task, deeds.drop_last());
        a_run_is_remembered(task, deeds.drop_last());
    }
}

/// Whatever is done to a task, the clock begins at most one run of it by clock and calendar as
/// long as they show the same, and none where a run has begun while they showed it.
pub proof fn a_minute_of_the_calendar_has_one_run(
    task: TaskView,
    deeds: Seq<Deed>,
    slot: SlotView,
)
    requires
        is_within(deeds, slot),
    ensures
        calendar_runs(task, deeds) <= 1,
        (task.last_run matches Some(last) && last.local_slot() == slot) ==> calendar_runs(
            task,
            deeds,
        ) == 0,
        calendar_runs(task, deeds) > 0 || (task.last_run matches Some(last) && last.local_slot()
            == slot) ==> (after_deeds(task, deeds).last_run matches Some(last)
            && last.local_slot() == slot),
    decreases deeds.len(),
{
    if deeds.len() > 0 {
        assert(deeds.last() == deeds[deeds.len() - 1]);
        a_minute_of_the_calendar_has_one_run(task, deeds.drop_last(), slot);
    }
}

/// Whatever has been done to a task with an interval, the clock begins a run of it just where the
/// task is enabled, has no run under way, and has either never run or was last begun the interval
/// ago or more.
pub proof fn an_interval_lies_between_runs(
    task: TaskView,
    deeds: Seq<Deed>,
    secs: u64,
    tick: Moment,
    reading: (Moment, Moment),
)
    requires
        after_deeds(task, deeds).schedule == ScheduleType::Interval(secs),
    ensures
        begins(after_deeds(task, deeds), Deed::Look(tick, reading)) <==> {
            &&& after_deeds(task, deeds).enabled
            &&& after_deeds(task, deeds).status != TaskStatus::Running
            &&& last_start(task, deeds) matches Some(last) ==> reading.0.nanos_after(last) >= secs
                * 1_000_000_000
        },
{
    a_run_is_remembered(task, deeds);
}

/// Whatever is done to a task that has no run under way, at most one more run of it begins than
/// ends. Where no run ends but one that is under way, there is never more than one under way, and
/// there is one just where the task says that it is running.
pub proof fn a_task_has_one_run_at_a_time(task: TaskView, deeds: Seq<Deed>)
    requires
        task.status != TaskStatus::Running,
    ensures
        runs_begun(task, deeds) <= runs_ended(deeds) + 1,
        after_deeds(task, deeds).status != TaskStatus::Running ==> runs_begun(task, deeds)
            <= runs_ended(deeds),
        is_orderly(task, deeds) ==> 0 <= runs_under_way(task, deeds) <= 1,
        is_orderly(task, deeds) ==> (runs_under_way(task, deeds) == 1 <==> after_deeds(
            task,
            deeds,
        ).status == TaskStatus::Running),
    decreases deeds.len(),
{
    if deeds.len() > 0 {
        a_task_has_one_run_at_a_time(task, deeds.drop_last());
    }
}

/// While a run of a task is under way no other begins, whatever is done, until it ends.
pub proof fn no_run_begins_within_a_run(task: TaskView, deeds: Seq<Deed>)
    requires
        task.status == TaskStatus::Running,
        runs_ended(deeds) == 0,
    ensures
        runs_begun(task, deeds) == 0,
        after_deeds(task, deeds).status == TaskStatus::Running,
    decreases deeds.len(),
{
    if deeds.len() > 0 {
        no_run_begins_within_a_run(task, deeds.drop_last());
    }
}

/// A request to change a task is a deed.
pub proof fn an_update_is_a_deed(
    before: Map<Seq<char>, TaskView>,
    after: Map<Seq<char>, TaskView>,
    id: Seq<char>,
    req: UpdateTaskRequest,
    r: Outcome,
)
    requires
        api::change_done(before, after, id, task::updated(before[id], req), r),
        before.contains_key(id),
    ensures
        after == before.insert(id, after_deed(before[id], Deed::Update(req))),
{
}

/// A request to switch a task on or off is a deed.
pub proof fn a_switch_is_a_deed(
    before: Map<Seq<char>, TaskView>,
    after: Map<Seq<char>, TaskView>,
    id: Seq<char>,
    enabled: bool,
    r: Outcome,
)
    requires
        api::change_done(before, after, id, (TaskView { enabled, ..before[id] }), r),
        before.contains_key(id),
    ensures
        after == before.insert(id, after_deed(before[id], Deed::Switch(enabled))),
{
}

/// A line that a run has put out, and the end of a run, are deeds.
pub proof fn what_a_run_tells_is_a_deed(
    tasks: Map<Seq<char>, TaskView>,
    id: Seq<char>,
    line: Seq<char>,
    output: Seq<char>,
)
    requires
        tasks.contains_key(id),
    ensures
        api::changed_if_present(tasks, id, task::with_line(tasks[id], line)) == tasks.insert(
            id,
            after_deed(tasks[id], Deed::Line(line)),
        ),
        api::changed_if_present(tasks, id, task::finished(tasks[id], output)) == tasks.insert(
            id,
            after_deed(tasks[id], Deed::End(output)),
        ),
{
}

/// A request to run a task is a deed, and a run is to be made just where the deed begins one.
pub proof fn a_request_to_run_is_a_deed(
    before: Map<Seq<char>, TaskView>,
    after: Map<Seq<char>, TaskView>,
    id: Seq<char>,
    now: Moment,
    r: RunOutcome,
)
    requires
        api::run_done(before, after, id, now, r),
        before.contains_key(id),
    ensures
        after == before.insert(id, after_deed(before[id], Deed::RunAsked(now))),
        r.job is Some <==> begins(before[id], Deed::RunAsked(now)),
{
    assert(before.insert(id, before[id]) =~= before);
}

/// One look of the clock is a deed to each task, and a run of it is to be made just where the
/// deed begins one.
pub proof fn a_look_is_a_deed_to_each_task(
    before: Map<Seq<char>, TaskView>,
    after: Map<Seq<char>, TaskView>,
    jobs: Seq<(Seq<char>, TaskView)>,
    tick: Moment,
    walk: Seq<(Seq<char>, TaskView)>,
    readings: Seq<(Moment, Moment)>,
)
    requires
        scheduler::pass_done(before, after, jobs, tick, walk, readings),
    ensures
        forall|w: int|
            0 <= w < walk.len() ==> {
                let (key, given) = #[trigger] walk[w];
                &&& before.contains_pair(key, given)
                &&& after[key] == after_deed(given, Deed::Look(tick, readings[w]))
                &&& laws::is_among(jobs, key) <==> begins(given, Deed::Look(tick, readings[w]))
            },
{
    laws::the_clock_begins_each_run_once(before, after, jobs, tick, walk, readings);
}

} // verus!
