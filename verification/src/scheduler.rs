//! Which tasks the clock begins.

use crate::api::Job;
use crate::moment::{Moment, Slot};
use crate::store::TaskStore;
use crate::task::{ScheduleType, ScriptTask, TaskStatus};
use vstd::prelude::*;

verus! {

use crate::moment::SlotView;
use crate::store;
use crate::task;
use crate::task::TaskView;

/// Whether a part of a schedule admits `shown`.
pub open spec fn admits(part: Option<u32>, shown: int) -> bool {
    part matches Some(wanted) ==> wanted == shown
}

/// Whether a schedule by clock and calendar admits what they show.
pub open spec fn cron_admits(
    minute: Option<u32>,
    hour: Option<u32>,
    day: Option<u32>,
    month: Option<u32>,
    weekday: Option<u32>,
    slot: SlotView,
) -> bool {
    &&& admits(minute, slot.minute)
    &&& admits(hour, slot.hour)
    &&& admits(day, slot.day)
    &&& admits(month, slot.month)
    &&& admits(weekday, slot.weekday)
}

/// Whether the schedule of a task asks for a run: by clock and calendar it goes by the moment
/// `tick`, and once for what they show; by an interval it goes by the moment `check`.
pub open spec fn is_due(task: TaskView, tick: Moment, check: Moment) -> bool {
    match task.schedule {
        ScheduleType::Once => task.last_run is None,
        ScheduleType::Interval(secs) => task.last_run matches Some(last) ==> check.nanos_after(last)
            >= secs * 1_000_000_000,
        ScheduleType::Cron { minute, hour, day, month, weekday } => {
            &&& cron_admits(minute, hour, day, month, weekday, tick.local_slot())
            &&& task.last_run matches Some(last) ==> last.local_slot() != tick.local_slot()
        },
    }
}

/// Whether the clock begins a run of a task.
pub open spec fn is_begun(task: TaskView, tick: Moment, check: Moment) -> bool {
    task.enabled && is_due(task, tick, check) && task.status != TaskStatus::Running
}

/// What becomes of a task that the clock comes to: `reading.0` is read to measure intervals
/// and `reading.1` when a run begins.
pub open spec fn considered(task: TaskView, tick: Moment, reading: (Moment, Moment)) -> TaskView {
    if is_begun(task, tick, reading.0) {
        task::begun_afresh(task, reading.1)
    } else {
        task
    }
}

/// Whether a part of a schedule admits `shown`.
fn part_admits(part: Option<u32>, shown: u32) -> (r: bool)
    ensures
        r == admits(part, shown as int),
{
    match part {
        Some(wanted) => wanted == shown,
        None => true,
    }
}

/// Whether the schedule of a task asks for a run.
pub fn should_run(task: &ScriptTask, tick: &Moment, check: &Moment) -> (r: bool)
    ensures
        r == is_due(task@, *tick, *check),
{
    match task.schedule {
        ScheduleType::Once => task.last_run.is_none(),
        ScheduleType::Interval(secs) => match &task.last_run {
            Some(last) => check.is_later_by(last, secs),
            None => true,
        },
        ScheduleType::Cron { minute, hour, day, month, weekday } => {
            let shown = tick.slot();
            let scheduled_time = part_admits(minute, shown.minute) && part_admits(hour, shown.hour)
                && part_admits(day, shown.day) && part_admits(month, shown.month) && part_admits(
                weekday,
                shown.weekday,
            );
            let new_period = match &task.last_run {
                Some(last) => last.slot() != shown,
                None => true,
            };
            scheduled_time && new_period
        },
    }
}

/// Begins a run of a task where the clock asks for one, and tells whether it does.
pub fn consider(task: &mut ScriptTask, tick: &Moment, check: &Moment, start: &Moment) -> (r: bool)
    ensures
        r == is_begun(old(task)@, *tick, *check),
        final(task)@ == considered(old(task)@, *tick, (*check, *start)),
{
    if task.enabled && should_run(task, tick, check) && task.status != TaskStatus::Running {
        task.begin_afresh(*start);
        true
    } else {
        false
    }
}

/// The runs that begin when the clock comes to the tasks of `walk` one by one, each with the
/// task as it stands then.
pub open spec fn jobs_begun(
    walk: Seq<(Seq<char>, TaskView)>,
    tick: Moment,
    readings: Seq<(Moment, Moment)>,
) -> Seq<(Seq<char>, TaskView)>
    decreases walk.len(),
{
    if walk.len() == 0 {
        Seq::empty()
    } else {
        let before = jobs_begun(walk.drop_last(), tick, readings.drop_last());
        let (key, task) = walk.last();
        if is_begun(task, tick, readings.last().0) {
            before.push((key, considered(task, tick, readings.last())))
        } else {
            before
        }
    }
}

/// What becomes of the tasks `before`, and which runs begin, when the clock comes to them in the
/// order of `walk`, reading `readings` on the way.
pub open spec fn pass_done(
    before: Map<Seq<char>, TaskView>,
    after: Map<Seq<char>, TaskView>,
    jobs: Seq<(Seq<char>, TaskView)>,
    tick: Moment,
    walk: Seq<(Seq<char>, TaskView)>,
    readings: Seq<(Moment, Moment)>,
) -> bool {
    &&& store::is_walk(walk, before)
    &&& readings.len() == walk.len()
    &&& after.dom() == before.dom()
    &&& forall|i: int|
        0 <= i < walk.len() ==> after[(#[trigger] walk[i]).0] == considered(
            walk[i].1,
            tick,
            readings[i],
        )
    &&& jobs == jobs_begun(walk, tick, readings)
}

/// Runs to be made as values of mathematics.
pub open spec fn jobs_view(jobs: Seq<Job>) -> Seq<(Seq<char>, TaskView)> {
    jobs.map_values(|job: Job| (job.key@, job.task@))
}

/// Whether a clock can show each of `readings`.
pub open spec fn are_readings(readings: Seq<(Moment, Moment)>) -> bool {
    forall|i: int|
        0 <= i < readings.len() ==> (#[trigger] readings[i]).0.is_reading()
            && readings[i].1.is_reading()
}

/// Comes to each task once, begins the runs that the clock asks for, and returns them. The clock
/// is read twice for each task.
pub fn scheduler_pass(tasks: &mut TaskStore, tick: &Moment) -> (jobs: Vec<Job>)
    requires
        old(tasks).wf(),
    ensures
        final(tasks).wf(),
        exists|walk: Seq<(Seq<char>, TaskView)>, readings: Seq<(Moment, Moment)>|
            are_readings(readings) && #[trigger] pass_done(
                old(tasks)@,
                final(tasks)@,
                jobs_view(jobs@),
                *tick,
                walk,
                readings,
            ),
{
    let count = tasks.len();
    let mut readings: Vec<(Moment, Moment)> = Vec::new();
    while readings.len() < count
        invariant
            readings@.len() <= count,
            are_readings(readings@),
        decreases count - readings@.len(),
    {
        let check = Moment::now();
        let start = Moment::now();
        readings.push((check, start));
    }
    scheduler_pass_at(tasks, tick, &readings)
}

/// Comes to each task once, begins the runs that the clock asks for, and returns them. For each
/// task in turn the clock shows one of `readings`.
pub fn scheduler_pass_at(
    tasks: &mut TaskStore,
    tick: &Moment,
    readings: &Vec<(Moment, Moment)>,
) -> (jobs: Vec<Job>)
    requires
        old(tasks).wf(),
        readings@.len() == old(tasks)@.len(),
    ensures
        final(tasks).wf(),
        exists|walk: Seq<(Seq<char>, TaskView)>| #[trigger]
            pass_done(
                old(tasks)@,
                final(tasks)@,
                jobs_view(jobs@),
                *tick,
                walk,
                readings@,
            ),
{
    let mut jobs: Vec<Job> = Vec::new();
    let mut i: usize = 0;
    let ghost before = tasks@;
    let ghost keys = tasks.keys();
    let ghost walk = Seq::new(keys.len(), |j: int| (keys[j], before[keys[j]]));
    proof {
        tasks.lemma_keys();
        assert(jobs_view(jobs@) =~= jobs_begun(walk.take(0), *tick, readings@.take(0)));
        assert forall|key: Seq<char>| #[trigger] before.contains_key(key) implies exists|j: int|
            0 <= j < walk.len() && (#[trigger] walk[j]).0 == key by {
            let j = choose|j: int| 0 <= j < keys.len() && #[trigger] keys[j] == key;
            assert(walk[j].0 == key);
        }
        assert(store::is_walk(walk, before));
    }
    while i < readings.len()
        invariant
            tasks.wf(),
            tasks.keys() == keys,
            tasks@.dom() == before.dom(),
            i <= keys.len(),
            readings@.len() == keys.len(),
            walk == Seq::new(keys.len(), |j: int| (keys[j], before[keys[j]])),
            store::is_walk(walk, before),
            forall|j: int|
                0 <= j < i ==> tasks@[(#[trigger] walk[j]).0] == considered(
                    walk[j].1,
                    *tick,
                    readings@[j],
                ),
            forall|j: int| i <= j < walk.len() ==> tasks@[(#[trigger] walk[j]).0] == walk[j].1,
            jobs_view(jobs@) == jobs_begun(walk.take(i as int), *tick, readings@.take(i as int)),
        decreases keys.len() - i,
    {
        let ghost (key, given) = walk[i as int];
        let ghost earlier = tasks@;
        let ghost jobs_earlier = jobs@;
        assert(before.contains_pair(key, given));
        let (check, start) = readings[i];
        let task = tasks.task_at_mut(i);
        let begun = consider(task, tick, &check, &start);
        let copy = task.clone();
        if begun {
            let key = tasks.key_at(i);
            jobs.push(Job { key, task: copy });
        }
        proof {
            let next = walk.take(i + 1);
            let read = readings@.take(i + 1);
            assert(next.drop_last() =~= walk.take(i as int));
            assert(read.drop_last() =~= readings@.take(i as int));
            assert(next.last() == walk[i as int]);
            assert(read.last() == (check, start));
            assert(tasks@.dom() =~= before.dom());
            assert forall|j: int| 0 <= j < walk.len() && j != i implies tasks@[(
            #[trigger] walk[j]).0] == earlier[walk[j].0] by {}
            if begun {
                assert(jobs_view(jobs@) =~= jobs_view(jobs_earlier).push((key, tasks@[key])));
            }
        }
        i = i + 1;
    }
    proof {
        assert(walk.take(walk.len() as int) =~= walk);
        assert(readings@.take(readings@.len() as int) =~= readings@);
        assert(pass_done(before, tasks@, jobs_view(jobs@), *tick, walk, readings@));
    }
    jobs
}

} // verus!
