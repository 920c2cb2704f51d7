//! What the clients that listen are told.

use crate::json::JsonObject;
use crate::moment::Moment;
use crate::task::{ScheduleType, ScriptTask, TaskStatus};
use vstd::prelude::*;

verus! {

use crate::json;
use crate::moment;
use crate::task;

/// The members of the message that a task has put out a line.
pub open spec fn output_members(task_id: Seq<char>, line: Seq<char>) -> Map<Seq<char>, Seq<char>> {
    map![
        "type"@ => json::json_string("output"@),
        "task_id"@ => json::json_string(task_id),
        "line"@ => json::json_string(line)
    ]
}

/// The name of a status.
pub open spec fn status_name(status: TaskStatus) -> Seq<char> {
    match status {
        TaskStatus::Pending => "Pending"@,
        TaskStatus::Running => "Running"@,
        TaskStatus::Completed => "Completed"@,
        TaskStatus::Failed => "Failed"@,
    }
}

/// The members of the part of a message that tells the minutes of a schedule.
pub open spec fn cron_members(
    minute: Option<u32>,
    hour: Option<u32>,
    day: Option<u32>,
    month: Option<u32>,
    weekday: Option<u32>,
) -> Map<Seq<char>, Seq<char>> {
    map![
        "minute"@ => json::number_or_null(minute),
        "hour"@ => json::number_or_null(hour),
        "day"@ => json::number_or_null(day),
        "month"@ => json::number_or_null(month),
        "weekday"@ => json::number_or_null(weekday)
    ]
}

/// The text of a schedule: a name where it has no parts, else an object with one member.
pub open spec fn schedule_text(schedule: ScheduleType) -> Seq<char> {
    match schedule {
        ScheduleType::Once => json::json_string("Once"@),
        ScheduleType::Interval(secs) => json::json_object(
            map!["Interval"@ => json::decimal(secs as nat)],
        ),
        ScheduleType::Cron { minute, hour, day, month, weekday } => json::json_object(
            map!["Cron"@ => json::json_object(cron_members(minute, hour, day, month, weekday))],
        ),
    }
}

/// The text of the moment of a task's last run.
pub open spec fn last_run_text(last_run: Option<Moment>) -> Option<Seq<char>> {
    match last_run {
        Some(at) => Some(moment::rfc3339(at.spec_secs(), at.spec_nanos(), at.spec_offset())),
        None => None,
    }
}

/// The members of the message that tells how a task stands, with the moment of its last run in
/// the words `last_run`.
pub open spec fn status_members(task: task::TaskView, last_run: Option<Seq<char>>) -> Map<
    Seq<char>,
    Seq<char>,
> {
    map![
        "type"@ => json::json_string("status"@),
        "task_id"@ => json::json_string(task.id),
        "status"@ => json::json_string(status_name(task.status)),
        "last_run"@ => json::string_or_null(last_run),
        "schedule"@ => schedule_text(task.schedule),
        "output"@ => json::string_or_null(task.output)
    ]
}

/// Whether the moment of a task's last run, if any, can be written down.
pub open spec fn is_tellable(task: task::TaskView) -> bool {
    task.last_run matches Some(at) ==> at.is_writable()
}

/// Whether the moment of a task's last run, if any, can be written down.
pub fn tellable(task: &ScriptTask) -> (r: bool)
    ensures
        r == is_tellable(task@),
{
    match &task.last_run {
        Some(at) => at.writable(),
        None => true,
    }
}

/// The object of the message that a task has put out a line.
pub fn output_object(task_id: &str, line: &str) -> (object: JsonObject)
    ensures
        object@ == output_members(task_id@, line@),
{
    let mut object = JsonObject::new();
    object.set_string("type", "output");
    object.set_string("task_id", task_id);
    object.set_string("line", line);
    object
}

/// The message that a task has put out a line.
pub fn broadcast_task_output(task_id: &str, line: &str) -> (message: String)
    ensures
        message@ == json::json_object(output_members(task_id@, line@)),
{
    output_object(task_id, line).into_text()
}

/// The name of a status.
fn name_of_status(status: TaskStatus) -> (name: String)
    ensures
        name@ == status_name(status),
{
    match status {
        TaskStatus::Pending => "Pending".to_owned(),
        TaskStatus::Running => "Running".to_owned(),
        TaskStatus::Completed => "Completed".to_owned(),
        TaskStatus::Failed => "Failed".to_owned(),
    }
}

/// Sets a member to a schedule.
fn set_schedule(object: &mut JsonObject, key: &str, schedule: ScheduleType)
    ensures
        final(object)@ == old(object)@.insert(key@, schedule_text(schedule)),
{
    match schedule {
        ScheduleType::Once => object.set_string(key, "Once"),
        ScheduleType::Interval(secs) => {
            let mut inner = JsonObject::new();
            inner.set_number("Interval", secs);
            object.set_object(key, inner);
        },
        ScheduleType::Cron { minute, hour, day, month, weekday } => {
            let mut parts = JsonObject::new();
            parts.set_optional_number("minute", minute);
            parts.set_optional_number("hour", hour);
            parts.set_optional_number("day", day);
            parts.set_optional_number("month", month);
            parts.set_optional_number("weekday", weekday);
            let mut inner = JsonObject::new();
            inner.set_object("Cron", parts);
            object.set_object(key, inner);
        },
    }
}

/// The object of the message that tells how a task stands, with the moment of its last run in
/// the words `last_run`.
pub fn status_object(task: &ScriptTask, last_run: &Option<String>) -> (object: JsonObject)
    ensures
        object@ == status_members(task@, task::optional_text(*last_run)),
{
    let mut object = JsonObject::new();
    object.set_string("type", "status");
    object.set_string("task_id", task.id.as_str());
    object.set_string("status", name_of_status(task.status).as_str());
    object.set_optional_string("last_run", last_run);
    set_schedule(&mut object, "schedule", task.schedule);
    object.set_optional_string("output", &task.output);
    object
}

/// The message that tells how a task stands.
pub fn broadcast_task_status(task: &ScriptTask) -> (message: String)
    requires
        is_tellable(task@),
    ensures
        message@ == json::json_object(status_members(task@, last_run_text(task@.last_run))),
{
    let last_run = match &task.last_run {
        Some(at) => Some(at.to_text()),
        None => None,
    };
    status_object(task, &last_run).into_text()
}

} // verus!
