//! Scripts with their schedules, and the requests that make and change them.

use crate::moment::Moment;
use vstd::prelude::*;

verus! {

/// The file in which the tasks are kept.
pub const TASKS_FILE: &'static str = "data/tasks.json";

/// The directory that holds a directory for each task.
pub const SCRIPTS_DIR: &'static str = "data/scripts";

/// When a task is to run.
#[derive(Clone, Copy, Debug, PartialEq, Eq, Structural)]
pub enum ScheduleType {
    /// Once, as soon as possible.
    Once,
    /// Whenever this many seconds have gone by since the last run.
    Interval(u64),
    /// In each minute that the local clock and calendar show so; `None` stands for any.
    Cron {
        /// From 0 to 59.
        minute: Option<u32>,
        /// From 0 to 23.
        hour: Option<u32>,
        /// From 1 to 31.
        day: Option<u32>,
        /// From 1 to 12.
        month: Option<u32>,
        /// From 0, for Sunday, to 6.
        weekday: Option<u32>,
    },
}

/// What has become of a task.
#[derive(Clone, Copy, Debug, PartialEq, Eq, Structural)]
pub enum TaskStatus {
    Pending,
    Running,
    Completed,
    Failed,
}

/// A script and what is known of its runs.
#[derive(Debug)]
pub struct ScriptTask {
    pub id: String,
    pub name: String,
    pub description: String,
    pub script_content: String,
    pub schedule: ScheduleType,
    pub last_run: Option<Moment>,
    pub status: TaskStatus,
    pub output: Option<String>,
    pub enabled: bool,
}

/// A task as a value of mathematics.
pub ghost struct TaskView {
    pub id: Seq<char>,
    pub name: Seq<char>,
    pub description: Seq<char>,
    pub script_content: Seq<char>,
    pub schedule: ScheduleType,
    pub last_run: Option<Moment>,
    pub status: TaskStatus,
    pub output: Option<Seq<char>>,
    pub enabled: bool,
}

/// The text of an optional string.
pub open spec fn optional_text(s: Option<String>) -> Option<Seq<char>> {
    match s {
        Some(text) => Some(text@),
        None => None,
    }
}

impl View for ScriptTask {
    type V = TaskView;

    open spec fn view(&self) -> TaskView {
        TaskView {
            id: self.id@,
            name: self.name@,
            description: self.description@,
            script_content: self.script_content@,
            schedule: self.schedule,
            last_run: self.last_run,
            status: self.status,
            output: optional_text(self.output),
            enabled: self.enabled,
        }
    }
}

impl Clone for ScriptTask {
    fn clone(&self) -> (r: Self)
        ensures
            r@ == self@,
    {
        ScriptTask {
            id: self.id.clone(),
            name: self.name.clone(),
            description: self.description.clone(),
            script_content: self.script_content.clone(),
            schedule: self.schedule,
            last_run: self.last_run,
            status: self.status,
            output: match &self.output {
                Some(text) => Some(text.clone()),
                None => None,
            },
            enabled: self.enabled,
        }
    }
}

/// What is asked for when a task is made.
#[derive(Debug)]
pub struct CreateTaskRequest {
    pub name: String,
    pub description: String,
    pub script_content: String,
    pub schedule: ScheduleType,
}

/// What is to change of a task; `None` leaves a part as it is.
#[derive(Debug)]
pub struct UpdateTaskRequest {
    pub name: Option<String>,
    pub description: Option<String>,
    pub script_content: Option<String>,
    pub schedule: Option<ScheduleType>,
}

/// Whether a task is to be run by the clock.
#[derive(Clone, Copy, Debug)]
pub struct EnableTaskRequest {
    pub enabled: bool,
}

/// The task that a request makes: it is enabled and has not run.
pub open spec fn created(id: Seq<char>, req: CreateTaskRequest) -> TaskView {
    TaskView {
        id,
        name: req.name@,
        description: req.description@,
        script_content: req.script_content@,
        schedule: req.schedule,
        last_run: None,
        status: TaskStatus::Pending,
        output: None,
        enabled: true,
    }
}

/// The task after the changes that a request asks for.
pub open spec fn updated(task: TaskView, req: UpdateTaskRequest) -> TaskView {
    TaskView {
        name: match req.name {
            Some(name) => name@,
            None => task.name,
        },
        description: match req.description {
            Some(description) => description@,
            None => task.description,
        },
        script_content: match req.script_content {
            Some(content) => content@,
            None => task.script_content,
        },
        schedule: match req.schedule {
            Some(schedule) => schedule,
            None => task.schedule,
        },
        ..task
    }
}

/// The task with a run under way that began at `start`.
pub open spec fn begun(task: TaskView, start: Moment) -> TaskView {
    TaskView { status: TaskStatus::Running, last_run: Some(start), ..task }
}

/// The task with a run under way that the clock began at `start`: what it put out before is gone.
pub open spec fn begun_afresh(task: TaskView, start: Moment) -> TaskView {
    TaskView { output: None, ..begun(task, start) }
}

/// The task with one more line put out.
pub open spec fn with_line(task: TaskView, line: Seq<char>) -> TaskView {
    TaskView {
        output: Some(
            (match task.output {
                Some(text) => text,
                None => Seq::empty(),
            }) + line.push('\n'),
        ),
        ..task
    }
}

/// What a run that put out `output` has come to: it failed where that holds the word `ERROR`.
pub open spec fn verdict(output: Seq<char>) -> TaskStatus {
    if crate::text::contains_text(output, "ERROR"@) {
        TaskStatus::Failed
    } else {
        TaskStatus::Completed
    }
}

/// The task after a run that put out `output`.
pub open spec fn finished(task: TaskView, output: Seq<char>) -> TaskView {
    TaskView { output: Some(output), status: verdict(output), ..task }
}

/// The task as it is taken up again when the program starts: no run can be under way.
pub open spec fn recovered(task: TaskView) -> TaskView {
    if task.status == TaskStatus::Running {
        TaskView { status: TaskStatus::Pending, ..task }
    } else {
        task
    }
}

impl ScriptTask {
    /// Makes the task that `req` asks for.
    pub fn create(id: String, req: CreateTaskRequest) -> (task: ScriptTask)
        ensures
            task@ == created(id@, req),
    {
        ScriptTask {
            id,
            name: req.name,
            description: req.description,
            script_content: req.script_content,
            schedule: req.schedule,
            last_run: None,
            status: TaskStatus::Pending,
            output: None,
            enabled: true,
        }
    }

    /// Makes the changes that `req` asks for.
    pub fn update(&mut self, req: UpdateTaskRequest)
        ensures
            final(self)@ == updated(old(self)@, req),
    {
        if let Some(name) = req.name {
            self.name = name;
        }
        if let Some(description) = req.description {
            self.description = description;
        }
        if let Some(content) = req.script_content {
            self.script_content = content;
        }
        if let Some(schedule) = req.schedule {
            self.schedule = schedule;
        }
    }

    /// Marks the task as running since `start`.
    pub fn begin(&mut self, start: Moment)
        ensures
            final(self)@ == begun(old(self)@, start),
    {
        self.status = TaskStatus::Running;
        self.last_run = Some(start);
    }

    /// Marks the task as running since `start` and forgets what it put out before.
    pub fn begin_afresh(&mut self, start: Moment)
        ensures
            final(self)@ == begun_afresh(old(self)@, start),
    {
        self.begin(start);
        self.output = None;
    }

    /// Adds a line to what the task has put out.
    pub fn add_line(&mut self, line: &str)
        ensures
            final(self)@ == with_line(old(self)@, line@),
    {
        let mut text = match self.output.take() {
            Some(text) => text,
            None => String::new(),
        };
        text.append(line);
        text.append("\n");
        proof {
            reveal_strlit("\n");
            assert("\n"@ =~= seq!['\n']);
        }
        self.output = Some(text);
        assert(self@.output =~= with_line(old(self)@, line@).output);
    }

    /// Records what a run has put out and what it has come to.
    pub fn finish(&mut self, output: String)
        ensures
            final(self)@ == finished(old(self)@, output@),
    {
        self.status = if crate::text::contains(output.as_str(), "ERROR") {
            TaskStatus::Failed
        } else {
            TaskStatus::Completed
        };
        self.output = Some(output);
    }

    /// Takes the task up again when the program starts.
    pub fn recover(&mut self)
        ensures
            final(self)@ == recovered(old(self)@),
    {
        if self.status == TaskStatus::Running {
            self.status = TaskStatus::Pending;
        }
    }
}

} // verus!
