//! What is done and answered when tasks are made, looked at, changed, removed and run.

use crate::moment::Moment;
use crate::store::TaskStore;
use crate::task::{
    CreateTaskRequest, EnableTaskRequest, ScriptTask, TaskStatus, UpdateTaskRequest, SCRIPTS_DIR,
};
use vstd::prelude::*;
use vstd::string::*;

verus! {

use crate::store;
use crate::task;
use crate::task::TaskView;

broadcast use vstd::string::group_string_axioms;

/// How a request has fared.
#[derive(Clone, Copy, Debug, PartialEq, Eq, Structural)]
pub enum ReplyStatus {
    Okay,
    Created,
    Accepted,
    BadRequest,
    NotFound,
    Conflict,
    InternalServerError,
}

impl ReplyStatus {
    /// The code by which HTTP knows the status.
    pub open spec fn spec_code(self) -> u16 {
        match self {
            ReplyStatus::Okay => 200,
            ReplyStatus::Created => 201,
            ReplyStatus::Accepted => 202,
            ReplyStatus::BadRequest => 400,
            ReplyStatus::NotFound => 404,
            ReplyStatus::Conflict => 409,
            ReplyStatus::InternalServerError => 500,
        }
    }

    /// The code by which HTTP knows the status.
    pub fn code(&self) -> (r: u16)
        ensures
            r == self.spec_code(),
    {
        match self {
            ReplyStatus::Okay => 200,
            ReplyStatus::Created => 201,
            ReplyStatus::Accepted => 202,
            ReplyStatus::BadRequest => 400,
            ReplyStatus::NotFound => 404,
            ReplyStatus::Conflict => 409,
            ReplyStatus::InternalServerError => 500,
        }
    }
}

/// What a reply holds.
#[derive(Debug)]
pub enum ReplyBody {
    /// Plain text.
    Text(String),
    /// The identifier of a task.
    Id(String),
    /// A task.
    Task(ScriptTask),
    /// All tasks.
    Tasks(Vec<ScriptTask>),
}

/// What a reply holds, as a value of mathematics.
pub ghost enum BodyView {
    Text(Seq<char>),
    Id(Seq<char>),
    Task(TaskView),
    Tasks(Seq<TaskView>),
}

/// The answer to a request.
#[derive(Debug)]
pub struct Reply {
    pub status: ReplyStatus,
    pub body: ReplyBody,
}

/// The answer to a request, as a value of mathematics.
pub ghost struct ReplyView {
    pub status: ReplyStatus,
    pub body: BodyView,
}

impl View for ReplyBody {
    type V = BodyView;

    open spec fn view(&self) -> BodyView {
        match self {
            ReplyBody::Text(text) => BodyView::Text(text@),
            ReplyBody::Id(id) => BodyView::Id(id@),
            ReplyBody::Task(task) => BodyView::Task(task@),
            ReplyBody::Tasks(tasks) => BodyView::Tasks(
                tasks@.map_values(|task: ScriptTask| task@),
            ),
        }
    }
}

impl View for Reply {
    type V = ReplyView;

    open spec fn view(&self) -> ReplyView {
        ReplyView { status: self.status, body: self.body@ }
    }
}

/// A reply of plain text.
pub open spec fn plain(status: ReplyStatus, text: Seq<char>) -> ReplyView {
    ReplyView { status, body: BodyView::Text(text) }
}

/// The reply that a task was found, with the task.
pub open spec fn found(task: TaskView) -> ReplyView {
    ReplyView { status: ReplyStatus::Okay, body: BodyView::Task(task) }
}

/// The reply that there is no such task.
pub open spec fn not_found() -> ReplyView {
    plain(ReplyStatus::NotFound, "Task not found"@)
}

/// The answer to a request that may have changed the tasks.
#[derive(Debug)]
pub struct Outcome {
    pub reply: Reply,
    /// Whether the tasks are to be written to their file.
    pub save: bool,
}

/// A run that is to be made.
#[derive(Debug)]
pub struct Job {
    /// The key of the task.
    pub key: String,
    /// The task as the run begins.
    pub task: ScriptTask,
}

/// The answer to a request to run a task, with the run to be made.
#[derive(Debug)]
pub struct RunOutcome {
    pub reply: Reply,
    pub job: Option<Job>,
}

/// The answer to a request to remove a task.
#[derive(Debug)]
pub struct Removal {
    pub outcome: Outcome,
    /// The directory that is to go, whether or not there was such a task.
    pub script_dir: String,
}

impl Reply {
    /// A reply of plain text.
    pub fn text(status: ReplyStatus, text: &str) -> (r: Reply)
        ensures
            r@ == plain(status, text@),
    {
        Reply { status, body: ReplyBody::Text(text.to_owned()) }
    }

    /// The reply that an error has come up, told behind `what`.
    pub fn error(what: &str, error: &str) -> (r: Reply)
        ensures
            r@ == plain(ReplyStatus::InternalServerError, what@ + error@),
    {
        let mut text = what.to_owned();
        text.append(error);
        Reply { status: ReplyStatus::InternalServerError, body: ReplyBody::Text(text) }
    }

    /// The reply that there is no such task.
    pub fn task_not_found() -> (r: Reply)
        ensures
            r@ == not_found(),
    {
        Reply::text(ReplyStatus::NotFound, "Task not found")
    }

    /// The reply that the tasks cannot be had, since their holder has come to grief.
    pub fn lock_poisoned() -> (r: Reply)
        ensures
            r@ == plain(ReplyStatus::InternalServerError, "Lock poisoned"@),
    {
        Reply::text(ReplyStatus::InternalServerError, "Lock poisoned")
    }
}

/// The directory of a task's files.
pub open spec fn dir_of(id: Seq<char>) -> Seq<char> {
    SCRIPTS_DIR@ + "/"@ + id
}

/// The directory of a task's files.
pub fn script_dir(id: &str) -> (r: String)
    ensures
        r@ == dir_of(id@),
{
    let mut r = SCRIPTS_DIR.to_owned();
    r.append("/");
    r.append(id);
    r
}

/// Whether `c` is a hexadecimal digit, the letters in lower case.
pub open spec fn is_hex_digit(c: char) -> bool {
    '0' <= c <= '9' || 'a' <= c <= 'f'
}

/// Whether `id` is a random identifier in the usual form: groups of 8, 4, 4, 4 and 12
/// hexadecimal digits, of which the third begins with the version 4 and the fourth with one of
/// the digits 8, 9, a and b.
pub open spec fn is_random_id(id: Seq<char>) -> bool {
    &&& id.len() == 36
    &&& forall|i: int|
        0 <= i < 36 ==> if i == 8 || i == 13 || i == 18 || i == 23 {
            #[trigger] id[i] == '-'
        } else {
            is_hex_digit(id[i])
        }
    &&& id[14] == '4'
    &&& id[19] == '8' || id[19] == '9' || id[19] == 'a' || id[19] == 'b'
}

/// `Uuid::new_v4` of `uuid` and its `to_string`: a random identifier in the usual form.
#[verifier::external_body]
fn new_uuid() -> (id: String)
    ensures
        is_random_id(id@),
{
    uuid::Uuid::new_v4().to_string()
}

/// What is answered when a task has been made.
pub open spec fn creation(id: Seq<char>) -> ReplyView {
    ReplyView { status: ReplyStatus::Created, body: BodyView::Id(id) }
}

/// Makes the task that `req` asks for, under a random identifier.
pub fn create_task(tasks: &mut TaskStore, req: CreateTaskRequest) -> (r: Outcome)
    requires
        old(tasks).wf(),
    ensures
        final(tasks).wf(),
        r.save,
        r.reply@.body matches BodyView::Id(id) && is_random_id(id) && r.reply@ == creation(id)
            && final(tasks)@ == old(tasks)@.insert(id, task::created(id, req)),
{
    let id = new_uuid();
    create_task_as(tasks, id, req)
}

/// Makes the task that `req` asks for, under the identifier `id`.
pub fn create_task_as(tasks: &mut TaskStore, id: String, req: CreateTaskRequest) -> (r: Outcome)
    requires
        old(tasks).wf(),
    ensures
        final(tasks).wf(),
        final(tasks)@ == old(tasks)@.insert(id@, task::created(id@, req)),
        r.reply@ == creation(id@),
        r.save,
{
    let new_task = ScriptTask::create(id.clone(), req);
    tasks.insert(id.clone(), new_task);
    Outcome { reply: Reply { status: ReplyStatus::Created, body: ReplyBody::Id(id) }, save: true }
}

/// The second parts of pairs.
pub open spec fn second_parts(listed: Seq<(Seq<char>, TaskView)>) -> Seq<TaskView> {
    listed.map_values(|pair: (Seq<char>, TaskView)| pair.1)
}

/// Whether `listed` holds each of `tasks` once, in some order.
pub open spec fn lists_tasks(listed: Seq<TaskView>, tasks: Map<Seq<char>, TaskView>) -> bool {
    exists|walk: Seq<(Seq<char>, TaskView)>| #[trigger]
        store::is_walk(walk, tasks) && listed == second_parts(walk)
}

/// All tasks.
pub fn get_tasks(tasks: &TaskStore) -> (r: Reply)
    requires
        tasks.wf(),
    ensures
        r@.status == ReplyStatus::Okay,
        r@.body matches BodyView::Tasks(listed) && lists_tasks(listed, tasks@),
{
    let pairs = tasks.pairs();
    let mut listed: Vec<ScriptTask> = Vec::new();
    let mut i: usize = 0;
    while i < pairs.len()
        invariant
            i <= pairs@.len(),
            listed@.len() == i,
            forall|j: int| 0 <= j < i ==> (#[trigger] listed@[j])@ == pairs@[j].1@,
        decreases pairs@.len() - i,
    {
        listed.push(pairs[i].1.clone());
        i = i + 1;
    }
    proof {
        let walk = store::pairs_view(pairs@);
        assert(listed@.map_values(|task: ScriptTask| task@) =~= second_parts(walk));
        assert(lists_tasks(second_parts(walk), tasks@));
    }
    Reply { status: ReplyStatus::Okay, body: ReplyBody::Tasks(listed) }
}

/// What is answered when the task `id` is asked for.
pub open spec fn lookup(tasks: Map<Seq<char>, TaskView>, id: Seq<char>) -> ReplyView {
    if tasks.contains_key(id) {
        found(tasks[id])
    } else {
        not_found()
    }
}

/// The task `id`.
pub fn get_task(tasks: &TaskStore, id: &String) -> (r: Reply)
    requires
        tasks.wf(),
    ensures
        r@ == lookup(tasks@, id@),
{
    match tasks.get(id) {
        Some(task) => Reply { status: ReplyStatus::Okay, body: ReplyBody::Task(task.clone()) },
        None => Reply::task_not_found(),
    }
}

/// What is answered, and what becomes of the tasks, when the task `id` is to be `changed`: the
/// tasks are saved just where there is such a task.
pub open spec fn change_done(
    before: Map<Seq<char>, TaskView>,
    after: Map<Seq<char>, TaskView>,
    id: Seq<char>,
    changed: TaskView,
    r: Outcome,
) -> bool {
    if before.contains_key(id) {
        &&& after == before.insert(id, changed)
        &&& r.reply@ == found(changed)
        &&& r.save
    } else {
        &&& after == before
        &&& r.reply@ == not_found()
        &&& !r.save
    }
}

/// Makes the changes of the task `id` that `req` asks for.
pub fn update_task(tasks: &mut TaskStore, id: &String, req: UpdateTaskRequest) -> (r: Outcome)
    requires
        old(tasks).wf(),
    ensures
        final(tasks).wf(),
        change_done(old(tasks)@, final(tasks)@, id@, task::updated(old(tasks)@[id@], req), r),
{
    match tasks.get_mut(id) {
        Some(task) => {
            task.update(req);
            let copy = task.clone();
            Outcome {
                reply: Reply { status: ReplyStatus::Okay, body: ReplyBody::Task(copy) },
                save: true,
            }
        },
        None => Outcome { reply: Reply::task_not_found(), save: false },
    }
}

/// Sets whether the task `id` is run by the clock.
pub fn set_task_enabled(tasks: &mut TaskStore, id: &String, req: EnableTaskRequest) -> (r: Outcome)
    requires
        old(tasks).wf(),
    ensures
        final(tasks).wf(),
        change_done(
            old(tasks)@,
            final(tasks)@,
            id@,
            (TaskView { enabled: req.enabled, ..old(tasks)@[id@] }),
            r,
        ),
{
    match tasks.get_mut(id) {
        Some(task) => {
            task.enabled = req.enabled;
            let copy = task.clone();
            Outcome {
                reply: Reply { status: ReplyStatus::Okay, body: ReplyBody::Task(copy) },
                save: true,
            }
        },
        None => Outcome { reply: Reply::task_not_found(), save: false },
    }
}

/// Removes the task `id`. Its directory is to go even where there is no such task.
pub fn delete_task(tasks: &mut TaskStore, id: &String) -> (r: Removal)
    requires
        old(tasks).wf(),
    ensures
        final(tasks).wf(),
        final(tasks)@ == old(tasks)@.remove(id@),
        r.script_dir@ == dir_of(id@),
        r.outcome.save == old(tasks)@.contains_key(id@),
        r.outcome.reply@ == if old(tasks)@.contains_key(id@) {
            plain(ReplyStatus::Okay, "Task deleted"@)
        } else {
            not_found()
        },
{
    let script_dir = script_dir(id.as_str());
    let outcome = if tasks.remove(id) {
        Outcome { reply: Reply::text(ReplyStatus::Okay, "Task deleted"), save: true }
    } else {
        Outcome { reply: Reply::task_not_found(), save: false }
    };
    Removal { outcome, script_dir }
}

/// What is answered, and what becomes of the tasks, when the task `id` is to be run at `now`.
pub open spec fn run_done(
    before: Map<Seq<char>, TaskView>,
    after: Map<Seq<char>, TaskView>,
    id: Seq<char>,
    now: Moment,
    r: RunOutcome,
) -> bool {
    if !before.contains_key(id) {
        &&& after == before
        &&& r.reply@ == not_found()
        &&& r.job is None
    } else if before[id].status == TaskStatus::Running {
        &&& after == before
        &&& r.reply@ == plain(ReplyStatus::Conflict, "Task is already running"@)
        &&& r.job is None
    } else {
        &&& after == before.insert(id, task::begun(before[id], now))
        &&& r.reply@ == plain(ReplyStatus::Accepted, "Task is running"@)
        &&& r.job matches Some(job) && job.key@ == id && job.task@ == task::begun(before[id], now)
    }
}

/// Begins a run of the task `id` at what the clock shows, unless one is under way.
pub fn run_task(tasks: &mut TaskStore, id: &String) -> (r: RunOutcome)
    requires
        old(tasks).wf(),
    ensures
        final(tasks).wf(),
        exists|now: Moment|
            now.is_reading() && #[trigger] run_done(old(tasks)@, final(tasks)@, id@, now, r),
{
    run_task_at(tasks, id, Moment::now())
}

/// Begins a run of the task `id` at `now`, unless one is under way.
pub fn run_task_at(tasks: &mut TaskStore, id: &String, now: Moment) -> (r: RunOutcome)
    requires
        old(tasks).wf(),
    ensures
        final(tasks).wf(),
        run_done(old(tasks)@, final(tasks)@, id@, now, r),
{
    proof {
        if tasks@.contains_key(id@) {
            assert(tasks@.insert(id@, tasks@[id@]) =~= tasks@);
        }
    }
    match tasks.get_mut(id) {
        Some(task) => {
            if task.status == TaskStatus::Running {
                RunOutcome {
                    reply: Reply::text(ReplyStatus::Conflict, "Task is already running"),
                    job: None,
                }
            } else {
                task.begin(now);
                let copy = task.clone();
                RunOutcome {
                    reply: Reply::text(ReplyStatus::Accepted, "Task is running"),
                    job: Some(Job { key: id.clone(), task: copy }),
                }
            }
        },
        None => RunOutcome { reply: Reply::task_not_found(), job: None },
    }
}

/// The tasks after the task `id`, where there is one, has become `changed`.
pub open spec fn changed_if_present(
    tasks: Map<Seq<char>, TaskView>,
    id: Seq<char>,
    changed: TaskView,
) -> Map<Seq<char>, TaskView> {
    if tasks.contains_key(id) {
        tasks.insert(id, changed)
    } else {
        tasks
    }
}

/// Records that a run of the task `id` has ended and put out `output`. Where the task is still
/// there, it is returned as it stands then, and the tasks are to be saved.
pub fn finish_task(tasks: &mut TaskStore, id: &String, output: String) -> (r: Option<ScriptTask>)
    requires
        old(tasks).wf(),
    ensures
        final(tasks).wf(),
        final(tasks)@ == changed_if_present(
            old(tasks)@,
            id@,
            task::finished(old(tasks)@[id@], output@),
        ),
        r is Some <==> old(tasks)@.contains_key(id@),
        r matches Some(task) ==> task@ == final(tasks)@[id@],
{
    match tasks.get_mut(id) {
        Some(task) => {
            task.finish(output);
            Some(task.clone())
        },
        None => None,
    }
}

/// Adds a line to what the task `id` has put out so far, where there is such a task.
pub fn update_task_output(tasks: &mut TaskStore, id: &String, line: &str)
    requires
        old(tasks).wf(),
    ensures
        final(tasks).wf(),
        final(tasks)@ == changed_if_present(
            old(tasks)@,
            id@,
            task::with_line(old(tasks)@[id@], line@),
        ),
{
    if let Some(task) = tasks.get_mut(id) {
        task.add_line(line);
    }
}

} // verus!
