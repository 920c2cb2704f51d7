use pyscman::api::{
    create_task, create_task_as, delete_task, finish_task, get_task, get_tasks, run_task,
    run_task_at, script_dir, set_task_enabled, update_task, update_task_output, Reply, ReplyBody,
    ReplyStatus,
};
use pyscman::moment::Moment;
use pyscman::startup::{bind_address, restore_tasks};
use pyscman::store::TaskStore;
use pyscman::task::{
    CreateTaskRequest, EnableTaskRequest, ScheduleType, ScriptTask, TaskStatus, UpdateTaskRequest,
};

fn request(name: &str) -> CreateTaskRequest {
    CreateTaskRequest {
        name: name.to_string(),
        description: format!("about {}", name),
        script_content: format!("print('{}')", name),
        schedule: ScheduleType::Interval(60),
    }
}

fn store(ids: &[&str]) -> TaskStore {
    let mut tasks = TaskStore::new();
    for id in ids {
        create_task_as(&mut tasks, id.to_string(), request(id));
    }
    tasks
}

fn text(reply: &Reply) -> (u16, String) {
    match &reply.body {
        ReplyBody::Text(text) => (reply.status.code(), text.clone()),
        other => panic!("{:?}", other),
    }
}

fn task_of(reply: &Reply) -> &ScriptTask {
    assert_eq!(reply.status, ReplyStatus::Okay);
    match &reply.body {
        ReplyBody::Task(task) => task,
        other => panic!("{:?}", other),
    }
}

fn look(tasks: &TaskStore, id: &str) -> ScriptTask {
    task_of(&get_task(tasks, &id.to_string())).clone()
}

fn no_change() -> UpdateTaskRequest {
    UpdateTaskRequest { name: None, description: None, script_content: None, schedule: None }
}

fn at(secs: i64) -> Moment {
    Moment::new(secs, 0, 0).unwrap()
}

#[test]
fn a_created_task_is_pending_and_enabled() {
    let mut tasks = TaskStore::new();
    let outcome = create_task_as(&mut tasks, "one".to_string(), request("first"));
    assert!(outcome.save);
    assert_eq!(outcome.reply.status.code(), 201);
    assert!(matches!(&outcome.reply.body, ReplyBody::Id(id) if id == "one"));
    let task = look(&tasks, "one");
    assert_eq!(task.id, "one");
    assert_eq!(task.name, "first");
    assert_eq!(task.description, "about first");
    assert_eq!(task.script_content, "print('first')");
    assert_eq!(task.schedule, ScheduleType::Interval(60));
    assert_eq!(task.last_run, None);
    assert_eq!(task.status, TaskStatus::Pending);
    assert_eq!(task.output, None);
    assert!(task.enabled);
}

#[test]
fn a_created_task_has_a_random_identifier() {
    let mut tasks = TaskStore::new();
    let mut ids: Vec<String> = Vec::new();
    for _ in 0..50 {
        let outcome = create_task(&mut tasks, request("some"));
        match outcome.reply.body {
            ReplyBody::Id(id) => ids.push(id),
            other => panic!("{:?}", other),
        }
    }
    for id in &ids {
        assert_eq!(id.len(), 36);
        for (i, c) in id.chars().enumerate() {
            match i {
                8 | 13 | 18 | 23 => assert_eq!(c, '-'),
                14 => assert_eq!(c, '4'),
                19 => assert!("89ab".contains(c)),
                _ => assert!("0123456789abcdef".contains(c)),
            }
        }
        assert_eq!(look(&tasks, id).id, *id);
    }
    ids.sort();
    ids.dedup();
    assert_eq!(ids.len(), 50);
}

#[test]
fn every_task_is_listed_once() {
    let tasks = store(&["b", "a", "c"]);
    let reply = get_tasks(&tasks);
    assert_eq!(reply.status.code(), 200);
    match reply.body {
        ReplyBody::Tasks(listed) => {
            let mut ids: Vec<String> = listed.iter().map(|task| task.id.clone()).collect();
            ids.sort();
            assert_eq!(ids, vec!["a", "b", "c"]);
        },
        other => panic!("{:?}", other),
    }
}

#[test]
fn an_unknown_task_is_not_found() {
    let mut tasks = store(&["a"]);
    let id = "x".to_string();
    let missing = (404, "Task not found".to_string());
    assert_eq!(text(&get_task(&tasks, &id)), missing);
    let updated = update_task(&mut tasks, &id, no_change());
    assert_eq!(text(&updated.reply), missing);
    assert!(!updated.save);
    let enabled = set_task_enabled(&mut tasks, &id, EnableTaskRequest { enabled: false });
    assert_eq!(text(&enabled.reply), missing);
    assert!(!enabled.save);
    let removal = delete_task(&mut tasks, &id);
    assert_eq!(text(&removal.outcome.reply), missing);
    assert!(!removal.outcome.save);
    assert_eq!(removal.script_dir, "data/scripts/x");
    let run = run_task(&mut tasks, &id);
    assert_eq!(text(&run.reply), missing);
    assert!(run.job.is_none());
    assert_eq!(tasks.pairs().len(), 1);
    assert_eq!(look(&tasks, "a").status, TaskStatus::Pending);
}

#[test]
fn an_update_changes_the_given_parts() {
    let mut tasks = store(&["a", "b"]);
    let id = "a".to_string();
    let req = UpdateTaskRequest {
        name: Some("new".to_string()),
        description: None,
        script_content: Some("pass".to_string()),
        schedule: Some(ScheduleType::Once),
    };
    let outcome = update_task(&mut tasks, &id, req);
    assert!(outcome.save);
    let task = task_of(&outcome.reply);
    assert_eq!(task.name, "new");
    assert_eq!(task.description, "about a");
    assert_eq!(task.script_content, "pass");
    assert_eq!(task.schedule, ScheduleType::Once);
    assert_eq!(task.status, TaskStatus::Pending);
    assert_eq!(look(&tasks, "a").name, "new");
    assert_eq!(look(&tasks, "b").name, "b");
}

#[test]
fn an_empty_update_changes_nothing() {
    let mut tasks = store(&["a"]);
    let outcome = update_task(&mut tasks, &"a".to_string(), no_change());
    assert!(outcome.save);
    assert_eq!(task_of(&outcome.reply).name, "a");
    assert_eq!(task_of(&outcome.reply).schedule, ScheduleType::Interval(60));
}

#[test]
fn a_description_can_be_updated_alone() {
    let mut tasks = store(&["a"]);
    let req = UpdateTaskRequest { description: Some("other".to_string()), ..no_change() };
    update_task(&mut tasks, &"a".to_string(), req);
    assert_eq!(look(&tasks, "a").description, "other");
    assert_eq!(look(&tasks, "a").name, "a");
}

#[test]
fn a_task_is_disabled_and_enabled() {
    let mut tasks = store(&["a"]);
    let id = "a".to_string();
    let off = set_task_enabled(&mut tasks, &id, EnableTaskRequest { enabled: false });
    assert!(off.save);
    assert!(!task_of(&off.reply).enabled);
    assert!(!look(&tasks, "a").enabled);
    set_task_enabled(&mut tasks, &id, EnableTaskRequest { enabled: true });
    assert!(look(&tasks, "a").enabled);
}

#[test]
fn a_deleted_task_is_gone() {
    let mut tasks = store(&["a", "b", "c"]);
    let id = "b".to_string();
    let removal = delete_task(&mut tasks, &id);
    assert!(removal.outcome.save);
    assert_eq!(text(&removal.outcome.reply), (200, "Task deleted".to_string()));
    assert_eq!(removal.script_dir, "data/scripts/b");
    assert_eq!(get_task(&tasks, &id).status, ReplyStatus::NotFound);
    assert_eq!(look(&tasks, "a").name, "a");
    assert_eq!(look(&tasks, "c").name, "c");
}

#[test]
fn a_key_keeps_the_last_task_put_under_it() {
    let mut tasks = store(&["a", "b"]);
    create_task_as(&mut tasks, "a".to_string(), request("again"));
    assert_eq!(tasks.pairs().len(), 2);
    assert_eq!(look(&tasks, "a").name, "again");
}

#[test]
fn a_run_is_begun_once() {
    let mut tasks = store(&["a"]);
    let id = "a".to_string();
    update_task_output(&mut tasks, &id, "kept");
    let run = run_task_at(&mut tasks, &id, at(77));
    assert_eq!(text(&run.reply), (202, "Task is running".to_string()));
    let job = run.job.unwrap();
    assert_eq!(job.key, "a");
    assert_eq!(job.task.script_content, "print('a')");
    assert_eq!(job.task.status, TaskStatus::Running);
    assert_eq!(job.task.last_run, Some(at(77)));
    assert_eq!(job.task.output, Some("kept\n".to_string()));
    let again = run_task_at(&mut tasks, &id, at(78));
    assert_eq!(text(&again.reply), (409, "Task is already running".to_string()));
    assert!(again.job.is_none());
    assert_eq!(look(&tasks, "a").last_run, Some(at(77)));
    finish_task(&mut tasks, &id, "fine".to_string());
    assert_eq!(run_task(&mut tasks, &id).reply.status, ReplyStatus::Accepted);
    assert!(look(&tasks, "a").last_run.unwrap().secs() > 1_600_000_000);
}

#[test]
fn a_finished_run_is_judged_by_its_output() {
    let mut tasks = store(&["a"]);
    let id = "a".to_string();
    run_task_at(&mut tasks, &id, at(5));
    let good = finish_task(&mut tasks, &id, "all well\n".to_string()).unwrap();
    assert_eq!(good.status, TaskStatus::Completed);
    assert_eq!(good.output, Some("all well\n".to_string()));
    assert_eq!(good.last_run, Some(at(5)));
    let bad = finish_task(&mut tasks, &id, "an ERROR".to_string()).unwrap();
    assert_eq!(bad.status, TaskStatus::Failed);
    let odd = finish_task(&mut tasks, &id, "EXECUTION FAILED: no such file".to_string()).unwrap();
    assert_eq!(odd.status, TaskStatus::Completed);
    assert!(finish_task(&mut tasks, &"gone".to_string(), "x".to_string()).is_none());
}

#[test]
fn lines_add_up() {
    let mut tasks = store(&["a"]);
    let id = "a".to_string();
    update_task_output(&mut tasks, &id, "one");
    update_task_output(&mut tasks, &id, "");
    update_task_output(&mut tasks, &id, "two");
    update_task_output(&mut tasks, &"gone".to_string(), "lost");
    assert_eq!(look(&tasks, "a").output, Some("one\n\ntwo\n".to_string()));
}

#[test]
fn kept_tasks_are_taken_up_without_their_runs() {
    let mut tasks = store(&["a", "b"]);
    run_task_at(&mut tasks, &"a".to_string(), at(5));
    finish_task(&mut tasks, &"b".to_string(), "ERROR".to_string());
    let again = restore_tasks(Some(tasks.pairs()));
    assert_eq!(look(&again, "a").status, TaskStatus::Pending);
    assert_eq!(look(&again, "a").last_run, Some(at(5)));
    assert_eq!(look(&again, "b").status, TaskStatus::Failed);
    assert_eq!(again.pairs().len(), 2);
    assert!(restore_tasks(None).pairs().is_empty());
}

#[test]
fn of_kept_tasks_under_one_key_the_last_counts() {
    let tasks = store(&["a"]);
    let mut second = look(&tasks, "a");
    second.name = "second".to_string();
    let kept = vec![("k".to_string(), look(&tasks, "a")), ("k".to_string(), second)];
    let again = restore_tasks(Some(kept));
    assert_eq!(again.pairs().len(), 1);
    assert_eq!(look(&again, "k").name, "second");
    assert_eq!(look(&again, "k").id, "a");
}

#[test]
fn statuses_have_their_codes() {
    let codes: Vec<u16> = [
        ReplyStatus::Okay,
        ReplyStatus::Created,
        ReplyStatus::Accepted,
        ReplyStatus::BadRequest,
        ReplyStatus::NotFound,
        ReplyStatus::Conflict,
        ReplyStatus::InternalServerError,
    ]
    .iter()
    .map(|status| status.code())
    .collect();
    assert_eq!(codes, vec![200, 201, 202, 400, 404, 409, 500]);
    assert_eq!(text(&Reply::lock_poisoned()), (500, "Lock poisoned".to_string()));
}

#[test]
fn places_are_named() {
    assert_eq!(script_dir("t1"), "data/scripts/t1");
    assert_eq!(bind_address(None), "127.0.0.1:8080");
    assert_eq!(bind_address(Some("0.0.0.0:1".to_string())), "0.0.0.0:1");
}

#[test]
fn an_update_made_twice_does_what_it_does_once() {
    let mut tasks = store(&["a"]);
    let id = "a".to_string();
    for _ in 0..2 {
        let req = UpdateTaskRequest { name: Some("new".to_string()), ..no_change() };
        update_task(&mut tasks, &id, req);
        assert_eq!(look(&tasks, "a").name, "new");
        assert_eq!(look(&tasks, "a").description, "about a");
        assert!(look(&tasks, "a").enabled);
    }
}
