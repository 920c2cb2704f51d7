use pyscman::api::{
    create_task_as, finish_task, run_task_at, set_task_enabled, update_task, update_task_output,
};
use pyscman::moment::Moment;
use pyscman::scheduler::{consider, scheduler_pass, scheduler_pass_at, should_run};
use pyscman::store::TaskStore;
use pyscman::task::{
    CreateTaskRequest, EnableTaskRequest, ScheduleType, ScriptTask, TaskStatus, UpdateTaskRequest,
};

// 2024-02-29T22:45:10Z, a Thursday.
const THURSDAY: i64 = 1_709_246_710;

fn at(secs: i64) -> Moment {
    Moment::new(secs, 0, 0).unwrap()
}

fn task(schedule: ScheduleType) -> ScriptTask {
    let req = CreateTaskRequest {
        name: "n".to_string(),
        description: "d".to_string(),
        script_content: "pass".to_string(),
        schedule,
    };
    ScriptTask::create("id".to_string(), req)
}

fn ran(schedule: ScheduleType, secs: i64) -> ScriptTask {
    let mut task = task(schedule);
    task.begin_afresh(at(secs));
    task.finish("done".to_string());
    task
}

fn cron(
    minute: Option<u32>,
    hour: Option<u32>,
    day: Option<u32>,
    month: Option<u32>,
    weekday: Option<u32>,
) -> ScheduleType {
    ScheduleType::Cron { minute, hour, day, month, weekday }
}

fn due(task: &ScriptTask, secs: i64) -> bool {
    should_run(task, &at(secs), &at(secs))
}

#[test]
fn a_task_runs_once() {
    assert!(due(&task(ScheduleType::Once), 100));
    assert!(!due(&ran(ScheduleType::Once, 50), 100));
}

#[test]
fn an_interval_has_to_pass() {
    let schedule = ScheduleType::Interval(60);
    assert!(due(&task(schedule), 0));
    assert!(!due(&ran(schedule, 100), 159));
    assert!(due(&ran(schedule, 100), 160));
    assert!(due(&ran(schedule, 100), 1_000));
    assert!(due(&ran(ScheduleType::Interval(0), 100), 100));
}

#[test]
fn an_interval_goes_by_its_own_reading() {
    let task = ran(ScheduleType::Interval(60), 100);
    assert!(should_run(&task, &at(0), &at(160)));
    assert!(!should_run(&task, &at(160), &at(0)));
}

#[test]
fn an_interval_of_any_length_is_measured_in_seconds() {
    let signed = i64::MAX as u64;
    for secs in [1 << 50, signed / 1_000 + 1, signed, signed + 1, u64::MAX - 1, u64::MAX] {
        let schedule = ScheduleType::Interval(secs);
        assert!(due(&task(schedule), 0));
        assert!(!due(&ran(schedule, 100), 99));
        assert!(!due(&ran(schedule, 100), 100));
        assert!(!due(&ran(schedule, 100), 105));
        assert!(!due(&ran(schedule, -8_334_601_228_800), 8_000_000_000));
    }
    let age = 16_544_868_105_599;
    let first = -8_334_601_228_800;
    assert!(due(&ran(ScheduleType::Interval(age), first), 8_210_266_876_799));
    assert!(!due(&ran(ScheduleType::Interval(age + 1), first), 8_210_266_876_799));
}

#[test]
fn a_minute_has_to_be_admitted() {
    let any = cron(None, None, None, None, None);
    assert!(due(&task(any), THURSDAY));
    assert!(due(&task(cron(Some(45), Some(22), Some(29), Some(2), Some(4))), THURSDAY));
    assert!(!due(&task(cron(Some(44), None, None, None, None)), THURSDAY));
    assert!(!due(&task(cron(None, Some(21), None, None, None)), THURSDAY));
    assert!(!due(&task(cron(None, None, Some(28), None, None)), THURSDAY));
    assert!(!due(&task(cron(None, None, None, Some(3), None)), THURSDAY));
    assert!(!due(&task(cron(None, None, None, None, Some(5))), THURSDAY));
}

#[test]
fn a_minute_has_one_run() {
    let any = cron(None, None, None, None, None);
    assert!(!due(&ran(any, THURSDAY), THURSDAY + 49));
    assert!(due(&ran(any, THURSDAY), THURSDAY + 50));
    let hourly = cron(Some(45), None, None, None, None);
    assert!(!due(&ran(hourly, THURSDAY), THURSDAY + 60));
    assert!(due(&ran(hourly, THURSDAY), THURSDAY + 3_600));
}

#[test]
fn a_run_begins_afresh() {
    let mut task = task(ScheduleType::Once);
    task.add_line("old");
    assert!(consider(&mut task, &at(1), &at(2), &at(3)));
    assert_eq!(task.status, TaskStatus::Running);
    assert_eq!(task.last_run, Some(at(3)));
    assert_eq!(task.output, None);
    assert!(!consider(&mut task, &at(4), &at(5), &at(6)));
    assert_eq!(task.last_run, Some(at(3)));
}

#[test]
fn a_disabled_task_does_not_begin() {
    let mut task = task(ScheduleType::Once);
    task.enabled = false;
    assert!(!consider(&mut task, &at(1), &at(2), &at(3)));
    assert_eq!(task.status, TaskStatus::Pending);
    assert_eq!(task.last_run, None);
}

#[test]
fn a_running_task_does_not_begin_again() {
    let mut task = ran(ScheduleType::Interval(1), 1);
    task.begin(at(2));
    assert!(!consider(&mut task, &at(100), &at(100), &at(100)));
    assert_eq!(task.last_run, Some(at(2)));
}

fn add(tasks: &mut TaskStore, id: &str, schedule: ScheduleType) {
    let req = CreateTaskRequest {
        name: id.to_string(),
        description: String::new(),
        script_content: format!("run {}", id),
        schedule,
    };
    create_task_as(tasks, id.to_string(), req);
}

#[test]
fn one_pass_begins_what_is_due() {
    let mut tasks = TaskStore::new();
    add(&mut tasks, "once", ScheduleType::Once);
    add(&mut tasks, "hour", cron(Some(45), None, None, None, None));
    add(&mut tasks, "never", cron(Some(44), None, None, None, None));
    add(&mut tasks, "off", ScheduleType::Once);
    add(&mut tasks, "often", ScheduleType::Interval(0));
    tasks.get_mut(&"off".to_string()).unwrap().enabled = false;
    let jobs = scheduler_pass(&mut tasks, &at(THURSDAY));
    let mut keys: Vec<&str> = jobs.iter().map(|job| job.key.as_str()).collect();
    keys.sort();
    assert_eq!(keys, vec!["hour", "often", "once"]);
    for job in &jobs {
        assert_eq!(job.task.status, TaskStatus::Running);
        assert_eq!(job.task.script_content, format!("run {}", job.key));
        assert!(job.task.last_run.unwrap().secs() > 1_600_000_000);
        let kept = tasks.get(&job.key).unwrap();
        assert_eq!(kept.status, TaskStatus::Running);
        assert_eq!(kept.last_run, job.task.last_run);
    }
    assert_eq!(tasks.get(&"never".to_string()).unwrap().status, TaskStatus::Pending);
    assert_eq!(tasks.get(&"off".to_string()).unwrap().status, TaskStatus::Pending);
    assert!(scheduler_pass(&mut tasks, &at(THURSDAY)).is_empty());
}

fn get<'a>(tasks: &'a TaskStore, id: &str) -> &'a ScriptTask {
    tasks.get(&id.to_string()).unwrap()
}

fn started(tasks: &mut TaskStore, tick: i64, readings: &Vec<(Moment, Moment)>) -> Vec<String> {
    let jobs = scheduler_pass_at(tasks, &at(tick), readings);
    let mut keys: Vec<String> = jobs.iter().map(|job| job.key.clone()).collect();
    keys.sort();
    keys
}

#[test]
fn the_longest_interval_does_not_begin_again() {
    // 2024-03-03T09:30:05Z, five seconds after the last run.
    let now = 1_709_458_205;
    let mut tasks = TaskStore::new();
    add(&mut tasks, "far", ScheduleType::Interval(u64::MAX));
    {
        let task = tasks.get_mut(&"far".to_string()).unwrap();
        task.begin(at(now - 5));
        task.finish("kept".to_string());
    }
    assert!(scheduler_pass_at(&mut tasks, &at(now), &vec![(at(now), at(now))]).is_empty());
    let kept = get(&tasks, "far");
    assert_eq!(kept.status, TaskStatus::Completed);
    assert_eq!(kept.last_run, Some(at(now - 5)));
    assert_eq!(kept.output, Some("kept".to_string()));
    assert!(kept.enabled);
    assert!(scheduler_pass(&mut tasks, &at(now)).is_empty());
}

#[test]
fn a_look_goes_by_what_the_clock_shows_on_the_way() {
    let mut tasks = TaskStore::new();
    add(&mut tasks, "a", ScheduleType::Interval(60));
    add(&mut tasks, "b", ScheduleType::Interval(70));
    add(&mut tasks, "c", ScheduleType::Once);
    assert_eq!(tasks.len(), 3);
    for id in ["a", "b", "c"] {
        let task = tasks.get_mut(&id.to_string()).unwrap();
        task.begin(at(100));
        task.finish(id.to_string());
    }
    let early = vec![(at(159), at(200)); 3];
    assert!(started(&mut tasks, 1_000, &early).is_empty());
    for id in ["a", "b", "c"] {
        assert_eq!(get(&tasks, id).last_run, Some(at(100)));
        assert_eq!(get(&tasks, id).output, Some(id.to_string()));
        assert_eq!(get(&tasks, id).status, TaskStatus::Completed);
    }
    let then = vec![(at(160), at(161)); 3];
    assert_eq!(started(&mut tasks, 0, &then), vec!["a"]);
    assert_eq!(get(&tasks, "a").last_run, Some(at(161)));
    assert_eq!(get(&tasks, "a").status, TaskStatus::Running);
    assert_eq!(get(&tasks, "a").output, None);
    assert_eq!(get(&tasks, "b").status, TaskStatus::Completed);
    let later = vec![(at(1_000), at(1_000)); 3];
    assert_eq!(started(&mut tasks, 0, &later), vec!["b"]);
    assert_eq!(tasks.len(), 3);
}

#[test]
fn nothing_begins_without_tasks() {
    let mut tasks = TaskStore::new();
    assert_eq!(tasks.len(), 0);
    assert!(scheduler_pass_at(&mut tasks, &at(0), &Vec::new()).is_empty());
    assert!(scheduler_pass(&mut tasks, &at(0)).is_empty());
}

#[test]
fn whatever_happens_a_task_of_one_run_is_begun_once() {
    let id = "t".to_string();
    let mut tasks = TaskStore::new();
    add(&mut tasks, "t", ScheduleType::Once);
    let mut begun = 0;
    for now in 0..20 {
        begun += scheduler_pass_at(&mut tasks, &at(now), &vec![(at(now), at(now))]).len();
        update_task_output(&mut tasks, &id, "line");
        if now % 3 == 2 {
            finish_task(&mut tasks, &id, "out".to_string());
        }
        set_task_enabled(&mut tasks, &id, EnableTaskRequest { enabled: now % 4 != 3 });
        let schedule = if now == 7 { Some(ScheduleType::Once) } else { None };
        let req = UpdateTaskRequest {
            name: Some(format!("n{}", now)),
            description: None,
            script_content: None,
            schedule,
        };
        update_task(&mut tasks, &id, req);
    }
    assert_eq!(begun, 1);
    assert_eq!(get(&tasks, "t").last_run, Some(at(0)));
    assert!(run_task_at(&mut tasks, &id, at(30)).job.is_some());
    assert_eq!(get(&tasks, "t").last_run, Some(at(30)));
}

#[test]
fn whatever_happens_one_run_is_under_way_at_a_time() {
    let id = "t".to_string();
    let mut tasks = TaskStore::new();
    add(&mut tasks, "t", ScheduleType::Interval(0));
    let mut under_way = 0;
    let mut begun = 0;
    let mut ended = 0;
    for now in 0..60 {
        match now % 5 {
            0 | 3 => {
                let jobs = scheduler_pass_at(&mut tasks, &at(now), &vec![(at(now), at(now))]);
                under_way += jobs.len();
                begun += jobs.len();
            },
            1 => {
                if run_task_at(&mut tasks, &id, at(now)).job.is_some() {
                    under_way += 1;
                    begun += 1;
                }
            },
            2 => update_task_output(&mut tasks, &id, "x"),
            _ => {
                if under_way > 0 && now % 2 == 0 {
                    finish_task(&mut tasks, &id, "y".to_string());
                    under_way -= 1;
                    ended += 1;
                }
            },
        }
        assert!(under_way <= 1 && begun <= ended + 1);
        assert_eq!(under_way == 1, get(&tasks, "t").status == TaskStatus::Running);
    }
    assert_eq!((begun, ended), (7, 6));
}

#[test]
fn a_minute_has_one_run_whatever_happens() {
    let id = "t".to_string();
    let mut tasks = TaskStore::new();
    add(&mut tasks, "t", cron(Some(45), None, None, None, None));
    let mut begun = 0;
    for now in THURSDAY..THURSDAY + 50 {
        begun += scheduler_pass_at(&mut tasks, &at(now), &vec![(at(now), at(now))]).len();
        finish_task(&mut tasks, &id, "y".to_string());
    }
    assert_eq!(begun, 1);
    for now in THURSDAY + 3_600..THURSDAY + 3_620 {
        if now == THURSDAY + 3_600 {
            assert!(run_task_at(&mut tasks, &id, at(now)).job.is_some());
        }
        begun += scheduler_pass_at(&mut tasks, &at(now), &vec![(at(now), at(now))]).len();
        finish_task(&mut tasks, &id, "y".to_string());
    }
    assert_eq!(begun, 1);
}

#[test]
fn what_no_clock_shows_never_comes() {
    let schedules = [
        cron(Some(60), None, None, None, None),
        cron(None, Some(24), None, None, None),
        cron(None, None, Some(0), None, None),
        cron(None, None, Some(32), None, None),
        cron(None, None, None, Some(0), None),
        cron(None, None, None, Some(13), None),
        cron(None, None, None, None, Some(7)),
    ];
    for schedule in schedules {
        for day in 0..400 {
            assert!(!due(&task(schedule), THURSDAY + day * 86_400 + day * 61));
        }
    }
}

#[test]
fn a_run_at_a_request_counts_for_a_task_of_one_run() {
    let mut task = task(ScheduleType::Once);
    task.begin(at(1));
    task.finish("x".to_string());
    assert!(!due(&task, 100));
}
