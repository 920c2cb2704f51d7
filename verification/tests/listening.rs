use pyscman::clients::{ws_answer, ClientAction, ClientMessage, Clients};
use pyscman::message::{broadcast_task_output, broadcast_task_status, tellable};
use pyscman::moment::Moment;
use pyscman::task::{CreateTaskRequest, ScheduleType, ScriptTask};

fn task(schedule: ScheduleType) -> ScriptTask {
    let req = CreateTaskRequest {
        name: "n".to_string(),
        description: "d".to_string(),
        script_content: "pass".to_string(),
        schedule,
    };
    ScriptTask::create("id \"1\"".to_string(), req)
}

#[test]
fn a_line_is_told_with_its_task() {
    assert_eq!(
        broadcast_task_output("t", "say \"hi\"\t\u{e9}\u{1}"),
        "{\"line\":\"say \\\"hi\\\"\\t\u{e9}\\u0001\",\"task_id\":\"t\",\"type\":\"output\"}"
    );
}

fn escaped(c: char) -> String {
    match c {
        '"' => "\\\"".to_string(),
        '\\' => "\\\\".to_string(),
        '\u{8}' => "\\b".to_string(),
        '\t' => "\\t".to_string(),
        '\n' => "\\n".to_string(),
        '\u{c}' => "\\f".to_string(),
        '\r' => "\\r".to_string(),
        c if (c as u32) < 0x20 => format!("\\u00{:02x}", c as u32),
        c => c.to_string(),
    }
}

#[test]
fn characters_are_escaped_where_they_have_to_be() {
    let mut line = String::new();
    let mut told = String::new();
    for n in (0..0x3000u32).chain([0xfffd, 0xffff, 0x1f40d, 0x10ffff]) {
        if let Some(c) = char::from_u32(n) {
            line.push(c);
            told.push_str(&escaped(c));
        }
    }
    assert!(told.starts_with("\\u0000\\u0001"));
    assert!(told.contains("\\u001f !\\\"#"));
    assert_eq!(
        broadcast_task_output(&line, &line),
        format!("{{\"line\":\"{}\",\"task_id\":\"{}\",\"type\":\"output\"}}", told, told)
    );
}

#[test]
fn a_new_task_is_told() {
    assert_eq!(
        broadcast_task_status(&task(ScheduleType::Once)),
        "{\"last_run\":null,\"output\":null,\"schedule\":\"Once\",\"status\":\"Pending\",\
         \"task_id\":\"id \\\"1\\\"\",\"type\":\"status\"}"
    );
}

#[test]
fn a_running_task_is_told() {
    let mut task = task(ScheduleType::Interval(90));
    task.begin(Moment::new(0, 0, 3_600).unwrap());
    task.add_line("x");
    assert_eq!(
        broadcast_task_status(&task),
        "{\"last_run\":\"1970-01-01T01:00:00+01:00\",\"output\":\"x\\n\",\
         \"schedule\":{\"Interval\":90},\"status\":\"Running\",\"task_id\":\"id \\\"1\\\"\",\
         \"type\":\"status\"}"
    );
}

#[test]
fn a_schedule_by_the_calendar_is_told() {
    let schedule = ScheduleType::Cron {
        minute: Some(0),
        hour: None,
        day: Some(31),
        month: None,
        weekday: Some(u32::MAX),
    };
    let mut task = task(schedule);
    task.finish("ERROR: x".to_string());
    assert_eq!(
        broadcast_task_status(&task),
        "{\"last_run\":null,\"output\":\"ERROR: x\",\"schedule\":{\"Cron\":{\"day\":31,\
         \"hour\":null,\"minute\":0,\"month\":null,\"weekday\":4294967295}},\
         \"status\":\"Failed\",\"task_id\":\"id \\\"1\\\"\",\"type\":\"status\"}"
    );
    task.finish("fine".to_string());
    assert!(broadcast_task_status(&task).contains("\"status\":\"Completed\""));
}

#[test]
fn numbers_are_told_in_full() {
    let told = broadcast_task_status(&task(ScheduleType::Interval(u64::MAX)));
    assert!(told.contains("{\"Interval\":18446744073709551615}"));
}

#[test]
fn messages_can_be_read_back() {
    let told: serde_json::Value =
        serde_json::from_str(&broadcast_task_output("t\\", "\u{1f40d} </a>")).unwrap();
    assert_eq!(told["type"], "output");
    assert_eq!(told["task_id"], "t\\");
    assert_eq!(told["line"], "\u{1f40d} </a>");
    assert_eq!(told.as_object().unwrap().len(), 3);
}

#[test]
fn a_last_run_beyond_the_last_year_cannot_be_told() {
    let mut task = task(ScheduleType::Once);
    assert!(tellable(&task));
    task.begin(Moment::new(8_210_266_876_799, 0, 60).unwrap());
    assert!(!tellable(&task));
}

#[test]
fn clients_have_numbers_of_their_own() {
    let mut clients: Clients<&str> = Clients::new();
    let a = clients.register("a");
    let b = clients.register("b");
    let c = clients.register("c");
    assert!(a != b && b != c && a != c);
    clients.remove(b);
    assert_eq!(clients.len(), 2);
    assert_eq!((*clients.sender(0), *clients.sender(1)), ("a", "c"));
    let d = clients.register("d");
    assert!(d != a && d != c);
    clients.remove(d);
    clients.remove(d);
    assert_eq!(clients.len(), 2);
    clients.remove(a);
    clients.remove(c);
    assert_eq!(clients.len(), 0);
}

#[test]
fn pings_are_answered_and_wishes_to_close_granted() {
    assert!(matches!(
        ws_answer(ClientMessage::Ping(vec![1, 2])),
        ClientAction::Pong(bytes) if bytes == vec![1, 2]
    ));
    assert!(matches!(ws_answer(ClientMessage::Text), ClientAction::Ignore));
    assert!(matches!(ws_answer(ClientMessage::Binary), ClientAction::Ignore));
    assert!(matches!(ws_answer(ClientMessage::Other), ClientAction::Ignore));
    assert!(matches!(ws_answer(ClientMessage::Close), ClientAction::Close));
}
