//! What the messages to those who listen say, character by character.

use crate::moment::Moment;
use crate::task::{ScheduleType, TaskStatus};
use vstd::prelude::*;

verus! {

use crate::json;
use crate::message;
use crate::moment;
use crate::task::TaskView;
use crate::text;

/// The number that decimal digits stand for.
pub open spec fn number_of(digits: Seq<char>) -> int
    decreases digits.len(),
{
    if digits.len() == 0 {
        0
    } else {
        10 * number_of(digits.drop_last()) + (digits.last() as int - '0' as int)
    }
}

/// A number is written by decimal digits that stand for it, the first of which is no zero, unless
/// it is the only one.
pub proof fn numbers_are_written_in_decimal(n: nat)
    ensures
        number_of(json::decimal(n)) == n,
        json::decimal(n).len() > 0,
        forall|i: int|
            0 <= i < json::decimal(n).len() ==> '0' <= #[trigger] json::decimal(n)[i] <= '9',
        json::decimal(n).len() > 1 ==> json::decimal(n)[0] != '0',
        n > 0 ==> json::decimal(n)[0] != '0',
    decreases n,
{
    let digit = ('0' as u32 + n % 10) as char;
    let all = json::decimal(n);
    assert(digit as int == '0' as int + n % 10);
    if n < 10 {
        assert(all.drop_last() =~= Seq::empty());
        assert(number_of(all.drop_last()) == 0);
    } else {
        numbers_are_written_in_decimal(n / 10);
        assert(all.drop_last() =~= json::decimal(n / 10));
        assert(all[0] == json::decimal(n / 10)[0]);
        assert forall|i: int| 0 <= i < all.len() implies '0' <= #[trigger] all[i] <= '9' by {
            if i < all.len() - 1 {
                assert(all[i] == json::decimal(n / 10)[i]);
            }
        }
    }
}

/// Each character of a text is written on its own: quotes, backslashes and the characters below
/// the space by an escape, and any other as it is.
pub proof fn each_character_is_written_on_its_own(a: Seq<char>, c: char, b: Seq<char>)
    ensures
        json::json_string(a) == seq!['"'] + json::escaped(a) + seq!['"'],
        json::escaped(a + seq![c] + b) == json::escaped(a) + json::escaped_char(c) + json::escaped(
            b,
        ),
        json::escaped(Seq::empty()) == Seq::<char>::empty(),
        c == '"' ==> json::escaped_char(c) == seq!['\\', '"'],
        c == '\\' ==> json::escaped_char(c) == seq!['\\', '\\'],
        c == '\n' ==> json::escaped_char(c) == seq!['\\', 'n'],
        c == '\r' ==> json::escaped_char(c) == seq!['\\', 'r'],
        c == '\t' ==> json::escaped_char(c) == seq!['\\', 't'],
        c == '\u{8}' ==> json::escaped_char(c) == seq!['\\', 'b'],
        c == '\u{c}' ==> json::escaped_char(c) == seq!['\\', 'f'],
        c == '\u{0}' ==> json::escaped_char(c) == seq!['\\', 'u', '0', '0', '0', '0'],
        c == '\u{1b}' ==> json::escaped_char(c) == seq!['\\', 'u', '0', '0', '1', 'b'],
        ' ' <= c && c != '"' && c != '\\' ==> json::escaped_char(c) == seq![c],
    decreases b.len(),
{
    assert(json::json_string(a) =~= seq!['"'] + json::escaped(a) + seq!['"']);
    if b.len() == 0 {
        assert(a + seq![c] + b =~= a.push(c));
        assert(a.push(c).drop_last() =~= a);
        assert(json::escaped(a) + json::escaped_char(c) + json::escaped(b) =~= json::escaped(a)
            + json::escaped_char(c));
    } else {
        each_character_is_written_on_its_own(a, c, b.drop_last());
        assert((a + seq![c] + b).drop_last() =~= a + seq![c] + b.drop_last());
        assert((a + seq![c] + b).last() == b.last());
        assert(json::escaped(a + seq![c] + b) =~= json::escaped(a) + json::escaped_char(c)
            + json::escaped(b));
    }
}

/// How a part of a schedule is told: by its digits, or by `null` where it is not given.
pub open spec fn part_text(part: Option<u32>) -> Seq<char> {
    match part {
        Some(n) => json::decimal(n as nat),
        None => "null"@,
    }
}

/// A schedule to run once is told by its name.
pub proof fn a_single_run_is_told_by_name()
    ensures
        message::schedule_text(ScheduleType::Once) == "\"Once\""@,
{
    reveal_strlit("Once");
    reveal_strlit("\"Once\"");
    json::plain_text_is_not_escaped("Once"@);
    assert(message::schedule_text(ScheduleType::Once) =~= "\"Once\""@);
}

/// The text of an object with one member, whose key needs no escapes.
proof fn lemma_one_member(key: Seq<char>, value: Seq<char>)
    requires
        json::is_plain(key),
    ensures
        json::json_object(map![key => value]) == seq!['{', '"'] + key + seq!['"', ':'] + value
            + seq!['}'],
{
    let members = map![key => value];
    let keys = seq![key];
    assert(keys[0] == key);
    assert(keys.to_set() =~= members.dom());
    json::keys_in_order_settle_the_text(members, keys);
    json::the_first_member_opens_the_text(members, keys);
    assert(keys.take(1) =~= keys);
    let start = seq!['{'] + json::members_text(members, keys);
    assert(json::json_object(members) =~= start + seq!['}']);
}

/// An interval is told by its seconds.
pub proof fn an_interval_is_told_by_its_seconds(secs: u64)
    ensures
        message::schedule_text(ScheduleType::Interval(secs)) == "{\"Interval\":"@ + json::decimal(
            secs as nat,
        ) + "}"@,
{
    reveal_strlit("Interval");
    lemma_one_member("Interval"@, json::decimal(secs as nat));
    assert("{\"Interval\":"@ =~= seq!['{', '"'] + "Interval"@ + seq!['"', ':']) by {
        reveal_strlit("{\"Interval\":");
    }
    assert("}"@ =~= seq!['}']) by {
        reveal_strlit("}");
    }
}

/// A schedule by clock and calendar is told by its parts, each under its own name.
pub proof fn a_schedule_by_the_calendar_is_told_by_its_parts(
    minute: Option<u32>,
    hour: Option<u32>,
    day: Option<u32>,
    month: Option<u32>,
    weekday: Option<u32>,
)
    ensures
        message::schedule_text(ScheduleType::Cron { minute, hour, day, month, weekday })
            == "{\"Cron\":{\"day\":"@ + part_text(day) + ",\"hour\":"@
            + part_text(hour) + ",\"minute\":"@
            + part_text(minute) + ",\"month\":"@
            + part_text(month) + ",\"weekday\":"@
            + part_text(weekday) + "}}"@,
{
    let members = message::cron_members(minute, hour, day, month, weekday);
    let inner = json::json_object(members);
    lemma_cron_members(minute, hour, day, month, weekday);
    lemma_cron_text(members, seq!["day"@, "hour"@, "minute"@, "month"@, "weekday"@]);
    reveal_strlit("Cron");
    lemma_one_member("Cron"@, inner);
    let head = seq!['{', '"'] + "Cron"@ + seq!['"', ':'];
    assert("{\"Cron\":{\"day\":"@ =~= head + "{\"day\":"@) by {
        reveal_strlit("{\"Cron\":{\"day\":");
        reveal_strlit("{\"day\":");
    }
    assert("}}"@ =~= seq!['}', '}']) by {
        reveal_strlit("}}");
    }
    let text1 = "{\"day\":"@;
    let text2 = text1 + part_text(day);
    let text3 = text2 + ",\"hour\":"@;
    let text4 = text3 + part_text(hour);
    let text5 = text4 + ",\"minute\":"@;
    let text6 = text5 + part_text(minute);
    let text7 = text6 + ",\"month\":"@;
    let text8 = text7 + part_text(month);
    let text9 = text8 + ",\"weekday\":"@;
    let text10 = text9 + part_text(weekday);
    lemma_grouped(head, text1, part_text(day));
    lemma_grouped(head, text2, ",\"hour\":"@);
    lemma_grouped(head, text3, part_text(hour));
    lemma_grouped(head, text4, ",\"minute\":"@);
    lemma_grouped(head, text5, part_text(minute));
    lemma_grouped(head, text6, ",\"month\":"@);
    lemma_grouped(head, text7, part_text(month));
    lemma_grouped(head, text8, ",\"weekday\":"@);
    lemma_grouped(head, text9, part_text(weekday));
    lemma_grouped(head, text10, seq!['}']);
    lemma_grouped(head + text10, seq!['}'], seq!['}']);
    assert(seq!['}'] + seq!['}'] =~= seq!['}', '}']);
}

proof fn lemma_grouped(a: Seq<char>, b: Seq<char>, c: Seq<char>)
    ensures
        a + (b + c) == a + b + c,
{
    assert(a + (b + c) =~= a + b + c);
}

proof fn lemma_cron_members(
    minute: Option<u32>,
    hour: Option<u32>,
    day: Option<u32>,
    month: Option<u32>,
    weekday: Option<u32>,
)
    ensures
        ({
            let members = message::cron_members(minute, hour, day, month, weekday);
            &&& members["day"@] == part_text(day)
            &&& members["hour"@] == part_text(hour)
            &&& members["minute"@] == part_text(minute)
            &&& members["month"@] == part_text(month)
            &&& members["weekday"@] == part_text(weekday)
            &&& members.dom() == set!["minute"@, "hour"@, "day"@, "month"@, "weekday"@]
        }),
{
    reveal_strlit("day");
    reveal_strlit("hour");
    reveal_strlit("minute");
    reveal_strlit("month");
    reveal_strlit("weekday");
    assert("day"@.len() == 3 && "hour"@.len() == 4 && "minute"@.len() == 6);
    assert("month"@.len() == 5 && "weekday"@.len() == 7);
    assert(message::cron_members(minute, hour, day, month, weekday).dom() =~= set![
        "minute"@,
        "hour"@,
        "day"@,
        "month"@,
        "weekday"@,
    ]);
}

proof fn lemma_cron_keys(members: Map<Seq<char>, Seq<char>>, keys: Seq<Seq<char>>)
    requires
        keys == seq!["day"@, "hour"@, "minute"@, "month"@, "weekday"@],
        members.dom() == set!["minute"@, "hour"@, "day"@, "month"@, "weekday"@],
    ensures
        text::ascending(keys),
        keys.to_set() == members.dom(),
        forall|i: int| 0 <= i < keys.len() ==> json::is_plain(#[trigger] keys[i]),
{
    reveal_strlit("day");
    reveal_strlit("hour");
    reveal_strlit("minute");
    reveal_strlit("month");
    reveal_strlit("weekday");
    assert(text::ascending(keys)) by {
        reveal_with_fuel(text::text_before, 3);
    }
    assert forall|key: Seq<char>| keys.to_set().contains(key) == #[trigger] members.dom().contains(
        key,
    ) by {
        assert(keys[0] == "day"@ && keys[1] == "hour"@ && keys[2] == "minute"@);
        assert(keys[3] == "month"@ && keys[4] == "weekday"@);
    }
    assert(keys.to_set() =~= members.dom());
}

proof fn lemma_cron_text(members: Map<Seq<char>, Seq<char>>, keys: Seq<Seq<char>>)
    requires
        keys == seq!["day"@, "hour"@, "minute"@, "month"@, "weekday"@],
        members.dom() == set!["minute"@, "hour"@, "day"@, "month"@, "weekday"@],
    ensures
        json::json_object(members) == "{\"day\":"@ + members["day"@] + ",\"hour\":"@
            + members["hour"@] + ",\"minute\":"@ + members["minute"@] + ",\"month\":"@
            + members["month"@] + ",\"weekday\":"@ + members["weekday"@] + seq!['}'],
{
    lemma_cron_keys(members, keys);
    json::keys_in_order_settle_the_text(members, keys);
    json::the_first_member_opens_the_text(members, keys);
    assert("{\"day\":"@ =~= seq!['{', '"'] + "day"@ + seq!['"', ':']) by {
        reveal_strlit("{\"day\":");
        reveal_strlit("day");
    }
    json::another_member_follows(members, keys, 2);
    assert(",\"hour\":"@ =~= seq![',', '"'] + "hour"@ + seq!['"', ':']) by {
        reveal_strlit(",\"hour\":");
        reveal_strlit("hour");
    }
    json::another_member_follows(members, keys, 3);
    assert(",\"minute\":"@ =~= seq![',', '"'] + "minute"@ + seq!['"', ':']) by {
        reveal_strlit(",\"minute\":");
        reveal_strlit("minute");
    }
    json::another_member_follows(members, keys, 4);
    assert(",\"month\":"@ =~= seq![',', '"'] + "month"@ + seq!['"', ':']) by {
        reveal_strlit(",\"month\":");
        reveal_strlit("month");
    }
    json::another_member_follows(members, keys, 5);
    assert(",\"weekday\":"@ =~= seq![',', '"'] + "weekday"@ + seq!['"', ':']) by {
        reveal_strlit(",\"weekday\":");
        reveal_strlit("weekday");
    }
    assert(keys.take(5) =~= keys);
    let whole = seq!['{'] + json::members_text(members, keys);
    assert(json::json_object(members) =~= whole + seq!['}']);
}

/// A status is told by its name.
pub proof fn a_status_is_told_by_name(status: TaskStatus)
    ensures
        json::json_string(message::status_name(status)) == match status {
            TaskStatus::Pending => "\"Pending\""@,
            TaskStatus::Running => "\"Running\""@,
            TaskStatus::Completed => "\"Completed\""@,
            TaskStatus::Failed => "\"Failed\""@,
        },
{
    reveal_strlit("Pending");
    reveal_strlit("Running");
    reveal_strlit("Completed");
    reveal_strlit("Failed");
    reveal_strlit("\"Pending\"");
    reveal_strlit("\"Running\"");
    reveal_strlit("\"Completed\"");
    reveal_strlit("\"Failed\"");
    let name = message::status_name(status);
    json::plain_text_is_not_escaped(name);
    assert(json::json_string(name) =~= match status {
        TaskStatus::Pending => "\"Pending\""@,
        TaskStatus::Running => "\"Running\""@,
        TaskStatus::Completed => "\"Completed\""@,
        TaskStatus::Failed => "\"Failed\""@,
    });
}

/// How a text that may be missing is told: by itself, in quotes and with escapes, or by `null`.
pub open spec fn optional_string(text: Option<Seq<char>>) -> Seq<char> {
    match text {
        Some(text) => seq!['"'] + json::escaped(text) + seq!['"'],
        None => "null"@,
    }
}

/// How the last run of a task is told: by the moment at which it began, in quotes.
pub open spec fn optional_moment(at: Option<Moment>) -> Seq<char> {
    match at {
        Some(at) => seq!['"'] + json::escaped(
            moment::rfc3339(at.spec_secs(), at.spec_nanos(), at.spec_offset()),
        ) + seq!['"'],
        None => "null"@,
    }
}

/// The message that tells how a task stands carries, each under its own name, the moment of its
/// last run, what it has put out, its schedule, its status and its identifier.
pub proof fn a_task_is_told_part_by_part(task: TaskView)
    ensures
        json::json_object(message::status_members(task, message::last_run_text(task.last_run)))
            == "{\"last_run\":"@ + optional_moment(task.last_run) + ",\"output\":"@
            + optional_string(task.output) + ",\"schedule\":"@ + message::schedule_text(
            task.schedule,
        ) + ",\"status\":"@ + json::json_string(message::status_name(task.status))
            + ",\"task_id\":"@ + (seq!['"'] + json::escaped(task.id) + seq!['"'])
            + ",\"type\":\"status\"}"@,
{
    crate::laws::the_standing_of_a_task_is_told(task, message::last_run_text(task.last_run));
    assert(json::json_string(task.id) =~= seq!['"'] + json::escaped(task.id) + seq!['"']);
    if let Some(text) = task.output {
        assert(json::json_string(text) =~= seq!['"'] + json::escaped(text) + seq!['"']);
    }
    if let Some(at) = task.last_run {
        let words = moment::rfc3339(at.spec_secs(), at.spec_nanos(), at.spec_offset());
        assert(json::json_string(words) =~= seq!['"'] + json::escaped(words) + seq!['"']);
    }
}

/// The message that a task has put out a line carries the line and the identifier of the task,
/// each under its own name.
pub proof fn a_line_is_told_part_by_part(task_id: Seq<char>, line: Seq<char>)
    ensures
        json::json_object(message::output_members(task_id, line)) == "{\"line\":"@ + (seq!['"']
            + json::escaped(line) + seq!['"']) + ",\"task_id\":"@ + (seq!['"'] + json::escaped(
            task_id,
        ) + seq!['"']) + ",\"type\":\"output\"}"@,
{
    crate::laws::a_line_is_passed_on(task_id, line);
    assert(json::json_string(task_id) =~= seq!['"'] + json::escaped(task_id) + seq!['"']);
    assert(json::json_string(line) =~= seq!['"'] + json::escaped(line) + seq!['"']);
}

/// A task can be told of unless its last run began where the local clock shows no representable
/// year.
pub proof fn a_task_can_be_told_unless_its_run_cannot(task: TaskView)
    ensures
        task.last_run is None ==> message::is_tellable(task),
        task.last_run matches Some(at) ==> (message::is_tellable(task) <==> -8_334_601_228_800
            <= at.spec_secs() + at.spec_offset() <= 8_210_266_876_799),
{
}

} // verus!
