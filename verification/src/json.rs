//! JSON objects, put together member by member.

use vstd::prelude::*;

verus! {

use crate::text;

/// A JSON value of `serde_json`.
#[verifier::external_type_specification]
#[verifier::external_body]
pub struct ExJsonValue(serde_json::Value);

/// The members of a JSON object of `serde_json`.
#[verifier::external_type_specification]
#[verifier::external_body]
#[verifier::reject_recursive_types(K)]
#[verifier::reject_recursive_types(V)]
pub struct ExJsonMembers<K, V>(serde_json::Map<K, V>);

/// The members of an object: to each key the compact JSON text of its value.
pub uninterp spec fn object_members(
    object: serde_json::Map<String, serde_json::Value>,
) -> Map<Seq<char>, Seq<char>>;

/// The hexadecimal digit of a number below 16.
pub open spec fn hex_digit(n: int) -> char {
    if n < 10 {
        ('0' as u32 + n) as char
    } else {
        ('a' as u32 + n - 10) as char
    }
}

/// How a character is written within a JSON string.
pub open spec fn escaped_char(c: char) -> Seq<char> {
    match c {
        '"' => seq!['\\', '"'],
        '\\' => seq!['\\', '\\'],
        '\u{8}' => seq!['\\', 'b'],
        '\t' => seq!['\\', 't'],
        '\n' => seq!['\\', 'n'],
        '\u{c}' => seq!['\\', 'f'],
        '\r' => seq!['\\', 'r'],
        _ => if c <= '\u{1f}' {
            seq!['\\', 'u', '0', '0', hex_digit(c as int / 16), hex_digit(c as int % 16)]
        } else {
            seq![c]
        },
    }
}

/// How the characters of a text are written within a JSON string.
pub open spec fn escaped(text: Seq<char>) -> Seq<char>
    decreases text.len(),
{
    if text.len() == 0 {
        Seq::empty()
    } else {
        escaped(text.drop_last()) + escaped_char(text.last())
    }
}

/// The JSON string of a text.
pub open spec fn json_string(text: Seq<char>) -> Seq<char> {
    seq!['"'] + escaped(text).push('"')
}

/// The texts of the members under `keys`, in their order, with commas between them.
pub open spec fn members_text(members: Map<Seq<char>, Seq<char>>, keys: Seq<Seq<char>>) -> Seq<char>
    decreases keys.len(),
{
    if keys.len() == 0 {
        Seq::empty()
    } else {
        let before = members_text(members, keys.drop_last());
        let member = json_string(keys.last()).push(':') + members[keys.last()];
        if keys.len() == 1 {
            member
        } else {
            before.push(',') + member
        }
    }
}

/// The keys of an object in ascending order.
pub open spec fn ascending_keys(members: Map<Seq<char>, Seq<char>>) -> Seq<Seq<char>> {
    choose|keys: Seq<Seq<char>>| #[trigger]
        text::ascending(keys) && keys.to_set() == members.dom()
}

/// The compact text of a JSON object whose members have these texts, in the order of their keys.
pub open spec fn json_object(members: Map<Seq<char>, Seq<char>>) -> Seq<char> {
    seq!['{'] + members_text(members, ascending_keys(members)).push('}')
}

/// The text of an object, given its keys in ascending order.
pub proof fn keys_in_order_settle_the_text(
    members: Map<Seq<char>, Seq<char>>,
    keys: Seq<Seq<char>>,
)
    requires
        text::ascending(keys),
        keys.to_set() == members.dom(),
    ensures
        json_object(members) == seq!['{'] + members_text(members, keys).push('}'),
{
    text::ascending_lists_are_settled_by_their_members(ascending_keys(members), keys);
}

/// The text of the first `n` members is that of those before the last, a comma where there are
/// any, and the last.
pub proof fn members_follow_each_other(
    members: Map<Seq<char>, Seq<char>>,
    keys: Seq<Seq<char>>,
    n: int,
)
    requires
        0 < n <= keys.len(),
    ensures
        members_text(members, keys.take(n)) == (if n == 1 {
            Seq::empty()
        } else {
            members_text(members, keys.take(n - 1)).push(',')
        }) + json_string(keys[n - 1]).push(':') + members[keys[n - 1]],
{
    assert(keys.take(n).drop_last() =~= keys.take(n - 1));
    let member = json_string(keys[n - 1]).push(':') + members[keys[n - 1]];
    if n == 1 {
        assert(Seq::empty() + json_string(keys[0]).push(':') + members[keys[0]] =~= member);
    } else {
        let before = members_text(members, keys.take(n - 1)).push(',');
        assert(before + json_string(keys[n - 1]).push(':') + members[keys[n - 1]] =~= before
            + member);
    }
}

/// How the text of an object starts with its first member, whose key needs no escapes.
pub proof fn the_first_member_opens_the_text(
    members: Map<Seq<char>, Seq<char>>,
    keys: Seq<Seq<char>>,
)
    requires
        keys.len() > 0,
        is_plain(keys[0]),
    ensures
        seq!['{'] + members_text(members, keys.take(1)) == seq!['{', '"'] + keys[0] + seq!['"', ':']
            + members[keys[0]],
{
    members_follow_each_other(members, keys, 1);
    plain_text_is_not_escaped(keys[0]);
    assert(seq!['{'] + members_text(members, keys.take(1)) =~= seq!['{', '"'] + keys[0] + seq![
        '"',
        ':',
    ] + members[keys[0]]);
}

/// How the text of an object goes on with another member, whose key needs no escapes.
pub proof fn another_member_follows(
    members: Map<Seq<char>, Seq<char>>,
    keys: Seq<Seq<char>>,
    n: int,
)
    requires
        1 < n <= keys.len(),
        is_plain(keys[n - 1]),
    ensures
        seq!['{'] + members_text(members, keys.take(n)) == seq!['{'] + members_text(
            members,
            keys.take(n - 1),
        ) + (seq![',', '"'] + keys[n - 1] + seq!['"', ':']) + members[keys[n - 1]],
{
    members_follow_each_other(members, keys, n);
    plain_text_is_not_escaped(keys[n - 1]);
    assert(seq!['{'] + members_text(members, keys.take(n)) =~= seq!['{'] + members_text(
        members,
        keys.take(n - 1),
    ) + (seq![',', '"'] + keys[n - 1] + seq!['"', ':']) + members[keys[n - 1]]);
}

/// Whether `text` holds no quotes, backslashes and characters below the space.
pub open spec fn is_plain(text: Seq<char>) -> bool {
    forall|i: int|
        0 <= i < text.len() ==> ' ' <= #[trigger] text[i] && text[i] != '"' && text[i] != '\\'
}

/// A text without quotes, backslashes and characters below the space is written as it is.
pub proof fn plain_text_is_not_escaped(text: Seq<char>)
    requires
        is_plain(text),
    ensures
        escaped(text) == text,
        json_string(text) == seq!['"'] + text.push('"'),
    decreases text.len(),
{
    if text.len() > 0 {
        plain_text_is_not_escaped(text.drop_last());
        assert(text =~= text.drop_last() + seq![text.last()]);
    } else {
        assert(escaped(text) =~= text);
    }
}

/// The decimal digits of a number, without leading zeros.
pub open spec fn decimal(n: nat) -> Seq<char>
    decreases n,
{
    let digit = ('0' as u32 + n % 10) as char;
    if n < 10 {
        seq![digit]
    } else {
        decimal(n / 10).push(digit)
    }
}

/// `serde_json::Map::new`: an object without members.
#[verifier::external_body]
fn map_new() -> (object: serde_json::Map<String, serde_json::Value>)
    ensures
        object_members(object) =~= map![],
{
    serde_json::Map::new()
}

/// `serde_json::Map::insert` of a string: the member `key` has that string now, whatever it
/// had before, and the others are as they were. In the text of a string quotes, backslashes and
/// the characters below the space are escaped, and no others.
#[verifier::external_body]
fn map_insert_string(
    object: &mut serde_json::Map<String, serde_json::Value>,
    key: &str,
    text: &str,
)
    ensures
        object_members(*final(object)) == object_members(*old(object)).insert(
            key@,
            json_string(text@),
        ),
{
    object.insert(key.to_string(), serde_json::Value::String(text.to_string()));
}

/// `serde_json::Map::insert` of a number: the member `key` has that number now, whatever it
/// had before, and the others are as they were.
#[verifier::external_body]
fn map_insert_number(
    object: &mut serde_json::Map<String, serde_json::Value>,
    key: &str,
    number: u64,
)
    ensures
        object_members(*final(object)) == object_members(*old(object)).insert(
            key@,
            decimal(number as nat),
        ),
{
    object.insert(key.to_string(), serde_json::Value::from(number));
}

/// `serde_json::Map::insert` of `null`: the member `key` is `null` now, whatever it was before,
/// and the others are as they were.
#[verifier::external_body]
fn map_insert_null(object: &mut serde_json::Map<String, serde_json::Value>, key: &str)
    ensures
        object_members(*final(object)) == object_members(*old(object)).insert(key@, "null"@),
{
    object.insert(key.to_string(), serde_json::Value::Null);
}

/// `serde_json::Map::insert` of an object: the member `key` is that object now, whatever it was
/// before, and the others are as they were. Its text is compact, too.
#[verifier::external_body]
fn map_insert_object(
    object: &mut serde_json::Map<String, serde_json::Value>,
    key: &str,
    inner: serde_json::Map<String, serde_json::Value>,
)
    ensures
        object_members(*final(object)) == object_members(*old(object)).insert(
            key@,
            json_object(object_members(inner)),
        ),
{
    object.insert(key.to_string(), serde_json::Value::Object(inner));
}

/// `to_string` of a `serde_json::Value`: the compact text of the object. A `serde_json::Map` keeps
/// its members in the ascending order of their keys, and so they are written.
#[verifier::external_body]
fn object_to_string(object: serde_json::Map<String, serde_json::Value>) -> (text: String)
    ensures
        text@ == json_object(object_members(object)),
{
    serde_json::Value::Object(object).to_string()
}

/// A JSON object in the making.
pub struct JsonObject {
    members: serde_json::Map<String, serde_json::Value>,
}

impl View for JsonObject {
    type V = Map<Seq<char>, Seq<char>>;

    closed spec fn view(&self) -> Map<Seq<char>, Seq<char>> {
        object_members(self.members)
    }
}

/// The text of an optional string: `null` where there is none.
pub open spec fn string_or_null(text: Option<Seq<char>>) -> Seq<char> {
    match text {
        Some(text) => json_string(text),
        None => "null"@,
    }
}

/// The text of an optional number: `null` where there is none.
pub open spec fn number_or_null(number: Option<u32>) -> Seq<char> {
    match number {
        Some(number) => decimal(number as nat),
        None => "null"@,
    }
}

impl JsonObject {
    /// An object without members.
    pub fn new() -> (r: JsonObject)
        ensures
            r@ == Map::<Seq<char>, Seq<char>>::empty(),
    {
        JsonObject { members: map_new() }
    }

    /// Sets a member to a string.
    pub fn set_string(&mut self, key: &str, text: &str)
        ensures
            final(self)@ == old(self)@.insert(key@, json_string(text@)),
    {
        map_insert_string(&mut self.members, key, text);
    }

    /// Sets a member to a string, or to `null` where there is none.
    pub fn set_optional_string(&mut self, key: &str, text: &Option<String>)
        ensures
            final(self)@ == old(self)@.insert(
                key@,
                string_or_null(crate::task::optional_text(*text)),
            ),
    {
        match text {
            Some(text) => map_insert_string(&mut self.members, key, text.as_str()),
            None => map_insert_null(&mut self.members, key),
        }
    }

    /// Sets a member to a number.
    pub fn set_number(&mut self, key: &str, number: u64)
        ensures
            final(self)@ == old(self)@.insert(key@, decimal(number as nat)),
    {
        map_insert_number(&mut self.members, key, number);
    }

    /// Sets a member to a number, or to `null` where there is none.
    pub fn set_optional_number(&mut self, key: &str, number: Option<u32>)
        ensures
            final(self)@ == old(self)@.insert(key@, number_or_null(number)),
    {
        match number {
            Some(number) => map_insert_number(&mut self.members, key, number as u64),
            None => map_insert_null(&mut self.members, key),
        }
    }

    /// Sets a member to an object.
    pub fn set_object(&mut self, key: &str, inner: JsonObject)
        ensures
            final(self)@ == old(self)@.insert(key@, json_object(inner@)),
    {
        map_insert_object(&mut self.members, key, inner.members);
    }

    /// The compact text of the object.
    pub fn into_text(self) -> (text: String)
        ensures
            text@ == json_object(self@),
    {
        object_to_string(self.members)
    }
}

} // verus!
