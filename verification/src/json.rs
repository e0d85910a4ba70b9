//! JSON documents, and the members of them that the watcher reads.
//!
//! `serde_json` does the parsing. A parsed document is modelled as a tree of `Json`; everything
//! that is taken out of it is plain text.
use vstd::prelude::*;

use crate::text;

verus! {

/// A JSON value. What a number says plays no part here.
pub enum Json {
    Null,
    Bool(bool),
    Number,
    Text(Seq<char>),
    Array(Seq<Json>),
    Object(Map<Seq<char>, Json>),
}

/// The member of an object under a key.
pub open spec fn member_of(value: Json, key: Seq<char>) -> Option<Json> {
    match value {
        Json::Object(members) => if members.contains_key(key) {
            Some(members[key])
        } else {
            None
        },
        _ => None,
    }
}

/// The text of a JSON string.
pub open spec fn text_of(value: Json) -> Option<Seq<char>> {
    match value {
        Json::Text(content) => Some(content),
        _ => None,
    }
}

/// The text of the member under a key, where that member is a string.
pub open spec fn text_member(value: Json, key: Seq<char>) -> Option<Seq<char>> {
    match member_of(value, key) {
        Some(member) => text_of(member),
        None => None,
    }
}

/// `serde_json::Value`, a parsed JSON document.
#[verifier::external_type_specification]
#[verifier::external_body]
pub struct ExValue(serde_json::Value);

/// `serde_json::Error`, why a text is not a JSON document.
#[verifier::external_type_specification]
#[verifier::external_body]
pub struct ExError(serde_json::Error);

/// What a `serde_json::Value` holds.
pub uninterp spec fn contents(value: serde_json::Value) -> Json;

/// What `serde_json::from_str` makes of a text: the document that it is, or nothing where it is
/// not one.
pub uninterp spec fn document(text: Seq<char>) -> Option<Json>;

/// `serde_json::from_str`, for a document of any shape. The result depends on the text alone:
/// the text is a document, and its contents come back, or it is not, and an error does.
#[verifier::external_body]
fn parse(text: &str) -> (result: Result<serde_json::Value, serde_json::Error>)
    ensures
        result is Ok <==> document(text@) is Some,
        result matches Ok(value) ==> document(text@) == Some(contents(value)),
{
    serde_json::from_str::<serde_json::Value>(text)
}

/// `serde_json::Value::get` with a string as the index: the member of an object under that key,
/// and nothing where there is no such member or the value is no object.
#[verifier::external_body]
fn member<'a>(value: &'a serde_json::Value, key: &str) -> (result: Option<&'a serde_json::Value>)
    ensures
        result is Some <==> member_of(contents(*value), key@) is Some,
        result matches Some(found) ==> member_of(contents(*value), key@) == Some(contents(*found)),
{
    value.get(key)
}

/// `serde_json::Value::as_str`: the text of a string, and nothing for any other value.
pub assume_specification[ serde_json::Value::as_str ](value: &serde_json::Value) -> (result: Option<
    &str,
>)
    ensures
        result is Some <==> text_of(contents(*value)) is Some,
        result matches Some(found) ==> text_of(contents(*value)) == Some(found@),
;

/// `serde_json::Value::is_object`: whether the value is an object.
pub assume_specification[ serde_json::Value::is_object ](value: &serde_json::Value) -> (result:
    bool)
    ensures
        result == (contents(*value) is Object),
;

/// One line of a session log, as far as the watcher reads it.
#[derive(Debug)]
pub struct Entry {
    pub kind: Option<String>,
    pub timestamp: Option<String>,
    pub payload: Option<Payload>,
}

/// The payload of a log line, where it is an object.
#[derive(Debug)]
pub struct Payload {
    pub kind: Option<String>,
    pub id: Option<String>,
    pub cwd: Option<String>,
    pub name: Option<String>,
    pub call_id: Option<String>,
    pub arguments: Option<String>,
}

/// The arguments of a tool call.
#[derive(Debug)]
pub struct Arguments {
    pub sandbox_permissions: Option<String>,
    pub justification: Option<String>,
    pub cmd: Option<String>,
}

/// What an `Entry` holds, as text.
#[verifier::ext_equal]
pub struct EntryView {
    pub kind: Option<Seq<char>>,
    pub timestamp: Option<Seq<char>>,
    pub payload: Option<PayloadView>,
}

/// What a `Payload` holds, as text.
#[verifier::ext_equal]
pub struct PayloadView {
    pub kind: Option<Seq<char>>,
    pub id: Option<Seq<char>>,
    pub cwd: Option<Seq<char>>,
    pub name: Option<Seq<char>>,
    pub call_id: Option<Seq<char>>,
    pub arguments: Option<Seq<char>>,
}

/// What `Arguments` hold, as text.
#[verifier::ext_equal]
pub struct ArgumentsView {
    pub sandbox_permissions: Option<Seq<char>>,
    pub justification: Option<Seq<char>>,
    pub cmd: Option<Seq<char>>,
}

impl View for Entry {
    type V = EntryView;

    open spec fn view(&self) -> EntryView {
        EntryView {
            kind: text::optional_text(self.kind),
            timestamp: text::optional_text(self.timestamp),
            payload: match self.payload {
                Some(payload) => Some(payload@),
                None => None,
            },
        }
    }
}

impl View for Payload {
    type V = PayloadView;

    open spec fn view(&self) -> PayloadView {
        PayloadView {
            kind: text::optional_text(self.kind),
            id: text::optional_text(self.id),
            cwd: text::optional_text(self.cwd),
            name: text::optional_text(self.name),
            call_id: text::optional_text(self.call_id),
            arguments: text::optional_text(self.arguments),
        }
    }
}

impl View for Arguments {
    type V = ArgumentsView;

    open spec fn view(&self) -> ArgumentsView {
        ArgumentsView {
            sandbox_permissions: text::optional_text(self.sandbox_permissions),
            justification: text::optional_text(self.justification),
            cmd: text::optional_text(self.cmd),
        }
    }
}

/// The payload that an object stands for.
pub open spec fn payload_of(value: Json) -> PayloadView {
    PayloadView {
        kind: text_member(value, "type"@),
        id: text_member(value, "id"@),
        cwd: text_member(value, "cwd"@),
        name: text_member(value, "name"@),
        call_id: text_member(value, "call_id"@),
        arguments: text_member(value, "arguments"@),
    }
}

/// The entry that a JSON object stands for. A payload that is no object is no payload.
pub open spec fn entry_of(value: Json) -> EntryView {
    EntryView {
        kind: text_member(value, "type"@),
        timestamp: text_member(value, "timestamp"@),
        payload: match member_of(value, "payload"@) {
            Some(payload) => if payload is Object {
                Some(payload_of(payload))
            } else {
                None
            },
            None => None,
        },
    }
}

/// The entry that a log line holds: nothing unless the line is a JSON object.
pub open spec fn line_entry(line: Seq<char>) -> Option<EntryView> {
    match document(line) {
        Some(value) => if value is Object {
            Some(entry_of(value))
        } else {
            None
        },
        None => None,
    }
}

/// The tool-call arguments that a JSON value stands for.
pub open spec fn arguments_of(value: Json) -> ArgumentsView {
    ArgumentsView {
        sandbox_permissions: text_member(value, "sandbox_permissions"@),
        justification: text_member(value, "justification"@),
        cmd: text_member(value, "cmd"@),
    }
}

/// The tool-call arguments that a text holds: nothing unless the text is a JSON document.
pub open spec fn text_arguments(raw: Seq<char>) -> Option<ArgumentsView> {
    match document(raw) {
        Some(value) => Some(arguments_of(value)),
        None => None,
    }
}

/// The text of a string member.
fn string_member(value: &serde_json::Value, key: &str) -> (result: Option<String>)
    ensures
        text::optional_text(result) == text_member(contents(*value), key@),
{
    match member(value, key) {
        Some(found) => match found.as_str() {
            Some(content) => Some(content.to_string()),
            None => None,
        },
        None => None,
    }
}

/// Parses one line of a session log; anything but a JSON object is no entry.
pub fn parse_json_line(line: &str) -> (result: Option<Entry>)
    ensures
        result is Some <==> line_entry(line@) is Some,
        result matches Some(entry) ==> line_entry(line@) == Some(entry@),
{
    let value = match parse(line) {
        Ok(value) => value,
        Err(_) => {
            return None;
        },
    };
    if !value.is_object() {
        return None;
    }
    let payload = match member(&value, "payload") {
        Some(found) => if found.is_object() {
            Some(
                Payload {
                    kind: string_member(found, "type"),
                    id: string_member(found, "id"),
                    cwd: string_member(found, "cwd"),
                    name: string_member(found, "name"),
                    call_id: string_member(found, "call_id"),
                    arguments: string_member(found, "arguments"),
                },
            )
        } else {
            None
        },
        None => None,
    };
    let entry = Entry {
        kind: string_member(&value, "type"),
        timestamp: string_member(&value, "timestamp"),
        payload,
    };
    assert(entry@ =~= entry_of(contents(value)));
    Some(entry)
}

/// Parses the arguments of a tool call; a text that is no JSON document holds none.
pub fn parse_arguments(raw: &str) -> (result: Option<Arguments>)
    ensures
        result is Some <==> text_arguments(raw@) is Some,
        result matches Some(arguments) ==> text_arguments(raw@) == Some(arguments@),
{
    match parse(raw) {
        Ok(value) => {
            let arguments = Arguments {
                sandbox_permissions: string_member(&value, "sandbox_permissions"),
                justification: string_member(&value, "justification"),
                cmd: string_member(&value, "cmd"),
            };
            assert(arguments@ =~= arguments_of(contents(value)));
            Some(arguments)
        },
        Err(_) => None,
    }
}

} // verus!
