//! The chat record and its frame: one line of JSON, an object with the three
//! text fields `sender`, `send_time` and `message`.

use crate::json::{json_object, json_string, parse_object, quote};
use vstd::prelude::*;
use vstd::utf8::encode_utf8;

verus! {

/// One chat record.
#[derive(Clone, Debug, PartialEq, Eq)]
pub struct Message {
    pub sender: String,
    pub send_time: String,
    pub message: String,
}

/// A chat record as plain text.
pub ghost struct Record {
    pub sender: Seq<char>,
    pub send_time: Seq<char>,
    pub message: Seq<char>,
}

impl View for Message {
    type V = Record;

    open spec fn view(&self) -> Record {
        Record { sender: self.sender@, send_time: self.send_time@, message: self.message@ }
    }
}

/// The text held under `name` by the first entry of that name, or nothing
/// where no entry has the name or the first that has it holds no text.
pub open spec fn text_field(
    entries: Seq<(Seq<char>, Option<Seq<char>>)>,
    name: Seq<char>,
) -> Option<Seq<char>>
    decreases entries.len(),
{
    if entries.len() == 0 {
        None
    } else if entries.first().0 == name {
        entries.first().1
    } else {
        text_field(entries.drop_first(), name)
    }
}

/// The record that an object's entries make up: all three fields must be
/// there and hold text. Other entries are ignored.
pub open spec fn record_of(entries: Seq<(Seq<char>, Option<Seq<char>>)>) -> Option<Record> {
    match (
        text_field(entries, "sender"@),
        text_field(entries, "send_time"@),
        text_field(entries, "message"@),
    ) {
        (Some(sender), Some(send_time), Some(message)) => Some(
            Record { sender, send_time, message },
        ),
        _ => None,
    }
}

/// The record that a line holds, if it holds one.
pub open spec fn decoded(line: Seq<char>) -> Option<Record> {
    match json_object(line) {
        Some(entries) => record_of(entries),
        None => None,
    }
}

/// The line that carries a record, given its three fields as JSON strings.
pub open spec fn framed(sender: Seq<char>, send_time: Seq<char>, message: Seq<char>) -> Seq<
    char,
> {
    "{\"sender\":"@ + sender + ",\"send_time\":"@ + send_time + ",\"message\":"@ + message + "}"@
}

/// The line that carries a record, or nothing where a field cannot be
/// written as a JSON string.
pub open spec fn encoded(record: Record) -> Option<Seq<char>> {
    match (
        json_string(record.sender),
        json_string(record.send_time),
        json_string(record.message),
    ) {
        (Some(sender), Some(send_time), Some(message)) => Some(
            framed(sender, send_time, message),
        ),
        _ => None,
    }
}

/// Looks a text field up among an object's entries.
pub fn find_text<'a>(entries: &'a Vec<(String, Option<String>)>, name: &str) -> (text: Option<
    &'a String,
>)
    ensures
        text.deep_view() == text_field(entries.deep_view(), name@),
{
    let wanted = name.to_owned();
    let mut at: usize = 0;
    proof {
        let all = entries.deep_view();
        assert(all.subrange(0, all.len() as int) == all);
    }
    while at < entries.len()
        invariant
            at <= entries.len(),
            wanted@ == name@,
            text_field(entries.deep_view(), name@) == text_field(
                entries.deep_view().subrange(at as int, entries.len() as int),
                name@,
            ),
        decreases entries.len() - at,
    {
        proof {
            let rest = entries.deep_view().subrange(at as int, entries.len() as int);
            assert(rest.drop_first() == entries.deep_view().subrange(
                at + 1,
                entries.len() as int,
            ));
        }
        if entries[at].0 == wanted {
            return entries[at].1.as_ref();
        }
        at += 1;
    }
    None
}

/// The record that an object's entries make up.
pub fn message_from_entries(entries: &Vec<(String, Option<String>)>) -> (message: Option<Message>)
    ensures
        message is Some <==> record_of(entries.deep_view()) is Some,
        message matches Some(m) ==> Some(m@) == record_of(entries.deep_view()),
{
    let sender = match find_text(entries, "sender") {
        Some(text) => text.clone(),
        None => { return None; },
    };
    let send_time = match find_text(entries, "send_time") {
        Some(text) => text.clone(),
        None => { return None; },
    };
    let message = match find_text(entries, "message") {
        Some(text) => text.clone(),
        None => { return None; },
    };
    Some(Message { sender, send_time, message })
}

impl Message {
    /// Decodes a line. Nothing comes back where the line is not a JSON object
    /// with the three text fields.
    pub fn from_line(line: &str) -> (message: Option<Message>)
        ensures
            message is Some <==> decoded(line@) is Some,
            message matches Some(m) ==> Some(m@) == decoded(line@),
    {
        match parse_object(line) {
            Some(entries) => message_from_entries(&entries),
            None => None,
        }
    }

    /// Encodes the record as one line, without the line feed that ends it.
    pub fn to_line(&self) -> (line: Option<String>)
        ensures
            line.deep_view() == encoded(self@),
            line matches Some(text) ==> !text@.contains('\n'),
    {
        let sender = match quote(self.sender.as_str()) {
            Some(written) => written,
            None => { return None; },
        };
        let send_time = match quote(self.send_time.as_str()) {
            Some(written) => written,
            None => { return None; },
        };
        let message = match quote(self.message.as_str()) {
            Some(written) => written,
            None => { return None; },
        };
        Some(frame_fields(sender.as_str(), send_time.as_str(), message.as_str()))
    }
}

/// Puts three fields, already written as JSON strings, into the object that
/// is the frame.
pub fn frame_fields(sender: &str, send_time: &str, message: &str) -> (line: String)
    ensures
        line@ == framed(sender@, send_time@, message@),
        !sender@.contains('\n') && !send_time@.contains('\n') && !message@.contains('\n')
            ==> !line@.contains('\n'),
{
    let mut line = "{\"sender\":".to_owned();
    line.append(sender);
    line.append(",\"send_time\":");
    line.append(send_time);
    line.append(",\"message\":");
    line.append(message);
    line.append("}");
    proof {
        reveal_strlit("{\"sender\":");
        reveal_strlit(",\"send_time\":");
        reveal_strlit(",\"message\":");
        reveal_strlit("}");
    }
    line
}

/// The byte that ends a frame on the wire.
pub const LINE_END: u8 = 10;

/// The bytes that carry a line on the wire: its UTF-8, then the line feed.
pub open spec fn wire_bytes(line: Seq<char>) -> Seq<u8> {
    encode_utf8(line).push(LINE_END)
}

/// The bytes that a writer sends for a line.
pub fn wire_frame(line: &str) -> (bytes: Vec<u8>)
    ensures
        bytes@ == wire_bytes(line@),
{
    let mut bytes = line.as_bytes_vec();
    bytes.push(LINE_END);
    bytes
}

/// Whether a line holds a record.
pub fn is_record(line: &str) -> (held: bool)
    ensures
        held == decoded(line@) is Some,
{
    Message::from_line(line).is_some()
}

} // verus!
