//! The envelope for every event pushed to a client, and its wire format.

use vstd::prelude::*;
use std::time::Duration;
use crate::text::{decimal, escaped, push_decimal, push_escaped};

verus! {

/// The kind of event an envelope carries; it names the key of the payload
/// on the wire.
#[derive(Clone, Copy, Debug, PartialEq, Eq, Structural)]
pub enum SendableType {
    Message,
    Read,
    Banner,
    Reaction,
}

impl SendableType {
    /// The key under which a payload of this kind travels.
    pub open spec fn name(self) -> Seq<char> {
        match self {
            SendableType::Message => "message"@,
            SendableType::Read => "read"@,
            SendableType::Banner => "banner"@,
            SendableType::Reaction => "reaction"@,
        }
    }

    pub fn to_string(&self) -> (s: String)
        ensures
            s@ == self.name(),
    {
        match self {
            SendableType::Message => String::from_str("message"),
            SendableType::Read => String::from_str("read"),
            SendableType::Banner => String::from_str("banner"),
            SendableType::Reaction => String::from_str("reaction"),
        }
    }
}

/// One event on its way to a client: a kind, a payload that is already
/// rendered as JSON, and the time it was produced, if known.
#[derive(Debug)]
pub struct Sendable {
    pub sendable_type: SendableType,
    pub data: String,
    pub timestamp: Option<u128>,
}

impl Clone for Sendable {
    fn clone(&self) -> (copy: Self)
        ensures
            copy == *self,
    {
        Sendable {
            sendable_type: self.sendable_type,
            data: self.data.clone(),
            timestamp: self.timestamp,
        }
    }
}

/// The text that ends every frame on the stream.
pub open spec fn delimiter() -> Seq<char> {
    "|endmessage|"@
}

impl Sendable {
    /// The envelope as one JSON object: the kind's key with the payload, then
    /// the timestamp as a sibling key where there is one.
    pub open spec fn wire(&self) -> Seq<char> {
        match self.timestamp {
            Some(t) => "{\""@ + self.sendable_type.name() + "\":"@ + self.data@
                + ", \"timestamp\":"@ + decimal(t as nat) + "}"@,
            None => "{\""@ + self.sendable_type.name() + "\":"@ + self.data@ + "}"@,
        }
    }

    pub fn to_string(&self) -> (s: String)
        ensures
            s@ == self.wire(),
    {
        let mut s = String::from_str("{\"");
        let name = self.sendable_type.to_string();
        s.append(name.as_str());
        s.append("\":");
        s.append(self.data.as_str());
        match self.timestamp {
            Some(t) => {
                s.append(", \"timestamp\":");
                push_decimal(&mut s, t);
            },
            None => {},
        }
        s.append("}");
        s
    }

    /// The envelope followed by the frame delimiter, as it is written to a stream.
    pub fn frame(&self) -> (s: String)
        ensures
            s@ == self.wire() + delimiter(),
    {
        let mut s = self.to_string();
        s.append("|endmessage|");
        s
    }

    pub fn new(sendable_type: SendableType, data: String, timestamp: Option<u128>) -> (s: Self)
        ensures
            s == (Sendable { sendable_type, data, timestamp }),
    {
        Self { sendable_type, data, timestamp }
    }
}

/// Payload of a banner: `{"text":"<text>", "chat": <chat>, "id": <id>}`,
/// with the text as it stands inside a JSON string.
pub open spec fn banner_payload(text: Seq<char>, chat: u32, id: u32) -> Seq<char> {
    "{\"text\":\""@ + escaped(text) + "\", \"chat\": "@ + decimal(chat as nat) + ", \"id\": "@
        + decimal(id as nat) + "}"@
}

/// Payload of a receipt:
/// `{"status":"<status>", "message":{"id":<message>, "chat":<chat>}, "from":"<user>"}`,
/// with the status and the username as they stand inside a JSON string.
pub open spec fn read_payload(
    status: Seq<char>,
    username: Seq<char>,
    messageid: u32,
    chatid: u32,
) -> Seq<char> {
    "{\"status\":\""@ + escaped(status) + "\", \"message\":{\"id\":"@ + decimal(
        messageid as nat,
    ) + ", \"chat\":"@ + decimal(chatid as nat) + "}, \"from\":\""@ + escaped(username)
        + "\"}"@
}

/// Payload of a reaction:
/// `{"emoji":"<emoji>", "message":<message>, "from":"<user>", "chat":<chat>}`,
/// with the emoji and the username as they stand inside a JSON string.
pub open spec fn reaction_payload(
    emoji: Seq<char>,
    username: Seq<char>,
    messageid: u32,
    chatid: u32,
) -> Seq<char> {
    "{\"emoji\":\""@ + escaped(emoji) + "\", \"message\":"@ + decimal(messageid as nat)
        + ", \"from\":\""@ + escaped(username) + "\", \"chat\":"@ + decimal(chatid as nat)
        + "}"@
}

/// A banner for `chat` produced at `timestamp`.
pub fn banner_at(text: &str, chat: u32, id: u32, timestamp: Option<u128>) -> (s: Sendable)
    ensures
        s.sendable_type == SendableType::Banner,
        s.data@ == banner_payload(text@, chat, id),
        s.timestamp == timestamp,
{
    let mut data = String::from_str("{\"text\":\"");
    push_escaped(&mut data, text);
    data.append("\", \"chat\": ");
    push_decimal(&mut data, chat as u128);
    data.append(", \"id\": ");
    push_decimal(&mut data, id as u128);
    data.append("}");
    Sendable::new(SendableType::Banner, data, timestamp)
}

/// A receipt from `username` for a message, produced at `timestamp`.
pub fn read_at(
    status: &str,
    username: &str,
    messageid: u32,
    chatid: u32,
    timestamp: Option<u128>,
) -> (s: Sendable)
    ensures
        s.sendable_type == SendableType::Read,
        s.data@ == read_payload(status@, username@, messageid, chatid),
        s.timestamp == timestamp,
{
    let mut data = String::from_str("{\"status\":\"");
    push_escaped(&mut data, status);
    data.append("\", \"message\":{\"id\":");
    push_decimal(&mut data, messageid as u128);
    data.append(", \"chat\":");
    push_decimal(&mut data, chatid as u128);
    data.append("}, \"from\":\"");
    push_escaped(&mut data, username);
    data.append("\"}");
    Sendable::new(SendableType::Read, data, timestamp)
}

/// A reaction from `username` to a message, produced at `timestamp`.
pub fn reaction_at(
    emoji: &str,
    username: &str,
    messageid: u32,
    chatid: u32,
    timestamp: Option<u128>,
) -> (s: Sendable)
    ensures
        s.sendable_type == SendableType::Reaction,
        s.data@ == reaction_payload(emoji@, username@, messageid, chatid),
        s.timestamp == timestamp,
{
    let mut data = String::from_str("{\"emoji\":\"");
    push_escaped(&mut data, emoji);
    data.append("\", \"message\":");
    push_decimal(&mut data, messageid as u128);
    data.append(", \"from\":\"");
    push_escaped(&mut data, username);
    data.append("\", \"chat\":");
    push_decimal(&mut data, chatid as u128);
    data.append("}");
    Sendable::new(SendableType::Reaction, data, timestamp)
}

/// `std::time::SystemTime::elapsed` on `std::time::UNIX_EPOCH`: the time that
/// has passed since the epoch by the system clock, or `None` where the clock
/// reads earlier than the epoch. Nothing is claimed of the reading.
#[verifier::external_body]
fn since_epoch() -> (elapsed: Option<Duration>) {
    match std::time::UNIX_EPOCH.elapsed() {
        Ok(elapsed) => Some(elapsed),
        Err(_) => None,
    }
}

/// `core::time::Duration::as_millis`: the whole milliseconds in a duration.
/// A duration is opaque here, so nothing is claimed of the number.
pub assume_specification[ Duration::as_millis ](duration: &Duration) -> (millis: u128)
;

/// The system clock's reading in milliseconds since the epoch; `None` where
/// the clock reads earlier than the epoch.
pub fn now_millis() -> (timestamp: Option<u128>) {
    match since_epoch() {
        Some(elapsed) => Some(elapsed.as_millis()),
        None => None,
    }
}

/// A banner for `chat`, stamped with the system clock's reading.
pub fn banner(text: String, chat: u32, id: u32) -> (s: Sendable)
    ensures
        s.sendable_type == SendableType::Banner,
        s.data@ == banner_payload(text@, chat, id),
{
    banner_at(text.as_str(), chat, id, now_millis())
}

/// A receipt from `username`, stamped with the system clock's reading.
pub fn read(status: String, username: String, messageid: u32, chatid: u32) -> (s: Sendable)
    ensures
        s.sendable_type == SendableType::Read,
        s.data@ == read_payload(status@, username@, messageid, chatid),
{
    read_at(status.as_str(), username.as_str(), messageid, chatid, now_millis())
}

/// A reaction from `username`, stamped with the system clock's reading.
pub fn reaction(emoji: String, username: String, messageid: u32, chatid: u32) -> (s: Sendable)
    ensures
        s.sendable_type == SendableType::Reaction,
        s.data@ == reaction_payload(emoji@, username@, messageid, chatid),
{
    reaction_at(emoji.as_str(), username.as_str(), messageid, chatid, now_millis())
}

} // verus!
