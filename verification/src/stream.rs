//! What a connection task writes to its client: the replay, then on every
//! tick the event that arrived or, after a quiet while, a heartbeat.

use vstd::prelude::*;
use crate::sendables::{delimiter, Sendable};

verus! {

/// The heartbeat as it is written to a stream.
pub open spec fn ping_text() -> Seq<char> {
    "{\"server\":\"ping\"}|endmessage|"@
}

/// What a client is sent, once, where its token is not valid.
pub open spec fn invalid_token_text() -> Seq<char> {
    "{\"server_reponse\":\"invalid token\"}|endmessage|"@
}

pub fn ping_frame() -> (frame: String)
    ensures
        frame@ == ping_text(),
{
    String::from_str("{\"server\":\"ping\"}|endmessage|")
}

pub fn invalid_token_frame() -> (frame: String)
    ensures
        frame@ == invalid_token_text(),
{
    String::from_str("{\"server_reponse\":\"invalid token\"}|endmessage|")
}

/// The frames of `events`, one behind the other.
pub open spec fn frames(events: Seq<Sendable>) -> Seq<char>
    decreases events.len(),
{
    if events.len() == 0 {
        Seq::empty()
    } else {
        frames(events.drop_last()) + events.last().wire() + delimiter()
    }
}

/// The replay as it is written to a stream: every event with the delimiter
/// behind it, in order.
pub fn replay_frames(replay: &Vec<Sendable>) -> (out: String)
    ensures
        out@ == frames(replay@),
{
    let mut out = String::new();
    let mut i: usize = 0;
    while i < replay.len()
        invariant
            i <= replay@.len(),
            out@ == frames(replay@.take(i as int)),
        decreases replay@.len() - i,
    {
        let frame = replay[i].frame();
        out.append(frame.as_str());
        proof {
            assert(replay@.take(i + 1).drop_last() =~= replay@.take(i as int));
            assert(out@ =~= frames(replay@.take(i + 1)));
        }
        i = i + 1;
    }
    assert(replay@.take(i as int) =~= replay@);
    out
}

/// The clock of one connection: how many ticks have passed without a frame,
/// and after how many a heartbeat is due.
pub struct Heartbeat {
    pub idle: u32,
    pub window: u32,
}

impl Heartbeat {
    /// Whether a tick without an event writes a heartbeat.
    pub open spec fn due(&self) -> bool {
        self.idle + 1 >= self.window
    }

    /// The clock of a fresh connection: the first quiet tick writes a
    /// heartbeat.
    pub fn new(window: u32) -> (clock: Self)
        ensures
            clock.window == window,
            clock.idle == window,
            clock.due(),
    {
        Heartbeat { idle: window, window }
    }

    /// One tick. Where an event arrived, its frame is written; else, where
    /// the window has passed without a frame, a heartbeat; else nothing.
    /// The count of quiet ticks starts anew with every frame.
    pub fn tick(&mut self, arrived: Option<&Sendable>) -> (frame: Option<String>)
        ensures
            final(self).window == old(self).window,
            match arrived {
                Some(event) => frame matches Some(text) && text@ == event.wire() + delimiter()
                    && final(self).idle == 0,
                None => if old(self).due() {
                    frame matches Some(text) && text@ == ping_text() && final(self).idle == 0
                } else {
                    frame is None && final(self).idle == old(self).idle + 1
                },
            },
    {
        match arrived {
            Some(event) => {
                self.idle = 0;
                Some(event.frame())
            },
            None => {
                if self.idle >= self.window || self.idle + 1 >= self.window {
                    self.idle = 0;
                    Some(ping_frame())
                } else {
                    self.idle = self.idle + 1;
                    None
                }
            },
        }
    }
}

} // verus!
