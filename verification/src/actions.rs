//! Fanning an event out to its recipients.

use vstd::prelude::*;
use crate::message::Message;
use crate::sendables::{Sendable, SendableType};
use crate::server::Server;
use crate::state::{lemma_answered_start, lemma_answered_step};
use crate::user::UserIdentifier;

verus! {

/// Delivers `sendable` to each of `users` in turn: to every live channel of
/// the user, and to the user's queue where no channel took it. For each
/// user the answers of their channels come back, in the order of `users`:
/// one answer from each channel that the user had when their turn came.
pub fn send_sendable(
    sendable: Sendable,
    users: &Vec<UserIdentifier>,
    server: &mut Server,
) -> (report: Vec<Vec<bool>>)
    requires
        old(server).wf(),
    ensures
        final(server).wf(),
        old(server)@.answered(sendable, users@, report@),
        final(server)@ == old(server)@.fanned_out(sendable, users@, report@),
{
    let ghost before = server@;
    let mut report: Vec<Vec<bool>> = Vec::new();
    let mut i: usize = 0;
    proof {
        lemma_answered_start(before, sendable, users@);
    }
    while i < users.len()
        invariant
            server.wf(),
            i <= users@.len(),
            before.answered(sendable, users@.take(i as int), report@),
            server@ == before.fanned_out(sendable, users@.take(i as int), report@),
        decreases users@.len() - i,
    {
        let ghost answers = report@;
        let accepted = server.deliver(&users[i], &sendable);
        report.push(accepted);
        proof {
            lemma_answered_step(before, sendable, users@, i as int, answers, accepted);
        }
        i = i + 1;
    }
    assert(users@.take(i as int) =~= users@);
    report
}

/// The event that carries a chat message whose JSON rendering is `payload`.
pub open spec fn message_sendable(payload: String) -> Sendable {
    Sendable { sendable_type: SendableType::Message, data: payload, timestamp: None }
}

/// Delivers the chat message `message`, whose JSON rendering is `payload`,
/// to `to_user`: to every live channel of the user, and to the messages
/// that wait to be acknowledged where no channel took it. In any case the
/// message is appended to the user's mailbox. The answers of the channels
/// come back.
pub fn send_message(
    message: Message,
    payload: String,
    to_user: UserIdentifier,
    server: &mut Server,
) -> (accepted: Vec<bool>)
    requires
        old(server).wf(),
    ensures
        final(server).wf(),
        accepted@.len() == old(server)@.channels[to_user@].len(),
        final(server)@ == old(server)@.message_sent(
            to_user@,
            message,
            message_sendable(payload),
            accepted@,
        ),
{
    let sendable = Sendable::new(SendableType::Message, payload, None);
    server.deliver_message(to_user, message, sendable)
}

} // verus!
