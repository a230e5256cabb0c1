//! The state of the backend as plain values, the steps that change it, and
//! what follows from them.

use vstd::prelude::*;
use crate::channel::{
    any_accepted, kept, lemma_kept_all, lemma_kept_any, lemma_kept_serials, serials_below,
    serials_distinct, took, DeliveryChannel,
};
use crate::message::{usernames, Chat, DeliveryStatus, Message, SendMessage};
use crate::pending::{sendables_of, without_id, PendingMessage};
use crate::sendables::Sendable;
use crate::server::{Outgoing, QueryError};
use crate::user::{UserIdentifier, UserProfile};
use crate::user_db::{DBEntry, DBEntryType, UserDBView};

verus! {

/// Everything the backend holds, as plain values.
pub struct ServerView {
    /// The live channels of each user, in the order in which they connected.
    pub channels: Map<Seq<char>, Seq<DeliveryChannel>>,
    /// How many channels were registered so far.
    pub issued: nat,
    /// The events that wait for each user, oldest first.
    pub queued: Map<Seq<char>, Seq<Sendable>>,
    /// The chat messages that each user has not acknowledged.
    pub unacknowledged: Map<Seq<char>, Seq<PendingMessage>>,
    /// The mailbox of each user.
    pub mailboxes: Map<Seq<char>, UserDBView>,
    /// The user behind each token.
    pub sessions: Map<u32, UserIdentifier>,
    /// The chats by id.
    pub chats: Map<u32, Chat>,
    /// The profile of each registered user.
    pub profiles: Map<Seq<char>, UserProfile>,
    /// The password of each registered user.
    pub passwords: Map<Seq<char>, String>,
    /// The chat that each invitation code leads to.
    pub join_codes: Map<u32, u32>,
    /// Whether a chat message that is addressed to its own sender is sent.
    pub self_delivery: bool,
    /// The id that the next message or banner of each chat gets; it rises
    /// with each of them.
    pub next_ids: Map<u32, u32>,
}

/// The mailbox entry that keeps `message`.
pub open spec fn message_entry(message: Message) -> DBEntry {
    DBEntry { message: Some(message), sendable: None, entry_type: DBEntryType::Message }
}

/// The counters of the chats after the messages of `out` were made: the
/// counter of each message's chat stands one behind the message's id.
pub open spec fn bumped(ids: Map<u32, u32>, out: Seq<Outgoing>) -> Map<u32, u32>
    decreases out.len(),
{
    if out.len() == 0 {
        ids
    } else {
        bumped(ids, out.drop_last()).insert(
            out.last().message.chat,
            (out.last().message.id + 1) as u32,
        )
    }
}

/// Whether `message` is the fresh message of id `id` that `draft` asks for,
/// sent by `from_user`.
pub open spec fn drafted_from(
    message: Message,
    id: u32,
    draft: SendMessage,
    from_user: UserIdentifier,
) -> bool {
    &&& message.id == id
    &&& message.text == draft.text
    &&& message.from_user == from_user
    &&& message.chat == draft.chat
    &&& message.timestamp == draft.timestamp
    &&& message.read == DeliveryStatus::Sent
    &&& message.reactions@ == Map::<u32, String>::empty()
}

impl ServerView {
    /// The channels of each user have serial numbers of their own, all of
    /// them issued already, and every mailbox is in order.
    pub open spec fn wf(self) -> bool {
        &&& forall|user: Seq<char>| #[trigger] serials_distinct(self.channels[user])
        &&& forall|user: Seq<char>| #[trigger] serials_below(self.channels[user], self.issued)
        &&& forall|user: Seq<char>| (#[trigger] self.mailboxes[user]).wf()
    }

    /// Whether a session has the token.
    pub open spec fn logged_in(self, token: u32) -> bool {
        self.sessions.contains_key(token)
    }

    /// The username behind `token`.
    pub open spec fn user(self, token: u32) -> Seq<char> {
        self.sessions[token]@
    }

    /// The mailbox of the user behind `token`.
    pub open spec fn mailbox(self, token: u32) -> UserDBView {
        self.mailboxes[self.user(token)]
    }

    /// The members of the chat `chatid`, in the order in which they joined.
    pub open spec fn members(self, chatid: u32) -> Seq<UserIdentifier> {
        self.chats[chatid].users@
    }

    /// Whether the user behind `token` is a member of the chat `chatid`.
    pub open spec fn in_chat(self, chatid: u32, token: u32) -> bool {
        usernames(self.members(chatid)).contains(self.user(token))
    }

    /// Why a request of `token` on the chat `chatid` is turned down, where
    /// the token is looked at first; `None` for a member of the chat.
    pub open spec fn refusal(self, chatid: u32, token: u32) -> Option<QueryError> {
        if !self.logged_in(token) {
            Some(QueryError::InvalidToken)
        } else if !self.chats.contains_key(chatid) {
            Some(QueryError::UnknownChat)
        } else if !self.in_chat(chatid, token) {
            Some(QueryError::UserNotInChat)
        } else {
            None
        }
    }

    /// Why a request of `token` on the chat `chatid` is turned down, where
    /// the chat is looked at first; `None` for a member of the chat.
    pub open spec fn chat_refusal(self, chatid: u32, token: u32) -> Option<QueryError> {
        if !self.chats.contains_key(chatid) {
            Some(QueryError::UnknownChat)
        } else if !self.logged_in(token) {
            Some(QueryError::InvalidToken)
        } else if !self.in_chat(chatid, token) {
            Some(QueryError::UserNotInChat)
        } else {
            None
        }
    }

    /// Why `token` may not change the chat `chatid`; `None` for its admin.
    pub open spec fn admin_refusal(self, chatid: u32, token: u32) -> Option<QueryError> {
        if !self.logged_in(token) {
            Some(QueryError::InvalidToken)
        } else if !self.chats.contains_key(chatid) {
            Some(QueryError::UnknownChat)
        } else if self.user(token) != self.chats[chatid].admin@ {
            Some(QueryError::NotAdmin)
        } else {
            None
        }
    }

    /// Why `token` cannot use the invitation `join_code`; `None` where the
    /// code leads to a chat and the token is valid.
    pub open spec fn invitation_refusal(self, join_code: u32, token: u32) -> Option<QueryError> {
        if !self.join_codes.contains_key(join_code) {
            Some(QueryError::NotFound)
        } else if !self.chats.contains_key(self.join_codes[join_code]) {
            Some(QueryError::UnknownChat)
        } else if !self.logged_in(token) {
            Some(QueryError::InvalidToken)
        } else {
            None
        }
    }

    /// Why the user behind `token` is not shown the log of `chat`; `None`
    /// where their mailbox has one.
    pub open spec fn log_refusal(self, token: u32, chat: u32) -> Option<QueryError> {
        if !self.logged_in(token) {
            Some(QueryError::InvalidToken)
        } else if !self.mailbox(token).logs.contains_key(chat) {
            Some(QueryError::UnknownChat)
        } else {
            None
        }
    }

    /// Why the user behind `token` is not shown the entry `id` of `chat`;
    /// `None` where their mailbox holds it.
    pub open spec fn entry_refusal(self, token: u32, chat: u32, id: u32) -> Option<QueryError> {
        if self.log_refusal(token, chat) is Some {
            self.log_refusal(token, chat)
        } else if !self.mailbox(token).logs[chat].entries.contains_key(id) {
            Some(QueryError::NotFound)
        } else {
            None
        }
    }

    /// The state in which the chat `chatid` is `chat`.
    pub open spec fn with_chat(self, chatid: u32, chat: Chat) -> Self {
        ServerView { chats: self.chats.insert(chatid, chat), ..self }
    }

    /// The state in which the profile of `user` is `profile`.
    pub open spec fn with_profile(self, user: Seq<char>, profile: UserProfile) -> Self {
        ServerView { profiles: self.profiles.insert(user, profile), ..self }
    }

    /// The state with a session of `user` under `token`.
    pub open spec fn with_session(self, token: u32, user: UserIdentifier) -> Self {
        ServerView { sessions: self.sessions.insert(token, user), ..self }
    }

    /// Whether every draft names its sender by a token that is valid.
    pub open spec fn senders_known(self, drafts: Seq<(String, SendMessage)>) -> bool {
        forall|i: int| 0 <= i < drafts.len() ==> self.logged_in((#[trigger] drafts[i]).1.from_user)
    }

    /// Whether a draft is sent: always where messages to oneself are sent,
    /// and else where it is addressed to another user than its sender.
    pub open spec fn addressed(self, draft: (String, SendMessage)) -> bool {
        self.self_delivery || draft.0@ != self.user(draft.1.from_user)
    }

    /// Whether an id is left for every draft that is sent.
    pub open spec fn ids_left(self, drafts: Seq<(String, SendMessage)>) -> bool {
        forall|i: int|
            0 <= i < drafts.len() && self.addressed(#[trigger] drafts[i])
                ==> self.next_ids[drafts[i].1.chat] < u32::MAX
    }

    /// Why a request to post `drafts` is turned down; `None` where the
    /// messages are made.
    pub open spec fn posting_refusal(
        self,
        token: u32,
        drafts: Seq<(String, SendMessage)>,
    ) -> Option<QueryError> {
        if !(self.logged_in(token) && self.senders_known(drafts)) {
            Some(QueryError::InvalidToken)
        } else if !self.ids_left(drafts) {
            Some(QueryError::Exhausted)
        } else {
            None
        }
    }

    /// Whether `out` holds the messages that the drafts ask for: one for
    /// each draft that is sent, in their order, each with the id that is
    /// next in its chat.
    pub open spec fn drafts_made(
        self,
        drafts: Seq<(String, SendMessage)>,
        out: Seq<Outgoing>,
    ) -> bool {
        let sent = drafts.filter(|d: (String, SendMessage)| self.addressed(d));
        &&& out.len() == sent.len()
        &&& forall|k: int|
            0 <= k < out.len() ==> (#[trigger] out[k]).to_user@ == sent[k].0@ && drafted_from(
                out[k].message,
                self.next_ids[sent[k].1.chat],
                sent[k].1,
                self.sessions[sent[k].1.from_user],
            )
    }

    /// The state in which the next id of `chat` is taken.
    pub open spec fn with_id_taken(self, chat: u32) -> Self {
        ServerView {
            next_ids: self.next_ids.insert(chat, (self.next_ids[chat] + 1) as u32),
            ..self
        }
    }

    /// Why the user behind `token` cannot give a receipt for the message
    /// `id` of `chat`; `None` where their mailbox holds the message.
    pub open spec fn receipt_refusal(self, token: u32, chat: u32, id: u32) -> Option<QueryError> {
        if self.entry_refusal(token, chat, id) is Some {
            self.entry_refusal(token, chat, id)
        } else if self.mailbox(token).logs[chat].entries[id].kept_message() is None {
            Some(QueryError::NotFound)
        } else {
            None
        }
    }

    /// Who sent the message `id` of `chat` that the user behind `token`
    /// holds.
    pub open spec fn sender_of(self, token: u32, chat: u32, id: u32) -> UserIdentifier {
        self.mailbox(token).logs[chat].entries[id].kept_message()->0.from_user
    }

    /// What `user` is sent on connecting: the chat messages they have not
    /// acknowledged, and behind them the events that wait for them.
    pub open spec fn replay(self, user: Seq<char>) -> Seq<Sendable> {
        sendables_of(self.unacknowledged[user]) + self.queued[user]
    }

    /// The state after `sendable` was pushed to each channel of `user` with
    /// the answers `accepted`: the channels that did not take it are gone,
    /// and where none took it, or there was none, the event waits in the
    /// user's queue.
    pub open spec fn delivered(
        self,
        user: Seq<char>,
        sendable: Sendable,
        accepted: Seq<bool>,
    ) -> Self {
        ServerView {
            channels: self.channels.insert(user, kept(self.channels[user], accepted)),
            queued: if any_accepted(accepted) {
                self.queued
            } else {
                self.queued.insert(user, self.queued[user].push(sendable))
            },
            ..self
        }
    }

    /// The state after `sendable` was delivered to each of `users` in turn,
    /// with the answers `report[i]` from the channels of `users[i]`.
    pub open spec fn fanned_out(
        self,
        sendable: Sendable,
        users: Seq<UserIdentifier>,
        report: Seq<Vec<bool>>,
    ) -> Self
        recommends
            report.len() == users.len(),
        decreases users.len(),
    {
        if users.len() == 0 {
            self
        } else {
            self.fanned_out(sendable, users.drop_last(), report.drop_last()).delivered(
                users.last()@,
                sendable,
                report.last()@,
            )
        }
    }

    /// Whether `report` holds, for each of `users` in turn, one answer from
    /// each channel that the user had when their turn came.
    pub open spec fn answered(
        self,
        sendable: Sendable,
        users: Seq<UserIdentifier>,
        report: Seq<Vec<bool>>,
    ) -> bool {
        &&& report.len() == users.len()
        &&& forall|i: int|
            0 <= i < users.len() ==> (#[trigger] report[i])@.len() == self.fanned_out(
                sendable,
                users.take(i),
                report.take(i),
            ).channels[users[i]@].len()
    }

    /// The state after the chat message `message`, rendered as `sendable`,
    /// was pushed to each channel of `user` with the answers `accepted`:
    /// where none took it, the message waits to be acknowledged; in any
    /// case it is appended to the user's mailbox.
    pub open spec fn message_sent(
        self,
        user: Seq<char>,
        message: Message,
        sendable: Sendable,
        accepted: Seq<bool>,
    ) -> Self {
        ServerView {
            channels: self.channels.insert(user, kept(self.channels[user], accepted)),
            unacknowledged: if any_accepted(accepted) {
                self.unacknowledged
            } else {
                self.unacknowledged.insert(
                    user,
                    without_id(self.unacknowledged[user], message.chat, message.id).push(
                        PendingMessage { chat: message.chat, id: message.id, sendable },
                    ),
                )
            },
            mailboxes: self.mailboxes.insert(
                user,
                self.mailboxes[user].appended(message.chat, message.id, message_entry(message)),
            ),
            ..self
        }
    }

    /// The state after `user` connected over `channel`: the channel is
    /// registered behind the user's others, and the events that waited for
    /// the user were handed out.
    pub open spec fn connected(self, user: Seq<char>, channel: DeliveryChannel) -> Self {
        ServerView {
            channels: self.channels.insert(user, self.channels[user].push(channel)),
            issued: self.issued + 1,
            queued: self.queued.insert(user, Seq::empty()),
            ..self
        }
    }

    /// The state after `user` acknowledged the message `id` of `chat`.
    pub open spec fn acknowledged(self, user: Seq<char>, chat: u32, id: u32) -> Self {
        ServerView {
            unacknowledged: self.unacknowledged.insert(
                user,
                without_id(self.unacknowledged[user], chat, id),
            ),
            ..self
        }
    }
}

/// Fanning an event out changes the channels and the queues, and nothing
/// else.
pub proof fn lemma_fanned_out_keeps(
    state: ServerView,
    sendable: Sendable,
    users: Seq<UserIdentifier>,
    report: Seq<Vec<bool>>,
)
    ensures
        state.fanned_out(sendable, users, report) == (ServerView {
            channels: state.fanned_out(sendable, users, report).channels,
            queued: state.fanned_out(sendable, users, report).queued,
            ..state
        }),
    decreases users.len(),
{
    if users.len() > 0 {
        lemma_fanned_out_keeps(state, sendable, users.drop_last(), report.drop_last());
    }
}

/// An event is queued for a user exactly where none of their channels took
/// it, be it that all failed or that there was none; and exactly then no
/// channel of theirs stays registered.
pub proof fn lemma_queued_iff_none_took(
    state: ServerView,
    user: Seq<char>,
    sendable: Sendable,
    accepted: Seq<bool>,
)
    requires
        accepted.len() == state.channels[user].len(),
    ensures
        any_accepted(accepted) ==> state.delivered(user, sendable, accepted).queued[user]
            == state.queued[user],
        !any_accepted(accepted) ==> state.delivered(user, sendable, accepted).queued[user]
            == state.queued[user].push(sendable),
        !any_accepted(accepted) <==> state.delivered(user, sendable, accepted).channels[user].len()
            == 0,
{
    lemma_kept_any(state.channels[user], accepted);
}

/// The messages made of drafts have ids that can rise: none of them is
/// the largest number.
pub proof fn lemma_drafted_ids_rise(
    state: ServerView,
    drafts: Seq<(String, SendMessage)>,
    out: Seq<Outgoing>,
)
    requires
        state.ids_left(drafts),
        state.drafts_made(drafts, out),
    ensures
        forall|j: int| 0 <= j < out.len() ==> (#[trigger] out[j]).message.id < u32::MAX,
{
    let sent = |d: (String, SendMessage)| state.addressed(d);
    let kept = drafts.filter(sent);
    assert forall|j: int| 0 <= j < out.len() implies (#[trigger] out[j]).message.id < u32::MAX by {
        assert(kept.contains(kept[j]));
        drafts.lemma_filter_contains_rev(sent, kept[j]);
        drafts.lemma_filter_pred(sent, j);
        assert(sent(kept[j]));
        assert(drafts.contains(kept[j]));
        let i = choose|i: int| 0 <= i < drafts.len() && drafts[i] == kept[j];
        assert(state.addressed(drafts[i]));
    }
}

/// Ids rise per chat: after a request was posted, the next id of a chat
/// in which a message was made stands one behind the id of that message,
/// which was the next id before; the next id of every other chat is what
/// it was.
pub proof fn lemma_ids_rise(
    state: ServerView,
    drafts: Seq<(String, SendMessage)>,
    out: Seq<Outgoing>,
    chat: u32,
)
    requires
        state.drafts_made(drafts, out),
    ensures
        forall|k: int|
            0 <= k < out.len() ==> (#[trigger] out[k]).message.id
                == state.next_ids[out[k].message.chat],
        (exists|k: int| 0 <= k < out.len() && (#[trigger] out[k]).message.chat == chat) ==> bumped(
            state.next_ids,
            out,
        )[chat] == (state.next_ids[chat] + 1) as u32,
        (forall|k: int| 0 <= k < out.len() ==> (#[trigger] out[k]).message.chat != chat) ==> bumped(
            state.next_ids,
            out,
        )[chat] == state.next_ids[chat],
{
    lemma_bumped(state.next_ids, out, chat);
}

/// What `bumped` holds for one chat, where each message has the id that
/// was next in its chat.
proof fn lemma_bumped(ids: Map<u32, u32>, out: Seq<Outgoing>, chat: u32)
    requires
        forall|k: int|
            0 <= k < out.len() ==> (#[trigger] out[k]).message.id == ids[out[k].message.chat],
    ensures
        (exists|k: int| 0 <= k < out.len() && (#[trigger] out[k]).message.chat == chat) ==> bumped(
            ids,
            out,
        )[chat] == (ids[chat] + 1) as u32,
        (forall|k: int| 0 <= k < out.len() ==> (#[trigger] out[k]).message.chat != chat) ==> bumped(
            ids,
            out,
        )[chat] == ids[chat],
    decreases out.len(),
{
    if out.len() > 0 {
        let front = out.drop_last();
        let last = out.len() - 1;
        assert forall|k: int| 0 <= k < front.len() implies (#[trigger] front[k]).message.id
            == ids[front[k].message.chat] by {
            assert(front[k] == out[k]);
        }
        lemma_bumped(ids, front, chat);
        if out[last].message.chat == chat {
            assert(out[last].message.id == ids[chat]);
        } else {
            if exists|k: int| 0 <= k < out.len() && (#[trigger] out[k]).message.chat == chat {
                let k = choose|k: int|
                    0 <= k < out.len() && (#[trigger] out[k]).message.chat == chat;
                assert(front[k].message.chat == chat);
            }
            if forall|k: int| 0 <= k < out.len() ==> (#[trigger] out[k]).message.chat != chat {
                assert forall|k: int| 0 <= k < front.len() implies (
                #[trigger] front[k]).message.chat != chat by {
                    assert(out[k].message.chat != chat);
                }
            }
        }
    }
}

/// Before the first recipient's turn there is nothing to answer.
pub proof fn lemma_answered_start(state: ServerView, sendable: Sendable, users: Seq<UserIdentifier>)
    ensures
        state.answered(sendable, users.take(0), Seq::<Vec<bool>>::empty()),
        state.fanned_out(sendable, users.take(0), Seq::<Vec<bool>>::empty()) == state,
{
}

/// One more turn: where the answers of the first `turn` recipients are in
/// `report`, and `accepted` holds one answer from each channel that the
/// next recipient has by then, the fan-out goes on by one delivery.
pub proof fn lemma_answered_step(
    state: ServerView,
    sendable: Sendable,
    users: Seq<UserIdentifier>,
    turn: int,
    report: Seq<Vec<bool>>,
    accepted: Vec<bool>,
)
    requires
        0 <= turn < users.len(),
        state.answered(sendable, users.take(turn), report),
        accepted@.len() == state.fanned_out(
            sendable,
            users.take(turn),
            report,
        ).channels[users[turn]@].len(),
    ensures
        state.answered(sendable, users.take(turn + 1), report.push(accepted)),
        state.fanned_out(sendable, users.take(turn + 1), report.push(accepted)) == state.fanned_out(
            sendable,
            users.take(turn),
            report,
        ).delivered(users[turn]@, sendable, accepted@),
{
    let more = users.take(turn + 1);
    let answers = report.push(accepted);
    assert(more.drop_last() =~= users.take(turn));
    assert(answers.drop_last() =~= report);
    assert forall|i: int| 0 <= i < more.len() implies (#[trigger] answers[i])@.len()
        == state.fanned_out(sendable, more.take(i), answers.take(i)).channels[more[i]@].len() by {
        assert(more.take(i) =~= users.take(turn).take(i));
        if i < turn {
            assert(answers.take(i) =~= report.take(i));
            assert(answers[i] == report[i]);
            assert(more[i] == users.take(turn)[i]);
        } else {
            assert(more.take(i) =~= users.take(turn));
            assert(answers.take(i) =~= report);
        }
    }
}

/// Fanning an event out leaves a user alone who is not among the
/// recipients: their channels and their queue are what they were.
pub proof fn lemma_fan_out_elsewhere(
    state: ServerView,
    sendable: Sendable,
    users: Seq<UserIdentifier>,
    report: Seq<Vec<bool>>,
    name: Seq<char>,
)
    requires
        forall|j: int| 0 <= j < users.len() ==> (#[trigger] users[j])@ != name,
    ensures
        state.fanned_out(sendable, users, report).channels[name] == state.channels[name],
        state.fanned_out(sendable, users, report).queued[name] == state.queued[name],
    decreases users.len(),
{
    if users.len() > 0 {
        let front = users.drop_last();
        assert forall|j: int| 0 <= j < front.len() implies (#[trigger] front[j])@ != name by {
            assert(users[j]@ != name);
        }
        lemma_fan_out_elsewhere(state, sendable, front, report.drop_last(), name);
        assert(users[users.len() - 1]@ != name);
    }
}

/// What a fan-out does for a recipient who is named once, at position
/// `turn`: each of their channels is pushed to once, those that did not
/// take the event are gone, and the event is queued behind what waited for
/// them exactly where they had no channel or every push failed.
pub proof fn lemma_fan_out_to_recipient(
    state: ServerView,
    sendable: Sendable,
    users: Seq<UserIdentifier>,
    report: Seq<Vec<bool>>,
    turn: int,
)
    requires
        state.answered(sendable, users, report),
        0 <= turn < users.len(),
        forall|j: int| 0 <= j < users.len() && j != turn ==> (#[trigger] users[j])@ != users[turn]@,
    ensures
        report[turn]@.len() == state.channels[users[turn]@].len(),
        state.fanned_out(sendable, users, report).channels[users[turn]@] == kept(
            state.channels[users[turn]@],
            report[turn]@,
        ),
        state.fanned_out(sendable, users, report).queued[users[turn]@] == (if any_accepted(
            report[turn]@,
        ) {
            state.queued[users[turn]@]
        } else {
            state.queued[users[turn]@].push(sendable)
        }),
        (state.channels[users[turn]@].len() == 0 || forall|k: int|
            0 <= k < report[turn]@.len() ==> !report[turn]@[k]) <==> state.fanned_out(
            sendable,
            users,
            report,
        ).queued[users[turn]@] == state.queued[users[turn]@].push(sendable),
    decreases users.len(),
{
    let name = users[turn]@;
    let last = users.len() - 1;
    let front = users.drop_last();
    let before = state.fanned_out(sendable, front, report.drop_last());
    if turn == last {
        assert forall|j: int| 0 <= j < front.len() implies (#[trigger] front[j])@ != name by {
            assert(users[j]@ != name);
        }
        lemma_fan_out_elsewhere(state, sendable, front, report.drop_last(), name);
        assert(users.take(turn) =~= front);
        assert(report.take(turn) =~= report.drop_last());
    } else {
        assert(state.answered(sendable, front, report.drop_last())) by {
            assert forall|i: int| 0 <= i < front.len() implies (
            #[trigger] report.drop_last()[i])@.len()
                == state.fanned_out(
                sendable,
                front.take(i),
                report.drop_last().take(i),
            ).channels[front[i]@].len() by {
                assert(front.take(i) =~= users.take(i));
                assert(report.drop_last().take(i) =~= report.take(i));
                assert(report[i]@.len() == state.fanned_out(
                    sendable,
                    users.take(i),
                    report.take(i),
                ).channels[users[i]@].len());
            }
        }
        assert forall|j: int| 0 <= j < front.len() && j != turn implies (#[trigger] front[j])@
            != front[turn]@ by {
            assert(users[j]@ != users[turn]@);
        }
        lemma_fan_out_to_recipient(state, sendable, front, report.drop_last(), turn);
        assert(users[last]@ != name);
    }
    let accepted = report[turn]@;
    let after = state.fanned_out(sendable, users, report);
    if any_accepted(accepted) {
        let k = choose|k: int| 0 <= k < accepted.len() && accepted[k] == true;
        assert(after.queued[name].len() != state.queued[name].push(sendable).len());
    } else {
        assert forall|k: int| 0 <= k < accepted.len() implies !accepted[k] by {
            if accepted[k] {
                assert(accepted.contains(true));
            }
        }
    }
}

/// An event posted to a user who has no live channel is the last of what
/// the user is sent when they connect next.
pub proof fn lemma_offline_post_is_replayed(
    state: ServerView,
    user: UserIdentifier,
    sendable: Sendable,
    report: Seq<Vec<bool>>,
)
    requires
        state.channels[user@].len() == 0,
        state.answered(sendable, seq![user], report),
    ensures
        state.fanned_out(sendable, seq![user], report).replay(user@) == state.replay(user@).push(
            sendable,
        ),
        state.fanned_out(sendable, seq![user], report).replay(user@).contains(sendable),
{
    let users = seq![user];
    lemma_fan_out_to_recipient(state, sendable, users, report, 0);
    assert(users.drop_last() =~= Seq::<UserIdentifier>::empty());
    assert(state.fanned_out(sendable, users.drop_last(), report.drop_last()) == state);
    let after = state.fanned_out(sendable, users, report);
    assert(after == state.delivered(user@, sendable, report[0]@));
    assert(!any_accepted(report[0]@));
    assert(after.replay(user@) =~= state.replay(user@).push(sendable));
    assert(after.replay(user@)[after.replay(user@).len() - 1] == sendable);
}

/// A chat message sent to a user who has no live channel is the last chat
/// message of what the user is sent when they connect next.
pub proof fn lemma_offline_message_is_replayed(
    state: ServerView,
    user: Seq<char>,
    message: Message,
    sendable: Sendable,
    accepted: Seq<bool>,
)
    requires
        state.channels[user].len() == 0,
        accepted.len() == 0,
    ensures
        state.message_sent(user, message, sendable, accepted).replay(user).contains(sendable),
        sendables_of(
            state.message_sent(user, message, sendable, accepted).unacknowledged[user],
        ).last() == sendable,
{
    let after = state.message_sent(user, message, sendable, accepted);
    assert(!any_accepted(accepted));
    let waiting = after.unacknowledged[user];
    let last = waiting.len() - 1;
    assert(waiting[last] == PendingMessage { chat: message.chat, id: message.id, sendable });
    assert(sendables_of(waiting)[last] == sendable);
    assert(after.replay(user)[last] == sendable);
}

/// Where a channel of the user takes an event, the event is not queued as
/// well: what waits for the user is what waited before. Where every channel
/// takes it, every channel stays registered.
pub proof fn lemma_live_post_queues_nothing(
    state: ServerView,
    user: UserIdentifier,
    sendable: Sendable,
    report: Seq<Vec<bool>>,
)
    requires
        state.answered(sendable, seq![user], report),
        any_accepted(report[0]@),
    ensures
        state.fanned_out(sendable, seq![user], report).queued == state.queued,
        state.fanned_out(sendable, seq![user], report).unacknowledged == state.unacknowledged,
        state.fanned_out(sendable, seq![user], report).replay(user@) == state.replay(user@),
        (forall|i: int| 0 <= i < report[0]@.len() ==> report[0]@[i]) ==> state.fanned_out(
            sendable,
            seq![user],
            report,
        ).channels[user@] == state.channels[user@],
{
    let users = seq![user];
    lemma_fan_out_to_recipient(state, sendable, users, report, 0);
    assert(users.drop_last() =~= Seq::<UserIdentifier>::empty());
    assert(state.fanned_out(sendable, users.drop_last(), report.drop_last()) == state);
    let after = state.fanned_out(sendable, users, report);
    assert(after == state.delivered(user@, sendable, report[0]@));
    if forall|i: int| 0 <= i < report[0]@.len() ==> report[0]@[i] {
        lemma_kept_all(state.channels[user@], report[0]@);
    }
}

/// The receipt for a chat message goes to the user who sent it: once a
/// message was sent to a reader, the reader can give a receipt for it, and
/// the sender that their mailbox names is the sender of the message.
pub proof fn lemma_receipt_goes_to_sender(
    state: ServerView,
    token: u32,
    message: Message,
    sendable: Sendable,
    accepted: Seq<bool>,
)
    requires
        state.logged_in(token),
    ensures
        state.message_sent(state.user(token), message, sendable, accepted).receipt_refusal(
            token,
            message.chat,
            message.id,
        ) is None,
        state.message_sent(state.user(token), message, sendable, accepted).sender_of(
            token,
            message.chat,
            message.id,
        ) == message.from_user,
{
    let after = state.message_sent(state.user(token), message, sendable, accepted);
    let held = after.mailbox(token).logs[message.chat].entries[message.id];
    assert(after.user(token) == state.user(token));
    assert(after.mailbox(token).logs.contains_key(message.chat));
    assert(after.mailbox(token).logs[message.chat].entries.contains_key(message.id));
    assert(held == message_entry(message));
}

/// A channel that does not take an event is not registered afterwards, and
/// is not registered either once the user has connected again: no channel
/// of the user has its serial number then.
pub proof fn lemma_failed_channel_is_gone(
    state: ServerView,
    user: Seq<char>,
    sendable: Sendable,
    accepted: Seq<bool>,
    failed: int,
    next: DeliveryChannel,
)
    requires
        state.wf(),
        accepted.len() == state.channels[user].len(),
        0 <= failed < accepted.len(),
        !accepted[failed],
        next.serial() == state.issued,
    ensures
        forall|k: int|
            0 <= k < state.delivered(user, sendable, accepted).channels[user].len() ==> (
            #[trigger] state.delivered(user, sendable, accepted).channels[user][k]).serial()
                != state.channels[user][failed].serial(),
        forall|k: int|
            0 <= k < state.delivered(user, sendable, accepted).connected(
                user,
                next,
            ).channels[user].len() ==> (#[trigger] state.delivered(
                user,
                sendable,
                accepted,
            ).connected(user, next).channels[user][k]).serial()
                != state.channels[user][failed].serial(),
{
    let before = state.channels[user];
    assert(serials_distinct(before));
    assert(serials_below(before, state.issued));
    lemma_kept_serials(before, accepted, state.issued);
    let after = state.delivered(user, sendable, accepted);
    assert(after.channels[user] == kept(before, accepted));
    let again = after.connected(user, next);
    assert(!took(accepted, failed));
    assert(again.channels[user] == kept(before, accepted).push(next));
    assert forall|k: int| 0 <= k < again.channels[user].len() implies (
    #[trigger] again.channels[user][k]).serial() != before[failed].serial() by {
        if k < kept(before, accepted).len() {
            assert(kept(before, accepted)[k].serial() != before[failed].serial());
        } else {
            assert(before[failed].serial() < state.issued);
        }
    }
}

} // verus!
