//! The backend: connecting, fanning events out, queueing what could not be
//! delivered, receipts, reactions and the drafting of chat messages.

use vstd::prelude::*;
use std::collections::HashMap;
use std::sync::mpsc::Receiver;
use crate::actions::send_sendable;
use crate::channel::{any_accepted, open_pair, serials_below, serials_distinct, DeliveryChannel};
use crate::message::{clone_users, is_member, Chat, DeliveryStatus, Message, SendMessage};
use crate::pending::{holds_id, PendingMessage, PendingQueue};
use crate::registry::ConnectionRegistry;
use crate::sendables::{read, read_payload, reaction, reaction_payload, Sendable, SendableType};
use crate::state::{bumped, drafted_from, lemma_drafted_ids_rise, ServerView};
use crate::user::{UserIdentifier, UserMap, UserProfile};
use crate::user_db::{DBEntry, MailboxError, UserDB, UserDBView};

verus! {

/// Why a request was turned down.
#[derive(Clone, Copy, Debug, PartialEq, Eq, Structural)]
pub enum QueryError {
    /// No session has that token.
    InvalidToken,
    /// There is no such chat, or the user holds no entries of it.
    UnknownChat,
    /// The user is not a member of the chat.
    UserNotInChat,
    /// The chat holds no entry of that id, or there is no such invitation.
    NotFound,
    /// The user is not the admin of the chat.
    NotAdmin,
    /// No id is left in the chat.
    Exhausted,
    /// The system gave no random number.
    Unavailable,
}

impl QueryError {
    /// The JSON object that tells a client why the request was turned down.
    pub open spec fn body_text(self) -> Seq<char> {
        match self {
            QueryError::InvalidToken => "{\"server\":\"invalid token\"}"@,
            QueryError::UnknownChat => "{\"server\":\"no chat found\"}"@,
            QueryError::UserNotInChat => "{\"server\":\"user not in chat\"}"@,
            QueryError::NotFound => "{\"server\":\"no message found\"}"@,
            QueryError::NotAdmin => "{\"server\":\"user not admin\"}"@,
            QueryError::Exhausted => "{\"server\":\"no id left\"}"@,
            QueryError::Unavailable => "{\"server\":\"no random number\"}"@,
        }
    }

    pub fn body(&self) -> (s: String)
        ensures
            s@ == self.body_text(),
    {
        match self {
            QueryError::InvalidToken => String::from_str("{\"server\":\"invalid token\"}"),
            QueryError::UnknownChat => String::from_str("{\"server\":\"no chat found\"}"),
            QueryError::UserNotInChat => String::from_str("{\"server\":\"user not in chat\"}"),
            QueryError::NotFound => String::from_str("{\"server\":\"no message found\"}"),
            QueryError::NotAdmin => String::from_str("{\"server\":\"user not admin\"}"),
            QueryError::Exhausted => String::from_str("{\"server\":\"no id left\"}"),
            QueryError::Unavailable => String::from_str("{\"server\":\"no random number\"}"),
        }
    }
}

/// An event that was posted to one user: the user, the event, and the
/// answers of their channels.
pub struct Posted {
    pub to_user: UserIdentifier,
    pub sendable: Sendable,
    pub accepted: Vec<bool>,
}

/// An event that was fanned out to several users, and for each of them the
/// answers of their channels.
pub struct Fanout {
    pub sendable: Sendable,
    pub report: Vec<Vec<bool>>,
}

/// A chat message that is ready to be sent to one user.
pub struct Outgoing {
    pub to_user: UserIdentifier,
    pub message: Message,
}

/// A fresh connection: the end on which the events arrive, and what has to
/// be sent before anything else.
pub struct Connection {
    pub receiver: Receiver<Sendable>,
    pub replay: Vec<Sendable>,
}

/// The backend's state.
pub struct Server {
    pub(crate) users: UserMap<UserProfile>,
    pub(crate) registry: ConnectionRegistry,
    pub(crate) tokens: HashMap<u32, UserIdentifier>,
    pub(crate) chats: HashMap<u32, Chat>,
    pub(crate) passwords: UserMap<String>,
    pub(crate) pending: PendingQueue,
    pub(crate) chat_join_ids: HashMap<u32, u32>,
    pub(crate) user_db: UserMap<UserDB>,
    pub(crate) self_delivery: bool,
    pub(crate) message_ids: HashMap<u32, u32>,
}

impl View for Server {
    type V = ServerView;

    open(crate) spec fn view(&self) -> ServerView {
        ServerView {
            channels: self.registry@.channels,
            issued: self.registry@.issued,
            queued: self.pending.queued(),
            unacknowledged: self.pending.unacknowledged(),
            mailboxes: Map::total(
                |name: Seq<char>|
                    if self.user_db@.contains_key(name) {
                        self.user_db@[name]@
                    } else {
                        UserDBView::empty()
                    },
            ),
            sessions: self.tokens@,
            chats: self.chats@,
            profiles: self.users@,
            passwords: self.passwords@,
            join_codes: self.chat_join_ids@,
            self_delivery: self.self_delivery,
            next_ids: Map::total(
                |chat: u32|
                    if self.message_ids@.contains_key(chat) {
                        self.message_ids@[chat]
                    } else {
                        0
                    },
            ),
        }
    }
}

impl Server {
    /// The parts are in order, each by its own rule.
    pub open(crate) spec fn wf(&self) -> bool {
        &&& self.users.wf()
        &&& self.registry.wf()
        &&& self.passwords.wf()
        &&& self.pending.wf()
        &&& self.user_db.wf()
        &&& forall|name: Seq<char>|
            self.user_db@.contains_key(name) ==> (#[trigger] self.user_db@[name]).wf()
    }

    /// A server that is in order holds a state that is in order.
    pub proof fn lemma_view_wf(&self)
        requires
            self.wf(),
        ensures
            self@.wf(),
    {
        assert forall|user: Seq<char>| #[trigger] serials_distinct(self@.channels[user]) by {
            self.registry.lemma_serials(user);
        }
        assert forall|user: Seq<char>| #[trigger]
            serials_below(self@.channels[user], self@.issued) by {
            self.registry.lemma_serials(user);
        }
        assert forall|user: Seq<char>| (#[trigger] self@.mailboxes[user]).wf() by {
            if self.user_db@.contains_key(user) {
                assert(self.user_db@[user].wf());
            }
        }
    }

    pub fn new() -> (server: Self)
        ensures
            server.wf(),
            server@.issued == 0,
            forall|name: Seq<char>| #[trigger]
                server@.channels[name] == Seq::<DeliveryChannel>::empty(),
            forall|name: Seq<char>| #[trigger] server@.queued[name] == Seq::<Sendable>::empty(),
            forall|name: Seq<char>| #[trigger]
                server@.unacknowledged[name] == Seq::<PendingMessage>::empty(),
            forall|name: Seq<char>| #[trigger] server@.mailboxes[name] == UserDBView::empty(),
            server@.sessions == Map::<u32, UserIdentifier>::empty(),
            server@.chats == Map::<u32, Chat>::empty(),
            server@.profiles == Map::<Seq<char>, UserProfile>::empty(),
            server@.passwords == Map::<Seq<char>, String>::empty(),
            server@.join_codes == Map::<u32, u32>::empty(),
            !server@.self_delivery,
            forall|chat: u32| #[trigger] server@.next_ids[chat] == 0,
    {
        Self {
            users: UserMap::new(),
            registry: ConnectionRegistry::new(),
            tokens: HashMap::new(),
            chats: HashMap::new(),
            passwords: UserMap::new(),
            pending: PendingQueue::new(),
            chat_join_ids: HashMap::new(),
            user_db: UserMap::new(),
            self_delivery: false,
            message_ids: HashMap::new(),
        }
    }

    /// A server that holds what was saved: the accounts, sessions, chats,
    /// invitations, queues and mailboxes. No channel is registered.
    pub fn from_parts(
        users: UserMap<UserProfile>,
        tokens: HashMap<u32, UserIdentifier>,
        chats: HashMap<u32, Chat>,
        passwords: UserMap<String>,
        pending: PendingQueue,
        chat_join_ids: HashMap<u32, u32>,
        user_db: UserMap<UserDB>,
        message_ids: HashMap<u32, u32>,
    ) -> (server: Self)
        requires
            users.wf(),
            passwords.wf(),
            pending.wf(),
            user_db.wf(),
            forall|name: Seq<char>|
                user_db@.contains_key(name) ==> (#[trigger] user_db@[name]).wf(),
        ensures
            server.wf(),
            server@.issued == 0,
            forall|name: Seq<char>| #[trigger]
                server@.channels[name] == Seq::<DeliveryChannel>::empty(),
            server@.queued == pending.queued(),
            server@.unacknowledged == pending.unacknowledged(),
            forall|name: Seq<char>| #[trigger]
                server@.mailboxes[name] == (if user_db@.contains_key(name) {
                    user_db@[name]@
                } else {
                    UserDBView::empty()
                }),
            server@.sessions == tokens@,
            server@.chats == chats@,
            server@.profiles == users@,
            server@.passwords == passwords@,
            server@.join_codes == chat_join_ids@,
            !server@.self_delivery,
            forall|chat: u32| #[trigger]
                server@.next_ids[chat] == (if message_ids@.contains_key(chat) {
                    message_ids@[chat]
                } else {
                    0
                }),
    {
        Self {
            users,
            registry: ConnectionRegistry::new(),
            tokens,
            chats,
            passwords,
            pending,
            chat_join_ids,
            user_db,
            self_delivery: false,
            message_ids,
        }
    }

    /// The profiles, by user.
    pub fn users(&self) -> (held: &UserMap<UserProfile>)
        requires
            self.wf(),
        ensures
            held.wf(),
            held@ == self@.profiles,
    {
        &self.users
    }

    /// The passwords, by user.
    pub fn passwords(&self) -> (held: &UserMap<String>)
        requires
            self.wf(),
        ensures
            held.wf(),
            held@ == self@.passwords,
    {
        &self.passwords
    }

    /// The sessions, by token.
    pub fn tokens(&self) -> (held: &HashMap<u32, UserIdentifier>)
        ensures
            held@ == self@.sessions,
    {
        &self.tokens
    }

    /// The chats, by id.
    pub fn chats(&self) -> (held: &HashMap<u32, Chat>)
        ensures
            held@ == self@.chats,
    {
        &self.chats
    }

    /// The chat of each invitation code.
    pub fn chat_join_ids(&self) -> (held: &HashMap<u32, u32>)
        ensures
            held@ == self@.join_codes,
    {
        &self.chat_join_ids
    }

    /// The id that the next message or banner gets, for each chat that
    /// had one already.
    pub fn message_ids(&self) -> (held: &HashMap<u32, u32>)
        ensures
            forall|chat: u32| #[trigger]
                self@.next_ids[chat] == (if held@.contains_key(chat) {
                    held@[chat]
                } else {
                    0
                }),
    {
        &self.message_ids
    }

    /// The id that the next message or banner of `chat` gets.
    pub fn next_id(&self, chat: u32) -> (id: u32)
        ensures
            id == self@.next_ids[chat],
    {
        match self.message_ids.get(&chat) {
            Some(id) => *id,
            None => 0,
        }
    }

    /// What waits for the users.
    pub fn pending(&self) -> (held: &PendingQueue)
        requires
            self.wf(),
        ensures
            held.wf(),
            held.queued() == self@.queued,
            held.unacknowledged() == self@.unacknowledged,
    {
        &self.pending
    }

    /// The mailboxes, by user.
    pub fn mailboxes(&self) -> (held: &UserMap<UserDB>)
        requires
            self.wf(),
        ensures
            held.wf(),
            forall|name: Seq<char>|
                held@.contains_key(name) ==> (#[trigger] held@[name]).wf() && held@[name]@
                    == self@.mailboxes[name],
            forall|name: Seq<char>|
                !held@.contains_key(name) ==> #[trigger] self@.mailboxes[name]
                    == UserDBView::empty(),
    {
        &self.user_db
    }

    /// The mailbox of `user`, where they have one.
    pub fn mailbox(&self, user: &UserIdentifier) -> (held: Option<&UserDB>)
        requires
            self.wf(),
        ensures
            match held {
                Some(db) => db.wf() && db@ == self@.mailboxes[user@],
                None => self@.mailboxes[user@] == UserDBView::empty(),
            },
    {
        let held = self.user_db.get(user);
        proof {
            if self.user_db@.contains_key(user@) {
                assert(self.user_db@[user@].wf());
            }
        }
        held
    }

    /// The user behind `token`.
    pub fn resolve(&self, token: u32) -> (user: Option<&UserIdentifier>)
        ensures
            user == (if self@.logged_in(token) {
                Some(&self@.sessions[token])
            } else {
                None
            }),
    {
        self.tokens.get(&token)
    }

    /// The number of channels registered for `user`.
    pub fn live_channels(&self, user: &UserIdentifier) -> (count: usize)
        requires
            self.wf(),
        ensures
            count == self@.channels[user@].len(),
    {
        self.registry.live(user)
    }

    /// Sets whether a chat message that is addressed to its own sender is
    /// sent to them.
    pub fn set_self_delivery(&mut self, allowed: bool)
        requires
            old(self).wf(),
        ensures
            final(self).wf(),
            final(self)@ == (ServerView { self_delivery: allowed, ..old(self)@ }),
    {
        self.self_delivery = allowed;
    }

    /// Pushes `sendable` to each channel of `user`, drops the channels that
    /// do not take it, and queues the event where none took it. The answers
    /// of the channels come back in their order.
    pub fn deliver(&mut self, user: &UserIdentifier, sendable: &Sendable) -> (accepted: Vec<bool>)
        requires
            old(self).wf(),
        ensures
            final(self).wf(),
            accepted@.len() == old(self)@.channels[user@].len(),
            final(self)@ == old(self)@.delivered(user@, *sendable, accepted@),
    {
        let accepted = self.registry.push_all(user, sendable);
        if !any(&accepted) {
            self.pending.enqueue(user, sendable.clone());
        }
        accepted
    }

    /// Pushes the chat message, rendered as `sendable`, to each channel of
    /// `user`, drops the channels that do not take it, keeps the message to
    /// be acknowledged where none took it, and appends it to the user's
    /// mailbox. The answers of the channels come back in their order.
    pub fn deliver_message(
        &mut self,
        user: UserIdentifier,
        message: Message,
        sendable: Sendable,
    ) -> (accepted: Vec<bool>)
        requires
            old(self).wf(),
        ensures
            final(self).wf(),
            accepted@.len() == old(self)@.channels[user@].len(),
            final(self)@ == old(self)@.message_sent(user@, message, sendable, accepted@),
    {
        let accepted = self.registry.push_all(&user, &sendable);
        if !any(&accepted) {
            self.pending.enqueue_message(&user, message.chat, message.id, sendable);
        }
        let ghost held = self@.mailboxes[user@];
        let mut db = match self.user_db.remove(&user) {
            Some(db) => db,
            None => UserDB::new(),
        };
        assert(db@ == held);
        db.append(message.chat, message.id, DBEntry::message(message));
        self.user_db.insert(user, db);
        proof {
            let want = old(self)@.message_sent(user@, message, sendable, accepted@);
            assert(self@.mailboxes =~= want.mailboxes);
            assert forall|name: Seq<char>| self.user_db@.contains_key(name) implies (
            #[trigger] self.user_db@[name]).wf() by {
                if name != user@ {
                    assert(old(self).user_db@[name].wf());
                }
            }
        }
        accepted
    }

    /// Opens a connection for the user behind `token`: registers a new
    /// channel for them, behind their others, and hands out what has to be
    /// replayed.
    pub fn open_channel(&mut self, token: u32) -> (opened: Result<Connection, QueryError>)
        requires
            old(self).wf(),
        ensures
            final(self).wf(),
            match opened {
                Ok(connection) => {
                    let user = old(self)@.user(token);
                    let channel = final(self)@.channels[user].last();
                    &&& old(self)@.logged_in(token)
                    &&& connection.replay@ == old(self)@.replay(user)
                    &&& channel.serial() == old(self)@.issued
                    &&& final(self)@ == old(self)@.connected(user, channel)
                },
                Err(e) => e == QueryError::InvalidToken && !old(self)@.logged_in(token)
                    && final(self)@ == old(self)@,
            },
    {
        let user = match self.tokens.get(&token) {
            Some(user) => user.clone(),
            None => {
                return Err(QueryError::InvalidToken);
            },
        };
        let (sender, receiver) = open_pair();
        self.registry.attach(&user, sender);
        let replay = self.pending.take_replay(&user);
        proof {
            let name = user@;
            let before = old(self)@;
            let channel = self@.channels[name].last();
            assert(self@.channels[name] =~= before.channels[name].push(channel));
            assert(self@.channels =~= before.connected(name, channel).channels);
        }
        Ok(Connection { receiver, replay })
    }

    /// Forgets the message `id` of `chat` that waits for `user`. The answer
    /// is whether it was waiting.
    pub fn acknowledge(&mut self, user: &UserIdentifier, chat: u32, id: u32) -> (removed: bool)
        requires
            old(self).wf(),
        ensures
            final(self).wf(),
            removed == holds_id(old(self)@.unacknowledged[user@], chat, id),
            final(self)@ == old(self)@.acknowledged(user@, chat, id),
    {
        self.pending.acknowledge(user, chat, id)
    }

    /// The reader behind `token` and the sender of the message `messageid`
    /// of `chatid` that the reader's mailbox holds.
    fn reader_and_sender(&self, token: u32, chatid: u32, messageid: u32) -> (found: Result<
        (UserIdentifier, UserIdentifier),
        QueryError,
    >)
        requires
            self.wf(),
        ensures
            match found {
                Ok(pair) => self@.receipt_refusal(token, chatid, messageid) is None && pair.0
                    == self@.sessions[token] && pair.1 == self@.sender_of(token, chatid, messageid),
                Err(e) => self@.receipt_refusal(token, chatid, messageid) == Some(e),
            },
    {
        let reader = match self.tokens.get(&token) {
            Some(user) => user,
            None => {
                return Err(QueryError::InvalidToken);
            },
        };
        let entry = match self.mailbox(reader) {
            Some(db) => match db.get(chatid, messageid) {
                Ok(entry) => entry,
                Err(MailboxError::UnknownChat) => {
                    return Err(QueryError::UnknownChat);
                },
                Err(MailboxError::NotFound) => {
                    return Err(QueryError::NotFound);
                },
            },
            None => {
                return Err(QueryError::UnknownChat);
            },
        };
        match entry.as_message() {
            Some(message) => Ok((reader.clone(), message.from_user.clone())),
            None => Err(QueryError::NotFound),
        }
    }

    /// The reader behind `token` has received the chat message `messageid`
    /// of `chatid`: it no longer waits for them, and a receipt with the
    /// status `Delivered` is posted to the user who sent it, as the
    /// reader's mailbox names them. Nothing happens where the token is not
    /// valid or the reader's mailbox does not hold the message.
    pub fn received_message(&mut self, token: u32, chatid: u32, messageid: u32) -> (posted: Result<
        Posted,
        QueryError,
    >)
        requires
            old(self).wf(),
        ensures
            final(self).wf(),
            match posted {
                Ok(p) => {
                    let reader = old(self)@.user(token);
                    &&& old(self)@.receipt_refusal(token, chatid, messageid) is None
                    &&& p.to_user == old(self)@.sender_of(token, chatid, messageid)
                    &&& p.sendable.sendable_type == SendableType::Read
                    &&& p.sendable.data@ == read_payload(
                        DeliveryStatus::Delivered.name(),
                        reader,
                        messageid,
                        chatid,
                    )
                    &&& p.accepted@.len() == old(self)@.channels[p.to_user@].len()
                    &&& final(self)@ == old(self)@.acknowledged(
                        reader,
                        chatid,
                        messageid,
                    ).delivered(p.to_user@, p.sendable, p.accepted@)
                },
                Err(e) => old(self)@.receipt_refusal(token, chatid, messageid) == Some(e)
                    && final(self)@ == old(self)@,
            },
    {
        let (reader, sender) = match self.reader_and_sender(token, chatid, messageid) {
            Ok(pair) => pair,
            Err(e) => {
                return Err(e);
            },
        };
        let _ = self.pending.acknowledge(&reader, chatid, messageid);
        let receipt = read(
            DeliveryStatus::Delivered.to_string(),
            reader.username,
            messageid,
            chatid,
        );
        let accepted = self.deliver(&sender, &receipt);
        Ok(Posted { to_user: sender, sendable: receipt, accepted })
    }

    /// The reader behind `token` has read the chat message `messageid` of
    /// `chatid`: a receipt with the status `Read` is posted to the user who
    /// sent it, as the reader's mailbox names them. Nothing happens where
    /// the token is not valid or the reader's mailbox does not hold the
    /// message.
    pub fn read_message(&mut self, token: u32, chatid: u32, messageid: u32) -> (posted: Result<
        Posted,
        QueryError,
    >)
        requires
            old(self).wf(),
        ensures
            final(self).wf(),
            match posted {
                Ok(p) => {
                    &&& old(self)@.receipt_refusal(token, chatid, messageid) is None
                    &&& p.to_user == old(self)@.sender_of(token, chatid, messageid)
                    &&& p.sendable.sendable_type == SendableType::Read
                    &&& p.sendable.data@ == read_payload(
                        DeliveryStatus::Read.name(),
                        old(self)@.user(token),
                        messageid,
                        chatid,
                    )
                    &&& p.accepted@.len() == old(self)@.channels[p.to_user@].len()
                    &&& final(self)@ == old(self)@.delivered(p.to_user@, p.sendable, p.accepted@)
                },
                Err(e) => old(self)@.receipt_refusal(token, chatid, messageid) == Some(e)
                    && final(self)@ == old(self)@,
            },
    {
        let (reader, sender) = match self.reader_and_sender(token, chatid, messageid) {
            Ok(pair) => pair,
            Err(e) => {
                return Err(e);
            },
        };
        let receipt = read(DeliveryStatus::Read.to_string(), reader.username, messageid, chatid);
        let accepted = self.deliver(&sender, &receipt);
        Ok(Posted { to_user: sender, sendable: receipt, accepted })
    }

    /// The user behind `token` reacts to the message `messageid` of
    /// `chatid` with `emoji`: the reaction is fanned out to the members of
    /// the chat, where the user is one of them.
    pub fn react_message(
        &mut self,
        token: u32,
        chatid: u32,
        messageid: u32,
        emoji: String,
    ) -> (outcome: Result<Fanout, QueryError>)
        requires
            old(self).wf(),
        ensures
            final(self).wf(),
            match outcome {
                Ok(f) => {
                    &&& old(self)@.refusal(chatid, token) is None
                    &&& f.sendable.sendable_type == SendableType::Reaction
                    &&& f.sendable.data@ == reaction_payload(
                        emoji@,
                        old(self)@.user(token),
                        messageid,
                        chatid,
                    )
                    &&& old(self)@.answered(f.sendable, old(self)@.members(chatid), f.report@)
                    &&& final(self)@ == old(self)@.fanned_out(
                        f.sendable,
                        old(self)@.members(chatid),
                        f.report@,
                    )
                },
                Err(e) => old(self)@.refusal(chatid, token) == Some(e)
                    && final(self)@ == old(self)@,
            },
    {
        let user = match self.tokens.get(&token) {
            Some(user) => user.clone(),
            None => {
                return Err(QueryError::InvalidToken);
            },
        };
        let members = match self.chats.get(&chatid) {
            Some(chat) => clone_users(&chat.users),
            None => {
                return Err(QueryError::UnknownChat);
            },
        };
        if !is_member(&members, &user) {
            return Err(QueryError::UserNotInChat);
        }
        let sendable = reaction(emoji, user.username, messageid, chatid);
        let report = send_sendable(sendable.clone(), &members, self);
        Ok(Fanout { sendable, report })
    }

    /// The messages that a request of the user behind `token` asks for:
    /// one for each draft, but for those addressed to their own sender
    /// where such messages are not sent, each with the id that is next in
    /// its chat. Nothing is made where `token`, or the token by which a
    /// draft names its sender, is not valid, or where a chat has no id left.
    pub fn draft_messages(&self, token: u32, drafts: &Vec<(String, SendMessage)>) -> (made: Result<
        Vec<Outgoing>,
        QueryError,
    >)
        ensures
            match made {
                Ok(out) => self@.posting_refusal(token, drafts@) is None && self@.drafts_made(
                    drafts@,
                    out@,
                ),
                Err(e) => self@.posting_refusal(token, drafts@) == Some(e),
            },
    {
        if !self.tokens.contains_key(&token) {
            return Err(QueryError::InvalidToken);
        }
        let ghost state = self@;
        let ghost sent = |d: (String, SendMessage)| state.addressed(d);
        let mut out: Vec<Outgoing> = Vec::new();
        let mut exhausted = false;
        let mut i: usize = 0;
        proof {
            reveal(Seq::filter);
            assert(drafts@.take(0) =~= Seq::<(String, SendMessage)>::empty());
        }
        while i < drafts.len()
            invariant
                i <= drafts@.len(),
                state == self@,
                sent == |d: (String, SendMessage)| state.addressed(d),
                state.senders_known(drafts@.take(i as int)),
                exhausted == !state.ids_left(drafts@.take(i as int)),
                !exhausted ==> state.drafts_made(drafts@.take(i as int), out@),
            decreases drafts@.len() - i,
        {
            let ghost seen = drafts@.take(i as int);
            let ghost before = out@;
            let draft = &drafts[i];
            let from_user = match self.tokens.get(&draft.1.from_user) {
                Some(user) => user.clone(),
                None => {
                    assert(!state.senders_known(drafts@));
                    return Err(QueryError::InvalidToken);
                },
            };
            proof {
                assert(drafts@.take(i + 1) =~= seen.push(drafts@[i as int]));
                seen.lemma_filter_push(drafts@[i as int], sent);
                assert forall|j: int| 0 <= j < i + 1 implies state.logged_in(
                    (#[trigger] drafts@.take(i + 1)[j]).1.from_user,
                ) by {
                    if j < i {
                        assert(seen[j] == drafts@.take(i + 1)[j]);
                    }
                }
                if state.ids_left(drafts@.take(i + 1)) {
                    assert forall|j: int| 0 <= j < seen.len() && state.addressed(
                        #[trigger] seen[j],
                    ) implies state.next_ids[seen[j].1.chat] < u32::MAX by {
                        assert(seen[j] == drafts@.take(i + 1)[j]);
                    }
                }
            }
            if self.self_delivery || draft.0 != from_user.username {
                let id = self.next_id(draft.1.chat);
                if id == u32::MAX {
                    exhausted = true;
                    assert(state.addressed(drafts@.take(i + 1)[i as int]));
                } else if !exhausted {
                    let message = draft.1.to_message(id, from_user);
                    out.push(
                        Outgoing { to_user: UserIdentifier { username: draft.0.clone() }, message },
                    );
                    proof {
                        let kept = seen.filter(sent);
                        let now = drafts@.take(i + 1).filter(sent);
                        assert(now == kept.push(drafts@[i as int]));
                        assert forall|k: int| 0 <= k < out@.len() implies (
                        #[trigger] out@[k]).to_user@ == now[k].0@ && drafted_from(
                            out@[k].message,
                            state.next_ids[now[k].1.chat],
                            now[k].1,
                            state.sessions[now[k].1.from_user],
                        ) by {
                            if k < before.len() {
                                assert(out@[k] == before[k]);
                                assert(now[k] == kept[k]);
                            }
                        }
                        assert forall|j: int| 0 <= j < i + 1 && state.addressed(
                            #[trigger] drafts@.take(i + 1)[j],
                        ) implies state.next_ids[drafts@.take(i + 1)[j].1.chat] < u32::MAX by {
                            if j < i {
                                assert(seen[j] == drafts@.take(i + 1)[j]);
                            }
                        }
                    }
                } else {
                    proof {
                        let j = choose|j: int|
                            0 <= j < seen.len() && state.addressed(#[trigger] seen[j]) && !(
                            state.next_ids[seen[j].1.chat] < u32::MAX);
                        assert(seen[j] == drafts@.take(i + 1)[j]);
                    }
                }
            } else {
                proof {
                    if !exhausted {
                        assert forall|j: int| 0 <= j < i + 1 && state.addressed(
                            #[trigger] drafts@.take(i + 1)[j],
                        ) implies state.next_ids[drafts@.take(i + 1)[j].1.chat] < u32::MAX by {
                            if j < i {
                                assert(seen[j] == drafts@.take(i + 1)[j]);
                            }
                        }
                    } else {
                        let j = choose|j: int|
                            0 <= j < seen.len() && state.addressed(#[trigger] seen[j]) && !(
                            state.next_ids[seen[j].1.chat] < u32::MAX);
                        assert(seen[j] == drafts@.take(i + 1)[j]);
                    }
                }
            }
            i = i + 1;
        }
        assert(drafts@.take(i as int) =~= drafts@);
        if exhausted {
            Err(QueryError::Exhausted)
        } else {
            Ok(out)
        }
    }

    /// Makes the messages that a request of the user behind `token` asks
    /// for, and takes their ids: in each chat of a message, the next
    /// message gets the id behind it.
    pub fn post_message(&mut self, token: u32, drafts: &Vec<(String, SendMessage)>) -> (made:
        Result<Vec<Outgoing>, QueryError>)
        requires
            old(self).wf(),
        ensures
            final(self).wf(),
            match made {
                Ok(out) => {
                    &&& old(self)@.posting_refusal(token, drafts@) is None
                    &&& old(self)@.drafts_made(drafts@, out@)
                    &&& final(self)@ == (ServerView {
                        next_ids: bumped(old(self)@.next_ids, out@),
                        ..old(self)@
                    })
                },
                Err(e) => old(self)@.posting_refusal(token, drafts@) == Some(e) && final(self)@
                    == old(self)@,
            },
    {
        let out = match self.draft_messages(token, drafts) {
            Ok(out) => out,
            Err(e) => {
                return Err(e);
            },
        };
        let ghost before = self@;
        proof {
            lemma_drafted_ids_rise(before, drafts@, out@);
            assert(out@.take(0) =~= Seq::<Outgoing>::empty());
            assert(self@.next_ids =~= bumped(before.next_ids, out@.take(0)));
        }
        let mut k: usize = 0;
        while k < out.len()
            invariant
                self.wf(),
                k <= out@.len(),
                forall|j: int| 0 <= j < out@.len() ==> (#[trigger] out@[j]).message.id < u32::MAX,
                self@ == (ServerView {
                    next_ids: bumped(before.next_ids, out@.take(k as int)),
                    ..before
                }),
            decreases out@.len() - k,
        {
            let chat = out[k].message.chat;
            let id = out[k].message.id;
            assert(out@[k as int].message.id < u32::MAX);
            self.message_ids.insert(chat, id + 1);
            proof {
                assert(out@.take(k + 1).drop_last() =~= out@.take(k as int));
                assert(self@.next_ids =~= bumped(before.next_ids, out@.take(k + 1)));
            }
            k = k + 1;
        }
        assert(out@.take(k as int) =~= out@);
        Ok(out)
    }
}

/// Whether one of the answers is yes.
pub fn any(accepted: &Vec<bool>) -> (some: bool)
    ensures
        some == any_accepted(accepted@),
{
    let mut i: usize = 0;
    while i < accepted.len()
        invariant
            i <= accepted@.len(),
            forall|j: int| 0 <= j < i ==> !accepted@[j],
        decreases accepted@.len() - i,
    {
        if accepted[i] {
            assert(accepted@[i as int] == true);
            return true;
        }
        i = i + 1;
    }
    false
}

/// What a client is told after a reaction.
pub open spec fn react_reply_text(outcome: Result<Fanout, QueryError>) -> Seq<char> {
    match outcome {
        Err(QueryError::InvalidToken) => "Invalid Token >:("@,
        _ => "Thank you :)"@,
    }
}

/// What a client is told after a reaction: that the token is invalid, or
/// thanks, whether or not the reaction went out.
pub fn react_reply(outcome: &Result<Fanout, QueryError>) -> (s: String)
    ensures
        s@ == react_reply_text(*outcome),
{
    match outcome {
        Err(QueryError::InvalidToken) => String::from_str("Invalid Token >:("),
        _ => String::from_str("Thank you :)"),
    }
}

} // verus!
