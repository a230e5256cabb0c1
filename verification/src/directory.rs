//! Accounts, sessions and chats: who is registered, which token stands for
//! whom, and who is in which chat.

use vstd::prelude::*;
use crate::actions::send_sendable;
use crate::message::{clone_users, is_member, Chat, ChatEdit, CreateChat};
use crate::random::{key_from, probe_finds, random_u32, KeyError};
use crate::sendables::{banner, banner_payload, Sendable, SendableType};
use crate::server::{QueryError, Server};
use crate::state::{lemma_fanned_out_keeps, ServerView};
use crate::text::{decimal, push_decimal};
use crate::user::{CreateUser, UserIdentifier, UserProfile};

verus! {

/// Why no session was opened.
#[derive(Clone, Copy, Debug, PartialEq, Eq, Structural)]
pub enum AccountError {
    /// The username is registered already.
    Exists,
    /// Nobody is registered under the username.
    NoSuchUser,
    /// The password is not the one that was registered.
    WrongPassword,
    /// Every token is in use.
    Exhausted,
    /// The system gave no random number for a token.
    Unavailable,
}

impl AccountError {
    /// The JSON object that tells a client why no session was opened.
    pub open spec fn body_text(self) -> Seq<char> {
        match self {
            AccountError::Exists => "{\"server\":\"exists\"}"@,
            AccountError::NoSuchUser => "{\"server\":\"user does not exist\"}"@,
            AccountError::WrongPassword => "{\"server\":\"incorrect password\"}"@,
            AccountError::Exhausted => "{\"server\":\"no token left\"}"@,
            AccountError::Unavailable => "{\"server\":\"no random number\"}"@,
        }
    }

    pub fn body(&self) -> (s: String)
        ensures
            s@ == self.body_text(),
    {
        match self {
            AccountError::Exists => String::from_str("{\"server\":\"exists\"}"),
            AccountError::NoSuchUser => String::from_str("{\"server\":\"user does not exist\"}"),
            AccountError::WrongPassword => String::from_str("{\"server\":\"incorrect password\"}"),
            AccountError::Exhausted => String::from_str("{\"server\":\"no token left\"}"),
            AccountError::Unavailable => String::from_str("{\"server\":\"no random number\"}"),
        }
    }
}

/// The JSON object that hands a client its token: `{"token":<token>}`.
pub open spec fn token_text(token: u32) -> Seq<char> {
    "{\"token\":"@ + decimal(token as nat) + "}"@
}

pub fn token_body(token: u32) -> (s: String)
    ensures
        s@ == token_text(token),
{
    let mut s = String::from_str("{\"token\":");
    push_decimal(&mut s, token as u128);
    s.append("}");
    s
}

/// The JSON object that hands a client an invitation code:
/// `{"join_code":<code>}`.
pub open spec fn join_code_text(code: u32) -> Seq<char> {
    "{\"join_code\":"@ + decimal(code as nat) + "}"@
}

pub fn join_code_body(code: u32) -> (s: String)
    ensures
        s@ == join_code_text(code),
{
    let mut s = String::from_str("{\"join_code\":");
    push_decimal(&mut s, code as u128);
    s.append("}");
    s
}

/// The picture of a user who has none.
pub open spec fn no_pfp() -> Seq<char> {
    "undefined"@
}

/// Whether `profile` is the profile of a user who has just registered as
/// `username` with what `created` holds.
pub open spec fn registered(profile: UserProfile, username: String, created: CreateUser) -> bool {
    &&& profile.username == username
    &&& profile.name == created.name
    &&& profile.color == created.color
    &&& profile.public_key == created.public_key
    &&& profile.pfp@ == no_pfp()
}

/// Whether `edited` is `chat` after the change that `edit` asks for: the
/// new name and admin, and the added users behind the members.
pub open spec fn edited_by(edited: Chat, chat: Chat, edit: ChatEdit) -> bool {
    &&& edited.users@ == chat.users@ + edit.added_users@
    &&& edited.name == edit.new_name
    &&& edited.admin == edit.new_admin
    &&& edited.id == chat.id
}

/// Whether `joined` is `chat` with `user` behind its members.
pub open spec fn joined_by(joined: Chat, chat: Chat, user: UserIdentifier) -> bool {
    &&& joined.users@ == chat.users@.push(user)
    &&& joined.name == chat.name
    &&& joined.admin == chat.admin
    &&& joined.id == chat.id
}

/// Whether `chat` is the chat of id `id` that `created` asks for.
pub open spec fn opened_by(chat: Chat, id: u32, created: CreateChat) -> bool {
    &&& chat.users@ == created.users@
    &&& chat.name == created.name
    &&& chat.admin == created.admin
    &&& chat.id == id
}

/// The text of the banner that announces a new member.
pub open spec fn joined_text(name: Seq<char>) -> Seq<char> {
    name + " joined this chat"@
}

/// A banner that was fanned out to the members of a chat: its id, the
/// banner, and for each member the answers of their channels.
pub struct Announcement {
    pub id: u32,
    pub sendable: Sendable,
    pub report: Vec<Vec<bool>>,
}

/// The meta tag that describes an invitation:
/// `<meta name="description" content="You are invited to join <admin>'s chat: <chat>`
/// and, on a line of its own, `Click here to join"/>`.
pub open spec fn invitation_text(admin: Seq<char>, chat: Seq<char>) -> Seq<char> {
    "<meta name=\"description\" content=\"You are invited to join "@ + admin + "'s chat: "@ + chat
        + "\nClick here to join\"/>"@
}

impl ServerView {
    /// The name under which `user` is announced: that of their profile,
    /// and the empty name for a user without one.
    pub open spec fn display_name(self, user: Seq<char>) -> Seq<char> {
        if self.profiles.contains_key(user) {
            self.profiles[user].name@
        } else {
            Seq::empty()
        }
    }

    /// Whether `round` is the announcement of `user` to `members` in
    /// `chat`, made in this state: a banner under the id that is next in
    /// the chat, with one answer from each channel that a member had when
    /// their turn came.
    pub open spec fn announces(
        self,
        round: Announcement,
        user: Seq<char>,
        members: Seq<UserIdentifier>,
        chat: u32,
    ) -> bool {
        &&& round.id == self.next_ids[chat]
        &&& round.sendable.sendable_type == SendableType::Banner
        &&& round.sendable.data@ == banner_payload(
            joined_text(self.display_name(user)),
            chat,
            round.id,
        )
        &&& self.with_id_taken(chat).answered(round.sendable, members, round.report@)
    }

    /// The state after the announcement `round` was made in `chat`: its id
    /// is taken, and its banner was fanned out to `members`.
    pub open spec fn announced_one(
        self,
        members: Seq<UserIdentifier>,
        chat: u32,
        round: Announcement,
    ) -> Self {
        self.with_id_taken(chat).fanned_out(round.sendable, members, round.report@)
    }

    /// The state after the announcements of `rounds` were made in `chat`,
    /// one after the other.
    pub open spec fn announced(
        self,
        members: Seq<UserIdentifier>,
        chat: u32,
        rounds: Seq<Announcement>,
    ) -> Self
        decreases rounds.len(),
    {
        if rounds.len() == 0 {
            self
        } else {
            self.announced(members, chat, rounds.drop_last()).announced_one(
                members,
                chat,
                rounds.last(),
            )
        }
    }

    /// Whether `password` is the password of `username`.
    pub open spec fn password_is(self, username: Seq<char>, password: Seq<char>) -> bool {
        self.passwords.contains_key(username) && self.passwords[username]@ == password
    }

    /// Why `username` is not logged in with `password`; `None` where a
    /// session is opened. `drew` says whether the system gave a random
    /// number for the token.
    pub open spec fn login_refusal(
        self,
        username: Seq<char>,
        password: Seq<char>,
        drew: bool,
    ) -> Option<AccountError> {
        if !self.profiles.contains_key(username) {
            Some(AccountError::NoSuchUser)
        } else if !self.password_is(username, password) {
            Some(AccountError::WrongPassword)
        } else if !drew {
            Some(AccountError::Unavailable)
        } else if forall|t: u32| self.logged_in(t) {
            Some(AccountError::Exhausted)
        } else {
            None
        }
    }

    /// Why `username` is not registered; `None` where an account is
    /// opened. `drew` says whether the system gave a random number for the
    /// token.
    pub open spec fn registration_refusal(self, username: Seq<char>, drew: bool) -> Option<
        AccountError,
    > {
        if self.profiles.contains_key(username) {
            Some(AccountError::Exists)
        } else if !drew {
            Some(AccountError::Unavailable)
        } else if forall|t: u32| self.logged_in(t) {
            Some(AccountError::Exhausted)
        } else {
            None
        }
    }

    /// Why no invitation to the chat `chatid` is made for `token`; `None`
    /// where one is made. `drew` says whether the system gave a random
    /// number for the code.
    pub open spec fn link_refusal(self, chatid: u32, token: u32, drew: bool) -> Option<QueryError> {
        if self.chat_refusal(chatid, token) is Some {
            self.chat_refusal(chatid, token)
        } else if !drew {
            Some(QueryError::Unavailable)
        } else {
            None
        }
    }

    /// Whether a registration of `username` may be turned down with `e`:
    /// whether it is, where `e` tells of the random number, lies with the
    /// system.
    pub open spec fn registration_fails_with(self, username: Seq<char>, e: AccountError) -> bool {
        self.registration_refusal(username, true) == Some(e) || self.registration_refusal(
            username,
            false,
        ) == Some(e)
    }

    /// Whether a login of `username` with `password` may be turned down
    /// with `e`.
    pub open spec fn login_fails_with(
        self,
        username: Seq<char>,
        password: Seq<char>,
        e: AccountError,
    ) -> bool {
        self.login_refusal(username, password, true) == Some(e) || self.login_refusal(
            username,
            password,
            false,
        ) == Some(e)
    }

    /// Whether the making of an invitation to `chatid` for `token` may be
    /// turned down with `e`.
    pub open spec fn link_fails_with(self, chatid: u32, token: u32, e: QueryError) -> bool {
        self.link_refusal(chatid, token, true) == Some(e) || self.link_refusal(chatid, token, false)
            == Some(e)
    }

    /// Why `token` may not make the change `edit` to the chat `chatid`;
    /// `None` for its admin, where the chat has an id left for the
    /// announcement of each added user.
    pub open spec fn edit_refusal(self, chatid: u32, token: u32, edit: ChatEdit) -> Option<
        QueryError,
    > {
        if self.admin_refusal(chatid, token) is Some {
            self.admin_refusal(chatid, token)
        } else if self.next_ids[self.chats[chatid].id] + edit.added_users@.len() > u32::MAX {
            Some(QueryError::Exhausted)
        } else {
            None
        }
    }

    /// Why `token` does not join by the invitation `join_code`; `None` for
    /// a member, and for another user where the chat has an id left for
    /// their announcement.
    pub open spec fn join_refusal(self, join_code: u32, token: u32) -> Option<QueryError> {
        if self.invitation_refusal(join_code, token) is Some {
            self.invitation_refusal(join_code, token)
        } else if !self.in_chat(self.join_codes[join_code], token)
            && self.next_ids[self.join_codes[join_code]] == u32::MAX {
            Some(QueryError::Exhausted)
        } else {
            None
        }
    }

    /// Whether the user behind `token` has a profile.
    pub open spec fn has_profile(self, token: u32) -> bool {
        self.logged_in(token) && self.profiles.contains_key(self.user(token))
    }

    /// Whether the invitation `code` can be described: the code, its chat
    /// and the profile of the chat's admin are known.
    pub open spec fn describable(self, code: u32) -> bool {
        &&& self.join_codes.contains_key(code)
        &&& self.chats.contains_key(self.join_codes[code])
        &&& self.profiles.contains_key(self.chats[self.join_codes[code]].admin@)
    }
}

impl Server {
    /// Whether a session has the token.
    pub fn token_valid(&self, token: u32) -> (valid: bool)
        ensures
            valid == self@.logged_in(token),
    {
        self.tokens.contains_key(&token)
    }

    /// Closes the session of `token`.
    pub fn logout(&mut self, token: u32)
        requires
            old(self).wf(),
        ensures
            final(self).wf(),
            final(self)@ == (ServerView {
                sessions: old(self)@.sessions.remove(token),
                ..old(self)@
            }),
    {
        let _ = self.tokens.remove(&token);
    }

    /// Registers `username` with `password` and the profile that
    /// `created_user` holds, and opens a session for them, given the
    /// number `drawn` for the token: the token is the number drawn or,
    /// where that one is in use, the next that is free.
    pub fn create_account_with(
        &mut self,
        username: String,
        password: String,
        created_user: &CreateUser,
        drawn: Option<u32>,
    ) -> (opened: Result<u32, AccountError>)
        requires
            old(self).wf(),
        ensures
            final(self).wf(),
            match opened {
                Ok(token) => {
                    let profile = final(self)@.profiles[username@];
                    &&& old(self)@.registration_refusal(username@, drawn is Some) is None
                    &&& probe_finds(old(self)@.sessions, drawn->0, token)
                    &&& registered(profile, username, *created_user)
                    &&& final(self)@ == (ServerView {
                        passwords: old(self)@.passwords.insert(username@, password),
                        ..old(self)@
                    }).with_session(token, UserIdentifier { username }).with_profile(
                        username@,
                        profile,
                    )
                },
                Err(e) => old(self)@.registration_refusal(username@, drawn is Some) == Some(e)
                    && final(self)@ == old(self)@,
            },
    {
        let uid = UserIdentifier { username: username.clone() };
        if self.users.contains_key(&uid) {
            return Err(AccountError::Exists);
        }
        let token = match key_from(&self.tokens, drawn) {
            Ok(token) => token,
            Err(KeyError::Unavailable) => {
                return Err(AccountError::Unavailable);
            },
            Err(KeyError::Exhausted) => {
                return Err(AccountError::Exhausted);
            },
        };
        assert(!old(self)@.logged_in(token));
        self.passwords.insert(uid.clone(), password);
        self.tokens.insert(token, uid.clone());
        let profile = created_user.to_user_profile(username, String::from_str("undefined"));
        self.users.insert(uid, profile);
        Ok(token)
    }

    /// Registers `username` with `password` and the profile that
    /// `created_user` holds, and opens a session for them under a token
    /// that is not in use, found from a random number.
    pub fn create_account(
        &mut self,
        username: String,
        password: String,
        created_user: &CreateUser,
    ) -> (opened: Result<u32, AccountError>)
        requires
            old(self).wf(),
        ensures
            final(self).wf(),
            match opened {
                Ok(token) => {
                    let profile = final(self)@.profiles[username@];
                    &&& old(self)@.registration_refusal(username@, true) is None
                    &&& !old(self)@.logged_in(token)
                    &&& registered(profile, username, *created_user)
                    &&& final(self)@ == (ServerView {
                        passwords: old(self)@.passwords.insert(username@, password),
                        ..old(self)@
                    }).with_session(token, UserIdentifier { username }).with_profile(
                        username@,
                        profile,
                    )
                },
                Err(e) => old(self)@.registration_fails_with(username@, e)
                    && final(self)@ == old(self)@,
            },
    {
        self.create_account_with(username, password, created_user, random_u32())
    }

    /// Opens a session for `username`, where `password` is theirs, given
    /// the number `drawn` for the token: the token is the number drawn or,
    /// where that one is in use, the next that is free.
    pub fn login_with(&mut self, username: String, password: String, drawn: Option<u32>) -> (opened:
        Result<u32, AccountError>)
        requires
            old(self).wf(),
        ensures
            final(self).wf(),
            match opened {
                Ok(token) => {
                    &&& old(self)@.login_refusal(username@, password@, drawn is Some) is None
                    &&& probe_finds(old(self)@.sessions, drawn->0, token)
                    &&& final(self)@ == old(self)@.with_session(token, UserIdentifier { username })
                },
                Err(e) => old(self)@.login_refusal(username@, password@, drawn is Some) == Some(e)
                    && final(self)@ == old(self)@,
            },
    {
        let uid = UserIdentifier { username };
        if !self.users.contains_key(&uid) {
            return Err(AccountError::NoSuchUser);
        }
        let matches = match self.passwords.get(&uid) {
            Some(held) => *held == password,
            None => false,
        };
        if !matches {
            return Err(AccountError::WrongPassword);
        }
        let token = match key_from(&self.tokens, drawn) {
            Ok(token) => token,
            Err(KeyError::Unavailable) => {
                return Err(AccountError::Unavailable);
            },
            Err(KeyError::Exhausted) => {
                return Err(AccountError::Exhausted);
            },
        };
        assert(!old(self)@.logged_in(token));
        self.tokens.insert(token, uid);
        Ok(token)
    }

    /// Opens a session for `username`, where `password` is theirs, under a
    /// token that is not in use, found from a random number.
    pub fn login(&mut self, username: String, password: String) -> (opened: Result<
        u32,
        AccountError,
    >)
        requires
            old(self).wf(),
        ensures
            final(self).wf(),
            match opened {
                Ok(token) => {
                    &&& old(self)@.login_refusal(username@, password@, true) is None
                    &&& !old(self)@.logged_in(token)
                    &&& final(self)@ == old(self)@.with_session(token, UserIdentifier { username })
                },
                Err(e) => old(self)@.login_fails_with(username@, password@, e)
                    && final(self)@ == old(self)@,
            },
    {
        self.login_with(username, password, random_u32())
    }

    /// The profile of `username`.
    pub fn get_user(&self, username: String) -> (profile: Option<&UserProfile>)
        requires
            self.wf(),
        ensures
            profile == (if self@.profiles.contains_key(username@) {
                Some(&self@.profiles[username@])
            } else {
                None
            }),
    {
        let uid = UserIdentifier { username };
        self.users.get(&uid)
    }

    /// The chat `chatid`, for a member of it.
    pub fn get_chat(&self, chatid: u32, token: u32) -> (found: Result<&Chat, QueryError>)
        ensures
            match found {
                Ok(chat) => self@.chat_refusal(chatid, token) is None && *chat
                    == self@.chats[chatid],
                Err(e) => self@.chat_refusal(chatid, token) == Some(e),
            },
    {
        let chat = match self.chats.get(&chatid) {
            Some(chat) => chat,
            None => {
                return Err(QueryError::UnknownChat);
            },
        };
        let user = match self.tokens.get(&token) {
            Some(user) => user,
            None => {
                return Err(QueryError::InvalidToken);
            },
        };
        if is_member(&chat.users, user) {
            Ok(chat)
        } else {
            Err(QueryError::UserNotInChat)
        }
    }

    /// Opens the chat that `created_chat` asks for, given the number
    /// `drawn` for its id: the id is the number drawn or, where that one is
    /// in use, the next that is free.
    pub fn create_chat_with(&mut self, created_chat: &CreateChat, drawn: Option<u32>) -> (opened:
        Result<u32, KeyError>)
        requires
            old(self).wf(),
        ensures
            final(self).wf(),
            match opened {
                Ok(id) => {
                    &&& drawn is Some
                    &&& probe_finds(old(self)@.chats, drawn->0, id)
                    &&& opened_by(final(self)@.chats[id], id, *created_chat)
                    &&& final(self)@ == old(self)@.with_chat(id, final(self)@.chats[id])
                },
                Err(KeyError::Unavailable) => drawn is None && final(self)@ == old(self)@,
                Err(KeyError::Exhausted) => drawn is Some && (forall|id: u32|
                    old(self)@.chats.contains_key(id)) && final(self)@ == old(self)@,
            },
    {
        let id = match key_from(&self.chats, drawn) {
            Ok(id) => id,
            Err(e) => {
                return Err(e);
            },
        };
        let chat = created_chat.to_chat(id);
        self.chats.insert(id, chat);
        Ok(id)
    }

    /// Opens the chat that `created_chat` asks for, under an id that is not
    /// in use, found from a random number.
    pub fn create_chat(&mut self, created_chat: &CreateChat) -> (opened: Result<u32, KeyError>)
        requires
            old(self).wf(),
        ensures
            final(self).wf(),
            match opened {
                Ok(id) => {
                    &&& !old(self)@.chats.contains_key(id)
                    &&& opened_by(final(self)@.chats[id], id, *created_chat)
                    &&& final(self)@ == old(self)@.with_chat(id, final(self)@.chats[id])
                },
                Err(KeyError::Unavailable) => final(self)@ == old(self)@,
                Err(KeyError::Exhausted) => (forall|id: u32| old(self)@.chats.contains_key(id))
                    && final(self)@ == old(self)@,
            },
    {
        self.create_chat_with(created_chat, random_u32())
    }

    /// Makes an invitation to the chat `chatid`, for a member of it, under
    /// the code `drawn`.
    pub fn create_chat_link_with(&mut self, chatid: u32, token: u32, drawn: Option<u32>) -> (made:
        Result<u32, QueryError>)
        requires
            old(self).wf(),
        ensures
            final(self).wf(),
            match made {
                Ok(code) => old(self)@.link_refusal(chatid, token, drawn is Some) is None && drawn
                    == Some(code) && final(self)@ == (ServerView {
                    join_codes: old(self)@.join_codes.insert(code, chatid),
                    ..old(self)@
                }),
                Err(e) => old(self)@.link_refusal(chatid, token, drawn is Some) == Some(e)
                    && final(self)@ == old(self)@,
            },
    {
        match self.get_chat(chatid, token) {
            Ok(_) => {},
            Err(e) => {
                return Err(e);
            },
        }
        match drawn {
            Some(code) => {
                self.chat_join_ids.insert(code, chatid);
                Ok(code)
            },
            None => Err(QueryError::Unavailable),
        }
    }

    /// Makes an invitation to the chat `chatid`, for a member of it, under
    /// a code that is drawn at random.
    pub fn create_chat_link(&mut self, chatid: u32, token: u32) -> (made: Result<u32, QueryError>)
        requires
            old(self).wf(),
        ensures
            final(self).wf(),
            match made {
                Ok(code) => old(self)@.link_refusal(chatid, token, true) is None
                    && final(self)@ == (ServerView {
                    join_codes: old(self)@.join_codes.insert(code, chatid),
                    ..old(self)@
                }),
                Err(e) => old(self)@.link_fails_with(chatid, token, e)
                    && final(self)@ == old(self)@,
            },
    {
        self.create_chat_link_with(chatid, token, random_u32())
    }

    /// Announces `user` to `members` as a new member of `chat`: a banner
    /// under the id that is next in the chat, fanned out to each of them.
    fn announce(
        &mut self,
        user: &UserIdentifier,
        members: &Vec<UserIdentifier>,
        chat: u32,
    ) -> (round: Announcement)
        requires
            old(self).wf(),
            old(self)@.next_ids[chat] < u32::MAX,
        ensures
            final(self).wf(),
            old(self)@.announces(round, user@, members@, chat),
            final(self)@ == old(self)@.announced_one(members@, chat, round),
            final(self)@.next_ids[chat] == old(self)@.next_ids[chat] + 1,
            final(self)@.profiles == old(self)@.profiles,
            final(self)@.chats == old(self)@.chats,
    {
        let mut text = match self.users.get(user) {
            Some(profile) => profile.name.clone(),
            None => String::new(),
        };
        text.append(" joined this chat");
        let id = self.next_id(chat);
        self.message_ids.insert(chat, id + 1);
        let ghost taken = self@;
        assert(taken.next_ids =~= old(self)@.next_ids.insert(chat, (id + 1) as u32));
        assert(taken == old(self)@.with_id_taken(chat));
        let sendable = banner(text, chat, id);
        let report = send_sendable(sendable.clone(), members, self);
        proof {
            lemma_fanned_out_keeps(taken, sendable, members@, report@);
        }
        Announcement { id, sendable, report }
    }

    /// The admin behind `token` changes the chat `chatid`: it gets a new
    /// name and a new admin, the users of `chat_edit` are added behind its
    /// members, and each of them is announced to all members in turn.
    pub fn edit_chat(&mut self, chatid: u32, token: u32, chat_edit: &ChatEdit) -> (done: Result<
        Vec<Announcement>,
        QueryError,
    >)
        requires
            old(self).wf(),
        ensures
            final(self).wf(),
            match done {
                Ok(rounds) => {
                    let edited = final(self)@.chats[chatid];
                    let start = old(self)@.with_chat(chatid, edited);
                    &&& old(self)@.edit_refusal(chatid, token, *chat_edit) is None
                    &&& edited_by(edited, old(self)@.chats[chatid], *chat_edit)
                    &&& rounds@.len() == chat_edit.added_users@.len()
                    &&& forall|i: int|
                        0 <= i < rounds@.len() ==> start.announced(
                            edited.users@,
                            edited.id,
                            rounds@.take(i),
                        ).announces(
                            #[trigger] rounds@[i],
                            chat_edit.added_users@[i]@,
                            edited.users@,
                            edited.id,
                        )
                    &&& final(self)@ == start.announced(edited.users@, edited.id, rounds@)
                },
                Err(e) => old(self)@.edit_refusal(chatid, token, *chat_edit) == Some(e)
                    && final(self)@ == old(self)@,
            },
    {
        let allowed = match self.tokens.get(&token) {
            Some(user) => match self.chats.get(&chatid) {
                Some(chat) => if chat.admin.username == user.username {
                    Ok(chat.id)
                } else {
                    Err(QueryError::NotAdmin)
                },
                None => Err(QueryError::UnknownChat),
            },
            None => Err(QueryError::InvalidToken),
        };
        let chat_id = match allowed {
            Err(e) => {
                return Err(e);
            },
            Ok(chat_id) => chat_id,
        };
        let base = self.next_id(chat_id);
        let wanted = chat_edit.added_users.len();
        if wanted > (u32::MAX - base) as usize {
            return Err(QueryError::Exhausted);
        }
        let mut chat = match self.chats.remove(&chatid) {
            Some(chat) => chat,
            None => {
                return Err(QueryError::UnknownChat);
            },
        };
        chat.admin = chat_edit.new_admin.clone();
        chat.name = chat_edit.new_name.clone();
        let mut added = clone_users(&chat_edit.added_users);
        chat.users.append(&mut added);
        let members = clone_users(&chat.users);
        self.chats.insert(chatid, chat);
        let ghost before = old(self)@;
        let ghost start = self@;
        assert(start.chats =~= before.chats.insert(chatid, start.chats[chatid]));
        assert(start == before.with_chat(chatid, start.chats[chatid]));
        let mut rounds: Vec<Announcement> = Vec::new();
        let mut i: usize = 0;
        while i < chat_edit.added_users.len()
            invariant
                self.wf(),
                i <= chat_edit.added_users@.len(),
                wanted == chat_edit.added_users@.len(),
                base + wanted <= u32::MAX,
                rounds@.len() == i,
                self@.chats == start.chats,
                self@.next_ids[chat_id] == base + i,
                forall|j: int|
                    0 <= j < i ==> start.announced(members@, chat_id, rounds@.take(j)).announces(
                        #[trigger] rounds@[j],
                        chat_edit.added_users@[j]@,
                        members@,
                        chat_id,
                    ),
                self@ == start.announced(members@, chat_id, rounds@),
            decreases chat_edit.added_users@.len() - i,
        {
            let ghost earlier = rounds@;
            let round = self.announce(&chat_edit.added_users[i], &members, chat_id);
            rounds.push(round);
            proof {
                assert(rounds@.drop_last() =~= earlier);
                assert(rounds@.take(i as int) =~= earlier);
                assert forall|j: int| 0 <= j < i + 1 implies start.announced(
                    members@,
                    chat_id,
                    rounds@.take(j),
                ).announces(
                    #[trigger] rounds@[j],
                    chat_edit.added_users@[j]@,
                    members@,
                    chat_id,
                ) by {
                    if j < i {
                        assert(rounds@.take(j) =~= earlier.take(j));
                        assert(rounds@[j] == earlier[j]);
                    }
                }
            }
            i = i + 1;
        }
        Ok(rounds)
    }

    /// The user behind `token` joins the chat that the invitation
    /// `join_code` leads to, behind its members, and is announced to all of
    /// them. Nothing happens where they are a member already.
    pub fn join_chat_link(&mut self, join_code: u32, token: u32) -> (done: Result<
        Option<Announcement>,
        QueryError,
    >)
        requires
            old(self).wf(),
        ensures
            final(self).wf(),
            match done {
                Ok(Some(round)) => {
                    let chatid = old(self)@.join_codes[join_code];
                    let joined = final(self)@.chats[chatid];
                    let start = old(self)@.with_chat(chatid, joined);
                    &&& old(self)@.join_refusal(join_code, token) is None
                    &&& !old(self)@.in_chat(chatid, token)
                    &&& joined_by(joined, old(self)@.chats[chatid], old(self)@.sessions[token])
                    &&& start.announces(round, old(self)@.user(token), joined.users@, chatid)
                    &&& final(self)@ == start.announced_one(joined.users@, chatid, round)
                },
                Ok(None) => {
                    &&& old(self)@.join_refusal(join_code, token) is None
                    &&& old(self)@.in_chat(old(self)@.join_codes[join_code], token)
                    &&& final(self)@ == old(self)@
                },
                Err(e) => old(self)@.join_refusal(join_code, token) == Some(e) && final(self)@
                    == old(self)@,
            },
    {
        let chatid = match self.chat_join_ids.get(&join_code) {
            Some(chatid) => *chatid,
            None => {
                return Err(QueryError::NotFound);
            },
        };
        let user = match self.get_chat(chatid, token) {
            Ok(_) => {
                return Ok(None);
            },
            Err(QueryError::UserNotInChat) => match self.tokens.get(&token) {
                Some(user) => user.clone(),
                None => {
                    return Err(QueryError::InvalidToken);
                },
            },
            Err(e) => {
                return Err(e);
            },
        };
        if self.next_id(chatid) == u32::MAX {
            return Err(QueryError::Exhausted);
        }
        let mut chat = match self.chats.remove(&chatid) {
            Some(chat) => chat,
            None => {
                return Err(QueryError::UnknownChat);
            },
        };
        chat.users.push(user.clone());
        let members = clone_users(&chat.users);
        self.chats.insert(chatid, chat);
        let ghost start = self@;
        assert(start.chats =~= old(self)@.chats.insert(chatid, start.chats[chatid]));
        assert(start == old(self)@.with_chat(chatid, start.chats[chatid]));
        let round = self.announce(&user, &members, chatid);
        Ok(Some(round))
    }

    /// Sets the picture of the user behind `token`. The answer is whether
    /// there is such a user with a profile.
    pub fn change_pfp(&mut self, token: u32, pfp: String) -> (changed: bool)
        requires
            old(self).wf(),
        ensures
            final(self).wf(),
            changed == old(self)@.has_profile(token),
            final(self)@ == (if changed {
                old(self)@.with_profile(
                    old(self)@.user(token),
                    UserProfile { pfp, ..old(self)@.profiles[old(self)@.user(token)] },
                )
            } else {
                old(self)@
            }),
    {
        let user = match self.tokens.get(&token) {
            Some(user) => user.clone(),
            None => {
                return false;
            },
        };
        match self.users.remove(&user) {
            Some(mut profile) => {
                profile.pfp = pfp;
                self.users.insert(user, profile);
                assert(self.users@ =~= old(self).users@.insert(user@, profile));
                true
            },
            None => {
                assert(self.users@ =~= old(self).users@);
                false
            },
        }
    }

    /// Takes the picture of the user behind `token` away. The answer is
    /// whether there is such a user with a profile.
    pub fn delete_pfp(&mut self, token: u32) -> (changed: bool)
        requires
            old(self).wf(),
        ensures
            final(self).wf(),
            changed == old(self)@.has_profile(token),
            changed ==> final(self)@.profiles[old(self)@.user(token)].pfp@ == no_pfp(),
            final(self)@ == (if changed {
                old(self)@.with_profile(
                    old(self)@.user(token),
                    UserProfile {
                        pfp: final(self)@.profiles[old(self)@.user(token)].pfp,
                        ..old(self)@.profiles[old(self)@.user(token)]
                    },
                )
            } else {
                old(self)@
            }),
    {
        self.change_pfp(token, String::from_str("undefined"))
    }

    /// The meta tag that describes the invitation `joinchat`, where the
    /// code, its chat and the profile of the chat's admin are known.
    pub fn invitation(&self, joinchat: u32) -> (tag: Option<String>)
        requires
            self.wf(),
        ensures
            match tag {
                Some(text) => {
                    let chat = self@.chats[self@.join_codes[joinchat]];
                    &&& self@.describable(joinchat)
                    &&& text@ == invitation_text(self@.profiles[chat.admin@].name@, chat.name@)
                },
                None => !self@.describable(joinchat),
            },
    {
        let chatid = match self.chat_join_ids.get(&joinchat) {
            Some(chatid) => chatid,
            None => {
                return None;
            },
        };
        let chat = match self.chats.get(chatid) {
            Some(chat) => chat,
            None => {
                return None;
            },
        };
        let admin = match self.users.get(&chat.admin) {
            Some(admin) => admin,
            None => {
                return None;
            },
        };
        let mut text = String::from_str(
            "<meta name=\"description\" content=\"You are invited to join ",
        );
        text.append(admin.name.as_str());
        text.append("'s chat: ");
        text.append(chat.name.as_str());
        text.append("\nClick here to join\"/>");
        Some(text)
    }
}

} // verus!
