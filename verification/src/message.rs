//! Chat messages, chats, and the requests that create them.

use vstd::prelude::*;
use std::collections::HashMap;
use crate::user::UserIdentifier;

verus! {

/// How far a message has come on its way to the reader.
#[derive(Clone, Copy, Debug, PartialEq, Eq, Structural)]
pub enum DeliveryStatus {
    Sent,
    Delivered,
    Read,
}

impl DeliveryStatus {
    /// The status as it is written in a receipt.
    pub open spec fn name(self) -> Seq<char> {
        match self {
            DeliveryStatus::Sent => "Sent"@,
            DeliveryStatus::Delivered => "Delivered"@,
            DeliveryStatus::Read => "Read"@,
        }
    }

    pub fn to_string(&self) -> (s: String)
        ensures
            s@ == self.name(),
    {
        match self {
            DeliveryStatus::Sent => String::from_str("Sent"),
            DeliveryStatus::Delivered => String::from_str("Delivered"),
            DeliveryStatus::Read => String::from_str("Read"),
        }
    }

    /// The status that is written as `name`; `Sent` comes first where a
    /// text could be read as several.
    pub open spec fn named(name: Seq<char>) -> Option<DeliveryStatus> {
        if name == DeliveryStatus::Sent.name() {
            Some(DeliveryStatus::Sent)
        } else if name == DeliveryStatus::Delivered.name() {
            Some(DeliveryStatus::Delivered)
        } else if name == DeliveryStatus::Read.name() {
            Some(DeliveryStatus::Read)
        } else {
            None
        }
    }

    /// Reads a status as it is written in a receipt.
    pub fn from_name(name: &str) -> (status: Option<DeliveryStatus>)
        ensures
            status == Self::named(name@),
    {
        let given = String::from_str(name);
        if given == DeliveryStatus::Sent.to_string() {
            Some(DeliveryStatus::Sent)
        } else if given == DeliveryStatus::Delivered.to_string() {
            Some(DeliveryStatus::Delivered)
        } else if given == DeliveryStatus::Read.to_string() {
            Some(DeliveryStatus::Read)
        } else {
            None
        }
    }
}

/// A chat message as it is kept in a mailbox.
#[derive(Debug)]
pub struct Message {
    pub id: u32,
    pub text: String,
    pub from_user: UserIdentifier,
    pub chat: u32,
    pub timestamp: u128,
    pub read: DeliveryStatus,
    pub reactions: HashMap<u32, String>,
}

impl Clone for Message {
    fn clone(&self) -> (copy: Self)
        ensures
            copy.id == self.id,
            copy.text == self.text,
            copy.from_user == self.from_user,
            copy.chat == self.chat,
            copy.timestamp == self.timestamp,
            copy.read == self.read,
            copy.reactions@ == self.reactions@,
    {
        Message {
            id: self.id,
            text: self.text.clone(),
            from_user: self.from_user.clone(),
            chat: self.chat,
            timestamp: self.timestamp,
            read: self.read,
            reactions: self.reactions.clone(),
        }
    }
}

/// A message as a client posts it: the sender is named by their token.
pub struct SendMessage {
    pub text: String,
    pub from_user: u32,
    pub chat: u32,
    pub timestamp: u128,
}

impl SendMessage {
    /// The message to keep: fresh, with status `Sent` and no reactions.
    pub fn to_message(&self, id: u32, from_user: UserIdentifier) -> (message: Message)
        ensures
            message.id == id,
            message.text == self.text,
            message.from_user == from_user,
            message.chat == self.chat,
            message.timestamp == self.timestamp,
            message.read == DeliveryStatus::Sent,
            message.reactions@ == Map::<u32, String>::empty(),
    {
        Message {
            id,
            text: self.text.clone(),
            from_user,
            chat: self.chat,
            timestamp: self.timestamp,
            read: DeliveryStatus::Sent,
            reactions: HashMap::new(),
        }
    }
}

/// A group of users that exchange messages.
pub struct Chat {
    pub users: Vec<UserIdentifier>,
    pub name: String,
    pub id: u32,
    pub admin: UserIdentifier,
}

/// The usernames of `users`, in order.
pub open spec fn usernames(users: Seq<UserIdentifier>) -> Seq<Seq<char>> {
    users.map_values(|u: UserIdentifier| u@)
}

/// A copy of `users`, item by item.
pub fn clone_users(users: &Vec<UserIdentifier>) -> (copy: Vec<UserIdentifier>)
    ensures
        copy@ == users@,
{
    let mut copy: Vec<UserIdentifier> = Vec::new();
    let mut i: usize = 0;
    while i < users.len()
        invariant
            i <= users@.len(),
            copy@ == users@.take(i as int),
        decreases users@.len() - i,
    {
        copy.push(users[i].clone());
        assert(copy@ =~= users@.take(i + 1));
        i = i + 1;
    }
    assert(users@.take(i as int) =~= users@);
    copy
}

/// Whether `user` is one of `users`.
pub fn is_member(users: &Vec<UserIdentifier>, user: &UserIdentifier) -> (found: bool)
    ensures
        found == usernames(users@).contains(user@),
{
    let mut i: usize = 0;
    while i < users.len()
        invariant
            i <= users@.len(),
            forall|j: int| 0 <= j < i ==> usernames(users@)[j] != user@,
        decreases users@.len() - i,
    {
        if users[i].username == user.username {
            assert(usernames(users@)[i as int] == user@);
            return true;
        }
        i = i + 1;
    }
    false
}

/// What a client sends to open a chat.
pub struct CreateChat {
    pub users: Vec<UserIdentifier>,
    pub name: String,
    pub admin: UserIdentifier,
}

impl CreateChat {
    pub fn to_chat(&self, id: u32) -> (chat: Chat)
        ensures
            chat.users@ == self.users@,
            chat.name == self.name,
            chat.id == id,
            chat.admin == self.admin,
    {
        Chat {
            users: clone_users(&self.users),
            name: self.name.clone(),
            id,
            admin: self.admin.clone(),
        }
    }
}

/// What the admin of a chat sends to change it.
pub struct ChatEdit {
    pub added_users: Vec<UserIdentifier>,
    pub new_name: String,
    pub new_admin: UserIdentifier,
}

} // verus!
