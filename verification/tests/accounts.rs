use messenger::directory::{join_code_body, token_body, AccountError};
use messenger::message::{ChatEdit, CreateChat, SendMessage};
use messenger::pending::PendingQueue;
use messenger::random::{fresh_key, key_from, probe, KeyError};
use messenger::sendables::SendableType;
use messenger::server::{react_reply, QueryError, Server};
use messenger::user::{CreateUser, UserIdentifier, UserMap, UserProfile};
use messenger::user_db::UserDB;
use std::collections::HashMap;

fn uid(name: &str) -> UserIdentifier {
    UserIdentifier { username: name.to_string() }
}

fn created(name: &str) -> CreateUser {
    CreateUser { name: name.to_string(), color: "red".to_string(), public_key: "pk".to_string() }
}

fn register(server: &mut Server, name: &str) -> u32 {
    server.create_account(name.to_string(), "secret".to_string(), &created(&name.to_uppercase())).unwrap()
}

fn open_chat(server: &mut Server, admin: &str, members: &[&str]) -> u32 {
    let request = CreateChat {
        users: members.iter().map(|m| uid(m)).collect(),
        name: "friends".to_string(),
        admin: uid(admin),
    };
    server.create_chat(&request).unwrap()
}

#[test]
fn probe_finds_the_first_free_key() {
    let mut taken: HashMap<u32, ()> = HashMap::new();
    assert_eq!(probe(&taken, 5), Some(5));
    taken.insert(5, ());
    taken.insert(6, ());
    assert_eq!(probe(&taken, 5), Some(7));
    assert_eq!(probe(&taken, 6), Some(7));
    assert_eq!(probe(&taken, 4), Some(4));
}

#[test]
fn probe_counts_on_from_zero_after_the_largest_key() {
    let mut taken: HashMap<u32, ()> = HashMap::new();
    taken.insert(u32::MAX, ());
    assert_eq!(probe(&taken, u32::MAX), Some(0));
    taken.insert(0, ());
    assert_eq!(probe(&taken, u32::MAX), Some(1));
}

#[test]
fn fresh_key_is_not_in_use() {
    let mut taken: HashMap<u32, ()> = HashMap::new();
    for _ in 0..200 {
        let key = fresh_key(&taken).unwrap();
        assert!(!taken.contains_key(&key));
        taken.insert(key, ());
    }
    assert_eq!(taken.len(), 200);
}

#[test]
fn account_is_created_with_a_session_and_a_profile() {
    let mut server = Server::new();
    let token = server
        .create_account("alice".to_string(), "secret".to_string(), &created("Alice"))
        .unwrap();
    assert!(server.token_valid(token));
    assert!(server.resolve(token).unwrap() == &uid("alice"));
    let profile = server.get_user("alice".to_string()).unwrap();
    assert_eq!(profile.username, "alice");
    assert_eq!(profile.name, "Alice");
    assert_eq!(profile.color, "red");
    assert_eq!(profile.public_key, "pk");
    assert_eq!(profile.pfp, "undefined");
    assert_eq!(server.passwords().get(&uid("alice")), Some(&"secret".to_string()));
}

#[test]
fn username_is_registered_once() {
    let mut server = Server::new();
    register(&mut server, "alice");
    let again = server.create_account("alice".to_string(), "other".to_string(), &created("A"));
    assert_eq!(again, Err(AccountError::Exists));
    assert_eq!(server.passwords().get(&uid("alice")), Some(&"secret".to_string()));
    assert_eq!(server.tokens().len(), 1);
}

#[test]
fn login_opens_another_session() {
    let mut server = Server::new();
    let first = register(&mut server, "alice");
    let second = server.login("alice".to_string(), "secret".to_string()).unwrap();
    assert_ne!(first, second);
    assert!(server.token_valid(first));
    assert!(server.token_valid(second));
    assert!(server.resolve(second).unwrap() == &uid("alice"));
}

#[test]
fn login_is_turned_down() {
    let mut server = Server::new();
    register(&mut server, "alice");
    assert_eq!(
        server.login("bob".to_string(), "secret".to_string()),
        Err(AccountError::NoSuchUser)
    );
    assert_eq!(
        server.login("alice".to_string(), "wrong".to_string()),
        Err(AccountError::WrongPassword)
    );
    assert_eq!(server.tokens().len(), 1);
}

#[test]
fn logout_closes_the_session() {
    let mut server = Server::new();
    let token = register(&mut server, "alice");
    server.logout(token);
    assert!(!server.token_valid(token));
    assert!(server.resolve(token).is_none());
    server.logout(token);
    assert!(server.get_user("alice".to_string()).is_some());
}

#[test]
fn unknown_user_has_no_profile() {
    let server = Server::new();
    assert!(server.get_user("ghost".to_string()).is_none());
}

#[test]
fn account_bodies_are_the_wire_texts() {
    assert_eq!(token_body(42), "{\"token\":42}");
    assert_eq!(token_body(0), "{\"token\":0}");
    assert_eq!(join_code_body(4_294_967_295), "{\"join_code\":4294967295}");
    assert_eq!(AccountError::Exists.body(), "{\"server\":\"exists\"}");
    assert_eq!(AccountError::NoSuchUser.body(), "{\"server\":\"user does not exist\"}");
    assert_eq!(AccountError::WrongPassword.body(), "{\"server\":\"incorrect password\"}");
    assert_eq!(AccountError::Exhausted.body(), "{\"server\":\"no token left\"}");
    assert_eq!(AccountError::Unavailable.body(), "{\"server\":\"no random number\"}");
}

#[test]
fn chat_is_opened_under_a_fresh_id() {
    let mut server = Server::new();
    let a = open_chat(&mut server, "alice", &["alice", "bob"]);
    let b = open_chat(&mut server, "alice", &["alice"]);
    assert_ne!(a, b);
    let chat = server.chats().get(&a).unwrap();
    assert_eq!(chat.id, a);
    assert_eq!(chat.name, "friends");
    assert!(chat.admin == uid("alice"));
    assert_eq!(chat.users.len(), 2);
}

#[test]
fn chat_is_shown_to_members_only() {
    let mut server = Server::new();
    let alice = register(&mut server, "alice");
    let carol = register(&mut server, "carol");
    let chat = open_chat(&mut server, "alice", &["alice", "bob"]);
    assert_eq!(server.get_chat(chat, alice).unwrap().id, chat);
    assert_eq!(server.get_chat(chat, carol).err(), Some(QueryError::UserNotInChat));
    assert_eq!(server.get_chat(chat.wrapping_add(1), alice).err(), Some(QueryError::UnknownChat));
}

#[test]
fn unknown_chat_is_told_before_an_invalid_token() {
    let server = Server::new();
    assert_eq!(server.get_chat(1, 1).err(), Some(QueryError::UnknownChat));
}

#[test]
fn invitation_lets_a_user_join_and_announces_them() {
    let mut server = Server::new();
    let alice = register(&mut server, "alice");
    let carol = register(&mut server, "carol");
    let alice_connection = server.open_channel(alice).unwrap();
    let chat = open_chat(&mut server, "alice", &["alice"]);
    let code = server.create_chat_link(chat, alice).unwrap();
    assert_eq!(server.chat_join_ids().get(&code), Some(&chat));
    let round = server.join_chat_link(code, carol).unwrap().unwrap();
    assert_eq!(round.sendable.sendable_type, SendableType::Banner);
    assert_eq!(
        round.sendable.data,
        format!("{{\"text\":\"CAROL joined this chat\", \"chat\": {}, \"id\": {}}}", chat, round.id)
    );
    assert_eq!(round.report, vec![vec![true], Vec::<bool>::new()]);
    let members = &server.chats().get(&chat).unwrap().users;
    assert_eq!(members.len(), 2);
    assert!(members[1] == uid("carol"));
    assert_eq!(alice_connection.receiver.try_recv().unwrap().data, round.sendable.data);
    // carol was offline: she finds the banner on connecting
    let replay = server.open_channel(carol).unwrap().replay;
    assert_eq!(replay.len(), 1);
    assert_eq!(replay[0].data, round.sendable.data);
    // joining again does nothing
    assert!(server.join_chat_link(code, carol).unwrap().is_none());
    assert_eq!(server.chats().get(&chat).unwrap().users.len(), 2);
}

#[test]
fn invitations_are_turned_down() {
    let mut server = Server::new();
    let alice = register(&mut server, "alice");
    let carol = register(&mut server, "carol");
    let chat = open_chat(&mut server, "alice", &["alice"]);
    assert_eq!(server.create_chat_link(chat.wrapping_add(1), alice), Err(QueryError::UnknownChat));
    assert_eq!(server.create_chat_link(chat, carol), Err(QueryError::UserNotInChat));
    server.logout(carol);
    assert_eq!(server.create_chat_link(chat, carol), Err(QueryError::InvalidToken));
    let code = server.create_chat_link(chat, alice).unwrap();
    assert_eq!(server.join_chat_link(code, carol).err(), Some(QueryError::InvalidToken));
    assert_eq!(server.join_chat_link(code.wrapping_add(1), alice).err(), Some(QueryError::NotFound));
}

#[test]
fn admin_edits_the_chat_and_new_members_are_announced() {
    let mut server = Server::new();
    let alice = register(&mut server, "alice");
    register(&mut server, "bob");
    let alice_connection = server.open_channel(alice).unwrap();
    let chat = open_chat(&mut server, "alice", &["alice"]);
    let edit = ChatEdit {
        added_users: vec![uid("bob"), uid("stranger")],
        new_name: "renamed".to_string(),
        new_admin: uid("bob"),
    };
    let rounds = server.edit_chat(chat, alice, &edit).unwrap();
    assert_eq!(rounds.len(), 2);
    assert_eq!(
        rounds[0].sendable.data,
        format!("{{\"text\":\"BOB joined this chat\", \"chat\": {}, \"id\": {}}}", chat, rounds[0].id)
    );
    // a user without a profile is announced without a name
    assert_eq!(
        rounds[1].sendable.data,
        format!("{{\"text\":\" joined this chat\", \"chat\": {}, \"id\": {}}}", chat, rounds[1].id)
    );
    assert_eq!(rounds[0].report.len(), 3);
    assert_eq!(rounds[0].report[0], vec![true]);
    let held = server.chats().get(&chat).unwrap();
    assert_eq!(held.name, "renamed");
    assert!(held.admin == uid("bob"));
    assert_eq!(held.users.len(), 3);
    assert!(held.users[2] == uid("stranger"));
    assert_eq!(alice_connection.receiver.try_recv().unwrap().data, rounds[0].sendable.data);
    assert_eq!(alice_connection.receiver.try_recv().unwrap().data, rounds[1].sendable.data);
    // alice is not the admin any more
    assert_eq!(server.edit_chat(chat, alice, &edit).err(), Some(QueryError::NotAdmin));
}

#[test]
fn edits_are_turned_down() {
    let mut server = Server::new();
    let alice = register(&mut server, "alice");
    let bob = register(&mut server, "bob");
    let chat = open_chat(&mut server, "alice", &["alice", "bob"]);
    let edit =
        ChatEdit { added_users: Vec::new(), new_name: "x".to_string(), new_admin: uid("bob") };
    assert_eq!(server.edit_chat(chat, bob, &edit).err(), Some(QueryError::NotAdmin));
    assert_eq!(server.edit_chat(chat.wrapping_add(1), alice, &edit).err(), Some(QueryError::UnknownChat));
    server.logout(bob);
    assert_eq!(server.edit_chat(chat, bob, &edit).err(), Some(QueryError::InvalidToken));
    assert_eq!(server.chats().get(&chat).unwrap().name, "friends");
}

#[test]
fn reaction_is_fanned_out_to_the_chat() {
    let mut server = Server::new();
    let alice = register(&mut server, "alice");
    let bob = register(&mut server, "bob");
    let carol = register(&mut server, "carol");
    let bob_connection = server.open_channel(bob).unwrap();
    let chat = open_chat(&mut server, "alice", &["alice", "bob"]);
    let outcome = server.react_message(alice, chat, 3, "+1".to_string());
    assert_eq!(react_reply(&outcome), "Thank you :)");
    let fanout = outcome.unwrap();
    assert_eq!(fanout.sendable.sendable_type, SendableType::Reaction);
    assert_eq!(
        fanout.sendable.data,
        format!("{{\"emoji\":\"+1\", \"message\":3, \"from\":\"alice\", \"chat\":{}}}", chat)
    );
    assert_eq!(fanout.report, vec![Vec::<bool>::new(), vec![true]]);
    assert_eq!(bob_connection.receiver.try_recv().unwrap().data, fanout.sendable.data);
    let outsider = server.react_message(carol, chat, 3, "+1".to_string());
    assert_eq!(react_reply(&outsider), "Thank you :)");
    assert_eq!(outsider.err(), Some(QueryError::UserNotInChat));
    let nowhere = server.react_message(alice, chat.wrapping_add(1), 3, "+1".to_string());
    assert_eq!(nowhere.err(), Some(QueryError::UnknownChat));
    server.logout(carol);
    let invalid = server.react_message(carol, chat, 3, "+1".to_string());
    assert_eq!(react_reply(&invalid), "Invalid Token >:(");
    assert_eq!(invalid.err(), Some(QueryError::InvalidToken));
}

#[test]
fn drafts_become_messages_for_the_other_users() {
    let mut server = Server::new();
    let alice = register(&mut server, "alice");
    let drafts = vec![
        (
            "bob".to_string(),
            SendMessage { text: "for bob".to_string(), from_user: alice, chat: 7, timestamp: 1000 },
        ),
        (
            "alice".to_string(),
            SendMessage { text: "for me".to_string(), from_user: alice, chat: 7, timestamp: 1000 },
        ),
        (
            "carol".to_string(),
            SendMessage { text: "for carol".to_string(), from_user: alice, chat: 7, timestamp: 1000 },
        ),
    ];
    let out = server.draft_messages(alice, &drafts).unwrap();
    assert_eq!(out.len(), 2);
    assert_eq!(out[0].to_user.username, "bob");
    assert_eq!(out[0].message.id, 0);
    assert_eq!(out[0].message.text, "for bob");
    assert_eq!(out[0].message.chat, 7);
    assert_eq!(out[0].message.timestamp, 1000);
    assert!(out[0].message.from_user == uid("alice"));
    assert_eq!(out[1].to_user.username, "carol");
    assert_eq!(out[1].message.id, 0);
    server.set_self_delivery(true);
    let all = server.draft_messages(alice, &drafts).unwrap();
    assert_eq!(all.len(), 3);
    assert_eq!(all[1].to_user.username, "alice");
    assert_eq!(all[1].message.text, "for me");
}

#[test]
fn drafts_need_valid_tokens() {
    let mut server = Server::new();
    let alice = register(&mut server, "alice");
    let good = SendMessage { text: "a".to_string(), from_user: alice, chat: 7, timestamp: 1 };
    let bad = SendMessage {
        text: "b".to_string(),
        from_user: alice.wrapping_add(1),
        chat: 7,
        timestamp: 1,
    };
    let drafts = vec![("bob".to_string(), good), ("carol".to_string(), bad)];
    assert_eq!(server.draft_messages(alice, &drafts).err(), Some(QueryError::InvalidToken));
    assert_eq!(
        server.draft_messages(alice.wrapping_add(1), &Vec::new()).err(),
        Some(QueryError::InvalidToken)
    );
    assert!(server.draft_messages(alice, &Vec::new()).unwrap().is_empty());
    assert_eq!(
        server.post_message(alice.wrapping_add(1), &Vec::new()).err(),
        Some(QueryError::InvalidToken)
    );
    assert_eq!(server.post_message(alice, &drafts).err(), Some(QueryError::InvalidToken));
    assert_eq!(server.next_id(7), 0);
}

#[test]
fn message_ids_rise_per_chat() {
    let mut server = Server::new();
    let alice = register(&mut server, "alice");
    let to = |user: &str, chat: u32| {
        (
            user.to_string(),
            SendMessage { text: "t".to_string(), from_user: alice, chat, timestamp: 5 },
        )
    };
    // one request, two recipients in one chat: both copies share the id
    let first = server.post_message(alice, &vec![to("bob", 7), to("carol", 7)]).unwrap();
    assert_eq!(first.len(), 2);
    assert_eq!(first[0].message.id, 0);
    assert_eq!(first[1].message.id, 0);
    assert_eq!(server.next_id(7), 1);
    assert_eq!(server.next_id(8), 0);
    let second = server.post_message(alice, &vec![to("bob", 7), to("bob", 8)]).unwrap();
    assert_eq!(second[0].message.id, 1);
    assert_eq!(second[1].message.id, 0);
    assert_eq!(server.next_id(7), 2);
    assert_eq!(server.next_id(8), 1);
    // a request that makes no message takes no id
    assert!(server.post_message(alice, &vec![to("alice", 7)]).unwrap().is_empty());
    assert_eq!(server.next_id(7), 2);
}

#[test]
fn a_chat_without_an_id_left_takes_no_message() {
    let mut ids: HashMap<u32, u32> = HashMap::new();
    ids.insert(7, u32::MAX);
    ids.insert(8, u32::MAX - 1);
    let mut tokens: HashMap<u32, UserIdentifier> = HashMap::new();
    tokens.insert(9, uid("alice"));
    let mut server = Server::from_parts(
        UserMap::new(),
        tokens,
        HashMap::new(),
        UserMap::new(),
        PendingQueue::new(),
        HashMap::new(),
        UserMap::new(),
        ids,
    );
    let to = |chat: u32| {
        ("bob".to_string(), SendMessage { text: "t".to_string(), from_user: 9, chat, timestamp: 5 })
    };
    assert_eq!(server.post_message(9, &vec![to(8), to(7)]).err(), Some(QueryError::Exhausted));
    assert_eq!(server.next_id(8), u32::MAX - 1);
    let last = server.post_message(9, &vec![to(8)]).unwrap();
    assert_eq!(last[0].message.id, u32::MAX - 1);
    assert_eq!(server.next_id(8), u32::MAX);
    assert_eq!(server.post_message(9, &vec![to(8)]).err(), Some(QueryError::Exhausted));
}

#[test]
fn banners_take_the_next_ids_of_their_chat() {
    let mut server = Server::new();
    let alice = register(&mut server, "alice");
    let chat = open_chat(&mut server, "alice", &["alice"]);
    let edit = ChatEdit {
        added_users: vec![uid("bob"), uid("carol")],
        new_name: "x".to_string(),
        new_admin: uid("alice"),
    };
    let rounds = server.edit_chat(chat, alice, &edit).unwrap();
    assert_eq!(rounds[0].id, 0);
    assert_eq!(rounds[1].id, 1);
    assert_eq!(server.next_id(chat), 2);
}

#[test]
fn keys_come_from_the_number_that_was_drawn() {
    let mut taken: HashMap<u32, ()> = HashMap::new();
    taken.insert(5, ());
    assert_eq!(key_from(&taken, Some(4)), Ok(4));
    assert_eq!(key_from(&taken, Some(5)), Ok(6));
    assert_eq!(key_from(&taken, None), Err(KeyError::Unavailable));
}

#[test]
fn without_a_random_number_nothing_is_opened() {
    let mut server = Server::new();
    let made = server.create_account_with("alice".to_string(), "s".to_string(), &created("A"), None);
    assert_eq!(made, Err(AccountError::Unavailable));
    assert!(server.get_user("alice".to_string()).is_none());
    let token = server
        .create_account_with("alice".to_string(), "s".to_string(), &created("A"), Some(41))
        .unwrap();
    assert_eq!(token, 41);
    assert_eq!(
        server.create_account_with("alice".to_string(), "s".to_string(), &created("A"), None),
        Err(AccountError::Exists)
    );
    assert_eq!(
        server.login_with("alice".to_string(), "s".to_string(), None),
        Err(AccountError::Unavailable)
    );
    assert_eq!(
        server.login_with("alice".to_string(), "wrong".to_string(), None),
        Err(AccountError::WrongPassword)
    );
    assert_eq!(server.login_with("alice".to_string(), "s".to_string(), Some(41)), Ok(42));
    let request = CreateChat { users: vec![uid("alice")], name: "c".to_string(), admin: uid("alice") };
    assert_eq!(server.create_chat_with(&request, None), Err(KeyError::Unavailable));
    assert_eq!(server.create_chat_with(&request, Some(3)), Ok(3));
    assert_eq!(server.create_chat_with(&request, Some(3)), Ok(4));
    assert_eq!(server.create_chat_link_with(3, 41, None), Err(QueryError::Unavailable));
    assert_eq!(server.create_chat_link_with(9, 41, None), Err(QueryError::UnknownChat));
    assert_eq!(server.create_chat_link_with(3, 41, Some(77)), Ok(77));
    assert_eq!(server.chat_join_ids().get(&77), Some(&3));
}

#[test]
fn picture_is_changed_and_taken_away() {
    let mut server = Server::new();
    let alice = register(&mut server, "alice");
    assert!(server.change_pfp(alice, "https://example.org/alice.png".to_string()));
    assert_eq!(server.get_user("alice".to_string()).unwrap().pfp, "https://example.org/alice.png");
    assert_eq!(server.get_user("alice".to_string()).unwrap().name, "ALICE");
    assert!(server.delete_pfp(alice));
    assert_eq!(server.get_user("alice".to_string()).unwrap().pfp, "undefined");
    assert!(!server.change_pfp(alice.wrapping_add(1), "x".to_string()));
    assert!(!server.delete_pfp(alice.wrapping_add(1)));
}

#[test]
fn invitation_is_described_by_a_meta_tag() {
    let mut server = Server::new();
    let alice = register(&mut server, "alice");
    let chat = open_chat(&mut server, "alice", &["alice"]);
    let code = server.create_chat_link(chat, alice).unwrap();
    assert_eq!(
        server.invitation(code).unwrap(),
        "<meta name=\"description\" content=\"You are invited to join ALICE's chat: friends\nClick here to join\"/>"
    );
    assert!(server.invitation(code.wrapping_add(1)).is_none());
    let orphan = open_chat(&mut server, "nobody", &["alice"]);
    let orphan_code = server.create_chat_link(orphan, alice).unwrap();
    assert!(server.invitation(orphan_code).is_none());
}

#[test]
fn saved_state_is_restored_without_channels() {
    let mut users: UserMap<UserProfile> = UserMap::new();
    users.insert(uid("alice"), UserProfile::dummy("alice".to_string()));
    let mut tokens: HashMap<u32, UserIdentifier> = HashMap::new();
    tokens.insert(9, uid("alice"));
    let mut passwords: UserMap<String> = UserMap::new();
    passwords.insert(uid("alice"), "secret".to_string());
    let mut pending = PendingQueue::new();
    pending.enqueue(&uid("alice"), messenger::sendables::banner_at("b", 1, 2, Some(3)));
    let mut boxes: UserMap<UserDB> = UserMap::new();
    boxes.insert(uid("alice"), UserDB::new());
    let mut codes: HashMap<u32, u32> = HashMap::new();
    codes.insert(4, 5);
    let mut server =
        Server::from_parts(
            users,
            tokens,
            HashMap::new(),
            passwords,
            pending,
            codes,
            boxes,
            HashMap::new(),
        );
    assert!(server.token_valid(9));
    assert_eq!(server.live_channels(&uid("alice")), 0);
    assert_eq!(server.chat_join_ids().get(&4), Some(&5));
    assert!(server.mailbox(&uid("alice")).is_some());
    assert_eq!(server.pending().sendables().get(&uid("alice")).unwrap().len(), 1);
    assert!(server.pending().messages().get(&uid("alice")).is_none());
    let replay = server.open_channel(9).unwrap().replay;
    assert_eq!(replay.len(), 1);
    assert_eq!(server.login("alice".to_string(), "secret".to_string()).is_ok(), true);
}
