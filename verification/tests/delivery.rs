use messenger::actions::{send_message, send_sendable};
use messenger::channel::{offer, retain_accepted, DeliveryChannel};
use messenger::message::{DeliveryStatus, Message};
use messenger::pending::{drop_id, PendingMessage, PendingQueue};
use messenger::registry::ConnectionRegistry;
use messenger::sendables::{banner_at, Sendable, SendableType};
use messenger::server::{any, QueryError, Server};
use messenger::user::{CreateUser, UserIdentifier};
use messenger::user_db::{get_chat_messages, get_chats, get_message, TimeStamped};
use std::collections::HashMap;
use std::sync::mpsc::channel;

fn uid(name: &str) -> UserIdentifier {
    UserIdentifier { username: name.to_string() }
}

fn event(text: &str) -> Sendable {
    Sendable::new(SendableType::Banner, format!("\"{}\"", text), Some(1))
}

fn register(server: &mut Server, name: &str) -> u32 {
    let created = CreateUser {
        name: name.to_uppercase(),
        color: "red".to_string(),
        public_key: "pk".to_string(),
    };
    server.create_account(name.to_string(), "secret".to_string(), &created).unwrap()
}

fn chat_message(id: u32, chat: u32, text: &str, timestamp: u128, from: &str) -> Message {
    Message {
        id,
        text: text.to_string(),
        from_user: uid(from),
        chat,
        timestamp,
        read: DeliveryStatus::Sent,
        reactions: HashMap::new(),
    }
}

#[test]
fn any_tells_whether_one_answer_is_yes() {
    assert!(!any(&Vec::new()));
    assert!(!any(&vec![false, false]));
    assert!(any(&vec![false, true]));
    assert!(any(&vec![true]));
}

#[test]
fn offer_to_no_channel_gives_no_answer() {
    let channels: Vec<DeliveryChannel> = Vec::new();
    let answers = offer(&channels, &event("x"));
    assert!(answers.is_empty());
}

#[test]
fn retain_keeps_what_was_accepted_in_order() {
    let mut items = vec!['a', 'b', 'c', 'd'];
    retain_accepted(&mut items, &vec![true, false, true, false]);
    assert_eq!(items, vec!['a', 'c']);
    let mut all = vec![1, 2, 3];
    retain_accepted(&mut all, &vec![true, true, true]);
    assert_eq!(all, vec![1, 2, 3]);
    let mut none = vec![1, 2, 3];
    retain_accepted(&mut none, &vec![false, false, false]);
    assert!(none.is_empty());
}

#[test]
fn retain_drops_what_has_no_answer() {
    let mut items = vec!['a', 'b', 'c'];
    retain_accepted(&mut items, &vec![true]);
    assert_eq!(items, vec!['a']);
    let mut more = vec!['a'];
    retain_accepted(&mut more, &vec![true, true, false]);
    assert_eq!(more, vec!['a']);
    let mut empty: Vec<char> = Vec::new();
    retain_accepted(&mut empty, &vec![true]);
    assert!(empty.is_empty());
}

#[test]
fn snapshot_offer_and_detach_make_up_a_push() {
    let mut registry = ConnectionRegistry::new();
    let (s1, r1) = channel::<Sendable>();
    let (s2, r2) = channel::<Sendable>();
    registry.attach(&uid("bob"), s1);
    registry.attach(&uid("bob"), s2);
    assert!(registry.snapshot(&uid("carol")).is_none());
    drop(r1);
    let answers = offer(registry.snapshot(&uid("bob")).unwrap(), &event("x"));
    assert_eq!(answers, vec![false, true]);
    assert_eq!(registry.snapshot(&uid("bob")).unwrap().len(), 2);
    registry.detach_failed(&uid("bob"), &answers);
    assert_eq!(registry.snapshot(&uid("bob")).unwrap().len(), 1);
    assert_eq!(r2.try_recv().unwrap().data, "\"x\"");
    registry.detach_failed(&uid("carol"), &vec![true]);
    assert_eq!(registry.live(&uid("carol")), 0);
}

#[test]
fn registry_pushes_to_every_channel_of_the_user() {
    let mut registry = ConnectionRegistry::new();
    let (s1, r1) = channel::<Sendable>();
    let (s2, r2) = channel::<Sendable>();
    let (s3, r3) = channel::<Sendable>();
    registry.attach(&uid("bob"), s1);
    registry.attach(&uid("bob"), s2);
    registry.attach(&uid("carol"), s3);
    assert_eq!(registry.live(&uid("bob")), 2);
    assert_eq!(registry.live(&uid("carol")), 1);
    assert_eq!(registry.live(&uid("dave")), 0);
    let answers = registry.push_all(&uid("bob"), &event("hello"));
    assert_eq!(answers, vec![true, true]);
    assert_eq!(r1.try_recv().unwrap().data, "\"hello\"");
    assert_eq!(r2.try_recv().unwrap().data, "\"hello\"");
    assert!(r1.try_recv().is_err());
    assert!(r3.try_recv().is_err());
    assert_eq!(registry.live(&uid("bob")), 2);
}

#[test]
fn registry_drops_the_channels_that_fail() {
    let mut registry = ConnectionRegistry::new();
    let (s1, r1) = channel::<Sendable>();
    let (s2, r2) = channel::<Sendable>();
    let (s3, r3) = channel::<Sendable>();
    registry.attach(&uid("bob"), s1);
    registry.attach(&uid("bob"), s2);
    registry.attach(&uid("bob"), s3);
    drop(r2);
    let answers = registry.push_all(&uid("bob"), &event("one"));
    assert_eq!(answers, vec![true, false, true]);
    assert_eq!(registry.live(&uid("bob")), 2);
    // the two that are left are the first and the third, in that order
    drop(r1);
    let again = registry.push_all(&uid("bob"), &event("two"));
    assert_eq!(again, vec![false, true]);
    assert_eq!(registry.live(&uid("bob")), 1);
    assert_eq!(r3.try_recv().unwrap().data, "\"one\"");
    assert_eq!(r3.try_recv().unwrap().data, "\"two\"");
}

#[test]
fn registry_push_to_a_user_without_channels() {
    let mut registry = ConnectionRegistry::new();
    assert!(registry.push_all(&uid("nobody"), &event("x")).is_empty());
    assert_eq!(registry.live(&uid("nobody")), 0);
}

#[test]
fn queue_hands_events_out_oldest_first_and_once() {
    let mut queue = PendingQueue::new();
    queue.enqueue(&uid("alice"), event("a"));
    queue.enqueue(&uid("bob"), event("x"));
    queue.enqueue(&uid("alice"), event("b"));
    let drained = queue.drain(&uid("alice"));
    let texts: Vec<String> = drained.iter().map(|s| s.data.clone()).collect();
    assert_eq!(texts, vec!["\"a\"".to_string(), "\"b\"".to_string()]);
    assert!(queue.drain(&uid("alice")).is_empty());
    assert_eq!(queue.drain(&uid("bob")).len(), 1);
    assert!(queue.drain(&uid("carol")).is_empty());
}

#[test]
fn queue_keeps_messages_until_they_are_acknowledged() {
    let mut queue = PendingQueue::new();
    queue.enqueue_message(&uid("alice"), 7, 1, event("m1"));
    queue.enqueue_message(&uid("alice"), 7, 2, event("m2"));
    assert_eq!(queue.unacknowledged_of(&uid("alice")).len(), 2);
    assert_eq!(queue.unacknowledged_of(&uid("alice")).len(), 2);
    assert!(!queue.acknowledge(&uid("alice"), 8, 1));
    assert!(queue.acknowledge(&uid("alice"), 7, 1));
    assert!(!queue.acknowledge(&uid("alice"), 7, 1));
    assert!(!queue.acknowledge(&uid("bob"), 7, 2));
    let left = queue.unacknowledged_of(&uid("alice"));
    assert_eq!(left.len(), 1);
    assert_eq!(left[0].data, "\"m2\"");
}

#[test]
fn queue_keeps_one_message_per_id() {
    let mut queue = PendingQueue::new();
    queue.enqueue_message(&uid("alice"), 7, 1, event("old"));
    queue.enqueue_message(&uid("alice"), 7, 2, event("other"));
    queue.enqueue_message(&uid("alice"), 7, 1, event("new"));
    let held = queue.unacknowledged_of(&uid("alice"));
    let texts: Vec<String> = held.iter().map(|s| s.data.clone()).collect();
    assert_eq!(texts, vec!["\"other\"".to_string(), "\"new\"".to_string()]);
}

#[test]
fn replay_is_messages_then_events() {
    let mut queue = PendingQueue::new();
    queue.enqueue(&uid("alice"), event("banner"));
    queue.enqueue_message(&uid("alice"), 7, 1, event("message"));
    let replay = queue.take_replay(&uid("alice"));
    let texts: Vec<String> = replay.iter().map(|s| s.data.clone()).collect();
    assert_eq!(texts, vec!["\"message\"".to_string(), "\"banner\"".to_string()]);
    // the events are gone, the message waits for its acknowledgement
    let again = queue.take_replay(&uid("alice"));
    assert_eq!(again.len(), 1);
    assert_eq!(again[0].data, "\"message\"");
}

#[test]
fn drop_id_takes_every_message_of_the_id() {
    let mut list = vec![
        PendingMessage { chat: 7, id: 1, sendable: event("a") },
        PendingMessage { chat: 7, id: 2, sendable: event("b") },
        PendingMessage { chat: 7, id: 1, sendable: event("c") },
        PendingMessage { chat: 8, id: 1, sendable: event("d") },
    ];
    assert!(drop_id(&mut list, 7, 1));
    let ids: Vec<(u32, u32)> = list.iter().map(|m| (m.chat, m.id)).collect();
    assert_eq!(ids, vec![(7, 2), (8, 1)]);
    assert!(!drop_id(&mut list, 7, 1));
    assert_eq!(list.len(), 2);
}

#[test]
fn new_server_is_empty() {
    let server = Server::new();
    assert_eq!(server.live_channels(&uid("alice")), 0);
    assert!(server.resolve(1).is_none());
    assert!(server.tokens().is_empty());
    assert!(server.chats().is_empty());
    assert!(server.chat_join_ids().is_empty());
    assert_eq!(server.users().len(), 0);
    assert_eq!(server.passwords().len(), 0);
    assert_eq!(server.mailboxes().len(), 0);
    assert!(server.mailbox(&uid("alice")).is_none());
}

#[test]
fn event_for_an_offline_user_is_replayed_on_connect() {
    let mut server = Server::new();
    let token = register(&mut server, "alice");
    let report = send_sendable(event("hi"), &vec![uid("alice")], &mut server);
    assert_eq!(report, vec![Vec::<bool>::new()]);
    let connection = server.open_channel(token).unwrap();
    assert_eq!(connection.replay.len(), 1);
    assert_eq!(connection.replay[0].data, "\"hi\"");
    assert!(connection.receiver.try_recv().is_err());
    // handed out once
    let second = server.open_channel(token).unwrap();
    assert!(second.replay.is_empty());
}

#[test]
fn offline_chat_message_is_replayed_as_a_message_event() {
    // alice has no channel; a message with id 1 in chat 7, text "hi", time 1000
    let mut server = Server::new();
    let token = register(&mut server, "alice");
    let payload = "{\"id\":1,\"text\":\"hi\",\"chat\":7,\"timestamp\":1000}".to_string();
    let answers = send_message(
        chat_message(1, 7, "hi", 1000, "bob"),
        payload.clone(),
        uid("alice"),
        &mut server,
    );
    assert!(answers.is_empty());
    let connection = server.open_channel(token).unwrap();
    assert_eq!(connection.replay.len(), 1);
    assert_eq!(connection.replay[0].sendable_type, SendableType::Message);
    assert_eq!(connection.replay[0].data, payload);
    assert_eq!(connection.replay[0].timestamp, None);
    assert_eq!(
        connection.replay[0].to_string(),
        "{\"message\":{\"id\":1,\"text\":\"hi\",\"chat\":7,\"timestamp\":1000}}"
    );
    // and it is in her mailbox
    let entry = get_message(token, 7, 1, &server).unwrap();
    assert_eq!(entry.message.as_ref().unwrap().text, "hi");
    assert_eq!(entry.get_timestamp(), 1000);
}

#[test]
fn both_devices_receive_and_nothing_is_queued() {
    let mut server = Server::new();
    let token = register(&mut server, "bob");
    let c1 = server.open_channel(token).unwrap();
    let c2 = server.open_channel(token).unwrap();
    assert_eq!(server.live_channels(&uid("bob")), 2);
    let sendable = banner_at("welcome", 7, 1, Some(5));
    let report = send_sendable(sendable, &vec![uid("bob")], &mut server);
    assert_eq!(report, vec![vec![true, true]]);
    let got1 = c1.receiver.try_recv().unwrap();
    let got2 = c2.receiver.try_recv().unwrap();
    assert_eq!(got1.sendable_type, SendableType::Banner);
    assert_eq!(got1.data, "{\"text\":\"welcome\", \"chat\": 7, \"id\": 1}");
    assert_eq!(got2.data, got1.data);
    assert!(c1.receiver.try_recv().is_err());
    assert!(c2.receiver.try_recv().is_err());
    let c3 = server.open_channel(token).unwrap();
    assert!(c3.replay.is_empty());
    assert_eq!(server.live_channels(&uid("bob")), 3);
}

#[test]
fn failed_channel_is_dropped_and_the_event_is_queued() {
    let mut server = Server::new();
    let token = register(&mut server, "carol");
    let dead = server.open_channel(token).unwrap();
    drop(dead);
    assert_eq!(server.live_channels(&uid("carol")), 1);
    let report = send_sendable(event("lost?"), &vec![uid("carol")], &mut server);
    assert_eq!(report, vec![vec![false]]);
    assert_eq!(server.live_channels(&uid("carol")), 0);
    let fresh = server.open_channel(token).unwrap();
    assert_eq!(fresh.replay.len(), 1);
    assert_eq!(fresh.replay[0].data, "\"lost?\"");
    assert_eq!(server.live_channels(&uid("carol")), 1);
    // only the fresh channel is pushed to from now on
    let again = send_sendable(event("now"), &vec![uid("carol")], &mut server);
    assert_eq!(again, vec![vec![true]]);
    assert_eq!(fresh.receiver.try_recv().unwrap().data, "\"now\"");
}

#[test]
fn one_live_channel_is_enough_to_queue_nothing() {
    let mut server = Server::new();
    let token = register(&mut server, "dave");
    let dead = server.open_channel(token).unwrap();
    let live = server.open_channel(token).unwrap();
    drop(dead);
    let report = send_sendable(event("e"), &vec![uid("dave")], &mut server);
    assert_eq!(report, vec![vec![false, true]]);
    assert_eq!(live.receiver.try_recv().unwrap().data, "\"e\"");
    assert_eq!(server.live_channels(&uid("dave")), 1);
    let next = server.open_channel(token).unwrap();
    assert!(next.replay.is_empty());
}

#[test]
fn fanout_reaches_each_recipient_in_turn() {
    let mut server = Server::new();
    let alice = register(&mut server, "alice");
    let bob = register(&mut server, "bob");
    let bob_connection = server.open_channel(bob).unwrap();
    let report =
        send_sendable(event("all"), &vec![uid("alice"), uid("bob"), uid("alice")], &mut server);
    assert_eq!(report, vec![Vec::<bool>::new(), vec![true], Vec::<bool>::new()]);
    assert_eq!(bob_connection.receiver.try_recv().unwrap().data, "\"all\"");
    // alice was named twice and was offline both times
    let replay = server.open_channel(alice).unwrap().replay;
    assert_eq!(replay.len(), 2);
}

#[test]
fn fanout_to_nobody_changes_nothing() {
    let mut server = Server::new();
    let report = send_sendable(event("x"), &Vec::new(), &mut server);
    assert!(report.is_empty());
}

#[test]
fn deliver_answers_once_per_channel() {
    let mut server = Server::new();
    let token = register(&mut server, "erin");
    let keep = server.open_channel(token).unwrap();
    let answers = server.deliver(&uid("erin"), &event("one"));
    assert_eq!(answers, vec![true]);
    assert_eq!(keep.receiver.try_recv().unwrap().data, "\"one\"");
}

#[test]
fn live_chat_message_is_delivered_and_kept_in_the_mailbox_only() {
    let mut server = Server::new();
    let token = register(&mut server, "alice");
    let connection = server.open_channel(token).unwrap();
    let answers =
        send_message(chat_message(4, 7, "yo", 2000, "bob"), "{\"id\":4}".to_string(), uid("alice"), &mut server);
    assert_eq!(answers, vec![true]);
    let got = connection.receiver.try_recv().unwrap();
    assert_eq!(got.sendable_type, SendableType::Message);
    assert_eq!(got.data, "{\"id\":4}");
    assert!(!server.acknowledge(&uid("alice"), 7, 4));
    assert!(get_message(token, 7, 4, &server).is_ok());
    let next = server.open_channel(token).unwrap();
    assert!(next.replay.is_empty());
}

#[test]
fn unacknowledged_message_is_replayed_until_acknowledged() {
    let mut server = Server::new();
    let token = register(&mut server, "alice");
    send_message(chat_message(1, 7, "hi", 1000, "bob"), "{}".to_string(), uid("alice"), &mut server);
    assert_eq!(server.open_channel(token).unwrap().replay.len(), 1);
    assert_eq!(server.open_channel(token).unwrap().replay.len(), 1);
    assert!(server.acknowledge(&uid("alice"), 7, 1));
    assert!(server.open_channel(token).unwrap().replay.is_empty());
}

#[test]
fn acknowledging_posts_one_receipt_to_the_sender() {
    let mut server = Server::new();
    let alice = register(&mut server, "alice");
    let bob = register(&mut server, "bob");
    let bob_connection = server.open_channel(bob).unwrap();
    send_message(chat_message(1, 7, "hi", 1000, "bob"), "{}".to_string(), uid("alice"), &mut server);
    assert_eq!(server.pending().unacknowledged_of(&uid("alice")).len(), 1);
    let posted = server.received_message(alice, 7, 1).unwrap();
    assert!(posted.to_user == uid("bob"));
    assert_eq!(posted.accepted, vec![true]);
    assert_eq!(posted.sendable.sendable_type, SendableType::Read);
    assert_eq!(
        posted.sendable.data,
        "{\"status\":\"Delivered\", \"message\":{\"id\":1, \"chat\":7}, \"from\":\"alice\"}"
    );
    assert!(server.pending().unacknowledged_of(&uid("alice")).is_empty());
    let receipt = bob_connection.receiver.try_recv().unwrap();
    assert_eq!(receipt.sendable_type, SendableType::Read);
    assert_eq!(receipt.data, posted.sendable.data);
    assert_eq!(receipt.timestamp, posted.sendable.timestamp);
    // exactly one
    assert!(bob_connection.receiver.try_recv().is_err());
    assert!(server.open_channel(alice).unwrap().replay.is_empty());
}

#[test]
fn receipt_goes_to_the_sender_that_the_mailbox_names() {
    let mut server = Server::new();
    let alice = register(&mut server, "alice");
    let bob = register(&mut server, "bob");
    let carol = register(&mut server, "carol");
    let carol_connection = server.open_channel(carol).unwrap();
    send_message(chat_message(1, 7, "hi", 1000, "bob"), "{}".to_string(), uid("alice"), &mut server);
    let posted = server.received_message(alice, 7, 1).unwrap();
    assert!(posted.to_user == uid("bob"));
    // bob is offline: the receipt waits for him, and nobody else gets it
    assert!(posted.accepted.is_empty());
    assert!(carol_connection.receiver.try_recv().is_err());
    let replay = server.open_channel(bob).unwrap().replay;
    assert_eq!(replay.len(), 1);
    assert_eq!(replay[0].sendable_type, SendableType::Read);
    assert_eq!(replay[0].data, posted.sendable.data);
}

#[test]
fn receipts_need_a_valid_token_and_a_message_that_is_held() {
    let mut server = Server::new();
    let alice = register(&mut server, "alice");
    register(&mut server, "bob");
    assert_eq!(
        server.received_message(alice.wrapping_add(1), 7, 1).err(),
        Some(QueryError::InvalidToken)
    );
    assert_eq!(
        server.read_message(alice.wrapping_add(1), 7, 1).err(),
        Some(QueryError::InvalidToken)
    );
    assert_eq!(server.received_message(alice, 7, 1).err(), Some(QueryError::UnknownChat));
    assert_eq!(server.read_message(alice, 7, 1).err(), Some(QueryError::UnknownChat));
    send_message(chat_message(1, 7, "hi", 1000, "bob"), "{}".to_string(), uid("alice"), &mut server);
    assert_eq!(server.received_message(alice, 7, 2).err(), Some(QueryError::NotFound));
    assert_eq!(server.read_message(alice, 8, 1).err(), Some(QueryError::UnknownChat));
    // a refusal changes nothing: the message still waits
    assert_eq!(server.pending().unacknowledged_of(&uid("alice")).len(), 1);
    assert!(server.received_message(alice, 7, 1).is_ok());
}

#[test]
fn read_receipt_has_the_status_read() {
    let mut server = Server::new();
    let alice = register(&mut server, "alice");
    let bob = register(&mut server, "bob");
    let bob_connection = server.open_channel(bob).unwrap();
    send_message(chat_message(3, 7, "hi", 1000, "bob"), "{}".to_string(), uid("alice"), &mut server);
    let posted = server.read_message(alice, 7, 3).unwrap();
    assert!(posted.to_user == uid("bob"));
    assert_eq!(
        posted.sendable.data,
        "{\"status\":\"Read\", \"message\":{\"id\":3, \"chat\":7}, \"from\":\"alice\"}"
    );
    assert_eq!(bob_connection.receiver.try_recv().unwrap().data, posted.sendable.data);
    // reading is no acknowledgement
    assert_eq!(server.pending().unacknowledged_of(&uid("alice")).len(), 1);
}

#[test]
fn dead_channels_queue_each_event_behind_what_waited() {
    let mut server = Server::new();
    let bob = register(&mut server, "bob");
    let first = server.open_channel(bob).unwrap();
    let second = server.open_channel(bob).unwrap();
    drop(first);
    drop(second);
    let a = Sendable::new(SendableType::Read, "1".to_string(), Some(1));
    let b = Sendable::new(SendableType::Banner, "{}".to_string(), Some(5));
    assert_eq!(send_sendable(a, &vec![uid("bob")], &mut server), vec![vec![false, false]]);
    assert_eq!(server.live_channels(&uid("bob")), 0);
    assert_eq!(send_sendable(b, &vec![uid("bob")], &mut server), vec![Vec::<bool>::new()]);
    let replay = server.open_channel(bob).unwrap().replay;
    let texts: Vec<String> = replay.iter().map(|s| s.data.clone()).collect();
    assert_eq!(texts, vec!["1".to_string(), "{}".to_string()]);
}

#[test]
fn connecting_needs_a_valid_token() {
    let mut server = Server::new();
    assert_eq!(server.open_channel(5).err(), Some(QueryError::InvalidToken));
}

#[test]
fn mailbox_queries_tell_what_is_missing() {
    let mut server = Server::new();
    let token = register(&mut server, "alice");
    assert_eq!(get_message(token.wrapping_add(1), 7, 1, &server).err(), Some(QueryError::InvalidToken));
    assert_eq!(get_message(token, 7, 1, &server).err(), Some(QueryError::UnknownChat));
    send_message(chat_message(1, 7, "hi", 1000, "bob"), "{}".to_string(), uid("alice"), &mut server);
    assert_eq!(get_message(token, 7, 2, &server).err(), Some(QueryError::NotFound));
    assert_eq!(get_message(token, 8, 1, &server).err(), Some(QueryError::UnknownChat));
    assert!(get_message(token, 7, 1, &server).is_ok());
    assert_eq!(
        get_chat_messages(token.wrapping_add(1), 7, None, None, &server).err(),
        Some(QueryError::InvalidToken)
    );
    assert_eq!(
        get_chat_messages(token, 8, None, None, &server).err(),
        Some(QueryError::UnknownChat)
    );
    assert_eq!(get_chats(token.wrapping_add(1), &server).err(), Some(QueryError::InvalidToken));
}

#[test]
fn chat_messages_come_newest_first() {
    let mut server = Server::new();
    let token = register(&mut server, "alice");
    for (id, ts) in [(1u32, 500u128), (2, 1500), (3, 1000)] {
        send_message(chat_message(id, 7, "t", ts, "bob"), "{}".to_string(), uid("alice"), &mut server);
    }
    let all = get_chat_messages(token, 7, None, None, &server).unwrap();
    let times: Vec<u128> = all.iter().map(|item| item.entry.get_timestamp()).collect();
    assert_eq!(times, vec![1500, 1000, 500]);
    let ids: Vec<u32> = all.iter().map(|item| item.id).collect();
    assert_eq!(ids, vec![2, 3, 1]);
    let two = get_chat_messages(token, 7, Some(2), None, &server).unwrap();
    assert_eq!(two.len(), 2);
    assert_eq!(two[0].id, 2);
    assert_eq!(two[1].id, 3);
    let newer = get_chat_messages(token, 7, None, Some(1000), &server).unwrap();
    assert_eq!(newer.len(), 1);
    assert_eq!(newer[0].id, 2);
    for item in all.iter() {
        let found = get_message(token, 7, item.id, &server).unwrap();
        assert_eq!(found.message.as_ref().unwrap().id, item.entry.message.as_ref().unwrap().id);
        assert_eq!(found.get_timestamp(), item.entry.get_timestamp());
    }
}

#[test]
fn chats_of_a_user_are_listed() {
    let mut server = Server::new();
    let token = register(&mut server, "alice");
    assert_eq!(get_chats(token, &server).unwrap(), Vec::<u32>::new());
    send_message(chat_message(1, 7, "a", 500, "bob"), "{}".to_string(), uid("alice"), &mut server);
    send_message(chat_message(2, 9, "b", 900, "bob"), "{}".to_string(), uid("alice"), &mut server);
    assert_eq!(get_chats(token, &server).unwrap(), vec![9, 7]);
}

#[test]
fn error_bodies_are_the_wire_texts() {
    assert_eq!(QueryError::InvalidToken.body(), "{\"server\":\"invalid token\"}");
    assert_eq!(QueryError::UnknownChat.body(), "{\"server\":\"no chat found\"}");
    assert_eq!(QueryError::NotFound.body(), "{\"server\":\"no message found\"}");
    assert_eq!(QueryError::UserNotInChat.body(), "{\"server\":\"user not in chat\"}");
    assert_eq!(QueryError::NotAdmin.body(), "{\"server\":\"user not admin\"}");
    assert_eq!(QueryError::Exhausted.body(), "{\"server\":\"no id left\"}");
    assert_eq!(QueryError::Unavailable.body(), "{\"server\":\"no random number\"}");
}

#[test]
fn messages_of_two_chats_with_one_id_wait_side_by_side() {
    let mut server = Server::new();
    let alice = register(&mut server, "alice");
    send_message(chat_message(0, 7, "a", 1, "bob"), "7".to_string(), uid("alice"), &mut server);
    send_message(chat_message(0, 8, "b", 2, "bob"), "8".to_string(), uid("alice"), &mut server);
    assert_eq!(server.open_channel(alice).unwrap().replay.len(), 2);
    assert!(server.received_message(alice, 8, 0).is_ok());
    let replay = server.open_channel(alice).unwrap().replay;
    assert_eq!(replay.len(), 1);
    assert_eq!(replay[0].data, "7");
}
