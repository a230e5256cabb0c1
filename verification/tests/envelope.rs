use messenger::sendables::{
    banner, banner_at, now_millis, reaction, reaction_at, read, read_at, Sendable, SendableType,
};

#[test]
fn kind_names_are_the_wire_keys() {
    assert_eq!(SendableType::Message.to_string(), "message");
    assert_eq!(SendableType::Read.to_string(), "read");
    assert_eq!(SendableType::Banner.to_string(), "banner");
    assert_eq!(SendableType::Reaction.to_string(), "reaction");
}

#[test]
fn new_keeps_its_arguments() {
    let s = Sendable::new(SendableType::Read, "{}".to_string(), Some(5));
    assert_eq!(s.sendable_type, SendableType::Read);
    assert_eq!(s.data, "{}");
    assert_eq!(s.timestamp, Some(5));
}

#[test]
fn envelope_without_timestamp() {
    let s = Sendable::new(SendableType::Banner, "{\"text\":\"x\"}".to_string(), None);
    assert_eq!(s.to_string(), "{\"banner\":{\"text\":\"x\"}}");
}

#[test]
fn envelope_with_timestamp() {
    let s = Sendable::new(SendableType::Message, "{\"id\":1}".to_string(), Some(1000));
    assert_eq!(s.to_string(), "{\"message\":{\"id\":1}, \"timestamp\":1000}");
}

#[test]
fn envelope_with_timestamp_zero() {
    let s = Sendable::new(SendableType::Reaction, "1".to_string(), Some(0));
    assert_eq!(s.to_string(), "{\"reaction\":1, \"timestamp\":0}");
}

#[test]
fn frame_ends_with_the_delimiter() {
    let s = Sendable::new(SendableType::Read, "{\"a\":2}".to_string(), Some(12));
    assert_eq!(s.frame(), "{\"read\":{\"a\":2}, \"timestamp\":12}|endmessage|");
    let t = Sendable::new(SendableType::Read, "{\"a\":2}".to_string(), None);
    assert_eq!(t.frame(), "{\"read\":{\"a\":2}}|endmessage|");
}

#[test]
fn clone_is_equal_field_by_field() {
    let s = Sendable::new(SendableType::Banner, "payload".to_string(), Some(77));
    let c = s.clone();
    assert_eq!(c.sendable_type, s.sendable_type);
    assert_eq!(c.data, s.data);
    assert_eq!(c.timestamp, s.timestamp);
}

#[test]
fn banner_payload_is_exact() {
    let s = banner_at("Ann joined this chat", 7, 3, Some(1000));
    assert_eq!(s.sendable_type, SendableType::Banner);
    assert_eq!(s.data, "{\"text\":\"Ann joined this chat\", \"chat\": 7, \"id\": 3}");
    assert_eq!(s.timestamp, Some(1000));
    assert_eq!(
        s.to_string(),
        "{\"banner\":{\"text\":\"Ann joined this chat\", \"chat\": 7, \"id\": 3}, \"timestamp\":1000}"
    );
}

#[test]
fn read_payload_is_exact() {
    let s = read_at("Delivered", "alice", 1, 7, None);
    assert_eq!(s.sendable_type, SendableType::Read);
    assert_eq!(
        s.data,
        "{\"status\":\"Delivered\", \"message\":{\"id\":1, \"chat\":7}, \"from\":\"alice\"}"
    );
    assert_eq!(s.timestamp, None);
}

#[test]
fn reaction_payload_is_exact() {
    let s = reaction_at("+1", "bob", 4_294_967_295, 0, Some(9));
    assert_eq!(s.sendable_type, SendableType::Reaction);
    assert_eq!(
        s.data,
        "{\"emoji\":\"+1\", \"message\":4294967295, \"from\":\"bob\", \"chat\":0}"
    );
    assert_eq!(s.timestamp, Some(9));
}

#[test]
fn stamped_banner_has_the_payload_and_a_recent_time() {
    let s = banner("hello".to_string(), 2, 9);
    assert_eq!(s.sendable_type, SendableType::Banner);
    assert_eq!(s.data, "{\"text\":\"hello\", \"chat\": 2, \"id\": 9}");
    // the clock of a test machine reads later than the year 2020
    assert!(s.timestamp.unwrap() > 1_577_836_800_000);
}

#[test]
fn stamped_read_and_reaction_have_their_payloads() {
    let r = read("Read".to_string(), "carol".to_string(), 5, 6);
    assert_eq!(r.sendable_type, SendableType::Read);
    assert_eq!(
        r.data,
        "{\"status\":\"Read\", \"message\":{\"id\":5, \"chat\":6}, \"from\":\"carol\"}"
    );
    assert!(r.timestamp.is_some());
    let e = reaction("x".to_string(), "carol".to_string(), 5, 6);
    assert_eq!(e.sendable_type, SendableType::Reaction);
    assert_eq!(e.data, "{\"emoji\":\"x\", \"message\":5, \"from\":\"carol\", \"chat\":6}");
    assert!(e.timestamp.is_some());
}

#[test]
fn clock_does_not_run_backwards_between_two_readings() {
    let a = now_millis().unwrap();
    let b = now_millis().unwrap();
    assert!(a > 1_577_836_800_000);
    assert!(b + 60_000 > a);
}

#[test]
fn quotes_and_backslashes_in_a_text_are_escaped() {
    let s = banner_at("say \"hi\" \\ bye", 7, 3, None);
    assert_eq!(s.data, "{\"text\":\"say \\\"hi\\\" \\\\ bye\", \"chat\": 7, \"id\": 3}");
    let r = read_at("Read", "a\"b", 1, 2, None);
    assert_eq!(
        r.data,
        "{\"status\":\"Read\", \"message\":{\"id\":1, \"chat\":2}, \"from\":\"a\\\"b\"}"
    );
    let e = reaction_at("\\", "c\"d", 1, 2, None);
    assert_eq!(
        e.data,
        "{\"emoji\":\"\\\\\", \"message\":1, \"from\":\"c\\\"d\", \"chat\":2}"
    );
}

#[test]
fn control_characters_in_a_text_are_escaped() {
    let s = banner_at("a\nb\u{1f}c\u{0}", 1, 2, None);
    assert_eq!(s.data, "{\"text\":\"a\\u000ab\\u001fc\\u0000\", \"chat\": 1, \"id\": 2}");
}

#[test]
fn other_characters_stand_as_they_are() {
    let s = banner_at("gr\u{fc}\u{df}e \u{1f600} /", 1, 2, None);
    assert_eq!(s.data, "{\"text\":\"gr\u{fc}\u{df}e \u{1f600} /\", \"chat\": 1, \"id\": 2}");
}
