use messenger::cors::{contains_bytes, CORS};
use messenger::sendables::{Sendable, SendableType};
use messenger::stream::{invalid_token_frame, ping_frame, replay_frames, Heartbeat};

#[test]
fn fixed_frames() {
    assert_eq!(ping_frame(), "{\"server\":\"ping\"}|endmessage|");
    assert_eq!(invalid_token_frame(), "{\"server_reponse\":\"invalid token\"}|endmessage|");
}

#[test]
fn replay_is_written_frame_by_frame() {
    let replay = vec![
        Sendable::new(SendableType::Message, "{\"id\":1}".to_string(), None),
        Sendable::new(SendableType::Banner, "{}".to_string(), Some(7)),
    ];
    assert_eq!(
        replay_frames(&replay),
        "{\"message\":{\"id\":1}}|endmessage|{\"banner\":{}, \"timestamp\":7}|endmessage|"
    );
    assert_eq!(replay_frames(&Vec::new()), "");
}

#[test]
fn first_quiet_tick_writes_a_heartbeat() {
    let mut clock = Heartbeat::new(30);
    assert_eq!(clock.tick(None), Some(ping_frame()));
    assert_eq!(clock.idle, 0);
}

#[test]
fn heartbeat_comes_once_per_window() {
    let mut clock = Heartbeat::new(30);
    assert!(clock.tick(None).is_some());
    for _ in 0..29 {
        assert_eq!(clock.tick(None), None);
    }
    assert_eq!(clock.tick(None), Some(ping_frame()));
    for _ in 0..29 {
        assert_eq!(clock.tick(None), None);
    }
    assert_eq!(clock.tick(None), Some(ping_frame()));
}

#[test]
fn event_is_written_and_starts_the_window_anew() {
    let mut clock = Heartbeat::new(3);
    assert!(clock.tick(None).is_some());
    assert_eq!(clock.tick(None), None);
    let event = Sendable::new(SendableType::Read, "1".to_string(), None);
    assert_eq!(clock.tick(Some(&event)), Some("{\"read\":1}|endmessage|".to_string()));
    assert_eq!(clock.idle, 0);
    assert_eq!(clock.tick(None), None);
    assert_eq!(clock.tick(None), None);
    assert_eq!(clock.tick(None), Some(ping_frame()));
}

#[test]
fn window_of_zero_or_one_pings_on_every_quiet_tick() {
    let mut always = Heartbeat::new(0);
    assert!(always.tick(None).is_some());
    assert!(always.tick(None).is_some());
    let mut one = Heartbeat::new(1);
    assert!(one.tick(None).is_some());
    assert!(one.tick(None).is_some());
}

#[test]
fn largest_window_does_not_overflow() {
    let mut clock = Heartbeat::new(u32::MAX);
    assert!(clock.tick(None).is_some());
    assert_eq!(clock.tick(None), None);
    assert_eq!(clock.idle, 1);
}

#[test]
fn bytes_are_found_where_they_stand() {
    assert!(contains_bytes(b"hello world", b"o w"));
    assert!(contains_bytes(b"hello", b"hello"));
    assert!(contains_bytes(b"hello", b""));
    assert!(contains_bytes(b"", b""));
    assert!(contains_bytes(b"aab", b"ab"));
    assert!(!contains_bytes(b"hello", b"hello!"));
    assert!(!contains_bytes(b"abcabd", b"abe"));
    assert!(!contains_bytes(b"", b"a"));
}

#[test]
fn known_origins_are_allowed() {
    for origin in [
        "http://minecraft.themagicdoor.org:8000",
        "http://minecraft.themagicdoor.org:3000",
        "http://localhost:3000",
        "http://localhost:5173",
    ] {
        assert_eq!(CORS::allow_origin(Some(origin)), Some(origin.to_string()));
    }
}

#[test]
fn other_origins_get_no_header() {
    assert_eq!(CORS::allow_origin(Some("http://example.org")), None);
    assert_eq!(CORS::allow_origin(Some("https://minecraft.themagicdoor.org:8000")), None);
    assert_eq!(CORS::allow_origin(Some("http://localhost")), None);
    assert_eq!(CORS::allow_origin(Some("")), None);
}

#[test]
fn request_without_origin_gets_a_value_that_matches_none() {
    assert_eq!(CORS::allow_origin(None), Some("nothing lmao".to_string()));
}
