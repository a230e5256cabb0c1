use messenger::user::{
    uid_map_into, username_map_into, CreateUser, UserIdentifier, UserMap, UserProfile,
};

fn uid(name: &str) -> UserIdentifier {
    UserIdentifier { username: name.to_string() }
}

#[test]
fn identifiers_are_equal_by_username() {
    assert!(uid("alice") == uid("alice"));
    assert!(!(uid("alice") == uid("bob")));
    assert!(uid("alice").clone() == uid("alice"));
}

#[test]
fn dummy_profile_holds_the_username_only() {
    let p = UserProfile::dummy("alice".to_string());
    assert_eq!(p.username, "alice");
    assert_eq!(p.name, "");
    assert_eq!(p.color, "");
    assert_eq!(p.pfp, "");
    assert_eq!(p.public_key, "");
}

#[test]
fn created_user_becomes_a_profile() {
    let c = CreateUser {
        name: "Alice".to_string(),
        color: "#fff".to_string(),
        public_key: "key".to_string(),
    };
    let p = c.to_user_profile("alice".to_string(), "undefined".to_string());
    assert_eq!(p.username, "alice");
    assert_eq!(p.name, "Alice");
    assert_eq!(p.color, "#fff");
    assert_eq!(p.pfp, "undefined");
    assert_eq!(p.public_key, "key");
    let q = p.clone();
    assert_eq!(q.name, "Alice");
    assert_eq!(q.pfp, "undefined");
}

#[test]
fn user_map_starts_empty() {
    let m: UserMap<u32> = UserMap::new();
    assert_eq!(m.len(), 0);
    assert!(!m.contains_key(&uid("alice")));
    assert!(m.get(&uid("alice")).is_none());
}

#[test]
fn user_map_holds_what_was_inserted() {
    let mut m: UserMap<u32> = UserMap::new();
    m.insert(uid("alice"), 1);
    m.insert(uid("bob"), 2);
    assert_eq!(m.len(), 2);
    assert_eq!(m.get(&uid("alice")), Some(&1));
    assert_eq!(m.get(&uid("bob")), Some(&2));
    assert!(m.get(&uid("carol")).is_none());
    assert!(m.contains_key(&uid("bob")));
}

#[test]
fn user_map_insert_replaces() {
    let mut m: UserMap<u32> = UserMap::new();
    m.insert(uid("alice"), 1);
    m.insert(uid("alice"), 5);
    assert_eq!(m.len(), 1);
    assert_eq!(m.get(&uid("alice")), Some(&5));
}

#[test]
fn user_map_remove_hands_the_value_out() {
    let mut m: UserMap<u32> = UserMap::new();
    m.insert(uid("alice"), 1);
    m.insert(uid("bob"), 2);
    m.insert(uid("carol"), 3);
    assert_eq!(m.remove(&uid("alice")), Some(1));
    assert_eq!(m.remove(&uid("alice")), None);
    assert_eq!(m.len(), 2);
    assert_eq!(m.get(&uid("bob")), Some(&2));
    assert_eq!(m.get(&uid("carol")), Some(&3));
}

#[test]
fn user_map_entries_name_every_user_once() {
    let mut m: UserMap<u32> = UserMap::new();
    m.insert(uid("alice"), 1);
    m.insert(uid("bob"), 2);
    m.insert(uid("alice"), 3);
    let (keys, values) = m.entries();
    assert_eq!(keys.len(), 2);
    assert_eq!(values.len(), 2);
    let mut seen: Vec<(String, u32)> = Vec::new();
    for i in 0..keys.len() {
        seen.push((keys[i].username.clone(), values[i]));
    }
    seen.sort();
    assert_eq!(seen, vec![("alice".to_string(), 3), ("bob".to_string(), 2)]);
}

#[test]
fn uid_map_into_gives_one_pair_per_user() {
    let mut m: UserMap<u32> = UserMap::new();
    m.insert(uid("alice"), 1);
    m.insert(uid("bob"), 2);
    let mut pairs = uid_map_into(m);
    pairs.sort();
    assert_eq!(pairs, vec![("alice".to_string(), 1), ("bob".to_string(), 2)]);
}

#[test]
fn uid_map_into_of_empty_map() {
    let m: UserMap<u32> = UserMap::new();
    assert!(uid_map_into(m).is_empty());
}

#[test]
fn username_map_into_holds_every_pair() {
    let pairs = vec![("alice".to_string(), 1u32), ("bob".to_string(), 2u32)];
    let m = username_map_into(pairs);
    assert_eq!(m.len(), 2);
    assert_eq!(m.get(&uid("alice")), Some(&1));
    assert_eq!(m.get(&uid("bob")), Some(&2));
}

#[test]
fn username_map_into_last_pair_of_a_name_counts() {
    let pairs =
        vec![("alice".to_string(), 1u32), ("bob".to_string(), 2u32), ("alice".to_string(), 9u32)];
    let m = username_map_into(pairs);
    assert_eq!(m.len(), 2);
    assert_eq!(m.get(&uid("alice")), Some(&9));
    assert_eq!(m.get(&uid("bob")), Some(&2));
}

#[test]
fn map_conversions_round_trip() {
    let mut m: UserMap<String> = UserMap::new();
    m.insert(uid("alice"), "a".to_string());
    m.insert(uid("bob"), "b".to_string());
    m.insert(uid("carol"), "c".to_string());
    let back = username_map_into(uid_map_into(m));
    assert_eq!(back.len(), 3);
    assert_eq!(back.get(&uid("alice")), Some(&"a".to_string()));
    assert_eq!(back.get(&uid("bob")), Some(&"b".to_string()));
    assert_eq!(back.get(&uid("carol")), Some(&"c".to_string()));
}
