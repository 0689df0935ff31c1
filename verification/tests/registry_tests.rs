use axum_ws::message::Message;
use axum_ws::topic::Topic;
use axum_ws::user_id::UserId;
use axum_ws::websocket_state::WebSocketState;
use std::collections::HashSet;

#[test]
fn user_id_should_work() {
    let mut user_ids = HashSet::new();
    user_ids.insert(UserId::from("user1"));
    user_ids.insert(UserId::from("user2"));

    let user1: &str = "user1";
    println!("Contains user1: {}", user_ids.contains(&UserId::from(user1)));

    let user2: String = "user2".to_string();
    println!("Contains user2: {}", user_ids.contains(&UserId::from(&user2)));
}

#[test]
fn websocket_state_with_path_should_work() {
    let mut state = WebSocketState::new();
    state.insert_path(1, "/socket");

    assert_eq!(state.get_path(1).unwrap(), "/socket".to_string());
}

#[test]
fn senders_can_be_added_and_removed() {
    let mut state = WebSocketState::new();
    let (tx, _rx) = tokio::sync::mpsc::channel::<Message>(8);
    state.insert_sender("conn1", tx);
    assert!(state.get_sender("conn1").is_some());
    assert!(state.get_sender("conn2").is_none());

    let removed = state.remove_sender("conn1");
    assert!(removed.is_some());
    assert!(state.get_sender("conn1").is_none());
    assert!(state.remove_sender("conn1").is_none());
}

#[test]
fn members_follow_joins_and_leaves() {
    let mut state = WebSocketState::new();
    let key = ("/chat".to_string(), Topic::from("room:1"));
    state.insert_user(("/chat".to_string(), Topic::from("room:1")), UserId::from("a"));
    state.insert_user(("/chat".to_string(), Topic::from("room:1")), UserId::from("b"));

    let users = state.get_users(&key).unwrap();
    let names: HashSet<String> = users.iter().map(|u| u.as_str().to_string()).collect();
    assert_eq!(names, HashSet::from(["a".to_string(), "b".to_string()]));

    assert!(state.remove_user(&key, &UserId::from("a")));
    assert!(!state.remove_user(&key, &UserId::from("a")));
    let users = state.get_users(&key).unwrap();
    assert_eq!(users.len(), 1);
    assert_eq!(users[0].as_str(), "b");
}

#[test]
fn cleanup_forgets_a_connection_everywhere() {
    let mut state = WebSocketState::new();
    let (tx_a, _rx_a) = tokio::sync::mpsc::channel::<Message>(8);
    let (tx_b, _rx_b) = tokio::sync::mpsc::channel::<Message>(8);
    state.insert_sender("a", tx_a);
    state.insert_sender("b", tx_b);
    state.insert_user(("/chat".to_string(), Topic::from("room:1")), UserId::from("a"));
    state.insert_user(("/chat".to_string(), Topic::from("room:2")), UserId::from("a"));
    state.insert_user(("/chat".to_string(), Topic::from("room:1")), UserId::from("b"));

    state.clearn_user(&UserId::from("a"));

    assert!(state.get_sender("a").is_none());
    assert!(state.get_sender("b").is_some());
    let room1 = state.get_users(&("/chat".to_string(), Topic::from("room:1"))).unwrap();
    assert_eq!(room1.len(), 1);
    assert_eq!(room1[0].as_str(), "b");
    assert!(state.get_users(&("/chat".to_string(), Topic::from("room:2"))).is_none());
}
