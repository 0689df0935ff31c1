use axum_ws::topic::Topic;

#[test]
fn wildcard_matches_prefix() {
    let pattern = Topic::from("a:*");
    assert!(pattern.is_match(&Topic::from("a:b")));
    assert!(pattern.is_match(&Topic::from("a:b:c")));
    assert!(pattern.is_match(&Topic::from("a:")));
}

#[test]
fn literal_matches_exactly() {
    assert!(Topic::from("a:b").is_match(&Topic::from("a:b")));
    assert!(!Topic::from("a:b").is_match(&Topic::from("a:c")));
    assert!(!Topic::from("a").is_match(&Topic::from("a:b")));
}

#[test]
fn wildcard_is_terminal() {
    assert!(Topic::from("a:*").is_match(&Topic::from("a")));
    assert!(Topic::from("*:b").is_match(&Topic::from("x:y")));
}

#[test]
fn room_pattern_matches_lobby() {
    assert!(Topic::from("room:*").is_match(&Topic::from("room:lobby")));
    assert!(!Topic::from("room:*").is_match(&Topic::from("chat:1")));
}
