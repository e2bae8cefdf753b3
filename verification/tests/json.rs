use tvbox_wc::json::{can_write, find, only_names, read, Json, MAX_NESTING};

fn round(text: &str) -> String {
    tvbox_wc::json::write(&read(text.as_bytes()).unwrap())
}

#[test]
fn a_value_is_written_as_it_was_read() {
    for text in [
        "null",
        "true",
        "-9223372036854775808",
        "18446744073709551615",
        "\"a\\\"\\n\\u0000é\"",
        "[1,[],{}]",
        "{\"b\":1,\"a\":{\"c\":[null,false]}}",
    ] {
        assert_eq!(round(text), text);
    }
}

#[test]
fn numbers_that_are_no_integers_are_told_apart() {
    assert!(matches!(read(b"1.5"), Ok(Json::Real)));
    assert!(matches!(read(b"1e3"), Ok(Json::Real)));
    assert!(matches!(read(b"18446744073709551616"), Ok(Json::Real)));
    assert!(matches!(read(b"18446744073709551615"), Ok(Json::Int(18446744073709551615))));
    assert!(matches!(read(b" -5 "), Ok(Json::Int(-5))));
}

#[test]
fn what_is_no_json_is_refused_with_a_reason() {
    assert!(read(b"").is_err());
    assert!(read(b"{} {}").is_err());
    assert!(read(b"\xff").is_err());
    let deep = "[".repeat(128);
    assert!(read(deep.as_bytes()).err().unwrap().starts_with("recursion limit exceeded"));
}

#[test]
fn values_nest_as_deep_as_they_can_be_read() {
    let deep = format!("{}{}", "[".repeat(127), "]".repeat(127));
    assert_eq!(round(&deep), deep);
}

#[test]
fn the_later_of_two_members_counts() {
    let members = vec![
        ("a".to_owned(), Json::Int(1)),
        ("b".to_owned(), Json::Int(2)),
        ("a".to_owned(), Json::Int(3)),
    ];
    assert!(matches!(find(&members, "a"), Some(Json::Int(3))));
    assert!(matches!(find(&members, "b"), Some(Json::Int(2))));
    assert!(find(&members, "c").is_none());
    assert!(!only_names(&members, "a"));
    assert!(only_names(&vec![("a".to_owned(), Json::Null), ("a".to_owned(), Json::Null)], "a"));
    assert!(!only_names(&vec![], "a"));
}

#[test]
fn what_cannot_be_written_is_told_beforehand() {
    assert!(can_write(&Json::Null, 0));
    assert!(can_write(&Json::Int(i128::from(u64::MAX)), 0));
    assert!(!can_write(&Json::Int(i128::from(u64::MAX) + 1), 0));
    assert!(can_write(&Json::Int(i128::from(i64::MIN)), 0));
    assert!(!can_write(&Json::Int(i128::from(i64::MIN) - 1), 0));
    assert!(!can_write(&Json::Real, MAX_NESTING));
    let mut deep = Json::Null;
    for _ in 0..MAX_NESTING {
        deep = Json::List(vec![deep]);
    }
    assert!(can_write(&deep, MAX_NESTING));
    assert!(!can_write(&deep, MAX_NESTING - 1));
    // A member that a later one stands in for counts too.
    let hidden = Json::Object(vec![
        ("a".to_owned(), deep),
        ("a".to_owned(), Json::Null),
    ]);
    assert!(!can_write(&hidden, MAX_NESTING));
    assert!(can_write(&hidden, MAX_NESTING + 1));
}

#[test]
fn a_later_member_stands_in_the_place_of_the_earlier() {
    let json = Json::Object(vec![
        ("b".to_owned(), Json::Int(1)),
        ("a".to_owned(), Json::Int(2)),
        ("b".to_owned(), Json::Int(3)),
    ]);
    assert_eq!(tvbox_wc::json::write(&json), "{\"b\":3,\"a\":2}");
}
