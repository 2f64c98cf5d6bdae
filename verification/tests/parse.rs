use slowchop_console::{parse_action, parse_string};

#[test]
fn test_parse_action() {
    let test_cases = vec![
        ("action nothing", "action", "nothing"),
        ("action ", "action", ""),
        ("action", "action", ""),
    ];

    for (s, expected_action, expected_remaining) in test_cases {
        let (action, remaining) = parse_action(s).unwrap();
        assert_eq!(action, expected_action);
        assert_eq!(remaining, expected_remaining);
    }
}

#[test]
fn test_parse_string() {
    let test_cases = vec![
        (r#"hello"#, "hello", "", true),
        // No quotes so you can't have spaces.
        (r#"hello world"#, "hello", "world", true),
        (r#""hello world" !"#, "hello world", "!", true),
        (r#""hello \"world\"""#, r#"hello "world""#, "", true),
        (r#"'hello "world\'s"' !"#, r#"hello "world's""#, "!", true),
        // Empty strings must be quoted.
        (r#""#, r#""#, "", false),
        (r#"'' !"#, r#""#, "!", true),
        (r#""" !"#, r#""#, "!", true),
    ];

    for fixture in test_cases {
        let (s, expected, expected_remaining, ok) = &fixture;
        let r = parse_string(s);
        if *ok {
            let (token, remaining) = r.unwrap();
            assert_eq!(token, *expected, "fixture: {:?}", fixture);
            assert_eq!(remaining, *expected_remaining, "fixture: {:?}", fixture);
        } else {
            assert!(r.is_err(), "fixture: {:?}", fixture);
        }
    }
}
