use slowchop_console::{
    parse_bool, resolve, tokenize, ActionSchema, ArgValue, ArgumentType, Error, FloatType,
    IntType, OrderedArgument, Scalar, SchemaError, VariantSpec, WrapType,
};

fn req(t: ArgumentType) -> OrderedArgument {
    OrderedArgument::none(t)
}

fn opt(t: ArgumentType) -> OrderedArgument {
    OrderedArgument {
        wrap_type: WrapType::Optional,
        argument_type: t,
    }
}

fn var(t: ArgumentType) -> OrderedArgument {
    OrderedArgument {
        wrap_type: WrapType::Variadic,
        argument_type: t,
    }
}

fn variant(name: &str, args: Vec<OrderedArgument>) -> VariantSpec {
    VariantSpec {
        name: name.to_string(),
        args,
    }
}

/// A schema with variants `{Quit, Echo(String)}` plus one parameter of each
/// scalar kind, for error-shape tests.
fn small_schema() -> ActionSchema {
    ActionSchema::new(vec![
        variant("Quit", vec![]),
        variant("Echo", vec![req(ArgumentType::String)]),
        variant("Int32", vec![req(ArgumentType::Integer(IntType::I32))]),
        variant("Byte", vec![req(ArgumentType::Integer(IntType::U8))]),
        variant("Big", vec![req(ArgumentType::Integer(IntType::U128))]),
        variant("Tiny", vec![req(ArgumentType::Integer(IntType::I8))]),
        variant("Float", vec![req(ArgumentType::Float(FloatType::F64))]),
        variant("Flag", vec![req(ArgumentType::Bool)]),
        variant(
            "Pair",
            vec![
                req(ArgumentType::Integer(IntType::I32)),
                req(ArgumentType::Integer(IntType::I32)),
            ],
        ),
        variant(
            "RequiredThenOptional",
            vec![req(ArgumentType::String), opt(ArgumentType::String)],
        ),
    ])
    .expect("the test schema is well formed")
}

fn toks(line: &str) -> Vec<String> {
    tokenize(line).unwrap()
}

#[test]
fn tokenizer_plain_words_come_back_unchanged() {
    assert_eq!(toks("foo bar baz"), vec!["foo", "bar", "baz"]);
    assert_eq!(toks("  foo \t bar  "), vec!["foo", "bar"]);
    assert_eq!(toks(""), Vec::<String>::new());
    assert_eq!(toks("   \t "), Vec::<String>::new());
}

#[test]
fn tokenizer_quote_round_trip() {
    assert_eq!(toks("\"a b\" c"), vec!["a b", "c"]);
    assert_eq!(toks("'a \"b\"' c"), vec!["a \"b\"", "c"]);
}

#[test]
fn tokenizer_escapes() {
    // a backslash before the enclosing quote or a backslash is unescaped
    assert_eq!(toks(r#""a\"b""#), vec![r#"a"b"#]);
    assert_eq!(toks(r#""a\\b""#), vec![r#"a\b"#]);
    assert_eq!(toks(r#"'don\'t'"#), vec!["don't"]);
    // any other backslash sequence passes through literally
    assert_eq!(toks(r#""a\nb""#), vec![r#"a\nb"#]);
    // empty quoted tokens are tokens
    assert_eq!(toks("'' \"\""), vec!["", ""]);
}

#[test]
fn tokenizer_unterminated_quote_is_an_error() {
    assert_eq!(tokenize("\"abc"), Err(Error::TokenizeError));
    assert_eq!(tokenize("'abc"), Err(Error::TokenizeError));
    assert_eq!(tokenize(r#""abc\"#), Err(Error::TokenizeError));
    assert_eq!(
        resolve(&small_schema(), "Echo 'abc"),
        Err(Error::TokenizeError)
    );
}

#[test]
fn empty_line_is_no_action_given() {
    assert_eq!(resolve(&small_schema(), ""), Err(Error::NoActionGiven));
    assert_eq!(resolve(&small_schema(), "   "), Err(Error::NoActionGiven));
}

#[test]
fn unknown_action() {
    assert_eq!(
        resolve(&small_schema(), "Frobnicate"),
        Err(Error::UnknownAction {
            action: "Frobnicate".to_string()
        })
    );
}

#[test]
fn no_args_overflow() {
    assert_eq!(
        resolve(&small_schema(), "Quit extra"),
        Err(Error::TooManyArguments("Quit".to_string()))
    );
    let r = resolve(&small_schema(), "Quit").unwrap();
    assert_eq!(r.variant, 0);
    assert_eq!(r.args, Vec::<ArgValue>::new());
}

#[test]
fn trailing_string_greedy_join() {
    let r = resolve(&small_schema(), "Echo a b c").unwrap();
    assert_eq!(r.variant, 1);
    assert_eq!(
        r.args,
        vec![ArgValue::Given(Scalar::Str("a b c".to_string()))]
    );
    // even zero remaining tokens yield an empty string, not an error
    let r = resolve(&small_schema(), "Echo").unwrap();
    assert_eq!(r.args, vec![ArgValue::Given(Scalar::Str(String::new()))]);
}

#[test]
fn required_then_optional_joins_or_omits() {
    let schema = small_schema();
    let r = resolve(&schema, "RequiredThenOptional 'hi there'").unwrap();
    assert_eq!(
        r.args,
        vec![
            ArgValue::Given(Scalar::Str("hi there".to_string())),
            ArgValue::Omitted,
        ]
    );
    let r = resolve(&schema, "RequiredThenOptional 'hi there' 1 2 3").unwrap();
    assert_eq!(
        r.args,
        vec![
            ArgValue::Given(Scalar::Str("hi there".to_string())),
            ArgValue::Given(Scalar::Str("1 2 3".to_string())),
        ]
    );
}

#[test]
fn bool_vocabulary() {
    for s in ["1", "t", "true", "y", "yes", "yeah"] {
        assert_eq!(parse_bool(s), Some(true), "spelling: {}", s);
        assert_eq!(parse_bool(&s.to_uppercase()), Some(true), "spelling: {}", s);
    }
    for s in ["0", "f", "false", "n", "no", "nah"] {
        assert_eq!(parse_bool(s), Some(false), "spelling: {}", s);
        assert_eq!(
            parse_bool(&s.to_uppercase()),
            Some(false),
            "spelling: {}",
            s
        );
    }
    assert_eq!(parse_bool("YeAh"), Some(true));
    assert_eq!(parse_bool("FaLsE"), Some(false));
    for s in ["2", "tr", "truee", "on", "off", "", " true"] {
        assert_eq!(parse_bool(s), None, "spelling: {}", s);
    }

    let schema = small_schema();
    let r = resolve(&schema, "Flag yeah").unwrap();
    assert_eq!(r.args, vec![ArgValue::Given(Scalar::Bool(true))]);
    assert_eq!(
        resolve(&schema, "Flag maybe"),
        Err(Error::ParseBoolError {
            action: "Flag".to_string(),
            token: "maybe".to_string()
        })
    );
}

#[test]
fn numeric_overflow_surfaces_as_error_not_panic() {
    let schema = small_schema();
    assert_eq!(
        resolve(&schema, "Int32 999999999999999999999"),
        Err(Error::ParseIntError {
            action: "Int32".to_string(),
            token: "999999999999999999999".to_string()
        })
    );
    // well past even the largest width
    assert_eq!(
        resolve(&schema, "Big 999999999999999999999999999999999999999999999999"),
        Err(Error::ParseIntError {
            action: "Big".to_string(),
            token: "999999999999999999999999999999999999999999999999".to_string()
        })
    );
}

#[test]
fn integer_width_bounds() {
    let schema = small_schema();
    let one = |line: &str| resolve(&schema, line).unwrap().args[0].clone();

    assert_eq!(one("Byte 255"), ArgValue::Given(Scalar::Unsigned(255)));
    assert!(resolve(&schema, "Byte 256").is_err());
    assert_eq!(one("Byte -0"), ArgValue::Given(Scalar::Unsigned(0)));
    assert!(resolve(&schema, "Byte -1").is_err());
    assert_eq!(one("Byte +5"), ArgValue::Given(Scalar::Unsigned(5)));

    assert_eq!(one("Tiny -128"), ArgValue::Given(Scalar::Signed(-128)));
    assert!(resolve(&schema, "Tiny -129").is_err());
    assert_eq!(one("Tiny 127"), ArgValue::Given(Scalar::Signed(127)));
    assert!(resolve(&schema, "Tiny 128").is_err());

    assert_eq!(
        one("Big 340282366920938463463374607431768211455"),
        ArgValue::Given(Scalar::Unsigned(u128::MAX))
    );
    assert!(resolve(&schema, "Big 340282366920938463463374607431768211456").is_err());

    assert_eq!(
        one("Int32 -2147483648"),
        ArgValue::Given(Scalar::Signed(-2147483648))
    );
    assert!(resolve(&schema, "Int32 -2147483649").is_err());

    // not numbers at all
    assert!(resolve(&schema, "Int32 12a").is_err());
    assert!(resolve(&schema, "Int32 +").is_err());
    assert!(resolve(&schema, "Int32 ''").is_err());
}

#[test]
fn float_literal_grammar() {
    let schema = small_schema();
    let ok = |line: &str| resolve(&schema, line).is_ok();

    assert!(ok("Float 1.2"));
    assert!(ok("Float -5"));
    assert!(ok("Float .5"));
    assert!(ok("Float 5."));
    assert!(ok("Float 1e9"));
    assert!(ok("Float 1.5E-3"));
    assert!(ok("Float inf"));
    assert!(ok("Float -Infinity"));
    assert!(ok("Float NaN"));

    assert!(!ok("Float ."));
    assert!(!ok("Float 1e"));
    assert!(!ok("Float e5"));
    assert!(!ok("Float 1.2.3"));
    assert_eq!(
        resolve(&schema, "Float asdf"),
        Err(Error::ParseFloatError {
            action: "Float".to_string(),
            token: "asdf".to_string()
        })
    );

    let r = resolve(&schema, "Float 1.5E-3").unwrap();
    assert_eq!(
        r.args,
        vec![ArgValue::Given(Scalar::Float("1.5E-3".to_string()))]
    );
}

#[test]
fn not_enough_arguments_reports_counts() {
    let schema = small_schema();
    assert_eq!(
        resolve(&schema, "Pair 1"),
        Err(Error::NotEnoughArguments {
            action: "Pair".to_string(),
            expected: 2,
            given: 1
        })
    );
    assert_eq!(
        resolve(&schema, "Int32"),
        Err(Error::NotEnoughArguments {
            action: "Int32".to_string(),
            expected: 1,
            given: 0
        })
    );
}

#[test]
fn too_many_arguments_after_walk() {
    let schema = small_schema();
    assert_eq!(
        resolve(&schema, "Pair 1 2 3"),
        Err(Error::TooManyArguments("Pair".to_string()))
    );
}

#[test]
fn schema_validation_rejects_bad_ordering() {
    // an Optional parameter followed by a Required one fails construction
    let r = ActionSchema::new(vec![variant(
        "Bad",
        vec![opt(ArgumentType::String), req(ArgumentType::String)],
    )]);
    assert_eq!(
        r.err(),
        Some(SchemaError::RequiredAfterOptional {
            action: "Bad".to_string()
        })
    );

    let r = ActionSchema::new(vec![variant(
        "Bad",
        vec![var(ArgumentType::String), req(ArgumentType::String)],
    )]);
    assert_eq!(
        r.err(),
        Some(SchemaError::VariadicNotLast {
            action: "Bad".to_string()
        })
    );

    // variant names collide case-insensitively
    let r = ActionSchema::new(vec![
        variant("Quit", vec![]),
        variant("qUIT", vec![]),
    ]);
    assert_eq!(
        r.err(),
        Some(SchemaError::DuplicateAction {
            action: "qUIT".to_string()
        })
    );

    // a variadic parameter in last position is accepted
    assert!(ActionSchema::new(vec![variant(
        "Good",
        vec![req(ArgumentType::String), var(ArgumentType::String)],
    )])
    .is_ok());
}

#[test]
fn case_insensitive_matching() {
    let schema = small_schema();
    for line in ["QUIT", "quit", "Quit", "qUiT"] {
        let r = resolve(&schema, line).unwrap();
        assert_eq!(r.variant, 0, "line: {}", line);
    }
    // the unknown-action error carries the word as typed
    assert_eq!(
        resolve(&schema, "FROB"),
        Err(Error::UnknownAction {
            action: "FROB".to_string()
        })
    );
}

#[test]
fn variadic_element_error_aborts() {
    let schema = ActionSchema::new(vec![variant(
        "Nums",
        vec![var(ArgumentType::Integer(IntType::I32))],
    )])
    .expect("the test schema is well formed");
    let r = resolve(&schema, "Nums 1 2 3").unwrap();
    assert_eq!(
        r.args,
        vec![ArgValue::List(vec![
            Scalar::Signed(1),
            Scalar::Signed(2),
            Scalar::Signed(3)
        ])]
    );
    // zero elements are a legal (empty) list
    let r = resolve(&schema, "Nums").unwrap();
    assert_eq!(r.args, vec![ArgValue::List(vec![])]);
    assert_eq!(
        resolve(&schema, "Nums 1 x 3"),
        Err(Error::ParseIntError {
            action: "Nums".to_string(),
            token: "x".to_string()
        })
    );
}
