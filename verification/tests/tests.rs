use slowchop_console::{
    resolve, ActionSchema, ActionsHandler, ArgValue, ArgumentType, Error, FloatType, IntType,
    OrderedArgument, ResolvedAction, Scalar, VariantSpec, WrapType,
};

fn req(t: ArgumentType) -> OrderedArgument {
    OrderedArgument::none(t)
}

fn opt(t: ArgumentType) -> OrderedArgument {
    OrderedArgument {
        wrap_type: WrapType::Optional,
        argument_type: t,
    }
}

fn var(t: ArgumentType) -> OrderedArgument {
    OrderedArgument {
        wrap_type: WrapType::Variadic,
        argument_type: t,
    }
}

fn variant(name: &str, args: Vec<OrderedArgument>) -> VariantSpec {
    VariantSpec {
        name: name.to_string(),
        args,
    }
}

fn con_schema() -> ActionSchema {
    ActionSchema::new(vec![
        variant("Quit", vec![]),
        variant("Echo", vec![req(ArgumentType::String)]),
        variant(
            "TwoStrings",
            vec![req(ArgumentType::String), req(ArgumentType::String)],
        ),
        variant(
            "TwoFloats",
            vec![
                req(ArgumentType::Float(FloatType::F32)),
                req(ArgumentType::Float(FloatType::F64)),
            ],
        ),
        variant(
            "LotsOfDifferentIntTypes",
            vec![
                req(ArgumentType::Integer(IntType::ISize)),
                req(ArgumentType::Integer(IntType::USize)),
                req(ArgumentType::Integer(IntType::U8)),
                req(ArgumentType::Integer(IntType::I8)),
                req(ArgumentType::Integer(IntType::U16)),
                req(ArgumentType::Integer(IntType::I16)),
                req(ArgumentType::Integer(IntType::U32)),
                req(ArgumentType::Integer(IntType::I32)),
                req(ArgumentType::Integer(IntType::U64)),
                req(ArgumentType::Integer(IntType::I64)),
                req(ArgumentType::Integer(IntType::U128)),
                req(ArgumentType::Integer(IntType::I128)),
            ],
        ),
        variant("Bool", vec![req(ArgumentType::Bool)]),
        variant("VecString", vec![var(ArgumentType::String)]),
        variant("VecFloat32", vec![var(ArgumentType::Float(FloatType::F32))]),
        variant("VecISize", vec![var(ArgumentType::Integer(IntType::ISize))]),
        variant(
            "OptionalFloat",
            vec![opt(ArgumentType::Float(FloatType::F32))],
        ),
        variant(
            "TwoOptionalFloats",
            vec![
                opt(ArgumentType::Float(FloatType::F32)),
                opt(ArgumentType::String),
            ],
        ),
        variant(
            "RequiredThenOptional",
            vec![req(ArgumentType::String), opt(ArgumentType::String)],
        ),
    ])
    .expect("the test schema is well formed")
}

fn string_of(a: &ArgValue) -> String {
    match a {
        ArgValue::Given(Scalar::Str(s)) => s.clone(),
        other => panic!("expected a string argument, got {:?}", other),
    }
}

fn float_tok(a: &ArgValue) -> &str {
    match a {
        ArgValue::Given(Scalar::Float(s)) => s.as_str(),
        other => panic!("expected a float argument, got {:?}", other),
    }
}

fn signed_of(a: &ArgValue) -> i128 {
    match a {
        ArgValue::Given(Scalar::Signed(v)) => *v,
        other => panic!("expected a signed integer argument, got {:?}", other),
    }
}

fn unsigned_of(a: &ArgValue) -> u128 {
    match a {
        ArgValue::Given(Scalar::Unsigned(v)) => *v,
        other => panic!("expected an unsigned integer argument, got {:?}", other),
    }
}

fn bool_of(a: &ArgValue) -> bool {
    match a {
        ArgValue::Given(Scalar::Bool(b)) => *b,
        other => panic!("expected a bool argument, got {:?}", other),
    }
}

fn list_of(a: &ArgValue) -> &[Scalar] {
    match a {
        ArgValue::List(vs) => vs.as_slice(),
        other => panic!("expected a variadic argument, got {:?}", other),
    }
}

fn opt_float(a: &ArgValue) -> Option<f32> {
    match a {
        ArgValue::Omitted => None,
        ArgValue::Given(Scalar::Float(s)) => Some(s.parse().unwrap()),
        other => panic!("expected an optional float argument, got {:?}", other),
    }
}

fn opt_string(a: &ArgValue) -> Option<String> {
    match a {
        ArgValue::Omitted => None,
        ArgValue::Given(Scalar::Str(s)) => Some(s.clone()),
        other => panic!("expected an optional string argument, got {:?}", other),
    }
}

#[derive(Debug, PartialEq)]
enum Con {
    Quit,
    Echo(String),
    TwoStrings(String, String),
    TwoFloats(f32, f64),
    LotsOfDifferentIntTypes(
        isize,
        usize,
        u8,
        i8,
        u16,
        i16,
        u32,
        i32,
        u64,
        i64,
        u128,
        i128,
    ),
    Bool(bool),
    VecString(Vec<String>),
    VecFloat32(Vec<f32>),
    VecISize(Vec<isize>),
    OptionalFloat(Option<f32>),
    TwoOptionalFloats(Option<f32>, Option<String>),
    RequiredThenOptional(String, Option<String>),
}

fn into_con(r: ResolvedAction) -> Con {
    let a = &r.args;
    match r.variant {
        0 => Con::Quit,
        1 => Con::Echo(string_of(&a[0])),
        2 => Con::TwoStrings(string_of(&a[0]), string_of(&a[1])),
        3 => Con::TwoFloats(
            float_tok(&a[0]).parse().unwrap(),
            float_tok(&a[1]).parse().unwrap(),
        ),
        4 => Con::LotsOfDifferentIntTypes(
            signed_of(&a[0]) as isize,
            unsigned_of(&a[1]) as usize,
            unsigned_of(&a[2]) as u8,
            signed_of(&a[3]) as i8,
            unsigned_of(&a[4]) as u16,
            signed_of(&a[5]) as i16,
            unsigned_of(&a[6]) as u32,
            signed_of(&a[7]) as i32,
            unsigned_of(&a[8]) as u64,
            signed_of(&a[9]) as i64,
            unsigned_of(&a[10]),
            signed_of(&a[11]),
        ),
        5 => Con::Bool(bool_of(&a[0])),
        6 => Con::VecString(
            list_of(&a[0])
                .iter()
                .map(|s| match s {
                    Scalar::Str(s) => s.clone(),
                    other => panic!("expected a string element, got {:?}", other),
                })
                .collect(),
        ),
        7 => Con::VecFloat32(
            list_of(&a[0])
                .iter()
                .map(|s| match s {
                    Scalar::Float(s) => s.parse().unwrap(),
                    other => panic!("expected a float element, got {:?}", other),
                })
                .collect(),
        ),
        8 => Con::VecISize(
            list_of(&a[0])
                .iter()
                .map(|s| match s {
                    Scalar::Signed(v) => *v as isize,
                    other => panic!("expected an integer element, got {:?}", other),
                })
                .collect(),
        ),
        9 => Con::OptionalFloat(opt_float(&a[0])),
        10 => Con::TwoOptionalFloats(opt_float(&a[0]), opt_string(&a[1])),
        11 => Con::RequiredThenOptional(string_of(&a[0]), opt_string(&a[1])),
        other => panic!("no variant with index {}", other),
    }
}

impl ActionsHandler for Con {
    fn resolve(text: &str) -> Result<Self, Error> {
        let schema = con_schema();
        let resolved = resolve(&schema, text)?;
        Ok(into_con(resolved))
    }
}

#[test]
fn resolve_unit() -> Result<(), Error> {
    assert_eq!(Con::resolve("Quit")?, Con::Quit);
    assert!(Con::resolve("Quit hmm").is_err());

    Ok(())
}

#[test]
fn resolve_single_string() -> Result<(), Error> {
    assert_eq!(Con::resolve("Echo sup")?, Con::Echo("sup".into()));
    assert_eq!(Con::resolve("Echo \"1 2 \"")?, Con::Echo("1 2 ".into()));
    assert_eq!(Con::resolve("Echo 1 2")?, Con::Echo("1 2".into()));
    assert_eq!(
        Con::resolve("Echo \"1 2\" \"3\"")?,
        Con::Echo("1 2 3".into())
    );

    Ok(())
}

#[test]
fn resolve_two_floats() -> Result<(), Error> {
    assert_eq!(Con::resolve("TwoFloats 1.2 3.5")?, Con::TwoFloats(1.2, 3.5));
    assert_eq!(Con::resolve("TwoFloats 1 -5")?, Con::TwoFloats(1., -5.));

    // Extra argument
    assert!(Con::resolve("TwoFloats 1.2 3.5 5.5").is_err());

    Ok(())
}

#[test]
fn resolve_int_types() -> Result<(), Error> {
    assert_eq!(
        Con::resolve("LotsOfDifferentIntTypes 1 2 3 -4 5 -600 7 -80000 9 -10000000000 11 -12")?,
        Con::LotsOfDifferentIntTypes(1, 2, 3, -4, 5, -600, 7, -80000, 9, -10000000000, 11, -12)
    );

    Ok(())
}

#[test]
fn resolve_bool() -> Result<(), Error> {
    assert_eq!(Con::resolve("Bool t")?, Con::Bool(true));
    assert_eq!(Con::resolve("Bool true")?, Con::Bool(true));
    assert_eq!(Con::resolve("Bool True")?, Con::Bool(true));
    assert_eq!(Con::resolve("Bool y")?, Con::Bool(true));
    assert_eq!(Con::resolve("Bool yes")?, Con::Bool(true));
    assert_eq!(Con::resolve("Bool 1")?, Con::Bool(true));

    assert_eq!(Con::resolve("Bool f")?, Con::Bool(false));
    assert_eq!(Con::resolve("Bool false")?, Con::Bool(false));
    assert_eq!(Con::resolve("Bool FALSE")?, Con::Bool(false));
    assert_eq!(Con::resolve("Bool n")?, Con::Bool(false));
    assert_eq!(Con::resolve("Bool no")?, Con::Bool(false));
    assert_eq!(Con::resolve("Bool 0")?, Con::Bool(false));

    Ok(())
}

#[test]
fn vec() -> Result<(), Error> {
    assert_eq!(
        Con::resolve("VecString a b 'c c'")?,
        Con::VecString(vec!["a".to_string(), "b".to_string(), "c c".to_string()])
    );

    assert_eq!(
        Con::resolve("VecFloat32 1.1 2.2 3.3")?,
        Con::VecFloat32(vec![1.1, 2.2, 3.3])
    );

    assert_eq!(
        Con::resolve("VecISize 1 2 3")?,
        Con::VecISize(vec![1, 2, 3])
    );

    Ok(())
}

#[test]
fn optional_float() -> Result<(), Error> {
    assert!(Con::resolve("OptionalFloat asdf").is_err());
    assert_eq!(Con::resolve("OptionalFloat")?, Con::OptionalFloat(None));
    assert_eq!(
        Con::resolve("OptionalFloat 1.2")?,
        Con::OptionalFloat(Some(1.2))
    );

    Ok(())
}

#[test]
fn two_optional_floats() -> Result<(), Error> {
    assert!(Con::resolve("TwoOptionalFloats asdf").is_err());
    assert_eq!(
        Con::resolve("TwoOptionalFloats")?,
        Con::TwoOptionalFloats(None, None)
    );
    assert_eq!(
        Con::resolve("TwoOptionalFloats 1.2")?,
        Con::TwoOptionalFloats(Some(1.2), None)
    );
    assert_eq!(
        Con::resolve("TwoOptionalFloats 1.2 3.4")?,
        Con::TwoOptionalFloats(Some(1.2), Some("3.4".into()))
    );

    Ok(())
}

#[test]
fn required_then_optional() -> Result<(), Error> {
    assert!(Con::resolve("RequiredThenOptional").is_err());
    assert_eq!(
        Con::resolve("RequiredThenOptional 'hi there'")?,
        Con::RequiredThenOptional("hi there".into(), None)
    );
    assert_eq!(
        Con::resolve("RequiredThenOptional 'hi there' 'string 2'")?,
        Con::RequiredThenOptional("hi there".into(), Some("string 2".into()))
    );

    // Second argument without quotes should eat the rest of the words.
    assert_eq!(
        Con::resolve("RequiredThenOptional 'hi there' 1 2 3 4")?,
        Con::RequiredThenOptional("hi there".into(), Some("1 2 3 4".into()))
    );

    Ok(())
}

#[test]
fn complete() {}
