use slowchop_console::{resolve, ActionSchema, ActionsHandler, Error, VariantSpec};

#[derive(Debug, PartialEq)]
enum Main {
    A,
    B,
}

impl ActionsHandler for Main {
    fn resolve(text: &str) -> Result<Self, Error> {
        let schema = ActionSchema::new(vec![
            VariantSpec {
                name: "A".to_string(),
                args: vec![],
            },
            VariantSpec {
                name: "B".to_string(),
                args: vec![],
            },
        ])
        .expect("the test schema is well formed");
        let resolved = resolve(&schema, text)?;
        Ok(match resolved.variant {
            0 => Main::A,
            1 => Main::B,
            other => panic!("no variant with index {}", other),
        })
    }
}

#[test]
fn sub_enum() {
    assert_eq!(Main::resolve("A").unwrap(), Main::A);
}
