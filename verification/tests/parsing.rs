use hp::{HpError, Parser, Template};

#[test]
fn help() {
    let mut parser = Parser::new()
        .with_usage("")
        .with_author("me")
        .with_description("Example program")
        .exit_on_help(false);

    parser.add("--say", 0, "Repeat something");
    let expand = parser.add_template(
        Template::new()
            .matches("-x")
            .matches("--expand")
            .optional_values(false)
            .number_of_values(0)
            .with_help("Expand something."),
    );

    let sub_sub = parser.add_subcommand_template(
        expand,
        Template::new()
            .matches("--string")
            .number_of_values(0)
            .with_help("Expands a string"),
    );

    let sub_sub_sub = parser.add_subcommand(sub_sub, "--super-test", 0, "Amazing super test.");

    let _inf = parser.add_subcommand(sub_sub_sub, "-i", 0, "Infinite nesting!");

    let found = parser.parse(vec!["--help"]).unwrap();
    assert!(found.help_requested());
    println!("{}", parser.help_text());
}

#[test]
fn parsed_args() {
    let mut parser = Parser::new();
    parser.add("--hello", 0, "hello");
    let arg = parser.add("arg", 3, "hello");
    parser.add_template(
        Template::new()
            .matches("-not-found")
            .number_of_values(0)
            .with_help("bad.")
            .on_parse(|_| ()),
    );

    let result = parser.parse(vec!["--hello", "arg", "h", "w", "x"]);

    assert!(result.is_ok());
    let r = result.expect("bad");

    assert!(r.has("--hello"));
    assert!(r.get_with_id(arg).unwrap().values().len() == 3);
    assert!(!r.has("-not-found"))
}

#[test]
fn context_parsing() {
    let mut parser = Parser::new()
        .with_usage("")
        .with_author("me")
        .with_description("Example program")
        .exit_on_help(true);

    parser.add("--say", 0, "Repeat something");
    let expand = parser.add_template(
        Template::new()
            .matches("-x")
            .matches("--expand")
            .optional_values(false)
            .number_of_values(0)
            .with_help("Expand something."),
    );

    let sub_sub = parser.add_subcommand_template(
        expand,
        Template::new()
            .matches("--string")
            .number_of_values(0)
            .with_help("Expands a string"),
    );

    let sub_sub_sub = parser.add_subcommand(sub_sub, "--super-test", 0, "Amazing super test.");

    parser.add_subcommand(sub_sub_sub, "-i", 0, "Infinite nesting!");

    let result = parser
        .parse(vec!["-x", "--string", "--super-test", "-i"])
        .unwrap();

    assert!(result.has_with_context(expand, "--string"));
    assert!(result.has_with_context(sub_sub, "--super-test"));
    assert!(result.has_with_context(sub_sub_sub, "-i"));
}

#[test]
fn out_of_context() {
    let mut parser: Parser = Parser::new()
        .with_usage("")
        .with_author("me")
        .with_description("Example program")
        .exit_on_help(true);

    parser.add("--say", 0, "Repeat something");
    let expand = parser.add_template(
        Template::new()
            .matches("-x")
            .matches("--expand")
            .optional_values(false)
            .number_of_values(0)
            .with_help("Expand something."),
    );

    parser.add_subcommand_template(
        expand,
        Template::new()
            .matches("--string")
            .number_of_values(0)
            .with_help("Expands a string"),
    );

    let result = parser.parse(vec!["--string"]);

    assert!(result.is_err());

    println!("{}", result.err().unwrap().to_string())
}

#[test]
fn action() {
    let mut parser = Parser::new();
    let mut last_val = String::new();

    parser.add_template(
        Template::new()
            .matches("say")
            .on_parse(move |values| {
                println!("Saying: ");
                for each in values.iter() {
                    last_val = each.to_string().clone();
                }

                println!("Last val {last_val}");
            })
            .number_of_values(8)
            .optional_values(true),
    );

    assert!(parser.parse(vec!["say", "hello", "world"]).is_ok())
}

#[test]
fn out_of_context_names_the_first_alias_of_the_command() {
    let mut parser = Parser::new();
    parser.add("--say", 0, "Repeat something");
    let expand = parser.add_template(
        Template::new()
            .matches("-x")
            .matches("--expand")
            .with_help("Expand something."),
    );
    parser.add_subcommand(expand, "--string", 0, "Expands a string");

    let error = parser.parse(vec!["--string"]).err().unwrap();
    assert_eq!(
        error,
        HpError::OutOfContext("--string".to_string(), "-x".to_string())
    );
}
