use hp::{HpError, Parser, Template};

const RED: &str = "\x1b[31m";
const GREEN: &str = "\x1b[32m";
const YELLOW: &str = "\x1b[33m";
const NONE: &str = "\x1b[0m";

#[test]
fn number_of_values_message() {
    let error = HpError::NumberOfValues("--say".to_string(), 0, 12);
    assert_eq!(
        error.to_string(),
        format!(
            "{RED}ERROR{NONE}: In argument '{RED}--say{NONE}', expected '{GREEN}12{NONE}' value/s, received '{YELLOW}0{NONE}'."
        )
    );
    let error = HpError::NumberOfValues("x".to_string(), 1907, 65536);
    assert_eq!(
        error.to_string(),
        "\x1b[31mERROR\x1b[0m: In argument '\x1b[31mx\x1b[0m', expected '\x1b[32m65536\x1b[0m' value/s, received '\x1b[33m1907\x1b[0m'."
    );
}

#[test]
fn out_of_context_message() {
    let error = HpError::OutOfContext("--add".to_string(), "-c".to_string());
    assert_eq!(
        error.to_string(),
        format!(
            "{RED}ERROR{NONE}: Out of context argument, because '{YELLOW}--add{NONE}' is a subcommand of '{GREEN}-c{NONE}' and '{GREEN}-c{NONE}' is not present in the command."
        )
    );
}

#[test]
fn the_largest_number_is_written_in_full() {
    let error = HpError::NumberOfValues(String::new(), usize::MAX, 10);
    let line = error.to_string();
    assert!(line.contains(&format!("received '{YELLOW}{}{NONE}'", usize::MAX)));
    assert!(line.contains(&format!("expected '{GREEN}10{NONE}'")));
}

#[test]
fn help_text_of_nested_commands() {
    let mut parser = Parser::new()
        .with_program_name("prog")
        .with_author("me")
        .with_description("Example program");

    parser.add("--say", 0, "Repeat something");
    let expand = parser.add_template(
        Template::new()
            .matches("-x")
            .matches("--expand")
            .with_help("Expand something."),
    );
    let sub_sub = parser.add_subcommand_template(
        expand,
        Template::new().matches("--string").with_help("Expands a string"),
    );
    let sub_sub_sub = parser.add_subcommand(sub_sub, "--super-test", 0, "Amazing super test.");
    parser.add_subcommand(sub_sub_sub, "-i", 0, "Infinite nesting!");

    let expected = [
        "prog: Example program\n",
        "Author: me\n",
        "Usage:\n",
        "    $ prog -[-command] [value/s...]\n",
        "Arguments:\n",
        "    --say                         Repeat something\n",
        "    -x | --expand                 Expand something.\n",
        "        --string                  Expands a string\n",
        "            --super-test          Amazing super test.\n",
        "                -i                Infinite nesting!\n",
        "    -h, --help                    Print this help message!",
    ]
    .concat();
    assert_eq!(parser.help_text(), expected);
}

#[test]
fn help_text_shows_the_values() {
    let mut parser = Parser::new().with_usage("$ tool [arguments]");
    parser.add("--say", 1, "Print the value.");
    parser.add_template(
        Template::new()
            .matches("--new")
            .matches("-n")
            .number_of_values(12)
            .optional_values(true)
            .with_help("Do some amazing thing."),
    );

    let expected = [
        "Usage:\n",
        "    $ tool [arguments]\n",
        "Arguments:\n",
        "    --say [1 values]                    Print the value.\n",
        "    --new | -n [12 optional values]     Do some amazing thing.\n",
        "    -h, --help                          Print this help message!",
    ]
    .concat();
    assert_eq!(parser.help_text(), expected);
}

#[test]
fn help_text_puts_a_subcommand_directly_below_its_command() {
    let mut parser = Parser::new();
    let first = parser.add("first", 0, "1");
    parser.add("second", 0, "2");
    parser.add_subcommand(first, "older", 0, "3");
    parser.add_subcommand(first, "younger", 0, "4");
    parser.add_subcommand(9, "orphan", 0, "5");

    let expected = [
        "Usage:\n",
        "    $  -[-command] [value/s...]\n",
        "Arguments:\n",
        "    first           1\n",
        "        younger     4\n",
        "        older       3\n",
        "    second          2\n",
        "    -h, --help      Print this help message!",
    ]
    .concat();
    assert_eq!(parser.help_text(), expected);
}

#[test]
fn help_text_without_templates() {
    let parser = Parser::new().with_program_name("empty");
    let expected = [
        "empty",
        "Usage:\n",
        "    $ empty -[-command] [value/s...]\n",
        "Arguments:\n",
        "    -h, --help Print this help message!",
    ]
    .concat();
    assert_eq!(parser.help_text(), expected);
}

#[test]
fn help_text_is_lined_up_by_bytes() {
    let mut parser = Parser::new();
    parser.add("--größe", 0, "Size");
    parser.add("--plain", 0, "Plain");
    let expected = [
        "Usage:\n",
        "    $  -[-command] [value/s...]\n",
        "Arguments:\n",
        "    --größe     Size\n",
        "    --plain       Plain\n",
        "    -h, --help    Print this help message!",
    ]
    .concat();
    assert_eq!(parser.help_text(), expected);
}

#[test]
fn a_help_text_that_was_set_replaces_the_generated_one() {
    let mut parser = Parser::new().set_help("Ask someone else.");
    parser.add("--say", 1, "Print the value.");
    assert_eq!(parser.help_text(), "Ask someone else.");
}
