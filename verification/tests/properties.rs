use std::cell::RefCell;
use std::rc::Rc;

use hp::{is_help_alias, HpError, Parser, Pass, Template};

fn strings(values: &[&str]) -> Vec<String> {
    values.iter().map(|each| each.to_string()).collect()
}

#[test]
fn shortfall_reports_found_and_needed() {
    let mut parser = Parser::new();
    parser.add("--point", 3, "Three coordinates");
    parser.add("--flag", 0, "A flag");

    let error = parser.parse(vec!["--point", "1", "2"]).err().unwrap();
    assert_eq!(error, HpError::NumberOfValues("--point".to_string(), 2, 3));

    let error = parser.parse(vec!["--point"]).err().unwrap();
    assert_eq!(error, HpError::NumberOfValues("--point".to_string(), 0, 3));

    let error = parser
        .parse(vec!["--point", "1", "--flag", "2", "3"])
        .err()
        .unwrap();
    assert_eq!(error, HpError::NumberOfValues("--point".to_string(), 1, 3));

    let found = parser.parse(vec!["--point", "1", "2", "3"]).unwrap();
    assert_eq!(found.get("--point").unwrap().values(), &strings(&["1", "2", "3"]));
}

#[test]
fn say_without_a_value_fails() {
    let mut parser = Parser::new();
    parser.add_template(
        Template::new()
            .matches("--say")
            .number_of_values(1)
            .optional_values(false),
    );
    let error = parser.parse(vec!["--say"]).err().unwrap();
    assert_eq!(error, HpError::NumberOfValues("--say".to_string(), 0, 1));
}

#[test]
fn optional_values_may_be_missing() {
    let mut parser = Parser::new();
    let id = parser.add_template(
        Template::new()
            .matches("--say")
            .number_of_values(2)
            .optional_values(true),
    );
    let found = parser.parse(vec!["--say", "one"]).unwrap();
    let say = found.get("--say").unwrap();
    assert_eq!(say.id(), id);
    assert_eq!(say.number_of_values(), 1);
    assert_eq!(say.values(), &strings(&["one"]));

    let found = parser.parse(vec!["--say"]).unwrap();
    assert_eq!(found.get("--say").unwrap().number_of_values(), 0);
}

#[test]
fn add_sums_what_follows() {
    let seen: Rc<RefCell<Vec<Vec<String>>>> = Rc::new(RefCell::new(Vec::new()));
    let sum = Rc::new(RefCell::new(0.0_f64));

    let mut parser = Parser::new();
    let log = seen.clone();
    let total = sum.clone();
    let id = parser.add_template(
        Template::new()
            .matches("add")
            .matches("+")
            .number_of_values(99)
            .optional_values(true)
            .on_parse(move |values| {
                for value in values.iter() {
                    if let Ok(v) = value.parse::<f64>() {
                        *total.borrow_mut() += v;
                    }
                }
                log.borrow_mut().push(values);
            }),
    );

    let found = parser.parse(vec!["add", "2", "3", "4"]).unwrap();
    assert!(found.has("add"));
    assert!(found.has_with_id(id));
    assert!(!found.has("+"));
    assert_eq!(*seen.borrow(), vec![strings(&["2", "3", "4"])]);
    assert_eq!(*sum.borrow(), 9.0);
    assert_eq!(found.get("add").unwrap().values(), &strings(&["2", "3", "4"]));
}

#[test]
fn subcommand_needs_its_command() {
    let mut parser = Parser::new();
    let count = parser.add("-c", 0, "Count something");
    let add = parser.add_subcommand(count, "--add", 2, "Add two numbers");

    let error = parser.parse(vec!["--add", "1", "2"]).err().unwrap();
    assert_eq!(
        error,
        HpError::OutOfContext("--add".to_string(), "-c".to_string())
    );

    let found = parser.parse(vec!["-c", "--add", "1", "2"]).unwrap();
    assert!(found.has("-c"));
    assert!(!found.has("--add"));
    let sub = found.get_with_context(count, "--add").unwrap();
    assert_eq!(sub.id(), add);
    assert_eq!(sub.values(), &strings(&["1", "2"]));
    assert_eq!(found.get_with_id(add).unwrap().values(), &strings(&["1", "2"]));
}

#[test]
fn subcommand_is_lost_when_another_argument_comes_between() {
    let mut parser = Parser::new();
    let count = parser.add("-c", 0, "Count something");
    parser.add("--say", 0, "Say something");
    parser.add_subcommand(count, "--add", 0, "Add");

    assert!(parser.parse(vec!["-c", "--add"]).is_ok());
    let error = parser.parse(vec!["-c", "--say", "--add"]).err().unwrap();
    assert_eq!(
        error,
        HpError::OutOfContext("--add".to_string(), "-c".to_string())
    );
}

#[test]
fn values_stop_at_the_next_argument() {
    let mut parser = Parser::new();
    let list = parser.add_template(
        Template::new()
            .matches("--list")
            .number_of_values(5)
            .optional_values(true),
    );
    parser.add("--flag", 0, "A flag");
    parser.add_subcommand(list, "--sorted", 0, "Sort the list");

    let found = parser
        .parse(vec!["--list", "a", "b", "--flag", "c"])
        .unwrap();
    assert_eq!(found.get("--list").unwrap().values(), &strings(&["a", "b"]));
    assert!(found.has("--flag"));

    let found = parser.parse(vec!["--list", "a", "--sorted", "b"]).unwrap();
    assert_eq!(found.get("--list").unwrap().values(), &strings(&["a"]));
    assert!(found.has_with_context(list, "--sorted"));
}

#[test]
fn values_stop_at_the_limit() {
    let mut parser = Parser::new();
    parser.add("--pair", 2, "Two values");
    let found = parser.parse(vec!["--pair", "a", "b", "c", "d"]).unwrap();
    assert_eq!(found.get("--pair").unwrap().values(), &strings(&["a", "b"]));
    assert_eq!(found.occurrences().len(), 1);
}

#[test]
fn anything_not_registered_can_be_a_value() {
    let mut parser = Parser::new();
    parser.add("--name", 2, "Two names");
    let found = parser.parse(vec!["--name", "--unknown", "-z"]).unwrap();
    assert_eq!(
        found.get("--name").unwrap().values(),
        &strings(&["--unknown", "-z"])
    );
}

#[test]
fn tokens_that_are_no_arguments_are_passed_over() {
    let mut parser = Parser::new();
    parser.add("--flag", 0, "A flag");
    let found = parser.parse(vec!["noise", "--flag", "more"]).unwrap();
    assert!(found.has("--flag"));
    assert_eq!(found.occurrences().len(), 1);

    let found = parser.parse(vec![]).unwrap();
    assert_eq!(found.occurrences().len(), 0);
    assert!(!found.help_requested());
}

#[test]
fn a_subcommand_taken_as_a_value_still_fails() {
    let mut parser = Parser::new();
    let count = parser.add("-c", 0, "Count something");
    parser.add_subcommand(count, "--add", 0, "Add");
    parser.add_template(
        Template::new()
            .matches("say")
            .number_of_values(1)
            .optional_values(true),
    );
    let error = parser.parse(vec!["say", "--add"]).err().unwrap();
    assert_eq!(
        error,
        HpError::OutOfContext("--add".to_string(), "-c".to_string())
    );
}

#[test]
fn the_last_occurrence_answers_and_each_one_runs_the_action() {
    let seen: Rc<RefCell<Vec<Vec<String>>>> = Rc::new(RefCell::new(Vec::new()));
    let log = seen.clone();

    let mut parser = Parser::new();
    let say = parser.add_template(
        Template::new()
            .matches("say")
            .number_of_values(1)
            .on_parse(move |values| log.borrow_mut().push(values)),
    );

    let found = parser.parse(vec!["say", "a", "say", "b"]).unwrap();
    assert_eq!(found.get("say").unwrap().values(), &strings(&["b"]));
    assert_eq!(found.get_with_id(say).unwrap().values(), &strings(&["b"]));
    assert_eq!(*seen.borrow(), vec![strings(&["a"]), strings(&["b"])]);

    let all = found.occurrences();
    assert_eq!(all.len(), 2);
    assert_eq!(all[0].values(), &strings(&["a"]));
    assert_eq!(all[1].values(), &strings(&["b"]));
    assert_eq!(all[0].id(), say);
    assert_eq!(all[1].id(), say);
}

#[test]
fn an_occurrence_knows_how_it_was_written() {
    let mut parser = Parser::new();
    let count = parser.add_template(Template::new().matches("-c").matches("--count"));
    let add = parser.add_subcommand(count, "--add", 2, "Add two numbers");

    let found = parser.parse(vec!["--count", "--add", "1", "2"]).unwrap();
    let all = found.occurrences();
    assert_eq!(all.len(), 2);
    assert_eq!(all[0].name(), "--count");
    assert_eq!(all[0].context(), 0);
    assert_eq!(all[0].id(), count);
    assert_eq!(all[0].number_of_values(), 0);
    assert_eq!(all[1].name(), "--add");
    assert_eq!(all[1].context(), count);
    assert_eq!(all[1].id(), add);
    assert_eq!(all[1].number_of_values(), 2);
    assert!(found.has("--count"));
    assert!(!found.has("-c"));
}

#[test]
fn no_action_runs_for_the_argument_that_fails() {
    let seen: Rc<RefCell<Vec<Vec<String>>>> = Rc::new(RefCell::new(Vec::new()));
    let mut parser = Parser::new();
    let log = seen.clone();
    parser.add_template(
        Template::new()
            .matches("one")
            .number_of_values(1)
            .on_parse(move |values| log.borrow_mut().push(values)),
    );
    let log = seen.clone();
    parser.add_template(
        Template::new()
            .matches("two")
            .number_of_values(2)
            .on_parse(move |values| log.borrow_mut().push(values)),
    );
    let error = parser.parse(vec!["one", "x", "two", "y"]).err().unwrap();
    assert_eq!(error, HpError::NumberOfValues("two".to_string(), 1, 2));
    assert_eq!(*seen.borrow(), vec![strings(&["x"])]);
}

#[test]
fn two_passes_give_the_same_result() {
    let mut parser = Parser::new();
    let count = parser.add("-c", 0, "Count something");
    let add = parser.add_subcommand(count, "--add", 2, "Add two numbers");
    parser.add("--say", 1, "Say something");

    let tokens = vec!["-c", "--add", "1", "2", "--say", "hi", "junk"];
    let first = parser.parse(tokens.clone()).unwrap();
    let second = parser.parse(tokens).unwrap();

    assert_eq!(first.occurrences().len(), second.occurrences().len());
    for (a, b) in first.occurrences().iter().zip(second.occurrences().iter()) {
        assert_eq!(a.id(), b.id());
        assert_eq!(a.values(), b.values());
    }
    assert_eq!(first.has("-c"), second.has("-c"));
    assert_eq!(
        first.get_with_context(count, "--add").unwrap().values(),
        second.get_with_context(count, "--add").unwrap().values()
    );
    assert_eq!(first.has_with_id(add), second.has_with_id(add));
    assert_eq!(first.help_requested(), second.help_requested());

    let bad = vec!["--add"];
    assert_eq!(
        parser.parse(bad.clone()).err().unwrap(),
        parser.parse(bad).err().unwrap()
    );
}

#[test]
fn an_argument_without_values_still_changes_the_context() {
    let mut parser = Parser::new();
    let outer = parser.add("outer", 0, "Outer command");
    let inner = parser.add_subcommand(outer, "inner", 0, "Inner command");
    let leaf = parser.add_subcommand(inner, "leaf", 1, "Leaf command");

    let found = parser.parse(vec!["outer", "inner", "leaf", "v"]).unwrap();
    assert!(found.has("outer"));
    assert!(found.has_with_context(outer, "inner"));
    assert_eq!(
        found.get_with_context(inner, "leaf").unwrap().values(),
        &strings(&["v"])
    );
    assert_eq!(found.get_with_id(leaf).unwrap().id(), leaf);

    let error = parser.parse(vec!["outer", "leaf", "v"]).err().unwrap();
    assert_eq!(
        error,
        HpError::OutOfContext("leaf".to_string(), "inner".to_string())
    );
}

#[test]
fn the_same_alias_can_stand_in_two_contexts() {
    let mut parser = Parser::new();
    let one = parser.add("one", 0, "First command");
    let two = parser.add("two", 0, "Second command");
    let under_one = parser.add_subcommand(one, "--go", 0, "Go, the first way");
    let under_two = parser.add_subcommand(two, "--go", 1, "Go, the second way");

    let found = parser.parse(vec!["one", "--go"]).unwrap();
    assert_eq!(found.get_with_context(one, "--go").unwrap().id(), under_one);
    assert!(!found.has_with_context(two, "--go"));

    let found = parser.parse(vec!["two", "--go", "far"]).unwrap();
    assert_eq!(found.get_with_context(two, "--go").unwrap().id(), under_two);
    assert_eq!(
        found.get_with_context(two, "--go").unwrap().values(),
        &strings(&["far"])
    );
}

#[test]
fn help_ends_the_pass_when_the_parser_is_set_so() {
    let mut parser = Parser::new();
    parser.add("--first", 0, "First");
    parser.add("--second", 1, "Second");

    let found = parser.parse(vec!["--first", "--help", "--second"]).unwrap();
    assert!(found.help_requested());
    assert!(found.has("--first"));
    assert!(!found.has("--second"));

    let found = parser.parse(vec!["-h"]).unwrap();
    assert!(found.help_requested());

    let found = parser.parse(vec!["--first"]).unwrap();
    assert!(!found.help_requested());

    let error = parser.parse(vec!["--second", "--help"]).err();
    assert!(error.is_none());
}

#[test]
fn help_is_noted_and_the_pass_goes_on_otherwise() {
    let mut parser = Parser::new().exit_on_help(false);
    parser.add("--first", 0, "First");
    parser.add("--second", 1, "Second");

    let found = parser
        .parse(vec!["--first", "--help", "--second", "v"])
        .unwrap();
    assert!(found.help_requested());
    assert!(found.has("--first"));
    assert_eq!(found.get("--second").unwrap().values(), &strings(&["v"]));

    let error = parser.parse(vec!["-h", "--second"]).err().unwrap();
    assert_eq!(error, HpError::NumberOfValues("--second".to_string(), 0, 1));
}

#[test]
fn help_aliases() {
    assert!(is_help_alias("--help"));
    assert!(is_help_alias("-h"));
    assert!(!is_help_alias("--helps"));
    assert!(!is_help_alias("-H"));
    assert!(!is_help_alias(""));
    assert!(!is_help_alias("help"));
}

#[test]
fn a_pass_can_be_taken_token_by_token() {
    let seen: Rc<RefCell<Vec<Vec<String>>>> = Rc::new(RefCell::new(Vec::new()));
    let log = seen.clone();
    let mut parser = Parser::new();
    let count = parser.add("-c", 0, "Count something");
    let add = parser.add_subcommand_template(
        count,
        Template::new()
            .matches("--add")
            .number_of_values(2)
            .on_parse(move |values| log.borrow_mut().push(values)),
    );
    let args = strings(&["-c", "--add", "1", "2"]);

    let pass = Pass::new();
    assert_eq!(pass.position(), 0);
    assert_eq!(pass.context(), 0);

    let pass = parser.advance(pass, &args).ok().unwrap();
    assert_eq!(pass.position(), 1);
    assert_eq!(pass.context(), count);
    assert!(seen.borrow().is_empty());

    let pass = parser.advance(pass, &args).ok().unwrap();
    assert_eq!(pass.position(), 2);
    assert_eq!(pass.context(), add);
    assert_eq!(*seen.borrow(), vec![strings(&["1", "2"])]);

    let pass = parser.advance(pass, &args).ok().unwrap();
    let pass = parser.advance(pass, &args).ok().unwrap();
    assert_eq!(pass.position(), 4);
    assert_eq!(pass.context(), add);

    let pass = parser.advance(pass, &args).ok().unwrap();
    assert_eq!(pass.position(), 4);

    let found = pass.into_found();
    assert_eq!(found.occurrences().len(), 2);
    assert_eq!(
        found.get_with_context(count, "--add").unwrap().values(),
        &strings(&["1", "2"])
    );
    assert_eq!(seen.borrow().len(), 1);

    let failed = parser.advance(Pass::new(), &strings(&["--add"]));
    assert_eq!(
        failed.err().unwrap(),
        HpError::OutOfContext("--add".to_string(), "-c".to_string())
    );
}
