use cmdline_schema::command::Command;
use cmdline_schema::schema::{ArgumentSpec, CommandSchema, OptionSpec};

#[test]
fn test_func() {}

fn echo_command() -> Command {
    let schema = CommandSchema::build(
        "pl-echo".to_string(),
        "Display a line of text".to_string(),
        vec![ArgumentSpec::new("string".to_string(), "Output text".to_string())],
        vec![OptionSpec::flag(
            "--no-newline".to_string(),
            "-n".to_string(),
            "Do not output the trailing newline".to_string(),
        )],
    );
    match schema {
        Ok(s) => Command::new(s),
        Err(_) => panic!("the echo schema is valid"),
    }
}

#[test]
fn echo_single_word() {
    let cmd = echo_command();
    let parsed = cmd.parse(&vec!["hello".to_string()]).ok().unwrap();
    assert_eq!(parsed.get("string"), Some(&vec!["hello".to_string()]));
    assert!(!parsed.contains("no-newline"));
}

#[test]
fn echo_flag_and_word() {
    let cmd = echo_command();
    let parsed = cmd.parse(&vec!["-n".to_string(), "hello world".to_string()]).ok().unwrap();
    assert_eq!(parsed.get("string"), Some(&vec!["hello world".to_string()]));
    assert_eq!(parsed.get("no-newline"), Some(&Vec::<String>::new()));
}

#[test]
fn echo_invalid_option_with_usage() {
    let cmd = echo_command();
    match cmd.parse(&vec!["-blah".to_string()]) {
        Err(cmdline_schema::parser::ParseError::UnknownOption(t)) => assert_eq!(t, "-blah"),
        _ => panic!("expected an unknown option"),
    }
    assert!(cmd.usage().contains("Usage"));
}
