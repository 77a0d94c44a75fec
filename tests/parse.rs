use cmdline_schema::parser::{key_of_option, parse, ParseError, ParsedArguments};
use cmdline_schema::schema::{ArgumentSpec, CommandSchema, OptionSpec};

fn s(x: &str) -> String {
    x.to_string()
}

fn toks(xs: &[&str]) -> Vec<String> {
    xs.iter().map(|x| x.to_string()).collect()
}

fn help_schema() -> CommandSchema {
    CommandSchema::build(
        s("echo"),
        s("Display a line of text"),
        vec![ArgumentSpec::new(s("string"), s("Output text"))],
        vec![OptionSpec::flag(s("--help"), s("-h"), s("Show help"))],
    )
    .ok()
    .unwrap()
}

fn rich_schema() -> CommandSchema {
    CommandSchema::build(
        s("copy"),
        s("Copy things"),
        vec![
            ArgumentSpec::with_arity(s("src"), 2, s("Sources")),
            ArgumentSpec::new(s("dst"), s("Destination")),
        ],
        vec![
            OptionSpec::with_arity(s("--range"), s("-r"), 2, s("A range")),
            OptionSpec::flag(s("--verbose"), s(""), s("Talk more")),
        ],
    )
    .ok()
    .unwrap()
}

fn entries(p: &ParsedArguments) -> Vec<(String, Vec<String>)> {
    let mut out = Vec::new();
    for i in 0..p.len() {
        let e = p.entry(i);
        out.push((e.key.clone(), e.values.clone()));
    }
    out
}

#[test]
fn single_positional() {
    let p = parse(&help_schema(), &toks(&["hello"])).ok().unwrap();
    assert_eq!(entries(&p), vec![(s("string"), toks(&["hello"]))]);
}

#[test]
fn flag_then_positional() {
    let p = parse(&help_schema(), &toks(&["-h", "hello"])).ok().unwrap();
    assert_eq!(p.get("help"), Some(&Vec::new()));
    assert_eq!(p.get("string"), Some(&toks(&["hello"])));
    assert_eq!(entries(&p), vec![(s("help"), vec![]), (s("string"), toks(&["hello"]))]);
}

#[test]
fn long_flag_after_positional() {
    let p = parse(&help_schema(), &toks(&["hello", "--help"])).ok().unwrap();
    assert_eq!(entries(&p), vec![(s("string"), toks(&["hello"])), (s("help"), vec![])]);
}

#[test]
fn empty_input_missing_argument() {
    match parse(&help_schema(), &toks(&[])) {
        Err(ParseError::MissingRequiredArgument(n)) => assert_eq!(n, "string"),
        _ => panic!("expected a missing argument"),
    }
}

#[test]
fn bogus_option_is_unknown() {
    match parse(&help_schema(), &toks(&["--bogus"])) {
        Err(ParseError::UnknownOption(t)) => assert_eq!(t, "--bogus"),
        _ => panic!("expected an unknown option"),
    }
}

#[test]
fn unknown_option_after_positional() {
    match parse(&help_schema(), &toks(&["hello", "-x"])) {
        Err(ParseError::UnknownOption(t)) => assert_eq!(t, "-x"),
        _ => panic!("expected an unknown option"),
    }
}

#[test]
fn extra_positional_is_unexpected() {
    match parse(&help_schema(), &toks(&["hello", "world"])) {
        Err(ParseError::UnexpectedArgument(t)) => assert_eq!(t, "world"),
        _ => panic!("expected an unexpected argument"),
    }
}

#[test]
fn option_arity_two_with_one_value() {
    match parse(&rich_schema(), &toks(&["--range", "1"])) {
        Err(ParseError::MissingOptionParameter(k)) => assert_eq!(k, "range"),
        _ => panic!("expected a missing option parameter"),
    }
}

#[test]
fn option_parameter_stops_at_option_form() {
    match parse(&rich_schema(), &toks(&["-r", "1", "--verbose", "a", "b", "c"])) {
        Err(ParseError::MissingOptionParameter(k)) => assert_eq!(k, "range"),
        _ => panic!("expected a missing option parameter"),
    }
}

#[test]
fn option_parameters_may_start_with_dash() {
    let p = parse(&rich_schema(), &toks(&["-r", "-1", "5", "a", "b", "c"])).ok().unwrap();
    assert_eq!(p.get("range"), Some(&toks(&["-1", "5"])));
    assert_eq!(p.get("src"), Some(&toks(&["a", "b"])));
    assert_eq!(p.get("dst"), Some(&toks(&["c"])));
}

#[test]
fn positional_round_trip() {
    let p = parse(&rich_schema(), &toks(&["a", "b", "c"])).ok().unwrap();
    assert_eq!(entries(&p), vec![(s("src"), toks(&["a", "b"])), (s("dst"), toks(&["c"]))]);
}

#[test]
fn positional_takes_following_tokens_raw() {
    let p = parse(&rich_schema(), &toks(&["a", "--verbose", "c"])).ok().unwrap();
    assert_eq!(p.get("src"), Some(&toks(&["a", "--verbose"])));
    assert!(!p.contains("verbose"));
}

#[test]
fn positional_short_of_values() {
    match parse(&rich_schema(), &toks(&["a"])) {
        Err(ParseError::MissingPositionalValue(n)) => assert_eq!(n, "src"),
        _ => panic!("expected a missing positional value"),
    }
}

#[test]
fn second_positional_missing() {
    match parse(&rich_schema(), &toks(&["a", "b", "--verbose"])) {
        Err(ParseError::MissingRequiredArgument(n)) => assert_eq!(n, "dst"),
        _ => panic!("expected a missing argument"),
    }
}

#[test]
fn repeated_option_first_entry_wins_lookup() {
    let p = parse(&rich_schema(), &toks(&["-r", "1", "2", "--range", "3", "4", "a", "b", "c"]))
        .ok()
        .unwrap();
    assert_eq!(p.len(), 4);
    assert_eq!(p.get("range"), Some(&toks(&["1", "2"])));
    assert_eq!(p.get("missing"), None);
}

#[test]
fn parse_is_repeatable() {
    let schema = rich_schema();
    let t = toks(&["a", "b", "--verbose", "c"]);
    let a = entries(&parse(&schema, &t).ok().unwrap());
    let b = entries(&parse(&schema, &t).ok().unwrap());
    assert_eq!(a, b);
}

#[test]
fn option_keys_strip_dashes() {
    assert_eq!(key_of_option(&s("--help")), "help");
    assert_eq!(key_of_option(&s("-v")), "v");
    assert_eq!(key_of_option(&s("plain")), "plain");
    assert_eq!(key_of_option(&s("---x")), "-x");
}
