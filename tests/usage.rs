use cmdline_schema::command::Command;
use cmdline_schema::schema::{ArgumentSpec, CommandSchema, OptionSpec};
use cmdline_schema::usage::render;

fn s(x: &str) -> String {
    x.to_string()
}

fn schema() -> CommandSchema {
    CommandSchema::build(
        s("pl-ls"),
        s("List files"),
        vec![
            ArgumentSpec::new(s("file"), s("Files to list")),
            ArgumentSpec::new(s("dir"), s("A directory")),
        ],
        vec![
            OptionSpec::flag(s("--all"), s("-a"), s("Do not ignore hidden entries")),
            OptionSpec::flag(s("--long"), s("-l"), s("Use a long listing format")),
        ],
    )
    .ok()
    .unwrap()
}

#[test]
fn usage_exact_layout() {
    assert_eq!(
        render(&schema()),
        "List files\n\nUsage: pl-ls [options] file dir\n\nArguments:\nfile\tFiles to list\ndir\tA directory\n\nOptions:\n-a, --all\tDo not ignore hidden entries\n-l, --long\tUse a long listing format"
    );
}

#[test]
fn usage_of_empty_schema() {
    let sc = CommandSchema::build(s("x"), s("d"), vec![], vec![]).ok().unwrap();
    assert_eq!(render(&sc), "d\n\nUsage: x [options] \n\nArguments:\n\n\nOptions:\n");
}

#[test]
fn usage_is_stable() {
    let a = render(&schema());
    let b = render(&schema());
    assert_eq!(a, b);
    let cmd = Command::new(schema());
    assert_eq!(cmd.usage(), a);
    assert_eq!(cmd.schema().name(), "pl-ls");
}
