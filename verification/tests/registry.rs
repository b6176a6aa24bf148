use cmdshell::Command;
use cmdshell::Handler;
use cmdshell::Shell;

/// Sets the state to its own number.
struct Mark(u32);

impl Handler<u32> for Mark {
    fn call(&self, state: &mut u32, _args: &[&str]) {
        *state = self.0;
    }
}

#[test]
fn new_shell_is_empty_with_default_prompt() {
    let shell: Shell<u32, Mark> = Shell::new(42);
    assert_eq!(shell.len(), 0);
    assert_eq!(shell.prompt(), ">");
    assert_eq!(*shell.value(), 42);
    assert_eq!(shell.help(), Ok(Vec::new()));
}

#[test]
fn set_prompt_takes_any_text() {
    let mut shell: Shell<u32, Mark> = Shell::new(0);
    shell.set_prompt("shell$ ".to_string());
    assert_eq!(shell.prompt(), "shell$ ");
    shell.set_prompt(String::new());
    assert_eq!(shell.prompt(), "");
    assert_eq!(shell.len(), 0);
    assert_eq!(*shell.value(), 0);
}

#[test]
fn command_help_line_and_name() {
    let cmd = Command::new("echo".to_string(), "prints".to_string(), 1, Mark(1));
    assert_eq!(cmd.name(), "echo");
    assert_eq!(cmd.help(), "echo :\tprints");
    let bare = Command::new(String::new(), String::new(), 0, Mark(1));
    assert_eq!(bare.help(), " :\t");
}

#[test]
fn help_is_sorted_by_name_with_one_line_each() {
    let mut shell: Shell<u32, Mark> = Shell::new(0);
    for (i, name) in ["pear", "apple", "zebra", "Apple", "app", "apples", "\u{e9}clair", "fig"]
        .iter()
        .enumerate()
    {
        shell.new_command(name, "d", 0, Mark(i as u32));
    }
    let lines = shell.help().unwrap();
    let mut names: Vec<&str> =
        vec!["pear", "apple", "zebra", "Apple", "app", "apples", "\u{e9}clair", "fig"];
    names.sort();
    let expected: Vec<String> = names.iter().map(|n| format!("{} :\td", n)).collect();
    assert_eq!(lines, expected);
    assert_eq!(shell.len(), 8);
    assert_eq!(lines[0], "Apple :\td");
    assert_eq!(lines[7], "\u{e9}clair :\td");
}

#[test]
fn help_order_does_not_depend_on_registration_order() {
    let mut forward: Shell<u32, Mark> = Shell::new(0);
    let mut backward: Shell<u32, Mark> = Shell::new(0);
    let names = ["a", "b", "c", "d", "e"];
    for name in names {
        forward.new_command(name, "x", 0, Mark(0));
    }
    for name in names.iter().rev() {
        backward.new_command(name, "x", 0, Mark(0));
    }
    assert_eq!(forward.help(), backward.help());
    assert_eq!(
        forward.help().unwrap(),
        vec!["a :\tx", "b :\tx", "c :\tx", "d :\tx", "e :\tx"]
    );
}

#[test]
fn second_registration_replaces_the_first() {
    let mut shell: Shell<u32, Mark> = Shell::new(0);
    shell.new_command("set", "first", 0, Mark(1));
    shell.new_command("other", "stays", 0, Mark(7));
    shell.register_command(Command::new("set".to_string(), "second".to_string(), 0, Mark(2)));
    assert_eq!(shell.len(), 2);
    assert_eq!(shell.help().unwrap(), vec!["other :\tstays", "set :\tsecond"]);
    assert_eq!(shell.run("set"), Ok(Vec::new()));
    assert_eq!(*shell.value(), 2);
    assert_eq!(shell.run("other"), Ok(Vec::new()));
    assert_eq!(*shell.value(), 7);
}

#[test]
fn replacement_changes_the_argument_count_too() {
    let mut shell: Shell<u32, Mark> = Shell::new(0);
    shell.new_command("set", "lenient", 0, Mark(1));
    shell.new_command("set", "strict", 3, Mark(2));
    assert_eq!(shell.run("set a b"), Err(cmdshell::ExecError::MissingArgs));
    assert_eq!(*shell.value(), 0);
    assert_eq!(shell.run("set a b c"), Ok(Vec::new()));
    assert_eq!(*shell.value(), 2);
}

#[test]
fn names_are_not_validated() {
    let mut shell: Shell<u32, Mark> = Shell::new(0);
    shell.new_command("", "empty name", 0, Mark(1));
    shell.new_command("two words", "never matched", 0, Mark(2));
    assert_eq!(shell.len(), 2);
    assert_eq!(shell.help().unwrap(), vec![" :\tempty name", "two words :\tnever matched"]);
    assert_eq!(
        shell.run("two words"),
        Err(cmdshell::ExecError::UnknownCommand("two".to_string()))
    );
    assert_eq!(*shell.value(), 0);
}
