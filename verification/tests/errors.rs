use cmdshell::settle;
use cmdshell::ExecError;
use cmdshell::Step;

#[test]
fn message_of_each_variant() {
    assert_eq!(ExecError::Quit.message(), "Quit");
    assert_eq!(ExecError::MissingArgs.message(), "Not enough arguments");
    assert_eq!(ExecError::UnknownCommand("foo".to_string()).message(), "Unknown Command foo");
    assert_eq!(ExecError::UnknownCommand(String::new()).message(), "Unknown Command ");
    assert_eq!(ExecError::Other("disk full".to_string()).message(), "disk full");
    assert_eq!(ExecError::Other(String::new()).message(), "");
}

#[test]
fn description_of_each_variant() {
    assert_eq!(ExecError::Quit.description(), "The command requested to quit");
    assert_eq!(
        ExecError::UnknownCommand("foo".to_string()).description(),
        "The provided command is unknown"
    );
    assert_eq!(ExecError::MissingArgs.description(), "Not enough arguments have been provided");
    assert_eq!(ExecError::Other("x".to_string()).description(), "Other error occured");
}

#[test]
fn description_does_not_depend_on_payload() {
    assert_eq!(
        ExecError::UnknownCommand("a".to_string()).description(),
        ExecError::UnknownCommand("b".to_string()).description()
    );
    assert_eq!(
        ExecError::Other("a".to_string()).description(),
        ExecError::Other("b".to_string()).description()
    );
}

#[test]
fn settle_stops_on_quit_without_output() {
    assert_eq!(settle(Err(ExecError::Quit)), Step::Stop);
}

#[test]
fn settle_shows_every_other_error_once() {
    assert_eq!(
        settle(Err(ExecError::MissingArgs)),
        Step::Continue(vec!["Not enough arguments".to_string()])
    );
    assert_eq!(
        settle(Err(ExecError::UnknownCommand("foo".to_string()))),
        Step::Continue(vec!["Unknown Command foo".to_string()])
    );
    assert_eq!(
        settle(Err(ExecError::Other("boom".to_string()))),
        Step::Continue(vec!["boom".to_string()])
    );
}

#[test]
fn settle_passes_output_of_a_success_on() {
    assert_eq!(settle(Ok(Vec::new())), Step::Continue(Vec::new()));
    let lines = vec!["a :\tfirst".to_string(), "b :\tsecond".to_string()];
    assert_eq!(settle(Ok(lines.clone())), Step::Continue(lines));
}
