use ado::error::Error;
use ado::front::{press, report, Command, FrontError, Pending, Step};

#[test]
fn single_keys() {
    assert_eq!(press(Pending::Nothing, 'q'), Step::Quit);
    assert_eq!(press(Pending::Nothing, 'h'), Step::Run(Command::Left));
    assert_eq!(press(Pending::Nothing, 'j'), Step::Run(Command::Down));
    assert_eq!(press(Pending::Nothing, 'k'), Step::Run(Command::Up));
    assert_eq!(press(Pending::Nothing, 'l'), Step::Run(Command::Right));
    assert_eq!(press(Pending::Nothing, 'o'), Step::AskName);
    assert_eq!(press(Pending::Nothing, 'G'), Step::Run(Command::Bottom));
    assert_eq!(press(Pending::Nothing, 'D'), Step::Run(Command::Remove));
}

#[test]
fn first_keys_of_two() {
    assert_eq!(press(Pending::Nothing, 'g'), Step::Await(Pending::Top));
    assert_eq!(press(Pending::Nothing, 'd'), Step::Await(Pending::Remove));
}

#[test]
fn second_keys_of_two() {
    assert_eq!(press(Pending::Top, 'g'), Step::Run(Command::Top));
    assert_eq!(press(Pending::Remove, 'd'), Step::Run(Command::Remove));
}

#[test]
fn a_wrong_second_key_spoils_the_command() {
    assert_eq!(press(Pending::Top, 'd'), Step::Unknown);
    assert_eq!(press(Pending::Top, 'G'), Step::Unknown);
    assert_eq!(press(Pending::Top, 'q'), Step::Unknown);
    assert_eq!(press(Pending::Top, 'j'), Step::Unknown);
    assert_eq!(press(Pending::Remove, 'g'), Step::Unknown);
    assert_eq!(press(Pending::Remove, 'D'), Step::Unknown);
    assert_eq!(press(Pending::Remove, 'q'), Step::Unknown);
}

#[test]
fn other_keys_stand_for_nothing() {
    for key in ['a', 'x', 'Q', 'H', 'J', 'K', 'L', 'O', ' ', '\n', '0', 'é', '\u{0}'] {
        assert_eq!(press(Pending::Nothing, key), Step::Unknown);
    }
}

#[test]
fn front_error_descriptions() {
    assert_eq!(FrontError::NoSuchCommand.description(), "Command not recognised");
    assert_eq!(
        FrontError::Ado(Error::AlreadyDone).description(),
        "The task is already finished"
    );
    assert_eq!(
        FrontError::Ado(Error::AlreadyWont).description(),
        "The task has already been closed"
    );
    assert_eq!(FrontError::Ado(Error::NoSuchTask).description(), "No such task could be found");
    assert_eq!(
        FrontError::Ado(Error::External(String::from("gone"))).description(),
        "An external error occured"
    );
}

#[test]
fn front_error_from_error() {
    assert_eq!(FrontError::from(Error::NoSuchTask), FrontError::Ado(Error::NoSuchTask));
    let through: Result<(), FrontError> = Err(Error::AlreadyDone).map_err(FrontError::from);
    assert_eq!(through, Err(FrontError::Ado(Error::AlreadyDone)));
}

#[test]
fn report_is_empty_after_success() {
    assert_eq!(report(&Ok(())), "");
}

#[test]
fn report_names_the_failure() {
    assert_eq!(report(&Err(FrontError::NoSuchCommand)), "Command not recognised\n");
    assert_eq!(
        report(&Err(FrontError::Ado(Error::NoSuchTask))),
        "No such task could be found\n"
    );
}
