use ado::durable::{outcome, FileOp};
use ado::error::Error;
use ado::file::FileTodoList;
use ado::front::{Command, FrontError};
use ado::picker::TaskPicker;

fn picker_with(names: &[&str]) -> TaskPicker<FileTodoList> {
    let store = FileTodoList::new("dir", vec![], &vec![]).unwrap();
    let mut picker = TaskPicker::new(store);
    for name in names {
        picker.create(String::from(*name)).unwrap();
    }
    picker
}

fn is_nothing(op: &FileOp) -> bool {
    matches!(op, FileOp::Nothing)
}

#[test]
fn outcome_wraps_the_cause() {
    assert_eq!(outcome(Ok(())), Ok(()));
    assert_eq!(
        outcome(Err(String::from("read-only file system"))),
        Err(FrontError::Ado(Error::External(String::from("read-only file system"))))
    );
}

#[test]
fn remove_deletes_the_file_first() {
    let mut picker = picker_with(&["A", "B", "C"]);
    picker.up().unwrap();
    match picker.before(Command::Remove).unwrap() {
        FileOp::Delete(file_name) => assert_eq!(file_name, "dir/00002"),
        other => panic!("not a deletion: {:?}", other),
    }
    assert_eq!(picker.len(), Ok(3));
    let result = picker.run(Command::Remove);
    assert_eq!(result, Ok(()));
    assert!(is_nothing(&picker.after(Command::Remove, &result)));
}

#[test]
fn remove_on_an_empty_store_asks_for_nothing() {
    let picker = picker_with(&[]);
    assert_eq!(
        picker.before(Command::Remove).err(),
        Some(FrontError::Ado(Error::NoSuchTask))
    );
}

#[test]
fn other_commands_need_no_file_before() {
    let picker = picker_with(&["A"]);
    for command in [
        Command::Left,
        Command::Down,
        Command::Up,
        Command::Right,
        Command::Top,
        Command::Bottom,
    ] {
        assert!(is_nothing(&picker.before(command).unwrap()));
    }
    let empty = picker_with(&[]);
    assert!(is_nothing(&empty.before(Command::Right).unwrap()));
}

#[test]
fn a_move_writes_the_file_again() {
    let mut picker = picker_with(&["A", "B"]);
    let result = picker.run(Command::Right);
    match picker.after(Command::Right, &result) {
        FileOp::Write(file) => {
            assert_eq!(file.file_name, "dir/00002");
            assert_eq!(file.content, "B\nDone");
        }
        other => panic!("not a write: {:?}", other),
    }
    picker.top().unwrap();
    let result = picker.run(Command::Left);
    match picker.after(Command::Left, &result) {
        FileOp::Write(file) => {
            assert_eq!(file.file_name, "dir/00001");
            assert_eq!(file.content, "A\nWont");
        }
        other => panic!("not a write: {:?}", other),
    }
}

#[test]
fn a_refused_move_writes_nothing() {
    let mut picker = picker_with(&["A"]);
    picker.run(Command::Right).unwrap();
    let refused = picker.run(Command::Right);
    assert_eq!(refused, Err(FrontError::Ado(Error::AlreadyDone)));
    assert!(is_nothing(&picker.after(Command::Right, &refused)));
    let mut empty = picker_with(&[]);
    let missing = empty.run(Command::Left);
    assert!(is_nothing(&empty.after(Command::Left, &missing)));
}

#[test]
fn moving_the_cursor_writes_nothing() {
    let mut picker = picker_with(&["A", "B"]);
    for command in [Command::Down, Command::Up, Command::Top, Command::Bottom] {
        let result = picker.run(command);
        assert!(is_nothing(&picker.after(command, &result)));
    }
}

#[test]
fn create_writes_the_next_file_first() {
    let mut picker = picker_with(&["A"]);
    let file = picker.before_create("Buy milk");
    assert_eq!(file.file_name, "dir/00002");
    assert_eq!(file.content, "Buy milk\nOpen");
    assert_eq!(picker.len(), Ok(1));
    assert_eq!(picker.create(String::from("Buy milk")), Ok(2));
}
